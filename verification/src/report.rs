//! Errors in one line.

use vstd::prelude::*;
use vstd::string::*;

use crate::text::{chars_of, concatenate, contains, has_text, join, joined, texts, unicode_lower};

verus! {

broadcast use vstd::string::group_string_axioms;

/// What an error is about.
#[derive(Clone, Copy, PartialEq, Eq, Structural, Debug)]
pub enum ErrorTopic {
    Authentication,
    HostKey,
    Connection,
    Forwarding,
    ProxyJump,
    Unknown,
}

/// Whether one of two texts stands in `s`.
pub open spec fn has_either(s: Seq<char>, a: Seq<char>, b: Seq<char>) -> bool {
    has_text(s, a) || has_text(s, b)
}

/// What a text in lower case is about: the first topic of which a keyword
/// stands in it.
pub open spec fn topic(s: Seq<char>) -> ErrorTopic {
    if has_either(s, "authentication"@, "permission denied"@) || has_either(
        s,
        "auth failed"@,
        "not authenticated"@,
    ) {
        ErrorTopic::Authentication
    } else if has_either(s, "host key"@, "host identification"@) || has_either(
        s,
        "knownhosts"@,
        "known_hosts"@,
    ) {
        ErrorTopic::HostKey
    } else if has_either(s, "connection refused"@, "connection timed out"@) || has_either(
        s,
        "failed to connect"@,
        "connection reset"@,
    ) || has_either(s, "dns"@, "resolve"@) || has_either(
        s,
        "no route to host"@,
        "network is unreachable"@,
    ) {
        ErrorTopic::Connection
    } else if has_either(s, "channel open"@, "forward"@) || has_either(
        s,
        "sftp"@,
        "subsystem"@,
    ) {
        ErrorTopic::Forwarding
    } else if has_either(s, "proxyjump"@, "proxy jump"@) {
        ErrorTopic::ProxyJump
    } else {
        ErrorTopic::Unknown
    }
}

/// The line for an error on a topic, from its outermost message.
pub open spec fn error_line(topic: ErrorTopic, first: Option<Seq<char>>) -> Seq<char> {
    let message = match first {
        Some(m) => m,
        None => "unknown"@,
    };
    match topic {
        ErrorTopic::Authentication => "passhrs: authentication failed ("@ + message + ")"@,
        ErrorTopic::HostKey => "passhrs: host key verification failed ("@ + message + ")"@,
        ErrorTopic::Connection => "passhrs: connection failed ("@ + message + ")"@,
        ErrorTopic::Forwarding => "passhrs: forwarding/sftp failed ("@ + message + ")"@,
        ErrorTopic::ProxyJump => "passhrs: ProxyJump failed ("@ + message + ")"@,
        ErrorTopic::Unknown => "passhrs: "@ + message + " (rerun with -vv for details)"@,
    }
}

fn contains_either(s: &[char], a: &str, b: &str) -> (r: bool)
    ensures
        r == has_either(s@, a@, b@),
{
    let x = chars_of(a);
    let y = chars_of(b);
    contains(s, x.as_slice()) || contains(s, y.as_slice())
}

/// Finds what a text in lower case is about; see [`topic`].
pub fn classify(lowered: &str) -> (r: ErrorTopic)
    ensures
        r == topic(lowered@),
{
    let all = chars_of(lowered);
    let s: &[char] = all.as_slice();
    if contains_either(s, "authentication", "permission denied") || contains_either(
        s,
        "auth failed",
        "not authenticated",
    ) {
        ErrorTopic::Authentication
    } else if contains_either(s, "host key", "host identification") || contains_either(
        s,
        "knownhosts",
        "known_hosts",
    ) {
        ErrorTopic::HostKey
    } else if contains_either(s, "connection refused", "connection timed out") || contains_either(
        s,
        "failed to connect",
        "connection reset",
    ) || contains_either(s, "dns", "resolve") || contains_either(
        s,
        "no route to host",
        "network is unreachable",
    ) {
        ErrorTopic::Connection
    } else if contains_either(s, "channel open", "forward") || contains_either(
        s,
        "sftp",
        "subsystem",
    ) {
        ErrorTopic::Forwarding
    } else if contains_either(s, "proxyjump", "proxy jump") {
        ErrorTopic::ProxyJump
    } else {
        ErrorTopic::Unknown
    }
}

/// Writes the line for an error on a topic; see [`error_line`].
pub fn topic_line(topic: ErrorTopic, chain: &[String]) -> (r: String)
    ensures
        r@ == error_line(
            topic,
            if chain@.len() > 0 {
                Some(chain@[0]@)
            } else {
                None
            },
        ),
{
    let message: &str = if chain.len() > 0 {
        chain[0].as_str()
    } else {
        "unknown"
    };
    let (front, back) = match topic {
        ErrorTopic::Authentication => ("passhrs: authentication failed (", ")"),
        ErrorTopic::HostKey => ("passhrs: host key verification failed (", ")"),
        ErrorTopic::Connection => ("passhrs: connection failed (", ")"),
        ErrorTopic::Forwarding => ("passhrs: forwarding/sftp failed (", ")"),
        ErrorTopic::ProxyJump => ("passhrs: ProxyJump failed (", ")"),
        ErrorTopic::Unknown => ("passhrs: ", " (rerun with -vv for details)"),
    };
    let line = concatenate(front, message);
    concatenate(line.as_str(), back)
}

/// The one line that a user sees of an error: its messages, from the
/// outermost to the innermost, decide what it is about, and the outermost is
/// shown.
pub open spec fn user_line(chain: Seq<Seq<char>>) -> Seq<char> {
    error_line(
        topic(unicode_lower(joined(chain, " | "@))),
        if chain.len() > 0 {
            Some(chain[0])
        } else {
            None
        },
    )
}

/// The one line that a user sees of an error; see [`user_line`].
pub fn format_user_error(chain: &[String]) -> (r: String)
    ensures
        r@ == user_line(texts(chain@)),
        r@ == error_line(
            topic(unicode_lower(joined(texts(chain@), " | "@))),
            if chain@.len() > 0 {
                Some(chain@[0]@)
            } else {
                None
            },
        ),
{
    let all = join(chain, " | ");
    let lowered = all.as_str().to_lowercase();
    topic_line(classify(lowered.as_str()), chain)
}

// ---------------------------------------------------------------------
// Laws
// ---------------------------------------------------------------------

/// Every line begins with the name of the program and shows the outermost
/// message.
pub proof fn lines_name_the_program(topic: ErrorTopic, message: Seq<char>)
    ensures
        crate::text::begins_with(error_line(topic, Some(message)), "passhrs: "@),
        has_text(error_line(topic, Some(message)), message),
{
    reveal_strlit("passhrs: ");
    reveal_strlit("passhrs: authentication failed (");
    reveal_strlit("passhrs: host key verification failed (");
    reveal_strlit("passhrs: connection failed (");
    reveal_strlit("passhrs: forwarding/sftp failed (");
    reveal_strlit("passhrs: ProxyJump failed (");
    let front = match topic {
        ErrorTopic::Authentication => "passhrs: authentication failed ("@,
        ErrorTopic::HostKey => "passhrs: host key verification failed ("@,
        ErrorTopic::Connection => "passhrs: connection failed ("@,
        ErrorTopic::Forwarding => "passhrs: forwarding/sftp failed ("@,
        ErrorTopic::ProxyJump => "passhrs: ProxyJump failed ("@,
        ErrorTopic::Unknown => "passhrs: "@,
    };
    let line = error_line(topic, Some(message));
    assert(line.take(9) =~= "passhrs: "@);
    assert(line.subrange(front.len() as int, front.len() as int + message.len()) =~= message);
    assert(crate::text::stands_at(line, message, front.len() as int));
}

/// A keyword decides whatever stands around it: an error that mentions
/// authentication anywhere is about authentication.
pub proof fn authentication_comes_first(before: Seq<char>, after: Seq<char>)
    ensures
        topic(before + "authentication"@ + after) == ErrorTopic::Authentication,
{
    let s = before + "authentication"@ + after;
    let n = before.len() as int;
    assert(s.subrange(n, n + "authentication"@.len()) =~= "authentication"@);
    assert(crate::text::stands_at(s, "authentication"@, n));
}

/// An error is about the first of the topics of which a keyword stands in it:
/// authentication, host keys, the connection, forwarding, the jump host; and
/// about none of them where no keyword does.
pub proof fn keywords_tell_the_topic(s: Seq<char>)
    ensures
        ({
            let auth = has_text(s, "authentication"@) || has_text(s, "permission denied"@)
                || has_text(s, "auth failed"@) || has_text(s, "not authenticated"@);
            let key = has_text(s, "host key"@) || has_text(s, "host identification"@) || has_text(
                s,
                "knownhosts"@,
            ) || has_text(s, "known_hosts"@);
            let link = has_text(s, "connection refused"@) || has_text(s, "connection timed out"@)
                || has_text(s, "failed to connect"@) || has_text(s, "connection reset"@)
                || has_text(s, "dns"@) || has_text(s, "resolve"@) || has_text(
                s,
                "no route to host"@,
            ) || has_text(s, "network is unreachable"@);
            let channel = has_text(s, "channel open"@) || has_text(s, "forward"@) || has_text(
                s,
                "sftp"@,
            ) || has_text(s, "subsystem"@);
            let jump = has_text(s, "proxyjump"@) || has_text(s, "proxy jump"@);
            &&& topic(s) == ErrorTopic::Authentication <==> auth
            &&& topic(s) == ErrorTopic::HostKey <==> key && !auth
            &&& topic(s) == ErrorTopic::Connection <==> link && !auth && !key
            &&& topic(s) == ErrorTopic::Forwarding <==> channel && !auth && !key && !link
            &&& topic(s) == ErrorTopic::ProxyJump <==> jump && !auth && !key && !link && !channel
            &&& topic(s) == ErrorTopic::Unknown <==> !auth && !key && !link && !channel && !jump
        }),
{
}

/// Each topic has its own line, with the outermost message in it; an error
/// without a message is unknown.
pub proof fn lines_tell_the_topic(message: Seq<char>, topic: ErrorTopic)
    ensures
        error_line(ErrorTopic::Authentication, Some(message))
            == "passhrs: authentication failed ("@ + message + ")"@,
        error_line(ErrorTopic::HostKey, Some(message))
            == "passhrs: host key verification failed ("@ + message + ")"@,
        error_line(ErrorTopic::Connection, Some(message)) == "passhrs: connection failed ("@
            + message + ")"@,
        error_line(ErrorTopic::Forwarding, Some(message)) == "passhrs: forwarding/sftp failed ("@
            + message + ")"@,
        error_line(ErrorTopic::ProxyJump, Some(message)) == "passhrs: ProxyJump failed ("@ + message
            + ")"@,
        error_line(ErrorTopic::Unknown, Some(message)) == "passhrs: "@ + message
            + " (rerun with -vv for details)"@,
        error_line(topic, None) == error_line(topic, Some("unknown"@)),
{
}

/// The outermost message is the one that is shown, whatever is below it; the
/// messages below it only tell what the error is about.
pub proof fn outermost_message_is_shown(first: Seq<char>, rest: Seq<Seq<char>>)
    ensures
        ({
            let chain = seq![first] + rest;
            let about = topic(unicode_lower(joined(chain, " | "@)));
            &&& user_line(chain) == error_line(about, Some(first))
            &&& has_text(user_line(chain), first)
            &&& crate::text::begins_with(user_line(chain), "passhrs: "@)
        }),
{
    let chain = seq![first] + rest;
    assert(chain[0] == first);
    lines_name_the_program(topic(unicode_lower(joined(chain, " | "@))), first);
}

} // verus!
