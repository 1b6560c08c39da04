//! Listing the algorithms that can be negotiated.

use vstd::prelude::*;
use vstd::string::*;

use crate::text::{
    ascii_lower, chars_of, clone_list, concatenate, same_text, string_of, texts, to_ascii_lower,
};

verus! {

broadcast use vstd::string::group_string_axioms;

/// The names in `russh::cipher::ALL_CIPHERS`.
pub open spec fn cipher_list() -> Seq<Seq<char>> {
    seq![
        "clear"@,
        "none"@,
        "aes128-ctr"@,
        "aes192-ctr"@,
        "aes256-ctr"@,
        "aes128-gcm@openssh.com"@,
        "aes256-gcm@openssh.com"@,
        "aes128-cbc"@,
        "aes192-cbc"@,
        "aes256-cbc"@,
        "chacha20-poly1305@openssh.com"@,
    ]
}

/// The names in `russh::mac::ALL_MAC_ALGORITHMS`.
pub open spec fn mac_list() -> Seq<Seq<char>> {
    seq![
        "none"@,
        "hmac-sha1"@,
        "hmac-sha2-256"@,
        "hmac-sha2-512"@,
        "hmac-sha1-etm@openssh.com"@,
        "hmac-sha2-256-etm@openssh.com"@,
        "hmac-sha2-512-etm@openssh.com"@,
    ]
}

/// The names in `russh::kex::ALL_KEX_ALGORITHMS`.
pub open spec fn kex_list() -> Seq<Seq<char>> {
    seq![
        "mlkem768x25519-sha256"@,
        "curve25519-sha256"@,
        "curve25519-sha256@libssh.org"@,
        "diffie-hellman-group-exchange-sha1"@,
        "diffie-hellman-group-exchange-sha256"@,
        "diffie-hellman-group1-sha1"@,
        "diffie-hellman-group14-sha1"@,
        "diffie-hellman-group14-sha256"@,
        "diffie-hellman-group15-sha512"@,
        "diffie-hellman-group16-sha512"@,
        "diffie-hellman-group17-sha512"@,
        "diffie-hellman-group18-sha512"@,
        "ecdh-sha2-nistp256"@,
        "ecdh-sha2-nistp384"@,
        "ecdh-sha2-nistp521"@,
        "none"@,
    ]
}

/// The names in `russh::compression::ALL_COMPRESSION_ALGORITHMS`.
pub open spec fn compression_list() -> Seq<Seq<char>> {
    seq!["none"@, "zlib"@, "zlib@openssh.com"@]
}

/// The names in `russh::keys::key::ALL_KEY_TYPES`.
pub open spec fn key_list() -> Seq<Seq<char>> {
    seq![
        "ssh-dss"@,
        "ecdsa-sha2-nistp256"@,
        "ecdsa-sha2-nistp384"@,
        "ecdsa-sha2-nistp521"@,
        "ssh-ed25519"@,
        "ssh-rsa"@,
        "rsa-sha2-256"@,
        "rsa-sha2-512"@,
        "sk-ecdsa-sha2-nistp256@openssh.com"@,
        "sk-ssh-ed25519@openssh.com"@,
    ]
}

/// `russh::cipher::ALL_CIPHERS`: the names of the ciphers, with the cipher
/// set that the crate is built with (without DES).
#[verifier::external_body]
pub(crate) fn cipher_names() -> (r: Vec<String>)
    ensures
        texts(r@) == cipher_list(),
{
    russh::cipher::ALL_CIPHERS.iter().map(|n| n.as_ref().to_string()).collect()
}

/// `russh::mac::ALL_MAC_ALGORITHMS`: the names of the MACs.
#[verifier::external_body]
pub(crate) fn mac_names() -> (r: Vec<String>)
    ensures
        texts(r@) == mac_list(),
{
    russh::mac::ALL_MAC_ALGORITHMS.iter().map(|n| n.as_ref().to_string()).collect()
}

/// `russh::kex::ALL_KEX_ALGORITHMS`: the names of the key exchanges.
#[verifier::external_body]
fn kex_names() -> (r: Vec<String>)
    ensures
        texts(r@) == kex_list(),
{
    russh::kex::ALL_KEX_ALGORITHMS.iter().map(|n| n.as_ref().to_string()).collect()
}

/// `russh::compression::ALL_COMPRESSION_ALGORITHMS`: the names of the
/// compressions, with zlib built in.
#[verifier::external_body]
fn compression_names() -> (r: Vec<String>)
    ensures
        texts(r@) == compression_list(),
{
    russh::compression::ALL_COMPRESSION_ALGORITHMS.iter().map(|n| n.as_ref().to_string()).collect()
}

/// `russh::keys::key::ALL_KEY_TYPES`: the names of the key types, with RSA
/// built in.
#[verifier::external_body]
fn key_names() -> (r: Vec<String>)
    ensures
        texts(r@) == key_list(),
{
    russh::keys::key::ALL_KEY_TYPES.iter().map(|a| a.as_str().to_string()).collect()
}

/// The lines that explain the queries.
pub open spec fn query_help() -> Seq<Seq<char>> {
    seq![
        "Supported queries:"@,
        "  cipher                Supported symmetric ciphers"@,
        "  mac                   Supported MAC algorithms"@,
        "  kex                   Supported key-exchange algorithms"@,
        "  compression           Supported compression algorithms"@,
        "  key                   Supported public-key types"@,
        "  help                  Print this help text"@,
    ]
}

fn query_help_lines() -> (r: Vec<String>)
    ensures
        texts(r@) == query_help(),
{
    let mut out: Vec<String> = Vec::new();
    out.push("Supported queries:".to_owned());
    out.push("  cipher                Supported symmetric ciphers".to_owned());
    out.push("  mac                   Supported MAC algorithms".to_owned());
    out.push("  kex                   Supported key-exchange algorithms".to_owned());
    out.push("  compression           Supported compression algorithms".to_owned());
    out.push("  key                   Supported public-key types".to_owned());
    out.push("  help                  Print this help text".to_owned());
    assert(texts(out@) =~= query_help());
    out
}

/// Whether a query is one that makes no sense for a client.
pub open spec fn not_applicable(what: Seq<char>) -> bool {
    ||| what == "protocol-version"@
    ||| what == "key-cert"@
    ||| what == "key-plain"@
    ||| what == "key-sig"@
    ||| what == "sig"@
}

/// The answer to one query, which counts without regard to letter case: the
/// lines to print, or the complaint.
pub open spec fn answer(raw: Seq<char>) -> Result<Seq<Seq<char>>, Seq<char>> {
    let what = ascii_lower(raw);
    if what == "cipher"@ {
        Ok(cipher_list())
    } else if what == "mac"@ {
        Ok(mac_list())
    } else if what == "kex"@ {
        Ok(kex_list())
    } else if what == "compression"@ {
        Ok(compression_list())
    } else if what == "key"@ {
        Ok(key_list())
    } else if what == "help"@ {
        Ok(query_help())
    } else if not_applicable(what) {
        Err("Unsupported query: "@ + raw + " (not applicable to a client). Try `-Q help`"@)
    } else {
        Err(
            "Unsupported query: "@ + what
                + ". Valid queries: cipher, mac, kex, compression, key, help"@,
        )
    }
}

/// The answer to one query; see [`answer`].
pub fn answer_query(raw: &str) -> (r: Result<Vec<String>, String>)
    ensures
        match r {
            Ok(l) => answer(raw@) == Ok::<Seq<Seq<char>>, Seq<char>>(texts(l@)),
            Err(m) => answer(raw@) == Err::<Seq<Seq<char>>, Seq<char>>(m@),
        },
{
    let all = chars_of(raw);
    let lower = to_ascii_lower(all.as_slice());
    let lower = string_of(lower.as_slice());
    let what: &str = lower.as_str();
    if same_text(what, "cipher") {
        Ok(cipher_names())
    } else if same_text(what, "mac") {
        Ok(mac_names())
    } else if same_text(what, "kex") {
        Ok(kex_names())
    } else if same_text(what, "compression") {
        Ok(compression_names())
    } else if same_text(what, "key") {
        Ok(key_names())
    } else if same_text(what, "help") {
        Ok(query_help_lines())
    } else if same_text(what, "protocol-version") || same_text(what, "key-cert") || same_text(
        what,
        "key-plain",
    ) || same_text(what, "key-sig") || same_text(what, "sig") {
        let front = concatenate("Unsupported query: ", raw);
        Err(concatenate(front.as_str(), " (not applicable to a client). Try `-Q help`"))
    } else {
        let front = concatenate("Unsupported query: ", what);
        Err(
            concatenate(
                front.as_str(),
                ". Valid queries: cipher, mac, kex, compression, key, help",
            ),
        )
    }
}

/// The answers to a list of queries.
pub struct QueryReport {
    /// The exit code.
    pub code: i32,
    /// The lines for the output.
    pub lines: Vec<String>,
    /// The complaints.
    pub complaints: Vec<String>,
}

/// The lines of all queries that are answered.
pub open spec fn all_lines(queries: Seq<Seq<char>>) -> Seq<Seq<char>>
    decreases queries.len(),
{
    if queries.len() == 0 {
        Seq::empty()
    } else {
        match answer(queries.last()) {
            Ok(l) => all_lines(queries.drop_last()) + l,
            Err(_) => all_lines(queries.drop_last()),
        }
    }
}

/// The complaints of all queries that are not answered.
pub open spec fn all_complaints(queries: Seq<Seq<char>>) -> Seq<Seq<char>>
    decreases queries.len(),
{
    if queries.len() == 0 {
        Seq::empty()
    } else {
        match answer(queries.last()) {
            Ok(_) => all_complaints(queries.drop_last()),
            Err(m) => all_complaints(queries.drop_last()).push(m),
        }
    }
}

/// Answers queries in turn. The exit code is 0 if all were answered, else 1.
pub fn dispatch(queries: &[String]) -> (r: QueryReport)
    ensures
        texts(r.lines@) == all_lines(texts(queries@)),
        texts(r.complaints@) == all_complaints(texts(queries@)),
        r.code == (if all_complaints(texts(queries@)).len() == 0 {
            0i32
        } else {
            1i32
        }),
{
    let ghost all = texts(queries@);
    let mut lines: Vec<String> = Vec::new();
    let mut complaints: Vec<String> = Vec::new();
    let mut i: usize = 0;
    assert(all.take(0) =~= Seq::<Seq<char>>::empty());
    assert(texts(lines@) =~= all_lines(all.take(0)));
    assert(texts(complaints@) =~= all_complaints(all.take(0)));
    while i < queries.len()
        invariant
            i <= queries@.len(),
            all == texts(queries@),
            texts(lines@) == all_lines(all.take(i as int)),
            texts(complaints@) == all_complaints(all.take(i as int)),
        decreases queries@.len() - i,
    {
        let ghost lines_before = lines@;
        let ghost complaints_before = complaints@;
        proof {
            assert(all.take(i + 1).drop_last() =~= all.take(i as int));
            assert(all.take(i + 1).last() == queries@[i as int]@);
        }
        match answer_query(queries[i].as_str()) {
            Ok(mut more) => {
                let ghost added = more@;
                lines.append(&mut more);
                assert(texts(lines@) =~= texts(lines_before) + texts(added));
            },
            Err(m) => {
                let ghost added = m@;
                complaints.push(m);
                assert(texts(complaints@) =~= texts(complaints_before).push(added));
            },
        }
        i = i + 1;
    }
    assert(all.take(all.len() as int) =~= all);
    assert(texts(complaints@).len() == complaints@.len());
    let code: i32 = if complaints.len() == 0 {
        0
    } else {
        1
    };
    QueryReport { code, lines, complaints }
}

// ---------------------------------------------------------------------
// Choosing algorithms
// ---------------------------------------------------------------------

fn is_listed(name: &str, list: &[String]) -> (r: bool)
    ensures
        r == texts(list@).contains(name@),
{
    let mut i: usize = 0;
    while i < list.len()
        invariant
            i <= list@.len(),
            forall|j: int| 0 <= j < i ==> texts(list@)[j] != name@,
        decreases list@.len() - i,
    {
        assert(texts(list@)[i as int] == list@[i as int]@);
        if same_text(list[i].as_str(), name) {
            return true;
        }
        i = i + 1;
    }
    false
}

/// Checks a list of algorithms against those that are known; the first that
/// is not known is given back.
fn check_names(requested: &[String], known: &[String]) -> (r: Result<(), String>)
    ensures
        match r {
            Ok(_) => forall|i: int|
                0 <= i < requested@.len() ==> texts(known@).contains(
                    #[trigger] texts(requested@)[i],
                ),
            Err(name) => exists|i: int|
                #![trigger texts(requested@)[i]]
                0 <= i < requested@.len() && name@ == texts(requested@)[i] && !texts(
                    known@,
                ).contains(name@) && forall|j: int|
                    0 <= j < i ==> texts(known@).contains(#[trigger] texts(requested@)[j]),
        },
{
    let mut i: usize = 0;
    while i < requested.len()
        invariant
            i <= requested@.len(),
            forall|j: int|
                0 <= j < i ==> texts(known@).contains(#[trigger] texts(requested@)[j]),
        decreases requested@.len() - i,
    {
        assert(texts(requested@)[i as int] == requested@[i as int]@);
        if !is_listed(requested[i].as_str(), known) {
            return Err(requested[i].clone());
        }
        i = i + 1;
    }
    Ok(())
}

/// The first name that is not among the known ones.
pub open spec fn first_unknown(requested: Seq<Seq<char>>, known: Seq<Seq<char>>) -> Option<Seq<char>>
    decreases requested.len(),
{
    if requested.len() == 0 {
        None
    } else if !known.contains(requested[0]) {
        Some(requested[0])
    } else {
        first_unknown(requested.skip(1), known)
    }
}

proof fn first_unknown_at(requested: Seq<Seq<char>>, known: Seq<Seq<char>>, i: int)
    requires
        0 <= i <= requested.len(),
        forall|j: int| 0 <= j < i ==> known.contains(#[trigger] requested[j]),
    ensures
        first_unknown(requested, known) == first_unknown(requested.skip(i), known),
    decreases i,
{
    if i == 0 {
        assert(requested.skip(0) =~= requested);
    } else {
        assert(known.contains(requested[0]));
        assert forall|j: int| 0 <= j < i - 1 implies known.contains(
            #[trigger] requested.skip(1)[j],
        ) by {
            assert(requested.skip(1)[j] == requested[j + 1]);
        }
        first_unknown_at(requested.skip(1), known, i - 1);
        assert(requested.skip(1).skip(i - 1) =~= requested.skip(i));
    }
}

fn choose_names(requested: &[String], known: &[String]) -> (r: Result<Vec<String>, String>)
    ensures
        match r {
            Ok(l) => first_unknown(texts(requested@), texts(known@)) is None && texts(l@) == texts(
                requested@,
            ),
            Err(name) => first_unknown(texts(requested@), texts(known@)) == Some(name@),
        },
{
    let ghost a = texts(requested@);
    let ghost k = texts(known@);
    match check_names(requested, known) {
        Ok(_) => {
            proof {
                first_unknown_at(a, k, a.len() as int);
                assert(a.skip(a.len() as int) =~= Seq::<Seq<char>>::empty());
            }
            Ok(clone_list(requested))
        },
        Err(name) => {
            proof {
                let i = choose|i: int|
                    #![trigger a[i]]
                    0 <= i < requested@.len() && name@ == a[i] && !k.contains(name@) && forall|
                        j: int,
                    |
                        0 <= j < i ==> k.contains(#[trigger] a[j]);
                first_unknown_at(a, k, i);
                assert(a.skip(i)[0] == a[i]);
            }
            Err(name)
        },
    }
}

/// The ciphers to offer, in order of preference; none given means the
/// default. A name that is not known is given back as the error.
pub fn choose_ciphers(requested: &[String]) -> (r: Result<Vec<String>, String>)
    ensures
        match r {
            Ok(l) => first_unknown(texts(requested@), cipher_list()) is None && texts(l@) == texts(
                requested@,
            ),
            Err(name) => first_unknown(texts(requested@), cipher_list()) == Some(name@),
        },
{
    let known = cipher_names();
    choose_names(requested, known.as_slice())
}

/// The MACs to offer, in order of preference; none given means the default.
/// A name that is not known is given back as the error.
pub fn choose_macs(requested: &[String]) -> (r: Result<Vec<String>, String>)
    ensures
        match r {
            Ok(l) => first_unknown(texts(requested@), mac_list()) is None && texts(l@) == texts(
                requested@,
            ),
            Err(name) => first_unknown(texts(requested@), mac_list()) == Some(name@),
        },
{
    let known = mac_names();
    choose_names(requested, known.as_slice())
}

// ---------------------------------------------------------------------
// Laws
// ---------------------------------------------------------------------

/// A query is answered just if it is one of the six, in whatever letter case,
/// each with its own list; any other is complained about, by its name.
pub proof fn queries_are_told_apart(raw: Seq<char>)
    ensures
        ascii_lower(raw) == "cipher"@ ==> answer(raw) == Ok::<Seq<Seq<char>>, Seq<char>>(
            cipher_list(),
        ),
        ascii_lower(raw) == "mac"@ ==> answer(raw) == Ok::<Seq<Seq<char>>, Seq<char>>(mac_list()),
        ascii_lower(raw) == "kex"@ ==> answer(raw) == Ok::<Seq<Seq<char>>, Seq<char>>(kex_list()),
        ascii_lower(raw) == "compression"@ ==> answer(raw) == Ok::<Seq<Seq<char>>, Seq<char>>(
            compression_list(),
        ),
        ascii_lower(raw) == "key"@ ==> answer(raw) == Ok::<Seq<Seq<char>>, Seq<char>>(key_list()),
        ascii_lower(raw) == "help"@ ==> answer(raw) == Ok::<Seq<Seq<char>>, Seq<char>>(
            query_help(),
        ),
        answer(raw) is Ok ==> ascii_lower(raw) == "cipher"@ || ascii_lower(raw) == "mac"@
            || ascii_lower(raw) == "kex"@ || ascii_lower(raw) == "compression"@ || ascii_lower(raw)
            == "key"@ || ascii_lower(raw) == "help"@,
        answer(raw) matches Err(m) ==> crate::text::begins_with(m, "Unsupported query: "@) && (
        crate::text::has_text(m, raw) || crate::text::has_text(m, ascii_lower(raw))),
{
    reveal_strlit("cipher");
    reveal_strlit("mac");
    reveal_strlit("kex");
    reveal_strlit("compression");
    reveal_strlit("key");
    reveal_strlit("help");
    assert("cipher"@[0] == 'c' && "compression"@[0] == 'c');
    assert("cipher"@.len() == 6 && "compression"@.len() == 11);
    assert("mac"@[0] == 'm' && "kex"@[2] == 'x' && "key"@[2] == 'y');
    assert("mac"@.len() == 3 && "kex"@.len() == 3 && "key"@.len() == 3 && "help"@.len() == 4);
    assert("kex"@[0] == 'k' && "key"@[0] == 'k');
    if let Err(m) = answer(raw) {
        let front = "Unsupported query: "@;
        let n = front.len() as int;
        assert(m.take(n) =~= front);
        let what = ascii_lower(raw);
        if not_applicable(what) {
            assert(m.subrange(n, n + raw.len()) =~= raw);
            assert(crate::text::stands_at(m, raw, n));
        } else {
            assert(m.subrange(n, n + what.len()) =~= what);
            assert(crate::text::stands_at(m, what, n));
        }
    }
}

/// Queries are answered in turn: each adds its lines, or its complaint, behind
/// those of the queries before it.
pub proof fn answers_add_up(queries: Seq<Seq<char>>, query: Seq<char>)
    ensures
        all_lines(Seq::empty()) == Seq::<Seq<char>>::empty(),
        all_complaints(Seq::empty()) == Seq::<Seq<char>>::empty(),
        answer(query) matches Ok(lines) ==> all_lines(queries.push(query)) == all_lines(queries)
            + lines && all_complaints(queries.push(query)) == all_complaints(queries),
        answer(query) matches Err(m) ==> all_lines(queries.push(query)) == all_lines(queries)
            && all_complaints(queries.push(query)) == all_complaints(queries).push(m),
{
    assert(queries.push(query).drop_last() =~= queries);
}

/// A list of algorithms is taken just if all of them are known; else the first
/// that is not is given back.
pub proof fn unknown_algorithms_are_refused(requested: Seq<Seq<char>>, known: Seq<Seq<char>>)
    ensures
        first_unknown(requested, known) is None <==> forall|i: int|
            0 <= i < requested.len() ==> known.contains(#[trigger] requested[i]),
        first_unknown(requested, known) matches Some(name) ==> exists|i: int|
            0 <= i < requested.len() && #[trigger] requested[i] == name && !known.contains(name)
                && forall|j: int| 0 <= j < i ==> known.contains(#[trigger] requested[j]),
    decreases requested.len(),
{
    if requested.len() > 0 {
        let rest = requested.skip(1);
        unknown_algorithms_are_refused(rest, known);
        if known.contains(requested[0]) {
            if forall|i: int| 0 <= i < rest.len() ==> known.contains(#[trigger] rest[i]) {
                assert forall|i: int| 0 <= i < requested.len() implies known.contains(
                    #[trigger] requested[i],
                ) by {
                    if i > 0 {
                        assert(rest[i - 1] == requested[i]);
                    }
                }
            }
            if forall|i: int| 0 <= i < requested.len() ==> known.contains(#[trigger] requested[i]) {
                assert forall|i: int| 0 <= i < rest.len() implies known.contains(
                    #[trigger] rest[i],
                ) by {
                    assert(rest[i] == requested[i + 1]);
                }
            }
            if let Some(name) = first_unknown(rest, known) {
                let i = choose|i: int|
                    0 <= i < rest.len() && #[trigger] rest[i] == name && !known.contains(name)
                        && forall|j: int| 0 <= j < i ==> known.contains(#[trigger] rest[j]);
                assert(requested[i + 1] == name);
                assert forall|j: int| 0 <= j < i + 1 implies known.contains(
                    #[trigger] requested[j],
                ) by {
                    if j > 0 {
                        assert(rest[j - 1] == requested[j]);
                    }
                }
            }
        } else {
            assert(requested[0] == first_unknown(requested, known)->0);
        }
    }
}

} // verus!
