//! Paths as text: separators, home directories and transfer specs.

use vstd::prelude::*;
use vstd::string::*;

use crate::cli::SpecError;
use crate::text::{
    begins_with, chars_of, find_char, same_text, skip_chars, starts_with, string_of, strip_back,
    take_chars, trim_end_matches,
};

verus! {

broadcast use vstd::string::group_string_axioms;

/// `s` with every backslash turned into a slash.
pub open spec fn forward_slashes(s: Seq<char>) -> Seq<char> {
    s.map_values(|c: char| if c == '\\' { '/' } else { c })
}

/// Computes [`forward_slashes`].
pub fn normalize_slashes(s: &str) -> (r: String)
    ensures
        r@ == forward_slashes(s@),
{
    let all = chars_of(s);
    let mut out = String::new();
    let mut i: usize = 0;
    while i < all.len()
        invariant
            i <= all@.len(),
            out@ == forward_slashes(all@.take(i as int)),
        decreases all@.len() - i,
    {
        let c: char = all[i];
        out.push(if c == '\\' { '/' } else { c });
        proof {
            assert(out@ =~= forward_slashes(all@.take(i + 1)));
        }
        i = i + 1;
    }
    assert(all@.take(all@.len() as int) =~= all@);
    out
}

/// Whether `c` is an ASCII letter.
pub open spec fn is_letter(c: char) -> bool {
    ('a' <= c <= 'z') || ('A' <= c <= 'Z')
}

/// A drive letter, a colon and a separator, as in `C:\` or `d:/`.
pub open spec fn has_drive(s: Seq<char>) -> bool {
    s.len() >= 3 && is_letter(s[0]) && s[1] == ':' && (s[2] == '\\' || s[2] == '/')
}

fn chars_have_drive(s: &[char]) -> (r: bool)
    ensures
        r == has_drive(s@),
{
    s.len() >= 3 && (('a' <= s[0] && s[0] <= 'z') || ('A' <= s[0] && s[0] <= 'Z')) && s[1] == ':'
        && (s[2] == '\\' || s[2] == '/')
}

/// Decides [`has_drive`]. Paths that start with two separators have no drive.
pub fn starts_with_drive_letter(s: &str) -> (r: bool)
    ensures
        r == has_drive(s@),
{
    let all = chars_of(s);
    chars_have_drive(all.as_slice())
}

/// Whether a path is absolute: it starts with a slash or with a drive letter.
pub open spec fn absolute(p: Seq<char>) -> bool {
    (p.len() > 0 && p[0] == '/') || has_drive(p)
}

/// Decides [`absolute`].
pub fn is_absolute_path(s: &str) -> (r: bool)
    ensures
        r == absolute(s@),
{
    let all = chars_of(s);
    (all.len() > 0 && all[0] == '/') || chars_have_drive(all.as_slice())
}

/// Position of the colon between the two halves of a transfer: the first one
/// that is not a drive letter's.
pub open spec fn file_separator(s: Seq<char>) -> Option<int> {
    if has_drive(s) {
        match s.skip(3).index_of_first(':') {
            Some(i) => Some(i + 3),
            None => None,
        }
    } else {
        s.index_of_first(':')
    }
}

/// The two halves of a transfer, with slashes as separators.
pub open spec fn file_spec(s: Seq<char>) -> Result<(Seq<char>, Seq<char>), SpecError> {
    match file_separator(s) {
        Some(i) => Ok((forward_slashes(s.take(i)), forward_slashes(s.skip(i + 1)))),
        None => Err(SpecError::FileSeparator),
    }
}

/// Reads a transfer of the form `local:remote`.
pub fn parse_file_spec(spec: &str) -> (r: Result<(String, String), SpecError>)
    ensures
        match r {
            Ok((l, t)) => file_spec(spec@) == Ok::<(Seq<char>, Seq<char>), SpecError>((l@, t@)),
            Err(e) => file_spec(spec@) == Err::<(Seq<char>, Seq<char>), SpecError>(e),
        },
{
    let all = chars_of(spec);
    let s = all.as_slice();
    assert(s.len() <= usize::MAX);
    let at: usize = if chars_have_drive(s) {
        match find_char(skip_chars(s, 3), ':') {
            Some(i) => i + 3,
            None => return Err(SpecError::FileSeparator),
        }
    } else {
        match find_char(s, ':') {
            Some(i) => i,
            None => return Err(SpecError::FileSeparator),
        }
    };
    let local = string_of(take_chars(s, at));
    let remote = string_of(skip_chars(s, at + 1));
    Ok((normalize_slashes(local.as_str()), normalize_slashes(remote.as_str())))
}

// ---------------------------------------------------------------------
// Home directory
// ---------------------------------------------------------------------

/// `~` and a leading `~/` stand for the home directory where there is one;
/// the result has slashes as separators.
pub open spec fn expanded(path: Seq<char>, home: Option<Seq<char>>) -> Seq<char> {
    forward_slashes(
        match home {
            None => path,
            Some(h) => if path == "~"@ {
                h
            } else if begins_with(path, "~/"@) {
                h + "/"@ + path.skip(2)
            } else {
                path
            },
        },
    )
}

/// Computes [`expanded`] for a given home directory.
pub fn expand_path_in(path: &str, home: &Option<String>) -> (r: String)
    ensures
        r@ == expanded(path@, crate::text::opt_text(*home)),
{
    proof {
        reveal_strlit("~/");
    }
    match home {
        None => normalize_slashes(path),
        Some(h) => {
            let all = chars_of(path);
            let prefix = chars_of("~/");
            if same_text(path, "~") {
                normalize_slashes(h.as_str())
            } else if starts_with(all.as_slice(), prefix.as_slice()) {
                let rest = string_of(skip_chars(all.as_slice(), 2));
                let mut out = h.clone();
                out.append("/");
                out.append(rest.as_str());
                normalize_slashes(out.as_str())
            } else {
                normalize_slashes(path)
            }
        },
    }
}

/// `dirs::home_dir`: the home directory of the user, as text, if the system
/// names one. It depends on the environment, so nothing is claimed of it.
#[verifier::external_body]
fn home_dir() -> (r: Option<String>) {
    dirs::home_dir().map(|h| h.display().to_string())
}

/// Whether `s` is the expansion of a path for some home directory, or none.
pub open spec fn is_expansion(path: Seq<char>, s: Seq<char>) -> bool {
    exists|home: Option<Seq<char>>| s == #[trigger] expanded(path, home)
}

/// Expands a leading `~` to the home directory of the user; see [`expanded`].
pub fn expand_path(path: &str) -> (r: String)
    ensures
        is_expansion(path@, r@),
{
    let home = home_dir();
    let r = expand_path_in(path, &home);
    assert(r@ == expanded(path@, crate::text::opt_text(home)));
    r
}

/// The path of `name` inside the directory `dir`.
pub open spec fn child(dir: Seq<char>, name: Seq<char>) -> Seq<char> {
    strip_back(dir, '/') + "/"@ + name
}

/// Computes [`child`]: exactly one slash stands between the two.
pub fn child_path(dir: &str, name: &str) -> (r: String)
    ensures
        r@ == child(dir@, name@),
{
    let all = chars_of(dir);
    let mut out = string_of(trim_end_matches(all.as_slice(), '/'));
    out.append("/");
    out.append(name);
    out
}

// ---------------------------------------------------------------------
// Values from files
// ---------------------------------------------------------------------

/// Where the value of a secret option comes from.
pub enum ValueSource {
    /// The file of this path, which must be readable.
    File(String),
    /// The file of the given name if there is one to read, else the text
    /// itself.
    Probe,
    /// The text itself.
    Literal,
}

/// Where the value of a secret option comes from, over texts.
pub enum ValueSourceModel {
    File(Seq<char>),
    Probe,
    Literal,
}

/// Texts of this many bytes or more are never taken for file names.
pub const MAX_PROBED_LEN: usize = 256;

/// `@path` names a file. Any other text may name a file if it is short, not
/// empty and not a lone `-`.
pub open spec fn value_source_model(s: Seq<char>) -> ValueSourceModel {
    if s.len() > 0 && s[0] == '@' {
        ValueSourceModel::File(s.skip(1))
    } else if s.len() > 0 && vstd::utf8::encode_utf8(s).len() < MAX_PROBED_LEN && s != "-"@ {
        ValueSourceModel::Probe
    } else {
        ValueSourceModel::Literal
    }
}

/// Computes [`value_source_model`].
pub fn value_source(s: &str) -> (r: ValueSource)
    ensures
        match r {
            ValueSource::File(p) => value_source_model(s@) == ValueSourceModel::File(p@),
            ValueSource::Probe => value_source_model(s@) == ValueSourceModel::Probe,
            ValueSource::Literal => value_source_model(s@) == ValueSourceModel::Literal,
        },
{
    let all = chars_of(s);
    if all.len() > 0 && all[0] == '@' {
        ValueSource::File(string_of(skip_chars(all.as_slice(), 1)))
    } else if all.len() > 0 && s.as_bytes().len() < MAX_PROBED_LEN && !same_text(s, "-") {
        ValueSource::Probe
    } else {
        ValueSource::Literal
    }
}

/// What stands under a name in the file system.
#[derive(Clone, Copy, PartialEq, Eq, Structural, Debug)]
pub enum NamedKind {
    Nothing,
    RegularFile,
    /// A pipe, such as the shell makes for `<(command)`.
    Pipe,
    Other,
}

/// The file to read for a value; `None` where the value is the text itself.
/// What only may name a file does so if a regular file or a pipe stands under
/// the name.
pub open spec fn value_file_model(s: Seq<char>, kind: NamedKind) -> Option<Seq<char>> {
    match value_source_model(s) {
        ValueSourceModel::File(path) => Some(path),
        ValueSourceModel::Probe => if kind == NamedKind::RegularFile || kind == NamedKind::Pipe {
            Some(s)
        } else {
            None
        },
        ValueSourceModel::Literal => None,
    }
}

/// The file to read for a value, given what stands under its name; see
/// [`value_file_model`].
pub fn value_file(s: &str, kind: NamedKind) -> (r: Option<String>)
    ensures
        crate::text::opt_text(r) == value_file_model(s@, kind),
{
    match value_source(s) {
        ValueSource::File(path) => Some(path),
        ValueSource::Probe => if kind == NamedKind::RegularFile || kind == NamedKind::Pipe {
            Some(s.to_owned())
        } else {
            None
        },
        ValueSource::Literal => None,
    }
}

/// The value that the contents of a file give: without trailing white space.
pub fn file_value(contents: &str) -> (r: String)
    ensures
        r@ == crate::text::trim_back(contents@),
{
    let all = chars_of(contents);
    string_of(crate::text::trim_end(all.as_slice()))
}

// ---------------------------------------------------------------------
// Laws
// ---------------------------------------------------------------------

/// No backslash is left by [`normalize_slashes`], its length is unchanged,
/// and doing it twice changes nothing more.
pub proof fn slashes_are_normal(s: Seq<char>)
    ensures
        !forward_slashes(s).contains('\\'),
        forward_slashes(s).len() == s.len(),
        forward_slashes(forward_slashes(s)) == forward_slashes(s),
        !s.contains('\\') ==> forward_slashes(s) == s,
{
    assert(forward_slashes(forward_slashes(s)) =~= forward_slashes(s));
    if !s.contains('\\') {
        assert(forward_slashes(s) =~= s);
    }
}

/// Neither half of a transfer holds a backslash, and the two halves with the
/// colon between them are the normalized spec.
pub proof fn file_spec_splits(s: Seq<char>)
    ensures
        match file_spec(s) {
            Ok((local, remote)) => {
                &&& local + seq![':'] + remote == forward_slashes(s)
                &&& !local.contains('\\')
                &&& !remote.contains('\\')
            },
            Err(_) => !s.skip(if has_drive(s) { 3 } else { 0 }).contains(':'),
        },
{
    s.index_of_first_ensures(':');
    s.skip(3).index_of_first_ensures(':');
    assert(s.skip(0) =~= s);
    match file_separator(s) {
        Some(i) => {
            slashes_are_normal(s.take(i));
            slashes_are_normal(s.skip(i + 1));
            if has_drive(s) {
                assert(s[i] == s.skip(3)[i - 3]);
            }
            assert(forward_slashes(s.take(i)) + seq![':'] + forward_slashes(s.skip(i + 1))
                =~= forward_slashes(s));
        },
        None => {},
    }
}

/// Whatever the home directory, an expanded path holds no backslash.
pub proof fn expanded_is_normal(path: Seq<char>, home: Option<Seq<char>>)
    ensures
        !expanded(path, home).contains('\\'),
{
    slashes_are_normal(path);
    if let Some(h) = home {
        slashes_are_normal(h);
        slashes_are_normal(h + "/"@ + path.skip(2));
    }
}

/// The path of a name in a directory is the directory, a slash and the name;
/// slashes behind the directory do not count.
pub proof fn names_follow_one_slash(dir: Seq<char>, name: Seq<char>)
    ensures
        dir.len() == 0 || dir.last() != '/' ==> child(dir, name) == dir + seq!['/'] + name,
        child(dir.push('/'), name) == child(dir, name),
{
    reveal_strlit("/");
    assert("/"@ =~= seq!['/']);
    assert(dir.push('/').drop_last() =~= dir);
}

/// `local:remote` is read as just that, with slashes for backslashes: the first
/// colon separates, unless it is that of a drive letter.
pub proof fn transfers_read_back(local: Seq<char>, remote: Seq<char>)
    requires
        !local.contains(':'),
        local.len() != 1,
    ensures
        file_spec(local + seq![':'] + remote) == Ok::<(Seq<char>, Seq<char>), SpecError>(
            (forward_slashes(local), forward_slashes(remote)),
        ),
{
    let s = local + seq![':'] + remote;
    crate::text::cut_first_rejoins(local, ':', remote);
    s.index_of_first_ensures(':');
    assert(s[local.len() as int] == ':');
    if local.len() >= 2 {
        assert(s[1] == local[1]);
        assert(local.contains(local[1]));
    } else {
        assert(s[0] == ':');
    }
    let i = s.index_of_first(':')->0;
    if i < local.len() {
        assert(local[i] == ':');
    }
    assert(s.take(i) =~= local);
    assert(s.skip(i + 1) =~= remote);
}

/// A path that begins with a drive letter keeps it: the colon that separates is
/// the next one.
pub proof fn drives_are_kept(drive: char, slash: char, rest: Seq<char>, remote: Seq<char>)
    requires
        'a' <= drive <= 'z' || 'A' <= drive <= 'Z',
        slash == '/' || slash == '\\',
        !rest.contains(':'),
    ensures
        file_spec(seq![drive, ':', slash] + rest + seq![':'] + remote) == Ok::<
            (Seq<char>, Seq<char>),
            SpecError,
        >((seq![drive, ':', '/'] + forward_slashes(rest), forward_slashes(remote))),
{
    let local = seq![drive, ':', slash] + rest;
    let s = local + seq![':'] + remote;
    assert(s[0] == drive && s[1] == ':' && s[2] == slash);
    let tail = s.skip(3);
    assert(tail =~= rest + seq![':'] + remote);
    tail.index_of_first_ensures(':');
    assert(tail[rest.len() as int] == ':');
    let i = tail.index_of_first(':')->0;
    if i < rest.len() {
        assert(rest[i] == ':');
    }
    assert(s.take(i + 3) =~= local);
    assert(s.skip(i + 4) =~= remote);
    assert(forward_slashes(local) =~= seq![drive, ':', '/'] + forward_slashes(rest));
}

/// Backslashes become slashes and every other character stays where it is.
pub proof fn slashes_keep_their_places(s: Seq<char>, i: int)
    requires
        0 <= i < s.len(),
    ensures
        s[i] == '\\' ==> forward_slashes(s)[i] == '/',
        s[i] != '\\' ==> forward_slashes(s)[i] == s[i],
{
}

/// `~` is the home directory, `~/` leads into it, and no other path changes but
/// for its slashes; without a home directory none does.
pub proof fn tilde_is_home(home: Seq<char>, rest: Seq<char>, path: Seq<char>)
    ensures
        expanded(seq!['~'], Some(home)) == forward_slashes(home),
        expanded(seq!['~', '/'] + rest, Some(home)) == forward_slashes(home + seq!['/'] + rest),
        path.len() == 0 || path[0] != '~' ==> expanded(path, Some(home)) == forward_slashes(path),
        path.len() > 1 && path[1] != '/' ==> expanded(path, Some(home)) == forward_slashes(path),
        expanded(path, None) == forward_slashes(path),
{
    reveal_strlit("~");
    reveal_strlit("~/");
    reveal_strlit("/");
    assert("~"@ =~= seq!['~']);
    assert("~/"@ =~= seq!['~', '/']);
    assert("/"@ =~= seq!['/']);
    let p = seq!['~', '/'] + rest;
    assert(p.take(2) =~= "~/"@);
    assert(p.skip(2) =~= rest);
    if begins_with(path, "~/"@) {
        assert(path.take(2)[0] == '~');
        assert(path.take(2)[1] == '/');
    }
}

/// A path is absolute just if it begins with a slash, or with a letter, a colon
/// and a separator.
pub proof fn absolute_paths_begin_at_a_root(rest: Seq<char>, c: char, drive: char, slash: char)
    requires
        'a' <= drive <= 'z' || 'A' <= drive <= 'Z',
        slash == '/' || slash == '\\',
    ensures
        absolute(seq!['/'] + rest),
        absolute(seq![drive, ':', slash] + rest),
        !absolute(Seq::empty()),
        !absolute(seq![c, c] + rest) || c == '/',
        c != '/' && !('a' <= c <= 'z') && !('A' <= c <= 'Z') ==> !absolute(seq![c] + rest),
{
}

/// `@path` names a file; a lone `-` and the empty text never do, and neither
/// does a text of 256 bytes or more; any other text does just if a regular file
/// or a pipe stands under that name.
pub proof fn values_name_files(s: Seq<char>, kind: NamedKind)
    ensures
        value_file_model(seq!['@'] + s, kind) == Some(s),
        value_file_model(seq!['-'], kind) is None,
        value_file_model(Seq::empty(), kind) is None,
        s.len() > 0 && s[0] != '@' && vstd::utf8::encode_utf8(s).len() >= 256 ==> value_file_model(
            s,
            kind,
        ) is None,
        s.len() > 0 && s[0] != '@' && s != seq!['-'] && vstd::utf8::encode_utf8(s).len() < 256 ==> (
        value_file_model(s, kind) == if kind == NamedKind::RegularFile || kind == NamedKind::Pipe {
            Some(s)
        } else {
            None
        }),
{
    reveal_strlit("-");
    assert("-"@ =~= seq!['-']);
    assert((seq!['@'] + s).skip(1) =~= s);
}

/// A path without a tilde at its front is its own only expansion, but for its
/// slashes, and so is what it becomes.
pub proof fn plain_paths_stay(path: Seq<char>)
    requires
        path.len() > 0,
        path[0] != '~',
    ensures
        forall|s: Seq<char>|
            #[trigger] is_expansion(forward_slashes(path), s) <==> s == forward_slashes(path),
{
    let plain = forward_slashes(path);
    slashes_are_normal(path);
    assert(plain[0] != '~');
    assert forall|s: Seq<char>| #[trigger] is_expansion(plain, s) <==> s == plain by {
        if is_expansion(plain, s) {
            let home = choose|home: Option<Seq<char>>| s == #[trigger] expanded(plain, home);
            if let Some(h) = home {
                tilde_is_home(h, plain, plain);
            }
        }
        assert(expanded(plain, None) == plain);
    }
}

/// Turning backslashes into slashes makes no colon.
pub proof fn slashes_bring_no_colon(s: Seq<char>)
    ensures
        forward_slashes(s).contains(':') <==> s.contains(':'),
{
    if s.contains(':') {
        let i = choose|i: int| 0 <= i < s.len() && s[i] == ':';
        assert(forward_slashes(s)[i] == ':');
    }
    if forward_slashes(s).contains(':') {
        let i = choose|i: int|
            0 <= i < forward_slashes(s).len() && forward_slashes(s)[i] == ':';
        assert(s[i] == ':');
    }
}

/// A single letter before the colon is a path like others, unless a separator
/// behind the colon makes it a drive; and a drive alone is no transfer.
pub proof fn lone_letters_are_paths(c: char, rest: Seq<char>)
    requires
        c != ':',
    ensures
        rest.len() == 0 || (rest[0] != '/' && rest[0] != '\\') ==> file_spec(
            seq![c, ':'] + rest,
        ) == Ok::<(Seq<char>, Seq<char>), SpecError>(
            (forward_slashes(seq![c]), forward_slashes(rest)),
        ),
        ('a' <= c <= 'z' || 'A' <= c <= 'Z') && rest.len() > 0 && (rest[0] == '/' || rest[0]
            == '\\') && !rest.contains(':') ==> file_spec(seq![c, ':'] + rest) == Err::<
            (Seq<char>, Seq<char>),
            SpecError,
        >(SpecError::FileSeparator),
        !('a' <= c <= 'z') && !('A' <= c <= 'Z') ==> file_spec(seq![c, ':'] + rest) == Ok::<
            (Seq<char>, Seq<char>),
            SpecError,
        >((forward_slashes(seq![c]), forward_slashes(rest))),
{
    let s = seq![c, ':'] + rest;
    s.index_of_first_ensures(':');
    assert(s[0] == c && s[1] == ':');
    let i = s.index_of_first(':')->0;
    assert(i == 1);
    assert(s.take(1) =~= seq![c]);
    assert(s.skip(2) =~= rest);
    if rest.len() > 0 {
        assert(s[2] == rest[0]);
        let tail = s.skip(3);
        tail.index_of_first_ensures(':');
        if !rest.contains(':') {
            assert(!tail.contains(':')) by {
                if tail.contains(':') {
                    let k = choose|k: int| 0 <= k < tail.len() && tail[k] == ':';
                    assert(rest[k + 1] == ':');
                }
            }
        }
    }
}

} // verus!
