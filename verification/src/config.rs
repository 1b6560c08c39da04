//! Settings from configuration files, and how they join the command line.

use vstd::prelude::*;
use vstd::string::*;

use crate::cli::Cli;
use crate::includes::{
    lines, merge_text, path_set, preprocess_includes, split_lines, Files, IncludeStop, Reader,
    StopModel,
};
use crate::globs::{glob_hit, glob_state, tried_as, try_glob, GlobState, TriedGlob};
use crate::text::{
    ascii_lower, chars_of, clone_opt, cut_first, eq_chars, opt_text, same_text, skip_chars,
    split_first, split_words, string_of, texts, to_ascii_lower, trim, trimmed, words,
};

verus! {

broadcast use vstd::string::group_string_axioms;

// ---------------------------------------------------------------------
// Files that a glob pattern names
// ---------------------------------------------------------------------

/// An entry of a directory.
pub struct DirEntry {
    pub name: String,
    pub path: String,
}

/// Name and path of an entry.
pub open spec fn entry_model(e: DirEntry) -> (Seq<char>, Seq<char>) {
    (e.name@, e.path@)
}

/// Whether `a` stands before `b`, or equals it, in the order of code points.
pub open spec fn text_le(a: Seq<char>, b: Seq<char>) -> bool
    decreases a.len(),
{
    if a.len() == 0 {
        true
    } else if b.len() == 0 {
        false
    } else if a[0] != b[0] {
        a[0] < b[0]
    } else {
        text_le(a.skip(1), b.skip(1))
    }
}

/// A sorted list with one more entry, behind all that stand before it or
/// equal it.
pub open spec fn inserted(
    sorted: Seq<(Seq<char>, Seq<char>)>,
    e: (Seq<char>, Seq<char>),
) -> Seq<(Seq<char>, Seq<char>)>
    decreases sorted.len(),
{
    if sorted.len() == 0 || text_le(sorted.last().0, e.0) {
        sorted.push(e)
    } else {
        inserted(sorted.drop_last(), e).push(sorted.last())
    }
}

/// The entries that are hits, sorted by name.
pub open spec fn selected(
    entries: Seq<(Seq<char>, Seq<char>)>,
    hits: Seq<bool>,
) -> Seq<(Seq<char>, Seq<char>)>
    decreases entries.len(),
{
    if entries.len() == 0 {
        Seq::empty()
    } else {
        let front = selected(entries.drop_last(), hits.drop_last());
        if hits.last() {
            inserted(front, entries.last())
        } else {
            front
        }
    }
}

/// Names and paths of entries.
pub open spec fn entry_models(entries: Seq<DirEntry>) -> Seq<(Seq<char>, Seq<char>)> {
    entries.map_values(|e: DirEntry| entry_model(e))
}

/// The second of each pair.
pub open spec fn seconds(s: Seq<(Seq<char>, Seq<char>)>) -> Seq<Seq<char>> {
    s.map_values(|e: (Seq<char>, Seq<char>)| e.1)
}

fn text_before(a: &[char], b: &[char]) -> (r: bool)
    ensures
        r == text_le(a@, b@),
{
    let mut i: usize = 0;
    assert(a@.skip(0) =~= a@ && b@.skip(0) =~= b@);
    while i < a.len() && i < b.len()
        invariant
            i <= a@.len(),
            i <= b@.len(),
            text_le(a@, b@) == text_le(a@.skip(i as int), b@.skip(i as int)),
        decreases a@.len() - i,
    {
        proof {
            assert(a@.skip(i as int)[0] == a@[i as int]);
            assert(b@.skip(i as int)[0] == b@[i as int]);
            assert(a@.skip(i as int).skip(1) =~= a@.skip(i + 1));
            assert(b@.skip(i as int).skip(1) =~= b@.skip(i + 1));
        }
        if a[i] != b[i] {
            return a[i] < b[i];
        }
        i = i + 1;
    }
    i >= a.len()
}

fn insert_entry(sorted: &mut Vec<(String, String)>, name: String, path: String)
    ensures
        crate::cli::pair_texts(final(sorted)@) == inserted(
            crate::cli::pair_texts(old(sorted)@),
            (name@, path@),
        ),
{
    let ghost all = crate::cli::pair_texts(sorted@);
    let ghost e = (name@, path@);
    let key = chars_of(name.as_str());
    let mut at: usize = sorted.len();
    assert(all.take(all.len() as int) =~= all);
    assert(inserted(all, e) =~= inserted(all.take(at as int), e) + all.skip(at as int));
    while at > 0
        invariant
            at <= sorted@.len(),
            sorted@ == old(sorted)@,
            all == crate::cli::pair_texts(sorted@),
            e == (name@, path@),
            key@ == name@,
            inserted(all, e) == inserted(all.take(at as int), e) + all.skip(at as int),
        ensures
            at <= sorted@.len(),
            sorted@ == old(sorted)@,
            inserted(all, e) == all.take(at as int).push(e) + all.skip(at as int),
        decreases at,
    {
        let other = chars_of(sorted[at - 1].0.as_str());
        proof {
            assert(all[at - 1] == (sorted@[at - 1].0@, sorted@[at - 1].1@));
            assert(all.take(at as int).last() == all[at - 1]);
        }
        if text_before(other.as_slice(), key.as_slice()) {
            break;
        }
        proof {
            assert(all.take(at as int).drop_last() =~= all.take(at - 1));
            assert(inserted(all.take(at - 1), e).push(all[at - 1]) + all.skip(at as int)
                =~= inserted(all.take(at - 1), e) + all.skip(at - 1));
        }
        at = at - 1;
        proof {
            if at == 0 {
                assert(all.take(0) =~= Seq::<(Seq<char>, Seq<char>)>::empty());
            }
        }
    }
    sorted.insert(at, (name, path));
    proof {
        assert(crate::cli::pair_texts(sorted@) =~= all.take(at as int).push(e) + all.skip(
            at as int,
        ));
    }
}

/// The paths of the entries that are hits, sorted by name; see [`selected`].
pub fn select_entries(entries: &Vec<DirEntry>, hits: &Vec<bool>) -> (r: Vec<String>)
    requires
        entries@.len() == hits@.len(),
    ensures
        texts(r@) == seconds(selected(entry_models(entries@), hits@)),
{
    let mut sorted: Vec<(String, String)> = Vec::new();
    let mut i: usize = 0;
    assert(crate::cli::pair_texts(sorted@) =~= selected(
        entry_models(entries@.take(0)),
        hits@.take(0),
    ));
    while i < entries.len()
        invariant
            i <= entries@.len(),
            entries@.len() == hits@.len(),
            crate::cli::pair_texts(sorted@) == selected(
                entry_models(entries@.take(i as int)),
                hits@.take(i as int),
            ),
        decreases entries@.len() - i,
    {
        proof {
            let longer = entry_models(entries@.take(i + 1));
            assert(longer.drop_last() =~= entry_models(entries@.take(i as int)));
            assert(longer.last() == entry_model(entries@[i as int]));
            assert(hits@.take(i + 1).drop_last() =~= hits@.take(i as int));
        }
        if hits[i] {
            insert_entry(&mut sorted, entries[i].name.clone(), entries[i].path.clone());
        }
        i = i + 1;
    }
    assert(entries@.take(entries@.len() as int) =~= entries@);
    assert(hits@.take(hits@.len() as int) =~= hits@);
    let ghost pairs = selected(entry_models(entries@), hits@);
    let mut out: Vec<String> = Vec::new();
    let mut i: usize = 0;
    assert(sorted@.len() == crate::cli::pair_texts(sorted@).len());
    while i < sorted.len()
        invariant
            i <= sorted@.len(),
            pairs == crate::cli::pair_texts(sorted@),
            texts(out@) == seconds(pairs).take(i as int),
        decreases sorted@.len() - i,
    {
        let ghost before = out@;
        out.push(sorted[i].1.clone());
        proof {
            assert(pairs[i as int] == (sorted@[i as int].0@, sorted@[i as int].1@));
            assert(texts(out@) =~= texts(before).push(seconds(pairs)[i as int]));
            assert(seconds(pairs).take(i as int).push(seconds(pairs)[i as int])
                =~= seconds(pairs).take(i + 1));
        }
        i = i + 1;
    }
    assert(seconds(pairs).take(pairs.len() as int) =~= seconds(pairs));
    out
}

/// Why the entries of a directory could not be matched.
#[derive(Clone, Copy, PartialEq, Eq, Structural, Debug)]
pub enum GlobError {
    /// The pattern is no glob.
    Invalid,
    /// The pattern does not compile: it is too large or too deeply nested.
    TooComplex,
}

/// Whether `hits` says of each entry what the pattern says of its name. On
/// which platform matters only where a backslash is in the way.
pub open spec fn hits_of(
    hits: Seq<bool>,
    pattern: Seq<char>,
    entries: Seq<(Seq<char>, Seq<char>)>,
) -> bool {
    &&& hits.len() == entries.len()
    &&& forall|i: int|
        0 <= i < entries.len() ==> is_hit_for(#[trigger] hits[i], pattern, entries[i].0)
}

/// Whether `hit` says whether a name matches a pattern.
pub open spec fn is_hit_for(hit: bool, pattern: Seq<char>, name: Seq<char>) -> bool {
    &&& exists|windows: bool| hit == #[trigger] glob_hit(pattern, name, windows)
    &&& !pattern.contains('\\') && !name.contains('\\') ==> forall|windows: bool|
        hit == #[trigger] glob_hit(pattern, name, windows)
}

/// What a pattern is, by what comes of matching it.
pub open spec fn state_of(r: Result<Vec<String>, GlobError>) -> GlobState {
    match r {
        Ok(_) => GlobState::Compiles,
        Err(GlobError::Invalid) => GlobState::Invalid,
        Err(GlobError::TooComplex) => GlobState::TooComplex,
    }
}

/// The files of a directory whose names match a glob pattern, sorted by
/// name; an error where the pattern does not compile, see [`glob_state`].
pub fn expand_glob(pattern: &str, entries: &Vec<DirEntry>) -> (r: Result<Vec<String>, GlobError>)
    ensures
        exists|windows: bool, layout: nat|
            state_of(r) == #[trigger] glob_state(pattern@, windows, layout),
        !pattern@.contains('\\') ==> forall|windows: bool, layout: nat|
            (state_of(r) is Invalid <==> (#[trigger] glob_state(pattern@, windows, layout))
                is Invalid),
        r matches Ok(paths) ==> exists|hits: Seq<bool>|
            #[trigger] hits_of(hits, pattern@, entry_models(entries@)) && texts(paths@) == seconds(
                selected(entry_models(entries@), hits),
            ),
{
    let tried = try_glob(pattern);
    proof {
        let (windows, layout) = choose|windows: bool, layout: nat|
            tried_as(tried, #[trigger] glob_state(pattern@, windows, layout));
        assert(tried_as(tried, glob_state(pattern@, windows, layout)));
    }
    let glob = match tried {
        Some(TriedGlob::Compiled(glob)) => glob,
        Some(TriedGlob::Invalid(_)) => return Err(GlobError::Invalid),
        None => return Err(GlobError::TooComplex),
    };
    let ghost models = entry_models(entries@);
    let mut hits: Vec<bool> = Vec::new();
    let mut i: usize = 0;
    while i < entries.len()
        invariant
            i <= entries@.len(),
            glob.pattern() == pattern@,
            models == entry_models(entries@),
            hits@.len() == i,
            forall|j: int| 0 <= j < i ==> is_hit_for(#[trigger] hits@[j], pattern@, models[j].0),
        decreases entries@.len() - i,
    {
        assert(models[i as int] == entry_model(entries@[i as int]));
        hits.push(glob.is_hit(entries[i].name.as_str()));
        i = i + 1;
    }
    assert(hits_of(hits@, pattern@, models));
    Ok(select_entries(entries, &hits))
}

// ---------------------------------------------------------------------
// Settings of a host
// ---------------------------------------------------------------------

/// What a configuration file says of a host.
#[derive(Debug)]
pub struct HostSettings {
    pub hostname: Option<String>,
    pub user: Option<String>,
    pub port: Option<u16>,
    pub identity_file: Option<Vec<String>>,
    pub proxy_jump: Option<String>,
    pub strict_host_key_checking: Option<bool>,
    pub user_known_hosts_file: Option<String>,
}

/// What a configuration file says of a host, over texts.
pub struct HostModel {
    pub hostname: Option<Seq<char>>,
    pub user: Option<Seq<char>>,
    pub port: Option<u16>,
    pub identity_file: Option<Seq<Seq<char>>>,
    pub proxy_jump: Option<Seq<char>>,
    pub strict_host_key_checking: Option<bool>,
    pub user_known_hosts_file: Option<Seq<char>>,
}

impl View for HostSettings {
    type V = HostModel;

    open spec fn view(&self) -> HostModel {
        HostModel {
            hostname: opt_text(self.hostname),
            user: opt_text(self.user),
            port: self.port,
            identity_file: match self.identity_file {
                Some(l) => Some(texts(l@)),
                None => None,
            },
            proxy_jump: opt_text(self.proxy_jump),
            strict_host_key_checking: self.strict_host_key_checking,
            user_known_hosts_file: opt_text(self.user_known_hosts_file),
        }
    }
}

/// Why a configuration file could not be read.
#[derive(Clone, Copy, PartialEq, Eq, Structural, Debug)]
pub enum ParseFailure {
    /// A setting stands outside every block.
    HostNotFound,
    /// A path is relative to a home directory that there is not.
    NoHome,
    /// Reading failed.
    Io,
}

/// What `russh_config::parse` finds in a configuration text for a host, where
/// `windows` says that a backslash separates instead of escaping, and `home`
/// is the home directory of the user.
pub uninterp spec fn host_settings(
    content: Seq<char>,
    host: Seq<char>,
    windows: bool,
    home: Option<Seq<char>>,
) -> Result<HostModel, ParseFailure>;

/// The settings that were found, over texts.
pub open spec fn settings_model(r: Result<HostSettings, ParseFailure>) -> Result<
    HostModel,
    ParseFailure,
> {
    match r {
        Ok(s) => Ok(s@),
        Err(e) => Err(e),
    }
}

/// Whether two settings differ in nothing but the texts of the paths.
pub open spec fn same_but_paths(a: HostModel, b: HostModel) -> bool {
    &&& a.hostname == b.hostname
    &&& a.user == b.user
    &&& a.port == b.port
    &&& a.proxy_jump == b.proxy_jump
    &&& a.strict_host_key_checking == b.strict_host_key_checking
    &&& (a.user_known_hosts_file is Some <==> b.user_known_hosts_file is Some)
    &&& match (a.identity_file, b.identity_file) {
        (Some(x), Some(y)) => x.len() == y.len(),
        (None, None) => true,
        _ => false,
    }
}

/// Whether a backslash stands where the platform decides what it means: in a
/// pattern of a `Host` line, or in the host.
pub open spec fn has_slashes(content: Seq<char>, host: Seq<char>) -> bool {
    host.contains('\\') || exists|i: int|
        0 <= i < hosts(content).len() && (#[trigger] hosts(content)[i]).contains('\\')
}

/// Whether `r` is what [`host_settings`] finds on some platform with some home
/// directory. The platform matters only where a backslash stands in a pattern
/// of a `Host` line or in the host, and for how the home directory joins a
/// path. The home directory decides on no more than the texts of paths and
/// whether there are any, and only where the text holds a tilde.
pub open spec fn found_settings(
    content: Seq<char>,
    host: Seq<char>,
    r: Result<HostModel, ParseFailure>,
) -> bool {
    &&& r != Err::<HostModel, ParseFailure>(ParseFailure::Io)
    &&& r == Err::<HostModel, ParseFailure>(ParseFailure::NoHome) ==> content.contains('~')
    &&& exists|windows: bool, home: Option<Seq<char>>|
        r == #[trigger] host_settings(content, host, windows, home) && settles(
            content,
            host,
            windows,
            r,
        )
    &&& !has_slashes(content, host) ==> forall|windows: bool| settles(content, host, windows, r)
}

/// Whether `r` differs from what is found on a platform with other home
/// directories in no more than the texts of paths and whether there are any,
/// and in nothing where the text holds no tilde.
pub open spec fn settles(
    content: Seq<char>,
    host: Seq<char>,
    windows: bool,
    r: Result<HostModel, ParseFailure>,
) -> bool {
    &&& !content.contains('~') ==> forall|home: Option<Seq<char>>|
        r == #[trigger] host_settings(content, host, windows, home)
    &&& r matches Ok(s) ==> forall|home: Option<Seq<char>>|
        (#[trigger] host_settings(content, host, windows, home)) matches Ok(t) ==> same_but_paths(
            s,
            t,
        )
}

/// A pattern without the mark that negates it.
pub open spec fn bare(word: Seq<char>) -> Seq<char> {
    if word.len() > 0 && word[0] == '!' {
        word.skip(1)
    } else {
        word
    }
}

/// The patterns of words.
pub open spec fn bares(list: Seq<Seq<char>>) -> Seq<Seq<char>> {
    list.map_values(|word: Seq<char>| bare(word))
}

/// The patterns of a line, if it is a `Host` line.
pub open spec fn host_patterns(line: Seq<char>) -> Seq<Seq<char>> {
    let text = trimmed(line);
    match cut_first(text, ' ') {
        Some((key, value)) => if text[0] != '#' && ascii_lower(key) == "host"@ {
            bares(words(value))
        } else {
            Seq::empty()
        },
        None => Seq::empty(),
    }
}

/// The patterns of the `Host` lines among lines.
pub open spec fn patterns_of(list: Seq<Seq<char>>) -> Seq<Seq<char>>
    decreases list.len(),
{
    if list.len() == 0 {
        Seq::empty()
    } else {
        patterns_of(list.drop_last()) + host_patterns(list.last())
    }
}

/// The patterns of all `Host` lines of a configuration text.
pub open spec fn hosts(content: Seq<char>) -> Seq<Seq<char>> {
    patterns_of(lines(content))
}

/// Appends the patterns of the words of a text.
fn push_words(s: &[char], out: &mut Vec<String>)
    ensures
        texts(final(out)@) == texts(old(out)@) + bares(words(s@)),
{
    let list = split_words(s);
    let ghost start = texts(out@);
    let ghost all = texts(list@);
    let mut i: usize = 0;
    assert(texts(out@) =~= start + bares(all.take(0)));
    while i < list.len()
        invariant
            i <= list@.len(),
            all == texts(list@),
            texts(out@) == start + bares(all.take(i as int)),
        decreases list@.len() - i,
    {
        let word = chars_of(list[i].as_str());
        let pattern = if word.len() > 0 && word[0] == '!' {
            string_of(skip_chars(word.as_slice(), 1))
        } else {
            list[i].clone()
        };
        let ghost had = out@;
        let ghost shown = pattern@;
        out.push(pattern);
        proof {
            assert(all[i as int] == list@[i as int]@);
            assert(texts(out@) =~= texts(had).push(shown));
            assert(bares(all.take(i + 1)) =~= bares(all.take(i as int)).push(shown));
        }
        i = i + 1;
    }
    assert(all.take(all.len() as int) =~= all);
}

/// Appends the patterns of a line.
fn push_patterns(line: &str, out: &mut Vec<String>)
    ensures
        texts(final(out)@) == texts(old(out)@) + host_patterns(line@),
{
    let all = chars_of(line);
    let text = trim(all.as_slice());
    let host = chars_of("host");
    assert(texts(out@) + Seq::<Seq<char>>::empty() =~= texts(out@));
    match split_first(text, ' ') {
        Some((key, value)) => {
            proof {
                text@.index_of_first_ensures(' ');
            }
            if text[0] != '#' && eq_chars(to_ascii_lower(key).as_slice(), host.as_slice()) {
                push_words(value, out);
            }
        },
        None => {},
    }
}

/// Computes [`hosts`].
pub fn host_list(content: &str) -> (r: Vec<String>)
    ensures
        texts(r@) == hosts(content@),
{
    let all = split_lines(content);
    let ghost l = lines(content@);
    let mut out: Vec<String> = Vec::new();
    let mut i: usize = 0;
    proof {
        assert(all@.len() == texts(all@).len());
        assert(texts(out@) =~= patterns_of(l.take(0)));
    }
    while i < all.len()
        invariant
            i <= all@.len(),
            l == texts(all@),
            all@.len() == l.len(),
            texts(out@) == patterns_of(l.take(i as int)),
        decreases all@.len() - i,
    {
        proof {
            assert(l[i as int] == all@[i as int]@);
            assert(l.take(i + 1).drop_last() =~= l.take(i as int));
        }
        push_patterns(all[i].as_str(), &mut out);
        i = i + 1;
    }
    assert(l.take(l.len() as int) =~= l);
    out
}

/// The patterns that were tried.
pub open spec fn tried_patterns(tried: Seq<TriedGlob>) -> Seq<Seq<char>> {
    tried.map_values(|glob: TriedGlob| glob.pattern())
}

/// Whether a pattern may be too complex, as far as platform and machine decide.
pub open spec fn may_be_complex(pattern: Seq<char>) -> bool {
    exists|windows: bool, layout: nat|
        (#[trigger] glob_state(pattern, windows, layout)) is TooComplex
}

/// Whether a pattern may be other than too complex.
pub open spec fn may_be_tried(pattern: Seq<char>) -> bool {
    exists|windows: bool, layout: nat|
        !((#[trigger] glob_state(pattern, windows, layout)) is TooComplex)
}

/// Tries patterns one after the other; `None` where one of them is too complex.
pub fn try_globs(patterns: &Vec<String>) -> (r: Option<Vec<TriedGlob>>)
    ensures
        match r {
            Some(tried) => tried_patterns(tried@) == texts(patterns@) && forall|i: int|
                0 <= i < patterns@.len() ==> may_be_tried(#[trigger] texts(patterns@)[i]),
            None => exists|i: int|
                0 <= i < patterns@.len() && may_be_complex(#[trigger] texts(patterns@)[i]),
        },
{
    let ghost l = texts(patterns@);
    let mut out: Vec<TriedGlob> = Vec::new();
    let mut i: usize = 0;
    assert(tried_patterns(out@) =~= l.take(0));
    while i < patterns.len()
        invariant
            i <= patterns@.len(),
            l == texts(patterns@),
            tried_patterns(out@) == l.take(i as int),
            forall|j: int| 0 <= j < i ==> may_be_tried(#[trigger] l[j]),
        decreases patterns@.len() - i,
    {
        let ghost p = patterns@[i as int]@;
        assert(l[i as int] == p);
        let tried = try_glob(patterns[i].as_str());
        proof {
            let (windows, layout) = choose|windows: bool, layout: nat|
                tried_as(tried, #[trigger] glob_state(p, windows, layout));
            assert(tried_as(tried, glob_state(p, windows, layout)));
        }
        match tried {
            Some(glob) => {
                let ghost before = out@;
                out.push(glob);
                assert(tried_patterns(out@) =~= tried_patterns(before).push(p));
                assert(l.take(i as int).push(p) =~= l.take(i + 1));
            },
            None => {
                assert(may_be_complex(l[i as int]));
                return None;
            },
        }
        i = i + 1;
    }
    assert(l.take(l.len() as int) =~= l);
    Some(out)
}

/// `russh_config::parse`: what a configuration text says of a host. It panics
/// on a pattern of a `Host` line that does not compile, so all of them must
/// have been tried on this machine. A path that begins with a tilde is
/// completed with the home directory that the environment gives, or refused
/// where it gives none. A backslash in a pattern or in the host escapes or
/// separates, by the platform. Which home directory and which platform it is
/// is left unsaid; nothing else depends on them, and no file is read.
#[verifier::external_body]
fn parse_host_settings(content: &str, host: &str, tried: &Vec<TriedGlob>) -> (r: Result<
    HostSettings,
    ParseFailure,
>)
    requires
        tried_patterns(tried@) == hosts(content@),
    ensures
        !(r matches Err(ParseFailure::Io)),
        r matches Err(ParseFailure::NoHome) ==> content@.contains('~'),
        exists|windows: bool, home: Option<Seq<char>>|
            settings_model(r) == #[trigger] host_settings(content@, host@, windows, home)
                && settles(content@, host@, windows, settings_model(r)),
        !has_slashes(content@, host@) ==> forall|windows: bool|
            settles(content@, host@, windows, settings_model(r)),
{
    let text = |p: std::path::PathBuf| p.to_string_lossy().into_owned();
    russh_config::parse(content, host).map(|c| c.host_config).map(|c| HostSettings {
        hostname: c.hostname,
        user: c.user,
        port: c.port,
        identity_file: c.identity_file.map(|l| l.into_iter().map(text).collect()),
        proxy_jump: c.proxy_jump,
        strict_host_key_checking: c.strict_host_key_checking,
        user_known_hosts_file: c.user_known_hosts_file.map(text),
    }).map_err(|e| match e {
        russh_config::Error::HostNotFound => ParseFailure::HostNotFound,
        russh_config::Error::NoHome => ParseFailure::NoHome,
        russh_config::Error::Io(_) => ParseFailure::Io,
    })
}

/// The settings of a host that the client makes use of. What is absent does
/// not override anything.
#[derive(Debug)]
pub struct ResolvedConfig {
    /// The host to connect to in place of the alias.
    pub hostname: Option<String>,
    /// The user where the command line names none.
    pub user: Option<String>,
    /// The port where the command line names none.
    pub port: Option<u16>,
    /// The identity files, in order.
    pub identity_file: Vec<String>,
    /// The jump host where the command line names none.
    pub proxy_jump: Option<String>,
    /// Whether host keys are checked strictly.
    pub strict_host_key_checking: Option<bool>,
    /// The known-hosts file.
    pub user_known_hosts_file: Option<String>,
}

/// The settings of a host, over texts.
pub struct ResolvedModel {
    pub hostname: Option<Seq<char>>,
    pub user: Option<Seq<char>>,
    pub port: Option<u16>,
    pub identity_file: Seq<Seq<char>>,
    pub proxy_jump: Option<Seq<char>>,
    pub strict_host_key_checking: Option<bool>,
    pub user_known_hosts_file: Option<Seq<char>>,
}

impl View for ResolvedConfig {
    type V = ResolvedModel;

    open spec fn view(&self) -> ResolvedModel {
        ResolvedModel {
            hostname: opt_text(self.hostname),
            user: opt_text(self.user),
            port: self.port,
            identity_file: texts(self.identity_file@),
            proxy_jump: opt_text(self.proxy_jump),
            strict_host_key_checking: self.strict_host_key_checking,
            user_known_hosts_file: opt_text(self.user_known_hosts_file),
        }
    }
}

/// The settings of a host of which nothing is said.
pub open spec fn unset_config() -> ResolvedModel {
    ResolvedModel {
        hostname: None,
        user: None,
        port: None,
        identity_file: Seq::empty(),
        proxy_jump: None,
        strict_host_key_checking: None,
        user_known_hosts_file: None,
    }
}

/// The settings that a file makes: the same, without identity files where it
/// names none.
pub open spec fn resolved_from(s: HostModel) -> ResolvedModel {
    ResolvedModel {
        hostname: s.hostname,
        user: s.user,
        port: s.port,
        identity_file: match s.identity_file {
            Some(l) => l,
            None => Seq::empty(),
        },
        proxy_jump: s.proxy_jump,
        strict_host_key_checking: s.strict_host_key_checking,
        user_known_hosts_file: s.user_known_hosts_file,
    }
}

impl Default for ResolvedConfig {
    fn default() -> (r: Self)
        ensures
            r@ == unset_config(),
    {
        let r = ResolvedConfig {
            hostname: None,
            user: None,
            port: None,
            identity_file: Vec::new(),
            proxy_jump: None,
            strict_host_key_checking: None,
            user_known_hosts_file: None,
        };
        assert(texts(r.identity_file@) =~= Seq::<Seq<char>>::empty());
        r
    }
}

/// Takes over the settings of a file; see [`resolved_from`].
pub fn resolve_settings(s: HostSettings) -> (r: ResolvedConfig)
    ensures
        r@ == resolved_from(s@),
{
    let identity_file: Vec<String> = match s.identity_file {
        Some(l) => l,
        None => Vec::new(),
    };
    proof {
        if s.identity_file is None {
            assert(texts(identity_file@) =~= Seq::<Seq<char>>::empty());
        }
    }
    ResolvedConfig {
        hostname: s.hostname,
        user: s.user,
        port: s.port,
        identity_file,
        proxy_jump: s.proxy_jump,
        strict_host_key_checking: s.strict_host_key_checking,
        user_known_hosts_file: s.user_known_hosts_file,
    }
}

/// Why the settings of a host could not be had.
#[derive(Debug)]
pub enum ConfigError {
    /// Merging stopped; a missing fact is no error but has to be supplied.
    Include(IncludeStop),
    /// The merged text could not be read.
    Parse(ParseFailure),
    /// A `Host` line of the merged text has a pattern that does not compile: it
    /// is too large or too deeply nested.
    TooComplex,
}

/// `whoami::username`: the name of the local user, if the system tells it.
/// It depends on the environment, so nothing is claimed of it.
#[verifier::external_body]
fn local_user() -> (r: Option<String>) {
    whoami::username().ok()
}

/// For whom a configuration is read; the name of the local user is empty
/// where the system does not tell it.
pub fn reader_of(host: &str, home: &Option<String>, user: Option<String>) -> (r: Reader)
    ensures
        r.host@ == host@,
        opt_text(r.home) == opt_text(*home),
        r.user@ == (match user {
            Some(name) => name@,
            None => Seq::empty(),
        }),
{
    Reader {
        host: host.to_owned(),
        home: clone_opt(home),
        user: match user {
            Some(name) => name,
            None => String::new(),
        },
    }
}

/// For whom a configuration is read; see [`reader_of`]. What the system says of
/// the local user is left unsaid.
pub fn config_reader(host: &str, home: &Option<String>) -> (r: Reader)
    ensures
        r.host@ == host@,
        opt_text(r.home) == opt_text(*home),
{
    reader_of(host, home, local_user())
}

/// Whether no pattern of a `Host` line is too complex, as far as platform and
/// machine decide.
pub open spec fn all_tried(content: Seq<char>) -> bool {
    forall|i: int| 0 <= i < hosts(content).len() ==> may_be_tried(#[trigger] hosts(content)[i])
}

/// Whether some pattern of a `Host` line is too complex, as far as platform and
/// machine decide.
pub open spec fn some_complex(content: Seq<char>) -> bool {
    exists|i: int| 0 <= i < hosts(content).len() && may_be_complex(#[trigger] hosts(content)[i])
}

/// Whether `r` is what a configuration file, merged with the files that it
/// names, says of the host: merging may stop; a pattern of a `Host` line of the
/// merged text may be too complex; else it is what [`found_settings`] says.
pub open spec fn loads(
    files: Files,
    reader: Reader,
    content: Seq<char>,
    dir: Seq<char>,
    r: Result<ResolvedConfig, ConfigError>,
) -> bool {
    match merge_text(files, reader, content, dir, Set::empty(), 0).result {
        Err(stop) => r matches Err(ConfigError::Include(e)) && e@ == stop,
        Ok(merged) => match r {
            Ok(c) => all_tried(merged) && exists|s: HostModel| #[trigger]
                found_settings(merged, reader.host@, Ok(s)) && c@ == resolved_from(s),
            Err(ConfigError::Parse(e)) => all_tried(merged) && found_settings(
                merged,
                reader.host@,
                Err(e),
            ),
            Err(ConfigError::TooComplex) => some_complex(merged),
            Err(ConfigError::Include(_)) => false,
        },
    }
}

/// Merges a configuration file with the files that it names and reads what
/// the whole says of the host; see [`loads`].
pub fn load_and_parse(files: &Files, reader: &Reader, content: &str, base_dir: &str) -> (r: Result<
    ResolvedConfig,
    ConfigError,
>)
    ensures
        loads(*files, *reader, content@, base_dir@, r),
{
    let mut seen: Vec<String> = Vec::new();
    assert(path_set(seen@) =~= Set::<Seq<char>>::empty()) by {
        assert(texts(seen@) =~= Seq::<Seq<char>>::empty());
    }
    let merged = match preprocess_includes(files, reader, content, base_dir, &mut seen, 0) {
        Ok(text) => text,
        Err(e) => return Err(ConfigError::Include(e)),
    };
    let patterns = host_list(merged.as_str());
    let ghost list = hosts(merged@);
    assert(list.len() == patterns@.len());
    let tried = match try_globs(&patterns) {
        Some(tried) => tried,
        None => {
            proof {
                let i = choose|i: int|
                    0 <= i < patterns@.len() && may_be_complex(#[trigger] texts(patterns@)[i]);
                assert(may_be_complex(hosts(merged@)[i]));
                assert(some_complex(merged@));
            }
            return Err(ConfigError::TooComplex);
        },
    };
    assert(all_tried(merged@)) by {
        assert forall|i: int| 0 <= i < list.len() implies may_be_tried(#[trigger] list[i]) by {
            assert(may_be_tried(texts(patterns@)[i]));
        }
    }
    match parse_host_settings(merged.as_str(), reader.host.as_str(), &tried) {
        Ok(s) => {
            assert(found_settings(merged@, reader.host@, Ok(s@)));
            Ok(resolve_settings(s))
        },
        Err(e) => {
            assert(found_settings(merged@, reader.host@, Err(e)));
            Err(ConfigError::Parse(e))
        },
    }
}

/// What a configuration says of a host is settled by the files and the host
/// but for the home directory, which moves paths and no more, and that only
/// where the merged text holds a tilde. A backslash in a pattern of a `Host`
/// line or in the host leaves it to the platform.
pub proof fn home_moves_paths_only(
    files: Files,
    reader: Reader,
    content: Seq<char>,
    dir: Seq<char>,
    merged: Seq<char>,
    a: ResolvedConfig,
    b: ResolvedConfig,
)
    requires
        merge_text(files, reader, content, dir, Set::empty(), 0).result
            == Ok::<Seq<char>, StopModel>(merged),
        !has_slashes(merged, reader.host@),
        loads(files, reader, content, dir, Ok(a)),
        loads(files, reader, content, dir, Ok(b)),
    ensures
        a@.hostname == b@.hostname,
        a@.user == b@.user,
        a@.port == b@.port,
        a@.proxy_jump == b@.proxy_jump,
        a@.strict_host_key_checking == b@.strict_host_key_checking,
        a@.user_known_hosts_file is Some <==> b@.user_known_hosts_file is Some,
        a@.identity_file.len() == b@.identity_file.len(),
        !merged.contains('~') ==> a@ == b@,
{
    let host = reader.host@;
    let s = choose|s: HostModel| #[trigger]
        found_settings(merged, host, Ok(s)) && a@ == resolved_from(s);
    let t = choose|t: HostModel| #[trigger]
        found_settings(merged, host, Ok(t)) && b@ == resolved_from(t);
    let (windows, home) = choose|windows: bool, home: Option<Seq<char>>|
        Ok::<HostModel, ParseFailure>(s) == #[trigger] host_settings(merged, host, windows, home)
            && settles(merged, host, windows, Ok(s));
    assert(settles(merged, host, windows, Ok(t)));
}

/// Where the configuration comes from.
pub enum ConfigSource {
    /// There is none.
    Nothing,
    /// From this file, which has to be there.
    Explicit(String),
    /// From the file of the user in this home directory, if it is there.
    Home(String),
}

/// Where the configuration comes from, over texts.
pub enum ConfigSourceModel {
    Nothing,
    Explicit(Seq<char>),
    Home(Seq<char>),
}

/// The file that the command line names, unless it is `/dev/null`; else that
/// of the user.
pub open spec fn config_source_model(
    named: Option<Seq<char>>,
    home: Option<Seq<char>>,
) -> ConfigSourceModel {
    match named {
        Some(p) => if p == "/dev/null"@ {
            ConfigSourceModel::Nothing
        } else {
            ConfigSourceModel::Explicit(p)
        },
        None => match home {
            Some(h) => ConfigSourceModel::Home(h),
            None => ConfigSourceModel::Nothing,
        },
    }
}

/// Decides where the configuration comes from; see [`config_source_model`].
pub fn config_source(cli: &Cli, home: &Option<String>) -> (r: ConfigSource)
    ensures
        match r {
            ConfigSource::Nothing => config_source_model(
                opt_text(cli.config_file),
                opt_text(*home),
            ) == ConfigSourceModel::Nothing,
            ConfigSource::Explicit(p) => config_source_model(
                opt_text(cli.config_file),
                opt_text(*home),
            ) == ConfigSourceModel::Explicit(p@),
            ConfigSource::Home(h) => config_source_model(
                opt_text(cli.config_file),
                opt_text(*home),
            ) == ConfigSourceModel::Home(h@),
        },
{
    match &cli.config_file {
        Some(p) => {
            if same_text(p.as_str(), "/dev/null") {
                ConfigSource::Nothing
            } else {
                ConfigSource::Explicit(p.clone())
            }
        },
        None => match home {
            Some(h) => ConfigSource::Home(h.clone()),
            None => ConfigSource::Nothing,
        },
    }
}

/// What is read of a configuration.
pub enum ConfigText {
    /// There is none to read.
    Absent,
    /// It is there and could not be read, or is not there.
    Unreadable,
    /// Its contents, and its directory.
    Text(String, String),
}

/// Why there is no configuration.
#[derive(Debug)]
pub enum ResolveError {
    /// The file that the command line names could not be read.
    Missing,
    /// The configuration is in error.
    Config(ConfigError),
}

/// Whether `r` are the settings that apply. Without a configuration nothing is
/// set, and neither is where the file of the user could not be read; that the
/// file named on the command line could not be read is an error.
pub open spec fn resolves(
    named: bool,
    files: Files,
    reader: Reader,
    text: ConfigText,
    r: Result<ResolvedConfig, ResolveError>,
) -> bool {
    match text {
        ConfigText::Absent => r matches Ok(c) && c@ == unset_config(),
        ConfigText::Unreadable => if named {
            r matches Err(ResolveError::Missing)
        } else {
            r matches Ok(c) && c@ == unset_config()
        },
        ConfigText::Text(content, dir) => match r {
            Ok(c) => loads(files, reader, content@, dir@, Ok(c)),
            Err(ResolveError::Config(e)) => loads(files, reader, content@, dir@, Err(e)),
            Err(ResolveError::Missing) => false,
        },
    }
}

/// The settings that apply; see [`resolves`].
pub fn resolve_config(
    cli: &Cli,
    files: &Files,
    reader: &Reader,
    text: &ConfigText,
) -> (r: Result<ResolvedConfig, ResolveError>)
    ensures
        resolves(cli.config_file is Some, *files, *reader, *text, r),
        match *text {
            ConfigText::Absent => r matches Ok(c) && c@ == unset_config(),
            ConfigText::Unreadable => if cli.config_file is Some {
                r matches Err(ResolveError::Missing)
            } else {
                r matches Ok(c) && c@ == unset_config()
            },
            ConfigText::Text(content, dir) => match r {
                Ok(c) => loads(*files, *reader, content@, dir@, Ok(c)),
                Err(ResolveError::Config(e)) => loads(*files, *reader, content@, dir@, Err(e)),
                Err(ResolveError::Missing) => false,
            },
        },
{
    match text {
        ConfigText::Absent => Ok(ResolvedConfig::default()),
        ConfigText::Unreadable => {
            if cli.config_file.is_some() {
                Err(ResolveError::Missing)
            } else {
                Ok(ResolvedConfig::default())
            }
        },
        ConfigText::Text(content, dir) => match load_and_parse(
            files,
            reader,
            content.as_str(),
            dir.as_str(),
        ) {
            Ok(c) => Ok(c),
            Err(e) => Err(ResolveError::Config(e)),
        },
    }
}

// ---------------------------------------------------------------------
// Joining the command line
// ---------------------------------------------------------------------

/// The first of two that is there.
pub open spec fn first_of(a: Option<Seq<char>>, b: Option<Seq<char>>) -> Option<Seq<char>> {
    if a is Some {
        a
    } else {
        b
    }
}

fn fill_opt(value: &mut Option<String>, other: &Option<String>)
    ensures
        opt_text(*final(value)) == first_of(opt_text(*old(value)), opt_text(*other)),
{
    if value.is_none() {
        *value = clone_opt(other);
    }
}

fn append_list(list: &mut Vec<String>, more: &Vec<String>)
    ensures
        final(list)@ == old(list)@ + more@,
{
    let mut i: usize = 0;
    assert(list@ =~= old(list)@ + more@.take(0));
    while i < more.len()
        invariant
            i <= more@.len(),
            list@ == old(list)@ + more@.take(i as int),
        decreases more@.len() - i,
    {
        list.push(more[i].clone());
        assert(list@ =~= old(list)@ + more@.take(i + 1));
        i = i + 1;
    }
    assert(more@.take(more@.len() as int) =~= more@);
}

/// The identity files in the order in which they are tried: those of the command
/// line, then those of the configuration.
pub open spec fn key_order(given: Seq<Seq<char>>, configured: Seq<Seq<char>>) -> Seq<Seq<char>> {
    given + configured
}

/// Fills in what the command line leaves open: user and jump host where it
/// names none, and identity files behind its own.
pub fn apply_resolved(cli: &mut Cli, resolved: &ResolvedConfig)
    ensures
        texts(final(cli).identity_file@) == key_order(
            texts(old(cli).identity_file@),
            texts(resolved.identity_file@),
        ),
        opt_text(final(cli).user) == first_of(opt_text(old(cli).user), opt_text(resolved.user)),
        opt_text(final(cli).proxy_jump) == first_of(
            opt_text(old(cli).proxy_jump),
            opt_text(resolved.proxy_jump),
        ),
        final(cli).identity_file@ == old(cli).identity_file@ + resolved.identity_file@,
        *final(cli) == (Cli {
            user: final(cli).user,
            proxy_jump: final(cli).proxy_jump,
            identity_file: final(cli).identity_file,
            ..*old(cli)
        }),
{
    fill_opt(&mut cli.user, &resolved.user);
    append_list(&mut cli.identity_file, &resolved.identity_file);
    fill_opt(&mut cli.proxy_jump, &resolved.proxy_jump);
    assert(texts(cli.identity_file@) =~= key_order(
        texts(old(cli).identity_file@),
        texts(resolved.identity_file@),
    ));
}

// ---------------------------------------------------------------------
// Laws
// ---------------------------------------------------------------------

/// Whether a list is sorted by the first of each pair.
pub open spec fn is_sorted(s: Seq<(Seq<char>, Seq<char>)>) -> bool {
    forall|i: int, j: int| 0 <= i <= j < s.len() ==> text_le(#[trigger] s[i].0, #[trigger] s[j].0)
}

proof fn text_le_total(a: Seq<char>, b: Seq<char>)
    ensures
        text_le(a, b) || text_le(b, a),
        text_le(a, a),
    decreases a.len(),
{
    if a.len() > 0 {
        text_le_total(a.skip(1), a.skip(1));
        if b.len() > 0 {
            text_le_total(a.skip(1), b.skip(1));
        }
    }
}

proof fn text_le_transitive(a: Seq<char>, b: Seq<char>, c: Seq<char>)
    requires
        text_le(a, b),
        text_le(b, c),
    ensures
        text_le(a, c),
    decreases a.len(),
{
    if a.len() > 0 && b.len() > 0 && c.len() > 0 {
        if a[0] == b[0] && b[0] == c[0] {
            text_le_transitive(a.skip(1), b.skip(1), c.skip(1));
        }
    }
}

proof fn inserted_is_sorted(s: Seq<(Seq<char>, Seq<char>)>, e: (Seq<char>, Seq<char>))
    requires
        is_sorted(s),
    ensures
        is_sorted(inserted(s, e)),
        inserted(s, e).to_multiset() == s.to_multiset().insert(e),
        inserted(s, e).len() == s.len() + 1,
        forall|k: (Seq<char>, Seq<char>)|
            #[trigger] inserted(s, e).contains(k) ==> s.contains(k) || k == e,
    decreases s.len(),
{
    broadcast use vstd::seq_lib::group_to_multiset_ensures;

    if s.len() == 0 || text_le(s.last().0, e.0) {
        let r = s.push(e);
        assert forall|i: int, j: int| 0 <= i <= j < r.len() implies text_le(
            #[trigger] r[i].0,
            #[trigger] r[j].0,
        ) by {
            if j == s.len() {
                if i < s.len() {
                    assert(text_le(s[i].0, s[s.len() - 1].0));
                    text_le_transitive(s[i].0, s.last().0, e.0);
                } else {
                    text_le_total(e.0, e.0);
                }
            } else {
                assert(text_le(s[i].0, s[j].0));
            }
        }
        assert forall|k: (Seq<char>, Seq<char>)| #[trigger] r.contains(k) implies s.contains(k) || k
            == e by {
            let i = choose|i: int| 0 <= i < r.len() && r[i] == k;
            if i < s.len() {
                assert(s[i] == k);
            }
        }
    } else {
        let front = s.drop_last();
        let last = s.last();
        assert(is_sorted(front)) by {
            assert forall|i: int, j: int| 0 <= i <= j < front.len() implies text_le(
                #[trigger] front[i].0,
                #[trigger] front[j].0,
            ) by {
                assert(text_le(s[i].0, s[j].0));
            }
        }
        inserted_is_sorted(front, e);
        let inner = inserted(front, e);
        let r = inner.push(last);
        text_le_total(last.0, e.0);
        assert forall|i: int, j: int| 0 <= i <= j < r.len() implies text_le(
            #[trigger] r[i].0,
            #[trigger] r[j].0,
        ) by {
            if j == inner.len() {
                if i < inner.len() {
                    assert(inner.contains(inner[i]));
                    if front.contains(inner[i]) {
                        let k = choose|k: int| 0 <= k < front.len() && front[k] == inner[i];
                        assert(s[k] == inner[i]);
                        assert(text_le(s[k].0, s[s.len() - 1].0));
                    }
                } else {
                    text_le_total(last.0, last.0);
                }
            } else {
                assert(text_le(inner[i].0, inner[j].0));
            }
        }
        assert(s =~= front.push(last));
        assert forall|k: (Seq<char>, Seq<char>)| #[trigger] r.contains(k) implies s.contains(k) || k
            == e by {
            let i = choose|i: int| 0 <= i < r.len() && r[i] == k;
            if i < inner.len() {
                assert(inner.contains(k));
                if front.contains(k) {
                    let m = choose|m: int| 0 <= m < front.len() && front[m] == k;
                    assert(s[m] == k);
                }
            } else {
                assert(s[s.len() - 1] == k);
            }
        }
        assert(r.to_multiset() =~= s.to_multiset().insert(e)) by {
            assert(r.to_multiset() == inner.to_multiset().insert(last));
            assert(s.to_multiset() == front.to_multiset().insert(last));
        }
    }
}

/// The entries that are hits, in the order of the directory.
pub open spec fn hit_entries(
    entries: Seq<(Seq<char>, Seq<char>)>,
    hits: Seq<bool>,
) -> Seq<(Seq<char>, Seq<char>)>
    decreases entries.len(),
{
    if entries.len() == 0 {
        Seq::empty()
    } else {
        let front = hit_entries(entries.drop_last(), hits.drop_last());
        if hits.last() {
            front.push(entries.last())
        } else {
            front
        }
    }
}

/// The files that a glob names come sorted by name, and they are exactly the
/// entries of the directory that match, each as often as it is there.
pub proof fn globbed_files_are_sorted(entries: Seq<(Seq<char>, Seq<char>)>, hits: Seq<bool>)
    requires
        entries.len() == hits.len(),
    ensures
        is_sorted(selected(entries, hits)),
        selected(entries, hits).to_multiset() == hit_entries(entries, hits).to_multiset(),
    decreases entries.len(),
{
    broadcast use vstd::seq_lib::group_to_multiset_ensures;

    if entries.len() > 0 {
        globbed_files_are_sorted(entries.drop_last(), hits.drop_last());
        let front = selected(entries.drop_last(), hits.drop_last());
        if hits.last() {
            inserted_is_sorted(front, entries.last());
        }
    }
}

/// The file that the command line names is read, unless it is `/dev/null`, which
/// stands for none; without one, that of the user, where there is a home
/// directory.
pub proof fn sources_in_order(named: Seq<char>, home: Option<Seq<char>>, dir: Seq<char>)
    ensures
        config_source_model(Some("/dev/null"@), home) == ConfigSourceModel::Nothing,
        named != "/dev/null"@ ==> config_source_model(Some(named), home)
            == ConfigSourceModel::Explicit(named),
        config_source_model(None, Some(dir)) == ConfigSourceModel::Home(dir),
        config_source_model(None, None) == ConfigSourceModel::Nothing,
{
}

/// What a file sets is taken over as it is: each setting under its own name, the
/// identity files in their order; and what nothing sets is not there.
pub proof fn settings_are_taken_over(s: HostModel, keys: Seq<Seq<char>>)
    ensures
        resolved_from(s).hostname == s.hostname,
        resolved_from(s).user == s.user,
        resolved_from(s).port == s.port,
        resolved_from(s).proxy_jump == s.proxy_jump,
        resolved_from(s).strict_host_key_checking == s.strict_host_key_checking,
        resolved_from(s).user_known_hosts_file == s.user_known_hosts_file,
        s.identity_file == Some(keys) ==> resolved_from(s).identity_file == keys,
        s.identity_file is None ==> resolved_from(s).identity_file.len() == 0,
        unset_config().hostname is None && unset_config().user is None,
        unset_config().port is None && unset_config().proxy_jump is None,
        unset_config().strict_host_key_checking is None,
        unset_config().user_known_hosts_file is None,
        unset_config().identity_file.len() == 0,
{
}

/// What the command line gives stays, whatever the configuration says; what it
/// leaves open the configuration fills in.
pub proof fn command_line_wins(given: Seq<char>, other: Option<Seq<char>>)
    ensures
        first_of(Some(given), other) == Some(given),
        first_of(None, other) == other,
{
}

/// Names are ordered by the first character in which they differ, by its code
/// point; a name comes before every longer one that begins with it.
pub proof fn names_are_ordered_by_code_point(
    front: Seq<char>,
    c: char,
    d: char,
    a: Seq<char>,
    b: Seq<char>,
)
    requires
        c < d,
    ensures
        text_le(front + (seq![c] + a), front + (seq![d] + b)),
        !text_le(front + (seq![d] + b), front + (seq![c] + a)),
        text_le(front, front + b),
        b.len() > 0 ==> !text_le(front + b, front),
    decreases front.len(),
{
    if front.len() == 0 {
        assert(front + (seq![c] + a) =~= seq![c] + a);
        assert(front + (seq![d] + b) =~= seq![d] + b);
        assert(front + b =~= b);
    } else {
        let shorter = front.skip(1);
        names_are_ordered_by_code_point(shorter, c, d, a, b);
        assert((front + (seq![c] + a)).skip(1) =~= shorter + (seq![c] + a));
        assert((front + (seq![d] + b)).skip(1) =~= shorter + (seq![d] + b));
        assert((front + b).skip(1) =~= shorter + b);
        assert((front + b)[0] == front[0]);
    }
}

/// The entries that a glob names are just those that are hits.
pub proof fn globbed_files_are_the_hits(
    entries: Seq<(Seq<char>, Seq<char>)>,
    hits: Seq<bool>,
    e: (Seq<char>, Seq<char>),
)
    requires
        entries.len() == hits.len(),
    ensures
        selected(entries, hits).contains(e) <==> exists|i: int|
            0 <= i < entries.len() && #[trigger] hits[i] && entries[i] == e,
    decreases entries.len(),
{
    if entries.len() > 0 {
        let front = entries.drop_last();
        let flags = hits.drop_last();
        let n = entries.len() - 1;
        globbed_files_are_the_hits(front, flags, e);
        let before = selected(front, flags);
        let all = selected(entries, hits);
        if hits.last() {
            inserted_holds(before, entries.last(), e);
        }
        if exists|i: int| 0 <= i < entries.len() && #[trigger] hits[i] && entries[i] == e {
            let i = choose|i: int| 0 <= i < entries.len() && #[trigger] hits[i] && entries[i] == e;
            if i < n {
                assert(flags[i] && front[i] == e);
            }
        }
        if exists|i: int| 0 <= i < front.len() && #[trigger] flags[i] && front[i] == e {
            let i = choose|i: int| 0 <= i < front.len() && #[trigger] flags[i] && front[i] == e;
            assert(hits[i] && entries[i] == e);
        }
        if hits.last() && entries.last() == e {
            assert(hits[n] && entries[n] == e);
        }
    }
}

proof fn inserted_holds(
    s: Seq<(Seq<char>, Seq<char>)>,
    e: (Seq<char>, Seq<char>),
    x: (Seq<char>, Seq<char>),
)
    ensures
        inserted(s, e).contains(x) <==> s.contains(x) || x == e,
    decreases s.len(),
{
    if s.len() == 0 || text_le(s.last().0, e.0) {
        pushed_pairs(s, e, x);
    } else {
        let front = s.drop_last();
        inserted_holds(front, e, x);
        pushed_pairs(inserted(front, e), s.last(), x);
        pushed_pairs(front, s.last(), x);
        assert(s =~= front.push(s.last()));
    }
}

proof fn pushed_pairs(
    s: Seq<(Seq<char>, Seq<char>)>,
    e: (Seq<char>, Seq<char>),
    x: (Seq<char>, Seq<char>),
)
    ensures
        s.push(e).contains(x) <==> s.contains(x) || x == e,
{
    if s.contains(x) {
        let i = choose|i: int| 0 <= i < s.len() && s[i] == x;
        assert(s.push(e)[i] == x);
    }
    if x == e {
        assert(s.push(e)[s.len() as int] == x);
    }
    if s.push(e).contains(x) && x != e {
        let i = choose|i: int| 0 <= i < s.push(e).len() && s.push(e)[i] == x;
        assert(s[i] == x);
    }
}

/// The patterns of a `Host` line are the words behind the keyword, in whatever
/// letter case that is, without the mark that negates them; other lines have
/// none.
pub proof fn host_lines_hold_patterns(key: Seq<char>, value: Seq<char>)
    requires
        key.len() > 0,
        !key.contains(' '),
        key[0] != '#',
        !crate::text::is_white(key[0]),
        value.len() > 0,
        !crate::text::is_white(value.last()),
    ensures
        ascii_lower(key) == "host"@ ==> host_patterns(key + seq![' '] + value) == bares(
            words(value),
        ),
        ascii_lower(key) != "host"@ ==> host_patterns(key + seq![' '] + value).len() == 0,
        host_patterns(seq!['#'] + value).len() == 0,
        bare(seq!['!'] + value) == value,
        value[0] != '!' ==> bare(value) == value,
{
    let line = key + seq![' '] + value;
    assert(line[0] == key[0] && line.last() == value.last());
    crate::text::trimmed_keeps(line);
    crate::text::cut_first_rejoins(key, ' ', value);
    let comment = seq!['#'] + value;
    assert(comment[0] == '#' && comment.last() == value.last());
    crate::text::trimmed_keeps(comment);
    assert((seq!['!'] + value).skip(1) =~= value);
}

/// The patterns of a configuration are those of its lines, in order.
pub proof fn patterns_come_line_by_line(list: Seq<Seq<char>>, line: Seq<char>)
    ensures
        patterns_of(Seq::empty()) == Seq::<Seq<char>>::empty(),
        patterns_of(list.push(line)) == patterns_of(list) + host_patterns(line),
{
    assert(list.push(line).drop_last() =~= list);
}

/// The identity files of the command line are tried before those of the
/// configuration, each in its own order, and none is left out.
pub proof fn keys_in_order(given: Seq<Seq<char>>, configured: Seq<Seq<char>>, i: int)
    ensures
        key_order(given, configured).len() == given.len() + configured.len(),
        0 <= i < given.len() ==> key_order(given, configured)[i] == given[i],
        0 <= i < configured.len() ==> key_order(given, configured)[given.len() + i]
            == configured[i],
{
}

/// Without a configuration nothing is set. A file that is named and cannot be
/// read is an error; that of the user need not be there. What a file says is
/// what its text says, whoever named it.
pub proof fn missing_configurations(
    named: bool,
    files: Files,
    reader: Reader,
    text: ConfigText,
    r: Result<ResolvedConfig, ResolveError>,
)
    requires
        resolves(named, files, reader, text, r),
    ensures
        text is Absent || (text is Unreadable && !named) ==> (r matches Ok(c) && c@.hostname is None
            && c@.user is None && c@.port is None && c@.identity_file.len() == 0
            && c@.proxy_jump is None && c@.strict_host_key_checking is None
            && c@.user_known_hosts_file is None),
        text is Unreadable && named ==> r is Err,
        text is Text ==> resolves(!named, files, reader, text, r),
        text matches ConfigText::Text(content, dir) ==> (merge_text(
            files,
            reader,
            content@,
            dir@,
            Set::empty(),
            0,
        ).result is Err ==> r is Err),
{
}

} // verus!
