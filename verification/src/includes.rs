//! Merging a configuration file with the files it names.
//!
//! A top-level `Include` line is replaced by the contents of the files that
//! its pattern names. The functions here hold the rules; what they have to
//! know of the file system is handed to them as [`Files`]. Where a fact is
//! missing they stop with a [`Request`] for it, and are called again once it
//! is known.

use vstd::prelude::*;
use vstd::string::*;

use crate::number::{decimal, push_decimal};
use crate::text::{
    ascii_lower, chars_of, concatenate, is_white, is_whitespace, opt_text, pieces, same_text,
    skip_chars, split_all, string_of, strip_front, take_chars, texts, to_ascii_lower, trim,
    trim_front, trim_start, trim_start_matches, trimmed,
};

verus! {

broadcast use vstd::string::group_string_axioms;

// ---------------------------------------------------------------------
// Lines
// ---------------------------------------------------------------------

/// A line without the carriage return at its end.
pub open spec fn without_return(s: Seq<char>) -> Seq<char> {
    if s.len() > 0 && s.last() == '\r' {
        s.drop_last()
    } else {
        s
    }
}

/// The lines of a text: what stands between line feeds, without carriage
/// returns before them. After the last line feed a line stands only if it is
/// not empty.
pub open spec fn lines(s: Seq<char>) -> Seq<Seq<char>> {
    let all = pieces(s, '\n');
    let ended = Seq::new((all.len() - 1) as nat, |i: int| without_return(all[i]));
    if all.last().len() == 0 {
        ended
    } else {
        ended.push(all.last())
    }
}

/// Splits a text into [`lines`].
pub fn split_lines(s: &str) -> (r: Vec<String>)
    ensures
        texts(r@) == lines(s@),
{
    let chars = chars_of(s);
    let all = split_all(chars.as_slice(), '\n');
    let ghost p = pieces(s@, '\n');
    proof {
        crate::text::piece_index(all@, p);
        assert(p.len() > 0);
    }
    let last: usize = all.len() - 1;
    let mut out: Vec<String> = Vec::new();
    let mut i: usize = 0;
    while i < last
        invariant
            i <= last,
            last == all@.len() - 1,
            all@.len() == p.len(),
            forall|j: int| 0 <= j < all@.len() ==> all@[j]@ == #[trigger] p[j],
            out@.len() == i,
            forall|j: int| 0 <= j < i ==> (#[trigger] out@[j])@ == without_return(p[j]),
        decreases last - i,
    {
        let line: &[char] = all[i].as_slice();
        assert(line@ == p[i as int]);
        if line.len() > 0 && line[line.len() - 1] == '\r' {
            let short = take_chars(line, line.len() - 1);
            assert(short@ =~= line@.drop_last());
            out.push(string_of(short));
        } else {
            out.push(string_of(line));
        }
        i = i + 1;
    }
    assert(all@[last as int]@ == p[last as int]);
    let ghost ended = Seq::new(last as nat, |j: int| without_return(p[j]));
    assert(texts(out@) =~= ended);
    if all[last].len() > 0 {
        let ghost before = out@;
        out.push(string_of(all[last].as_slice()));
        assert(texts(out@) =~= ended.push(p.last()));
    }
    out
}

/// Where the first white space stands; the length where there is none.
pub open spec fn first_white(s: Seq<char>) -> int
    decreases s.len(),
{
    if s.len() == 0 || is_white(s[0]) {
        0
    } else {
        1 + first_white(s.skip(1))
    }
}

/// What a line is to the merging.
pub enum LineKind {
    /// Passed through.
    Plain,
    /// Passed through; what follows belongs to a block.
    Block,
    /// Names files by this pattern, which may be empty.
    Include(Seq<char>),
    /// Names files, without anything after the keyword.
    BareInclude,
}

/// The kind of a line. Keywords count without regard to letter case; the
/// value is what follows the keyword, without white space around it.
pub open spec fn line_kind(line: Seq<char>) -> LineKind {
    let t = trim_front(line);
    if t.len() == 0 || t[0] == '#' {
        LineKind::Plain
    } else {
        let i = first_white(t);
        let key = ascii_lower(t.take(i));
        if i >= t.len() {
            if key == "include"@ {
                LineKind::BareInclude
            } else {
                LineKind::Plain
            }
        } else if key == "host"@ || key == "match"@ {
            LineKind::Block
        } else if key == "include"@ {
            LineKind::Include(trimmed(t.skip(i + 1)))
        } else {
            LineKind::Plain
        }
    }
}

/// What a line is to the merging, as a value.
enum Directive {
    Plain,
    Block,
    Include(String),
    BareInclude,
}

fn find_white(s: &[char]) -> (r: usize)
    ensures
        r == first_white(s@),
        r <= s@.len(),
        r < s@.len() ==> is_white(s@[r as int]),
{
    let mut i: usize = 0;
    assert(s@.skip(0) =~= s@);
    while i < s.len()
        invariant
            i <= s@.len(),
            first_white(s@) == i + first_white(s@.skip(i as int)),
        decreases s@.len() - i,
    {
        assert(s@.skip(i as int)[0] == s@[i as int]);
        if is_whitespace(s[i]) {
            return i;
        }
        assert(s@.skip(i as int).skip(1) =~= s@.skip(i + 1));
        i = i + 1;
    }
    i
}

fn directive(line: &str) -> (r: Directive)
    ensures
        match r {
            Directive::Plain => line_kind(line@) == LineKind::Plain,
            Directive::Block => line_kind(line@) == LineKind::Block,
            Directive::Include(v) => line_kind(line@) == LineKind::Include(v@),
            Directive::BareInclude => line_kind(line@) == LineKind::BareInclude,
        },
{
    let all = chars_of(line);
    let t = trim_start(all.as_slice());
    if t.len() == 0 || t[0] == '#' {
        return Directive::Plain;
    }
    let i: usize = find_white(t);
    let lower = to_ascii_lower(take_chars(t, i));
    let key = string_of(lower.as_slice());
    if i >= t.len() {
        if same_text(key.as_str(), "include") {
            Directive::BareInclude
        } else {
            Directive::Plain
        }
    } else if same_text(key.as_str(), "host") || same_text(key.as_str(), "match") {
        Directive::Block
    } else if same_text(key.as_str(), "include") {
        Directive::Include(string_of(trim(skip_chars(t, i + 1))))
    } else {
        Directive::Plain
    }
}

// ---------------------------------------------------------------------
// Patterns
// ---------------------------------------------------------------------

/// A pattern with its tokens filled in: `%d` is the home directory, `%u` the
/// local user, `%h` the target host. Any other token, `%%` among them, stays
/// as it is.
pub open spec fn filled(
    pattern: Seq<char>,
    host: Seq<char>,
    home: Option<Seq<char>>,
    user: Seq<char>,
) -> Seq<char>
    decreases pattern.len(),
{
    if pattern.len() == 0 {
        Seq::empty()
    } else if pattern[0] == '%' && pattern.len() > 1 && pattern[1] == 'd' {
        (match home {
            Some(h) => h,
            None => Seq::empty(),
        }) + filled(pattern.skip(2), host, home, user)
    } else if pattern[0] == '%' && pattern.len() > 1 && pattern[1] == 'u' {
        user + filled(pattern.skip(2), host, home, user)
    } else if pattern[0] == '%' && pattern.len() > 1 && pattern[1] == 'h' {
        host + filled(pattern.skip(2), host, home, user)
    } else if pattern[0] == '%' && pattern.len() > 1 && pattern[1] == '%' {
        seq!['%', '%'] + filled(pattern.skip(2), host, home, user)
    } else {
        seq![pattern[0]] + filled(pattern.skip(1), host, home, user)
    }
}

/// Fills in the tokens of a pattern; see [`filled`].
pub fn expand_include_tokens(
    pattern: &str,
    host: &str,
    home: &Option<String>,
    user: &str,
) -> (r: String)
    ensures
        r@ == filled(pattern@, host@, opt_text(*home), user@),
{
    let all = chars_of(pattern);
    let mut rest: &[char] = all.as_slice();
    let mut out = String::new();
    assert(out@ + filled(rest@, host@, opt_text(*home), user@) =~= filled(
        pattern@,
        host@,
        opt_text(*home),
        user@,
    ));
    while rest.len() > 0
        invariant
            out@ + filled(rest@, host@, opt_text(*home), user@) == filled(
                pattern@,
                host@,
                opt_text(*home),
                user@,
            ),
        decreases rest@.len(),
    {
        let ghost before = out@;
        let ghost left = rest@;
        if rest[0] == '%' && rest.len() > 1 && rest[1] == 'd' {
            if let Some(h) = home {
                out.append(h.as_str());
            }
            rest = skip_chars(rest, 2);
        } else if rest[0] == '%' && rest.len() > 1 && rest[1] == 'u' {
            out.append(user);
            rest = skip_chars(rest, 2);
        } else if rest[0] == '%' && rest.len() > 1 && rest[1] == 'h' {
            out.append(host);
            rest = skip_chars(rest, 2);
        } else if rest[0] == '%' && rest.len() > 1 && rest[1] == '%' {
            out.push('%');
            out.push('%');
            rest = skip_chars(rest, 2);
        } else {
            out.push(rest[0]);
            rest = skip_chars(rest, 1);
        }
        proof {
            assert(out@ + filled(rest@, host@, opt_text(*home), user@) =~= before + filled(
                left,
                host@,
                opt_text(*home),
                user@,
            ));
        }
    }
    assert(out@ + Seq::<char>::empty() =~= out@);
    out
}

/// Whether a path holds a character that makes it a glob pattern.
pub open spec fn has_meta(path: Seq<char>) -> bool {
    path.contains('*') || path.contains('?') || path.contains('[')
}

/// Decides [`has_meta`].
pub fn is_glob(path: &str) -> (r: bool)
    ensures
        r == has_meta(path@),
{
    let all = chars_of(path);
    proof {
        all@.index_of_first_ensures('*');
        all@.index_of_first_ensures('?');
        all@.index_of_first_ensures('[');
    }
    crate::text::find_char(all.as_slice(), '*').is_some() || crate::text::find_char(
        all.as_slice(),
        '?',
    ).is_some() || crate::text::find_char(all.as_slice(), '[').is_some()
}

// ---------------------------------------------------------------------
// Facts of the file system
// ---------------------------------------------------------------------

/// The path that a pattern has below a directory; a pattern that is an
/// absolute path is that path.
pub struct Location {
    pub base: String,
    pub pattern: String,
    pub path: String,
}

/// The files that a glob path names, in the order in which they are merged.
pub struct Listing {
    pub path: String,
    pub files: Vec<String>,
}

/// A file: its canonical path, its directory, and its contents if it can be
/// read.
pub struct FileFact {
    pub path: String,
    pub canonical: String,
    pub dir: Option<String>,
    pub contents: Option<String>,
}

/// What is known of the file system.
pub struct Files {
    pub locations: Vec<Location>,
    pub listings: Vec<Listing>,
    pub files: Vec<FileFact>,
}

/// A fact that is missing.
#[derive(Debug)]
pub enum Request {
    /// The path of this pattern (second) below this directory (first).
    Locate(String, String),
    /// The files that this glob path names.
    List(String),
    /// The file of this path.
    Read(String),
}

/// A fact that is missing, over texts.
pub enum RequestModel {
    Locate(Seq<char>, Seq<char>),
    List(Seq<char>),
    Read(Seq<char>),
}

/// Why merging stopped.
#[derive(Debug)]
pub enum IncludeStop {
    /// Files name each other more than the permitted number of levels deep.
    TooDeep,
    /// This line names no pattern.
    MissingPattern(String),
    /// This line stands in a block.
    AfterBlock(String),
    /// This path matches no file.
    NoMatch(String),
    /// This file was merged before.
    Cycle(String),
    /// This file cannot be read.
    Unreadable(String),
    /// This fact has to be known first.
    Need(Request),
}

/// Why merging stopped, over texts.
pub enum StopModel {
    TooDeep,
    MissingPattern(Seq<char>),
    AfterBlock(Seq<char>),
    NoMatch(Seq<char>),
    Cycle(Seq<char>),
    Unreadable(Seq<char>),
    Need(RequestModel),
}

/// What a user is told of merging that stopped.
pub open spec fn stop_message(stop: StopModel) -> Seq<char> {
    match stop {
        StopModel::TooDeep => "Include nesting exceeds "@ + decimal(MAX_INCLUDE_DEPTH as nat)
            + " levels"@,
        StopModel::MissingPattern(line) => "Include directive missing pattern: "@ + line,
        StopModel::AfterBlock(line) => "Include directive not allowed after Host/Match block: "@
            + line,
        StopModel::NoMatch(path) => "Include: no files matched pattern "@ + path,
        StopModel::Cycle(path) => "Include cycle detected: "@ + path,
        StopModel::Unreadable(path) => "Include: failed to read "@ + path,
        StopModel::Need(_) => "Include: a fact is missing"@,
    }
}

impl IncludeStop {
    /// What a user is told; see [`stop_message`].
    pub fn message(&self) -> (r: String)
        ensures
            r@ == stop_message(self@),
    {
        match self {
            IncludeStop::TooDeep => {
                let mut out = "Include nesting exceeds ".to_owned();
                push_decimal(&mut out, MAX_INCLUDE_DEPTH as u64);
                out.append(" levels");
                out
            },
            IncludeStop::MissingPattern(line) => concatenate(
                "Include directive missing pattern: ",
                line.as_str(),
            ),
            IncludeStop::AfterBlock(line) => concatenate(
                "Include directive not allowed after Host/Match block: ",
                line.as_str(),
            ),
            IncludeStop::NoMatch(path) => concatenate(
                "Include: no files matched pattern ",
                path.as_str(),
            ),
            IncludeStop::Cycle(path) => concatenate("Include cycle detected: ", path.as_str()),
            IncludeStop::Unreadable(path) => concatenate("Include: failed to read ", path.as_str()),
            IncludeStop::Need(_) => "Include: a fact is missing".to_owned(),
        }
    }
}

impl View for Request {
    type V = RequestModel;

    open spec fn view(&self) -> RequestModel {
        match self {
            Request::Locate(b, p) => RequestModel::Locate(b@, p@),
            Request::List(p) => RequestModel::List(p@),
            Request::Read(p) => RequestModel::Read(p@),
        }
    }
}

impl View for IncludeStop {
    type V = StopModel;

    open spec fn view(&self) -> StopModel {
        match self {
            IncludeStop::TooDeep => StopModel::TooDeep,
            IncludeStop::MissingPattern(l) => StopModel::MissingPattern(l@),
            IncludeStop::AfterBlock(l) => StopModel::AfterBlock(l@),
            IncludeStop::NoMatch(p) => StopModel::NoMatch(p@),
            IncludeStop::Cycle(p) => StopModel::Cycle(p@),
            IncludeStop::Unreadable(p) => StopModel::Unreadable(p@),
            IncludeStop::Need(r) => StopModel::Need(r@),
        }
    }
}

/// The known path of a pattern below a directory.
pub open spec fn located(l: Seq<Location>, base: Seq<char>, pattern: Seq<char>) -> Option<Seq<char>>
    decreases l.len(),
{
    if l.len() == 0 {
        None
    } else if l[0].base@ == base && l[0].pattern@ == pattern {
        Some(l[0].path@)
    } else {
        located(l.skip(1), base, pattern)
    }
}

/// The known files of a glob path.
pub open spec fn listed(l: Seq<Listing>, path: Seq<char>) -> Option<Seq<Seq<char>>>
    decreases l.len(),
{
    if l.len() == 0 {
        None
    } else if l[0].path@ == path {
        Some(texts(l[0].files@))
    } else {
        listed(l.skip(1), path)
    }
}

/// What is known of a file, over texts.
pub struct FileModel {
    pub canonical: Seq<char>,
    pub dir: Option<Seq<char>>,
    pub contents: Option<Seq<char>>,
}

/// What is known of a file.
pub open spec fn known_file(f: Seq<FileFact>, path: Seq<char>) -> Option<FileModel>
    decreases f.len(),
{
    if f.len() == 0 {
        None
    } else if f[0].path@ == path {
        Some(
            FileModel {
                canonical: f[0].canonical@,
                dir: opt_text(f[0].dir),
                contents: opt_text(f[0].contents),
            },
        )
    } else {
        known_file(f.skip(1), path)
    }
}

fn find_location(l: &Vec<Location>, base: &str, pattern: &str) -> (r: Option<String>)
    ensures
        opt_text(r) == located(l@, base@, pattern@),
{
    assert(l@.skip(0) =~= l@);
    let mut i: usize = 0;
    while i < l.len()
        invariant
            i <= l@.len(),
            located(l@, base@, pattern@) == located(l@.skip(i as int), base@, pattern@),
        decreases l@.len() - i,
    {
        proof {
            assert(l@.skip(i as int)[0] == l@[i as int]);
            assert(l@.skip(i as int).skip(1) =~= l@.skip(i + 1));
        }
        if same_text(l[i].base.as_str(), base) && same_text(l[i].pattern.as_str(), pattern) {
            return Some(l[i].path.clone());
        }
        i = i + 1;
    }
    None
}

fn find_listing<'a>(l: &'a Vec<Listing>, path: &str) -> (r: Option<&'a Vec<String>>)
    ensures
        match r {
            Some(files) => listed(l@, path@) == Some(texts(files@)),
            None => listed(l@, path@) is None,
        },
{
    assert(l@.skip(0) =~= l@);
    let mut i: usize = 0;
    while i < l.len()
        invariant
            i <= l@.len(),
            listed(l@, path@) == listed(l@.skip(i as int), path@),
        decreases l@.len() - i,
    {
        proof {
            assert(l@.skip(i as int)[0] == l@[i as int]);
            assert(l@.skip(i as int).skip(1) =~= l@.skip(i + 1));
        }
        if same_text(l[i].path.as_str(), path) {
            return Some(&l[i].files);
        }
        i = i + 1;
    }
    None
}

fn find_file<'a>(f: &'a Vec<FileFact>, path: &str) -> (r: Option<&'a FileFact>)
    ensures
        match r {
            Some(fact) => known_file(f@, path@) == Some(
                FileModel {
                    canonical: fact.canonical@,
                    dir: opt_text(fact.dir),
                    contents: opt_text(fact.contents),
                },
            ),
            None => known_file(f@, path@) is None,
        },
{
    assert(f@.skip(0) =~= f@);
    let mut i: usize = 0;
    while i < f.len()
        invariant
            i <= f@.len(),
            known_file(f@, path@) == known_file(f@.skip(i as int), path@),
        decreases f@.len() - i,
    {
        proof {
            assert(f@.skip(i as int)[0] == f@[i as int]);
            assert(f@.skip(i as int).skip(1) =~= f@.skip(i + 1));
        }
        if same_text(f[i].path.as_str(), path) {
            return Some(&f[i]);
        }
        i = i + 1;
    }
    None
}

// ---------------------------------------------------------------------
// Merging
// ---------------------------------------------------------------------

/// How many levels deep files may name each other.
pub const MAX_INCLUDE_DEPTH: usize = 16;

/// For whom a configuration is read: the target host, the home directory
/// and the name of the local user.
pub struct Reader {
    pub host: String,
    pub home: Option<String>,
    pub user: String,
}

/// What merging comes to: the merged text, or why it stopped; and the
/// canonical paths of the files read so far.
pub struct Merged {
    pub result: Result<Seq<char>, StopModel>,
    pub seen: Set<Seq<char>>,
}

/// A merge that stopped.
pub open spec fn stopped(e: StopModel, seen: Set<Seq<char>>) -> Merged {
    Merged { result: Err(e), seen }
}

/// A merge that begins with `front`.
pub open spec fn prepend(front: Seq<char>, m: Merged) -> Merged {
    Merged {
        result: match m.result {
            Ok(text) => Ok(front + text),
            Err(e) => Err(e),
        },
        seen: m.seen,
    }
}

/// The path that a pattern stands for. A leading `~` is the home directory,
/// or the current one where there is no home; any other pattern is taken
/// from the directory of the file that names it.
pub open spec fn pattern_path(
    files: Files,
    reader: Reader,
    base: Seq<char>,
    value: Seq<char>,
) -> Result<Seq<char>, StopModel> {
    let p = filled(value, reader.host@, opt_text(reader.home), reader.user@);
    let (dir, rest) = if p.len() > 0 && p[0] == '~' {
        (
            match reader.home {
                Some(h) => h@,
                None => "."@,
            },
            strip_front(p.skip(1), '/'),
        )
    } else {
        (base, p)
    };
    if p.len() > 0 && p[0] == '~' && rest.len() == 0 {
        Ok(dir)
    } else {
        match located(files.locations@, dir, rest) {
            Some(path) => Ok(path),
            None => Err(StopModel::Need(RequestModel::Locate(dir, rest))),
        }
    }
}

/// The files that a path names: itself, or what matches it.
pub open spec fn named_files(files: Files, path: Seq<char>) -> Result<Seq<Seq<char>>, StopModel> {
    if !has_meta(path) {
        Ok(seq![path])
    } else {
        match listed(files.listings@, path) {
            None => Err(StopModel::Need(RequestModel::List(path))),
            Some(found) => if found.len() == 0 {
                Err(StopModel::NoMatch(path))
            } else {
                Ok(found)
            },
        }
    }
}

/// The merge of a text, `depth` levels below the first file.
pub open spec fn merge_text(
    files: Files,
    reader: Reader,
    text: Seq<char>,
    base: Seq<char>,
    seen: Set<Seq<char>>,
    depth: nat,
) -> Merged
    decreases MAX_INCLUDE_DEPTH + 1 - depth, 2nat, 0nat,
{
    if depth > MAX_INCLUDE_DEPTH {
        stopped(StopModel::TooDeep, seen)
    } else {
        merge_lines(files, reader, lines(text), base, false, seen, depth)
    }
}

/// The merge of lines: each is passed through, except that a line that names
/// files is replaced by their merge. Such a line must not stand in a block.
pub open spec fn merge_lines(
    files: Files,
    reader: Reader,
    left: Seq<Seq<char>>,
    base: Seq<char>,
    in_block: bool,
    seen: Set<Seq<char>>,
    depth: nat,
) -> Merged
    decreases MAX_INCLUDE_DEPTH + 1 - depth, 1nat, left.len(),
{
    if left.len() == 0 {
        Merged { result: Ok(Seq::empty()), seen }
    } else {
        let line = left[0];
        match line_kind(line) {
            LineKind::Plain => prepend(
                line + seq!['\n'],
                merge_lines(files, reader, left.skip(1), base, in_block, seen, depth),
            ),
            LineKind::Block => prepend(
                line + seq!['\n'],
                merge_lines(files, reader, left.skip(1), base, true, seen, depth),
            ),
            LineKind::BareInclude => stopped(StopModel::MissingPattern(line), seen),
            LineKind::Include(value) => if in_block {
                stopped(StopModel::AfterBlock(line), seen)
            } else if value.len() == 0 {
                stopped(StopModel::MissingPattern(line), seen)
            } else {
                match pattern_path(files, reader, base, value) {
                    Err(e) => stopped(e, seen),
                    Ok(path) => match named_files(files, path) {
                        Err(e) => stopped(e, seen),
                        Ok(paths) => {
                            let inner = merge_files(files, reader, paths, base, seen, depth);
                            match inner.result {
                                Err(e) => stopped(e, inner.seen),
                                Ok(text) => prepend(
                                    text,
                                    merge_lines(
                                        files,
                                        reader,
                                        left.skip(1),
                                        base,
                                        in_block,
                                        inner.seen,
                                        depth,
                                    ),
                                ),
                            }
                        },
                    },
                }
            },
        }
    }
}

/// The merge of files, one after the other; no file is merged twice.
pub open spec fn merge_files(
    files: Files,
    reader: Reader,
    paths: Seq<Seq<char>>,
    base: Seq<char>,
    seen: Set<Seq<char>>,
    depth: nat,
) -> Merged
    decreases MAX_INCLUDE_DEPTH + 1 - depth, 0nat, paths.len(),
{
    if paths.len() == 0 || depth > MAX_INCLUDE_DEPTH {
        Merged { result: Ok(Seq::empty()), seen }
    } else {
        let path = paths[0];
        match known_file(files.files@, path) {
            None => stopped(StopModel::Need(RequestModel::Read(path)), seen),
            Some(file) => if seen.contains(file.canonical) {
                stopped(StopModel::Cycle(file.canonical), seen)
            } else {
                match file.contents {
                    None => stopped(StopModel::Unreadable(path), seen.insert(file.canonical)),
                    Some(text) => {
                        let dir = match file.dir {
                            Some(d) => d,
                            None => base,
                        };
                        let inner = merge_text(
                            files,
                            reader,
                            text,
                            dir,
                            seen.insert(file.canonical),
                            depth + 1,
                        );
                        match inner.result {
                            Err(e) => stopped(e, inner.seen),
                            Ok(text) => prepend(
                                text,
                                merge_files(
                                    files,
                                    reader,
                                    paths.skip(1),
                                    base,
                                    inner.seen,
                                    depth,
                                ),
                            ),
                        }
                    },
                }
            },
        }
    }
}

/// The result of a merge, over texts.
pub open spec fn merged_result(r: Result<String, IncludeStop>) -> Result<Seq<char>, StopModel> {
    match r {
        Ok(text) => Ok(text@),
        Err(e) => Err(e@),
    }
}

/// The canonical paths as a set.
pub open spec fn path_set(seen: Seq<String>) -> Set<Seq<char>> {
    texts(seen).to_set()
}

fn is_seen(seen: &Vec<String>, path: &str) -> (r: bool)
    ensures
        r == path_set(seen@).contains(path@),
{
    let mut i: usize = 0;
    while i < seen.len()
        invariant
            i <= seen@.len(),
            forall|j: int| 0 <= j < i ==> texts(seen@)[j] != path@,
        decreases seen@.len() - i,
    {
        assert(texts(seen@)[i as int] == seen@[i as int]@);
        if same_text(seen[i].as_str(), path) {
            return true;
        }
        i = i + 1;
    }
    false
}

fn include_path(files: &Files, reader: &Reader, base: &str, value: &str) -> (r: Result<
    String,
    IncludeStop,
>)
    ensures
        match r {
            Ok(p) => pattern_path(*files, *reader, base@, value@) == Ok::<Seq<char>, StopModel>(p@),
            Err(e) => pattern_path(*files, *reader, base@, value@) == Err::<Seq<char>, StopModel>(
                e@,
            ),
        },
{
    let pattern = expand_include_tokens(
        value,
        reader.host.as_str(),
        &reader.home,
        reader.user.as_str(),
    );
    let p = chars_of(pattern.as_str());
    if p.len() > 0 && p[0] == '~' {
        let home: String = match &reader.home {
            Some(h) => h.clone(),
            None => ".".to_owned(),
        };
        let rest = string_of(trim_start_matches(skip_chars(p.as_slice(), 1), '/'));
        if rest.as_str().is_empty() {
            return Ok(home);
        }
        match find_location(&files.locations, home.as_str(), rest.as_str()) {
            Some(path) => Ok(path),
            None => Err(IncludeStop::Need(Request::Locate(home, rest))),
        }
    } else {
        match find_location(&files.locations, base, pattern.as_str()) {
            Some(path) => Ok(path),
            None => Err(IncludeStop::Need(Request::Locate(base.to_owned(), pattern))),
        }
    }
}

fn include_files(files: &Files, path: &str) -> (r: Result<Vec<String>, IncludeStop>)
    ensures
        match r {
            Ok(l) => named_files(*files, path@) == Ok::<Seq<Seq<char>>, StopModel>(texts(l@)),
            Err(e) => named_files(*files, path@) == Err::<Seq<Seq<char>>, StopModel>(e@),
        },
{
    if !is_glob(path) {
        let mut out: Vec<String> = Vec::new();
        out.push(path.to_owned());
        assert(texts(out@) =~= seq![path@]);
        return Ok(out);
    }
    match find_listing(&files.listings, path) {
        None => Err(IncludeStop::Need(Request::List(path.to_owned()))),
        Some(found) => {
            assert(texts(found@).len() == found@.len());
            if found.len() == 0 {
                Err(IncludeStop::NoMatch(path.to_owned()))
            } else {
                Ok(crate::text::clone_list(found.as_slice()))
            }
        },
    }
}

/// Merges a configuration file, `depth` levels below the first, with the
/// files that it names; see [`merge_text`]. `seen` holds the canonical paths
/// of the files merged so far.
pub fn preprocess_includes(
    files: &Files,
    reader: &Reader,
    content: &str,
    base_dir: &str,
    seen: &mut Vec<String>,
    depth: usize,
) -> (r: Result<String, IncludeStop>)
    ensures
        merge_text(
            *files,
            *reader,
            content@,
            base_dir@,
            path_set(old(seen)@),
            depth as nat,
        ) == (Merged { result: merged_result(r), seen: path_set(final(seen)@) }),
    decreases MAX_INCLUDE_DEPTH + 1 - depth, 1nat,
{
    if depth > MAX_INCLUDE_DEPTH {
        return Err(IncludeStop::TooDeep);
    }
    let all = split_lines(content);
    let ghost texts_all = lines(content@);
    let ghost goal = merge_text(
        *files,
        *reader,
        content@,
        base_dir@,
        path_set(seen@),
        depth as nat,
    );
    assert(texts_all.len() == all@.len());
    let mut out = String::new();
    let mut in_block: bool = false;
    let mut i: usize = 0;
    proof {
        assert(texts_all.skip(0) =~= texts_all);
        let m = merge_lines(
            *files,
            *reader,
            texts_all,
            base_dir@,
            false,
            path_set(seen@),
            depth as nat,
        );
        if let Ok(t) = m.result {
            assert(out@ + t =~= t);
        }
    }
    while i < all.len()
        invariant
            i <= all@.len(),
            depth <= MAX_INCLUDE_DEPTH,
            texts_all == texts(all@),
            goal == merge_text(
                *files,
                *reader,
                content@,
                base_dir@,
                path_set(old(seen)@),
                depth as nat,
            ),
            goal == prepend(
                out@,
                merge_lines(
                    *files,
                    *reader,
                    texts_all.skip(i as int),
                    base_dir@,
                    in_block,
                    path_set(seen@),
                    depth as nat,
                ),
            ),
        decreases all@.len() - i,
    {
        let ghost before = out@;
        let ghost left = texts_all.skip(i as int);
        let line: &str = all[i].as_str();
        proof {
            assert(left[0] == texts_all[i as int]);
            assert(left[0] == line@);
            assert(left.skip(1) =~= texts_all.skip(i + 1));
        }
        match directive(line) {
            Directive::BareInclude => {
                return Err(IncludeStop::MissingPattern(line.to_owned()));
            },
            Directive::Include(value) => {
                if in_block {
                    return Err(IncludeStop::AfterBlock(line.to_owned()));
                }
                if value.as_str().is_empty() {
                    return Err(IncludeStop::MissingPattern(line.to_owned()));
                }
                let path = match include_path(files, reader, base_dir, value.as_str()) {
                    Ok(p) => p,
                    Err(e) => return Err(e),
                };
                let paths = match include_files(files, path.as_str()) {
                    Ok(l) => l,
                    Err(e) => return Err(e),
                };
                let ghost seen_before = path_set(seen@);
                match merge_included(files, reader, &paths, base_dir, seen, depth) {
                    Ok(text) => {
                        out.append(text.as_str());
                        proof {
                            let rest = merge_lines(
                                *files,
                                *reader,
                                left.skip(1),
                                base_dir@,
                                in_block,
                                path_set(seen@),
                                depth as nat,
                            );
                            if let Ok(t) = rest.result {
                                assert(before + (text@ + t) =~= (before + text@) + t);
                            }
                        }
                    },
                    Err(e) => return Err(e),
                }
            },
            other => {
                let ghost was = in_block;
                if let Directive::Block = other {
                    in_block = true;
                }
                out.append(line);
                out.push('\n');
                proof {
                    let rest = merge_lines(
                        *files,
                        *reader,
                        left.skip(1),
                        base_dir@,
                        in_block,
                        path_set(seen@),
                        depth as nat,
                    );
                    if let Ok(t) = rest.result {
                        assert(before + (line@ + seq!['\n'] + t) =~= out@ + t);
                    }
                }
            },
        }
        i = i + 1;
    }
    proof {
        assert(texts_all.skip(all@.len() as int) =~= Seq::<Seq<char>>::empty());
        assert(out@ + Seq::<char>::empty() =~= out@);
    }
    Ok(out)
}

fn merge_included(
    files: &Files,
    reader: &Reader,
    paths: &Vec<String>,
    base_dir: &str,
    seen: &mut Vec<String>,
    depth: usize,
) -> (r: Result<String, IncludeStop>)
    requires
        depth <= MAX_INCLUDE_DEPTH,
    ensures
        merge_files(
            *files,
            *reader,
            texts(paths@),
            base_dir@,
            path_set(old(seen)@),
            depth as nat,
        ) == (Merged { result: merged_result(r), seen: path_set(final(seen)@) }),
    decreases MAX_INCLUDE_DEPTH + 1 - depth, 0nat,
{
    let ghost all = texts(paths@);
    let ghost goal = merge_files(
        *files,
        *reader,
        all,
        base_dir@,
        path_set(seen@),
        depth as nat,
    );
    let mut out = String::new();
    let mut i: usize = 0;
    proof {
        assert(all.skip(0) =~= all);
        if let Ok(t) = goal.result {
            assert(out@ + t =~= t);
        }
    }
    while i < paths.len()
        invariant
            i <= paths@.len(),
            depth <= MAX_INCLUDE_DEPTH,
            all == texts(paths@),
            goal == merge_files(
                *files,
                *reader,
                all,
                base_dir@,
                path_set(old(seen)@),
                depth as nat,
            ),
            goal == prepend(
                out@,
                merge_files(
                    *files,
                    *reader,
                    all.skip(i as int),
                    base_dir@,
                    path_set(seen@),
                    depth as nat,
                ),
            ),
        decreases paths@.len() - i,
    {
        let ghost before = out@;
        let ghost left = all.skip(i as int);
        let path: &str = paths[i].as_str();
        proof {
            assert(left[0] == all[i as int]);
            assert(left[0] == path@);
            assert(left.skip(1) =~= all.skip(i + 1));
        }
        let fact = match find_file(&files.files, path) {
            None => return Err(IncludeStop::Need(Request::Read(path.to_owned()))),
            Some(f) => f,
        };
        if is_seen(seen, fact.canonical.as_str()) {
            return Err(IncludeStop::Cycle(fact.canonical.clone()));
        }
        let dir: &str = match &fact.dir {
            Some(d) => d.as_str(),
            None => base_dir,
        };
        let ghost seen_before = seen@;
        seen.push(fact.canonical.clone());
        proof {
            path_set_push(seen_before, fact.canonical);
        }
        let content: &str = match &fact.contents {
            None => return Err(IncludeStop::Unreadable(path.to_owned())),
            Some(c) => c.as_str(),
        };
        match preprocess_includes(files, reader, content, dir, seen, depth + 1) {
            Ok(text) => {
                out.append(text.as_str());
                proof {
                    let rest = merge_files(
                        *files,
                        *reader,
                        left.skip(1),
                        base_dir@,
                        path_set(seen@),
                        depth as nat,
                    );
                    if let Ok(t) = rest.result {
                        assert(before + (text@ + t) =~= (before + text@) + t);
                    }
                }
            },
            Err(e) => return Err(e),
        }
        i = i + 1;
    }
    proof {
        assert(all.skip(paths@.len() as int) =~= Seq::<Seq<char>>::empty());
        assert(out@ + Seq::<char>::empty() =~= out@);
    }
    Ok(out)
}

proof fn path_set_push(seen: Seq<String>, path: String)
    ensures
        path_set(seen.push(path)) == path_set(seen).insert(path@),
{
    let a = texts(seen);
    let b = texts(seen.push(path));
    assert(b =~= a.push(path@));
    assert forall|x: Seq<char>| b.to_set().contains(x) <==> a.to_set().insert(path@).contains(
        x,
    ) by {
        if b.contains(x) {
            let i = choose|i: int| 0 <= i < b.len() && b[i] == x;
            if i < a.len() {
                assert(a[i] == x);
            }
        }
        if a.contains(x) {
            let i = choose|i: int| 0 <= i < a.len() && a[i] == x;
            assert(b[i] == x);
        }
        assert(b[a.len() as int] == path@);
    }
    assert(b.to_set() =~= a.to_set().insert(path@));
}

// ---------------------------------------------------------------------
// Laws
// ---------------------------------------------------------------------

/// Whether `more` knows everything that `files` knows, and perhaps more.
pub open spec fn extends(more: Files, files: Files) -> bool {
    &&& exists|l: Seq<Location>| more.locations@ == files.locations@ + l
    &&& exists|l: Seq<Listing>| more.listings@ == files.listings@ + l
    &&& exists|l: Seq<FileFact>| more.files@ == files.files@ + l
}

/// Whether merging waits for a fact.
pub open spec fn waits(m: Merged) -> bool {
    m.result matches Err(StopModel::Need(_))
}

proof fn located_is_kept(
    l: Seq<Location>,
    more: Seq<Location>,
    base: Seq<char>,
    pattern: Seq<char>,
)
    requires
        located(l, base, pattern) is Some,
    ensures
        located(l + more, base, pattern) == located(l, base, pattern),
    decreases l.len(),
{
    if !(l[0].base@ == base && l[0].pattern@ == pattern) {
        located_is_kept(l.skip(1), more, base, pattern);
        assert((l + more).skip(1) =~= l.skip(1) + more);
    }
}

proof fn listed_is_kept(l: Seq<Listing>, more: Seq<Listing>, path: Seq<char>)
    requires
        listed(l, path) is Some,
    ensures
        listed(l + more, path) == listed(l, path),
    decreases l.len(),
{
    if l[0].path@ != path {
        listed_is_kept(l.skip(1), more, path);
        assert((l + more).skip(1) =~= l.skip(1) + more);
    }
}

proof fn known_file_is_kept(f: Seq<FileFact>, more: Seq<FileFact>, path: Seq<char>)
    requires
        known_file(f, path) is Some,
    ensures
        known_file(f + more, path) == known_file(f, path),
    decreases f.len(),
{
    if f[0].path@ != path {
        known_file_is_kept(f.skip(1), more, path);
        assert((f + more).skip(1) =~= f.skip(1) + more);
    }
}

/// Once merging no longer waits for a fact, more facts change nothing: the
/// merged text, or the error, stays the same.
pub proof fn more_facts_keep_the_merge(
    files: Files,
    more: Files,
    reader: Reader,
    text: Seq<char>,
    base: Seq<char>,
    seen: Set<Seq<char>>,
    depth: nat,
)
    requires
        extends(more, files),
        !waits(merge_text(files, reader, text, base, seen, depth)),
    ensures
        merge_text(more, reader, text, base, seen, depth) == merge_text(
            files,
            reader,
            text,
            base,
            seen,
            depth,
        ),
    decreases MAX_INCLUDE_DEPTH + 1 - depth, 2nat, 0nat,
{
    if depth <= MAX_INCLUDE_DEPTH {
        lines_keep_the_merge(files, more, reader, lines(text), base, false, seen, depth);
    }
}

proof fn lines_keep_the_merge(
    files: Files,
    more: Files,
    reader: Reader,
    left: Seq<Seq<char>>,
    base: Seq<char>,
    in_block: bool,
    seen: Set<Seq<char>>,
    depth: nat,
)
    requires
        extends(more, files),
        depth <= MAX_INCLUDE_DEPTH,
        !waits(merge_lines(files, reader, left, base, in_block, seen, depth)),
    ensures
        merge_lines(more, reader, left, base, in_block, seen, depth) == merge_lines(
            files,
            reader,
            left,
            base,
            in_block,
            seen,
            depth,
        ),
    decreases MAX_INCLUDE_DEPTH + 1 - depth, 1nat, left.len(),
{
    if left.len() > 0 {
        match line_kind(left[0]) {
            LineKind::Plain => {
                lines_keep_the_merge(
                    files,
                    more,
                    reader,
                    left.skip(1),
                    base,
                    in_block,
                    seen,
                    depth,
                );
            },
            LineKind::Block => {
                lines_keep_the_merge(files, more, reader, left.skip(1), base, true, seen, depth);
            },
            LineKind::BareInclude => {},
            LineKind::Include(value) => {
                if !in_block && value.len() > 0 {
                    let extra = choose|l: Seq<Location>| more.locations@ == files.locations@ + l;
                    let p = filled(value, reader.host@, opt_text(reader.home), reader.user@);
                    if p.len() > 0 && p[0] == '~' {
                        let home = match reader.home {
                            Some(h) => h@,
                            None => "."@,
                        };
                        let rest = strip_front(p.skip(1), '/');
                        if rest.len() > 0 {
                            located_is_kept(files.locations@, extra, home, rest);
                        }
                    } else {
                        located_is_kept(files.locations@, extra, base, p);
                    }
                    let path = pattern_path(files, reader, base, value)->Ok_0;
                    let listings = choose|l: Seq<Listing>| more.listings@ == files.listings@ + l;
                    if has_meta(path) {
                        listed_is_kept(files.listings@, listings, path);
                    }
                    if let Ok(paths) = named_files(files, path) {
                        files_keep_the_merge(files, more, reader, paths, base, seen, depth);
                        let inner = merge_files(files, reader, paths, base, seen, depth);
                        if inner.result is Ok {
                            lines_keep_the_merge(
                                files,
                                more,
                                reader,
                                left.skip(1),
                                base,
                                in_block,
                                inner.seen,
                                depth,
                            );
                        }
                    }
                }
            },
        }
    }
}

proof fn files_keep_the_merge(
    files: Files,
    more: Files,
    reader: Reader,
    paths: Seq<Seq<char>>,
    base: Seq<char>,
    seen: Set<Seq<char>>,
    depth: nat,
)
    requires
        extends(more, files),
        depth <= MAX_INCLUDE_DEPTH,
        !waits(merge_files(files, reader, paths, base, seen, depth)),
    ensures
        merge_files(more, reader, paths, base, seen, depth) == merge_files(
            files,
            reader,
            paths,
            base,
            seen,
            depth,
        ),
    decreases MAX_INCLUDE_DEPTH + 1 - depth, 0nat, paths.len(),
{
    if paths.len() > 0 {
        let extra = choose|l: Seq<FileFact>| more.files@ == files.files@ + l;
        known_file_is_kept(files.files@, extra, paths[0]);
        let file = known_file(files.files@, paths[0])->0;
        if !seen.contains(file.canonical) {
            if let Some(text) = file.contents {
                let dir = match file.dir {
                    Some(d) => d,
                    None => base,
                };
                let inner_seen = seen.insert(file.canonical);
                more_facts_keep_the_merge(files, more, reader, text, dir, inner_seen, depth + 1);
                let inner = merge_text(files, reader, text, dir, inner_seen, depth + 1);
                if inner.result is Ok {
                    files_keep_the_merge(
                        files,
                        more,
                        reader,
                        paths.skip(1),
                        base,
                        inner.seen,
                        depth,
                    );
                }
            }
        }
    }
}

/// Lines, each with a line feed after it.
pub open spec fn unlines(l: Seq<Seq<char>>) -> Seq<char>
    decreases l.len(),
{
    if l.len() == 0 {
        Seq::empty()
    } else {
        l[0] + seq!['\n'] + unlines(l.skip(1))
    }
}

/// Lines that name no files pass through unchanged, whatever is known of
/// the file system.
pub proof fn plain_lines_pass_through(
    files: Files,
    reader: Reader,
    left: Seq<Seq<char>>,
    base: Seq<char>,
    in_block: bool,
    seen: Set<Seq<char>>,
    depth: nat,
)
    requires
        forall|i: int|
            0 <= i < left.len() ==> line_kind(#[trigger] left[i]) is Plain || line_kind(
                left[i],
            ) is Block,
    ensures
        merge_lines(files, reader, left, base, in_block, seen, depth) == (Merged {
            result: Ok(unlines(left)),
            seen,
        }),
    decreases left.len(),
{
    if left.len() > 0 {
        let rest = left.skip(1);
        assert(line_kind(left[0]) is Plain || line_kind(left[0]) is Block);
        assert forall|i: int| 0 <= i < rest.len() implies line_kind(#[trigger] rest[i]) is Plain
            || line_kind(rest[i]) is Block by {
            assert(rest[i] == left[i + 1]);
        }
        plain_lines_pass_through(files, reader, rest, base, in_block, seen, depth);
        plain_lines_pass_through(files, reader, rest, base, true, seen, depth);
    }
}

/// A line that names files is refused anywhere after the start of a block,
/// in the same file.
pub proof fn blocks_name_no_files(
    files: Files,
    reader: Reader,
    left: Seq<Seq<char>>,
    base: Seq<char>,
    seen: Set<Seq<char>>,
    depth: nat,
    k: int,
)
    requires
        0 <= k < left.len(),
        line_kind(left[k]) is Include,
        forall|i: int|
            0 <= i < k ==> line_kind(#[trigger] left[i]) is Plain || line_kind(left[i]) is Block,
    ensures
        merge_lines(files, reader, left, base, true, seen, depth) == stopped(
            StopModel::AfterBlock(left[k]),
            seen,
        ),
    decreases left.len(),
{
    if k > 0 {
        let rest = left.skip(1);
        assert(line_kind(left[0]) is Plain || line_kind(left[0]) is Block);
        assert(rest[k - 1] == left[k]);
        assert forall|i: int| 0 <= i < k - 1 implies line_kind(#[trigger] rest[i]) is Plain
            || line_kind(rest[i]) is Block by {
            assert(rest[i] == left[i + 1]);
        }
        blocks_name_no_files(files, reader, rest, base, seen, depth, k - 1);
    }
}

/// A file that was merged before is never merged again: naming it is an
/// error, however it is written.
pub proof fn no_file_is_merged_twice(
    files: Files,
    reader: Reader,
    paths: Seq<Seq<char>>,
    base: Seq<char>,
    seen: Set<Seq<char>>,
    depth: nat,
)
    requires
        paths.len() > 0,
        depth <= MAX_INCLUDE_DEPTH,
        known_file(files.files@, paths[0]) matches Some(f) && seen.contains(f.canonical),
    ensures
        merge_files(files, reader, paths, base, seen, depth) == stopped(
            StopModel::Cycle((known_file(files.files@, paths[0])->0).canonical),
            seen,
        ),
{
}

/// The set of files read only grows, whether merging succeeds or stops; and
/// it stays as it was where no file is known that could be read.
pub proof fn merged_files_are_remembered(
    files: Files,
    reader: Reader,
    text: Seq<char>,
    base: Seq<char>,
    seen: Set<Seq<char>>,
    depth: nat,
)
    ensures
        seen.subset_of(merge_text(files, reader, text, base, seen, depth).seen),
        files.files@.len() == 0 ==> merge_text(files, reader, text, base, seen, depth).seen == seen,
    decreases MAX_INCLUDE_DEPTH + 1 - depth, 2nat, 0nat,
{
    if depth <= MAX_INCLUDE_DEPTH {
        lines_remember(files, reader, lines(text), base, false, seen, depth);
    }
}

proof fn lines_remember(
    files: Files,
    reader: Reader,
    left: Seq<Seq<char>>,
    base: Seq<char>,
    in_block: bool,
    seen: Set<Seq<char>>,
    depth: nat,
)
    requires
        depth <= MAX_INCLUDE_DEPTH,
    ensures
        seen.subset_of(merge_lines(files, reader, left, base, in_block, seen, depth).seen),
        files.files@.len() == 0 ==> merge_lines(
            files,
            reader,
            left,
            base,
            in_block,
            seen,
            depth,
        ).seen == seen,
    decreases MAX_INCLUDE_DEPTH + 1 - depth, 1nat, left.len(),
{
    if left.len() > 0 {
        lines_remember(files, reader, left.skip(1), base, in_block, seen, depth);
        lines_remember(files, reader, left.skip(1), base, true, seen, depth);
        if let LineKind::Include(value) = line_kind(left[0]) {
            if let Ok(path) = pattern_path(files, reader, base, value) {
                if let Ok(paths) = named_files(files, path) {
                    files_remember(files, reader, paths, base, seen, depth);
                    let inner = merge_files(files, reader, paths, base, seen, depth);
                    lines_remember(
                        files,
                        reader,
                        left.skip(1),
                        base,
                        in_block,
                        inner.seen,
                        depth,
                    );
                }
            }
        }
    }
}

proof fn files_remember(
    files: Files,
    reader: Reader,
    paths: Seq<Seq<char>>,
    base: Seq<char>,
    seen: Set<Seq<char>>,
    depth: nat,
)
    requires
        depth <= MAX_INCLUDE_DEPTH,
    ensures
        seen.subset_of(merge_files(files, reader, paths, base, seen, depth).seen),
        files.files@.len() == 0 ==> merge_files(files, reader, paths, base, seen, depth).seen
            == seen,
    decreases MAX_INCLUDE_DEPTH + 1 - depth, 0nat, paths.len(),
{
    if paths.len() > 0 {
        if let Some(file) = known_file(files.files@, paths[0]) {
            if let Some(text) = file.contents {
                let dir = match file.dir {
                    Some(d) => d,
                    None => base,
                };
                let grown = seen.insert(file.canonical);
                merged_files_are_remembered(files, reader, text, dir, grown, depth + 1);
                let inner = merge_text(files, reader, text, dir, grown, depth + 1);
                files_remember(files, reader, paths.skip(1), base, inner.seen, depth);
            }
        }
    }
}

/// Nesting beyond the limit stops merging at once: nothing is read and
/// nothing is remembered.
pub proof fn deep_nesting_stops_at_once(
    files: Files,
    reader: Reader,
    text: Seq<char>,
    base: Seq<char>,
    seen: Set<Seq<char>>,
    depth: nat,
)
    requires
        depth > MAX_INCLUDE_DEPTH,
    ensures
        merge_text(files, reader, text, base, seen, depth) == stopped(StopModel::TooDeep, seen),
{
}

/// Each token of a pattern is filled in where it stands: `%h` with the host,
/// `%u` with the user, `%d` with the home directory, or nothing where there is
/// none. `%%` and every other character stay as they are.
pub proof fn tokens_are_filled_in_place(
    front: Seq<char>,
    rest: Seq<char>,
    host: Seq<char>,
    home: Seq<char>,
    user: Seq<char>,
    c: char,
)
    requires
        !front.contains('%'),
        c != 'd' && c != 'u' && c != 'h' && c != '%',
    ensures
        filled(front + (seq!['%', 'h'] + rest), host, Some(home), user) == front + (host + filled(
            rest,
            host,
            Some(home),
            user,
        )),
        filled(front + (seq!['%', 'u'] + rest), host, Some(home), user) == front + (user + filled(
            rest,
            host,
            Some(home),
            user,
        )),
        filled(front + (seq!['%', 'd'] + rest), host, Some(home), user) == front + (home + filled(
            rest,
            host,
            Some(home),
            user,
        )),
        filled(front + (seq!['%', 'd'] + rest), host, None, user) == front + filled(
            rest,
            host,
            None,
            user,
        ),
        filled(front + (seq!['%', '%'] + rest), host, Some(home), user) == front + (seq!['%', '%']
            + filled(rest, host, Some(home), user)),
        filled(front + seq!['%', c], host, Some(home), user) == front + seq!['%', c],
        filled(front, host, Some(home), user) == front,
{
    let all = Some(home);
    filled_front(front, seq!['%', 'h'] + rest, host, all, user);
    filled_front(front, seq!['%', 'u'] + rest, host, all, user);
    filled_front(front, seq!['%', 'd'] + rest, host, all, user);
    filled_front(front, seq!['%', 'd'] + rest, host, None, user);
    filled_front(front, seq!['%', '%'] + rest, host, all, user);
    filled_front(front, seq!['%', c], host, all, user);
    filled_front(front, Seq::empty(), host, all, user);
    assert((seq!['%', 'h'] + rest).skip(2) =~= rest);
    assert((seq!['%', 'u'] + rest).skip(2) =~= rest);
    assert((seq!['%', 'd'] + rest).skip(2) =~= rest);
    assert((seq!['%', '%'] + rest).skip(2) =~= rest);
    assert(Seq::<char>::empty() + filled(rest, host, None, user) =~= filled(
        rest,
        host,
        None,
        user,
    ));
    reveal_with_fuel(filled, 3);
    assert(seq!['%', c].skip(1) =~= seq![c]);
    assert(seq![c].skip(1) =~= Seq::<char>::empty());
    assert(filled(seq!['%', c], host, all, user) =~= seq!['%', c]);
    assert(front + Seq::<char>::empty() =~= front);
}

proof fn filled_front(
    front: Seq<char>,
    tail: Seq<char>,
    host: Seq<char>,
    home: Option<Seq<char>>,
    user: Seq<char>,
)
    requires
        !front.contains('%'),
    ensures
        filled(front + tail, host, home, user) == front + filled(tail, host, home, user),
    decreases front.len(),
{
    if front.len() == 0 {
        assert(front + tail =~= tail);
        assert(front + filled(tail, host, home, user) =~= filled(tail, host, home, user));
    } else {
        let shorter = front.skip(1);
        assert(front.contains(front[0]));
        assert(!shorter.contains('%')) by {
            if shorter.contains('%') {
                let i = choose|i: int| 0 <= i < shorter.len() && shorter[i] == '%';
                assert(front[i + 1] == '%');
            }
        }
        filled_front(shorter, tail, host, home, user);
        assert((front + tail).skip(1) =~= shorter + tail);
        assert((front + tail)[0] == front[0]);
        assert(seq![front[0]] + (shorter + filled(tail, host, home, user)) =~= front + filled(
            tail,
            host,
            home,
            user,
        ));
    }
}

proof fn key_ends_at(key: Seq<char>, rest: Seq<char>)
    requires
        forall|i: int| 0 <= i < key.len() ==> !is_white(#[trigger] key[i]),
        rest.len() > 0 ==> is_white(rest[0]),
    ensures
        first_white(key + rest) == key.len(),
    decreases key.len(),
{
    if key.len() == 0 {
        assert(key + rest =~= rest);
    } else {
        let shorter = key.skip(1);
        assert forall|i: int| 0 <= i < shorter.len() implies !is_white(#[trigger] shorter[i]) by {
            assert(shorter[i] == key[i + 1]);
        }
        key_ends_at(shorter, rest);
        assert((key + rest).skip(1) =~= shorter + rest);
        assert((key + rest)[0] == key[0]);
    }
}

/// A line is what its keyword says, in whatever letter case and however far it
/// is indented: `Include` and a pattern names files by that pattern, `Host` and
/// `Match` open a block, `Include` alone lacks its pattern; comments, empty
/// lines and all other keywords are passed through.
pub proof fn keywords_decide(key: Seq<char>, value: Seq<char>, indent: char)
    requires
        key.len() > 0,
        forall|i: int| 0 <= i < key.len() ==> !is_white(#[trigger] key[i]),
        key[0] != '#',
        value.len() > 0,
        !is_white(value[0]),
        !is_white(value.last()),
        is_white(indent),
    ensures
        ascii_lower(key) == "include"@ ==> line_kind(key + (seq![' '] + value))
            == LineKind::Include(value) && line_kind(key) == LineKind::BareInclude,
        ascii_lower(key) == "host"@ || ascii_lower(key) == "match"@ ==> line_kind(
            key + (seq![' '] + value),
        ) == LineKind::Block,
        ascii_lower(key) != "include"@ && ascii_lower(key) != "host"@ && ascii_lower(key)
            != "match"@ ==> line_kind(key + (seq![' '] + value)) == LineKind::Plain && line_kind(key)
            == LineKind::Plain,
        line_kind(seq!['#'] + value) == LineKind::Plain,
        line_kind(Seq::empty()) == LineKind::Plain,
        line_kind(seq![indent] + key) == line_kind(key),
        line_kind(seq![indent] + (key + (seq![' '] + value))) == line_kind(
            key + (seq![' '] + value),
        ),
{
    reveal_strlit("include");
    reveal_strlit("host");
    reveal_strlit("match");
    assert("include"@.len() == 7 && "host"@.len() == 4 && "match"@.len() == 5);
    let tail = seq![' '] + value;
    let line = key + tail;
    let n = key.len() as int;
    assert(!is_white(key[0]));
    assert(line[0] == key[0]);
    key_ends_at(key, tail);
    key_ends_at(key, Seq::empty());
    assert(key + Seq::<char>::empty() =~= key);
    assert(line.take(n) =~= key);
    assert(key.take(n) =~= key);
    assert(line.skip(n + 1) =~= value);
    crate::text::trimmed_keeps(value);
    assert((seq![indent] + key).skip(1) =~= key);
    assert((seq![indent] + line).skip(1) =~= line);
    assert((seq!['#'] + value)[0] == '#');
    assert(trim_front(seq!['#'] + value) == seq!['#'] + value);
}

/// A relative pattern is looked for from the directory of the file that names
/// it; one that begins with `~/` from the home directory; and `~` alone is the
/// home directory.
pub proof fn patterns_are_taken_from_their_place(
    files: Files,
    reader: Reader,
    base: Seq<char>,
    value: Seq<char>,
)
    requires
        !value.contains('%'),
        value.len() > 0,
    ensures
        value[0] != '~' ==> pattern_path(files, reader, base, value) == match located(
            files.locations@,
            base,
            value,
        ) {
            Some(path) => Ok::<Seq<char>, StopModel>(path),
            None => Err(StopModel::Need(RequestModel::Locate(base, value))),
        },
        reader.home matches Some(h) ==> pattern_path(files, reader, base, seq!['~']) == Ok::<
            Seq<char>,
            StopModel,
        >(h@),
        value[0] != '~' && value[0] != '/' ==> (reader.home matches Some(h) ==> pattern_path(
            files,
            reader,
            base,
            seq!['~', '/'] + value,
        ) == match located(files.locations@, h@, value) {
            Some(path) => Ok::<Seq<char>, StopModel>(path),
            None => Err(StopModel::Need(RequestModel::Locate(h@, value))),
        }),
{
    let host = reader.host@;
    let home = opt_text(reader.home);
    let user = reader.user@;
    filled_front(value, Seq::empty(), host, home, user);
    assert(value + Seq::<char>::empty() =~= value);
    let tilde = seq!['~'];
    filled_front(tilde, Seq::empty(), host, home, user);
    assert(tilde + Seq::<char>::empty() =~= tilde);
    assert(tilde.skip(1) =~= Seq::<char>::empty());
    let below = seq!['~', '/'] + value;
    assert(!below.contains('%')) by {
        if below.contains('%') {
            let i = choose|i: int| 0 <= i < below.len() && below[i] == '%';
            assert(value[i - 2] == '%');
        }
    }
    filled_front(below, Seq::empty(), host, home, user);
    assert(below + Seq::<char>::empty() =~= below);
    assert(below.skip(1) =~= seq!['/'] + value);
    assert((seq!['/'] + value).skip(1) =~= value);
    reveal_with_fuel(strip_front, 3);
}

/// The contents of a file stand in the place of the line that names it: merged
/// themselves, before what follows, and read from the directory of that file.
pub proof fn files_stand_where_they_are_named(
    files: Files,
    reader: Reader,
    line: Seq<char>,
    rest: Seq<Seq<char>>,
    base: Seq<char>,
    seen: Set<Seq<char>>,
    depth: nat,
    path: Seq<char>,
    file: FileModel,
    text: Seq<char>,
)
    requires
        depth <= 16,
        line_kind(line) matches LineKind::Include(value) && value.len() > 0 && pattern_path(
            files,
            reader,
            base,
            value,
        ) == Ok::<Seq<char>, StopModel>(path),
        !path.contains('*') && !path.contains('?') && !path.contains('['),
        known_file(files.files@, path) == Some(file),
        file.contents == Some(text),
        !seen.contains(file.canonical),
    ensures
        ({
            let dir = match file.dir {
                Some(d) => d,
                None => base,
            };
            let inner = merge_text(
                files,
                reader,
                text,
                dir,
                seen.insert(file.canonical),
                depth + 1,
            );
            let whole = merge_lines(files, reader, seq![line] + rest, base, false, seen, depth);
            match inner.result {
                Err(e) => whole.result == Err::<Seq<char>, StopModel>(e),
                Ok(t) => {
                    let after = merge_lines(files, reader, rest, base, false, inner.seen, depth);
                    match after.result {
                        Ok(u) => whole.result == Ok::<Seq<char>, StopModel>(t + u),
                        Err(e) => whole.result == Err::<Seq<char>, StopModel>(e),
                    }
                },
            }
        }),
{
    let all = seq![line] + rest;
    assert(all[0] == line);
    assert(all.skip(1) =~= rest);
    let paths = seq![path];
    assert(paths.skip(1) =~= Seq::<Seq<char>>::empty());
    let dir = match file.dir {
        Some(d) => d,
        None => base,
    };
    let inner = merge_text(files, reader, text, dir, seen.insert(file.canonical), depth + 1);
    assert(merge_files(files, reader, paths.skip(1), base, inner.seen, depth) == (Merged {
        result: Ok(Seq::empty()),
        seen: inner.seen,
    }));
    if let Ok(t) = inner.result {
        assert(t + Seq::<char>::empty() =~= t);
        assert(merge_files(files, reader, paths, base, seen, depth).result == Ok::<
            Seq<char>,
            StopModel,
        >(t));
    }
}

/// A line that names files stops the merge where a file cannot be read, where
/// one was merged before, and where nothing matches; and it is told which.
pub proof fn missing_files_stop_the_merge(
    files: Files,
    reader: Reader,
    line: Seq<char>,
    rest: Seq<Seq<char>>,
    base: Seq<char>,
    seen: Set<Seq<char>>,
    depth: nat,
    path: Seq<char>,
)
    requires
        depth <= 16,
        line_kind(line) matches LineKind::Include(value) && value.len() > 0 && pattern_path(
            files,
            reader,
            base,
            value,
        ) == Ok::<Seq<char>, StopModel>(path),
    ensures
        ({
            let whole = merge_lines(files, reader, seq![line] + rest, base, false, seen, depth);
            let plain = !path.contains('*') && !path.contains('?') && !path.contains('[');
            &&& plain && (known_file(files.files@, path) matches Some(f) && f.contents is None
                && !seen.contains(f.canonical)) ==> whole.result == Err::<Seq<char>, StopModel>(
                StopModel::Unreadable(path),
            )
            &&& plain && (known_file(files.files@, path) matches Some(f) && seen.contains(
                f.canonical,
            )) ==> whole.result == Err::<Seq<char>, StopModel>(
                StopModel::Cycle((known_file(files.files@, path)->0).canonical),
            )
            &&& !plain && listed(files.listings@, path) == Some(Seq::<Seq<char>>::empty())
                ==> whole.result == Err::<Seq<char>, StopModel>(StopModel::NoMatch(path))
        }),
{
    let all = seq![line] + rest;
    assert(all[0] == line);
    let paths = seq![path];
    assert(paths[0] == path);
    let inner = merge_files(files, reader, paths, base, seen, depth);
    if !has_meta(path) {
        assert(named_files(files, path) == Ok::<Seq<Seq<char>>, StopModel>(paths));
        if let Some(f) = known_file(files.files@, path) {
            if seen.contains(f.canonical) {
                assert(inner.result == Err::<Seq<char>, StopModel>(
                    StopModel::Cycle(f.canonical),
                ));
            } else if f.contents is None {
                assert(inner.result == Err::<Seq<char>, StopModel>(StopModel::Unreadable(path)));
            }
        }
    }
}

/// Files name each other up to 16 levels deep, and no deeper.
pub proof fn files_nest_sixteen_deep(
    files: Files,
    reader: Reader,
    text: Seq<char>,
    base: Seq<char>,
    seen: Set<Seq<char>>,
    depth: nat,
)
    ensures
        depth > 16 <==> merge_text(files, reader, Seq::empty(), base, seen, depth).result is Err,
        depth > 16 ==> merge_text(files, reader, text, base, seen, depth).result == Err::<
            Seq<char>,
            StopModel,
        >(StopModel::TooDeep),
{
    let none = Seq::<char>::empty();
    crate::text::cut_needs_separator(none, '\n');
    assert(pieces(none, '\n') =~= seq![none]);
    assert(lines(none) =~= Seq::<Seq<char>>::empty());
}

proof fn pieces_of_unlines(l: Seq<Seq<char>>)
    requires
        forall|i: int| 0 <= i < l.len() ==> !(#[trigger] l[i]).contains('\n'),
    ensures
        pieces(unlines(l), '\n') == l.push(Seq::empty()),
    decreases l.len(),
{
    let none = Seq::<char>::empty();
    if l.len() == 0 {
        crate::text::cut_needs_separator(none, '\n');
        assert(pieces(none, '\n') =~= l.push(none));
    } else {
        let rest = l.skip(1);
        assert forall|i: int| 0 <= i < rest.len() implies !(#[trigger] rest[i]).contains('\n') by {
            assert(rest[i] == l[i + 1]);
        }
        pieces_of_unlines(rest);
        assert(!l[0].contains('\n'));
        crate::text::cut_first_rejoins(l[0], '\n', unlines(rest));
        assert(seq![l[0]] + rest.push(none) =~= l.push(none));
    }
}

/// A text is read line by line: lines that are written one below the other are
/// read back as they were.
pub proof fn lines_read_back(l: Seq<Seq<char>>)
    requires
        forall|i: int|
            0 <= i < l.len() ==> !(#[trigger] l[i]).contains('\n') && !l[i].contains('\r'),
    ensures
        lines(unlines(l)) == l,
{
    pieces_of_unlines(l);
    let all = pieces(unlines(l), '\n');
    assert forall|i: int| 0 <= i < l.len() implies without_return(#[trigger] all[i]) == l[i] by {
        assert(!l[i].contains('\r'));
        if l[i].len() > 0 {
            assert(l[i].contains(l[i].last()));
        }
    }
    assert(lines(unlines(l)) =~= l);
}

/// A fact is found under what it is known by, the first of several.
pub proof fn facts_are_found(
    places: Seq<Location>,
    lists: Seq<Listing>,
    files: Seq<FileFact>,
    place: Location,
    list: Listing,
    file: FileFact,
    base: Seq<char>,
    name: Seq<char>,
)
    ensures
        located(seq![place] + places, place.base@, place.pattern@) == Some(place.path@),
        place.base@ != base || place.pattern@ != name ==> located(
            seq![place] + places,
            base,
            name,
        ) == located(places, base, name),
        located(Seq::empty(), base, name) is None,
        listed(seq![list] + lists, list.path@) == Some(texts(list.files@)),
        list.path@ != name ==> listed(seq![list] + lists, name) == listed(lists, name),
        listed(Seq::empty(), name) is None,
        known_file(seq![file] + files, file.path@) == Some(
            FileModel {
                canonical: file.canonical@,
                dir: opt_text(file.dir),
                contents: opt_text(file.contents),
            },
        ),
        file.path@ != name ==> known_file(seq![file] + files, name) == known_file(files, name),
        known_file(Seq::empty(), name) is None,
{
    assert((seq![place] + places).skip(1) =~= places);
    assert((seq![list] + lists).skip(1) =~= lists);
    assert((seq![file] + files).skip(1) =~= files);
}

/// Files that are named together are merged one after the other, in order.
pub proof fn named_files_are_merged_in_order(
    files: Files,
    reader: Reader,
    path: Seq<char>,
    rest: Seq<Seq<char>>,
    base: Seq<char>,
    seen: Set<Seq<char>>,
    depth: nat,
)
    requires
        depth <= 16,
    ensures
        ({
            let first = merge_files(files, reader, seq![path], base, seen, depth);
            let whole = merge_files(files, reader, seq![path] + rest, base, seen, depth);
            match first.result {
                Err(e) => whole.result == Err::<Seq<char>, StopModel>(e),
                Ok(t) => {
                    let after = merge_files(files, reader, rest, base, first.seen, depth);
                    match after.result {
                        Ok(u) => whole.result == Ok::<Seq<char>, StopModel>(t + u),
                        Err(e) => whole.result == Err::<Seq<char>, StopModel>(e),
                    }
                },
            }
        }),
{
    let one = seq![path];
    let all = seq![path] + rest;
    assert(one.skip(1) =~= Seq::<Seq<char>>::empty());
    assert(all.skip(1) =~= rest);
    assert(all[0] == path);
    if let Some(file) = known_file(files.files@, path) {
        if let Some(text) = file.contents {
            let dir = match file.dir {
                Some(d) => d,
                None => base,
            };
            let inner = merge_text(
                files,
                reader,
                text,
                dir,
                seen.insert(file.canonical),
                depth + 1,
            );
            assert(merge_files(files, reader, one.skip(1), base, inner.seen, depth) == (Merged {
                result: Ok(Seq::empty()),
                seen: inner.seen,
            }));
            if let Ok(t) = inner.result {
                assert(t + Seq::<char>::empty() =~= t);
            }
        }
    }
}

/// A line that names files is told what is wrong with it where it stands in a
/// block or lacks its pattern.
pub proof fn misplaced_lines_are_named(
    files: Files,
    reader: Reader,
    line: Seq<char>,
    rest: Seq<Seq<char>>,
    base: Seq<char>,
    seen: Set<Seq<char>>,
    depth: nat,
)
    ensures
        line_kind(line) is Include ==> merge_lines(
            files,
            reader,
            seq![line] + rest,
            base,
            true,
            seen,
            depth,
        ).result == Err::<Seq<char>, StopModel>(StopModel::AfterBlock(line)),
        forall|in_block: bool|
            line_kind(line) is BareInclude ==> (#[trigger] merge_lines(
                files,
                reader,
                seq![line] + rest,
                base,
                in_block,
                seen,
                depth,
            )).result == Err::<Seq<char>, StopModel>(StopModel::MissingPattern(line)),
{
    assert((seq![line] + rest)[0] == line);
}

/// What a user is told of a merge that stopped names the line or the path.
pub proof fn stops_name_their_cause(cause: Seq<char>)
    ensures
        crate::text::finishes_with(stop_message(StopModel::MissingPattern(cause)), cause),
        crate::text::finishes_with(stop_message(StopModel::AfterBlock(cause)), cause),
        crate::text::finishes_with(stop_message(StopModel::NoMatch(cause)), cause),
        crate::text::finishes_with(stop_message(StopModel::Cycle(cause)), cause),
        crate::text::finishes_with(stop_message(StopModel::Unreadable(cause)), cause),
{
    let a = "Include directive missing pattern: "@;
    let b = "Include directive not allowed after Host/Match block: "@;
    let c = "Include: no files matched pattern "@;
    let d = "Include cycle detected: "@;
    let e = "Include: failed to read "@;
    assert((a + cause).skip(a.len() as int) =~= cause);
    assert((b + cause).skip(b.len() as int) =~= cause);
    assert((c + cause).skip(c.len() as int) =~= cause);
    assert((d + cause).skip(d.len() as int) =~= cause);
    assert((e + cause).skip(e.len() as int) =~= cause);
}

/// A keyword with nothing but white space behind it lacks its pattern, and the
/// merge stops there.
pub proof fn blank_patterns_are_missing(
    key: Seq<char>,
    w: char,
    files: Files,
    reader: Reader,
    rest: Seq<Seq<char>>,
    base: Seq<char>,
    seen: Set<Seq<char>>,
    depth: nat,
)
    requires
        key.len() > 0,
        forall|i: int| 0 <= i < key.len() ==> !is_white(#[trigger] key[i]),
        is_white(w),
        ascii_lower(key) == "include"@,
    ensures
        line_kind(key.push(w)) == LineKind::Include(Seq::empty()),
        merge_lines(files, reader, seq![key.push(w)] + rest, base, false, seen, depth).result
            == Err::<Seq<char>, StopModel>(StopModel::MissingPattern(key.push(w))),
{
    reveal_strlit("include");
    reveal_strlit("host");
    reveal_strlit("match");
    assert("include"@.len() == 7 && "host"@.len() == 4 && "match"@.len() == 5);
    assert("include"@[0] == 'i');
    let line = key.push(w);
    let n = key.len() as int;
    assert(ascii_lower(key)[0] == 'i');
    assert(key[0] != '#');
    assert(!is_white(key[0]) && line[0] == key[0]);
    key_ends_at(key, seq![w]);
    assert(key + seq![w] =~= line);
    assert(line.take(n) =~= key);
    assert(line.skip(n + 1) =~= Seq::<char>::empty());
    assert(trimmed(line.skip(n + 1)) =~= Seq::<char>::empty());
    assert((seq![line] + rest)[0] == line);
}

} // verus!
