//! Glob patterns: whether they compile, and what they match.

use vstd::prelude::*;
use vstd::string::*;

use crate::text::{begins_with, chars_of, concatenate, ends_with, finishes_with, starts_with};

verus! {

broadcast use vstd::string::group_string_axioms;

// ---------------------------------------------------------------------
// Nesting
// ---------------------------------------------------------------------

/// What the next character of a glob pattern comes behind.
#[derive(Clone, Copy, PartialEq, Eq, Structural, Debug)]
pub enum Spot {
    /// Outside of every class.
    Plain,
    /// Behind a backslash that takes its meaning from the next character.
    Escape,
    /// Behind the opening bracket of a class.
    Opened,
    /// Behind the mark that negates a class.
    Negated,
    /// Among the members of a class, where a bracket closes it.
    Members,
}

/// The spot behind `c`. A bracket that comes first in a class is a member of
/// it, and a backslash in a class is a member like others.
pub open spec fn spot_after(at: Spot, c: char, escapes: bool) -> Spot {
    match at {
        Spot::Plain => if c == '[' {
            Spot::Opened
        } else if c == '\\' && escapes {
            Spot::Escape
        } else {
            Spot::Plain
        },
        Spot::Escape => Spot::Plain,
        Spot::Opened => if c == '!' || c == '^' {
            Spot::Negated
        } else {
            Spot::Members
        },
        Spot::Negated => Spot::Members,
        Spot::Members => if c == ']' {
            Spot::Plain
        } else {
            Spot::Members
        },
    }
}

/// The spot at the end of a pattern.
pub open spec fn last_spot(s: Seq<char>, escapes: bool) -> Spot
    decreases s.len(),
{
    if s.len() == 0 {
        Spot::Plain
    } else {
        spot_after(last_spot(s.drop_last(), escapes), s.last(), escapes)
    }
}

/// How many braces are open at the end of a pattern; those that are escaped or
/// in a class do not count.
pub open spec fn open_braces(s: Seq<char>, escapes: bool) -> nat
    decreases s.len(),
{
    if s.len() == 0 {
        0
    } else {
        let before = open_braces(s.drop_last(), escapes);
        if last_spot(s.drop_last(), escapes) != Spot::Plain {
            before
        } else if s.last() == '{' {
            before + 1
        } else if s.last() == '}' && before > 0 {
            (before - 1) as nat
        } else {
            before
        }
    }
}

/// The deepest nesting of braces in a pattern that is read. The stack of a
/// thread holds this much.
pub const MAX_GLOB_DEPTH: usize = 1000;

/// Whether braces are nested no deeper than can be read, where a backslash
/// escapes or does not.
pub open spec fn is_shallow_with(s: Seq<char>, escapes: bool) -> bool {
    forall|i: int| 0 <= i <= s.len() ==> open_braces(#[trigger] s.take(i), escapes)
        <= MAX_GLOB_DEPTH
}

/// Whether braces are nested no deeper than can be read, on every platform.
pub open spec fn is_shallow(s: Seq<char>) -> bool {
    is_shallow_with(s, true) && is_shallow_with(s, false)
}

/// Computes [`spot_after`].
fn next_spot(at: Spot, c: char, escapes: bool) -> (r: Spot)
    ensures
        r == spot_after(at, c, escapes),
{
    match at {
        Spot::Plain => if c == '[' {
            Spot::Opened
        } else if c == '\\' && escapes {
            Spot::Escape
        } else {
            Spot::Plain
        },
        Spot::Escape => Spot::Plain,
        Spot::Opened => if c == '!' || c == '^' {
            Spot::Negated
        } else {
            Spot::Members
        },
        Spot::Negated => Spot::Members,
        Spot::Members => if c == ']' {
            Spot::Plain
        } else {
            Spot::Members
        },
    }
}

/// Decides [`is_shallow_with`].
fn reads_shallow(all: &[char], escapes: bool) -> (r: bool)
    ensures
        r == is_shallow_with(all@, escapes),
{
    let mut open: usize = 0;
    let mut at = Spot::Plain;
    let mut i: usize = 0;
    assert(all@.take(0) =~= Seq::<char>::empty());
    while i < all.len()
        invariant
            i <= all@.len(),
            open <= MAX_GLOB_DEPTH,
            open == open_braces(all@.take(i as int), escapes),
            at == last_spot(all@.take(i as int), escapes),
            forall|j: int| 0 <= j <= i ==> open_braces(#[trigger] all@.take(j), escapes)
                <= MAX_GLOB_DEPTH,
        decreases all@.len() - i,
    {
        let c = all[i];
        proof {
            assert(all@.take(i + 1).drop_last() =~= all@.take(i as int));
            assert(all@.take(i + 1).last() == c);
        }
        if at == Spot::Plain {
            if c == '{' {
                open = open + 1;
            } else if c == '}' && open > 0 {
                open = open - 1;
            }
        }
        at = next_spot(at, c, escapes);
        if open > MAX_GLOB_DEPTH {
            assert(open_braces(all@.take(i + 1), escapes) > MAX_GLOB_DEPTH);
            return false;
        }
        i = i + 1;
    }
    true
}

// ---------------------------------------------------------------------
// Compiling and matching
// ---------------------------------------------------------------------

/// Whether `globset::Glob::new` takes a pattern, where `windows` says that a
/// backslash separates instead of escaping.
pub uninterp spec fn glob_valid(pattern: Seq<char>, windows: bool) -> bool;

/// Whether the regular expression of a valid pattern stays within the limits of
/// `globset` on nesting and size when it is compiled, where `layout` stands for
/// how large its parts are in the memory of the machine.
pub uninterp spec fn glob_builds(pattern: Seq<char>, windows: bool, layout: nat) -> bool;

/// Whether `globset::GlobMatcher::is_match` finds that a name matches a pattern
/// that compiles.
pub uninterp spec fn glob_hit(pattern: Seq<char>, name: Seq<char>, windows: bool) -> bool;

/// What a pattern is.
pub enum GlobState {
    /// It cannot be read as a glob.
    Invalid,
    /// It cannot be compiled.
    TooComplex,
    /// It compiles.
    Compiles,
}

/// What a pattern is on a platform and a machine.
pub open spec fn glob_state(pattern: Seq<char>, windows: bool, layout: nat) -> GlobState {
    if !is_shallow(pattern) {
        GlobState::TooComplex
    } else if !glob_valid(pattern, windows) {
        GlobState::Invalid
    } else if !glob_builds(pattern, windows, layout) {
        GlobState::TooComplex
    } else {
        GlobState::Compiles
    }
}

/// `globset::GlobMatcher`: a compiled pattern.
#[verifier::external_type_specification]
#[verifier::external_body]
pub struct ExGlobMatcher(globset::GlobMatcher);

/// A pattern that was compiled on this machine. Only [`try_glob`] makes one.
pub struct CompiledGlob {
    text: String,
    matcher: globset::GlobMatcher,
}

/// A pattern that was found to be no glob on this machine. Only [`try_glob`]
/// makes one.
pub struct NoGlob {
    text: String,
}

/// A pattern that was tried on this machine, and is not too complex.
pub enum TriedGlob {
    Compiled(CompiledGlob),
    Invalid(NoGlob),
}

impl CompiledGlob {
    /// The pattern.
    pub closed spec fn pattern(&self) -> Seq<char> {
        self.text@
    }

    /// `globset::GlobMatcher::is_match`: whether a name matches. A backslash in
    /// the name separates on some platforms and is a character like others on
    /// the rest, and one in the pattern separates or escapes; which of the two
    /// holds is left unsaid. Without backslashes the platform makes no
    /// difference.
    #[verifier::external_body]
    pub(crate) fn is_hit(&self, name: &str) -> (r: bool)
        ensures
            exists|windows: bool| r == #[trigger] glob_hit(self.pattern(), name@, windows),
            !self.pattern().contains('\\') && !name@.contains('\\') ==> forall|windows: bool|
                r == #[trigger] glob_hit(self.pattern(), name@, windows),
    {
        self.matcher.is_match(name)
    }
}

impl TriedGlob {
    /// The pattern.
    pub closed spec fn pattern(&self) -> Seq<char> {
        match self {
            TriedGlob::Compiled(glob) => glob.text@,
            TriedGlob::Invalid(glob) => glob.text@,
        }
    }
}

/// A pattern with the same regular expression, or one as small, that
/// `globset::GlobSet::new` does not match by comparing texts: a pair of braces
/// without contents adds nothing to the expression. It must not touch a `**`.
pub open spec fn probe_of(pattern: Seq<char>) -> Seq<char> {
    if !finishes_with(pattern, "**"@) {
        pattern + "{}"@
    } else if !begins_with(pattern, "**"@) {
        "{}"@ + pattern
    } else {
        pattern
    }
}

/// Computes [`probe_of`].
fn probe(pattern: &str) -> (r: String)
    ensures
        r@ == probe_of(pattern@),
{
    let all = chars_of(pattern);
    let stars = chars_of("**");
    if !ends_with(all.as_slice(), stars.as_slice()) {
        concatenate(pattern, "{}")
    } else if !starts_with(all.as_slice(), stars.as_slice()) {
        concatenate("{}", pattern)
    } else {
        pattern.to_owned()
    }
}

/// Whether `r` is what comes of compiling a pattern, by whether it is valid and
/// whether its regular expression compiles.
pub open spec fn compiled_as(r: Option<TriedGlob>, valid: bool, builds: bool) -> bool {
    match r {
        Some(TriedGlob::Compiled(_)) => valid && builds,
        Some(TriedGlob::Invalid(_)) => !valid,
        None => valid && !builds,
    }
}

/// `globset::Glob::new`, `globset::GlobSet::new` and
/// `globset::Glob::compile_matcher`: compiles a pattern; `None` where it is too
/// complex. `compile_matcher` panics where the regular expression does not
/// compile, so that is tried first through `GlobSet::new`, which reports it, on
/// a pattern that it compiles to the same expression. Reading a pattern takes
/// stack for each level of braces, so deeply nested ones are left out. A
/// backslash escapes or separates; which of the two holds is left unsaid, and
/// so are the sizes on which the limits depend. Whether a pattern without
/// backslashes is valid depends on nothing else.
#[verifier::external_body]
fn compile(pattern: &str, probe: &str) -> (r: Option<TriedGlob>)
    requires
        is_shallow(pattern@),
        probe@ == probe_of(pattern@),
    ensures
        r matches Some(glob) ==> glob.pattern() == pattern@,
        exists|windows: bool, layout: nat|
            compiled_as(
                r,
                glob_valid(pattern@, windows),
                #[trigger] glob_builds(pattern@, windows, layout),
            ),
        !pattern@.contains('\\') ==> forall|windows: bool| #[trigger]
            glob_valid(pattern@, windows) == !(r matches Some(TriedGlob::Invalid(_))),
{
    let text = pattern.to_owned();
    let glob = match globset::Glob::new(pattern) {
        Ok(glob) => glob,
        Err(_) => return Some(TriedGlob::Invalid(NoGlob { text })),
    };
    match globset::Glob::new(probe).and_then(|g| globset::GlobSet::new([g])) {
        Ok(_) => Some(TriedGlob::Compiled(CompiledGlob { text, matcher: glob.compile_matcher() })),
        Err(_) => None,
    }
}

/// Whether `r` is what comes of trying a pattern that is this.
pub open spec fn tried_as(r: Option<TriedGlob>, state: GlobState) -> bool {
    match r {
        Some(TriedGlob::Compiled(_)) => state is Compiles,
        Some(TriedGlob::Invalid(_)) => state is Invalid,
        None => state is TooComplex,
    }
}

/// Tries a pattern: compiles it, or finds that it is no glob; `None` where it is
/// too complex. See [`glob_state`].
pub fn try_glob(pattern: &str) -> (r: Option<TriedGlob>)
    ensures
        r matches Some(glob) ==> glob.pattern() == pattern@,
        r matches Some(TriedGlob::Compiled(glob)) ==> glob.pattern() == pattern@,
        exists|windows: bool, layout: nat|
            tried_as(r, #[trigger] glob_state(pattern@, windows, layout)),
        !is_shallow(pattern@) ==> r is None,
        is_shallow(pattern@) && !pattern@.contains('\\') ==> forall|windows: bool| #[trigger]
            glob_valid(pattern@, windows) == !(r matches Some(TriedGlob::Invalid(_))),
{
    let all = chars_of(pattern);
    if !reads_shallow(all.as_slice(), true) || !reads_shallow(all.as_slice(), false) {
        assert(tried_as(None, glob_state(pattern@, true, 0)));
        return None;
    }
    let probe = probe(pattern);
    let r = compile(pattern, probe.as_str());
    proof {
        let (windows, layout) = choose|windows: bool, layout: nat|
            compiled_as(
                r,
                glob_valid(pattern@, windows),
                #[trigger] glob_builds(pattern@, windows, layout),
            );
        assert(tried_as(r, glob_state(pattern@, windows, layout)));
    }
    r
}

// ---------------------------------------------------------------------
// Laws
// ---------------------------------------------------------------------

/// How many opening braces a text holds.
pub open spec fn brace_count(s: Seq<char>) -> nat
    decreases s.len(),
{
    if s.len() == 0 {
        0
    } else {
        brace_count(s.drop_last()) + if s.last() == '{' {
            1nat
        } else {
            0nat
        }
    }
}

proof fn open_braces_are_counted(s: Seq<char>, i: int, escapes: bool)
    requires
        0 <= i <= s.len(),
    ensures
        open_braces(s.take(i), escapes) <= brace_count(s.take(i)) <= brace_count(s),
    decreases s.len(), i,
{
    let part = s.take(i);
    if i > 0 {
        open_braces_are_counted(s, i - 1, escapes);
        assert(part.drop_last() =~= s.take(i - 1));
    }
    if i < s.len() {
        open_braces_are_counted(s.drop_last(), i, escapes);
        assert(s.drop_last().take(i) =~= part);
    } else {
        assert(part =~= s);
    }
}

/// No pattern is refused for its nesting that has at most 1000 opening braces.
pub proof fn few_braces_are_shallow(s: Seq<char>)
    requires
        brace_count(s) <= 1000,
    ensures
        is_shallow(s),
{
    assert forall|i: int| 0 <= i <= s.len() implies open_braces(#[trigger] s.take(i), true)
        <= MAX_GLOB_DEPTH && open_braces(s.take(i), false) <= MAX_GLOB_DEPTH by {
        open_braces_are_counted(s, i, true);
        open_braces_are_counted(s, i, false);
    }
}

/// A pattern that is no glob is never called too complex, and one that is too
/// complex is never called a glob; which of the three it is follows from whether
/// it is valid and whether it compiles, as long as it is shallow.
pub proof fn patterns_are_told_apart(pattern: Seq<char>, windows: bool, layout: nat)
    requires
        brace_count(pattern) <= 1000,
    ensures
        glob_state(pattern, windows, layout) is Invalid <==> !glob_valid(pattern, windows),
        glob_state(pattern, windows, layout) is Compiles <==> glob_valid(pattern, windows)
            && glob_builds(pattern, windows, layout),
{
    few_braces_are_shallow(pattern);
}

} // verus!
