//! Text primitives: searching, splitting, trimming and decimal numbers.
//!
//! Strings are modelled by their characters (`Seq<char>`). The executable
//! functions work on character slices; [`chars_of`] and [`string_of`] convert.

use vstd::prelude::*;
use vstd::slice::slice_subrange;
use vstd::string::*;

verus! {

broadcast use vstd::string::group_string_axioms;

/// `String::push`: appends one character to the end of the string.
pub assume_specification[ String::push ](s: &mut String, c: char)
    ensures
        final(s)@ == old(s)@.push(c),
;

/// The characters of a string, in order.
pub fn chars_of(s: &str) -> (out: Vec<char>)
    ensures
        out@ == s@,
{
    let mut out: Vec<char> = Vec::new();
    for c in it: s.chars()
        invariant
            it.seq() == s@,
            out@ == s@.take(it.index()),
    {
        out.push(c);
        proof {
            assert(s@.take(it.index()).push(c) =~= s@.take(it.index() + 1));
        }
    }
    assert(s@.take(s@.len() as int) =~= s@);
    out
}

/// A string made of the given characters.
pub fn string_of(s: &[char]) -> (out: String)
    ensures
        out@ == s@,
{
    let mut out = String::new();
    let mut i: usize = 0;
    while i < s.len()
        invariant
            i <= s@.len(),
            out@ == s@.take(i as int),
        decreases s@.len() - i,
    {
        out.push(s[i]);
        proof {
            assert(s@.take(i as int).push(s@[i as int]) =~= s@.take(i + 1));
        }
        i = i + 1;
    }
    assert(s@.take(s@.len() as int) =~= s@);
    out
}

/// Whether two character slices hold the same text.
pub fn eq_chars(a: &[char], b: &[char]) -> (r: bool)
    ensures
        r == (a@ == b@),
{
    if a.len() != b.len() {
        return false;
    }
    let mut i: usize = 0;
    while i < a.len()
        invariant
            i <= a@.len(),
            a@.len() == b@.len(),
            forall|j: int| 0 <= j < i ==> a@[j] == b@[j],
        decreases a@.len() - i,
    {
        if a[i] != b[i] {
            return false;
        }
        i = i + 1;
    }
    assert(a@ =~= b@);
    true
}

/// Whether two strings hold the same text.
pub fn same_text(a: &str, b: &str) -> (r: bool)
    ensures
        r == (a@ == b@),
{
    let x = chars_of(a);
    let y = chars_of(b);
    eq_chars(x.as_slice(), y.as_slice())
}

/// The text of each string in a list.
pub open spec fn texts(list: Seq<String>) -> Seq<Seq<char>> {
    list.map_values(|s: String| s@)
}

/// The text of an optional string.
pub open spec fn opt_text(s: Option<String>) -> Option<Seq<char>> {
    match s {
        Some(s) => Some(s@),
        None => None,
    }
}

/// A copy of an optional string.
pub fn clone_opt(s: &Option<String>) -> (r: Option<String>)
    ensures
        r == *s,
{
    match s {
        Some(t) => Some(t.clone()),
        None => None,
    }
}

/// A copy of a list of strings.
pub fn clone_list(list: &[String]) -> (out: Vec<String>)
    ensures
        texts(out@) == texts(list@),
        out@ == list@,
{
    let mut out: Vec<String> = Vec::new();
    let mut i: usize = 0;
    while i < list.len()
        invariant
            i <= list@.len(),
            out@ == list@.take(i as int),
        decreases list@.len() - i,
    {
        out.push(list[i].clone());
        proof {
            assert(list@.take(i as int).push(list@[i as int]) =~= list@.take(i + 1));
        }
        i = i + 1;
    }
    assert(list@.take(list@.len() as int) =~= list@);
    out
}

// ---------------------------------------------------------------------
// Searching and splitting
// ---------------------------------------------------------------------

/// What stands before and after the first occurrence of `c`.
pub open spec fn cut_first(s: Seq<char>, c: char) -> Option<(Seq<char>, Seq<char>)> {
    match s.index_of_first(c) {
        Some(i) => Some((s.take(i), s.skip(i + 1))),
        None => None,
    }
}

/// What stands before and after the last occurrence of `c`.
pub open spec fn cut_last(s: Seq<char>, c: char) -> Option<(Seq<char>, Seq<char>)> {
    match s.index_of_last(c) {
        Some(i) => Some((s.take(i), s.skip(i + 1))),
        None => None,
    }
}

/// Position of the first occurrence of `c`.
pub fn find_char(s: &[char], c: char) -> (r: Option<usize>)
    ensures
        match r {
            Some(i) => i < s@.len() && s@.index_of_first(c) == Some(i as int),
            None => s@.index_of_first(c) is None,
        },
{
    proof {
        s@.index_of_first_ensures(c);
    }
    let mut i: usize = 0;
    while i < s.len()
        invariant
            i <= s@.len(),
            forall|j: int| 0 <= j < i ==> s@[j] != c,
            match s@.index_of_first(c) {
                Some(k) => 0 <= k < s@.len() && s@[k] == c && forall|j: int|
                    0 <= j < k < s@.len() ==> s@[j] != c,
                None => !s@.contains(c),
            },
        decreases s@.len() - i,
    {
        if s[i] == c {
            assert(s@.contains(c));
            return Some(i);
        }
        i = i + 1;
    }
    None
}

/// Position of the last occurrence of `c`.
pub fn rfind_char(s: &[char], c: char) -> (r: Option<usize>)
    ensures
        match r {
            Some(i) => i < s@.len() && s@.index_of_last(c) == Some(i as int),
            None => s@.index_of_last(c) is None,
        },
{
    proof {
        s@.index_of_last_ensures(c);
    }
    let mut i: usize = s.len();
    while i > 0
        invariant
            i <= s@.len(),
            forall|j: int| i <= j < s@.len() ==> s@[j] != c,
            match s@.index_of_last(c) {
                Some(k) => 0 <= k < s@.len() && s@[k] == c && forall|j: int|
                    0 <= k < j < s@.len() ==> s@[j] != c,
                None => !s@.contains(c),
            },
        decreases i,
    {
        i = i - 1;
        if s[i] == c {
            assert(s@.contains(c));
            return Some(i);
        }
    }
    None
}

/// The slice from `i` to the end.
pub fn skip_chars<'a>(s: &'a [char], i: usize) -> (r: &'a [char])
    requires
        i <= s@.len(),
    ensures
        r@ == s@.skip(i as int),
{
    let r = slice_subrange(s, i, s.len());
    assert(r@ =~= s@.skip(i as int));
    r
}

/// The first `i` characters.
pub fn take_chars<'a>(s: &'a [char], i: usize) -> (r: &'a [char])
    requires
        i <= s@.len(),
    ensures
        r@ == s@.take(i as int),
{
    let r = slice_subrange(s, 0, i);
    assert(r@ =~= s@.take(i as int));
    r
}

/// Splits at the first occurrence of `c`.
pub fn split_first<'a>(s: &'a [char], c: char) -> (r: Option<(&'a [char], &'a [char])>)
    ensures
        match r {
            Some((a, b)) => cut_first(s@, c) == Some((a@, b@)),
            None => cut_first(s@, c) is None,
        },
{
    assert(s.len() <= usize::MAX);
    match find_char(s, c) {
        Some(i) => Some((take_chars(s, i), skip_chars(s, i + 1))),
        None => None,
    }
}

/// Splits at the last occurrence of `c`.
pub fn split_last<'a>(s: &'a [char], c: char) -> (r: Option<(&'a [char], &'a [char])>)
    ensures
        match r {
            Some((a, b)) => cut_last(s@, c) == Some((a@, b@)),
            None => cut_last(s@, c) is None,
        },
{
    assert(s.len() <= usize::MAX);
    match rfind_char(s, c) {
        Some(i) => Some((take_chars(s, i), skip_chars(s, i + 1))),
        None => None,
    }
}

/// The pieces of `s` between occurrences of `c`; a text without `c` is one
/// piece.
pub open spec fn pieces(s: Seq<char>, c: char) -> Seq<Seq<char>>
    decreases s.len(),
    via pieces_decreases
{
    match cut_first(s, c) {
        Some((a, b)) => seq![a] + pieces(b, c),
        None => seq![s],
    }
}

#[via_fn]
proof fn pieces_decreases(s: Seq<char>, c: char) {
    s.index_of_first_ensures(c);
}

/// Splits at every occurrence of `c`.
pub fn split_all(s: &[char], c: char) -> (r: Vec<Vec<char>>)
    ensures
        r@.map_values(|v: Vec<char>| v@) == pieces(s@, c),
{
    let mut out: Vec<Vec<char>> = Vec::new();
    let mut rest: &[char] = s;
    loop
        invariant
            out@.map_values(|v: Vec<char>| v@) + pieces(rest@, c) == pieces(s@, c),
        decreases rest@.len(),
    {
        proof {
            rest@.index_of_first_ensures(c);
        }
        let ghost before = out@;
        match split_first(rest, c) {
            Some((a, b)) => {
                let piece = vstd::slice::slice_to_vec(a);
                let ghost whole = rest@;
                out.push(piece);
                rest = b;
                proof {
                    assert(out@.map_values(|v: Vec<char>| v@) =~= before.map_values(
                        |v: Vec<char>| v@,
                    ).push(a@));
                    assert(pieces(whole, c) == seq![a@] + pieces(b@, c));
                    assert(out@.map_values(|v: Vec<char>| v@) + pieces(b@, c)
                        =~= before.map_values(|v: Vec<char>| v@) + pieces(whole, c));
                }
            },
            None => {
                let piece = vstd::slice::slice_to_vec(rest);
                out.push(piece);
                proof {
                    assert(out@.map_values(|v: Vec<char>| v@) =~= before.map_values(
                        |v: Vec<char>| v@,
                    ).push(rest@));
                    assert(pieces(rest@, c) == seq![rest@]);
                    assert(out@.map_values(|v: Vec<char>| v@) =~= before.map_values(
                        |v: Vec<char>| v@,
                    ) + pieces(rest@, c));
                }
                return out;
            },
        }
    }
}

/// The texts of split pieces, one by one.
pub proof fn piece_index(v: Seq<Vec<char>>, p: Seq<Seq<char>>)
    requires
        v.map_values(|q: Vec<char>| q@) == p,
    ensures
        v.len() == p.len(),
        forall|i: int| 0 <= i < v.len() ==> v[i]@ == #[trigger] p[i],
{
    let m = v.map_values(|q: Vec<char>| q@);
    assert(m.len() == v.len());
    assert forall|i: int| 0 <= i < v.len() implies v[i]@ == #[trigger] p[i] by {
        assert(m[i] == v[i]@);
    }
}

/// Whether `s` begins with `p`.
pub open spec fn begins_with(s: Seq<char>, p: Seq<char>) -> bool {
    p.len() <= s.len() && s.take(p.len() as int) == p
}

/// Whether `s` ends with `p`.
pub open spec fn finishes_with(s: Seq<char>, p: Seq<char>) -> bool {
    p.len() <= s.len() && s.skip(s.len() - p.len()) == p
}

/// Whether `p` stands in `s` at position `i`.
pub open spec fn stands_at(s: Seq<char>, p: Seq<char>, i: int) -> bool {
    0 <= i && i + p.len() <= s.len() && s.subrange(i, i + p.len()) == p
}

/// Whether `p` stands anywhere in `s`.
pub open spec fn has_text(s: Seq<char>, p: Seq<char>) -> bool {
    exists|i: int| stands_at(s, p, i)
}

/// Decides [`begins_with`].
pub fn starts_with(s: &[char], p: &[char]) -> (r: bool)
    ensures
        r == begins_with(s@, p@),
{
    if p.len() > s.len() {
        return false;
    }
    eq_chars(take_chars(s, p.len()), p)
}

/// Decides [`finishes_with`].
pub fn ends_with(s: &[char], p: &[char]) -> (r: bool)
    ensures
        r == finishes_with(s@, p@),
{
    if p.len() > s.len() {
        return false;
    }
    eq_chars(skip_chars(s, s.len() - p.len()), p)
}

/// Decides [`has_text`].
pub fn contains(s: &[char], p: &[char]) -> (r: bool)
    ensures
        r == has_text(s@, p@),
{
    if p.len() > s.len() {
        return false;
    }
    let last: usize = s.len() - p.len();
    let mut i: usize = 0;
    loop
        invariant
            i <= last,
            last + p@.len() == s@.len(),
            s@.len() <= usize::MAX,
            forall|j: int| 0 <= j < i ==> !stands_at(s@, p@, j),
        decreases last - i,
    {
        if eq_chars(slice_subrange(s, i, i + p.len()), p) {
            assert(stands_at(s@, p@, i as int));
            return true;
        }
        if i == last {
            return false;
        }
        i = i + 1;
    }
}

// ---------------------------------------------------------------------
// Words
// ---------------------------------------------------------------------

/// The ASCII white space that stands between words.
pub open spec fn is_blank(c: char) -> bool {
    c == ' ' || c == '\t' || c == '\n' || c == '\u{c}' || c == '\r'
}

/// How many characters stand before the first blank.
pub open spec fn word_len(s: Seq<char>) -> nat
    decreases s.len(),
{
    if s.len() == 0 || is_blank(s[0]) {
        0
    } else {
        1 + word_len(s.skip(1))
    }
}

/// The longest runs of characters without a blank, in order.
pub open spec fn words(s: Seq<char>) -> Seq<Seq<char>>
    decreases s.len(),
    via words_decreases
{
    if s.len() == 0 {
        Seq::empty()
    } else if is_blank(s[0]) {
        words(s.skip(1))
    } else {
        seq![s.take(word_len(s) as int)] + words(s.skip(word_len(s) as int))
    }
}

proof fn word_len_fits(s: Seq<char>)
    ensures
        word_len(s) <= s.len(),
    decreases s.len(),
{
    if s.len() > 0 {
        word_len_fits(s.skip(1));
    }
}

#[via_fn]
proof fn words_decreases(s: Seq<char>) {
    word_len_fits(s);
}

fn is_blank_char(c: char) -> (r: bool)
    ensures
        r == is_blank(c),
{
    c == ' ' || c == '\t' || c == '\n' || c == '\u{c}' || c == '\r'
}

/// Computes [`words`].
pub fn split_words(s: &[char]) -> (out: Vec<String>)
    ensures
        texts(out@) == words(s@),
{
    let mut out: Vec<String> = Vec::new();
    let mut rest: &[char] = s;
    assert(texts(out@) + words(rest@) =~= words(s@));
    while rest.len() > 0
        invariant
            texts(out@) + words(rest@) == words(s@),
        decreases rest@.len(),
    {
        let ghost before = rest@;
        if is_blank_char(rest[0]) {
            rest = skip_chars(rest, 1);
        } else {
            let mut n: usize = 0;
            assert(rest@.skip(0) =~= rest@);
            while n < rest.len() && !is_blank_char(rest[n])
                invariant
                    n <= rest@.len(),
                    word_len(rest@) == n + word_len(rest@.skip(n as int)),
                decreases rest@.len() - n,
            {
                assert(rest@.skip(n as int).skip(1) =~= rest@.skip(n + 1));
                n = n + 1;
            }
            let word = string_of(take_chars(rest, n));
            let ghost had = out@;
            let ghost shown = word@;
            out.push(word);
            rest = skip_chars(rest, n);
            proof {
                assert(words(before) == seq![shown] + words(rest@));
                assert(texts(out@) =~= texts(had).push(shown));
                assert(texts(out@) + words(rest@) =~= texts(had) + words(before));
            }
        }
    }
    assert(texts(out@) + words(rest@) =~= texts(out@));
    out
}

// ---------------------------------------------------------------------
// Trimming and letter case
// ---------------------------------------------------------------------

/// The Unicode property White_Space.
pub open spec fn is_white(c: char) -> bool {
    ||| '\u{9}' <= c <= '\u{d}'
    ||| c == ' '
    ||| c == '\u{85}'
    ||| c == '\u{a0}'
    ||| c == '\u{1680}'
    ||| '\u{2000}' <= c <= '\u{200a}'
    ||| c == '\u{2028}'
    ||| c == '\u{2029}'
    ||| c == '\u{202f}'
    ||| c == '\u{205f}'
    ||| c == '\u{3000}'
}

/// Decides [`is_white`].
pub fn is_whitespace(c: char) -> (r: bool)
    ensures
        r == is_white(c),
{
    ('\u{9}' <= c && c <= '\u{d}') || c == ' ' || c == '\u{85}' || c == '\u{a0}' || c == '\u{1680}'
        || ('\u{2000}' <= c && c <= '\u{200a}') || c == '\u{2028}' || c == '\u{2029}' || c
        == '\u{202f}' || c == '\u{205f}' || c == '\u{3000}'
}

/// `s` without its leading white space.
pub open spec fn trim_front(s: Seq<char>) -> Seq<char>
    decreases s.len(),
{
    if s.len() > 0 && is_white(s[0]) {
        trim_front(s.skip(1))
    } else {
        s
    }
}

/// `s` without its trailing white space.
pub open spec fn trim_back(s: Seq<char>) -> Seq<char>
    decreases s.len(),
{
    if s.len() > 0 && is_white(s.last()) {
        trim_back(s.drop_last())
    } else {
        s
    }
}

/// `s` without white space at either end.
pub open spec fn trimmed(s: Seq<char>) -> Seq<char> {
    trim_back(trim_front(s))
}

/// `s` without leading occurrences of `c`.
pub open spec fn strip_front(s: Seq<char>, c: char) -> Seq<char>
    decreases s.len(),
{
    if s.len() > 0 && s[0] == c {
        strip_front(s.skip(1), c)
    } else {
        s
    }
}

/// `s` without trailing occurrences of `c`.
pub open spec fn strip_back(s: Seq<char>, c: char) -> Seq<char>
    decreases s.len(),
{
    if s.len() > 0 && s.last() == c {
        strip_back(s.drop_last(), c)
    } else {
        s
    }
}

/// Computes [`trim_front`].
pub fn trim_start<'a>(s: &'a [char]) -> (r: &'a [char])
    ensures
        r@ == trim_front(s@),
{
    let mut rest: &'a [char] = s;
    while rest.len() > 0 && is_whitespace(rest[0])
        invariant
            trim_front(rest@) == trim_front(s@),
        decreases rest@.len(),
    {
        rest = skip_chars(rest, 1);
    }
    rest
}

/// Computes [`trim_back`].
pub fn trim_end<'a>(s: &'a [char]) -> (r: &'a [char])
    ensures
        r@ == trim_back(s@),
{
    let mut rest: &'a [char] = s;
    while rest.len() > 0 && is_whitespace(rest[rest.len() - 1])
        invariant
            trim_back(rest@) == trim_back(s@),
        decreases rest@.len(),
    {
        assert(rest@.take(rest@.len() - 1) =~= rest@.drop_last());
        rest = take_chars(rest, rest.len() - 1);
    }
    rest
}

/// Computes [`trimmed`].
pub fn trim<'a>(s: &'a [char]) -> (r: &'a [char])
    ensures
        r@ == trimmed(s@),
{
    trim_end(trim_start(s))
}

/// Computes [`strip_front`].
pub fn trim_start_matches<'a>(s: &'a [char], c: char) -> (r: &'a [char])
    ensures
        r@ == strip_front(s@, c),
{
    let mut rest: &'a [char] = s;
    while rest.len() > 0 && rest[0] == c
        invariant
            strip_front(rest@, c) == strip_front(s@, c),
        decreases rest@.len(),
    {
        rest = skip_chars(rest, 1);
    }
    rest
}

/// Computes [`strip_back`].
pub fn trim_end_matches<'a>(s: &'a [char], c: char) -> (r: &'a [char])
    ensures
        r@ == strip_back(s@, c),
{
    let mut rest: &'a [char] = s;
    while rest.len() > 0 && rest[rest.len() - 1] == c
        invariant
            strip_back(rest@, c) == strip_back(s@, c),
        decreases rest@.len(),
    {
        assert(rest@.take(rest@.len() - 1) =~= rest@.drop_last());
        rest = take_chars(rest, rest.len() - 1);
    }
    rest
}

/// The ASCII letter in lower case; any other character unchanged.
pub open spec fn lower_char(c: char) -> char {
    if 'A' <= c <= 'Z' {
        (c as u8 + 32) as char
    } else {
        c
    }
}

/// `s` with its ASCII letters in lower case.
pub open spec fn ascii_lower(s: Seq<char>) -> Seq<char> {
    s.map_values(|c: char| lower_char(c))
}

/// Computes [`lower_char`].
pub fn to_lower_char(c: char) -> (r: char)
    ensures
        r == lower_char(c),
{
    if 'A' <= c && c <= 'Z' {
        (c as u8 + 32) as char
    } else {
        c
    }
}

/// Computes [`ascii_lower`].
pub fn to_ascii_lower(s: &[char]) -> (r: Vec<char>)
    ensures
        r@ == ascii_lower(s@),
{
    let mut out: Vec<char> = Vec::new();
    let mut i: usize = 0;
    while i < s.len()
        invariant
            i <= s@.len(),
            out@ == ascii_lower(s@.take(i as int)),
        decreases s@.len() - i,
    {
        out.push(to_lower_char(s[i]));
        proof {
            assert(ascii_lower(s@.take(i as int)).push(lower_char(s@[i as int])) =~= ascii_lower(
                s@.take(i + 1),
            ));
        }
        i = i + 1;
    }
    assert(s@.take(s@.len() as int) =~= s@);
    out
}

/// What `str::to_lowercase` returns: `s` in lower case by the Unicode rules.
pub uninterp spec fn unicode_lower(s: Seq<char>) -> Seq<char>;

/// `str::to_lowercase`: the text in lower case by the Unicode rules. Of a text
/// in ASCII it changes the letters `A` to `Z` alone.
pub assume_specification[ str::to_lowercase ](s: &str) -> (r: String)
    ensures
        r@ == unicode_lower(s@),
        vstd::utf8::is_ascii_chars(s@) ==> r@ == ascii_lower(s@),
;

/// The ASCII letter in upper case; any other character unchanged.
pub open spec fn upper_char(c: char) -> char {
    if 'a' <= c <= 'z' {
        (c as u8 - 32) as char
    } else {
        c
    }
}

/// `s` with its ASCII letters in upper case.
pub open spec fn ascii_upper(s: Seq<char>) -> Seq<char> {
    s.map_values(|c: char| upper_char(c))
}

/// What `str::to_uppercase` returns: `s` in upper case by the Unicode rules.
pub uninterp spec fn unicode_upper(s: Seq<char>) -> Seq<char>;

/// `str::to_uppercase`: the text in upper case by the Unicode rules. Of a text
/// in ASCII it changes the letters `a` to `z` alone.
pub assume_specification[ str::to_uppercase ](s: &str) -> (r: String)
    ensures
        r@ == unicode_upper(s@),
        vstd::utf8::is_ascii_chars(s@) ==> r@ == ascii_upper(s@),
;

/// What `String::from_utf8_lossy` returns: the text that the bytes encode,
/// with a replacement character for each part that is not UTF-8.
pub uninterp spec fn utf8_lossy(bytes: Seq<u8>) -> Seq<char>;

/// `String::from_utf8_lossy`: the text that the bytes encode. Bytes that are
/// UTF-8 throughout are decoded as they stand; each invalid part of others
/// becomes a replacement character.
#[verifier::external_body]
pub(crate) fn lossy_text(bytes: &[u8]) -> (r: String)
    ensures
        r@ == utf8_lossy(bytes@),
        vstd::utf8::valid_utf8(bytes@) ==> r@ == vstd::utf8::decode_utf8(bytes@),
{
    String::from_utf8_lossy(bytes).into_owned()
}

/// `String::from_utf8`: the text that the bytes encode, if they are UTF-8.
#[verifier::external_body]
pub(crate) fn utf8_text(bytes: Vec<u8>) -> (r: Option<String>)
    ensures
        match r {
            Some(s) => vstd::utf8::valid_utf8(bytes@) && s@ == vstd::utf8::decode_utf8(bytes@),
            None => !vstd::utf8::valid_utf8(bytes@),
        },
{
    String::from_utf8(bytes).ok()
}

/// The UTF-8 bytes of a text.
pub fn bytes_of(s: &str) -> (r: Vec<u8>)
    ensures
        r@ == vstd::utf8::encode_utf8(s@),
{
    vstd::slice::slice_to_vec(s.as_bytes())
}

/// Appends bytes.
pub fn push_bytes(out: &mut Vec<u8>, more: &[u8])
    ensures
        final(out)@ == old(out)@ + more@,
{
    let mut i: usize = 0;
    assert(out@ =~= old(out)@ + more@.take(0));
    while i < more.len()
        invariant
            i <= more@.len(),
            out@ == old(out)@ + more@.take(i as int),
        decreases more@.len() - i,
    {
        out.push(more[i]);
        assert(out@ =~= old(out)@ + more@.take(i + 1));
        i = i + 1;
    }
    assert(more@.take(more@.len() as int) =~= more@);
}

// ---------------------------------------------------------------------
// Joining
// ---------------------------------------------------------------------

/// The parts with `sep` between them.
pub open spec fn joined(parts: Seq<Seq<char>>, sep: Seq<char>) -> Seq<char>
    decreases parts.len(),
{
    if parts.len() == 0 {
        Seq::empty()
    } else if parts.len() == 1 {
        parts[0]
    } else {
        joined(parts.drop_last(), sep) + sep + parts.last()
    }
}

/// Computes [`joined`].
pub fn join(parts: &[String], sep: &str) -> (r: String)
    ensures
        r@ == joined(texts(parts@), sep@),
{
    let mut out = String::new();
    let mut i: usize = 0;
    while i < parts.len()
        invariant
            i <= parts@.len(),
            out@ == joined(texts(parts@.take(i as int)), sep@),
        decreases parts@.len() - i,
    {
        if i > 0 {
            out.append(sep);
        }
        out.append(parts[i].as_str());
        proof {
            let shorter = texts(parts@.take(i as int));
            let longer = texts(parts@.take(i + 1));
            assert(longer.drop_last() =~= shorter);
            assert(longer.last() == parts@[i as int]@);
            if i == 0 {
                assert(out@ =~= longer[0]);
            }
        }
        i = i + 1;
    }
    assert(parts@.take(parts@.len() as int) =~= parts@);
    out
}

/// Two texts, one after the other.
pub fn concatenate(a: &str, b: &str) -> (r: String)
    ensures
        r@ == a@ + b@,
{
    let mut out = a.to_owned();
    out.append(b);
    out
}

// ---------------------------------------------------------------------
// Laws
// ---------------------------------------------------------------------

/// Splitting at the first separator gives back what was put before and
/// after it.
pub proof fn cut_first_rejoins(a: Seq<char>, c: char, b: Seq<char>)
    requires
        !a.contains(c),
    ensures
        cut_first(a + seq![c] + b, c) == Some((a, b)),
{
    let s = a + seq![c] + b;
    s.index_of_first_ensures(c);
    assert(s[a.len() as int] == c);
    assert(s.contains(c));
    let i = s.index_of_first(c)->0;
    if i < a.len() {
        assert(a[i] == c);
    }
    assert(s.take(a.len() as int) =~= a);
    assert(s.skip(a.len() as int + 1) =~= b);
}

/// Splitting at the last separator gives back what was put before and after
/// it.
pub proof fn cut_last_rejoins(a: Seq<char>, c: char, b: Seq<char>)
    requires
        !b.contains(c),
    ensures
        cut_last(a + seq![c] + b, c) == Some((a, b)),
{
    let s = a + seq![c] + b;
    s.index_of_last_ensures(c);
    assert(s[a.len() as int] == c);
    assert(s.contains(c));
    let i = s.index_of_last(c)->0;
    if i > a.len() {
        assert(b[i - a.len() - 1] == c);
    }
    assert(s.take(a.len() as int) =~= a);
    assert(s.skip(a.len() as int + 1) =~= b);
}

/// A text without the separator cannot be split.
pub proof fn cut_needs_separator(s: Seq<char>, c: char)
    requires
        !s.contains(c),
    ensures
        cut_first(s, c) is None,
        cut_last(s, c) is None,
{
    s.index_of_first_ensures(c);
    s.index_of_last_ensures(c);
}

/// A joined list is its first part, the separator and the joined rest.
pub proof fn joined_unfolds(parts: Seq<Seq<char>>, sep: Seq<char>)
    requires
        parts.len() >= 2,
    ensures
        joined(parts, sep) == parts[0] + sep + joined(parts.skip(1), sep),
    decreases parts.len(),
{
    if parts.len() == 2 {
        reveal_with_fuel(joined, 2);
        assert(parts.drop_last()[0] == parts[0]);
        assert(parts.skip(1)[0] == parts[1]);
    } else {
        joined_unfolds(parts.drop_last(), sep);
        assert(parts.drop_last().skip(1) =~= parts.skip(1).drop_last());
        assert(parts.skip(1).last() == parts.last());
        assert(joined(parts.skip(1), sep) == joined(parts.skip(1).drop_last(), sep) + sep
            + parts.last());
        assert(joined(parts, sep) == joined(parts.drop_last(), sep) + sep + parts.last());
        assert(joined(parts, sep) =~= parts[0] + sep + joined(parts.skip(1), sep));
    }
}

/// Splitting a list that was joined with a separator gives back the list,
/// unless it is empty or a part holds the separator.
pub proof fn pieces_of_joined(parts: Seq<Seq<char>>, c: char)
    requires
        parts.len() > 0,
        forall|i: int| 0 <= i < parts.len() ==> !(#[trigger] parts[i]).contains(c),
    ensures
        pieces(joined(parts, seq![c]), c) == parts,
    decreases parts.len(),
{
    if parts.len() == 1 {
        cut_needs_separator(parts[0], c);
        assert(parts =~= seq![parts[0]]);
    } else {
        joined_unfolds(parts, seq![c]);
        let rest = parts.skip(1);
        assert forall|i: int| 0 <= i < rest.len() implies !(#[trigger] rest[i]).contains(c) by {
            assert(rest[i] == parts[i + 1]);
        }
        pieces_of_joined(rest, c);
        assert(!parts[0].contains(c));
        cut_first_rejoins(parts[0], c, joined(rest, seq![c]));
        assert(seq![parts[0]] + rest =~= parts);
    }
}

/// Trimming leaves a text alone that has no white space at either end.
pub proof fn trimmed_keeps(s: Seq<char>)
    requires
        s.len() > 0 ==> !is_white(s[0]) && !is_white(s.last()),
    ensures
        trimmed(s) == s,
{
}

/// White space at either end makes no difference to a trimmed text. Blank, tab
/// and line ends are white space, and no visible ASCII character is.
pub proof fn trimming_drops_white_space(s: Seq<char>, w: char, c: char)
    requires
        is_white(w),
        '!' <= c <= '~',
    ensures
        trimmed(seq![w] + s) == trimmed(s),
        trimmed(s.push(w)) == trimmed(s),
        trim_back(s.push(w)) == trim_back(s),
        trim_back(s.push(c)) == s.push(c),
        trim_front(seq![c] + s) == seq![c] + s,
        !is_white(c),
        is_white(' ') && is_white('\t') && is_white('\n') && is_white('\r'),
    decreases s.len(),
{
    assert((seq![w] + s).skip(1) =~= s);
    assert(s.push(w).drop_last() =~= s);
    if s.len() == 0 {
        assert(s.push(w) =~= seq![w] + s);
        assert(trim_front(s.push(w)) =~= trim_front(s));
    } else if is_white(s[0]) {
        trimming_drops_white_space(s.skip(1), w, c);
        assert(s.push(w).skip(1) =~= s.skip(1).push(w));
        assert(s =~= seq![s[0]] + s.skip(1));
        assert(trim_front(s) == trim_front(s.skip(1)));
        assert(s.push(w)[0] == s[0]);
        assert(trim_front(s.push(w)) == trim_front(s.skip(1).push(w)));
    } else {
        assert(s.push(w)[0] == s[0]);
        assert(trim_front(s.push(w)) == s.push(w));
        assert(trim_front(s) == s);
    }
}

/// Lower case changes the letters `A` to `Z` into `a` to `z`, each in its place,
/// and nothing else; upper case the other way round.
pub proof fn letter_case_keeps_places(s: Seq<char>, i: int)
    requires
        0 <= i < s.len(),
    ensures
        ascii_lower(s).len() == s.len(),
        ascii_upper(s).len() == s.len(),
        'A' <= s[i] <= 'Z' ==> ascii_lower(s)[i] as u32 == s[i] as u32 + 32,
        !('A' <= s[i] <= 'Z') ==> ascii_lower(s)[i] == s[i],
        'a' <= s[i] <= 'z' ==> ascii_upper(s)[i] as u32 == s[i] as u32 - 32,
        !('a' <= s[i] <= 'z') ==> ascii_upper(s)[i] == s[i],
{
}

/// Joined parts stand in order with the separator between each two.
pub proof fn joining_keeps_order(parts: Seq<Seq<char>>, last: Seq<char>, sep: Seq<char>)
    ensures
        joined(Seq::empty(), sep) == Seq::<char>::empty(),
        joined(seq![last], sep) == last,
        parts.len() > 0 ==> joined(parts.push(last), sep) == joined(parts, sep) + sep + last,
    decreases parts.len(),
{
    reveal_with_fuel(joined, 2);
    assert(seq![last].drop_last() =~= Seq::<Seq<char>>::empty());
    assert(parts.push(last).drop_last() =~= parts);
    assert(parts.push(last).last() == last);
}

/// The words of a text are its runs without blanks, in order: one at the front
/// is the first, and blanks between and around them do not count.
pub proof fn words_stand_in_order(word: Seq<char>, blank: char, rest: Seq<char>)
    requires
        word.len() > 0,
        forall|i: int| 0 <= i < word.len() ==> !is_blank(#[trigger] word[i]),
        blank == ' ' || blank == '\t',
    ensures
        words(word + seq![blank] + rest) == seq![word] + words(rest),
        words(seq![blank] + rest) == words(rest),
        words(word) == seq![word],
        words(Seq::empty()) == Seq::<Seq<char>>::empty(),
{
    reveal_with_fuel(words, 3);
    let s = word + seq![blank] + rest;
    word_len_is(word, seq![blank] + rest);
    assert(s =~= word + (seq![blank] + rest));
    let n = word.len() as int;
    assert(s[0] == word[0]);
    assert(!is_blank(word[0]));
    assert(s.take(n) =~= word);
    assert(s.skip(n) =~= seq![blank] + rest);
    assert((seq![blank] + rest).skip(1) =~= rest);
    word_len_is(word, Seq::empty());
    assert(word + Seq::<char>::empty() =~= word);
    assert(word.take(n) =~= word);
    assert(word.skip(n) =~= Seq::<char>::empty());
    assert(words(word) =~= seq![word]);
}

proof fn word_len_is(word: Seq<char>, rest: Seq<char>)
    requires
        forall|i: int| 0 <= i < word.len() ==> !is_blank(#[trigger] word[i]),
        rest.len() > 0 ==> is_blank(rest[0]),
    ensures
        word_len(word + rest) == word.len(),
    decreases word.len(),
{
    let s = word + rest;
    if word.len() > 0 {
        let shorter = word.skip(1);
        assert forall|i: int| 0 <= i < shorter.len() implies !is_blank(#[trigger] shorter[i]) by {
            assert(shorter[i] == word[i + 1]);
        }
        word_len_is(shorter, rest);
        assert(s.skip(1) =~= shorter + rest);
        assert(s[0] == word[0]);
    } else {
        assert(s =~= rest);
    }
}

/// A text stands in another just if something can be put before and after it to
/// make the other; it stands at the front, or at the end, just if nothing has to
/// be put there.
pub proof fn texts_stand_in_texts(a: Seq<char>, p: Seq<char>, b: Seq<char>, s: Seq<char>)
    ensures
        has_text(a + p + b, p),
        begins_with(p + b, p),
        finishes_with(a + p, p),
        has_text(s, p) ==> exists|i: int|
            0 <= i && i + p.len() <= s.len() && s == s.take(i) + p + #[trigger] s.skip(
                i + p.len(),
            ),
        begins_with(s, p) ==> s == p + s.skip(p.len() as int),
        finishes_with(s, p) ==> s == s.take(s.len() - p.len()) + p,
{
    let n = a.len() as int;
    assert((a + p + b).subrange(n, n + p.len()) =~= p);
    assert(stands_at(a + p + b, p, n));
    assert((p + b).take(p.len() as int) =~= p);
    assert((a + p).skip(n) =~= p);
    if has_text(s, p) {
        let i = choose|i: int| stands_at(s, p, i);
        assert(s =~= s.take(i) + s.subrange(i, i + p.len()) + s.skip(i + p.len()));
    }
    if begins_with(s, p) {
        assert(s =~= s.take(p.len() as int) + s.skip(p.len() as int));
    }
    if finishes_with(s, p) {
        assert(s =~= s.take(s.len() - p.len()) + s.skip(s.len() - p.len()));
    }
}

} // verus!
