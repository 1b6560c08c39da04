//! IP addresses as text and as bytes.

use vstd::prelude::*;
use vstd::string::*;

use crate::number::{all_digits, decimal, digits_value, is_digit, number_u8, parse_number, parse_u8};
use crate::text::{
    chars_of, pieces, skip_chars, split_all, strip_back, strip_front, take_chars,
    trim_end_matches, trim_start_matches,
};

verus! {

broadcast use vstd::string::group_string_axioms;

// ---------------------------------------------------------------------
// IPv4
// ---------------------------------------------------------------------

/// Four numbers of at most 255 with dots between them.
pub open spec fn ipv4(s: Seq<char>) -> Option<Seq<u8>> {
    let parts = pieces(s, '.');
    if parts.len() == 4 && forall|i: int| 0 <= i < 4 ==> number_u8(#[trigger] parts[i]) is Some {
        Some(Seq::new(4, |i: int| number_u8(parts[i])->0))
    } else {
        None
    }
}

/// Reads a dotted address; see [`ipv4`].
pub fn try_parse_ipv4(addr: &str) -> (r: Option<[u8; 4]>)
    ensures
        match r {
            Some(o) => ipv4(addr@) == Some(o@),
            None => ipv4(addr@) is None,
        },
{
    let all = chars_of(addr);
    let parts = split_all(all.as_slice(), '.');
    let ghost p = pieces(addr@, '.');
    proof {
        crate::text::piece_index(parts@, p);
    }
    if parts.len() != 4 {
        return None;
    }
    let a = match parse_u8(parts[0].as_slice()) {
        Some(n) => n,
        None => {
            assert(number_u8(p[0]) is None);
            return None;
        },
    };
    let b = match parse_u8(parts[1].as_slice()) {
        Some(n) => n,
        None => {
            assert(number_u8(p[1]) is None);
            return None;
        },
    };
    let c = match parse_u8(parts[2].as_slice()) {
        Some(n) => n,
        None => {
            assert(number_u8(p[2]) is None);
            return None;
        },
    };
    let d = match parse_u8(parts[3].as_slice()) {
        Some(n) => n,
        None => {
            assert(number_u8(p[3]) is None);
            return None;
        },
    };
    let r: [u8; 4] = [a, b, c, d];
    assert(r@ =~= Seq::new(4, |i: int| number_u8(p[i])->0));
    Some(r)
}

/// The dotted form of an address.
pub open spec fn ipv4_text(o: Seq<u8>) -> Seq<char> {
    decimal(o[0] as nat) + seq!['.'] + decimal(o[1] as nat) + seq!['.'] + decimal(o[2] as nat)
        + seq!['.'] + decimal(o[3] as nat)
}

/// Appends the dotted form of an address.
pub fn push_ipv4(out: &mut String, a: u8, b: u8, c: u8, d: u8)
    ensures
        final(out)@ == old(out)@ + ipv4_text(seq![a, b, c, d]),
{
    crate::number::push_decimal(out, a as u64);
    out.push('.');
    crate::number::push_decimal(out, b as u64);
    out.push('.');
    crate::number::push_decimal(out, c as u64);
    out.push('.');
    crate::number::push_decimal(out, d as u64);
    assert(out@ =~= old(out)@ + ipv4_text(seq![a, b, c, d]));
}

// ---------------------------------------------------------------------
// IPv6: reading
// ---------------------------------------------------------------------

/// The value of a hexadecimal digit in either case.
pub open spec fn hex_value(c: char) -> Option<nat> {
    if '0' <= c <= '9' {
        Some((c as u32 - '0' as u32) as nat)
    } else if 'a' <= c <= 'f' {
        Some((c as u32 - 'a' as u32 + 10) as nat)
    } else if 'A' <= c <= 'F' {
        Some((c as u32 - 'A' as u32 + 10) as nat)
    } else {
        None
    }
}

/// The number that a run of hexadecimal digits denotes.
pub open spec fn hex_digits_value(s: Seq<char>) -> nat
    decreases s.len(),
{
    if s.len() == 0 {
        0
    } else {
        16 * hex_digits_value(s.drop_last()) + hex_value(s.last())->0
    }
}

/// Whether every character is a hexadecimal digit.
pub open spec fn all_hex(s: Seq<char>) -> bool {
    forall|i: int| 0 <= i < s.len() ==> hex_value(#[trigger] s[i]) is Some
}

/// A group of an IPv6 address: one to four hexadecimal digits.
pub open spec fn hex_group(s: Seq<char>) -> Option<u16> {
    if 1 <= s.len() <= 4 && all_hex(s) {
        Some(hex_digits_value(s) as u16)
    } else {
        None
    }
}

/// One number of a dotted quad inside an IPv6 address: up to three digits,
/// at most 255, without leading zeros.
pub open spec fn strict_octet(s: Seq<char>) -> Option<u8> {
    if 1 <= s.len() <= 3 && all_digits(s) && digits_value(s) <= 255 && (s.len() > 1 ==> s[0]
        != '0') {
        Some(digits_value(s) as u8)
    } else {
        None
    }
}

/// A dotted quad inside an IPv6 address, as two groups.
pub open spec fn quad_groups(s: Seq<char>) -> Option<Seq<u16>> {
    let parts = pieces(s, '.');
    if parts.len() == 4 && forall|i: int|
        0 <= i < 4 ==> strict_octet(#[trigger] parts[i]) is Some {
        Some(
            seq![
                ((strict_octet(parts[0])->0) * 256 + (strict_octet(parts[1])->0)) as u16,
                ((strict_octet(parts[2])->0) * 256 + (strict_octet(parts[3])->0)) as u16,
            ],
        )
    } else {
        None
    }
}

/// Groups read from pieces, the first `n` of them; each is one group.
pub open spec fn plain_groups(parts: Seq<Seq<char>>, n: int) -> Option<Seq<u16>> {
    if forall|i: int| 0 <= i < n ==> hex_group(#[trigger] parts[i]) is Some {
        Some(Seq::new(n as nat, |i: int| hex_group(parts[i])->0))
    } else {
        None
    }
}

/// Groups with colons between them; where `quad` is set the last may be a
/// dotted quad, which makes two groups. The empty text has no groups.
pub open spec fn group_list(s: Seq<char>, quad: bool) -> Option<Seq<u16>> {
    if s.len() == 0 {
        Some(Seq::empty())
    } else {
        let parts = pieces(s, ':');
        let n = parts.len() - 1;
        match plain_groups(parts, n) {
            None => None,
            Some(front) => match hex_group(parts[n]) {
                Some(g) => Some(front.push(g)),
                None => if quad {
                    match quad_groups(parts[n]) {
                        Some(q) => Some(front + q),
                        None => None,
                    }
                } else {
                    None
                },
            },
        }
    }
}

/// Whether `::` stands at `i` and nowhere before.
pub open spec fn first_gap(s: Seq<char>, i: int) -> bool {
    &&& 0 <= i
    &&& i + 1 < s.len()
    &&& s[i] == ':'
    &&& s[i + 1] == ':'
    &&& forall|j: int| 0 <= j < i ==> !(s[j] == ':' && #[trigger] s[j + 1] == ':')
}

/// Whether `::` stands anywhere.
pub open spec fn has_gap(s: Seq<char>) -> bool {
    exists|i: int| first_gap(s, i)
}

/// Head and tail with as many zero groups between them as make eight.
pub open spec fn fill_gap(head: Seq<u16>, tail: Seq<u16>) -> Seq<u16> {
    head + Seq::new((8 - head.len() - tail.len()) as nat, |i: int| 0u16) + tail
}

/// The eight groups of an IPv6 address as text: all eight, or fewer with one
/// `::` that stands for at least one zero group. The last two may be written
/// as a dotted quad.
pub open spec fn ipv6_groups(s: Seq<char>) -> Option<Seq<u16>> {
    if has_gap(s) {
        let i = choose|i: int| first_gap(s, i);
        match (group_list(s.take(i), false), group_list(s.skip(i + 2), true)) {
            (Some(head), Some(tail)) => if head.len() + tail.len() <= 7 {
                Some(fill_gap(head, tail))
            } else {
                None
            },
            _ => None,
        }
    } else {
        match group_list(s, true) {
            Some(g) => if g.len() == 8 {
                Some(g)
            } else {
                None
            },
            None => None,
        }
    }
}

/// The bytes of the groups, high byte first.
pub open spec fn group_bytes(g: Seq<u16>) -> Seq<u8> {
    Seq::new(
        2 * g.len(),
        |i: int| if i % 2 == 0 { (g[i / 2] / 256) as u8 } else { (g[i / 2] % 256) as u8 },
    )
}

/// An IPv6 address, with or without brackets, as its sixteen bytes.
pub open spec fn ipv6(s: Seq<char>) -> Option<Seq<u8>> {
    match ipv6_groups(strip_back(strip_front(s, '['), ']')) {
        Some(g) => Some(group_bytes(g)),
        None => None,
    }
}

fn parse_hex_value(c: char) -> (r: Option<u16>)
    ensures
        match r {
            Some(v) => hex_value(c) == Some(v as nat) && v < 16,
            None => hex_value(c) is None,
        },
{
    if '0' <= c && c <= '9' {
        Some((c as u32 - '0' as u32) as u16)
    } else if 'a' <= c && c <= 'f' {
        Some((c as u32 - 'a' as u32 + 10) as u16)
    } else if 'A' <= c && c <= 'F' {
        Some((c as u32 - 'A' as u32 + 10) as u16)
    } else {
        None
    }
}

spec fn pow16(n: nat) -> nat
    decreases n,
{
    if n == 0 {
        1
    } else {
        16 * pow16((n - 1) as nat)
    }
}

fn parse_hex_group(s: &[char]) -> (r: Option<u16>)
    ensures
        r == hex_group(s@),
{
    if s.len() == 0 || s.len() > 4 {
        return None;
    }
    let mut value: u16 = 0;
    let mut i: usize = 0;
    proof {
        reveal_with_fuel(pow16, 5);
    }
    while i < s.len()
        invariant
            i <= s@.len() <= 4,
            all_hex(s@.take(i as int)),
            value == hex_digits_value(s@.take(i as int)),
            value < pow16(i as nat),
            pow16(0) == 1,
            pow16(1) == 16,
            pow16(2) == 256,
            pow16(3) == 4096,
            pow16(4) == 65536,
        decreases s@.len() - i,
    {
        proof {
            assert(s@.take(i + 1).drop_last() =~= s@.take(i as int));
        }
        match parse_hex_value(s[i]) {
            Some(v) => {
                assert(i == 0 || i == 1 || i == 2 || i == 3);
                value = value * 16 + v;
            },
            None => {
                assert(hex_value(s@[i as int]) is None);
                return None;
            },
        }
        i = i + 1;
    }
    assert(s@.take(s@.len() as int) =~= s@);
    Some(value)
}

fn parse_strict_octet(s: &[char]) -> (r: Option<u8>)
    ensures
        r == strict_octet(s@),
{
    if s.len() == 0 || s.len() > 3 {
        return None;
    }
    if s[0] == '+' || (s.len() > 1 && s[0] == '0') {
        assert(s@[0] == '+' ==> !is_digit(s@[0]));
        return None;
    }
    match parse_number(s, 255) {
        Some(n) => Some(n as u8),
        None => None,
    }
}

fn parse_quad_groups(s: &[char]) -> (r: Option<(u16, u16)>)
    ensures
        match r {
            Some((a, b)) => quad_groups(s@) == Some(seq![a, b]),
            None => quad_groups(s@) is None,
        },
{
    let parts = split_all(s, '.');
    let ghost p = pieces(s@, '.');
    proof {
        crate::text::piece_index(parts@, p);
    }
    if parts.len() != 4 {
        return None;
    }
    assert(p[0] == parts@[0]@ && p[1] == parts@[1]@ && p[2] == parts@[2]@ && p[3] == parts@[3]@);
    match (
        parse_strict_octet(parts[0].as_slice()),
        parse_strict_octet(parts[1].as_slice()),
        parse_strict_octet(parts[2].as_slice()),
        parse_strict_octet(parts[3].as_slice()),
    ) {
        (Some(a), Some(b), Some(c), Some(d)) => {
            let x: u16 = (a as u16) * 256 + b as u16;
            let y: u16 = (c as u16) * 256 + d as u16;
            Some((x, y))
        },
        _ => None,
    }
}

fn parse_group_list(s: &[char], quad: bool) -> (r: Option<Vec<u16>>)
    ensures
        match r {
            Some(g) => group_list(s@, quad) == Some(g@),
            None => group_list(s@, quad) is None,
        },
{
    let mut out: Vec<u16> = Vec::new();
    if s.len() == 0 {
        return Some(out);
    }
    let parts = split_all(s, ':');
    let ghost p = pieces(s@, ':');
    proof {
        crate::text::piece_index(parts@, p);
        assert(p.len() > 0);
    }
    let n: usize = parts.len() - 1;
    let mut i: usize = 0;
    while i < n
        invariant
            i <= n,
            n == parts@.len() - 1,
            parts@.len() == p.len(),
            p == pieces(s@, ':'),
            s@.len() > 0,
            forall|j: int| 0 <= j < parts@.len() ==> parts@[j]@ == #[trigger] p[j],
            out@.len() == i,
            forall|j: int| 0 <= j < i ==> hex_group(#[trigger] p[j]) == Some(out@[j]),
        decreases n - i,
    {
        assert(parts@[i as int]@ == p[i as int]);
        match parse_hex_group(parts[i].as_slice()) {
            Some(g) => out.push(g),
            None => return None,
        }
        i = i + 1;
    }
    assert(parts@[n as int]@ == p[n as int]);
    let ghost front = out@;
    proof {
        assert(front =~= Seq::new(n as nat, |j: int| hex_group(p[j])->0));
        assert(plain_groups(p, n as int) == Some(front));
    }
    match parse_hex_group(parts[n].as_slice()) {
        Some(g) => {
            out.push(g);
            Some(out)
        },
        None => {
            if !quad {
                return None;
            }
            match parse_quad_groups(parts[n].as_slice()) {
                Some((a, b)) => {
                    out.push(a);
                    out.push(b);
                    assert(out@ =~= front + seq![a, b]);
                    Some(out)
                },
                None => None,
            }
        },
    }
}

fn find_gap(s: &[char]) -> (r: Option<usize>)
    ensures
        match r {
            Some(i) => first_gap(s@, i as int),
            None => !has_gap(s@),
        },
{
    let mut i: usize = 0;
    while i < s.len() && s.len() - i >= 2
        invariant
            i <= s@.len(),
            forall|j: int|
                0 <= j < i && j + 1 < s@.len() ==> !(s@[j] == ':' && #[trigger] s@[j + 1] == ':'),
        decreases s@.len() - i,
    {
        if s[i] == ':' && s[i + 1] == ':' {
            return Some(i);
        }
        i = i + 1;
    }
    None
}

proof fn first_gap_unique(s: Seq<char>, i: int, j: int)
    requires
        first_gap(s, i),
        first_gap(s, j),
    ensures
        i == j,
{
    if i < j {
        assert(s[i + 1] == ':');
    } else if j < i {
        assert(s[j + 1] == ':');
    }
}

fn parse_ipv6_groups(s: &[char]) -> (r: Option<Vec<u16>>)
    ensures
        match r {
            Some(g) => ipv6_groups(s@) == Some(g@) && g@.len() == 8,
            None => ipv6_groups(s@) is None,
        },
{
    assert(s.len() <= usize::MAX);
    match find_gap(s) {
        Some(i) => {
            proof {
                first_gap_unique(s@, i as int, choose|k: int| first_gap(s@, k));
            }
            let head = parse_group_list(take_chars(s, i), false);
            let tail = parse_group_list(skip_chars(s, i + 2), true);
            match (head, tail) {
                (Some(mut head), Some(tail)) => {
                    if head.len() > 7 || tail.len() > 7 - head.len() {
                        return None;
                    }
                    let ghost front = head@;
                    let zeros: usize = 8 - head.len() - tail.len();
                    let mut k: usize = 0;
                    while k < zeros
                        invariant
                            k <= zeros,
                            zeros == 8 - front.len() - tail@.len(),
                            head@ == front + Seq::new(k as nat, |x: int| 0u16),
                        decreases zeros - k,
                    {
                        head.push(0);
                        assert(head@ =~= front + Seq::new((k + 1) as nat, |x: int| 0u16));
                        k = k + 1;
                    }
                    let mut k: usize = 0;
                    while k < tail.len()
                        invariant
                            k <= tail@.len(),
                            zeros == 8 - front.len() - tail@.len(),
                            head@ == front + Seq::new(zeros as nat, |x: int| 0u16) + tail@.take(
                                k as int,
                            ),
                        decreases tail@.len() - k,
                    {
                        head.push(tail[k]);
                        assert(head@ =~= front + Seq::new(zeros as nat, |x: int| 0u16)
                            + tail@.take(k + 1));
                        k = k + 1;
                    }
                    assert(head@ =~= fill_gap(front, tail@));
                    Some(head)
                },
                _ => None,
            }
        },
        None => match parse_group_list(s, true) {
            Some(g) => if g.len() == 8 {
                Some(g)
            } else {
                None
            },
            None => None,
        },
    }
}

/// Reads an IPv6 address; see [`ipv6`].
pub fn try_parse_ipv6(addr: &str) -> (r: Option<[u8; 16]>)
    ensures
        match r {
            Some(o) => ipv6(addr@) == Some(o@),
            None => ipv6(addr@) is None,
        },
{
    let all = chars_of(addr);
    let bare = trim_end_matches(trim_start_matches(all.as_slice(), '['), ']');
    match parse_ipv6_groups(bare) {
        None => None,
        Some(g) => {
            let r: [u8; 16] = [
                (g[0] / 256) as u8,
                (g[0] % 256) as u8,
                (g[1] / 256) as u8,
                (g[1] % 256) as u8,
                (g[2] / 256) as u8,
                (g[2] % 256) as u8,
                (g[3] / 256) as u8,
                (g[3] % 256) as u8,
                (g[4] / 256) as u8,
                (g[4] % 256) as u8,
                (g[5] / 256) as u8,
                (g[5] % 256) as u8,
                (g[6] / 256) as u8,
                (g[6] % 256) as u8,
                (g[7] / 256) as u8,
                (g[7] % 256) as u8,
            ];
            assert(r@ =~= group_bytes(g@));
            Some(r)
        },
    }
}

// ---------------------------------------------------------------------
// IPv6: writing
// ---------------------------------------------------------------------

/// The hexadecimal digit of a value below sixteen.
pub open spec fn hex_char(d: nat) -> char {
    if d < 10 {
        ('0' as u32 + d) as char
    } else {
        ('a' as u32 + (d - 10)) as char
    }
}

/// A number in lower-case hexadecimal, without leading zeros.
pub open spec fn hex_text(n: nat) -> Seq<char>
    decreases n,
{
    if n < 16 {
        seq![hex_char(n)]
    } else {
        hex_text(n / 16).push(hex_char(n % 16))
    }
}

/// The groups in hexadecimal with colons between them.
pub open spec fn group_text(g: Seq<u16>) -> Seq<char> {
    crate::text::joined(g.map_values(|x: u16| hex_text(x as nat)), seq![':'])
}

/// How many zero groups stand from `i` on.
pub open spec fn zero_run(g: Seq<u16>, i: int) -> nat
    decreases g.len() - i,
{
    if 0 <= i < g.len() && g[i] == 0 {
        1 + zero_run(g, i + 1)
    } else {
        0
    }
}

/// The first of the starts below `n` with the longest run of zero groups.
pub open spec fn longest_zero_run(g: Seq<u16>, n: int) -> int
    decreases n,
{
    if n <= 0 {
        0
    } else {
        let best = longest_zero_run(g, n - 1);
        if zero_run(g, n - 1) > zero_run(g, best) {
            n - 1
        } else {
            best
        }
    }
}

/// An IPv6 address as text. Addresses that map an IPv4 address end in a
/// dotted quad; else the first longest run of two or more zero groups is
/// written as `::`.
pub open spec fn ipv6_text(g: Seq<u16>) -> Seq<char> {
    if g.take(6) == seq![0u16, 0, 0, 0, 0, 0xffff] {
        "::ffff:"@ + ipv4_text(group_bytes(g.skip(6)))
    } else {
        let start = longest_zero_run(g, g.len() as int);
        let len = zero_run(g, start);
        if len > 1 {
            group_text(g.take(start)) + "::"@ + group_text(g.skip(start + len))
        } else {
            group_text(g)
        }
    }
}

fn push_hex(out: &mut String, n: u16)
    ensures
        final(out)@ == old(out)@ + hex_text(n as nat),
    decreases n,
{
    if n >= 16 {
        push_hex(out, n / 16);
    }
    let d: u8 = (n % 16) as u8;
    out.push(if d < 10 { (48u8 + d) as char } else { (87u8 + d) as char });
    assert(out@ =~= old(out)@ + hex_text(n as nat));
}

fn push_groups(out: &mut String, g: &[u16])
    ensures
        final(out)@ == old(out)@ + group_text(g@),
{
    let ghost texts = g@.map_values(|x: u16| hex_text(x as nat));
    let mut i: usize = 0;
    assert(out@ =~= old(out)@ + crate::text::joined(texts.take(0), seq![':']));
    while i < g.len()
        invariant
            i <= g@.len(),
            texts == g@.map_values(|x: u16| hex_text(x as nat)),
            out@ == old(out)@ + crate::text::joined(texts.take(i as int), seq![':']),
        decreases g@.len() - i,
    {
        if i > 0 {
            out.push(':');
        }
        push_hex(out, g[i]);
        proof {
            assert(texts.take(i + 1).drop_last() =~= texts.take(i as int));
            assert(out@ =~= old(out)@ + crate::text::joined(texts.take(i + 1), seq![':']));
        }
        i = i + 1;
    }
    assert(texts.take(texts.len() as int) =~= texts);
}

fn run_length(g: &[u16], i: usize) -> (r: usize)
    requires
        i <= g@.len(),
    ensures
        r == zero_run(g@, i as int),
        i + r <= g@.len(),
    decreases g@.len() - i,
{
    if i < g.len() && g[i] == 0 {
        1 + run_length(g, i + 1)
    } else {
        0
    }
}

/// Writes the eight groups of an IPv6 address; see [`ipv6_text`].
pub fn format_ipv6(g: &[u16]) -> (r: String)
    requires
        g@.len() == 8,
    ensures
        r@ == ipv6_text(g@),
{
    let mut out = String::new();
    if g[0] == 0 && g[1] == 0 && g[2] == 0 && g[3] == 0 && g[4] == 0 && g[5] == 0xffff {
        assert(g@.take(6) =~= seq![0u16, 0, 0, 0, 0, 0xffff]);
        out.append("::ffff:");
        let ghost front = out@;
        let a: u8 = (g[6] / 256) as u8;
        let b: u8 = (g[6] % 256) as u8;
        let c: u8 = (g[7] / 256) as u8;
        let d: u8 = (g[7] % 256) as u8;
        push_ipv4(&mut out, a, b, c, d);
        assert(group_bytes(g@.skip(6)) =~= seq![a, b, c, d]);
        assert(front =~= "::ffff:"@);
        return out;
    }
    assert(g@.take(6) != seq![0u16, 0, 0, 0, 0, 0xffff]) by {
        let t = g@.take(6);
        let m = seq![0u16, 0, 0, 0, 0, 0xffff];
        if t == m {
            assert(t[0] == m[0] && t[1] == m[1] && t[2] == m[2] && t[3] == m[3] && t[4] == m[4]
                && t[5] == m[5]);
        }
    }
    let mut start: usize = 0;
    let mut len: usize = run_length(g, 0);
    let mut i: usize = 0;
    while i < 8
        invariant
            i <= 8,
            g@.len() == 8,
            start < 8,
            start == longest_zero_run(g@, i as int),
            len == zero_run(g@, start as int),
            start + len <= 8,
        decreases 8 - i,
    {
        let n: usize = run_length(g, i);
        if n > len {
            start = i;
            len = n;
        }
        i = i + 1;
    }
    if len > 1 {
        push_groups(&mut out, vstd::slice::slice_subrange(g, 0, start));
        out.append("::");
        push_groups(&mut out, vstd::slice::slice_subrange(g, start + len, 8));
        proof {
            assert(g@.subrange(0, start as int) =~= g@.take(start as int));
            assert(g@.subrange(start + len, 8) =~= g@.skip(start + len));
            assert(out@ =~= ipv6_text(g@));
        }
    } else {
        push_groups(&mut out, g);
        assert(out@ =~= ipv6_text(g@));
    }
    out
}

// ---------------------------------------------------------------------
// Laws
// ---------------------------------------------------------------------

proof fn hex_text_denotes(n: nat)
    ensures
        all_hex(hex_text(n)),
        hex_text(n).len() > 0,
        hex_digits_value(hex_text(n)) == n,
        !hex_text(n).contains(':'),
    decreases n,
{
    reveal_with_fuel(hex_digits_value, 2);
    if n < 16 {
        assert(hex_text(n).drop_last() =~= Seq::<char>::empty());
    } else {
        hex_text_denotes(n / 16);
        assert(hex_text(n).drop_last() =~= hex_text(n / 16));
    }
    assert(all_hex(hex_text(n)));
    if hex_text(n).contains(':') {
        let i = choose|i: int| 0 <= i < hex_text(n).len() && hex_text(n)[i] == ':';
        assert(hex_value(hex_text(n)[i]) is Some);
    }
}

proof fn hex_text_is_group(x: u16)
    ensures
        hex_group(hex_text(x as nat)) == Some(x),
{
    hex_text_denotes(x as nat);
    reveal_with_fuel(hex_text, 5);
    let n = x as nat;
    assert(hex_text(n).len() <= 4) by {
        assert(n / 16 / 16 / 16 / 16 == 0);
        if n >= 16 {
            assert(hex_text(n).len() == hex_text(n / 16).len() + 1);
            if n / 16 >= 16 {
                assert(hex_text(n / 16).len() == hex_text(n / 16 / 16).len() + 1);
                if n / 16 / 16 >= 16 {
                    assert(hex_text(n / 16 / 16).len() == hex_text(n / 16 / 16 / 16).len() + 1);
                    assert(n / 16 / 16 / 16 < 16);
                }
            }
        }
    }
}

proof fn decimal_is_strict_octet(x: u8)
    ensures
        strict_octet(decimal(x as nat)) == Some(x),
        !decimal(x as nat).contains('.'),
        !decimal(x as nat).contains(':'),
{
    let n = x as nat;
    crate::number::decimal_denotes(n);
    let d = decimal(n);
    if n >= 10 {
        assert(d =~= decimal(n / 10).push(crate::number::digit_char(n % 10)));
        if n >= 100 {
            assert(n / 10 / 10 < 10);
            assert(decimal(n / 10) =~= decimal(n / 10 / 10).push(
                crate::number::digit_char(n / 10 % 10),
            ));
            assert(decimal(n / 10 / 10) =~= seq![crate::number::digit_char(n / 10 / 10)]);
            assert(n / 10 / 10 > 0);
        } else {
            assert(decimal(n / 10) =~= seq![crate::number::digit_char(n / 10)]);
            assert(n / 10 > 0);
        }
    }
    assert(forall|i: int| 0 <= i < d.len() ==> is_digit(#[trigger] d[i]));
}

proof fn quad_reads_back(o: Seq<u8>)
    requires
        o.len() == 4,
    ensures
        quad_groups(ipv4_text(o)) == Some(
            seq![(o[0] * 256 + o[1]) as u16, (o[2] * 256 + o[3]) as u16],
        ),
        !ipv4_text(o).contains(':'),
{
    let parts = Seq::new(4, |i: int| decimal(o[i] as nat));
    assert forall|i: int| 0 <= i < 4 implies !(#[trigger] parts[i]).contains('.') && strict_octet(
        parts[i],
    ) == Some(o[i]) && !parts[i].contains(':') by {
        decimal_is_strict_octet(o[i]);
    }
    reveal_with_fuel(crate::text::joined, 5);
    let sep = seq!['.'];
    assert(parts.drop_last().drop_last().drop_last() =~= seq![parts[0]]);
    assert(crate::text::joined(parts, sep) =~= ipv4_text(o));
    crate::text::pieces_of_joined(parts, '.');
    let t = ipv4_text(o);
    if t.contains(':') {
        let i = choose|i: int| 0 <= i < t.len() && t[i] == ':';
        let a = parts[0].len();
        let b = a + 1 + parts[1].len();
        let c = b + 1 + parts[2].len();
        if i < a {
            assert(parts[0][i] == ':');
            assert(parts[0].contains(':'));
        } else if i > a && i < b {
            assert(parts[1][i - a - 1] == ':');
            assert(parts[1].contains(':'));
        } else if i > b && i < c {
            assert(parts[2][i - b - 1] == ':');
            assert(parts[2].contains(':'));
        } else if i > c {
            assert(parts[3][i - c - 1] == ':');
            assert(parts[3].contains(':'));
        }
    }
}

/// A dotted address reads back as the bytes it was written from.
pub proof fn ipv4_reads_back(o: Seq<u8>)
    requires
        o.len() == 4,
    ensures
        ipv4(ipv4_text(o)) == Some(o),
{
    let parts = Seq::new(4, |i: int| decimal(o[i] as nat));
    assert forall|i: int| 0 <= i < 4 implies !(#[trigger] parts[i]).contains('.') && number_u8(
        parts[i],
    ) == Some(o[i]) by {
        decimal_is_strict_octet(o[i]);
        crate::number::decimal_reads_back(o[i] as nat, 0xff);
    }
    reveal_with_fuel(crate::text::joined, 5);
    let sep = seq!['.'];
    assert(parts.drop_last().drop_last().drop_last() =~= seq![parts[0]]);
    assert(crate::text::joined(parts, sep) =~= ipv4_text(o));
    crate::text::pieces_of_joined(parts, '.');
    assert(Seq::new(4, |i: int| number_u8(parts[i])->0) =~= o);
}

/// Groups written with colons read back; no two colons stand side by side
/// in them, nor does one stand at either end.
proof fn group_text_reads_back(g: Seq<u16>, quad: bool)
    ensures
        group_list(group_text(g), quad) == Some(g),
        g.len() > 0 ==> group_text(g).len() > 0 && group_text(g)[0] != ':' && group_text(g).last()
            != ':',
        g.len() == 0 ==> group_text(g).len() == 0,
        forall|j: int|
            0 <= j < group_text(g).len() - 1 ==> !(group_text(g)[j] == ':'
                && #[trigger] group_text(g)[j + 1] == ':'),
{
    let parts = g.map_values(|x: u16| hex_text(x as nat));
    assert forall|i: int| 0 <= i < parts.len() implies !(#[trigger] parts[i]).contains(':')
        && hex_group(parts[i]) == Some(g[i]) && parts[i].len() > 0 by {
        hex_text_denotes(g[i] as nat);
        hex_text_is_group(g[i]);
    }
    joined_has_no_gap(parts);
    if g.len() > 0 {
        crate::text::pieces_of_joined(parts, ':');
        let n = parts.len() - 1;
        let front = Seq::new(n as nat, |i: int| hex_group(parts[i])->0);
        assert(plain_groups(parts, n) == Some(front));
        assert(hex_group(parts[n]) == Some(g[n]));
        assert(front.push(g[n]) =~= g);
    } else {
        assert(g =~= Seq::<u16>::empty());
    }
}

proof fn joined_has_no_gap(parts: Seq<Seq<char>>)
    requires
        forall|i: int|
            0 <= i < parts.len() ==> !(#[trigger] parts[i]).contains(':') && parts[i].len() > 0,
    ensures
        ({
            let t = crate::text::joined(parts, seq![':']);
            &&& parts.len() > 0 ==> t.len() > 0 && t[0] != ':' && t.last() != ':'
            &&& parts.len() == 0 ==> t.len() == 0
            &&& forall|j: int| 0 <= j < t.len() - 1 ==> !(t[j] == ':' && #[trigger] t[j + 1] == ':')
        }),
    decreases parts.len(),
{
    let t = crate::text::joined(parts, seq![':']);
    if parts.len() == 1 {
        let p = parts[0];
        assert(!p.contains(':'));
        assert forall|j: int| 0 <= j < t.len() - 1 implies !(t[j] == ':' && #[trigger] t[j + 1]
            == ':') by {
            assert(p[j] == t[j]);
        }
    } else if parts.len() > 1 {
        let front = parts.drop_last();
        assert forall|i: int| 0 <= i < front.len() implies !(#[trigger] front[i]).contains(':')
            && front[i].len() > 0 by {
            assert(front[i] == parts[i]);
        }
        joined_has_no_gap(front);
        let f = crate::text::joined(front, seq![':']);
        let p = parts.last();
        assert(p == parts[parts.len() - 1]);
        assert(!p.contains(':') && p.len() > 0);
        assert(t == f + seq![':'] + p);
        assert forall|j: int| 0 <= j < t.len() - 1 implies !(t[j] == ':' && #[trigger] t[j + 1]
            == ':') by {
            if j + 1 < f.len() {
                assert(f[j + 1] == t[j + 1]);
                assert(f[j] == t[j]);
            } else if j + 1 == f.len() {
                assert(t[j] == f.last());
            } else {
                assert(t[j + 1] == p[j - f.len()]);
                assert(p.contains(p[j - f.len()]));
            }
        }
        assert(t[0] == f[0]);
        assert(t.last() == p.last());
        assert(p.contains(p.last()));
    }
}

proof fn zero_run_is_zero(g: Seq<u16>, i: int)
    requires
        0 <= i <= g.len(),
    ensures
        i + zero_run(g, i) <= g.len(),
        forall|j: int| i <= j < i + zero_run(g, i) ==> g[j] == 0,
    decreases g.len() - i,
{
    if i < g.len() && g[i] == 0 {
        zero_run_is_zero(g, i + 1);
    }
}

proof fn longest_zero_run_bounds(g: Seq<u16>, n: int)
    requires
        0 <= n <= g.len(),
        g.len() > 0,
    ensures
        0 <= longest_zero_run(g, n) < g.len(),
    decreases n,
{
    if n > 0 {
        longest_zero_run_bounds(g, n - 1);
    }
}

proof fn mapped_reads_back(g: Seq<u16>)
    requires
        g.len() == 8,
        g.take(6) == seq![0u16, 0, 0, 0, 0, 0xffff],
    ensures
        ipv6_groups(ipv6_text(g)) == Some(g),
{
    let t = ipv6_text(g);
    reveal_strlit("::ffff:");
    let m = g.take(6);
    assert(m[0] == g[0] && m[1] == g[1] && m[2] == g[2] && m[3] == g[3] && m[4] == g[4] && m[5]
        == g[5]);
    let o = group_bytes(g.skip(6));
    let q = ipv4_text(o);
    quad_reads_back(o);
    assert(first_gap(t, 0));
    assert(has_gap(t));
    first_gap_unique(t, 0, choose|k: int| first_gap(t, k));
    assert(t.take(0) =~= Seq::<char>::empty());
    let f = seq!['f', 'f', 'f', 'f'];
    let tail = t.skip(2);
    assert(tail =~= f + seq![':'] + q);
    crate::text::cut_first_rejoins(f, ':', q);
    crate::text::cut_needs_separator(q, ':');
    reveal_with_fuel(pieces, 3);
    let parts = pieces(tail, ':');
    assert(parts =~= seq![f, q]);
    assert(hex_group(f) == Some(0xffffu16)) by {
        reveal_with_fuel(hex_digits_value, 5);
        assert(f.drop_last() =~= seq!['f', 'f', 'f']);
        assert(f.drop_last().drop_last() =~= seq!['f', 'f']);
        assert(f.drop_last().drop_last().drop_last() =~= seq!['f']);
        assert(f.drop_last().drop_last().drop_last().drop_last() =~= Seq::<char>::empty());
    }
    assert(hex_group(q) is None) by {
        assert(q.contains('.')) by {
            assert(q[decimal(o[0] as nat).len() as int] == '.');
        }
        let k = choose|k: int| 0 <= k < q.len() && q[k] == '.';
        assert(hex_value(q[k]) is None);
    }
    assert(plain_groups(parts, 1) == Some(seq![0xffffu16])) by {
        assert(Seq::new(1, |i: int| hex_group(parts[i])->0) =~= seq![0xffffu16]);
    }
    let a = (o[0] * 256 + o[1]) as u16;
    let b = (o[2] * 256 + o[3]) as u16;
    assert(a == g[6] && b == g[7]);
    let groups = seq![0xffffu16] + seq![a, b];
    assert(group_list(tail, true) == Some(groups));
    assert(fill_gap(Seq::empty(), groups) =~= g);
}

proof fn gap_reads_back(head: Seq<u16>, tail: Seq<u16>)
    requires
        head.len() + tail.len() <= 7,
    ensures
        ipv6_groups(group_text(head) + "::"@ + group_text(tail)) == Some(fill_gap(head, tail)),
{
    reveal_strlit("::");
    group_text_reads_back(head, false);
    group_text_reads_back(tail, true);
    let h = group_text(head);
    let t = h + "::"@ + group_text(tail);
    let i = h.len() as int;
    assert(first_gap(t, i)) by {
        assert forall|j: int| 0 <= j < i implies !(t[j] == ':' && #[trigger] t[j + 1] == ':') by {
            if j + 1 < i {
                assert(h[j] == t[j] && h[j + 1] == t[j + 1]);
            } else {
                assert(t[j] == h.last());
            }
        }
    }
    assert(has_gap(t));
    first_gap_unique(t, i, choose|k: int| first_gap(t, k));
    assert(t.take(i) =~= h);
    assert(t.skip(i + 2) =~= group_text(tail));
}

proof fn full_reads_back(g: Seq<u16>)
    requires
        g.len() == 8,
    ensures
        ipv6_groups(group_text(g)) == Some(g),
{
    let t = group_text(g);
    group_text_reads_back(g, true);
    assert(!has_gap(t)) by {
        if has_gap(t) {
            let k = choose|k: int| first_gap(t, k);
            assert(t[k] == ':' && t[k + 1] == ':');
        }
    }
}

/// An IPv6 address reads back as the groups it was written from.
pub proof fn ipv6_reads_back(g: Seq<u16>)
    requires
        g.len() == 8,
    ensures
        ipv6_groups(ipv6_text(g)) == Some(g),
{
    if g.take(6) == seq![0u16, 0, 0, 0, 0, 0xffff] {
        mapped_reads_back(g);
    } else {
        let start = longest_zero_run(g, 8);
        let len = zero_run(g, start);
        longest_zero_run_bounds(g, 8);
        zero_run_is_zero(g, start);
        if len > 1 {
            gap_reads_back(g.take(start), g.skip(start + len));
            assert(fill_gap(g.take(start), g.skip(start + len)) =~= g);
        } else {
            full_reads_back(g);
        }
    }
}

/// An IPv4 address is written as its four numbers in order, with dots between
/// them, and only that is read as one: four numbers of at most 255.
pub proof fn ipv4_addresses_are_dotted(a: u8, b: u8, c: u8, d: u8, s: Seq<char>)
    ensures
        ipv4_text(seq![a, b, c, d]) == decimal(a as nat) + seq!['.'] + decimal(b as nat)
            + seq!['.'] + decimal(c as nat) + seq!['.'] + decimal(d as nat),
        ipv4(ipv4_text(seq![a, b, c, d])) == Some(seq![a, b, c, d]),
        ipv4(s) matches Some(o) ==> o.len() == 4 && pieces(s, '.').len() == 4,
{
    ipv4_reads_back(seq![a, b, c, d]);
}

/// The groups of an IPv6 address are sixteen bytes, the high byte of each group
/// first.
pub proof fn ipv6_groups_are_big_endian(g: Seq<u16>, i: int)
    requires
        0 <= i < g.len(),
    ensures
        group_bytes(g).len() == 2 * g.len(),
        group_bytes(g)[2 * i] * 256 + group_bytes(g)[2 * i + 1] == g[i],
{
}

/// Groups are written in lower-case hexadecimal without leading zeros, and read
/// in either letter case.
pub proof fn groups_are_hexadecimal(n: nat, d: nat)
    requires
        d < 16,
    ensures
        hex_text(d).len() == 1,
        d < 10 ==> hex_text(d)[0] as u32 == 48 + d,
        d >= 10 ==> hex_text(d)[0] as u32 == 87 + d,
        n > 0 ==> hex_text(16 * n + d) == hex_text(n) + hex_text(d),
        hex_value(hex_text(d)[0]) == Some(d),
        d >= 10 ==> hex_value(((55 + d) as u32) as char) == Some(d),
{
    if n > 0 {
        assert((16 * n + d) / 16 == n);
        assert((16 * n + d) % 16 == d);
        assert(hex_text(16 * n + d) =~= hex_text(n) + hex_text(d));
    }
}

} // verus!
