//! Settings that the embedder's user gives as text.
//!
//! Text is a sequence of characters. A setting that does not parse counts as absent, and of
//! a list the elements that do not parse are left out.

use vstd::prelude::*;

verus! {

/// Characters that surround an element of a list without belonging to it: those with the
/// Unicode property White_Space.
pub open spec fn spec_is_space(c: char) -> bool {
    let n = c as u32;
    ||| 0x09 <= n <= 0x0d
    ||| n == 0x20
    ||| n == 0x85
    ||| n == 0xa0
    ||| n == 0x1680
    ||| 0x2000 <= n <= 0x200a
    ||| n == 0x2028
    ||| n == 0x2029
    ||| n == 0x202f
    ||| n == 0x205f
    ||| n == 0x3000
}

/// Tests whether a character is white space.
pub fn is_space(c: char) -> (r: bool)
    ensures
        r == spec_is_space(c),
{
    let n: u32 = c as u32;
    (0x09 <= n && n <= 0x0d) || n == 0x20 || n == 0x85 || n == 0xa0 || n == 0x1680 || (0x2000 <= n
        && n <= 0x200a) || n == 0x2028 || n == 0x2029 || n == 0x202f || n == 0x205f || n == 0x3000
}

/// `s` without the white space at its end.
pub open spec fn spec_trim_end(s: Seq<char>) -> Seq<char>
    decreases s.len(),
{
    if s.len() > 0 && spec_is_space(s.last()) {
        spec_trim_end(s.drop_last())
    } else {
        s
    }
}

/// `s` without the white space at its start.
pub open spec fn spec_trim_start(s: Seq<char>) -> Seq<char>
    decreases s.len(),
{
    if s.len() > 0 && spec_is_space(s[0]) {
        spec_trim_start(s.drop_first())
    } else {
        s
    }
}

/// `s` without the white space around it.
pub open spec fn spec_trim(s: Seq<char>) -> Seq<char> {
    spec_trim_end(spec_trim_start(s))
}

/// `s` without the prefixes "0x" that it starts with.
pub open spec fn spec_strip_0x(s: Seq<char>) -> Seq<char>
    decreases s.len(),
{
    if s.len() >= 2 && s[0] == '0' && s[1] == 'x' {
        spec_strip_0x(s.skip(2))
    } else {
        s
    }
}

/// The value of a digit, of either case.
pub open spec fn spec_digit(c: char, radix: u64) -> Option<u64> {
    let n = c as u32;
    let v = if 0x30 <= n <= 0x39 {
        Some((n - 0x30) as u64)
    } else if 0x61 <= n <= 0x7a {
        Some((n - 0x61 + 10) as u64)
    } else if 0x41 <= n <= 0x5a {
        Some((n - 0x41 + 10) as u64)
    } else {
        None
    };
    match v {
        Some(d) => if d < radix {
            Some(d)
        } else {
            None
        },
        None => None,
    }
}

/// All of `s` are digits.
pub open spec fn all_digits(s: Seq<char>, radix: u64) -> bool {
    forall|i: int| 0 <= i < s.len() ==> spec_digit(#[trigger] s[i], radix) is Some
}

/// The number that digits denote, most significant first.
pub open spec fn digits_value(s: Seq<char>, radix: u64) -> nat
    decreases s.len(),
{
    if s.len() == 0 {
        0
    } else {
        digits_value(s.drop_last(), radix) * radix as nat + spec_digit(s.last(), radix)->0 as nat
    }
}

/// `s` without one leading plus sign.
pub open spec fn unsigned_part(s: Seq<char>) -> Seq<char> {
    if s.len() > 0 && s[0] == '+' {
        s.drop_first()
    } else {
        s
    }
}

/// The number that `s` denotes: digits, at least one, perhaps behind a plus sign, of a
/// number below 2 to the 64th.
pub open spec fn spec_parse_radix(s: Seq<char>, radix: u64) -> Option<u64> {
    let d = unsigned_part(s);
    if d.len() > 0 && all_digits(d, radix) && digits_value(d, radix) <= u64::MAX {
        Some(digits_value(d, radix) as u64)
    } else {
        None
    }
}

/// The pieces of `s` between occurrences of `sep`, one more than there are of these.
pub open spec fn spec_split(s: Seq<char>, sep: char) -> Seq<Seq<char>>
    decreases s.len(),
{
    if s.len() == 0 {
        seq![Seq::empty()]
    } else {
        let r = spec_split(s.drop_last(), sep);
        if s.last() == sep {
            r.push(Seq::empty())
        } else {
            r.update(r.len() - 1, r.last().push(s.last()))
        }
    }
}

/// The pc that one element of a list denotes.
pub open spec fn list_pc(s: Seq<char>) -> Option<u64> {
    spec_parse_radix(spec_strip_0x(spec_trim(s)), 16)
}

/// The pcs that pieces denote, in order.
pub open spec fn list_pcs(pieces: Seq<Seq<char>>) -> Seq<u64>
    decreases pieces.len(),
{
    if pieces.len() == 0 {
        Seq::empty()
    } else {
        let r = list_pcs(pieces.drop_last());
        match list_pc(pieces.last()) {
            Some(pc) => r.push(pc),
            None => r,
        }
    }
}

/// The pcs of a comma-separated list.
pub open spec fn spec_parse_pcs(s: Seq<char>) -> Seq<u64> {
    list_pcs(spec_split(s, ','))
}

/// Where a block is cut short: at how many operations, and the pc of the block.
#[derive(Clone, Copy, Debug, PartialEq, Eq, Structural)]
pub struct Truncation {
    pub ops: u64,
    pub pc: u64,
}

/// "N@pc": a number that does not parse cuts nothing off, a pc that does not parse is 0.
pub open spec fn spec_parse_truncation(s: Seq<char>) -> Option<Truncation> {
    let p = spec_split(s, '@');
    if p.len() == 2 {
        Some(
            Truncation {
                ops: match spec_parse_radix(p[0], 10) {
                    Some(n) => n,
                    None => u64::MAX,
                },
                pc: match spec_parse_radix(spec_strip_0x(p[1]), 16) {
                    Some(n) => n,
                    None => 0,
                },
            },
        )
    } else {
        None
    }
}

fn digit(c: char, radix: u64) -> (r: Option<u64>)
    ensures
        r == spec_digit(c, radix),
{
    let n: u32 = c as u32;
    let d: u64 = if 0x30 <= n && n <= 0x39 {
        (n - 0x30) as u64
    } else if 0x61 <= n && n <= 0x7a {
        (n - 0x61 + 10) as u64
    } else if 0x41 <= n && n <= 0x5a {
        (n - 0x41 + 10) as u64
    } else {
        return None;
    };
    if d < radix {
        Some(d)
    } else {
        None
    }
}

/// More digits do not make a number smaller.
proof fn lemma_value_grows(s: Seq<char>, i: int, radix: u64)
    requires
        0 <= i <= s.len(),
        radix >= 1,
    ensures
        digits_value(s.take(i), radix) <= digits_value(s, radix),
    decreases s.len() - i,
{
    if i == s.len() {
        assert(s.take(i) =~= s);
    } else {
        lemma_value_grows(s, i + 1, radix);
        assert(s.take(i + 1).drop_last() =~= s.take(i));
        let v = digits_value(s.take(i), radix);
        assert(v <= v * radix as nat) by (nonlinear_arith)
            requires
                radix >= 1,
                v >= 0,
        ;
    }
}

/// Parses an unsigned number in the given radix.
pub fn parse_radix(s: &[char], radix: u64) -> (r: Option<u64>)
    requires
        2 <= radix <= 36,
    ensures
        r == spec_parse_radix(s@, radix),
{
    let len: usize = s.len();
    let start: usize = if len > 0 && s[0] == '+' {
        1
    } else {
        0
    };
    if start == len {
        return None;
    }
    let ghost d = unsigned_part(s@);
    assert(d =~= s@.skip(start as int));
    let mut v: u64 = 0;
    let mut i: usize = start;
    assert(d.take(0) =~= Seq::empty());
    while i < len
        invariant
            len == s@.len(),
            start <= i <= len,
            d == s@.skip(start as int),
            d == unsigned_part(s@),
            2 <= radix <= 36,
            v as nat == digits_value(d.take(i - start), radix),
            forall|j: int| 0 <= j < i - start ==> spec_digit(#[trigger] d[j], radix) is Some,
        decreases len - i,
    {
        let ghost at = i - start;
        assert(d[at] == s@[i as int]);
        match digit(s[i], radix) {
            None => {
                assert(!all_digits(d, radix));
                return None;
            },
            Some(x) => {
                let ghost next = digits_value(d.take(at + 1), radix);
                proof {
                    assert(d.take(at + 1).drop_last() =~= d.take(at));
                    lemma_value_grows(d, at + 1, radix);
                    assert(v * radix < 36 * 0x1_0000_0000_0000_0000) by (nonlinear_arith)
                        requires
                            v < 0x1_0000_0000_0000_0000,
                            radix <= 36,
                    ;
                    assert(v * radix >= 0) by (nonlinear_arith)
                        requires
                            v >= 0,
                            radix >= 0,
                    ;
                }
                let wide: u128 = (v as u128) * (radix as u128) + x as u128;
                assert(wide == next);
                if wide > u64::MAX as u128 {
                    return None;
                }
                v = wide as u64;
            },
        }
        i = i + 1;
    }
    assert(d.take(i - start) =~= d);
    Some(v)
}

/// `s` without the white space around it.
fn trim(s: &[char]) -> (r: Vec<char>)
    ensures
        r@ == spec_trim(s@),
{
    let len: usize = s.len();
    let mut start: usize = 0;
    assert(s@.skip(0) =~= s@);
    while start < len && is_space(s[start])
        invariant
            len == s@.len(),
            start <= len,
            spec_trim_start(s@) == spec_trim_start(s@.skip(start as int)),
        decreases len - start,
    {
        assert(s@.skip(start as int).drop_first() =~= s@.skip(start + 1));
        start = start + 1;
    }
    let ghost t = s@.skip(start as int);
    assert(spec_trim_start(s@) == t);
    let mut end: usize = len;
    assert(t.take(end - start) =~= t);
    while end > start && is_space(s[end - 1])
        invariant
            len == s@.len(),
            start <= end <= len,
            t == s@.skip(start as int),
            spec_trim_end(t) == spec_trim_end(t.take(end - start)),
        decreases end,
    {
        assert(t.take(end - start).drop_last() =~= t.take(end - start - 1));
        end = end - 1;
    }
    copy(s, start, end)
}

/// A part of `s`.
fn copy(s: &[char], start: usize, end: usize) -> (r: Vec<char>)
    requires
        start <= end <= s@.len(),
    ensures
        r@ == s@.subrange(start as int, end as int),
        r@ == s@.skip(start as int).take(end - start),
{
    let mut r: Vec<char> = Vec::new();
    let mut i: usize = start;
    while i < end
        invariant
            start <= i <= end <= s@.len(),
            r@ =~= s@.subrange(start as int, i as int),
        decreases end - i,
    {
        r.push(s[i]);
        i = i + 1;
    }
    assert(s@.subrange(start as int, end as int) =~= s@.skip(start as int).take(end - start));
    r
}

/// `s` without the prefixes "0x" that it starts with.
fn strip_0x(s: &[char]) -> (r: Vec<char>)
    ensures
        r@ == spec_strip_0x(s@),
{
    let len: usize = s.len();
    let mut start: usize = 0;
    assert(s@.skip(0) =~= s@);
    while len - start >= 2 && s[start] == '0' && s[start + 1] == 'x'
        invariant
            len == s@.len(),
            start <= len,
            spec_strip_0x(s@) == spec_strip_0x(s@.skip(start as int)),
        decreases len - start,
    {
        assert(s@.skip(start as int).skip(2) =~= s@.skip(start + 2));
        start = start + 2;
    }
    let r = copy(s, start, len);
    assert(r@ =~= s@.skip(start as int));
    r
}

/// The views of pieces.
pub open spec fn views(p: Seq<Vec<char>>) -> Seq<Seq<char>> {
    p.map_values(|v: Vec<char>| v@)
}

/// The pieces of `s` between occurrences of `sep`.
fn split(s: &[char], sep: char) -> (r: Vec<Vec<char>>)
    ensures
        views(r@) == spec_split(s@, sep),
        r@.len() >= 1,
{
    let len: usize = s.len();
    let mut done: Vec<Vec<char>> = Vec::new();
    let mut cur: Vec<char> = Vec::new();
    let mut i: usize = 0;
    assert(s@.take(0) =~= Seq::empty());
    assert(views(done@).push(cur@) =~= seq![Seq::empty()]);
    while i < len
        invariant
            len == s@.len(),
            i <= len,
            views(done@).push(cur@) == spec_split(s@.take(i as int), sep),
        decreases len - i,
    {
        let c: char = s[i];
        let ghost before = views(done@);
        let ghost piece = cur@;
        assert(s@.take(i + 1).drop_last() =~= s@.take(i as int));
        if c == sep {
            done.push(cur);
            cur = Vec::new();
            assert(views(done@) =~= before.push(piece));
        } else {
            cur.push(c);
            assert(before.push(piece).update(before.len() as int, piece.push(c)) =~= before.push(
                piece.push(c),
            ));
        }
        i = i + 1;
    }
    assert(s@.take(i as int) =~= s@);
    let ghost before = views(done@);
    let ghost piece = cur@;
    done.push(cur);
    assert(views(done@) =~= before.push(piece));
    done
}

/// Parses a comma-separated list of hexadecimal pcs. White space around a pc and the prefix
/// "0x" are skipped.
pub fn parse_pcs(s: &[char]) -> (r: Vec<u64>)
    ensures
        r@ == spec_parse_pcs(s@),
{
    let pieces = split(s, ',');
    let mut r: Vec<u64> = Vec::new();
    let mut i: usize = 0;
    assert(views(pieces@).take(0) =~= Seq::empty());
    while i < pieces.len()
        invariant
            i <= pieces@.len(),
            r@ == list_pcs(views(pieces@).take(i as int)),
        decreases pieces.len() - i,
    {
        assert(views(pieces@).take(i + 1).drop_last() =~= views(pieces@).take(i as int));
        let t = trim(pieces[i].as_slice());
        let h = strip_0x(t.as_slice());
        match parse_radix(h.as_slice(), 16) {
            Some(pc) => r.push(pc),
            None => {},
        }
        i = i + 1;
    }
    assert(views(pieces@).take(i as int) =~= views(pieces@));
    r
}

/// Parses "N@pc": where a block is cut short.
pub fn parse_truncation(s: &[char]) -> (r: Option<Truncation>)
    ensures
        r == spec_parse_truncation(s@),
{
    let p = split(s, '@');
    assert(views(p@).len() == p@.len());
    if p.len() != 2 {
        return None;
    }
    assert(views(p@)[0] == p@[0]@ && views(p@)[1] == p@[1]@);
    let h = strip_0x(p[1].as_slice());
    Some(
        Truncation {
            ops: match parse_radix(p[0].as_slice(), 10) {
                Some(n) => n,
                None => u64::MAX,
            },
            pc: match parse_radix(h.as_slice(), 16) {
                Some(n) => n,
                None => 0,
            },
        },
    )
}

/// Parses a decimal number.
pub fn parse_number(s: &[char]) -> (r: Option<u64>)
    ensures
        r == spec_parse_radix(s@, 10),
{
    parse_radix(s, 10)
}

} // verus!
