//! What texts denote, stated by how they are put together.

use vstd::prelude::*;
use crate::config::{
    all_digits, digits_value, list_pc, list_pcs, spec_digit, spec_is_space, spec_parse_pcs,
    spec_parse_radix, spec_parse_truncation, spec_split, spec_strip_0x, spec_trim, spec_trim_end,
    spec_trim_start, unsigned_part, Truncation,
};

verus! {

/// The digit of a value below 36, in lower case.
pub open spec fn lower(d: nat) -> char {
    "0123456789abcdefghijklmnopqrstuvwxyz"@[d as int]
}

/// The digit of a value below 36, in upper case.
pub open spec fn upper(d: nat) -> char {
    "0123456789ABCDEFGHIJKLMNOPQRSTUVWXYZ"@[d as int]
}

/// **Digits have their values.** A character is a digit of a radix if and only if it is that of a
/// value below the radix, in either case.
pub proof fn law_digits(c: char, d: u64, radix: u64)
    requires
        radix <= 36,
    ensures
        spec_digit(c, radix) == Some(d) <==> d < radix && (c == lower(d as nat) || c == upper(
            d as nat,
        )),
{
    lemma_digit_char(d);
}

proof fn lemma_digit_char(d: u64)
    ensures
        d < 36 ==> lower(d as nat) as u32 == (if d < 10 {
            0x30 + d
        } else {
            0x61 + d - 10
        }),
        d < 36 ==> upper(d as nat) as u32 == (if d < 10 {
            0x30 + d
        } else {
            0x41 + d - 10
        }),
{
    reveal_strlit("0123456789abcdefghijklmnopqrstuvwxyz");
    reveal_strlit("0123456789ABCDEFGHIJKLMNOPQRSTUVWXYZ");
}

/// A number in digits, without leading zeros.
pub open spec fn printed(n: nat, radix: u64) -> Seq<char>
    decreases n,
    when radix >= 2
{
    if n < radix {
        seq![lower(n)]
    } else {
        proof {
            lemma_smaller(n, radix);
        }
        printed(n / (radix as nat), radix).push(lower(n % (radix as nat)))
    }
}

pub proof fn lemma_smaller(n: nat, radix: u64)
    requires
        radix >= 2,
        n >= radix,
    ensures
        n / (radix as nat) < n,
{
    assert(n / (radix as nat) < n) by (nonlinear_arith)
        requires
            radix >= 2,
            n >= radix,
    ;
}

proof fn lemma_printed(n: nat, radix: u64)
    requires
        2 <= radix <= 36,
    ensures
        printed(n, radix).len() > 0,
        all_digits(printed(n, radix), radix),
        digits_value(printed(n, radix), radix) == n,
    decreases n,
{
    let s = printed(n, radix);
    let r = radix as nat;
    let d = if n < radix {
        n
    } else {
        n % r
    };
    law_digits(lower(d), d as u64, radix);
    if n < radix {
        assert(s.drop_last() =~= Seq::empty());
        assert(s.last() == lower(d));
        reveal_with_fuel(digits_value, 2);
        assert(0 * r == 0);
    } else {
        lemma_smaller(n, radix);
        let init = printed(n / r, radix);
        lemma_printed(n / r, radix);
        assert(s.drop_last() =~= init);
        assert forall|i: int| 0 <= i < s.len() implies spec_digit(
            #[trigger] s[i],
            radix,
        ) is Some by {
            if i < init.len() {
                assert(s[i] == init[i]);
            }
        }
        vstd::arithmetic::div_mod::lemma_fundamental_div_mod(n as int, r as int);
        assert((n / r) * r == r * (n / r)) by (nonlinear_arith);
    }
}

proof fn lemma_no_plus(s: Seq<char>, radix: u64)
    requires
        s.len() > 0,
        all_digits(s, radix),
    ensures
        unsigned_part(s) == s,
        s[0] != '+',
{
    assert(spec_digit(s[0], radix) is Some);
    assert(s[0] as u32 >= 0x30);
    assert('+' as u32 == 0x2b);
}

/// **A number that is written out is read back**, if it is below 2 to the 64th, and else not
/// read; with or without a plus sign in front.
pub proof fn law_numbers(n: nat, radix: u64)
    requires
        2 <= radix <= 36,
    ensures
        ({
            let s = printed(n, radix);
            let read = if n < 0x1_0000_0000_0000_0000 {
                Some(n as u64)
            } else {
                None
            };
            &&& spec_parse_radix(s, radix) == read
            &&& spec_parse_radix(seq!['+'] + s, radix) == read
        }),
{
    let s = printed(n, radix);
    lemma_printed(n, radix);
    lemma_no_plus(s, radix);
    assert((seq!['+'] + s).drop_first() =~= s);
}

/// **Digits count by their place.** One more digit behind a number multiplies it by the radix and
/// adds the digit; a number that has become too large, or a character that is no digit, makes
/// the text no number. The empty text, and a lone plus sign, are no numbers.
pub proof fn law_places(s: Seq<char>, c: char, radix: u64)
    requires
        2 <= radix <= 36,
        s.len() > 0,
        s != seq!['+'],
    ensures
        spec_parse_radix(Seq::empty(), radix) is None,
        spec_parse_radix(seq!['+'], radix) is None,
        spec_parse_radix(s.push(c), radix) == match (
            spec_parse_radix(s, radix),
            spec_digit(c, radix),
        ) {
            (Some(n), Some(d)) => if n * radix + d < 0x1_0000_0000_0000_0000 {
                Some((n * radix + d) as u64)
            } else {
                None
            },
            _ => None,
        },
{
    let t = s.push(c);
    let (d, e) = (unsigned_part(s), unsigned_part(t));
    assert(seq!['+'].drop_first() =~= Seq::empty());
    assert(s[0] == '+' ==> s.len() > 1) by {
        if s.len() == 1 {
            assert(s =~= seq![s[0]]);
        }
    }
    assert(e =~= d.push(c));
    assert(e.drop_last() =~= d);
    assert(all_digits(e, radix) <==> all_digits(d, radix) && spec_digit(c, radix) is Some) by {
        if all_digits(e, radix) {
            assert(spec_digit(e.last(), radix) is Some);
            assert forall|i: int| 0 <= i < d.len() implies spec_digit(
                #[trigger] d[i],
                radix,
            ) is Some by {
                assert(e[i] == d[i]);
            }
        }
        if all_digits(d, radix) && spec_digit(c, radix) is Some {
            assert forall|i: int| 0 <= i < e.len() implies spec_digit(
                #[trigger] e[i],
                radix,
            ) is Some by {
                if i < d.len() {
                    assert(e[i] == d[i]);
                }
            }
        }
    }
    if all_digits(e, radix) {
        let v = digits_value(d, radix);
        assert(digits_value(e, radix) == v * radix as nat + spec_digit(c, radix)->0 as nat);
        assert(v * radix as nat >= v) by (nonlinear_arith)
            requires
                radix >= 2,
                v >= 0,
        ;
    }
}

/// Nothing but white space.
pub open spec fn blank(s: Seq<char>) -> bool {
    forall|i: int| 0 <= i < s.len() ==> spec_is_space(#[trigger] s[i])
}

/// No white space at either end.
pub open spec fn bare(s: Seq<char>) -> bool {
    s.len() > 0 ==> !spec_is_space(s[0]) && !spec_is_space(s.last())
}

proof fn lemma_trim_start(a: Seq<char>, s: Seq<char>)
    requires
        blank(a),
    ensures
        spec_trim_start(a + s) == spec_trim_start(s),
    decreases a.len(),
{
    if a.len() > 0 {
        assert((a + s)[0] == a[0]);
        assert((a + s).drop_first() =~= a.drop_first() + s);
        lemma_trim_start(a.drop_first(), s);
    } else {
        assert(a + s =~= s);
    }
}

proof fn lemma_trim_end(s: Seq<char>, b: Seq<char>)
    requires
        blank(b),
    ensures
        spec_trim_end(s + b) == spec_trim_end(s),
    decreases b.len(),
{
    if b.len() > 0 {
        assert((s + b).last() == b.last());
        assert((s + b).drop_last() =~= s + b.drop_last());
        lemma_trim_end(s, b.drop_last());
    } else {
        assert(s + b =~= s);
    }
}

/// **Trimming takes off the white space around a text, and nothing else.**
pub proof fn law_trim(a: Seq<char>, s: Seq<char>, b: Seq<char>)
    requires
        blank(a),
        blank(b),
        bare(s),
    ensures
        spec_trim(a + s + b) == s,
{
    assert(a + s + b =~= a + (s + b));
    lemma_trim_start(a, s + b);
    if s.len() > 0 {
        assert((s + b)[0] == s[0]);
        lemma_trim_end(s, b);
    } else {
        assert(s + b =~= b + s);
        lemma_trim_start(b, s);
    }
}

/// **White space is what Unicode calls so.**
pub proof fn law_spaces(c: char)
    ensures
        spec_is_space(c) <==> seq![
            '\t',
            '\n',
            '\u{b}',
            '\u{c}',
            '\r',
            ' ',
            '\u{85}',
            '\u{a0}',
            '\u{1680}',
            '\u{2000}',
            '\u{2001}',
            '\u{2002}',
            '\u{2003}',
            '\u{2004}',
            '\u{2005}',
            '\u{2006}',
            '\u{2007}',
            '\u{2008}',
            '\u{2009}',
            '\u{200a}',
            '\u{2028}',
            '\u{2029}',
            '\u{202f}',
            '\u{205f}',
            '\u{3000}',
        ].contains(c),
{
    let s = seq![
        '\t',
        '\n',
        '\u{b}',
        '\u{c}',
        '\r',
        ' ',
        '\u{85}',
        '\u{a0}',
        '\u{1680}',
        '\u{2000}',
        '\u{2001}',
        '\u{2002}',
        '\u{2003}',
        '\u{2004}',
        '\u{2005}',
        '\u{2006}',
        '\u{2007}',
        '\u{2008}',
        '\u{2009}',
        '\u{200a}',
        '\u{2028}',
        '\u{2029}',
        '\u{202f}',
        '\u{205f}',
        '\u{3000}',
    ];
    let n = c as u32;
    if spec_is_space(c) {
        let i = if n <= 0x0d {
            n - 9
        } else if n == 0x20 {
            5
        } else if n == 0x85 {
            6
        } else if n == 0xa0 {
            7
        } else if n == 0x1680 {
            8
        } else if n <= 0x200a {
            n - 0x2000 + 9
        } else if n == 0x2028 {
            20
        } else if n == 0x2029 {
            21
        } else if n == 0x202f {
            22
        } else if n == 0x205f {
            23
        } else {
            24
        };
        assert(s[i] as u32 == n);
        assert(s[i] == c);
    }
}

/// **Prefixes do not count.** "0x" in front of a text does not change what is left of it, and a
/// text that does not start so is left as it is.
pub proof fn law_prefix(s: Seq<char>)
    ensures
        spec_strip_0x(seq!['0', 'x'] + s) == spec_strip_0x(s),
        !(s.len() >= 2 && s[0] == '0' && s[1] == 'x') ==> spec_strip_0x(s) == s,
{
    assert((seq!['0', 'x'] + s).skip(2) =~= s);
}

/// Pieces with separators between them.
pub open spec fn joined(p: Seq<Seq<char>>, sep: char) -> Seq<char>
    decreases p.len(),
{
    if p.len() == 0 {
        Seq::empty()
    } else if p.len() == 1 {
        p[0]
    } else {
        joined(p.drop_last(), sep).push(sep) + p.last()
    }
}

/// **Splitting undoes joining.** The pieces of a text, joined by the separator, are the text, and
/// no piece has a separator in it.
pub proof fn law_split(s: Seq<char>, sep: char)
    ensures
        spec_split(s, sep).len() > 0,
        joined(spec_split(s, sep), sep) == s,
        forall|i: int|
            0 <= i < spec_split(s, sep).len() ==> !(#[trigger] spec_split(s, sep)[i]).contains(
                sep,
            ),
    decreases s.len(),
{
    if s.len() == 0 {
        assert(joined(spec_split(s, sep), sep) =~= s);
        assert forall|i: int| 0 <= i < spec_split(s, sep).len() implies !(#[trigger] spec_split(
            s,
            sep,
        )[i]).contains(sep) by {}
    } else {
        let init = s.drop_last();
        let r = spec_split(init, sep);
        let t = spec_split(s, sep);
        law_split(init, sep);
        if s.last() == sep {
            assert(t.drop_last() =~= r);
            assert(joined(t, sep) =~= init.push(sep));
        } else {
            assert(t.drop_last() =~= r.drop_last());
            if r.len() == 1 {
                assert(joined(r, sep) == r[0]);
                assert(joined(t, sep) =~= init.push(s.last()));
            } else {
                assert(joined(t, sep) =~= joined(r, sep).push(s.last()));
            }
            assert(!r[r.len() - 1].contains(sep));
            assert forall|i: int| 0 <= i < t.len() implies !(#[trigger] t[i]).contains(sep) by {
                if i < r.len() - 1 {
                    assert(t[i] == r[i]);
                } else {
                    let p = r.last();
                    if t[i].contains(sep) {
                        let k = choose|k: int| 0 <= k < t[i].len() && t[i][k] == sep;
                        assert(k < p.len());
                        assert(p[k] == sep);
                    }
                }
            }
        }
        assert(init.push(s.last()) =~= s);
    }
}

proof fn lemma_unsplit(s: Seq<char>, sep: char)
    requires
        !s.contains(sep),
    ensures
        spec_split(s, sep) == seq![s],
    decreases s.len(),
{
    if s.len() > 0 {
        let init = s.drop_last();
        assert(!init.contains(sep)) by {
            if init.contains(sep) {
                let k = choose|k: int| 0 <= k < init.len() && init[k] == sep;
                assert(s[k] == sep);
            }
        }
        lemma_unsplit(init, sep);
        assert(s[s.len() - 1] == s.last());
        assert(init.push(s.last()) =~= s);
        assert(spec_split(s, sep) =~= seq![s]);
    } else {
        assert(s =~= Seq::empty());
    }
}

proof fn lemma_split_at(a: Seq<char>, sep: char, b: Seq<char>)
    ensures
        spec_split(a.push(sep) + b, sep) == spec_split(a, sep) + spec_split(b, sep),
    decreases b.len(),
{
    let s = a.push(sep) + b;
    let ra = spec_split(a, sep);
    law_split(a, sep);
    law_split(b, sep);
    if b.len() == 0 {
        assert(s =~= a.push(sep));
        assert(s.drop_last() =~= a);
        assert(spec_split(s, sep) =~= ra + spec_split(b, sep));
    } else {
        let init = b.drop_last();
        lemma_split_at(a, sep, init);
        law_split(init, sep);
        assert(s.drop_last() =~= a.push(sep) + init);
        assert(s.last() == b.last());
        assert(spec_split(s, sep) =~= ra + spec_split(b, sep));
    }
}

proof fn lemma_list_pcs(p: Seq<Seq<char>>, q: Seq<Seq<char>>)
    ensures
        list_pcs(p + q) == list_pcs(p) + list_pcs(q),
    decreases q.len(),
{
    if q.len() == 0 {
        assert(p + q =~= p);
        assert(list_pcs(p) + list_pcs(q) =~= list_pcs(p));
    } else {
        assert((p + q).drop_last() =~= p + q.drop_last());
        lemma_list_pcs(p, q.drop_last());
        assert(list_pcs(p + q) =~= list_pcs(p) + list_pcs(q));
    }
}

/// **Lists are read element by element.** The pcs of two lists with a comma between them are those
/// of the one and then those of the other. A list without a comma is one element; its pc is
/// what is left of it without the white space around it and without the prefix "0x", read as a
/// hexadecimal number. An element that is no number is left out.
pub proof fn law_lists(a: Seq<char>, b: Seq<char>)
    ensures
        spec_parse_pcs(a.push(',') + b) == spec_parse_pcs(a) + spec_parse_pcs(b),
        !a.contains(',') ==> spec_parse_pcs(a) == match spec_parse_radix(
            spec_strip_0x(spec_trim(a)),
            16,
        ) {
            Some(pc) => seq![pc],
            None => Seq::empty(),
        },
{
    lemma_split_at(a, ',', b);
    lemma_list_pcs(spec_split(a, ','), spec_split(b, ','));
    if !a.contains(',') {
        lemma_unsplit(a, ',');
        let p = seq![a];
        assert(p.drop_last() =~= Seq::empty());
        assert(p.last() == a);
        assert(list_pcs(p.drop_last()) =~= Seq::empty());
    }
}

/// **A pc in a list is read back**, however it is spaced, with the prefix or without.
pub proof fn law_list_pc(a: Seq<char>, pc: u64, b: Seq<char>)
    requires
        blank(a),
        blank(b),
    ensures
        list_pc(a + printed(pc as nat, 16) + b) == Some(pc),
        list_pc(a + (seq!['0', 'x'] + printed(pc as nat, 16)) + b) == Some(pc),
{
    let s = printed(pc as nat, 16);
    lemma_printed(pc as nat, 16);
    law_numbers(pc as nat, 16);
    let t = seq!['0', 'x'] + s;
    assert(spec_digit(s[0], 16) is Some);
    assert(spec_digit(s.last(), 16) is Some);
    law_trim(a, s, b);
    assert(t.last() == s.last());
    assert(t[0] == '0');
    law_trim(a, t, b);
    law_prefix(s);
    assert(!(s.len() >= 2 && s[0] == '0' && s[1] == 'x')) by {
        if s.len() >= 2 {
            assert(spec_digit(s[1], 16) is Some);
            assert('x' as u32 == 0x78);
        }
    }
}

/// **A truncation has one at sign.** What stands before it is a decimal number of operations, all
/// of them if it is none; what stands behind it, without the prefix "0x", is the pc in
/// hexadecimal, zero if it is none. A text without an at sign, or with two, is no truncation.
pub proof fn law_truncation(a: Seq<char>, b: Seq<char>, c: Seq<char>)
    requires
        !a.contains('@'),
        !b.contains('@'),
    ensures
        spec_parse_truncation(a) is None,
        spec_parse_truncation(a.push('@') + b.push('@') + c) is None,
        spec_parse_truncation(a.push('@') + b) == Some(
            Truncation {
                ops: match spec_parse_radix(a, 10) {
                    Some(n) => n,
                    None => 0xffff_ffff_ffff_ffff,
                },
                pc: match spec_parse_radix(spec_strip_0x(b), 16) {
                    Some(pc) => pc,
                    None => 0,
                },
            },
        ),
{
    lemma_unsplit(a, '@');
    lemma_unsplit(b, '@');
    lemma_split_at(a, '@', b);
    assert(a.push('@') + b.push('@') + c =~= a.push('@') + (b.push('@') + c));
    lemma_split_at(a, '@', b.push('@') + c);
    lemma_split_at(b, '@', c);
    law_split(c, '@');
}

} // verus!
