//! What texts and numbers come to.

use crate::text;
use crate::text::{
    all_digits, ascii, ascii_lowered, bounded_number, decimal, digits_value, elided, index_first,
    index_last, is_white, occurs, parse_i32, parse_u16, parse_u64, trim, trim_end, trim_start,
};
use vstd::prelude::*;

verus! {

/// A digit behind others is worth its value, and they ten times what they were.
pub proof fn digits_count_by_tens(s: Seq<char>, c: char)
    requires
        text::is_digit(c),
    ensures
        digits_value(s.push(c)) == 10 * digits_value(s) + (c as nat - 48),
        digits_value(seq![c]) == c as nat - 48,
        digits_value(Seq::<char>::empty()) == 0,
{
    assert(s.push(c).drop_last() =~= s);
    assert(seq![c].drop_last() =~= Seq::<char>::empty());
    reveal_with_fuel(digits_value, 2);
}

/// Numbers are written without leading zeros, and two numbers are not written alike.
pub proof fn numbers_are_written_once(n: nat, m: nat)
    ensures
        n > 0 ==> decimal(n)[0] != 0x30,
        decimal(0) == seq![0x30u8],
        decimal(n) == decimal(m) ==> n == m,
{
    lemma_no_zero(n);
    text::decimal_round_trips(n);
    text::decimal_round_trips(m);
}

proof fn lemma_no_zero(n: nat)
    ensures
        decimal(n).len() > 0,
        n > 0 ==> decimal(n)[0] != 0x30,
    decreases n,
{
    if n >= 10 {
        lemma_no_zero(n / 10);
        assert(decimal(n)[0] == decimal(n / 10)[0]);
    }
}

/// A number is read where it is nothing but digits and not too large; a sign may stand before it.
pub proof fn numbers_are_read(s: Seq<char>, max: nat)
    ensures
        s.len() > 0 && all_digits(s) && digits_value(s) <= max ==> bounded_number(s, max) == Some(
            digits_value(s),
        ),
        s.len() == 0 || !all_digits(s) || digits_value(s) > max ==> bounded_number(s, max) is None,
        s.len() > 0 && all_digits(s) && digits_value(s) <= 65535 ==> parse_u16(s) == Some(
            digits_value(s),
        ) && parse_u16(seq!['+'] + s) == Some(digits_value(s)),
        s.len() > 0 && all_digits(s) && digits_value(s) <= 0xffff_ffff_ffff_ffff ==> parse_u64(s)
            == Some(digits_value(s)),
        s.len() > 0 && all_digits(s) && digits_value(s) <= 0x7fff_ffff ==> parse_i32(s) == Some(
            digits_value(s) as int,
        ) && parse_i32(seq!['-'] + s) == Some(-(digits_value(s) as int)),
        s.len() > 0 && all_digits(s) && digits_value(s) > 65535 ==> parse_u16(s) is None,
{
    assert((seq!['+'] + s).skip(1) =~= s);
    assert((seq!['-'] + s).skip(1) =~= s);
    if s.len() > 0 && all_digits(s) {
        assert(text::is_digit(s[0]));
    }
}

/// Trimming takes the white space off both ends and nothing else.
pub proof fn trimming_takes_white_space(a: Seq<char>, s: Seq<char>, b: Seq<char>)
    requires
        s.len() > 0,
        !is_white(s[0]),
        !is_white(s.last()),
        forall|i: int| 0 <= i < a.len() ==> is_white(#[trigger] a[i]),
        forall|i: int| 0 <= i < b.len() ==> is_white(#[trigger] b[i]),
    ensures
        trim(a + s + b) == s,
        trim(a) == Seq::<char>::empty(),
{
    lemma_start(a, s + b);
    assert(a + s + b =~= a + (s + b));
    assert((s + b)[0] == s[0]);
    assert(trim_start(s + b) == s + b);
    lemma_end(s, b);
    assert(trim_end(s) == s);
    lemma_start(a, Seq::<char>::empty());
    assert(a + Seq::<char>::empty() =~= a);
}

proof fn lemma_start(a: Seq<char>, s: Seq<char>)
    requires
        forall|i: int| 0 <= i < a.len() ==> is_white(#[trigger] a[i]),
    ensures
        trim_start(a + s) == trim_start(s),
    decreases a.len(),
{
    if a.len() == 0 {
        assert(a + s =~= s);
    } else {
        let b = a.skip(1);
        assert forall|i: int| 0 <= i < b.len() implies is_white(#[trigger] b[i]) by {
            assert(b[i] == a[i + 1]);
        }
        assert((a + s).skip(1) =~= b + s);
        assert(is_white(a[0]));
        lemma_start(b, s);
    }
}

proof fn lemma_end(s: Seq<char>, b: Seq<char>)
    requires
        forall|i: int| 0 <= i < b.len() ==> is_white(#[trigger] b[i]),
    ensures
        trim_end(s + b) == trim_end(s),
    decreases b.len(),
{
    if b.len() == 0 {
        assert(s + b =~= s);
    } else {
        let c = b.drop_last();
        assert forall|i: int| 0 <= i < c.len() implies is_white(#[trigger] c[i]) by {
            assert(c[i] == b[i]);
        }
        assert((s + b).drop_last() =~= s + c);
        assert(is_white(b[b.len() - 1]));
        lemma_end(s, c);
    }
}

/// Blanks, tabs and line breaks are white space; letters, digits and signs are not.
pub proof fn white_space_is_blank(c: char)
    ensures
        is_white(' ') && is_white('\t') && is_white('\n') && is_white('\r'),
        0x21 <= c as u32 <= 0x7e ==> !is_white(c),
        is_white('\u{a0}') && is_white('\u{3000}') && is_white('\u{2028}'),
        !is_white('\u{200b}'),
{
}

/// A text that fits is shown whole; one that does not is cut, with an ellipsis at its end, and is
/// never longer than allowed.
pub proof fn long_texts_are_cut(s: Seq<char>, max: nat)
    requires
        max > 0,
    ensures
        s.len() <= max ==> elided(s, max) == s,
        s.len() > max ==> elided(s, max).len() == max && elided(s, max).last() == '…' && elided(
            s,
            max,
        ).drop_last() == s.take(max - 1),
{
    if s.len() > max {
        assert(elided(s, max).drop_last() =~= s.take(max - 1));
    }
}

/// The first occurrence of a character is the one that none is before, and the last the one that
/// none is behind.
pub proof fn occurrences_are_found(s: Seq<char>, c: char)
    ensures
        match index_first(s, c) {
            Some(i) => 0 <= i < s.len() && s[i] == c && forall|k: int| 0 <= k < i ==> s[k] != c,
            None => forall|k: int| 0 <= k < s.len() ==> s[k] != c,
        },
        match index_last(s, c) {
            Some(i) => 0 <= i < s.len() && s[i] == c && forall|k: int|
                i < k < s.len() ==> s[k] != c,
            None => forall|k: int| 0 <= k < s.len() ==> s[k] != c,
        },
    decreases s.len(),
{
    if s.len() > 0 {
        let p = s.drop_last();
        occurrences_are_found(p, c);
        assert forall|k: int| 0 <= k < p.len() implies p[k] == s[k] by {}
        assert(s.last() == s[s.len() - 1]);
        if index_first(p, c) is None {
            assert forall|k: int| 0 <= k < p.len() implies s[k] != c by {
                assert(p[k] == s[k]);
            }
        }
        if s.last() != c && index_last(p, c) is None {
            assert forall|k: int| 0 <= k < s.len() implies s[k] != c by {
                if k < p.len() {
                    assert(p[k] == s[k]);
                }
            }
        }
    }
}

/// A part occurs where it stands between a beginning and an end.
pub proof fn parts_occur_between(a: Seq<char>, part: Seq<char>, b: Seq<char>)
    ensures
        occurs(a + part + b, part),
        part.len() > a.len() ==> !occurs(a, part),
{
    let s = a + part + b;
    assert(s.subrange(a.len() as int, (a.len() + part.len()) as int) =~= part);
    assert(text::occurs_at(s, part, a.len() as int));
}

/// Capitals become small letters, and nothing else changes.
pub proof fn capitals_become_small(s: Seq<char>, i: int)
    requires
        0 <= i < s.len(),
    ensures
        ascii_lowered(s).len() == s.len(),
        'A' <= s[i] <= 'Z' ==> ascii_lowered(s)[i] as u32 == s[i] as u32 + 32,
        !('A' <= s[i] <= 'Z') ==> ascii_lowered(s)[i] == s[i],
{
}

/// ASCII bytes are the characters of the same numbers.
pub proof fn bytes_are_their_characters(b: Seq<u8>, i: int)
    requires
        0 <= i < b.len(),
        b[i] < 128,
    ensures
        ascii(b).len() == b.len(),
        ascii(b)[i] as u32 == b[i] as u32,
{
}

} // verus!
