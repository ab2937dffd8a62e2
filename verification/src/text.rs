//! Small text building blocks: decimal numbers, white space, and conversions between strings and
//! vectors of characters.

use vstd::prelude::*;
use vstd::slice::*;
use vstd::utf8::*;

verus! {

/// `String::push` appends one character.
pub assume_specification[ String::push ](s: &mut String, c: char)
    ensures
        final(s)@ == old(s)@.push(c),
;

/// The ASCII code of a decimal digit.
pub open spec fn digit(d: nat) -> u8 {
    (48 + d) as u8
}

/// A number in decimal, most significant digit first, without leading zeros.
pub open spec fn decimal(n: nat) -> Seq<u8>
    decreases n,
{
    if n < 10 {
        seq![digit(n)]
    } else {
        decimal(n / 10).push(digit(n % 10))
    }
}

/// ASCII bytes read as characters.
pub open spec fn ascii(bytes: Seq<u8>) -> Seq<char> {
    bytes.map_values(|b: u8| b as char)
}

/// Append `n` in decimal.
pub fn push_decimal(out: &mut Vec<u8>, n: u64)
    ensures
        final(out)@ == old(out)@ + decimal(n as nat),
    decreases n,
{
    if n >= 10 {
        push_decimal(out, n / 10);
    }
    out.push(48 + (n % 10) as u8);
    proof {
        assert(out@ =~= old(out)@ + decimal(n as nat));
    }
}

/// Append every byte of `more`.
pub fn push_bytes(out: &mut Vec<u8>, more: &[u8])
    ensures
        final(out)@ == old(out)@ + more@,
{
    let mut i: usize = 0;
    while i < more.len()
        invariant
            i <= more.len(),
            out@ == old(out)@ + more@.take(i as int),
        decreases more.len() - i,
    {
        out.push(more[i]);
        i = i + 1;
        assert(more@.take(i as int) =~= more@.take(i - 1).push(more@[i - 1]));
    }
    assert(more@.take(i as int) =~= more@);
}

/// The characters of a string.
pub fn chars_of(s: &str) -> (cs: Vec<char>)
    ensures
        cs@ == s@,
{
    let mut cs: Vec<char> = Vec::new();
    for c in it: s.chars()
        invariant
            cs.len() == it.index(),
            it.seq() == s@,
            forall|i: int| 0 <= i < cs.len() ==> cs@[i] == it.seq()[i],
    {
        cs.push(c);
    }
    assert(cs@ =~= s@);
    cs
}

/// Append every character of `more`.
pub fn push_chars(out: &mut String, more: &[char])
    ensures
        final(out)@ == old(out)@ + more@,
{
    let mut i: usize = 0;
    while i < more.len()
        invariant
            i <= more.len(),
            out@ == old(out)@ + more@.take(i as int),
        decreases more.len() - i,
    {
        out.push(more[i]);
        i = i + 1;
        assert(more@.take(i as int) =~= more@.take(i - 1).push(more@[i - 1]));
    }
    assert(more@.take(i as int) =~= more@);
}

/// The string made of the given characters.
pub fn string_of(cs: &[char]) -> (s: String)
    ensures
        s@ == cs@,
{
    let mut s = String::new();
    push_chars(&mut s, cs);
    assert(s@ =~= cs@);
    s
}

/// Append `n` in decimal.
pub fn push_number(out: &mut String, n: u128)
    ensures
        final(out)@ == old(out)@ + ascii(decimal(n as nat)),
    decreases n,
{
    if n >= 10 {
        push_number(out, n / 10);
    }
    out.push((48 + (n % 10) as u8) as char);
    proof {
        assert(out@ =~= old(out)@ + ascii(decimal(n as nat)));
    }
}

/// Whether a character is white space: the code points with the Unicode property White_Space.
pub open spec fn is_white(c: char) -> bool {
    let n = c as u32;
    ||| 0x9 <= n <= 0xd
    ||| n == 0x20
    ||| n == 0x85
    ||| n == 0xa0
    ||| n == 0x1680
    ||| 0x2000 <= n <= 0x200a
    ||| n == 0x2028
    ||| n == 0x2029
    ||| n == 0x202f
    ||| n == 0x205f
    ||| n == 0x3000
}

/// A text without the white space at its front.
pub open spec fn trim_start(s: Seq<char>) -> Seq<char>
    decreases s.len(),
{
    if s.len() > 0 && is_white(s[0]) {
        trim_start(s.skip(1))
    } else {
        s
    }
}

/// A text without the white space at its back.
pub open spec fn trim_end(s: Seq<char>) -> Seq<char>
    decreases s.len(),
{
    if s.len() > 0 && is_white(s.last()) {
        trim_end(s.drop_last())
    } else {
        s
    }
}

/// A text without the white space around it.
pub open spec fn trim(s: Seq<char>) -> Seq<char> {
    trim_end(trim_start(s))
}

fn white(c: char) -> (b: bool)
    ensures
        b == is_white(c),
{
    let n: u32 = c as u32;
    (0x9 <= n && n <= 0xd) || n == 0x20 || n == 0x85 || n == 0xa0 || n == 0x1680 || (0x2000 <= n
        && n <= 0x200a) || n == 0x2028 || n == 0x2029 || n == 0x202f || n == 0x205f || n == 0x3000
}

/// The part of `cs` between the white space at its two ends.
pub fn trimmed<'a>(cs: &'a [char]) -> (r: &'a [char])
    ensures
        r@ == trim(cs@),
{
    let mut i: usize = 0;
    assert(cs@.skip(0) =~= cs@);
    while i < cs.len() && white(cs[i])
        invariant
            i <= cs.len(),
            trim_start(cs@) == trim_start(cs@.skip(i as int)),
        decreases cs.len() - i,
    {
        assert(cs@.skip(i as int).skip(1) =~= cs@.skip(i + 1));
        i = i + 1;
    }
    let mut j: usize = cs.len();
    assert(cs@.subrange(i as int, j as int) =~= cs@.skip(i as int));
    while i < j && white(cs[j - 1])
        invariant
            i <= j <= cs.len(),
            trim(cs@) == trim_end(cs@.subrange(i as int, j as int)),
        decreases j,
    {
        assert(cs@.subrange(i as int, j as int).drop_last() =~= cs@.subrange(i as int, j - 1));
        j = j - 1;
    }
    slice_subrange(cs, i, j)
}

/// `s` without the white space around it.
pub fn trim_str(s: &str) -> (r: String)
    ensures
        r@ == trim(s@),
{
    let cs = chars_of(s);
    string_of(trimmed(cs.as_slice()))
}

/// Whether a character is an ASCII decimal digit.
pub open spec fn is_digit(c: char) -> bool {
    '0' <= c <= '9'
}

/// Whether a text is decimal digits only.
pub open spec fn all_digits(s: Seq<char>) -> bool {
    forall|i: int| 0 <= i < s.len() ==> is_digit(#[trigger] s[i])
}

/// The number that decimal digits write.
pub open spec fn digits_value(s: Seq<char>) -> nat
    decreases s.len(),
{
    if s.len() == 0 {
        0
    } else {
        digits_value(s.drop_last()) * 10 + (s.last() as nat - 48) as nat
    }
}

/// The number that `s` writes in decimal digits, if it is one and at most `max`.
pub open spec fn bounded_number(s: Seq<char>, max: nat) -> Option<nat> {
    if s.len() > 0 && all_digits(s) && digits_value(s) <= max {
        Some(digits_value(s))
    } else {
        None
    }
}

/// The number that a text writes as an optional plus sign and decimal digits, if it is one and
/// fits in sixteen bits.
pub open spec fn parse_u16(s: Seq<char>) -> Option<nat> {
    if s.len() > 0 && s[0] == '+' {
        bounded_number(s.skip(1), 0xffff)
    } else {
        bounded_number(s, 0xffff)
    }
}

/// The number that a text writes as an optional sign and decimal digits, if it is one and fits in
/// thirty-two bits.
pub open spec fn parse_i32(s: Seq<char>) -> Option<int> {
    if s.len() > 0 && s[0] == '-' {
        match bounded_number(s.skip(1), 0x8000_0000) {
            Some(n) => Some(-n),
            None => None,
        }
    } else {
        let d = if s.len() > 0 && s[0] == '+' {
            s.skip(1)
        } else {
            s
        };
        match bounded_number(d, 0x7fff_ffff) {
            Some(n) => Some(n as int),
            None => None,
        }
    }
}

proof fn lemma_digits_grow(s: Seq<char>, k: int)
    requires
        0 <= k <= s.len(),
        all_digits(s),
    ensures
        digits_value(s.take(k)) <= digits_value(s),
    decreases s.len(),
{
    if k == s.len() {
        assert(s.take(k) =~= s);
    } else {
        let t = s.drop_last();
        assert forall|i: int| 0 <= i < t.len() implies is_digit(#[trigger] t[i]) by {
            assert(t[i] == s[i]);
        }
        lemma_digits_grow(t, k);
        assert(t.take(k) =~= s.take(k));
    }
}

fn number(cs: &[char], max: u64) -> (r: Option<u64>)
    ensures
        r matches Some(n) ==> bounded_number(cs@, max as nat) == Some(n as nat),
        r is None ==> bounded_number(cs@, max as nat) is None,
{
    if cs.len() == 0 {
        return None;
    }
    let mut v: u128 = 0;
    let mut i: usize = 0;
    while i < cs.len()
        invariant
            i <= cs.len(),
            v == digits_value(cs@.take(i as int)),
            v <= max,
            all_digits(cs@.take(i as int)),
        decreases cs.len() - i,
    {
        let c: char = cs[i];
        if c < '0' || c > '9' {
            assert(!is_digit(cs@[i as int]));
            return None;
        }
        assert(cs@.take(i + 1).drop_last() =~= cs@.take(i as int));
        let d: u32 = c as u32 - 48;
        v = v * 10 + d as u128;
        i = i + 1;
        if v > max as u128 {
            proof {
                if all_digits(cs@) {
                    lemma_digits_grow(cs@, i as int);
                }
            }
            return None;
        }
        assert forall|k: int| 0 <= k < i implies is_digit(#[trigger] cs@.take(i as int)[k]) by {
            if k < i - 1 {
                assert(cs@.take(i - 1)[k] == cs@[k]);
            }
        }
    }
    assert(cs@.take(i as int) =~= cs@);
    Some(v as u64)
}

/// Read a number of at most sixteen bits.
pub fn read_u16(cs: &[char]) -> (r: Option<u16>)
    ensures
        r matches Some(n) ==> parse_u16(cs@) == Some(n as nat),
        r is None ==> parse_u16(cs@) is None,
{
    let n = if cs.len() > 0 && cs[0] == '+' {
        number(slice_subrange(cs, 1, cs.len()), 0xffff)
    } else {
        number(cs, 0xffff)
    };
    match n {
        Some(n) => Some(n as u16),
        None => None,
    }
}

/// The number that a text writes as an optional plus sign and decimal digits, if it is one and
/// fits in sixty-four bits.
pub open spec fn parse_u64(s: Seq<char>) -> Option<nat> {
    if s.len() > 0 && s[0] == '+' {
        bounded_number(s.skip(1), 0xffff_ffff_ffff_ffff)
    } else {
        bounded_number(s, 0xffff_ffff_ffff_ffff)
    }
}

/// Read a number of at most sixty-four bits.
pub fn read_u64(cs: &[char]) -> (r: Option<u64>)
    ensures
        r matches Some(n) ==> parse_u64(cs@) == Some(n as nat),
        r is None ==> parse_u64(cs@) is None,
{
    if cs.len() > 0 && cs[0] == '+' {
        number(slice_subrange(cs, 1, cs.len()), 0xffff_ffff_ffff_ffff)
    } else {
        number(cs, 0xffff_ffff_ffff_ffff)
    }
}

/// Read a signed number of thirty-two bits.
pub fn read_i32(cs: &[char]) -> (r: Option<i32>)
    ensures
        r matches Some(n) ==> parse_i32(cs@) == Some(n as int),
        r is None ==> parse_i32(cs@) is None,
{
    if cs.len() > 0 && cs[0] == '-' {
        match number(slice_subrange(cs, 1, cs.len()), 0x8000_0000) {
            Some(n) => Some((0 - n as i64) as i32),
            None => None,
        }
    } else {
        let n = if cs.len() > 0 && cs[0] == '+' {
            number(slice_subrange(cs, 1, cs.len()), 0x7fff_ffff)
        } else {
            number(cs, 0x7fff_ffff)
        };
        match n {
            Some(n) => Some(n as i32),
            None => None,
        }
    }
}

/// `std::str::from_utf8` gives the text that the bytes encode, if they are well-formed UTF-8, and
/// nothing otherwise.
#[verifier::external_body]
pub(crate) fn utf8_text(bytes: &[u8]) -> (r: Option<String>)
    ensures
        r is Some <==> valid_utf8(bytes@),
        r matches Some(s) ==> s@ == decode_utf8(bytes@),
{
    std::str::from_utf8(bytes).ok().map(String::from)
}

/// Where a character first occurs.
pub open spec fn index_first(s: Seq<char>, c: char) -> Option<int>
    decreases s.len(),
{
    if s.len() == 0 {
        None
    } else {
        match index_first(s.drop_last(), c) {
            Some(i) => Some(i),
            None => if s.last() == c {
                Some(s.len() - 1)
            } else {
                None
            },
        }
    }
}

/// Where a character last occurs.
pub open spec fn index_last(s: Seq<char>, c: char) -> Option<int>
    decreases s.len(),
{
    if s.len() == 0 {
        None
    } else if s.last() == c {
        Some(s.len() - 1)
    } else {
        index_last(s.drop_last(), c)
    }
}

/// Find where a character first occurs.
pub fn find_first(cs: &[char], c: char) -> (r: Option<usize>)
    ensures
        match r {
            Some(i) => index_first(cs@, c) == Some(i as int) && i < cs@.len(),
            None => index_first(cs@, c) is None,
        },
{
    let mut i: usize = 0;
    assert(cs@.take(0) =~= seq![]);
    while i < cs.len()
        invariant
            i <= cs@.len(),
            index_first(cs@.take(i as int), c) is None,
        decreases cs.len() - i,
    {
        assert(cs@.take(i + 1).drop_last() =~= cs@.take(i as int));
        if cs[i] == c {
            proof {
                lemma_first_stays(cs@, c, i + 1);
            }
            return Some(i);
        }
        i = i + 1;
    }
    assert(cs@.take(i as int) =~= cs@);
    None
}

proof fn lemma_first_stays(s: Seq<char>, c: char, k: int)
    requires
        0 <= k <= s.len(),
        index_first(s.take(k), c) is Some,
    ensures
        index_first(s, c) == index_first(s.take(k), c),
    decreases s.len(),
{
    if k == s.len() {
        assert(s.take(k) =~= s);
    } else {
        assert(s.drop_last().take(k) =~= s.take(k));
        lemma_first_stays(s.drop_last(), c, k);
    }
}

/// Find where a character last occurs.
pub fn find_last(cs: &[char], c: char) -> (r: Option<usize>)
    ensures
        match r {
            Some(i) => index_last(cs@, c) == Some(i as int) && i < cs@.len(),
            None => index_last(cs@, c) is None,
        },
{
    let mut i: usize = cs.len();
    assert(cs@.take(i as int) =~= cs@);
    while i > 0
        invariant
            i <= cs@.len(),
            index_last(cs@, c) == index_last(cs@.take(i as int), c),
        decreases i,
    {
        assert(cs@.take(i as int).drop_last() =~= cs@.take(i - 1));
        if cs[i - 1] == c {
            return Some(i - 1);
        }
        i = i - 1;
    }
    None
}

/// Whether `part` occurs in `s` at `i`.
pub open spec fn occurs_at(s: Seq<char>, part: Seq<char>, i: int) -> bool {
    0 <= i && i + part.len() <= s.len() && s.subrange(i, i + part.len()) == part
}

/// Whether `part` occurs in `s`.
pub open spec fn occurs(s: Seq<char>, part: Seq<char>) -> bool {
    exists|i: int| #[trigger] occurs_at(s, part, i)
}

/// Whether `part` occurs in `s`.
pub fn contains(s: &str, part: &str) -> (b: bool)
    ensures
        b == occurs(s@, part@),
{
    let cs = chars_of(s);
    let ps = chars_of(part);
    if ps.len() > cs.len() {
        return false;
    }
    let mut i: usize = 0;
    while i <= cs.len() - ps.len()
        invariant
            ps@ == part@,
            cs@ == s@,
            ps.len() <= cs.len(),
            i <= cs.len() - ps.len() + 1,
            forall|k: int| 0 <= k < i ==> !(#[trigger] occurs_at(s@, part@, k)),
        decreases cs.len() - i,
    {
        let mut j: usize = 0;
        while j < ps.len() && cs[i + j] == ps[j]
            invariant
                i + ps.len() <= cs.len(),
                j <= ps.len(),
                forall|k: int| 0 <= k < j ==> cs@[i + k] == ps@[k],
            decreases ps.len() - j,
        {
            j = j + 1;
        }
        if j == ps.len() {
            assert(s@.subrange(i as int, i + part@.len()) =~= part@);
            assert(occurs_at(s@, part@, i as int));
            return true;
        }
        assert(!occurs_at(s@, part@, i as int)) by {
            if occurs_at(s@, part@, i as int) {
                assert(s@.subrange(i as int, i + part@.len())[j as int] == part@[j as int]);
            }
        }
        i = i + 1;
    }
    false
}

/// A text cut to at most `max` characters, with an ellipsis where something is missing.
pub open spec fn elided(s: Seq<char>, max: nat) -> Seq<char> {
    if s.len() <= max {
        s
    } else if max == 0 {
        seq!['…']
    } else {
        s.take(max - 1).push('…')
    }
}

/// Shorten a text for a label, with an ellipsis when it overflows.
pub fn elide(s: &str, max: usize) -> (r: String)
    ensures
        r@ == elided(s@, max as nat),
{
    let cs = chars_of(s);
    if cs.len() <= max {
        return s.to_owned();
    }
    let keep: usize = if max == 0 {
        0
    } else {
        max - 1
    };
    let mut r = string_of(slice_subrange(cs.as_slice(), 0, keep));
    r.push('…');
    assert(r@ =~= elided(s@, max as nat));
    r
}

/// A text with its ASCII capital letters made small.
pub open spec fn ascii_lowered(s: Seq<char>) -> Seq<char> {
    s.map_values(
        |c: char|
            if 'A' <= c <= 'Z' {
                (c as u32 + 32) as char
            } else {
                c
            },
    )
}

/// Make the ASCII capital letters of a text small.
pub fn ascii_lower(cs: &[char]) -> (r: String)
    ensures
        r@ == ascii_lowered(cs@),
{
    let mut r = String::new();
    let mut i: usize = 0;
    assert(r@ =~= ascii_lowered(cs@.take(0)));
    while i < cs.len()
        invariant
            i <= cs@.len(),
            r@ == ascii_lowered(cs@.take(i as int)),
        decreases cs.len() - i,
    {
        let c: char = cs[i];
        if 'A' <= c && c <= 'Z' {
            let n: u8 = c as u8;
            r.push((n + 32) as char);
        } else {
            r.push(c);
        }
        i = i + 1;
        assert(r@ =~= ascii_lowered(cs@.take(i as int)));
    }
    assert(cs@.take(i as int) =~= cs@);
    r
}

/// A number written in decimal reads back as what it was.
pub proof fn decimal_round_trips(n: nat)
    ensures
        ascii(decimal(n)).len() > 0,
        all_digits(ascii(decimal(n))),
        digits_value(ascii(decimal(n))) == n,
    decreases n,
{
    let s = ascii(decimal(n));
    if n < 10 {
        reveal_with_fuel(digits_value, 2);
        assert(s =~= seq![(48 + n) as u8 as char]);
        assert(s.drop_last() =~= seq![]);
    } else {
        decimal_round_trips(n / 10);
        let front = ascii(decimal(n / 10));
        assert(s =~= front.push(digit(n % 10) as char));
        assert(s.drop_last() =~= front);
        assert forall|i: int| 0 <= i < s.len() implies is_digit(#[trigger] s[i]) by {
            if i < front.len() {
                assert(s[i] == front[i]);
            }
        }
    }
}

/// The first occurrence of a character that comes right behind a text without it.
pub proof fn lemma_first_behind(a: Seq<char>, c: char, b: Seq<char>)
    requires
        !a.contains(c),
    ensures
        index_first(a.push(c) + b, c) == Some(a.len() as int),
    decreases b.len(),
{
    if b.len() == 0 {
        lemma_no_first(a, c);
        assert(a.push(c) + b =~= a.push(c));
        assert(a.push(c).drop_last() =~= a);
    } else {
        lemma_first_behind(a, c, b.drop_last());
        assert((a.push(c) + b).drop_last() =~= a.push(c) + b.drop_last());
    }
}

proof fn lemma_no_first(a: Seq<char>, c: char)
    requires
        !a.contains(c),
    ensures
        index_first(a, c) is None,
    decreases a.len(),
{
    if a.len() > 0 {
        let p = a.drop_last();
        assert(a.last() == a[a.len() - 1]);
        assert forall|i: int| 0 <= i < p.len() implies p[i] != c by {
            assert(p[i] == a[i]);
        }
        lemma_no_first(p, c);
    }
}

/// The last occurrence of a character that comes right before a text without it.
pub proof fn lemma_last_before(a: Seq<char>, c: char, b: Seq<char>)
    requires
        !b.contains(c),
    ensures
        index_last(a.push(c) + b, c) == Some(a.len() as int),
    decreases b.len(),
{
    let s = a.push(c) + b;
    if b.len() == 0 {
        assert(s =~= a.push(c));
    } else {
        let p = b.drop_last();
        assert(b.last() == b[b.len() - 1]);
        assert(s.last() == b.last());
        assert forall|i: int| 0 <= i < p.len() implies p[i] != c by {
            assert(p[i] == b[i]);
        }
        lemma_last_before(a, c, p);
        assert(s.drop_last() =~= a.push(c) + p);
    }
}

/// A text without a character has no last occurrence of it.
pub proof fn lemma_no_last(a: Seq<char>, c: char)
    requires
        !a.contains(c),
    ensures
        index_last(a, c) is None,
    decreases a.len(),
{
    if a.len() > 0 {
        let p = a.drop_last();
        assert(a.last() == a[a.len() - 1]);
        assert forall|i: int| 0 <= i < p.len() implies p[i] != c by {
            assert(p[i] == a[i]);
        }
        lemma_no_last(p, c);
    }
}

/// The bytes of two texts behind each other are the bytes of both.
pub proof fn lemma_encode_both(a: Seq<char>, b: Seq<char>)
    ensures
        vstd::utf8::encode_utf8(a + b) == vstd::utf8::encode_utf8(a) + vstd::utf8::encode_utf8(b),
    decreases a.len(),
{
    if a.len() == 0 {
        assert(a + b =~= b);
        assert(vstd::utf8::encode_utf8(a) + vstd::utf8::encode_utf8(b)
            =~= vstd::utf8::encode_utf8(b));
    } else {
        lemma_encode_both(a.drop_first(), b);
        assert((a + b).drop_first() =~= a.drop_first() + b);
        assert(vstd::utf8::encode_utf8(a + b) =~= vstd::utf8::encode_scalar(a[0] as u32) + (
        vstd::utf8::encode_utf8(a.drop_first()) + vstd::utf8::encode_utf8(b)));
    }
}

} // verus!
