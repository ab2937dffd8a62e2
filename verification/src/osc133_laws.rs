//! What a stream with prompt marks reports.

use crate::osc133;
use crate::osc133::{exit_code, first_field, run, Scan, Scanner, State};
use crate::text;
use vstd::prelude::*;
use vstd::utf8::*;

verus! {

/// A byte that cannot stand in a payload: it ends or aborts the sequence.
pub open spec fn free(s: Seq<u8>) -> bool {
    !s.contains(0x07) && !s.contains(0x1b)
}

/// What ends a sequence: BEL or ST.
pub open spec fn is_end(e: Seq<u8>) -> bool {
    e == seq![0x07u8] || e == seq![0x1bu8, 0x5c]
}

/// A prompt mark: `ESC ] 133 ;`, its letter, what follows the letter, and its end.
pub open spec fn mark(letter: u8, rest: Seq<u8>, end: Seq<u8>) -> Seq<u8> {
    seq![0x1bu8, 0x5d, 0x31, 0x33, 0x33, 0x3b, letter] + rest + end
}

/// Decimal digits.
pub open spec fn digits(d: Seq<u8>) -> bool {
    d.len() > 0 && forall|i: int| 0 <= i < d.len() ==> 0x30 <= #[trigger] d[i] <= 0x39
}

/// What they are worth.
pub open spec fn worth(d: Seq<u8>) -> int
    decreases d.len(),
{
    if d.len() == 0 {
        0
    } else {
        worth(d.drop_last()) * 10 + (d.last() - 0x30)
    }
}

/// A number of thirty-two bits as shells write it: a sign or none, and digits.
pub open spec fn writes_number(f: Seq<u8>, n: int) -> bool {
    ||| digits(f) && worth(f) == n && n <= 0x7fff_ffff
    ||| f.len() > 0 && f[0] == 0x2b && digits(f.skip(1)) && worth(f.skip(1)) == n && n
        <= 0x7fff_ffff
    ||| f.len() > 0 && f[0] == 0x2d && digits(f.skip(1)) && -worth(f.skip(1)) == n && n
        >= -0x8000_0000
}

proof fn lemma_mark(v: Scan, letter: u8, rest: Seq<u8>, end: Seq<u8>)
    requires
        v.state == State::Ground,
        free(rest),
        is_end(end),
        letter != 0x07,
        letter != 0x1b,
        rest.len() <= 59,
    ensures
        ({
            let (w, codes) = run(v, mark(letter, rest, end));
            &&& w.state == State::Ground
            &&& w.executing == (letter == 0x43 || v.executing && letter != 0x41 && letter != 0x44)
            &&& codes == if letter == 0x44 && v.executing {
                seq![exit_code(rest)]
            } else {
                Seq::<int>::empty()
            }
        }),
{
    let p = seq![0x31u8, 0x33, 0x33, 0x3b, letter] + rest;
    assert forall|i: int| 0 <= i < p.len() implies p[i] != 0x07 && p[i] != 0x1b by {
        if i >= 5 {
            assert(p[i] == rest[i - 5]);
        }
    }
    osc133::complete_sequence(v, p, end);
    assert(mark(letter, rest, end) =~= seq![0x1bu8, 0x5d] + p + end);
    assert(p.take(4) =~= seq![0x31u8, 0x33, 0x33, 0x3b]);
    assert(p.skip(5) =~= rest);
}

proof fn lemma_ascii(f: Seq<u8>)
    requires
        forall|i: int| 0 <= i < f.len() ==> #[trigger] f[i] < 0x80,
    ensures
        valid_utf8(f),
        decode_utf8(f) == text::ascii(f),
{
    let cs = text::ascii(f);
    assert(is_ascii_chars(cs)) by {
        assert forall|i: int| 0 <= i < cs.len() implies '\0' <= #[trigger] cs[i] <= '\u{7f}' by {
            assert(cs[i] == f[i] as char);
        }
    }
    is_ascii_chars_encode_utf8(cs);
    assert(encode_utf8(cs) =~= f) by {
        assert forall|i: int| 0 <= i < f.len() implies encode_utf8(cs)[i] == f[i] by {
            assert(cs[i] as u8 == encode_utf8(cs)[i]);
        }
    }
    encode_utf8_valid_utf8(cs);
    encode_utf8_decode_utf8(cs);
}

proof fn lemma_digits(d: Seq<u8>)
    requires
        forall|i: int| 0 <= i < d.len() ==> 0x30 <= #[trigger] d[i] <= 0x39,
    ensures
        text::all_digits(text::ascii(d)),
        text::digits_value(text::ascii(d)) == worth(d),
        worth(d) >= 0,
    decreases d.len(),
{
    let cs = text::ascii(d);
    assert forall|i: int| 0 <= i < cs.len() implies text::is_digit(#[trigger] cs[i]) by {
        assert(cs[i] == d[i] as char);
    }
    if d.len() > 0 {
        let p = d.drop_last();
        assert forall|i: int| 0 <= i < p.len() implies 0x30 <= #[trigger] p[i] <= 0x39 by {
            assert(p[i] == d[i]);
        }
        lemma_digits(p);
        assert(cs.drop_last() =~= text::ascii(p));
        assert(d.last() == d[d.len() - 1]);
        assert(cs.last() == d.last() as char);
    }
}

proof fn lemma_untrimmed(s: Seq<char>)
    requires
        s.len() > 0,
        !text::is_white(s[0]),
        !text::is_white(s.last()),
    ensures
        text::trim(s) == s,
{
}

proof fn lemma_field(f: Seq<u8>, more: Seq<u8>)
    requires
        !f.contains(0x3b),
        more.len() == 0 || more[0] == 0x3b,
    ensures
        first_field(f + more) == f,
    decreases f.len(),
{
    if f.len() == 0 {
        assert(f + more =~= more);
        assert(first_field(more) =~= f);
    } else {
        let g = f.skip(1);
        assert forall|i: int| 0 <= i < g.len() implies g[i] != 0x3b by {
            assert(g[i] == f[i + 1]);
        }
        lemma_field(g, more);
        assert((f + more).skip(1) =~= g + more);
        assert(f.contains(f[0]));
        assert(seq![f[0]] + g =~= f);
    }
}

/// The first field behind `133;D` is the code, whatever fields follow it.
pub proof fn the_first_field_is_the_code(f: Seq<u8>, more: Seq<u8>, n: int)
    requires
        writes_number(f, n),
        more.len() == 0 || more[0] == 0x3b,
    ensures
        exit_code(seq![0x3bu8] + f + more) == n,
{
    let rest = seq![0x3bu8] + f + more;
    assert(rest.skip(1) =~= f + more);
    let signed = f[0] == 0x2b || f[0] == 0x2d;
    let d = if signed {
        f.skip(1)
    } else {
        f
    };
    assert forall|i: int| 0 <= i < f.len() implies f[i] != 0x3b && #[trigger] f[i] < 0x80 && f[i]
        > 0x20 by {
        if signed && i > 0 {
            assert(d[i - 1] == f[i]);
        }
    }
    lemma_field(f, more);
    lemma_ascii(f);
    lemma_digits(d);
    let cs = text::ascii(f);
    assert(cs[0] == f[0] as char);
    assert(cs.last() == f.last() as char);
    assert(f.last() == f[f.len() - 1]);
    lemma_untrimmed(cs);
    if signed {
        assert(cs.skip(1) =~= text::ascii(d));
    } else {
        assert(d[0] >= 0x30);
    }
}

/// A command that was seen to start and to end reports its exit code, and nothing else is reported:
/// for every code, with or without more fields behind it, with anything that it prints in between,
/// and however the marks end.
pub proof fn a_command_reports_its_code(
    v: Scan,
    begin: Seq<u8>,
    printed: Seq<u8>,
    f: Seq<u8>,
    more: Seq<u8>,
    end: Seq<u8>,
    end2: Seq<u8>,
    n: int,
)
    requires
        v.state == State::Ground,
        free(begin),
        begin.len() <= 59,
        !printed.contains(0x1b),
        writes_number(f, n),
        more.len() == 0 || more[0] == 0x3b,
        free(more),
        f.len() + more.len() <= 58,
        is_end(end),
        is_end(end2),
    ensures
        run(
            v,
            mark(0x43, begin, end) + printed + mark(0x44, seq![0x3bu8] + f + more, end2),
        ).1 == seq![n],
{
    let rest = seq![0x3bu8] + f + more;
    let (a, b) = (mark(0x43, begin, end), mark(0x44, rest, end2));
    let d = if f[0] == 0x2b || f[0] == 0x2d {
        f.skip(1)
    } else {
        f
    };
    assert forall|i: int| 0 <= i < rest.len() implies rest[i] != 0x07 && rest[i] != 0x1b by {
        if 1 <= i <= f.len() {
            assert(rest[i] == f[i - 1]);
            if d != f && i > 1 {
                assert(d[i - 2] == f[i - 1]);
            }
        } else if i > f.len() {
            assert(rest[i] == more[i - 1 - f.len()]);
        }
    }
    lemma_mark(v, 0x43, begin, end);
    let w = run(v, a).0;
    osc133::plain_output_is_ignored(w, printed);
    lemma_mark(w, 0x44, rest, end2);
    osc133::chunks_do_not_matter(v, a, printed);
    osc133::chunks_do_not_matter(v, a + printed, b);
    the_first_field_is_the_code(f, more, n);
    assert(run(v, a + printed + b).1 =~= seq![n]);
}

/// The code in decimal is such a field.
pub proof fn decimal_codes_are_fields(n: nat)
    ensures
        n <= 0x7fff_ffff ==> writes_number(text::decimal(n), n as int),
        n <= 0x8000_0000 ==> writes_number(seq![0x2du8] + text::decimal(n), -(n as int)),
{
    lemma_decimal(n);
    assert((seq![0x2du8] + text::decimal(n)).skip(1) =~= text::decimal(n));
}

proof fn lemma_decimal(n: nat)
    ensures
        digits(text::decimal(n)),
        worth(text::decimal(n)) == n,
    decreases n,
{
    let d = text::decimal(n);
    if n < 10 {
        reveal_with_fuel(worth, 2);
        assert(d.drop_last() =~= seq![]);
    } else {
        lemma_decimal(n / 10);
        let front = text::decimal(n / 10);
        assert(d.drop_last() =~= front);
        assert forall|i: int| 0 <= i < d.len() implies 0x30 <= #[trigger] d[i] <= 0x39 by {
            if i < front.len() {
                assert(d[i] == front[i]);
            }
        }
    }
}

/// A command that ends without saying a code, or in something that is no number, counts as a
/// success.
pub proof fn codes_that_are_missing_are_zero(f: Seq<u8>, more: Seq<u8>, i: int)
    requires
        more.len() == 0 || more[0] == 0x3b,
        forall|k: int| 0 <= k < f.len() ==> #[trigger] f[k] < 0x80 && f[k] != 0x3b,
        f.len() == 0 || 0 <= i < f.len() && f[i] > 0x20 && !(0x30 <= f[i] <= 0x39) && f[i] != 0x2b
            && f[i] != 0x2d,
    ensures
        exit_code(Seq::<u8>::empty()) == 0,
        exit_code(seq![0x3bu8] + f + more) == 0,
{
    let rest = seq![0x3bu8] + f + more;
    assert(rest.skip(1) =~= f + more);
    lemma_field(f, more);
    lemma_ascii(f);
    let cs = text::ascii(f);
    let t = text::trim(cs);
    if f.len() > 0 {
        let c = f[i] as char;
        assert(cs[i] == c);
        lemma_trim_keeps(cs, c);
        let k = choose|k: int| 0 <= k < t.len() && t[k] == c;
        assert(!text::is_digit(t[k]));
        if t[0] == '-' || t[0] == '+' {
            assert(t.skip(1)[k - 1] == c);
        }
    } else {
        assert(cs =~= seq![]);
    }
}

proof fn lemma_trim_keeps(s: Seq<char>, c: char)
    requires
        s.contains(c),
        !text::is_white(c),
    ensures
        text::trim(s).contains(c),
{
    lemma_start_keeps(s, c);
    lemma_end_keeps(text::trim_start(s), c);
}

proof fn lemma_start_keeps(s: Seq<char>, c: char)
    requires
        s.contains(c),
        !text::is_white(c),
    ensures
        text::trim_start(s).contains(c),
    decreases s.len(),
{
    if s.len() > 0 && text::is_white(s[0]) {
        let k = choose|k: int| 0 <= k < s.len() && s[k] == c;
        assert(s.skip(1)[k - 1] == c);
        lemma_start_keeps(s.skip(1), c);
    }
}

proof fn lemma_end_keeps(s: Seq<char>, c: char)
    requires
        s.contains(c),
        !text::is_white(c),
    ensures
        text::trim_end(s).contains(c),
    decreases s.len(),
{
    if s.len() > 0 && text::is_white(s.last()) {
        let k = choose|k: int| 0 <= k < s.len() && s[k] == c;
        assert(s.last() == s[s.len() - 1]);
        assert(s.drop_last()[k] == c);
        lemma_end_keeps(s.drop_last(), c);
    }
}

/// An end without a start reports nothing, nor does a second end, nor one after a new prompt; the
/// other marks change nothing.
pub proof fn ends_need_a_start(
    v: Scan,
    letter: u8,
    other: Seq<u8>,
    rest: Seq<u8>,
    end: Seq<u8>,
    end2: Seq<u8>,
)
    requires
        v.state == State::Ground,
        free(rest),
        rest.len() <= 59,
        free(other),
        other.len() <= 59,
        is_end(end),
        is_end(end2),
        letter != 0x07,
        letter != 0x1b,
    ensures
        !v.executing ==> run(v, mark(0x44, rest, end)).1.len() == 0,
        letter == 0x44 || letter == 0x41 ==> run(
            run(v, mark(letter, other, end)).0,
            mark(0x44, rest, end2),
        ).1.len() == 0,
        letter != 0x43 && letter != 0x41 && letter != 0x44 ==> run(
            v,
            mark(letter, other, end),
        ).0.executing == v.executing && run(v, mark(letter, other, end)).1.len() == 0,
{
    lemma_mark(v, 0x44, rest, end);
    lemma_mark(v, letter, other, end);
    lemma_mark(run(v, mark(letter, other, end)).0, 0x44, rest, end2);
}

/// A payload of more than 64 bytes is no mark, and neither is one that does not begin with `133;`.
pub proof fn other_payloads_are_ignored(v: Scan, p: Seq<u8>, end: Seq<u8>)
    requires
        v.state == State::Ground,
        free(p),
        is_end(end),
        p.len() > 64 || p.len() < 5 || p[0] != 0x31 || p[1] != 0x33 || p[2] != 0x33 || p[3] != 0x3b,
    ensures
        run(v, seq![0x1bu8, 0x5d] + p + end).1.len() == 0,
        run(v, seq![0x1bu8, 0x5d] + p + end).0.executing == v.executing,
        run(v, seq![0x1bu8, 0x5d] + p + end).0.state == State::Ground,
{
    osc133::complete_sequence(v, p, end);
    if p.len() > 4 && p.take(4) == seq![0x31u8, 0x33, 0x33, 0x3b] {
        assert(p[0] == p.take(4)[0] && p[1] == p.take(4)[1] && p[2] == p.take(4)[2] && p[3]
            == p.take(4)[3]);
    }
}

/// A fresh scanner has seen no command.
pub proof fn a_fresh_scanner_waits(s: Scanner)
    requires
        call_ensures(Scanner::default, (), s),
    ensures
        s@.state == State::Ground,
        !s@.executing,
{
}

/// A code that is no text is taken for zero.
pub proof fn codes_that_are_no_text_are_zero(f: Seq<u8>, more: Seq<u8>)
    requires
        !f.contains(0x3b),
        !valid_utf8(f),
        more.len() == 0 || more[0] == 0x3b,
    ensures
        exit_code(seq![0x3bu8] + f + more) == 0,
{
    let rest = seq![0x3bu8] + f + more;
    assert(rest.skip(1) =~= f + more);
    lemma_field(f, more);
}

/// White space round a code does not matter.
pub proof fn codes_may_be_padded(a: Seq<u8>, f: Seq<u8>, b: Seq<u8>, more: Seq<u8>, n: int)
    requires
        writes_number(f, n),
        forall|k: int| 0 <= k < a.len() ==> #[trigger] a[k] == 0x20,
        forall|k: int| 0 <= k < b.len() ==> #[trigger] b[k] == 0x20,
        more.len() == 0 || more[0] == 0x3b,
    ensures
        exit_code(seq![0x3bu8] + (a + f + b) + more) == n,
{
    let g = a + f + b;
    let signed = f[0] == 0x2b || f[0] == 0x2d;
    let d = if signed {
        f.skip(1)
    } else {
        f
    };
    assert forall|i: int| 0 <= i < f.len() implies f[i] != 0x3b && #[trigger] f[i] < 0x80 && f[i]
        > 0x20 by {
        if signed && i > 0 {
            assert(d[i - 1] == f[i]);
        }
    }
    assert forall|i: int| 0 <= i < g.len() implies g[i] != 0x3b && #[trigger] g[i] < 0x80 by {
        if i < a.len() {
            assert(g[i] == a[i]);
        } else if i < a.len() + f.len() {
            assert(g[i] == f[i - a.len()]);
        } else {
            assert(g[i] == b[i - a.len() - f.len()]);
        }
    }
    let (r1, r2) = (seq![0x3bu8] + g + more, seq![0x3bu8] + f + more);
    assert(r1.skip(1) =~= g + more);
    assert(r2.skip(1) =~= f + more);
    lemma_field(g, more);
    lemma_field(f, more);
    lemma_ascii(g);
    lemma_ascii(f);
    let (ca, cf, cb) = (text::ascii(a), text::ascii(f), text::ascii(b));
    assert(text::ascii(g) =~= ca + cf + cb);
    assert(cf[0] == f[0] as char);
    assert(cf.last() == f.last() as char);
    assert(f.last() == f[f.len() - 1]);
    assert forall|i: int| 0 <= i < ca.len() implies text::is_white(#[trigger] ca[i]) by {
        assert(ca[i] == a[i] as char);
    }
    assert forall|i: int| 0 <= i < cb.len() implies text::is_white(#[trigger] cb[i]) by {
        assert(cb[i] == b[i] as char);
    }
    lemma_untrimmed(cf);
    crate::text_laws::trimming_takes_white_space(ca, cf, cb);
    the_first_field_is_the_code(f, more, n);
}

} // verus!
