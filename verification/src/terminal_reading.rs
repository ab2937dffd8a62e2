//! A stream read character by character gives the orders that it was written from.

use crate::snapshot;
use crate::snapshot::{Cell, Grid, Modes, Pen, Screen};
use crate::snapshot_laws;
use crate::snapshot_laws::{Op, Param};
use crate::terminal;
use crate::terminal::{Order, Reading, Shape, Terminal};
use crate::terminal_laws;
use crate::text;
use vstd::prelude::*;

verus! {

proof fn lemma_read_both(r: Reading, a: Seq<char>, b: Seq<char>)
    ensures
        ({
            let (q, os) = terminal::read(r, a);
            let (p, more) = terminal::read(q, b);
            &&& terminal::read(r, a + b).0 == p
            &&& terminal::read(r, a + b).1 == os + more
        }),
    decreases b.len(),
{
    let (q, os) = terminal::read(r, a);
    if b.len() == 0 {
        assert(a + b =~= a);
        assert(os + Seq::<Order>::empty() =~= os);
    } else {
        assert((a + b).drop_last() =~= a + b.drop_last());
        assert((a + b).last() == b.last());
        lemma_read_both(r, a, b.drop_last());
        let (p, more) = terminal::read(q, b.drop_last());
        let last = terminal::step(p, b.last()).1;
        assert(os + more + last =~= os + (more + last));
    }
}

proof fn lemma_read_one(r: Reading, c: char)
    ensures
        terminal::read(r, seq![c]).0 == terminal::step(r, c).0,
        terminal::read(r, seq![c]).1 == terminal::step(r, c).1,
{
    let s = seq![c];
    assert(s.drop_last() =~= seq![]);
    assert(s.last() == c);
    reveal_with_fuel(terminal::read, 2);
    let os = terminal::step(r, c).1;
    assert(Seq::<Order>::empty() + os =~= os);
}

/// What can stand in a control sequence: none of it ends the sequence.
pub open spec fn inner(s: Seq<char>) -> bool {
    forall|i: int| 0 <= i < s.len() ==> !('@' <= #[trigger] s[i] <= '~')
}

proof fn lemma_collect(p: Seq<char>, s: Seq<char>)
    requires
        inner(s),
    ensures
        terminal::read(Reading::Control(p), s).0 == Reading::Control(p + s),
        terminal::read(Reading::Control(p), s).1 == Seq::<Order>::empty(),
    decreases s.len(),
{
    if s.len() == 0 {
        assert(p + s =~= p);
    } else {
        let front = s.drop_last();
        assert forall|i: int| 0 <= i < front.len() implies !('@' <= #[trigger] front[i] <= '~') by {
            assert(front[i] == s[i]);
        }
        lemma_collect(p, front);
        assert(s.last() == s[s.len() - 1]);
        assert((p + front).push(s.last()) =~= p + s);
    }
}

/// A control sequence, read from its beginning to its end.
proof fn lemma_control(s: Seq<char>, c: char)
    requires
        inner(s),
        '@' <= c <= '~',
    ensures
        terminal::read(Reading::Ground, seq!['\x1b', '['] + s + seq![c]).0 == Reading::Ground,
        terminal::read(Reading::Ground, seq!['\x1b', '['] + s + seq![c]).1
            == terminal::control_orders(s, c),
{
    let head = seq!['\x1b', '['];
    assert(head =~= seq!['\x1b'] + seq!['[']);
    let none = Seq::<Order>::empty();
    lemma_read_both(Reading::Ground, seq!['\x1b'], seq!['[']);
    lemma_read_one(Reading::Ground, '\x1b');
    lemma_read_one(Reading::Escape, '[');
    assert(terminal::read(Reading::Ground, head).1 =~= none);
    let empty = Seq::<char>::empty();
    lemma_read_both(Reading::Ground, head, s);
    lemma_collect(empty, s);
    assert(empty + s =~= s);
    assert(terminal::read(Reading::Ground, head + s).1 =~= none);
    lemma_read_both(Reading::Ground, head + s, seq![c]);
    lemma_read_one(Reading::Control(s), c);
    let os = terminal::control_orders(s, c);
    assert(none + os =~= os);
}

proof fn lemma_split(a: Seq<char>, sep: char, b: Seq<char>)
    requires
        !b.contains(sep),
    ensures
        terminal::split(a + seq![sep] + b, sep) == terminal::split(a, sep).push(b),
        terminal::split(b, sep) == seq![b],
    decreases b.len(),
{
    let s = a + seq![sep] + b;
    if b.len() == 0 {
        assert(s.drop_last() =~= a);
        assert(s.last() == sep);
        assert(b =~= seq![]);
        assert(terminal::split(b, sep) =~= seq![b]);
    } else {
        let front = b.drop_last();
        assert forall|i: int| 0 <= i < front.len() implies front[i] != sep by {
            assert(front[i] == b[i]);
        }
        lemma_split(a, sep, front);
        assert(s.drop_last() =~= a + seq![sep] + front);
        assert(s.last() == b.last());
        assert(b.last() == b[b.len() - 1]);
        assert(front.push(b.last()) =~= b);
        assert(terminal::split(a, sep).push(front).drop_last() =~= terminal::split(a, sep));
        assert(terminal::split(s, sep) =~= terminal::split(a, sep).push(b));
        assert(seq![front].drop_last() =~= seq![]);
        assert(terminal::split(b, sep) =~= seq![b]);
    }
}

proof fn lemma_number(n: nat)
    ensures
        snapshot::num(n as int).len() > 0,
        text::all_digits(snapshot::num(n as int)),
        text::digits_value(snapshot::num(n as int)) == n,
{
    text::decimal_round_trips(n);
}

/// A parameter that can be written: it has something in it.
pub open spec fn solid(ps: Seq<Param>) -> bool {
    forall|i: int| 0 <= i < ps.len() ==> (#[trigger] ps[i]).len() > 0
}

/// The characters of written parameters.
spec fn of_params(c: char) -> bool {
    text::is_digit(c) || c == ':' || c == ';'
}

proof fn lemma_param(p: Param)
    requires
        p.len() > 0,
    ensures
        terminal::read_param(snapshot_laws::param_text(p)) == p,
        forall|i: int|
            0 <= i < snapshot_laws::param_text(p).len() ==> text::is_digit(
                #[trigger] snapshot_laws::param_text(p)[i],
            ) || snapshot_laws::param_text(p)[i] == ':',
    decreases p.len(),
{
    let t = snapshot_laws::param_text(p);
    let n = p.last();
    let d = snapshot::num(n as int);
    lemma_number(n);
    assert forall|i: int| 0 <= i < d.len() implies d[i] != ':' by {
        assert(text::is_digit(d[i]));
    }
    if p.len() == 1 {
        assert(t == d);
        lemma_split(seq![], ':', d);
        assert(terminal::read_param(t) =~= p);
    } else {
        let front = p.drop_last();
        lemma_param(front);
        let f = snapshot_laws::param_text(front);
        reveal_strlit(":");
        assert(":"@ =~= seq![':']);
        lemma_split(f, ':', d);
        let parts = terminal::split(f, ':');
        assert(terminal::split(t, ':') == parts.push(d));
        assert(terminal::read_param(f).len() == parts.len());
        assert forall|i: int| 0 <= i < p.len() implies terminal::read_param(t)[i] == p[i] by {
            if i < front.len() {
                assert(terminal::read_param(f)[i] == front[i]);
                assert(parts.push(d)[i] == parts[i]);
            }
        }
        assert(terminal::read_param(t) =~= p);
    }
}

/// Parameters as they stand in a sequence: without a separator before the first.
spec fn body(ps: Seq<Param>) -> Seq<char> {
    snapshot_laws::param_text(ps[0]) + snapshot_laws::params_text(ps.skip(1))
}

proof fn lemma_params(ps: Seq<Param>)
    requires
        ps.len() > 0,
        solid(ps),
    ensures
        terminal::read_params(body(ps)) == ps,
        forall|i: int| 0 <= i < body(ps).len() ==> of_params(#[trigger] body(ps)[i]),
    decreases ps.len(),
{
    let t = body(ps);
    let last = ps.last();
    assert(last == ps[ps.len() - 1]);
    let d = snapshot_laws::param_text(last);
    lemma_param(last);
    assert forall|i: int| 0 <= i < d.len() implies d[i] != ';' by {
        assert(text::is_digit(d[i]) || d[i] == ':');
    }
    if ps.len() == 1 {
        assert(ps.skip(1) =~= seq![]);
        assert(t =~= d);
        lemma_split(seq![], ';', d);
        assert(terminal::read_params(t) =~= ps);
    } else {
        let front = ps.drop_last();
        assert forall|i: int| 0 <= i < front.len() implies (#[trigger] front[i]).len() > 0 by {
            assert(front[i] == ps[i]);
        }
        lemma_params(front);
        let f = body(front);
        assert(front[0] == ps[0]);
        assert(front.skip(1) =~= ps.skip(1).drop_last());
        assert(ps.skip(1).last() == last);
        reveal_strlit(";");
        assert(";"@ =~= seq![';']);
        assert(t =~= f + seq![';'] + d);
        lemma_split(f, ';', d);
        let parts = terminal::split(f, ';');
        assert(terminal::read_params(f).len() == parts.len());
        assert forall|i: int| 0 <= i < ps.len() implies terminal::read_params(t)[i] == ps[i] by {
            if i < front.len() {
                assert(terminal::read_params(f)[i] == front[i]);
                assert(parts.push(d)[i] == parts[i]);
            }
        }
        assert(terminal::read_params(t) =~= ps);
    }
}

/// An order that a terminal can read: what is printed has no controls in it, and a title none that
/// would end it.
pub open spec fn legible(o: Order) -> bool {
    match o {
        Order::Print(t) => forall|i: int|
            0 <= i < t.len() ==> snapshot::printable(#[trigger] t[i]),
        Order::Attributes(ps) => ps.len() > 0 && solid(ps),
        Order::Title(t) => forall|i: int|
            0 <= i < t.len() ==> #[trigger] t[i] != '\x07' && t[i] != '\x1b',
        _ => true,
    }
}

/// Characters that are printed one by one.
pub open spec fn letters(t: Seq<char>) -> Seq<Order>
    decreases t.len(),
{
    if t.len() == 0 {
        seq![]
    } else {
        letters(t.drop_last()).push(Order::Print(seq![t.last()]))
    }
}

/// An order as it is read.
pub open spec fn spelled(o: Order) -> Seq<Order> {
    match o {
        Order::Print(t) => letters(t),
        _ => seq![o],
    }
}

/// A text is read as orders, and is over with them.
spec fn reads(s: Seq<char>, os: Seq<Order>) -> bool {
    terminal::read(Reading::Ground, s) == (Reading::Ground, os)
}

proof fn lemma_letters(t: Seq<char>)
    requires
        forall|i: int| 0 <= i < t.len() ==> snapshot::printable(#[trigger] t[i]),
    ensures
        reads(t, letters(t)),
    decreases t.len(),
{
    if t.len() > 0 {
        let front = t.drop_last();
        assert forall|i: int| 0 <= i < front.len() implies snapshot::printable(
            #[trigger] front[i],
        ) by {
            assert(front[i] == t[i]);
        }
        lemma_letters(front);
        assert(t.last() == t[t.len() - 1]);
        let o = Order::Print(seq![t.last()]);
        assert(letters(front) + seq![o] =~= letters(front).push(o));
    }
}

proof fn lemma_attributes(ps: Seq<Param>)
    requires
        ps.len() > 0,
        solid(ps),
    ensures
        reads(terminal::order_text(Order::Attributes(ps)), seq![Order::Attributes(ps)]),
{
    lemma_params(ps);
    let b = body(ps);
    lemma_inner(b);
    lemma_control(b, 'm');
    reveal_strlit("\x1b[");
    reveal_strlit("m");
    assert("\x1b["@ =~= seq!['\x1b', '[']);
    assert("m"@ =~= seq!['m']);
    assert(terminal::order_text(Order::Attributes(ps)) =~= seq!['\x1b', '['] + b + seq!['m']);
}

proof fn lemma_inner(s: Seq<char>)
    requires
        forall|i: int| 0 <= i < s.len() ==> of_params(#[trigger] s[i]),
    ensures
        inner(s),
{
    assert forall|i: int| 0 <= i < s.len() implies !('@' <= #[trigger] s[i] <= '~') by {
        assert(of_params(s[i]));
    }
}

/// Two numbers as parameters.
#[verifier::rlimit(30)]
proof fn lemma_pair(a: nat, b: nat)
    ensures
        body(seq![seq![a], seq![b]]) == snapshot::num(a as int) + seq![';'] + snapshot::num(
            b as int,
        ),
        inner(body(seq![seq![a], seq![b]])),
        terminal::read_params(body(seq![seq![a], seq![b]])) == seq![seq![a], seq![b]],
{
    let ps = seq![seq![a], seq![b]];
    lemma_params(ps);
    lemma_inner(body(ps));
    let rest = ps.skip(1);
    assert(rest =~= seq![seq![b]]);
    assert(rest.drop_last() =~= seq![]);
    assert(rest.last() == seq![b]);
    assert(snapshot_laws::params_text(rest.drop_last()) =~= seq![]);
    reveal_strlit(";");
    assert(";"@ =~= seq![';']);
    assert(snapshot_laws::param_text(seq![a]) == snapshot::num(a as int));
    assert(snapshot_laws::param_text(seq![b]) == snapshot::num(b as int));
    assert(body(ps) =~= snapshot::num(a as int) + seq![';'] + snapshot::num(b as int));
}

proof fn lemma_move(line: nat, column: nat)
    ensures
        reads(
            terminal::order_text(Order::Move { line, column }),
            seq![Order::Move { line, column }],
        ),
{
    lemma_pair(line, column);
    let b = body(seq![seq![line], seq![column]]);
    lemma_control(b, 'H');
    reveal_strlit("\x1b[");
    reveal_strlit(";");
    reveal_strlit("H");
    assert("\x1b["@ =~= seq!['\x1b', '[']);
    assert(";"@ =~= seq![';']);
    assert("H"@ =~= seq!['H']);
    assert(terminal::order_text(Order::Move { line, column }) =~= seq!['\x1b', '['] + b + seq![
        'H',
    ]);
}

proof fn lemma_digits_inner(n: nat)
    ensures
        inner(snapshot::num(n as int)),
{
    lemma_number(n);
    let s = snapshot::num(n as int);
    assert forall|i: int| 0 <= i < s.len() implies !('@' <= #[trigger] s[i] <= '~') by {
        assert(text::is_digit(s[i]));
    }
}

proof fn lemma_mode(mode: nat, on: bool)
    ensures
        reads(
            terminal::order_text(Order::Private { mode, on }),
            seq![Order::Private { mode, on }],
        ),
        reads(
            terminal::order_text(Order::Public { mode, on }),
            seq![Order::Public { mode, on }],
        ),
{
    let n = snapshot::num(mode as int);
    lemma_number(mode);
    lemma_digits_inner(mode);
    let c = if on {
        'h'
    } else {
        'l'
    };
    let q = seq!['?'] + n;
    assert(q.skip(1) =~= n);
    assert forall|i: int| 0 <= i < q.len() implies !('@' <= #[trigger] q[i] <= '~') by {
        if i > 0 {
            assert(q[i] == n[i - 1]);
        }
    }
    assert(text::is_digit(n[0]));
    lemma_control(q, c);
    lemma_control(n, c);
    reveal_strlit("\x1b[?");
    reveal_strlit("\x1b[");
    reveal_strlit("h");
    reveal_strlit("l");
    assert("h"@ =~= seq!['h']);
    assert("l"@ =~= seq!['l']);
    let head = seq!['\x1b', '['];
    assert("\x1b["@ =~= head);
    assert("\x1b[?"@ =~= head + seq!['?']);
    assert(terminal::order_text(Order::Private { mode, on }) =~= head + q + seq![c]);
    assert(terminal::order_text(Order::Public { mode, on }) =~= head + n + seq![c]);
}

proof fn lemma_keyboard(n: nat)
    ensures
        reads(terminal::order_text(Order::Keyboard(n)), seq![Order::Keyboard(n)]),
{
    lemma_pair(n, 1);
    let b = body(seq![seq![n], seq![1nat]]);
    let s = seq!['='] + b;
    assert(s.skip(1) =~= b);
    assert forall|i: int| 0 <= i < s.len() implies !('@' <= #[trigger] s[i] <= '~') by {
        if i > 0 {
            assert(s[i] == b[i - 1]);
        }
    }
    lemma_control(s, 'u');
    snapshot_laws::lemma_digit(1);
    assert(snapshot::num(1) =~= seq!['1']);
    reveal_strlit("\x1b[=");
    reveal_strlit(";1u");
    let head = seq!['\x1b', '['];
    assert("\x1b[="@ =~= head + seq!['=']);
    assert(";1u"@ =~= seq![';'] + seq!['1'] + seq!['u']);
    assert(terminal::order_text(Order::Keyboard(n)) =~= head + s + seq!['u']);
}

proof fn lemma_keypad()
    ensures
        reads(terminal::order_text(Order::Keypad), seq![Order::Keypad]),
{
    reveal_strlit("\x1b=");
    assert("\x1b="@ =~= seq!['\x1b'] + seq!['=']);
    lemma_read_both(Reading::Ground, seq!['\x1b'], seq!['=']);
    lemma_read_one(Reading::Ground, '\x1b');
    lemma_read_one(Reading::Escape, '=');
    assert(Seq::<Order>::empty() + seq![Order::Keypad] =~= seq![Order::Keypad]);
}

proof fn lemma_line_end()
    ensures
        reads(terminal::order_text(Order::Return), seq![Order::Return]),
        reads(terminal::order_text(Order::Feed), seq![Order::Feed]),
{
    reveal_strlit("\r");
    reveal_strlit("\n");
    assert("\r"@ =~= seq!['\r']);
    assert("\n"@ =~= seq!['\n']);
    lemma_read_one(Reading::Ground, '\r');
    lemma_read_one(Reading::Ground, '\n');
}

proof fn lemma_command(p: Seq<char>, s: Seq<char>)
    requires
        forall|i: int| 0 <= i < s.len() ==> #[trigger] s[i] != '\x07' && s[i] != '\x1b',
    ensures
        terminal::read(Reading::Command(p), s).0 == Reading::Command(p + s),
        terminal::read(Reading::Command(p), s).1 == Seq::<Order>::empty(),
    decreases s.len(),
{
    if s.len() == 0 {
        assert(p + s =~= p);
    } else {
        let front = s.drop_last();
        assert forall|i: int| 0 <= i < front.len() implies #[trigger] front[i] != '\x07'
            && front[i] != '\x1b' by {
            assert(front[i] == s[i]);
        }
        lemma_command(p, front);
        assert(s.last() == s[s.len() - 1]);
        assert((p + front).push(s.last()) =~= p + s);
    }
}

proof fn lemma_title(t: Seq<char>)
    requires
        forall|i: int| 0 <= i < t.len() ==> #[trigger] t[i] != '\x07' && t[i] != '\x1b',
    ensures
        reads(terminal::order_text(Order::Title(t)), seq![Order::Title(t)]),
{
    let s = seq!['2', ';'] + t;
    assert(s[0] == '2' && s[1] == ';');
    assert forall|i: int| 0 <= i < s.len() implies #[trigger] s[i] != '\x07' && s[i] != '\x1b' by {
        if i >= 2 {
            assert(s[i] == t[i - 2]);
        }
    }
    let head = seq!['\x1b', ']'];
    let none = Seq::<Order>::empty();
    let empty = Seq::<char>::empty();
    assert(head =~= seq!['\x1b'] + seq![']']);
    lemma_read_both(Reading::Ground, seq!['\x1b'], seq![']']);
    lemma_read_one(Reading::Ground, '\x1b');
    lemma_read_one(Reading::Escape, ']');
    assert(terminal::read(Reading::Ground, head).1 =~= none);
    lemma_read_both(Reading::Ground, head, s);
    lemma_command(empty, s);
    assert(empty + s =~= s);
    assert(terminal::read(Reading::Ground, head + s).1 =~= none);
    lemma_read_both(Reading::Ground, head + s, seq!['\x07']);
    lemma_read_one(Reading::Command(s), '\x07');
    assert(s.skip(2) =~= t);
    assert(none + seq![Order::Title(t)] =~= seq![Order::Title(t)]);
    reveal_strlit("\x1b]2;");
    reveal_strlit("\x07");
    assert("\x07"@ =~= seq!['\x07']);
    assert("\x1b]2;"@ =~= head + seq!['2', ';']);
    assert(terminal::order_text(Order::Title(t)) =~= head + s + seq!['\x07']);
}

proof fn lemma_order(o: Order)
    requires
        legible(o),
    ensures
        reads(terminal::order_text(o), spelled(o)),
{
    match o {
        Order::Print(t) => {
            lemma_letters(t);
        },
        Order::Return => {
            lemma_line_end();
        },
        Order::Feed => {
            lemma_line_end();
        },
        Order::Attributes(ps) => {
            lemma_attributes(ps);
        },
        Order::Move { line, column } => {
            lemma_move(line, column);
        },
        Order::Private { mode, on } => {
            lemma_mode(mode, on);
        },
        Order::Public { mode, on } => {
            lemma_mode(mode, on);
        },
        Order::Keypad => {
            lemma_keypad();
        },
        Order::Keyboard(n) => {
            lemma_keyboard(n);
        },
        Order::Title(t) => {
            lemma_title(t);
        },
    }
}

/// Every one of these orders can be read.
pub open spec fn all_legible(os: Seq<Order>) -> bool {
    forall|i: int| 0 <= i < os.len() ==> legible(#[trigger] os[i])
}

/// A terminal that carries out an order as it is read does what the order says.
proof fn lemma_spelled(k: Shape, t: Terminal, o: Order)
    ensures
        t.after(k, spelled(o)) == t.obeyed(k, o),
{
    match o {
        Order::Print(text) => {
            lemma_letters_printed(k, t, text);
        },
        _ => {
            terminal_laws::lemma_one(k, t, o);
        },
    }
}

proof fn lemma_letters_printed(k: Shape, t: Terminal, text: Seq<char>)
    ensures
        t.after(k, letters(text)) == (Terminal {
            screen: t.screen.printed(k, t.pen, t.modes, text),
            ..t
        }),
    decreases text.len(),
{
    if text.len() > 0 {
        let front = text.drop_last();
        lemma_letters_printed(k, t, front);
        let o = Order::Print(seq![text.last()]);
        assert(letters(front).push(o).drop_last() =~= letters(front));
        let one = seq![text.last()];
        let mid = t.after(k, letters(front));
        assert(one.drop_last() =~= seq![]);
        assert(one.last() == text.last());
        assert(mid.screen.printed(k, mid.pen, mid.modes, one.drop_last()) == mid.screen);
    }
}

/// A stream that was written from orders is read as these orders: a terminal that it is fed to does
/// what they say, one after the other.
pub proof fn orders_are_read_back(k: Shape, t: Terminal, os: Seq<Order>)
    requires
        all_legible(os),
    ensures
        terminal::read(Reading::Ground, terminal::orders_text(os)).0 == Reading::Ground,
        t.fed(k, terminal::orders_text(os)) == t.after(k, os),
    decreases os.len(),
{
    if os.len() > 0 {
        let front = os.drop_last();
        assert forall|i: int| 0 <= i < front.len() implies legible(#[trigger] front[i]) by {
            assert(front[i] == os[i]);
        }
        orders_are_read_back(k, t, front);
        let o = os.last();
        assert(o == os[os.len() - 1]);
        lemma_order(o);
        let a = terminal::orders_text(front);
        lemma_read_both(Reading::Ground, a, terminal::order_text(o));
        let first = terminal::read(Reading::Ground, a).1;
        terminal_laws::lemma_after_both(k, t, first, spelled(o));
        lemma_spelled(k, t.after(k, first), o);
    }
}

proof fn lemma_solid_both(a: Seq<Param>, b: Seq<Param>)
    requires
        solid(a),
        solid(b),
    ensures
        solid(a + b),
{
    assert forall|i: int| 0 <= i < (a + b).len() implies (#[trigger] (a + b)[i]).len() > 0 by {
        if i < a.len() {
            assert((a + b)[i] == a[i]);
        } else {
            assert((a + b)[i] == b[i - a.len()]);
        }
    }
}

#[verifier::rlimit(30)]
proof fn lemma_pen_solid(p: Pen)
    ensures
        solid(seq![seq![0nat]] + snapshot_laws::pen_params(p)),
{
    let s = p.style;
    let r9 = snapshot_laws::underline_color_list(p.underline_color);
    let r8 = snapshot_laws::color_list(p.bg, 40, 48) + r9;
    let r7 = snapshot_laws::color_list(p.fg, 30, 38) + r8;
    let r6 = snapshot_laws::flag(s.strikeout, 9) + r7;
    let r5 = snapshot_laws::flag(s.hidden, 8) + r6;
    let r4 = snapshot_laws::flag(s.inverse, 7) + r5;
    let r3 = snapshot_laws::underline_list(s) + r4;
    let r2 = snapshot_laws::flag(s.italic, 3) + r3;
    let r1 = snapshot_laws::flag(s.dim, 2) + r2;
    let r0 = snapshot_laws::flag(s.bold, 1) + r1;
    lemma_solid_both(snapshot_laws::color_list(p.bg, 40, 48), r9);
    lemma_solid_both(snapshot_laws::color_list(p.fg, 30, 38), r8);
    lemma_solid_both(snapshot_laws::flag(s.strikeout, 9), r7);
    lemma_solid_both(snapshot_laws::flag(s.hidden, 8), r6);
    lemma_solid_both(snapshot_laws::flag(s.inverse, 7), r5);
    lemma_solid_both(snapshot_laws::underline_list(s), r4);
    lemma_solid_both(snapshot_laws::flag(s.italic, 3), r3);
    lemma_solid_both(snapshot_laws::flag(s.dim, 2), r2);
    lemma_solid_both(snapshot_laws::flag(s.bold, 1), r1);
    lemma_solid_both(seq![seq![0nat]], r0);
}

proof fn lemma_legible_both(a: Seq<Order>, b: Seq<Order>)
    requires
        all_legible(a),
        all_legible(b),
    ensures
        all_legible(a + b),
{
    assert forall|i: int| 0 <= i < (a + b).len() implies legible(#[trigger] (a + b)[i]) by {
        if i < a.len() {
            assert((a + b)[i] == a[i]);
        } else {
            assert((a + b)[i] == b[i - a.len()]);
        }
    }
}

proof fn lemma_legible_op(ops: Seq<Op>, op: Op)
    requires
        all_legible(terminal_laws::ops_orders(ops)),
        all_legible(terminal_laws::op_orders(op)),
    ensures
        all_legible(terminal_laws::ops_orders(ops.push(op))),
{
    assert(ops.push(op).drop_last() =~= ops);
    lemma_legible_both(terminal_laws::ops_orders(ops), terminal_laws::op_orders(op));
}

#[verifier::rlimit(30)]
proof fn lemma_legible_cells(k: Shape, row: Seq<Cell>, n: int, next_wide: bool, pen: Pen)
    requires
        terminal_laws::row_fits(k, row),
        0 <= n <= row.len(),
    ensures
        all_legible(
            terminal_laws::ops_orders(snapshot_laws::cell_ops(row, n, next_wide, pen)),
        ),
    decreases n,
{
    if n > 0 {
        lemma_legible_cells(k, row, n - 1, next_wide, pen);
        let ops = snapshot_laws::cell_ops(row, n - 1, next_wide, pen);
        let q = snapshot::cells_text(row, n - 1, next_wide, pen).1;
        let own = snapshot::pen_of(row[n - 1]);
        if !snapshot::filled(row, n - 1, next_wide) {
            assert(terminal_laws::cell_fits(k, row, n - 1));
            let with = if q != own {
                ops.push(Op::SetPen(own))
            } else {
                ops
            };
            if q != own {
                lemma_pen_solid(own);
                lemma_legible_op(ops, Op::SetPen(own));
            }
            let t = snapshot::cell_text(row, n - 1);
            let z = snapshot::overlay(row[n - 1]);
            assert forall|i: int| 0 <= i < t.len() implies snapshot::printable(#[trigger] t[i]) by {
                if i > 0 {
                    assert(t[i] == z[i - 1]);
                }
            }
            lemma_legible_op(with, Op::Print(t));
        }
    }
}

proof fn lemma_legible_break(rows: Seq<Vec<Cell>>, i: int, pen: Pen)
    ensures
        all_legible(terminal_laws::ops_orders(snapshot_laws::break_ops(rows, i, pen))),
{
    let none = Seq::<Op>::empty();
    let reset = Op::SetPen(snapshot::default_pen());
    let ops = snapshot_laws::break_ops(rows, i, pen);
    lemma_pen_solid(snapshot::default_pen());
    lemma_legible_op(none, reset);
    lemma_legible_op(none.push(reset), Op::Break);
    lemma_legible_op(none, Op::Break);
    if snapshot::breaks(rows, i) {
        if snapshot::coloured(pen.bg) {
            assert(ops =~= none.push(reset).push(Op::Break));
        } else {
            assert(ops =~= none.push(Op::Break));
        }
    }
}

proof fn lemma_legible_ops_both(a: Seq<Op>, b: Seq<Op>)
    requires
        all_legible(terminal_laws::ops_orders(a)),
        all_legible(terminal_laws::ops_orders(b)),
    ensures
        all_legible(terminal_laws::ops_orders(a + b)),
{
    terminal_laws::lemma_ops_both(a, b);
    lemma_legible_both(terminal_laws::ops_orders(a), terminal_laws::ops_orders(b));
}

proof fn lemma_legible_rows(k: Shape, rows: Seq<Vec<Cell>>, i: int)
    requires
        terminal_laws::usable(k),
        terminal_laws::rows_fit(k, rows),
        0 <= i <= rows.len(),
    ensures
        all_legible(terminal_laws::ops_orders(snapshot_laws::row_ops(rows, i))),
    decreases i,
{
    if i > 0 {
        lemma_legible_rows(k, rows, i - 1);
        assert(terminal_laws::row_fits(k, rows[i - 1]@));
        terminal_laws::lemma_row_end(rows, i - 1);
        let p = snapshot::rows_text(rows, i - 1).1;
        let ops = snapshot_laws::row_ops(rows, i - 1);
        let brk = snapshot_laws::break_ops(rows, i - 1, p);
        lemma_legible_break(rows, i - 1, p);
        lemma_legible_cells(
            k,
            rows[i - 1]@,
            snapshot::row_end(rows, i - 1) as int,
            snapshot::next_wide(rows, i - 1),
            snapshot::pen_at(rows, i - 1, p),
        );
        lemma_legible_ops_both(ops, brk);
        lemma_legible_ops_both(ops + brk, snapshot_laws::own_ops(rows, i - 1));
    }
}

proof fn lemma_legible_grid(k: Shape, g: Grid)
    requires
        terminal_laws::usable(k),
        terminal_laws::rows_fit(k, g.rows@),
    ensures
        all_legible(terminal_laws::grid_orders(g)),
{
    let n = g.rows@.len() as int;
    lemma_legible_rows(k, g.rows@, n);
    let end = seq![
        Order::Attributes(seq![seq![0nat]]),
        Order::Move {
            line: (g.cursor_line + 1) as nat,
            column: (g.cursor_column + 1) as nat,
        },
    ];
    assert(all_legible(end));
    lemma_legible_both(
        terminal_laws::ops_orders(snapshot_laws::row_ops(g.rows@, n)),
        end,
    );
}

proof fn lemma_legible_groups(m: Modes, n: int)
    requires
        0 <= n <= 5,
    ensures
        all_legible(terminal_laws::groups(m, n)),
    decreases n,
{
    if n > 0 {
        lemma_legible_groups(m, n - 1);
        let (a, b, c) = terminal_laws::group(m, n);
        let o0 = terminal_laws::groups(m, n - 1);
        let o1 = o0 + terminal_laws::order_if(a.0, a.1);
        let o2 = o1 + terminal_laws::order_if(b.0, b.1);
        lemma_legible_both(o0, terminal_laws::order_if(a.0, a.1));
        lemma_legible_both(o1, terminal_laws::order_if(b.0, b.1));
        lemma_legible_both(o2, terminal_laws::order_if(c.0, c.1));
    }
}

/// A title without the characters that would end it.
pub open spec fn title_fits(title: Option<Seq<char>>) -> bool {
    title matches Some(t) ==> forall|i: int|
        0 <= i < t.len() ==> #[trigger] t[i] != '\x07' && t[i] != '\x1b'
}

proof fn lemma_legible_alternate(k: Shape, s: Screen)
    requires
        terminal_laws::screen_fits(k, s),
    ensures
        all_legible(terminal_laws::alternate_orders(s)),
{
    if let Some(g) = s.alternate {
        lemma_legible_grid(k, g);
        lemma_legible_both(terminal_laws::alternate(), terminal_laws::grid_orders(g));
    }
}

proof fn lemma_legible_modes(m: Modes)
    ensures
        all_legible(terminal_laws::mode_orders(m)),
{
    lemma_legible_groups(m, 5);
    let flags = snapshot::kitty_flags(m);
    lemma_legible_both(
        terminal_laws::groups(m, 5),
        terminal_laws::order_if(flags != 0, Order::Keyboard(flags as nat)),
    );
}

proof fn lemma_legible_title(title: Option<Seq<char>>)
    requires
        title_fits(title),
    ensures
        all_legible(terminal_laws::title_orders(title)),
{
    if let Some(t) = title {
        assert(legible(Order::Title(t)));
    }
}

#[verifier::rlimit(30)]
proof fn lemma_legible_snapshot(k: Shape, s: Screen, title: Option<Seq<char>>)
    requires
        terminal_laws::screen_fits(k, s),
        title_fits(title),
    ensures
        all_legible(terminal_laws::snapshot_orders(s, title)),
{
    let a = terminal_laws::grid_orders(s.primary);
    let b = terminal_laws::alternate_orders(s);
    let c = terminal_laws::mode_orders(s.modes);
    let d = terminal_laws::title_orders(title);
    lemma_legible_grid(k, s.primary);
    lemma_legible_alternate(k, s);
    lemma_legible_modes(s.modes);
    lemma_legible_title(title);
    lemma_legible_both(a, b);
    lemma_legible_both(a + b, c);
    lemma_legible_both(a + b + c, d);
}

/// What a fresh terminal of the same size and history holds once a snapshot is fed to it: every
/// cell of history and screen with its text, its attributes as they are drawn, its filler and its
/// wrap, the cursor at its place, the modes and the title. While the alternate screen is shown it
/// holds that one, and leaving it lands on the primary screen, whole as well.
pub proof fn a_fresh_terminal_holds_the_screen(k: Shape, s: Screen, title: Option<Seq<char>>)
    requires
        terminal_laws::screen_fits(k, s),
        title_fits(title),
    ensures
        terminal_laws::shows_screen(
            k,
            terminal::fresh(k).fed(k, snapshot::snapshot(s, title)),
            s,
            title,
        ),
{
    lemma_legible_snapshot(k, s, title);
    terminal_laws::a_snapshot_gives_orders(s, title);
    orders_are_read_back(k, terminal::fresh(k), terminal_laws::snapshot_orders(s, title));
    terminal_laws::the_orders_recreate_the_screen(k, s, title);
}

} // verus!
