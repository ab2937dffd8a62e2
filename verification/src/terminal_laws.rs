//! What a fresh terminal holds once it has read a snapshot: the screen that the snapshot is of.

use crate::color::Color;
use crate::snapshot;
use crate::snapshot::{Cell, Grid, Modes, Pen, Screen};
use crate::snapshot_laws;
use crate::snapshot_laws::{Op, Param};
use crate::terminal;
use crate::terminal::{Order, Shape, Sheet, Spot, Terminal};
use crate::text;
use vstd::prelude::*;

verus! {

/// The orders that something said by a snapshot comes to.
pub open spec fn op_orders(op: Op) -> Seq<Order> {
    match op {
        Op::SetPen(p) => seq![
            Order::Attributes(seq![seq![0nat]] + snapshot_laws::pen_params(p)),
        ],
        Op::Print(t) => seq![Order::Print(t)],
        Op::Break => seq![Order::Return, Order::Feed],
    }
}

/// The orders of everything that is said.
pub open spec fn ops_orders(ops: Seq<Op>) -> Seq<Order>
    decreases ops.len(),
{
    if ops.len() == 0 {
        seq![]
    } else {
        ops_orders(ops.drop_last()) + op_orders(ops.last())
    }
}

/// The orders for a grid.
pub open spec fn grid_orders(g: Grid) -> Seq<Order> {
    ops_orders(snapshot_laws::row_ops(g.rows@, g.rows@.len() as int)) + seq![
        Order::Attributes(seq![seq![0nat]]),
        Order::Move {
            line: (g.cursor_line + 1) as nat,
            column: (g.cursor_column + 1) as nat,
        },
    ]
}

/// An order that is there only under a condition.
pub open spec fn order_if(b: bool, o: Order) -> Seq<Order> {
    if b {
        seq![o]
    } else {
        seq![]
    }
}

/// A private mode switched on.
pub open spec fn set(mode: nat) -> Order {
    Order::Private { mode, on: true }
}

/// A private mode switched off.
pub open spec fn unset(mode: nat) -> Order {
    Order::Private { mode, on: false }
}

/// The orders for the modes, three at a time.
pub open spec fn group(m: Modes, n: int) -> ((bool, Order), (bool, Order), (bool, Order)) {
    if n == 1 {
        ((!m.show_cursor, unset(25)), (m.app_cursor, set(1)), (m.app_keypad, Order::Keypad))
    } else if n == 2 {
        (
            (!m.line_wrap, unset(7)),
            (m.line_feed_new_line, Order::Public { mode: 20, on: true }),
            (m.insert, Order::Public { mode: 4, on: true }),
        )
    } else if n == 3 {
        (
            (m.mouse_report_click, set(1000)),
            (m.mouse_drag, set(1002)),
            (m.mouse_motion, set(1003)),
        )
    } else if n == 4 {
        ((m.focus_in_out, set(1004)), (m.utf8_mouse, set(1005)), (m.sgr_mouse, set(1006)))
    } else {
        (
            (m.alternate_scroll, set(1007)),
            (!m.alternate_scroll, unset(1007)),
            (m.bracketed_paste, set(2004)),
        )
    }
}

/// The orders of the first groups.
pub open spec fn groups(m: Modes, n: int) -> Seq<Order>
    decreases n,
{
    if n <= 0 {
        seq![]
    } else {
        let (a, b, c) = group(m, n);
        groups(m, n - 1) + order_if(a.0, a.1) + order_if(b.0, b.1) + order_if(c.0, c.1)
    }
}

/// The orders for the modes.
pub open spec fn mode_orders(m: Modes) -> Seq<Order> {
    groups(m, 5) + order_if(
        snapshot::kitty_flags(m) != 0,
        Order::Keyboard(snapshot::kitty_flags(m) as nat),
    )
}

/// The orders that a whole snapshot gives.
pub open spec fn snapshot_orders(s: Screen, title: Option<Seq<char>>) -> Seq<Order> {
    grid_orders(s.primary) + alternate_orders(s) + mode_orders(s.modes) + title_orders(title)
}

/// A cell as terminals have them: a wide character takes two columns and another one, and nothing
/// but characters without width is drawn over it.
pub open spec fn cell_fits(k: Shape, row: Seq<Cell>, x: int) -> bool {
    let cell = row[x];
    let z = snapshot::overlay(cell);
    &&& !cell.spacer && snapshot::printable(cell.c) ==> (k.width)(cell.c) == if cell.wide {
        2nat
    } else {
        1nat
    }
    &&& forall|i: int|
        0 <= i < z.len() ==> (k.width)(#[trigger] z[i]) == 0 && snapshot::printable(z[i])
}

pub open spec fn row_fits(k: Shape, row: Seq<Cell>) -> bool {
    &&& row.len() == k.cols
    &&& forall|x: int| 0 <= x < row.len() ==> #[trigger] cell_fits(k, row, x)
}

pub open spec fn rows_fit(k: Shape, rows: Seq<Vec<Cell>>) -> bool {
    forall|i: int| 0 <= i < rows.len() ==> #[trigger] row_fits(k, rows[i]@)
}

/// A shape that a terminal can have: two columns at least, of which a blank takes one.
pub open spec fn usable(k: Shape) -> bool {
    k.cols >= 2 && k.lines >= 1 && (k.width)(' ') == 1
}

/// A grid of a shape, with that much history at most.
pub open spec fn grid_fits(k: Shape, g: Grid, history: nat) -> bool {
    &&& k.lines <= g.rows@.len() <= k.lines + history
    &&& rows_fit(k, g.rows@)
    &&& g.cursor_line < k.lines
    &&& g.cursor_column < k.cols
}

/// The character that a cell is printed as.
pub open spec fn shown(row: Seq<Cell>, x: int) -> char {
    if snapshot::intact(row, x) {
        row[x].c
    } else {
        ' '
    }
}

/// The last column was left for want of room: the wide character that did not fit begins the next
/// row.
pub open spec fn left_over(k: Shape, row: Seq<Cell>, next_wide: bool) -> bool {
    row[k.cols - 1].spacer && !snapshot::whole(row, k.cols - 2) && next_wide
}

/// What a cell looks like in a terminal.
pub open spec fn spot_of(row: Seq<Cell>, x: int) -> Spot {
    if snapshot::whole(row, x - 1) {
        terminal::filler(snapshot_laws::seen(snapshot::pen_of(row[x - 1])))
    } else {
        Spot {
            c: shown(row, x),
            over: snapshot::overlay(row[x]),
            pen: snapshot_laws::seen(snapshot::pen_of(row[x])),
            spacer: false,
            wrapline: false,
        }
    }
}

/// A row of which the first cells are drawn.
pub open spec fn drawn(k: Shape, row: Seq<Cell>, n: int, bg: Color) -> Seq<Spot> {
    Seq::new(
        k.cols,
        |x: int|
            if x < n {
                spot_of(row, x)
            } else {
                terminal::bare(bg)
            },
    )
}

/// How many columns are drawn once that many cells were sent: a wide character draws its filler
/// too, and a column left for want of room is not drawn yet.
pub open spec fn reach(k: Shape, row: Seq<Cell>, n: int, next_wide: bool) -> int {
    if n > 0 && snapshot::whole(row, n - 1) {
        n + 1
    } else if n == k.cols && left_over(k, row, next_wide) {
        n - 1
    } else {
        n
    }
}

/// The rows of a screen: those before the cursor's, that one, and the empty ones below it.
spec fn tape(k: Shape, before: Seq<Seq<Spot>>, row: Seq<Spot>) -> Seq<Seq<Spot>> {
    before.push(row) + terminal::bare_rows(
        k,
        if before.len() + 1 < k.lines {
            (k.lines - before.len() - 1) as nat
        } else {
            0
        },
        snapshot::default_pen().bg,
    )
}

/// A screen whose cursor is behind the columns of a row that were printed.
spec fn sheet(k: Shape, before: Seq<Seq<Spot>>, row: Seq<Spot>, p: int) -> Sheet {
    Sheet {
        rows: tape(k, before, row),
        at: before.len() as int,
        column: if p < k.cols {
            p
        } else {
            k.cols - 1
        },
        pending: p >= k.cols,
    }
}

pub(crate) proof fn lemma_after_both(k: Shape, t: Terminal, a: Seq<Order>, b: Seq<Order>)
    ensures
        t.after(k, a + b) == t.after(k, a).after(k, b),
    decreases b.len(),
{
    if b.len() == 0 {
        assert(a + b =~= a);
    } else {
        assert((a + b).drop_last() =~= a + b.drop_last());
        assert((a + b).last() == b.last());
        lemma_after_both(k, t, a, b.drop_last());
    }
}

pub(crate) proof fn lemma_one(k: Shape, t: Terminal, o: Order)
    ensures
        t.after(k, seq![o]) == t.obeyed(k, o),
{
    let os = seq![o];
    assert(os.drop_last() =~= seq![]);
    assert(os.last() == o);
    assert(t.after(k, os.drop_last()) == t);
}

/// Two texts are one.
spec fn same(a: Seq<char>, b: Seq<char>) -> bool {
    a == b
}

proof fn lemma_text_both(a: Seq<Order>, b: Seq<Order>)
    ensures
        same(
            terminal::orders_text(a + b),
            terminal::orders_text(a) + terminal::orders_text(b),
        ),
    decreases b.len(),
{
    if b.len() == 0 {
        assert(a + b =~= a);
        assert(terminal::orders_text(a) + terminal::orders_text(b) =~= terminal::orders_text(a));
    } else {
        assert((a + b).drop_last() =~= a + b.drop_last());
        assert((a + b).last() == b.last());
        lemma_text_both(a, b.drop_last());
        let (x, y) = (terminal::orders_text(a), terminal::orders_text(b.drop_last()));
        let z = terminal::order_text(b.last());
        assert(x + (y + z) =~= x + y + z);
    }
}

proof fn lemma_one_text(o: Order)
    ensures
        same(terminal::orders_text(seq![o]), terminal::order_text(o)),
{
    let os = seq![o];
    assert(os.drop_last() =~= seq![]);
    assert(os.last() == o);
    assert(terminal::orders_text(os.drop_last()) =~= seq![]);
    assert(terminal::orders_text(os.drop_last()) + terminal::order_text(o)
        =~= terminal::order_text(o));
}

pub(crate) proof fn lemma_ops_both(a: Seq<Op>, b: Seq<Op>)
    ensures
        ops_orders(a + b) == ops_orders(a) + ops_orders(b),
    decreases b.len(),
{
    if b.len() == 0 {
        assert(a + b =~= a);
        assert(ops_orders(a) + ops_orders(b) =~= ops_orders(a));
    } else {
        assert((a + b).drop_last() =~= a + b.drop_last());
        lemma_ops_both(a, b.drop_last());
        assert(ops_orders(a + b) =~= ops_orders(a) + ops_orders(b));
    }
}

/// A terminal that carries out one more thing that is said.
proof fn lemma_more(k: Shape, t: Terminal, ops: Seq<Op>, op: Op)
    ensures
        t.after(k, ops_orders(ops.push(op))) == t.after(k, ops_orders(ops)).after(
            k,
            op_orders(op),
        ),
{
    assert(ops.push(op).drop_last() =~= ops);
    lemma_after_both(k, t, ops_orders(ops), op_orders(op));
}

proof fn lemma_attributes(k: Shape, t: Terminal, ps: Seq<Param>)
    ensures
        t.after(k, seq![Order::Attributes(ps)]) == (Terminal {
            pen: snapshot_laws::apply(t.pen, ps),
            ..t
        }),
{
    lemma_one(k, t, Order::Attributes(ps));
}

#[verifier::rlimit(30)]
proof fn lemma_set_pen(k: Shape, t: Terminal, p: Pen)
    ensures
        t.after(k, op_orders(Op::SetPen(p))) == (Terminal {
            pen: snapshot_laws::seen(p),
            ..t
        }),
{
    lemma_attributes(k, t, seq![seq![0nat]] + snapshot_laws::pen_params(p));
    snapshot_laws::a_pen_is_restated_in_full(t.pen, p);
}

/// A cell of the cursor's row changed.
proof fn lemma_with(
    k: Shape,
    before: Seq<Seq<Spot>>,
    row: Seq<Spot>,
    s: Sheet,
    column: int,
    spot: Spot,
)
    requires
        s.rows == tape(k, before, row),
        s.at == before.len(),
    ensures
        s.with(column, spot) == (Sheet { rows: tape(k, before, row.update(column, spot)), ..s }),
{
    assert(s.rows[s.at] == row);
    assert(s.with(column, spot).rows =~= tape(k, before, row.update(column, spot)));
}

proof fn lemma_put(
    k: Shape,
    before: Seq<Seq<Spot>>,
    row: Seq<Spot>,
    p: int,
    pen: Pen,
    c: char,
)
    requires
        usable(k),
        (k.width)(c) == 1 || (k.width)(c) == 2,
        0 <= p,
        p + (k.width)(c) <= k.cols,
        row.len() == k.cols,
    ensures
        ({
            let s = Spot { c, over: seq![], pen, spacer: false, wrapline: false };
            let next = if (k.width)(c) == 2 {
                row.update(p, s).update(p + 1, terminal::filler(pen))
            } else {
                row.update(p, s)
            };
            sheet(k, before, row, p).put(k, pen, c) == sheet(k, before, next, p + (k.width)(c))
        }),
{
    let s = Spot { c, over: seq![], pen, spacer: false, wrapline: false };
    let a = sheet(k, before, row, p);
    lemma_with(k, before, row, a, p, s);
    let b = a.with(p, s);
    lemma_with(k, before, row.update(p, s), b, p + 1, terminal::filler(pen));
}

proof fn lemma_printed(s: Sheet, k: Shape, pen: Pen, modes: Modes, c: char, t: Seq<char>)
    ensures
        s.printed(k, pen, modes, seq![c] + t) == s.input(k, pen, modes, c).printed(
            k,
            pen,
            modes,
            t,
        ),
    decreases t.len(),
{
    let all = seq![c] + t;
    if t.len() == 0 {
        assert(all.drop_last() =~= seq![]);
        assert(all.last() == c);
        assert(s.printed(k, pen, modes, all.drop_last()) == s);
    } else {
        assert(all.drop_last() =~= seq![c] + t.drop_last());
        lemma_printed(s, k, pen, modes, c, t.drop_last());
    }
}

/// Characters without width go over the cell that was printed last.
proof fn lemma_over(
    k: Shape,
    pen: Pen,
    modes: Modes,
    before: Seq<Seq<Spot>>,
    row: Seq<Spot>,
    p: int,
    x: int,
    z: Seq<char>,
)
    requires
        usable(k),
        row.len() == k.cols,
        0 <= x < p <= k.cols,
        !row[x].spacer,
        x == p - 1 || x == p - 2 && row[p - 1].spacer,
        forall|i: int| 0 <= i < z.len() ==> (k.width)(#[trigger] z[i]) == 0,
    ensures
        sheet(k, before, row, p).printed(k, pen, modes, z) == sheet(
            k,
            before,
            row.update(x, Spot { over: row[x].over + z, ..row[x] }),
            p,
        ),
    decreases z.len(),
{
    if z.len() == 0 {
        assert(row[x].over + z =~= row[x].over);
        assert(row.update(x, Spot { over: row[x].over + z, ..row[x] }) =~= row);
    } else {
        let y = z.drop_last();
        lemma_over(k, pen, modes, before, row, p, x, y);
        assert(z.last() == z[z.len() - 1]);
        let spot = Spot { over: row[x].over + y, ..row[x] };
        let mid = row.update(x, spot);
        let s = sheet(k, before, mid, p);
        assert(s.rows[s.at] == mid);
        let more = Spot { over: spot.over.push(z.last()), ..spot };
        lemma_with(k, before, mid, s, x, more);
        assert(spot.over.push(z.last()) =~= row[x].over + z);
        assert(mid.update(x, more) =~= row.update(
            x,
            Spot { over: row[x].over + z, ..row[x] },
        ));
    }
}

/// A cell printed at its place.
#[verifier::rlimit(30)]
proof fn lemma_cell(
    k: Shape,
    pen: Pen,
    modes: Modes,
    before: Seq<Seq<Spot>>,
    row: Seq<Cell>,
    n: int,
    next_wide: bool,
    bg: Color,
)
    requires
        usable(k),
        row_fits(k, row),
        0 <= n < row.len(),
        !snapshot::filled(row, n, next_wide),
        pen == snapshot_laws::seen(snapshot::pen_of(row[n])),
        modes.line_wrap,
        !modes.insert,
    ensures
        sheet(k, before, drawn(k, row, n, bg), n).printed(
            k,
            pen,
            modes,
            snapshot::cell_text(row, n),
        ) == ({
            let p = reach(k, row, n + 1, next_wide);
            sheet(k, before, drawn(k, row, p, bg), p)
        }),
{
    let c = shown(row, n);
    assert(cell_fits(k, row, n));
    let z = snapshot::overlay(row[n]);
    let w = (k.width)(c);
    let cur = drawn(k, row, n, bg);
    let start = sheet(k, before, cur, n);
    lemma_printed(start, k, pen, modes, c, z);
    lemma_put(k, before, cur, n, pen, c);
    assert(start.ready(k, pen, c) == start);
    let s = Spot { c, over: seq![], pen, spacer: false, wrapline: false };
    let next = if w == 2 {
        cur.update(n, s).update(n + 1, terminal::filler(pen))
    } else {
        cur.update(n, s)
    };
    lemma_over(k, pen, modes, before, next, n + w as int, n, z);
    assert(s.over + z =~= z);
    let got = next.update(n, Spot { over: next[n].over + z, ..next[n] });
    assert(reach(k, row, n + 1, next_wide) == n + w);
    assert(got =~= drawn(k, row, n + w, bg));
}

proof fn lemma_print(k: Shape, t: Terminal, text: Seq<char>)
    ensures
        t.after(k, op_orders(Op::Print(text))) == (Terminal {
            screen: t.screen.printed(k, t.pen, t.modes, text),
            ..t
        }),
{
    lemma_one(k, t, Order::Print(text));
}

/// The cells of a row, sent to a terminal whose cursor is at the beginning of an empty one.
#[verifier::rlimit(30)]
proof fn lemma_row(
    k: Shape,
    t: Terminal,
    before: Seq<Seq<Spot>>,
    row: Seq<Cell>,
    n: int,
    next_wide: bool,
    bg: Color,
    pen: Pen,
)
    requires
        usable(k),
        row_fits(k, row),
        0 <= n <= row.len(),
        t.screen == sheet(k, before, terminal::bare_row(k, bg), 0),
        t.pen == snapshot_laws::seen(pen),
        t.modes.line_wrap,
        !t.modes.insert,
    ensures
        ({
            let p = reach(k, row, n, next_wide);
            t.after(k, ops_orders(snapshot_laws::cell_ops(row, n, next_wide, pen))) == (Terminal {
                screen: sheet(k, before, drawn(k, row, p, bg), p),
                pen: snapshot_laws::seen(snapshot::cells_text(row, n, next_wide, pen).1),
                ..t
            })
        }),
    decreases n,
{
    if n == 0 {
        assert(drawn(k, row, 0, bg) =~= terminal::bare_row(k, bg));
    } else {
        lemma_row(k, t, before, row, n - 1, next_wide, bg, pen);
        let ops = snapshot_laws::cell_ops(row, n - 1, next_wide, pen);
        let q = snapshot::cells_text(row, n - 1, next_wide, pen).1;
        let mid = t.after(k, ops_orders(ops));
        if snapshot::filled(row, n - 1, next_wide) {
            assert(reach(k, row, n, next_wide) == reach(k, row, n - 1, next_wide));
        } else {
            let own = snapshot::pen_of(row[n - 1]);
            assert(reach(k, row, n - 1, next_wide) == n - 1);
            let with = if q != own {
                ops.push(Op::SetPen(own))
            } else {
                ops
            };
            if q != own {
                lemma_more(k, t, ops, Op::SetPen(own));
                lemma_set_pen(k, mid, own);
            }
            let ready = t.after(k, ops_orders(with));
            assert(ready == (Terminal { pen: snapshot_laws::seen(own), ..mid }));
            lemma_more(k, t, with, Op::Print(snapshot::cell_text(row, n - 1)));
            lemma_print(k, ready, snapshot::cell_text(row, n - 1));
            lemma_cell(k, ready.pen, ready.modes, before, row, n - 1, next_wide, bg);
        }
    }
}

/// The background of a new row: the selected one if the row is made by scrolling, and the default
/// one if it was there before.
pub open spec fn made(k: Shape, n: nat, bg: Color) -> Color {
    if n < k.lines {
        snapshot::default_pen().bg
    } else {
        bg
    }
}

/// A row that went on in the next one.
pub open spec fn turned(
    k: Shape,
    row: Seq<Cell>,
    next_wide: bool,
    bg: Color,
    pen: Pen,
) -> Seq<Spot> {
    let r = drawn(k, row, reach(k, row, k.cols as int, next_wide), bg);
    r.update(
        k.cols - 1,
        Spot {
            wrapline: true,
            ..if left_over(k, row, next_wide) {
                terminal::filler(pen)
            } else {
                r[k.cols - 1]
            }
        },
    )
}

proof fn lemma_fed(k: Shape, before: Seq<Seq<Spot>>, row: Seq<Spot>, s: Sheet, bg: Color)
    requires
        usable(k),
        s.rows == tape(k, before, row),
        s.at == before.len(),
    ensures
        s.fed(k, bg) == (Sheet {
            rows: tape(
                k,
                before.push(row),
                terminal::bare_row(k, made(k, before.len() + 1, bg)),
            ),
            at: before.len() + 1int,
            ..s
        }),
{
    let n = before.len() + 1;
    assert(s.fed(k, bg).rows =~= tape(
        k,
        before.push(row),
        terminal::bare_row(k, made(k, n, bg)),
    ));
}

proof fn lemma_turn(
    k: Shape,
    before: Seq<Seq<Spot>>,
    row: Seq<Cell>,
    next_wide: bool,
    bg: Color,
    pen: Pen,
    c: char,
)
    requires
        usable(k),
        row_fits(k, row),
        left_over(k, row, next_wide) ==> (k.width)(c) == 2,
    ensures
        ({
            let p = reach(k, row, k.cols as int, next_wide);
            sheet(k, before, drawn(k, row, p, bg), p).ready(k, pen, c) == sheet(
                k,
                before.push(turned(k, row, next_wide, bg, pen)),
                terminal::bare_row(k, made(k, before.len() + 1, pen.bg)),
                0,
            )
        }),
{
    let p = reach(k, row, k.cols as int, next_wide);
    let r = drawn(k, row, p, bg);
    let last = k.cols - 1;
    let s = sheet(k, before, r, p);
    if left_over(k, row, next_wide) {
        let f = terminal::filler(pen);
        lemma_with(k, before, r, s, last, f);
        let a = s.with(last, f);
        let q = r.update(last, f);
        assert(a.rows[a.at] == q);
        let g = Spot { wrapline: true, ..f };
        lemma_with(k, before, q, a, last, g);
        assert(q.update(last, g) =~= turned(k, row, next_wide, bg, pen));
        lemma_fed(k, before, turned(k, row, next_wide, bg, pen), a.with(last, g), pen.bg);
    } else {
        assert(s.rows[s.at] == r);
        let g = Spot { wrapline: true, ..r[last] };
        lemma_with(k, before, r, s, last, g);
        lemma_fed(k, before, turned(k, row, next_wide, bg, pen), s.with(last, g), pen.bg);
    }
}

proof fn lemma_break(
    k: Shape,
    t: Terminal,
    before: Seq<Seq<Spot>>,
    row: Seq<Spot>,
    p: int,
)
    requires
        usable(k),
        t.screen == sheet(k, before, row, p),
        !t.modes.line_feed_new_line,
    ensures
        t.after(k, op_orders(Op::Break)) == (Terminal {
            screen: sheet(
                k,
                before.push(row),
                terminal::bare_row(k, made(k, before.len() + 1, t.pen.bg)),
                0,
            ),
            ..t
        }),
{
    let os = op_orders(Op::Break);
    assert(os =~= seq![Order::Return] + seq![Order::Feed]);
    lemma_after_both(k, t, seq![Order::Return], seq![Order::Feed]);
    lemma_one(k, t, Order::Return);
    let mid = t.obeyed(k, Order::Return);
    lemma_one(k, mid, Order::Feed);
    lemma_fed(k, before, row, mid.screen, t.pen.bg);
}

/// The first character that goes to a new row opens it.
#[verifier::rlimit(30)]
proof fn lemma_enter(
    k: Shape,
    t: Terminal,
    r: Sheet,
    row: Seq<Cell>,
    n: int,
    next_wide: bool,
    pen: Pen,
)
    requires
        usable(k),
        row_fits(k, row),
        1 <= n <= row.len(),
        t.pen == snapshot_laws::seen(pen),
        t.modes.line_wrap,
        !t.modes.insert,
        r == t.screen.ready(k, snapshot_laws::seen(snapshot::pen_of(row[0])), shown(row, 0)),
        r.column == 0,
        !r.pending,
    ensures
        t.after(k, ops_orders(snapshot_laws::cell_ops(row, n, next_wide, pen))) == (Terminal {
            screen: r,
            ..t
        }).after(k, ops_orders(snapshot_laws::cell_ops(row, n, next_wide, pen))),
    decreases n,
{
    let u = Terminal { screen: r, ..t };
    let ops = snapshot_laws::cell_ops(row, n - 1, next_wide, pen);
    let q = snapshot::cells_text(row, n - 1, next_wide, pen).1;
    let own = snapshot::pen_of(row[n - 1]);
    let with = if q != own {
        ops.push(Op::SetPen(own))
    } else {
        ops
    };
    let said = snapshot::cell_text(row, n - 1);
    if n == 1 {
        assert(ops =~= seq![]);
        if q != own {
            lemma_more(k, t, ops, Op::SetPen(own));
            lemma_more(k, u, ops, Op::SetPen(own));
            lemma_set_pen(k, t, own);
            lemma_set_pen(k, u, own);
        }
        let t1 = t.after(k, ops_orders(with));
        let u1 = u.after(k, ops_orders(with));
        let seen = snapshot_laws::seen(own);
        assert(t1 == (Terminal { pen: seen, ..t }));
        assert(u1 == (Terminal { pen: seen, ..u }));
        lemma_more(k, t, with, Op::Print(said));
        lemma_more(k, u, with, Op::Print(said));
        lemma_print(k, t1, said);
        lemma_print(k, u1, said);
        let c = shown(row, 0);
        let z = snapshot::overlay(row[0]);
        assert(cell_fits(k, row, 0));
        lemma_printed(t.screen, k, seen, t.modes, c, z);
        lemma_printed(r, k, seen, t.modes, c, z);
        assert(r.ready(k, seen, c) == r);
    } else {
        lemma_enter(k, t, r, row, n - 1, next_wide, pen);
        if !snapshot::filled(row, n - 1, next_wide) {
            if q != own {
                lemma_more(k, t, ops, Op::SetPen(own));
                lemma_more(k, u, ops, Op::SetPen(own));
            }
            lemma_more(k, t, with, Op::Print(said));
            lemma_more(k, u, with, Op::Print(said));
        }
    }
}

/// The pen that the first cell of a row is drawn with.
pub open spec fn opening(rows: Seq<Vec<Cell>>, i: int) -> Pen {
    snapshot_laws::seen(snapshot::pen_of(rows[i]@[0]))
}

/// The background that a row is made with.
pub open spec fn ground(k: Shape, rows: Seq<Vec<Cell>>, i: int) -> Color {
    if snapshot::continues(rows, i) {
        made(k, i as nat, opening(rows, i).bg)
    } else {
        snapshot::default_pen().bg
    }
}

/// How many columns of a row are drawn once it was sent.
pub open spec fn drawn_to(k: Shape, rows: Seq<Vec<Cell>>, i: int) -> int {
    reach(k, rows[i]@, snapshot::row_end(rows, i) as int, snapshot::next_wide(rows, i))
}

/// What becomes of a row.
pub open spec fn row_held(k: Shape, rows: Seq<Vec<Cell>>, i: int) -> Seq<Spot> {
    let bg = ground(k, rows, i);
    if snapshot::wraps(rows[i]@) && i + 1 < rows.len() {
        turned(k, rows[i]@, snapshot::next_wide(rows, i), bg, opening(rows, i + 1))
    } else {
        drawn(k, rows[i]@, drawn_to(k, rows, i), bg)
    }
}

/// What becomes of the first rows.
spec fn rows_held(k: Shape, rows: Seq<Vec<Cell>>, i: int) -> Seq<Seq<Spot>> {
    Seq::new(i as nat, |j: int| row_held(k, rows, j))
}

/// The screen with the cursor behind a row that was sent.
spec fn sent(k: Shape, rows: Seq<Vec<Cell>>, i: int) -> Sheet {
    let p = drawn_to(k, rows, i);
    sheet(k, rows_held(k, rows, i), drawn(k, rows[i]@, p, ground(k, rows, i)), p)
}

pub(crate) proof fn lemma_row_end(rows: Seq<Vec<Cell>>, i: int)
    requires
        rows[i]@.len() > 0,
    ensures
        snapshot::row_end(rows, i) <= rows[i]@.len(),
        snapshot::content_end(rows[i]@) <= snapshot::row_end(rows, i),
        snapshot::continues(rows, i) ==> snapshot::row_end(rows, i) > 0,
{
    lemma_content_end(rows[i]@);
}

proof fn lemma_content_end(row: Seq<Cell>)
    ensures
        snapshot::content_end(row) <= row.len(),
    decreases row.len(),
{
    if row.len() > 0 {
        lemma_content_end(row.drop_last());
    }
}

/// A row sent after one that goes on in it.
proof fn lemma_wrapped_row(k: Shape, t: Terminal, rows: Seq<Vec<Cell>>, i: int, p: Pen)
    requires
        usable(k),
        rows_fit(k, rows),
        0 < i < rows.len(),
        snapshot::continues(rows, i),
        t.screen == sent(k, rows, i - 1),
        t.pen == snapshot_laws::seen(p),
        t.modes.line_wrap,
        !t.modes.insert,
    ensures
        ({
            let end = snapshot::row_end(rows, i) as int;
            let w = snapshot::next_wide(rows, i);
            t.after(k, ops_orders(snapshot_laws::cell_ops(rows[i]@, end, w, p))) == (Terminal {
                screen: sent(k, rows, i),
                pen: snapshot_laws::seen(snapshot::cells_text(rows[i]@, end, w, p).1),
                ..t
            })
        }),
{
    let row = rows[i]@;
    let prev = rows[i - 1]@;
    assert(row_fits(k, rows[i]@));
    assert(row_fits(k, rows[i - 1]@));
    lemma_row_end(rows, i);
    let end = snapshot::row_end(rows, i) as int;
    let w = snapshot::next_wide(rows, i);
    let v = snapshot::next_wide(rows, i - 1);
    let bg = ground(k, rows, i - 1);
    let pen = opening(rows, i);
    let before = rows_held(k, rows, i - 1);
    assert(cell_fits(k, row, 0));
    lemma_turn(k, before, prev, v, bg, pen, shown(row, 0));
    let opened = ground(k, rows, i);
    let next = rows_held(k, rows, i);
    assert(next =~= before.push(turned(k, prev, v, bg, pen)));
    let r = sheet(k, next, terminal::bare_row(k, opened), 0);
    lemma_enter(k, t, r, row, end, w, p);
    let u = Terminal { screen: r, ..t };
    lemma_row(k, u, next, row, end, w, opened, p);
}

/// The end of a line, said to a terminal.
proof fn lemma_broken(k: Shape, t: Terminal, rows: Seq<Vec<Cell>>, i: int, p: Pen)
    requires
        usable(k),
        0 < i < rows.len(),
        snapshot::breaks(rows, i),
        t.screen == sent(k, rows, i - 1),
        t.pen == snapshot_laws::seen(p),
        !t.modes.line_feed_new_line,
    ensures
        t.after(k, ops_orders(snapshot_laws::break_ops(rows, i, p))) == (Terminal {
            screen: sheet(
                k,
                rows_held(k, rows, i),
                terminal::bare_row(k, snapshot::default_pen().bg),
                0,
            ),
            pen: snapshot_laws::seen(snapshot::pen_at(rows, i, p)),
            ..t
        }),
{
    let none = Seq::<Op>::empty();
    let def = snapshot::default_pen();
    let reset = Op::SetPen(def);
    let ops = snapshot_laws::break_ops(rows, i, p);
    let first = if snapshot::coloured(p.bg) {
        none.push(reset)
    } else {
        none
    };
    assert(ops =~= first.push(Op::Break));
    assert(t.after(k, ops_orders(none)) == t);
    if snapshot::coloured(p.bg) {
        lemma_more(k, t, none, reset);
        lemma_set_pen(k, t, def);
    }
    lemma_more(k, t, first, Op::Break);
    let u = t.after(k, ops_orders(first));
    let q = drawn_to(k, rows, i - 1);
    let before = rows_held(k, rows, i - 1);
    let prev = drawn(k, rows[i - 1]@, q, ground(k, rows, i - 1));
    assert(u == (Terminal { pen: snapshot_laws::seen(snapshot::pen_at(rows, i, p)), ..t }));
    assert(u.pen.bg == def.bg);
    lemma_break(k, u, before, prev, q);
    assert(rows_held(k, rows, i) =~= before.push(prev));
}

/// The rows of a grid, sent to a terminal with an empty screen.
#[verifier::rlimit(30)]
proof fn lemma_rows(k: Shape, t: Terminal, rows: Seq<Vec<Cell>>, i: int)
    requires
        usable(k),
        rows_fit(k, rows),
        1 <= i <= rows.len(),
        t.screen == sheet(
            k,
            seq![],
            terminal::bare_row(k, snapshot::default_pen().bg),
            0,
        ),
        t.pen == snapshot_laws::seen(snapshot::default_pen()),
        t.modes.line_wrap,
        !t.modes.insert,
        !t.modes.line_feed_new_line,
    ensures
        t.after(k, ops_orders(snapshot_laws::row_ops(rows, i))) == (Terminal {
            screen: sent(k, rows, i - 1),
            pen: snapshot_laws::seen(snapshot::rows_text(rows, i).1),
            ..t
        }),
    decreases i,
{
    let def = snapshot::default_pen();
    let p = snapshot::rows_text(rows, i - 1).1;
    let ops = snapshot_laws::row_ops(rows, i - 1);
    let brk = snapshot_laws::break_ops(rows, i - 1, p);
    let own = snapshot_laws::own_ops(rows, i - 1);
    let end = snapshot::row_end(rows, i - 1) as int;
    let w = snapshot::next_wide(rows, i - 1);
    let q = snapshot::pen_at(rows, i - 1, p);
    assert(row_fits(k, rows[i - 1]@));
    lemma_row_end(rows, i - 1);
    lemma_ops_both(ops, brk);
    lemma_ops_both(ops + brk, own);
    lemma_after_both(k, t, ops_orders(ops), ops_orders(brk));
    lemma_after_both(k, t, ops_orders(ops + brk), ops_orders(own));
    let mid = t.after(k, ops_orders(ops));
    if i > 1 {
        lemma_rows(k, t, rows, i - 1);
    }
    if snapshot::continues(rows, i - 1) {
        assert(mid.after(k, ops_orders(brk)) == mid);
        lemma_wrapped_row(k, mid, rows, i - 1, p);
    } else {
        if i > 1 {
            lemma_broken(k, mid, rows, i - 1, p);
        } else {
            assert(ops =~= seq![]);
            assert(brk =~= seq![]);
            assert(rows_held(k, rows, 0) =~= seq![]);
        }
        let u = mid.after(k, ops_orders(brk));
        lemma_row(k, u, rows_held(k, rows, i - 1), rows[i - 1]@, end, w, def.bg, q);
    }
}

/// A cell as a terminal shows it. What was sent has its text and its attributes, as they are
/// drawn; what was not sent is empty. The fillers of wide characters and the ends of rows that go
/// on are where they were.
///
/// A cell that cannot be printed as it is, which holds a tab or part of a wide character, shows a
/// blank in its attributes. That the last row of all goes on is not shown: a terminal learns that
/// from what it goes on in.
pub open spec fn shows(k: Shape, rows: Seq<Vec<Cell>>, i: int, x: int, s: Spot) -> bool {
    let row = rows[i]@;
    &&& s.spacer == snapshot::filled(row, x, snapshot::next_wide(rows, i))
    &&& s.wrapline == (x == k.cols - 1 && snapshot::wraps(row) && i + 1 < rows.len())
    &&& !s.spacer && x < snapshot::row_end(rows, i) ==> {
        &&& s.c == shown(row, x)
        &&& s.over == snapshot::overlay(row[x])
        &&& s.pen == snapshot_laws::seen(snapshot::pen_of(row[x]))
    }
    &&& !s.spacer && x >= snapshot::row_end(rows, i) ==> s == terminal::bare(
        snapshot::default_pen().bg,
    )
}

/// A terminal's screen holds a grid: all of its history and of its screen, cell by cell, with the
/// cursor at its place.
pub open spec fn holds(k: Shape, s: Sheet, g: Grid, history: nat) -> bool {
    &&& s.held(k, history).len() == g.rows@.len()
    &&& forall|i: int, x: int|
        0 <= i < g.rows@.len() && 0 <= x < k.cols ==> shows(
            k,
            g.rows@,
            i,
            x,
            #[trigger] s.held(k, history)[i][x],
        )
    &&& s.at - s.top(k) == g.cursor_line
    &&& s.column == g.cursor_column
    &&& !s.pending
}

proof fn lemma_shows(k: Shape, rows: Seq<Vec<Cell>>, i: int, x: int)
    requires
        usable(k),
        rows_fit(k, rows),
        0 <= i < rows.len(),
        0 <= x < k.cols,
    ensures
        shows(k, rows, i, x, row_held(k, rows, i)[x]),
{
    let row = rows[i]@;
    assert(row_fits(k, rows[i]@));
    lemma_row_end(rows, i);
    let w = snapshot::next_wide(rows, i);
    let end = snapshot::row_end(rows, i) as int;
    if !snapshot::wraps(row) {
        assert(!left_over(k, row, w));
        if x >= drawn_to(k, rows, i) && snapshot::filled(row, x, w) {
            assert(snapshot::whole(row, x - 1));
            assert(cell_fits(k, row, x - 1));
            assert(x - 1 >= end);
            snapshot_laws::only_blanks_are_left_out(row, x - 1);
        }
        if x >= end {
            assert(ground(k, rows, i) == snapshot::default_pen().bg);
        }
    }
}

/// The screen once a grid is sent to it.
spec fn grid_sheet(k: Shape, g: Grid) -> Sheet {
    Sheet {
        rows: rows_held(k, g.rows@, g.rows@.len() as int),
        at: g.rows@.len() - k.lines + g.cursor_line,
        column: g.cursor_column as int,
        pending: false,
    }
}

proof fn lemma_holds(k: Shape, g: Grid, history: nat)
    requires
        usable(k),
        grid_fits(k, g, history),
    ensures
        holds(k, grid_sheet(k, g), g, history),
{
    let rows = g.rows@;
    let n = rows.len() as int;
    let s = grid_sheet(k, g);
    let held = s.held(k, history);
    assert forall|i: int, x: int| 0 <= i < n && 0 <= x < k.cols implies shows(
        k,
        rows,
        i,
        x,
        #[trigger] held[i][x],
    ) by {
        assert(held[i] == row_held(k, rows, i));
        lemma_shows(k, rows, i, x);
    }
}

/// The last row that is sent leaves nothing below it.
proof fn lemma_all_sent(k: Shape, g: Grid, history: nat)
    requires
        usable(k),
        grid_fits(k, g, history),
    ensures
        sent(k, g.rows@, g.rows@.len() - 1).moved(
            k,
            g.cursor_line as int,
            g.cursor_column as int,
        ) == grid_sheet(k, g),
{
    let rows = g.rows@;
    let n = rows.len() as int;
    assert(sent(k, rows, n - 1).rows =~= rows_held(k, rows, n));
}

/// What a grid's orders are, done to a terminal that its rows leave in a state.
proof fn lemma_grid_end(k: Shape, t: Terminal, g: Grid, mid: Terminal)
    requires
        mid == t.after(
            k,
            ops_orders(snapshot_laws::row_ops(g.rows@, g.rows@.len() as int)),
        ),
    ensures
        t.after(k, grid_orders(g)) == (Terminal {
            screen: mid.screen.moved(k, g.cursor_line as int, g.cursor_column as int),
            pen: snapshot::default_pen(),
            ..mid
        }),
{
    let ops = ops_orders(snapshot_laws::row_ops(g.rows@, g.rows@.len() as int));
    let reset = Order::Attributes(seq![seq![0nat]]);
    let go = Order::Move {
        line: (g.cursor_line + 1) as nat,
        column: (g.cursor_column + 1) as nat,
    };
    assert(seq![reset, go] =~= seq![reset] + seq![go]);
    lemma_after_both(k, t, ops, seq![reset, go]);
    lemma_after_both(k, mid, seq![reset], seq![go]);
    lemma_attributes(k, mid, seq![seq![0nat]]);
    lemma_reset(mid.pen);
    lemma_one(k, Terminal { pen: snapshot::default_pen(), ..mid }, go);
}

/// A grid, sent to a terminal with an empty screen and the cursor in its first cell.
proof fn lemma_grid(k: Shape, t: Terminal, g: Grid, history: nat)
    requires
        usable(k),
        grid_fits(k, g, history),
        t.screen == (Sheet {
            rows: terminal::bare_rows(k, k.lines, snapshot::default_pen().bg),
            at: 0,
            column: 0,
            pending: false,
        }),
        t.pen == snapshot::default_pen(),
        t.modes.line_wrap,
        !t.modes.insert,
        !t.modes.line_feed_new_line,
    ensures
        t.after(k, grid_orders(g)) == (Terminal { screen: grid_sheet(k, g), ..t }),
{
    let n = g.rows@.len() as int;
    let def = snapshot::default_pen();
    assert(t.screen =~= sheet(k, seq![], terminal::bare_row(k, def.bg), 0));
    assert(snapshot_laws::seen(def) == def);
    lemma_rows(k, t, g.rows@, n);
    let mid = Terminal {
        screen: sent(k, g.rows@, n - 1),
        pen: snapshot_laws::seen(snapshot::rows_text(g.rows@, n).1),
        ..t
    };
    lemma_grid_end(k, t, g, mid);
    lemma_all_sent(k, g, history);
}

proof fn lemma_reset(pen: Pen)
    ensures
        snapshot_laws::apply(pen, seq![seq![0nat]]) == snapshot::default_pen(),
{
    let ps = seq![seq![0nat]];
    assert(ps[0] == seq![0nat]);
    assert(ps.skip(1) =~= seq![]);
    assert(snapshot_laws::apply(snapshot::default_pen(), ps.skip(1)) == snapshot::default_pen());
}

/// Modes that a terminal can be in: one kind of mouse reports at most, in one encoding.
pub open spec fn settled(m: Modes) -> bool {
    &&& !(m.mouse_report_click && m.mouse_drag)
    &&& !(m.mouse_report_click && m.mouse_motion)
    &&& !(m.mouse_drag && m.mouse_motion)
    &&& !(m.utf8_mouse && m.sgr_mouse)
}

/// What an order does to the modes.
#[verifier::opaque]
spec fn switched(m: Modes, o: Order) -> Modes {
    match o {
        Order::Private { mode, on } => terminal::private(m, mode, on),
        Order::Public { mode, on } => terminal::public(m, mode, on),
        Order::Keypad => Modes { app_keypad: true, ..m },
        Order::Keyboard(n) => terminal::keyboard(m, n),
        _ => m,
    }
}

/// An order that is about modes alone.
spec fn of_modes(o: Order) -> bool {
    match o {
        Order::Private { mode, .. } => mode != 1049,
        Order::Public { .. } => true,
        Order::Keypad => true,
        Order::Keyboard(_) => true,
        _ => false,
    }
}

proof fn lemma_switch(k: Shape, t: Terminal, os: Seq<Order>, m: Modes, b: bool, o: Order)
    requires
        t.after(k, os) == (Terminal { modes: m, ..t }),
        of_modes(o),
    ensures
        t.after(k, os + order_if(b, o)) == (Terminal {
            modes: if b {
                switched(m, o)
            } else {
                m
            },
            ..t
        }),
{
    lemma_after_both(k, t, os, order_if(b, o));
    if b {
        reveal(switched);
        lemma_one(k, t.after(k, os), o);
    }
}

proof fn lemma_switch_written(os: Seq<Order>, b: bool, o: Order)
    ensures
        same(
            terminal::orders_text(os + order_if(b, o)),
            terminal::orders_text(os) + snapshot::only(b, terminal::order_text(o)),
        ),
{
    lemma_text_both(os, order_if(b, o));
    if b {
        lemma_one_text(o);
    }
}

/// The modes after an order that is there only under a condition.
spec fn switch_if(m: Modes, b: bool, o: Order) -> Modes {
    if b {
        switched(m, o)
    } else {
        m
    }
}

proof fn lemma_three(
    k: Shape,
    t: Terminal,
    os: Seq<Order>,
    m: Modes,
    a: (bool, Order),
    b: (bool, Order),
    c: (bool, Order),
)
    requires
        t.after(k, os) == (Terminal { modes: m, ..t }),
        of_modes(a.1),
        of_modes(b.1),
        of_modes(c.1),
    ensures
        t.after(k, os + order_if(a.0, a.1) + order_if(b.0, b.1) + order_if(c.0, c.1)) == (
        Terminal {
            modes: switch_if(switch_if(switch_if(m, a.0, a.1), b.0, b.1), c.0, c.1),
            ..t
        }),
{
    let o1 = os + order_if(a.0, a.1);
    let o2 = o1 + order_if(b.0, b.1);
    lemma_switch(k, t, os, m, a.0, a.1);
    lemma_switch(k, t, o1, switch_if(m, a.0, a.1), b.0, b.1);
    lemma_switch(k, t, o2, switch_if(switch_if(m, a.0, a.1), b.0, b.1), c.0, c.1);
}

proof fn lemma_three_written(
    os: Seq<Order>,
    a: (bool, Order),
    b: (bool, Order),
    c: (bool, Order),
)
    ensures
        same(
            terminal::orders_text(
                os + order_if(a.0, a.1) + order_if(b.0, b.1) + order_if(c.0, c.1),
            ),
            terminal::orders_text(os) + snapshot::only(a.0, terminal::order_text(a.1))
                + snapshot::only(b.0, terminal::order_text(b.1)) + snapshot::only(
                c.0,
                terminal::order_text(c.1),
            ),
        ),
{
    lemma_switch_written(os, a.0, a.1);
    lemma_switch_written(os + order_if(a.0, a.1), b.0, b.1);
    lemma_switch_written(os + order_if(a.0, a.1) + order_if(b.0, b.1), c.0, c.1);
}

/// The modes of a terminal that has carried out the orders for some of them.
spec fn some_modes(m: Modes, n: int) -> Modes {
    let d = terminal::default_modes();
    Modes {
        show_cursor: n >= 1 ==> m.show_cursor,
        app_cursor: n >= 1 && m.app_cursor,
        app_keypad: n >= 1 && m.app_keypad,
        line_wrap: n >= 2 ==> m.line_wrap,
        line_feed_new_line: n >= 2 && m.line_feed_new_line,
        insert: n >= 2 && m.insert,
        mouse_report_click: n >= 3 && m.mouse_report_click,
        mouse_drag: n >= 3 && m.mouse_drag,
        mouse_motion: n >= 3 && m.mouse_motion,
        focus_in_out: n >= 4 && m.focus_in_out,
        utf8_mouse: n >= 4 && m.utf8_mouse,
        sgr_mouse: n >= 4 && m.sgr_mouse,
        alternate_scroll: n >= 5 ==> m.alternate_scroll,
        bracketed_paste: n >= 5 && m.bracketed_paste,
        ..d
    }
}

proof fn lemma_private(m: Modes, b: bool, mode: nat, on: bool)
    ensures
        switch_if(m, b, Order::Private { mode, on }) == (if b {
            terminal::private(m, mode, on)
        } else {
            m
        }),
{
    reveal(switched);
}

proof fn lemma_group_one(m: Modes)
    ensures
        ({
            let (a, b, c) = group(m, 1);
            switch_if(switch_if(switch_if(some_modes(m, 0), a.0, a.1), b.0, b.1), c.0, c.1)
                == some_modes(m, 1)
        }),
{
    let m0 = some_modes(m, 0);
    let m1 = Modes { show_cursor: m.show_cursor, ..m0 };
    let m2 = Modes { app_cursor: m.app_cursor, ..m1 };
    lemma_private(m0, !m.show_cursor, 25, false);
    lemma_private(m1, m.app_cursor, 1, true);
    assert(switch_if(m2, m.app_keypad, Order::Keypad) == some_modes(m, 1)) by {
        reveal(switched);
    }
}

proof fn lemma_group_two(m: Modes)
    ensures
        ({
            let (a, b, c) = group(m, 2);
            switch_if(switch_if(switch_if(some_modes(m, 1), a.0, a.1), b.0, b.1), c.0, c.1)
                == some_modes(m, 2)
        }),
{
    let m0 = some_modes(m, 1);
    let m1 = Modes { line_wrap: m.line_wrap, ..m0 };
    let m2 = Modes { line_feed_new_line: m.line_feed_new_line, ..m1 };
    let (a, b, c) = group(m, 2);
    lemma_private(m0, !m.line_wrap, 7, false);
    assert(switch_if(m1, b.0, b.1) == m2) by {
        reveal(switched);
    }
    assert(switch_if(m2, c.0, c.1) == some_modes(m, 2)) by {
        reveal(switched);
    }
}

proof fn lemma_group_three(m: Modes)
    requires
        settled(m),
    ensures
        ({
            let (a, b, c) = group(m, 3);
            switch_if(switch_if(switch_if(some_modes(m, 2), a.0, a.1), b.0, b.1), c.0, c.1)
                == some_modes(m, 3)
        }),
{
    let m0 = some_modes(m, 2);
    let m1 = Modes { mouse_report_click: m.mouse_report_click, ..m0 };
    let m2 = Modes { mouse_drag: m.mouse_drag, ..m1 };
    lemma_private(m0, m.mouse_report_click, 1000, true);
    lemma_private(m1, m.mouse_drag, 1002, true);
    lemma_private(m2, m.mouse_motion, 1003, true);
}

proof fn lemma_group_four(m: Modes)
    requires
        settled(m),
    ensures
        ({
            let (a, b, c) = group(m, 4);
            switch_if(switch_if(switch_if(some_modes(m, 3), a.0, a.1), b.0, b.1), c.0, c.1)
                == some_modes(m, 4)
        }),
{
    let m0 = some_modes(m, 3);
    let m1 = Modes { focus_in_out: m.focus_in_out, ..m0 };
    let m2 = Modes { utf8_mouse: m.utf8_mouse, ..m1 };
    lemma_private(m0, m.focus_in_out, 1004, true);
    lemma_private(m1, m.utf8_mouse, 1005, true);
    lemma_private(m2, m.sgr_mouse, 1006, true);
}

proof fn lemma_group_five(m: Modes)
    ensures
        ({
            let (a, b, c) = group(m, 5);
            switch_if(switch_if(switch_if(some_modes(m, 4), a.0, a.1), b.0, b.1), c.0, c.1)
                == some_modes(m, 5)
        }),
{
    let m0 = some_modes(m, 4);
    let m2 = Modes { alternate_scroll: m.alternate_scroll, ..m0 };
    lemma_private(m0, m.alternate_scroll, 1007, true);
    lemma_private(m0, !m.alternate_scroll, 1007, false);
    lemma_private(m2, m.bracketed_paste, 2004, true);
}

proof fn lemma_group(m: Modes, n: int)
    requires
        1 <= n <= 5,
        settled(m),
    ensures
        ({
            let (a, b, c) = group(m, n);
            &&& switch_if(
                switch_if(switch_if(some_modes(m, n - 1), a.0, a.1), b.0, b.1),
                c.0,
                c.1,
            ) == some_modes(m, n)
            &&& of_modes(a.1)
            &&& of_modes(b.1)
            &&& of_modes(c.1)
        }),
{
    if n == 1 {
        lemma_group_one(m);
    } else if n == 2 {
        lemma_group_two(m);
    } else if n == 3 {
        lemma_group_three(m);
    } else if n == 4 {
        lemma_group_four(m);
    } else {
        lemma_group_five(m);
    }
}

/// How the orders of the first groups are written.
spec fn groups_text(m: Modes, n: int) -> Seq<char>
    decreases n,
{
    if n <= 0 {
        seq![]
    } else {
        let (a, b, c) = group(m, n);
        groups_text(m, n - 1) + snapshot::only(a.0, terminal::order_text(a.1)) + snapshot::only(
            b.0,
            terminal::order_text(b.1),
        ) + snapshot::only(c.0, terminal::order_text(c.1))
    }
}

proof fn lemma_groups(k: Shape, t: Terminal, m: Modes, n: int)
    requires
        0 <= n <= 5,
        settled(m),
        t.modes == terminal::default_modes(),
    ensures
        t.after(k, groups(m, n)) == (Terminal { modes: some_modes(m, n), ..t }),
    decreases n,
{
    if n > 0 {
        lemma_groups(k, t, m, n - 1);
        lemma_group(m, n);
        let (a, b, c) = group(m, n);
        lemma_three(k, t, groups(m, n - 1), some_modes(m, n - 1), a, b, c);
    }
}

proof fn lemma_groups_written(m: Modes, n: int)
    requires
        0 <= n <= 5,
    ensures
        same(terminal::orders_text(groups(m, n)), groups_text(m, n)),
    decreases n,
{
    if n > 0 {
        lemma_groups_written(m, n - 1);
        let (a, b, c) = group(m, n);
        lemma_three_written(groups(m, n - 1), a, b, c);
    }
}

proof fn lemma_keyboard(m: Modes)
    ensures
        ({
            let f = snapshot::kitty_flags(m);
            switch_if(some_modes(m, 5), f != 0, Order::Keyboard(f as nat)) == m
        }),
{
    reveal(switched);
}

/// The modes that are sent, read by a terminal with its default modes, are the modes that the
/// snapshot is of.
pub proof fn the_modes_read_back(k: Shape, t: Terminal, m: Modes)
    requires
        t.modes == terminal::default_modes(),
        settled(m),
    ensures
        t.after(k, mode_orders(m)) == (Terminal { modes: m, ..t }),
{
    lemma_groups(k, t, m, 5);
    let flags = snapshot::kitty_flags(m);
    lemma_switch(
        k,
        t,
        groups(m, 5),
        some_modes(m, 5),
        flags != 0,
        Order::Keyboard(flags as nat),
    );
    lemma_keyboard(m);
}

proof fn lemma_longer(n: nat)
    requires
        n >= 10,
    ensures
        snapshot::num(n as int) == snapshot::num((n / 10) as int).push((48 + n % 10) as char),
{
    assert(text::decimal(n) == text::decimal(n / 10).push(text::digit(n % 10)));
    assert(snapshot::num(n as int) =~= snapshot::num((n / 10) as int).push((48 + n % 10) as char));
}

proof fn lemma_mode_numbers(d: nat)
    requires
        d < 10,
    ensures
        snapshot::num(1000 + d as int) == seq!['1', '0', '0', (48 + d) as char],
        snapshot::num(2000 + d as int) == seq!['2', '0', '0', (48 + d) as char],
        snapshot::num(20 + d as int) == seq!['2', (48 + d) as char],
        snapshot::num(1040 + d as int) == seq!['1', '0', '4', (48 + d) as char],
{
    snapshot_laws::lemma_digit(1);
    snapshot_laws::lemma_digit(2);
    lemma_longer(10);
    lemma_longer(100);
    lemma_longer(104);
    lemma_longer(20);
    lemma_longer(200);
    lemma_longer(20 + d);
    lemma_longer(1000 + d);
    lemma_longer(2000 + d);
    lemma_longer(1040 + d);
    assert(snapshot::num(1000 + d as int) =~= seq!['1', '0', '0', (48 + d) as char]);
    assert(snapshot::num(2000 + d as int) =~= seq!['2', '0', '0', (48 + d) as char]);
    assert(snapshot::num(20 + d as int) =~= seq!['2', (48 + d) as char]);
    assert(snapshot::num(1040 + d as int) =~= seq!['1', '0', '4', (48 + d) as char]);
}

proof fn lemma_switch_text(mode: nat, on: bool)
    ensures
        terminal::order_text(Order::Private { mode, on }) == seq!['\x1b', '[', '?']
            + snapshot::num(mode as int) + seq![
            if on {
                'h'
            } else {
                'l'
            },
        ],
        terminal::order_text(Order::Public { mode, on }) == seq!['\x1b', '['] + snapshot::num(
            mode as int,
        ) + seq![
            if on {
                'h'
            } else {
                'l'
            },
        ],
{
    reveal_strlit("\x1b[?");
    reveal_strlit("\x1b[");
    reveal_strlit("h");
    reveal_strlit("l");
    assert("\x1b[?"@ =~= seq!['\x1b', '[', '?']);
    assert("\x1b["@ =~= seq!['\x1b', '[']);
    assert("h"@ =~= seq!['h']);
    assert("l"@ =~= seq!['l']);
}

proof fn lemma_text_one()
    ensures
        terminal::order_text(unset(25)) == "\x1b[?25l"@,
        terminal::order_text(set(1)) == "\x1b[?1h"@,
        terminal::order_text(Order::Keypad) == "\x1b="@,
{
    lemma_mode_numbers(5);
    lemma_switch_text(25, false);
    reveal_strlit("\x1b[?25l");
    assert(terminal::order_text(unset(25)) =~= "\x1b[?25l"@);
    snapshot_laws::lemma_digit(1);
    lemma_switch_text(1, true);
    reveal_strlit("\x1b[?1h");
    assert(terminal::order_text(set(1)) =~= "\x1b[?1h"@);
}

proof fn lemma_text_two()
    ensures
        terminal::order_text(unset(7)) == "\x1b[?7l"@,
        terminal::order_text(Order::Public { mode: 20, on: true }) == "\x1b[20h"@,
        terminal::order_text(Order::Public { mode: 4, on: true }) == "\x1b[4h"@,
{
    snapshot_laws::lemma_digit(7);
    lemma_switch_text(7, false);
    reveal_strlit("\x1b[?7l");
    assert(terminal::order_text(unset(7)) =~= "\x1b[?7l"@);
    lemma_mode_numbers(0);
    lemma_switch_text(20, true);
    reveal_strlit("\x1b[20h");
    assert(terminal::order_text(Order::Public { mode: 20, on: true }) =~= "\x1b[20h"@);
    snapshot_laws::lemma_digit(4);
    lemma_switch_text(4, true);
    reveal_strlit("\x1b[4h");
    assert(terminal::order_text(Order::Public { mode: 4, on: true }) =~= "\x1b[4h"@);
}

proof fn lemma_text_three()
    ensures
        terminal::order_text(set(1000)) == "\x1b[?1000h"@,
        terminal::order_text(set(1002)) == "\x1b[?1002h"@,
        terminal::order_text(set(1003)) == "\x1b[?1003h"@,
{
    lemma_mode_numbers(0);
    lemma_switch_text(1000, true);
    reveal_strlit("\x1b[?1000h");
    assert(terminal::order_text(set(1000)) =~= "\x1b[?1000h"@);
    lemma_mode_numbers(2);
    lemma_switch_text(1002, true);
    reveal_strlit("\x1b[?1002h");
    assert(terminal::order_text(set(1002)) =~= "\x1b[?1002h"@);
    lemma_mode_numbers(3);
    lemma_switch_text(1003, true);
    reveal_strlit("\x1b[?1003h");
    assert(terminal::order_text(set(1003)) =~= "\x1b[?1003h"@);
}

proof fn lemma_text_four()
    ensures
        terminal::order_text(set(1004)) == "\x1b[?1004h"@,
        terminal::order_text(set(1005)) == "\x1b[?1005h"@,
        terminal::order_text(set(1006)) == "\x1b[?1006h"@,
{
    lemma_mode_numbers(4);
    lemma_switch_text(1004, true);
    reveal_strlit("\x1b[?1004h");
    assert(terminal::order_text(set(1004)) =~= "\x1b[?1004h"@);
    lemma_mode_numbers(5);
    lemma_switch_text(1005, true);
    reveal_strlit("\x1b[?1005h");
    assert(terminal::order_text(set(1005)) =~= "\x1b[?1005h"@);
    lemma_mode_numbers(6);
    lemma_switch_text(1006, true);
    reveal_strlit("\x1b[?1006h");
    assert(terminal::order_text(set(1006)) =~= "\x1b[?1006h"@);
}

proof fn lemma_text_five()
    ensures
        terminal::order_text(set(1007)) == "\x1b[?1007h"@,
        terminal::order_text(unset(1007)) == "\x1b[?1007l"@,
        terminal::order_text(set(2004)) == "\x1b[?2004h"@,
{
    lemma_mode_numbers(7);
    lemma_switch_text(1007, true);
    reveal_strlit("\x1b[?1007h");
    assert(terminal::order_text(set(1007)) =~= "\x1b[?1007h"@);
    lemma_mode_numbers(7);
    lemma_switch_text(1007, false);
    reveal_strlit("\x1b[?1007l");
    assert(terminal::order_text(unset(1007)) =~= "\x1b[?1007l"@);
    lemma_mode_numbers(4);
    lemma_switch_text(2004, true);
    reveal_strlit("\x1b[?2004h");
    assert(terminal::order_text(set(2004)) =~= "\x1b[?2004h"@);
}

proof fn lemma_more_text_one(m: Modes)
    ensures
        same(
            groups_text(m, 1),
            snapshot::only(!m.show_cursor, "\x1b[?25l"@)
                + snapshot::only(m.app_cursor, "\x1b[?1h"@)
                + snapshot::only(m.app_keypad, "\x1b="@),
        ),
{
    lemma_text_one();
    let first = snapshot::only(!m.show_cursor, "\x1b[?25l"@);
    assert(groups_text(m, 0) + first =~= first);
}

proof fn lemma_more_text_two(m: Modes)
    ensures
        same(
            groups_text(m, 2),
            groups_text(m, 1)
                + snapshot::only(!m.line_wrap, "\x1b[?7l"@)
                + snapshot::only(m.line_feed_new_line, "\x1b[20h"@)
                + snapshot::only(m.insert, "\x1b[4h"@),
        ),
{
    lemma_text_two();
}

proof fn lemma_more_text_three(m: Modes)
    ensures
        same(
            groups_text(m, 3),
            groups_text(m, 2)
                + snapshot::only(m.mouse_report_click, "\x1b[?1000h"@)
                + snapshot::only(m.mouse_drag, "\x1b[?1002h"@)
                + snapshot::only(m.mouse_motion, "\x1b[?1003h"@),
        ),
{
    lemma_text_three();
}

proof fn lemma_more_text_four(m: Modes)
    ensures
        same(
            groups_text(m, 4),
            groups_text(m, 3)
                + snapshot::only(m.focus_in_out, "\x1b[?1004h"@)
                + snapshot::only(m.utf8_mouse, "\x1b[?1005h"@)
                + snapshot::only(m.sgr_mouse, "\x1b[?1006h"@),
        ),
{
    lemma_text_four();
}

proof fn lemma_more_text_five(m: Modes)
    ensures
        same(
            groups_text(m, 5),
            groups_text(m, 4)
                + snapshot::only(m.alternate_scroll, "\x1b[?1007h"@)
                + snapshot::only(!m.alternate_scroll, "\x1b[?1007l"@)
                + snapshot::only(m.bracketed_paste, "\x1b[?2004h"@),
        ),
{
    lemma_text_five();
}

proof fn lemma_modes_text(m: Modes)
    ensures
        same(
            groups_text(m, 5) + snapshot::only(
                snapshot::kitty_flags(m) != 0,
                terminal::order_text(Order::Keyboard(snapshot::kitty_flags(m) as nat)),
            ),
            snapshot::modes_text(m),
        ),
{
    lemma_more_text_one(m);
    lemma_more_text_two(m);
    lemma_more_text_three(m);
    lemma_more_text_four(m);
    lemma_more_text_five(m);
}

proof fn lemma_op_text(op: Op)
    ensures
        same(terminal::orders_text(op_orders(op)), snapshot_laws::op_text(op)),
{
    match op {
        Op::SetPen(p) => {
            lemma_one_text(Order::Attributes(seq![seq![0nat]] + snapshot_laws::pen_params(p)));
            lemma_pen_order(p);
        },
        Op::Print(text) => {
            lemma_one_text(Order::Print(text));
        },
        Op::Break => {
            assert(op_orders(op) =~= seq![Order::Return] + seq![Order::Feed]);
            lemma_text_both(seq![Order::Return], seq![Order::Feed]);
            lemma_one_text(Order::Return);
            lemma_one_text(Order::Feed);
            reveal_strlit("\r");
            reveal_strlit("\n");
            reveal_strlit("\r\n");
            assert("\r"@ + "\n"@ =~= "\r\n"@);
        },
    }
}

proof fn lemma_pen_order(p: Pen)
    ensures
        terminal::order_text(
            Order::Attributes(seq![seq![0nat]] + snapshot_laws::pen_params(p)),
        ) == snapshot::sgr(p),
{
    let rest = snapshot_laws::pen_params(p);
    let ps = seq![seq![0nat]] + rest;
    assert(ps[0] == seq![0nat]);
    assert(ps.skip(1) =~= rest);
    snapshot_laws::a_pen_is_restated_in_full(p, p);
    lemma_reset_text(snapshot_laws::params_text(rest));
    assert(snapshot_laws::param_text(ps[0]) == snapshot::num(0));
}

proof fn lemma_reset_text(rest: Seq<char>)
    ensures
        "\x1b["@ + snapshot::num(0) + rest + "m"@ == "\x1b[0"@ + rest + "m"@,
{
    snapshot_laws::lemma_digit(0);
    reveal_strlit("\x1b[");
    reveal_strlit("\x1b[0");
    assert("\x1b["@ + snapshot::num(0) =~= "\x1b[0"@);
}

proof fn lemma_ops_text(ops: Seq<Op>)
    ensures
        same(terminal::orders_text(ops_orders(ops)), snapshot_laws::ops_text(ops)),
    decreases ops.len(),
{
    if ops.len() > 0 {
        lemma_ops_text(ops.drop_last());
        lemma_op_text(ops.last());
        lemma_text_both(ops_orders(ops.drop_last()), op_orders(ops.last()));
    }
}

proof fn lemma_reset_order()
    ensures
        same(terminal::order_text(Order::Attributes(seq![seq![0nat]])), "\x1b[0m"@),
{
    let ps = seq![seq![0nat]];
    let none = Seq::<char>::empty();
    assert(ps.skip(1) =~= seq![]);
    assert(snapshot_laws::param_text(ps[0]) == snapshot::num(0));
    lemma_reset_text(none);
    reveal_strlit("\x1b[0");
    reveal_strlit("m");
    reveal_strlit("\x1b[0m");
    assert("\x1b[0"@ + none + "m"@ =~= "\x1b[0m"@);
}

proof fn lemma_grid_text(g: Grid)
    ensures
        same(terminal::orders_text(grid_orders(g)), snapshot::grid_text(g)),
{
    let ops = snapshot_laws::row_ops(g.rows@, g.rows@.len() as int);
    lemma_ops_text(ops);
    snapshot_laws::rows_are_sent_as_said(g.rows@, g.rows@.len() as int);
    let reset = Order::Attributes(seq![seq![0nat]]);
    let go = Order::Move {
        line: (g.cursor_line + 1) as nat,
        column: (g.cursor_column + 1) as nat,
    };
    assert(seq![reset, go] =~= seq![reset] + seq![go]);
    lemma_text_both(ops_orders(ops), seq![reset, go]);
    lemma_text_both(seq![reset], seq![go]);
    lemma_one_text(reset);
    lemma_one_text(go);
    lemma_reset_order();
    lemma_joined(snapshot_laws::ops_text(ops), "\x1b[0m"@, snapshot::move_to(g));
}

proof fn lemma_joined(a: Seq<char>, b: Seq<char>, c: Seq<char>)
    ensures
        same(a + (b + c), a + b + c),
{
    assert(a + (b + c) =~= a + b + c);
}

/// The alternate screen shown, and the cursor in its first cell.
pub open spec fn alternate() -> Seq<Order> {
    seq![set(1049), Order::Move { line: 1, column: 1 }]
}

proof fn lemma_alternate_text()
    ensures
        same(terminal::orders_text(alternate()), "\x1b[?1049h\x1b[1;1H"@),
{
    let home = Order::Move { line: 1, column: 1 };
    assert(alternate() =~= seq![set(1049)] + seq![home]);
    lemma_text_both(seq![set(1049)], seq![home]);
    lemma_one_text(set(1049));
    lemma_one_text(home);
    lemma_mode_numbers(9);
    lemma_switch_text(1049, true);
    snapshot_laws::lemma_digit(1);
    reveal_strlit("\x1b[");
    reveal_strlit(";");
    reveal_strlit("H");
    reveal_strlit("\x1b[?1049h\x1b[1;1H");
    assert(terminal::order_text(set(1049)) + terminal::order_text(home)
        =~= "\x1b[?1049h\x1b[1;1H"@);
}

/// The orders for the alternate screen.
pub open spec fn alternate_orders(s: Screen) -> Seq<Order> {
    match s.alternate {
        Some(g) => alternate() + grid_orders(g),
        None => seq![],
    }
}

/// The order for the title.
pub open spec fn title_orders(title: Option<Seq<char>>) -> Seq<Order> {
    match title {
        Some(t) => seq![Order::Title(t)],
        None => seq![],
    }
}

proof fn lemma_alternate_written(s: Screen)
    ensures
        same(
            terminal::orders_text(alternate_orders(s)),
            match s.alternate {
                Some(g) => "\x1b[?1049h\x1b[1;1H"@ + snapshot::grid_text(g),
                None => seq![],
            },
        ),
{
    if let Some(g) = s.alternate {
        lemma_grid_text(g);
        lemma_alternate_text();
        lemma_text_both(alternate(), grid_orders(g));
    }
}

proof fn lemma_modes_written(m: Modes)
    ensures
        same(terminal::orders_text(mode_orders(m)), snapshot::modes_text(m)),
{
    let flags = snapshot::kitty_flags(m);
    lemma_groups_written(m, 5);
    lemma_switch_written(groups(m, 5), flags != 0, Order::Keyboard(flags as nat));
    lemma_modes_text(m);
}

proof fn lemma_title_written(title: Option<Seq<char>>)
    ensures
        same(
            terminal::orders_text(title_orders(title)),
            match title {
                Some(t) => "\x1b]2;"@ + t + "\x07"@,
                None => seq![],
            },
        ),
{
    if let Some(w) = title {
        lemma_one_text(Order::Title(w));
    }
}

proof fn lemma_snapshot_written(s: Screen, title: Option<Seq<char>>)
    ensures
        same(
            snapshot::snapshot(s, title),
            terminal::orders_text(snapshot_orders(s, title)),
        ),
{
    let a = grid_orders(s.primary);
    let b = alternate_orders(s);
    let c = mode_orders(s.modes);
    lemma_grid_text(s.primary);
    lemma_alternate_written(s);
    lemma_modes_written(s.modes);
    lemma_title_written(title);
    lemma_text_both(a, b);
    lemma_text_both(a + b, c);
    lemma_text_both(a + b + c, title_orders(title));
}

/// A snapshot is the text of the orders that it gives.
pub proof fn a_snapshot_gives_orders(s: Screen, title: Option<Seq<char>>)
    ensures
        snapshot::snapshot(s, title) == terminal::orders_text(snapshot_orders(s, title)),
{
    lemma_snapshot_written(s, title);
}

/// A screen that a terminal of a shape can show.
pub open spec fn screen_fits(k: Shape, s: Screen) -> bool {
    &&& usable(k)
    &&& grid_fits(k, s.primary, k.history)
    &&& s.alternate matches Some(g) ==> grid_fits(k, g, 0)
    &&& settled(s.modes)
}

/// A terminal that shows a screen: every cell of history and screen, the cursor, the modes and the
/// title. While the alternate screen is shown it is that one, and leaving it lands on the primary
/// screen, whole as well.
pub open spec fn shows_screen(
    k: Shape,
    t: Terminal,
    s: Screen,
    title: Option<Seq<char>>,
) -> bool {
    &&& t.modes == s.modes
    &&& t.title == title
    &&& match s.alternate {
        None => {
            &&& t.primary is None
            &&& holds(k, t.screen, s.primary, k.history)
        },
        Some(g) => {
            &&& t.primary is Some
            &&& holds(k, t.screen, g, 0)
            &&& holds(k, t.obeyed(k, unset(1049)).screen, s.primary, k.history)
        },
    }
}

/// A fresh terminal that carries out the orders of a snapshot shows the screen.
pub proof fn the_orders_recreate_the_screen(k: Shape, s: Screen, title: Option<Seq<char>>)
    requires
        screen_fits(k, s),
    ensures
        shows_screen(k, terminal::fresh(k).after(k, snapshot_orders(s, title)), s, title),
{
    let f = terminal::fresh(k);
    let a = grid_orders(s.primary);
    let b = alternate_orders(s);
    let c = mode_orders(s.modes);
    let d = title_orders(title);
    lemma_after_both(k, f, a, b);
    lemma_after_both(k, f, a + b, c);
    lemma_after_both(k, f, a + b + c, d);
    lemma_grid(k, f, s.primary, k.history);
    lemma_holds(k, s.primary, k.history);
    let t1 = f.after(k, a);
    let t2 = t1.after(k, b);
    lemma_alternate(k, t1, s);
    the_modes_read_back(k, t2, s.modes);
    let t3 = t2.after(k, c);
    if let Some(w) = title {
        lemma_one(k, t3, Order::Title(w));
    }
}

proof fn lemma_alternate(k: Shape, t: Terminal, s: Screen)
    requires
        usable(k),
        s.alternate matches Some(g) ==> grid_fits(k, g, 0),
        t == (Terminal { screen: grid_sheet(k, s.primary), ..terminal::fresh(k) }),
    ensures
        t.after(k, alternate_orders(s)) == (match s.alternate {
            None => t,
            Some(g) => Terminal {
                screen: grid_sheet(k, g),
                primary: Some(t.screen),
                ..t
            },
        }),
        s.alternate matches Some(g) ==> holds(k, grid_sheet(k, g), g, 0),
{
    if let Some(g) = s.alternate {
        let home = Order::Move { line: 1, column: 1 };
        assert(alternate() =~= seq![set(1049)] + seq![home]);
        lemma_after_both(k, t, alternate(), grid_orders(g));
        lemma_after_both(k, t, seq![set(1049)], seq![home]);
        lemma_one(k, t, set(1049));
        let u = t.obeyed(k, set(1049));
        lemma_one(k, u, home);
        assert(u.modes == terminal::default_modes());
        lemma_grid(k, u.obeyed(k, home), g, 0);
        lemma_holds(k, g, 0);
    }
}

} // verus!
