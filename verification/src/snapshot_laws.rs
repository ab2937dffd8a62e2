//! What a snapshot says: what its text is made of, and what the attributes in it mean.

use crate::color::{Color, Rgb, BACKGROUND, FOREGROUND};
use crate::snapshot;
use crate::snapshot::{Cell, Pen, Screen, Style};
use crate::text;
use vstd::prelude::*;

verus! {

/// One thing that a snapshot's text says.
pub enum Op {
    /// From here on draw like this.
    SetPen(Pen),
    Print(Seq<char>),
    /// Go to the beginning of the next line.
    Break,
}

/// How it is written.
pub open spec fn op_text(op: Op) -> Seq<char> {
    match op {
        Op::SetPen(p) => snapshot::sgr(p),
        Op::Print(t) => t,
        Op::Break => "\r\n"@,
    }
}

/// How several are written.
pub open spec fn ops_text(ops: Seq<Op>) -> Seq<char>
    decreases ops.len(),
{
    if ops.len() == 0 {
        seq![]
    } else {
        ops_text(ops.drop_last()) + op_text(ops.last())
    }
}

/// What a snapshot says of the first cells of a row.
pub open spec fn cell_ops(row: Seq<Cell>, n: int, next_wide: bool, pen: Pen) -> Seq<Op>
    decreases n,
{
    if n <= 0 {
        seq![]
    } else {
        let before = cell_ops(row, n - 1, next_wide, pen);
        let p = snapshot::cells_text(row, n - 1, next_wide, pen).1;
        let own = snapshot::pen_of(row[n - 1]);
        if snapshot::filled(row, n - 1, next_wide) {
            before
        } else {
            (if p != own {
                before.push(Op::SetPen(own))
            } else {
                before
            }).push(Op::Print(snapshot::cell_text(row, n - 1)))
        }
    }
}

/// What it says before a row.
pub open spec fn break_ops(rows: Seq<Vec<Cell>>, i: int, pen: Pen) -> Seq<Op> {
    if !snapshot::breaks(rows, i) {
        seq![]
    } else if snapshot::coloured(pen.bg) {
        seq![Op::SetPen(snapshot::default_pen()), Op::Break]
    } else {
        seq![Op::Break]
    }
}

/// What it says of a row.
pub open spec fn own_ops(rows: Seq<Vec<Cell>>, i: int) -> Seq<Op> {
    cell_ops(
        rows[i]@,
        snapshot::row_end(rows, i) as int,
        snapshot::next_wide(rows, i),
        snapshot::pen_at(rows, i, snapshot::rows_text(rows, i).1),
    )
}

/// What it says of the first rows.
pub open spec fn row_ops(rows: Seq<Vec<Cell>>, n: int) -> Seq<Op>
    decreases n,
{
    if n <= 0 {
        seq![]
    } else {
        row_ops(rows, n - 1) + break_ops(rows, n - 1, snapshot::rows_text(rows, n - 1).1)
            + own_ops(rows, n - 1)
    }
}

proof fn lemma_text_both(a: Seq<Op>, b: Seq<Op>)
    ensures
        ops_text(a + b) == ops_text(a) + ops_text(b),
    decreases b.len(),
{
    if b.len() == 0 {
        assert(a + b =~= a);
        assert(ops_text(a) + ops_text(b) =~= ops_text(a));
    } else {
        assert((a + b).drop_last() =~= a + b.drop_last());
        assert((a + b).last() == b.last());
        lemma_text_both(a, b.drop_last());
        assert(ops_text(a + b) =~= ops_text(a) + ops_text(b));
    }
}

proof fn lemma_push_text(ops: Seq<Op>, op: Op)
    ensures
        ops_text(ops.push(op)) == ops_text(ops) + op_text(op),
{
    assert(ops.push(op).drop_last() =~= ops);
}

proof fn lemma_cells_text(row: Seq<Cell>, n: int, next_wide: bool, pen: Pen)
    ensures
        ops_text(cell_ops(row, n, next_wide, pen)) == snapshot::cells_text(
            row,
            n,
            next_wide,
            pen,
        ).0,
    decreases n,
{
    if n > 0 {
        lemma_cells_text(row, n - 1, next_wide, pen);
        let before = cell_ops(row, n - 1, next_wide, pen);
        let (t, p) = snapshot::cells_text(row, n - 1, next_wide, pen);
        let own = snapshot::pen_of(row[n - 1]);
        if !snapshot::filled(row, n - 1, next_wide) {
            let with = if p != own {
                before.push(Op::SetPen(own))
            } else {
                before
            };
            if p != own {
                lemma_push_text(before, Op::SetPen(own));
            } else {
                assert(t + snapshot::pen_change(p, row[n - 1]) =~= t);
            }
            lemma_push_text(with, Op::Print(snapshot::cell_text(row, n - 1)));
        }
    }
}

proof fn lemma_break_text(rows: Seq<Vec<Cell>>, i: int, pen: Pen)
    ensures
        ops_text(break_ops(rows, i, pen)) == snapshot::break_text(rows, i, pen),
{
    let none = Seq::<Op>::empty();
    let reset = Op::SetPen(snapshot::default_pen());
    let ops = break_ops(rows, i, pen);
    assert(ops_text(none) =~= seq![]);
    if snapshot::breaks(rows, i) {
        if snapshot::coloured(pen.bg) {
            lemma_push_text(none, reset);
            lemma_push_text(none.push(reset), Op::Break);
            assert(ops =~= none.push(reset).push(Op::Break));
        } else {
            lemma_push_text(none, Op::Break);
            assert(ops =~= none.push(Op::Break));
        }
    }
    assert(ops_text(ops) =~= snapshot::break_text(rows, i, pen));
}

/// What a snapshot says of rows, written, is the text that is sent of them.
pub proof fn rows_are_sent_as_said(rows: Seq<Vec<Cell>>, n: int)
    ensures
        ops_text(row_ops(rows, n)) == snapshot::rows_text(rows, n).0,
    decreases n,
{
    if n > 0 {
        rows_are_sent_as_said(rows, n - 1);
        let (t, p) = snapshot::rows_text(rows, n - 1);
        let before = row_ops(rows, n - 1);
        let brk = break_ops(rows, n - 1, p);
        lemma_text_both(before, brk);
        lemma_text_both(before + brk, own_ops(rows, n - 1));
        lemma_break_text(rows, n - 1, p);
        lemma_cells_text(
            rows[n - 1]@,
            snapshot::row_end(rows, n - 1) as int,
            snapshot::next_wide(rows, n - 1),
            snapshot::pen_at(rows, n - 1, p),
        );
    }
}

/// What is left out at the end of a row is blank.
pub proof fn only_blanks_are_left_out(row: Seq<Cell>, i: int)
    requires
        snapshot::content_end(row) <= i < row.len(),
    ensures
        !snapshot::has_content(row[i]),
    decreases row.len(),
{
    if !snapshot::has_content(row.last()) && i < row.len() - 1 {
        only_blanks_are_left_out(row.drop_last(), i);
    }
}

/// What is sent of the primary screen is a prefix of the stream that the alternate screen, the modes
/// and the title have no part in: frames of a full-screen program leave no trace in it.
pub proof fn the_alternate_screen_leaves_no_trace(s: Screen, title: Option<Seq<char>>)
    ensures
        snapshot::grid_text(s.primary).is_prefix_of(snapshot::snapshot(s, title)),
        s.alternate is None ==> snapshot::snapshot(s, title) == snapshot::grid_text(s.primary)
            + snapshot::modes_text(s.modes) + match title {
            Some(t) => "\x1b]2;"@ + t + "\x07"@,
            None => seq![],
        },
{
    let g = snapshot::grid_text(s.primary);
    let all = snapshot::snapshot(s, title);
    assert(g =~= all.take(g.len() as int));
    if s.alternate is None {
        assert(g + Seq::<char>::empty() =~= g);
    }
}

/// One parameter of an attribute sequence, with what is behind its colon.
pub type Param = Seq<nat>;

/// A parameter, written.
pub open spec fn param_text(p: Param) -> Seq<char>
    decreases p.len(),
{
    if p.len() == 0 {
        seq![]
    } else if p.len() == 1 {
        text::ascii(text::decimal(p[0]))
    } else {
        param_text(p.drop_last()) + ":"@ + text::ascii(text::decimal(p.last()))
    }
}

/// Parameters, each behind a semicolon.
pub open spec fn params_text(ps: Seq<Param>) -> Seq<char>
    decreases ps.len(),
{
    if ps.len() == 0 {
        seq![]
    } else {
        params_text(ps.drop_last()) + ";"@ + param_text(ps.last())
    }
}

/// The parameters of a colour.
pub open spec fn color_list(c: Color, base: nat, extended: nat) -> Seq<Param> {
    match c {
        Color::Named(n) => if n < 8 {
            seq![seq![base + n as nat]]
        } else if n < 16 {
            seq![seq![(base + 60 + n - 8) as nat]]
        } else {
            seq![]
        },
        Color::Indexed(i) => seq![seq![extended], seq![5nat], seq![i as nat]],
        Color::Spec(c) => seq![
            seq![extended],
            seq![2nat],
            seq![c.r as nat],
            seq![c.g as nat],
            seq![c.b as nat],
        ],
    }
}

/// The parameter of an underline.
pub open spec fn underline_list(s: Style) -> Seq<Param> {
    if s.underline {
        seq![seq![4nat]]
    } else if s.double_underline {
        seq![seq![4nat, 2]]
    } else if s.undercurl {
        seq![seq![4nat, 3]]
    } else if s.dotted_underline {
        seq![seq![4nat, 4]]
    } else if s.dashed_underline {
        seq![seq![4nat, 5]]
    } else {
        seq![]
    }
}

/// A parameter that is there only under a condition.
pub open spec fn flag(b: bool, n: nat) -> Seq<Param> {
    if b {
        seq![seq![n]]
    } else {
        seq![]
    }
}

/// The parameters of an underline's colour.
pub open spec fn underline_color_list(c: Option<Color>) -> Seq<Param> {
    match c {
        Some(Color::Indexed(i)) => seq![seq![58nat], seq![5nat], seq![i as nat]],
        Some(Color::Spec(c)) => seq![
            seq![58nat],
            seq![2nat],
            seq![c.r as nat],
            seq![c.g as nat],
            seq![c.b as nat],
        ],
        _ => seq![],
    }
}

/// The parameters behind the reset that a pen is written with.
pub open spec fn pen_params(p: Pen) -> Seq<Param> {
    flag(p.style.bold, 1) + (flag(p.style.dim, 2) + (flag(p.style.italic, 3) + (underline_list(
        p.style,
    ) + (flag(p.style.inverse, 7) + (flag(p.style.hidden, 8) + (flag(p.style.strikeout, 9) + (
    color_list(p.fg, 30, 38) + (color_list(p.bg, 40, 48) + underline_color_list(
        p.underline_color,
    )))))))))
}

/// A colour written as parameters behind one that announces it, and how many they are.
pub open spec fn read_color(ps: Seq<Param>) -> Option<(Color, int)> {
    if ps.len() >= 2 && ps[0] == seq![5nat] && ps[1].len() == 1 && ps[1][0] < 256 {
        Some((Color::Indexed(ps[1][0] as u8), 2))
    } else if ps.len() >= 4 && ps[0] == seq![2nat] && ps[1].len() == 1 && ps[2].len() == 1
        && ps[3].len() == 1 && ps[1][0] < 256 && ps[2][0] < 256 && ps[3][0] < 256 {
        Some(
            (
                Color::Spec(
                    Rgb { r: ps[1][0] as u8, g: ps[2][0] as u8, b: ps[3][0] as u8 },
                ),
                4,
            ),
        )
    } else {
        None
    }
}

/// A style with one kind of underline.
pub open spec fn underlined(s: Style, kind: nat) -> Style {
    Style {
        underline: kind == 1,
        double_underline: kind == 2,
        undercurl: kind == 3,
        dotted_underline: kind == 4,
        dashed_underline: kind == 5,
        ..s
    }
}

/// What one parameter without more to it does to a pen.
pub open spec fn apply_one(pen: Pen, n: nat) -> Pen {
    let s = pen.style;
    if n == 0 {
        snapshot::default_pen()
    } else if n == 1 {
        Pen { style: Style { bold: true, ..s }, ..pen }
    } else if n == 2 {
        Pen { style: Style { dim: true, ..s }, ..pen }
    } else if n == 3 {
        Pen { style: Style { italic: true, ..s }, ..pen }
    } else if n == 4 {
        Pen { style: underlined(s, 1), ..pen }
    } else if n == 7 {
        Pen { style: Style { inverse: true, ..s }, ..pen }
    } else if n == 8 {
        Pen { style: Style { hidden: true, ..s }, ..pen }
    } else if n == 9 {
        Pen { style: Style { strikeout: true, ..s }, ..pen }
    } else if 30 <= n < 38 {
        Pen { fg: Color::Named((n - 30) as u16), ..pen }
    } else if 90 <= n < 98 {
        Pen { fg: Color::Named((n - 82) as u16), ..pen }
    } else if 40 <= n < 48 {
        Pen { bg: Color::Named((n - 40) as u16), ..pen }
    } else if 100 <= n < 108 {
        Pen { bg: Color::Named((n - 92) as u16), ..pen }
    } else {
        pen
    }
}

/// What the parameters of an attribute sequence do to a terminal's pen, as terminals agree on them.
pub open spec fn apply(pen: Pen, ps: Seq<Param>) -> Pen
    decreases ps.len(),
{
    if ps.len() == 0 {
        pen
    } else {
        let first = ps[0];
        let rest = ps.skip(1);
        if first.len() == 2 && first[0] == 4 {
            apply(Pen { style: underlined(pen.style, first[1]), ..pen }, rest)
        } else if first.len() == 1 && (first[0] == 38 || first[0] == 48 || first[0] == 58) {
            match read_color(rest) {
                Some((c, n)) => {
                    let next = if first[0] == 38 {
                        Pen { fg: c, ..pen }
                    } else if first[0] == 48 {
                        Pen { bg: c, ..pen }
                    } else {
                        Pen { underline_color: Some(c), ..pen }
                    };
                    apply(next, rest.skip(n))
                },
                None => pen,
            }
        } else if first.len() == 1 {
            apply(apply_one(pen, first[0]), rest)
        } else {
            apply(pen, rest)
        }
    }
}

/// A colour as it is drawn: other named colours than the sixteen are the default one.
pub open spec fn seen_color(c: Color, default: u16) -> Color {
    match c {
        Color::Named(n) => if n < 16 {
            c
        } else {
            Color::Named(default)
        },
        _ => c,
    }
}

/// The one underline that is drawn of a style.
pub open spec fn seen_style(s: Style) -> Style {
    if s.underline {
        underlined(s, 1)
    } else if s.double_underline {
        underlined(s, 2)
    } else if s.undercurl {
        underlined(s, 3)
    } else if s.dotted_underline {
        underlined(s, 4)
    } else if s.dashed_underline {
        underlined(s, 5)
    } else {
        s
    }
}

/// A pen as it is drawn.
pub open spec fn seen(p: Pen) -> Pen {
    Pen {
        fg: seen_color(p.fg, FOREGROUND),
        bg: seen_color(p.bg, BACKGROUND),
        style: seen_style(p.style),
        underline_color: match p.underline_color {
            Some(Color::Named(_)) => None,
            c => c,
        },
    }
}

proof fn lemma_flag(pen: Pen, b: bool, n: nat, rest: Seq<Param>)
    requires
        n != 38,
        n != 48,
        n != 58,
    ensures
        apply(pen, flag(b, n) + rest) == apply(
            if b {
                apply_one(pen, n)
            } else {
                pen
            },
            rest,
        ),
{
    if b {
        let ps = flag(b, n) + rest;
        assert(ps[0] == seq![n]);
        assert(ps.skip(1) =~= rest);
    } else {
        assert(flag(b, n) + rest =~= rest);
    }
}

proof fn lemma_underline(pen: Pen, s: Style, rest: Seq<Param>)
    requires
        pen.style.underline == false,
        pen.style.double_underline == false,
        pen.style.undercurl == false,
        pen.style.dotted_underline == false,
        pen.style.dashed_underline == false,
    ensures
        ({
            let u = seen_style(s);
            apply(pen, underline_list(s) + rest) == apply(
                Pen {
                    style: Style {
                        underline: u.underline,
                        double_underline: u.double_underline,
                        undercurl: u.undercurl,
                        dotted_underline: u.dotted_underline,
                        dashed_underline: u.dashed_underline,
                        ..pen.style
                    },
                    ..pen
                },
                rest,
            )
        }),
{
    let ps = underline_list(s) + rest;
    if underline_list(s).len() > 0 {
        assert(ps.skip(1) =~= rest);
        assert(ps[0] == underline_list(s)[0]);
        if s.underline {
            assert(ps[0] =~= seq![4nat]);
        } else {
            assert(ps[0].len() == 2 && ps[0][0] == 4);
        }
    } else {
        assert(ps =~= rest);
    }
}

proof fn lemma_color(pen: Pen, c: Color, base: nat, extended: nat, rest: Seq<Param>)
    requires
        base == 30 && extended == 38 || base == 40 && extended == 48,
    ensures
        ({
            let next = if base == 30 {
                Pen {
                    fg: if c matches Color::Named(n) && n >= 16 {
                        pen.fg
                    } else {
                        c
                    },
                    ..pen
                }
            } else {
                Pen {
                    bg: if c matches Color::Named(n) && n >= 16 {
                        pen.bg
                    } else {
                        c
                    },
                    ..pen
                }
            };
            apply(pen, color_list(c, base, extended) + rest) == apply(next, rest)
        }),
{
    let list = color_list(c, base, extended);
    let ps = list + rest;
    match c {
        Color::Named(n) => {
            if n < 16 {
                assert(ps[0] == list[0]);
                assert(ps.skip(1) =~= rest);
            } else {
                assert(ps =~= rest);
            }
        },
        Color::Indexed(i) => {
            let tail = ps.skip(1);
            assert(ps[0] == list[0]);
            assert(tail[0] == list[1] && tail[1] == list[2]);
            assert(read_color(tail) == Some((c, 2int)));
            assert(tail.skip(2) =~= rest);
        },
        Color::Spec(rgb) => {
            let tail = ps.skip(1);
            assert(ps[0] == list[0]);
            assert(tail[0] == list[1] && tail[1] == list[2] && tail[2] == list[3] && tail[3]
                == list[4]);
            assert(seq![2nat][0] == 2 && seq![5nat][0] == 5);
            assert(read_color(tail) == Some((c, 4int)));
            assert(tail.skip(4) =~= rest);
        },
    }
}

proof fn lemma_underline_color(pen: Pen, c: Option<Color>)
    ensures
        apply(pen, underline_color_list(c)) == (Pen {
            underline_color: match c {
                Some(Color::Indexed(_)) => c,
                Some(Color::Spec(_)) => c,
                _ => pen.underline_color,
            },
            ..pen
        }),
{
    let list = underline_color_list(c);
    if let Some(Color::Indexed(i)) = c {
        let tail = list.skip(1);
        assert(tail[0] == list[1] && tail[1] == list[2]);
        assert(read_color(tail) == Some((c->0, 2int)));
        assert(tail.skip(2) =~= seq![]);
        assert(apply(Pen { underline_color: c, ..pen }, seq![]) == (Pen {
            underline_color: c,
            ..pen
        }));
    } else if let Some(Color::Spec(rgb)) = c {
        let tail = list.skip(1);
        assert(tail[0] == list[1] && tail[1] == list[2] && tail[2] == list[3] && tail[3]
            == list[4]);
        assert(seq![2nat][0] == 2 && seq![5nat][0] == 5);
        assert(read_color(tail) == Some((c->0, 4int)));
        assert(tail.skip(4) =~= seq![]);
        assert(apply(Pen { underline_color: c, ..pen }, seq![]) == (Pen {
            underline_color: c,
            ..pen
        }));
    }
}

/// A pen as it is drawn, with the attributes alone.
spec fn styled(p: Pen) -> Pen {
    Pen { style: seen_style(p.style), ..snapshot::default_pen() }
}

proof fn lemma_first_flags(pen: Pen, s: Style, rest: Seq<Param>)
    requires
        pen == snapshot::default_pen(),
    ensures
        apply(pen, flag(s.bold, 1) + (flag(s.dim, 2) + (flag(s.italic, 3) + rest))) == apply(
            Pen {
                style: Style { bold: s.bold, dim: s.dim, italic: s.italic, ..pen.style },
                ..pen
            },
            rest,
        ),
{
    let r2 = flag(s.italic, 3) + rest;
    let r1 = flag(s.dim, 2) + r2;
    lemma_flag(pen, s.bold, 1, r1);
    let p1 = Pen { style: Style { bold: s.bold, ..pen.style }, ..pen };
    lemma_flag(p1, s.dim, 2, r2);
    let p2 = Pen { style: Style { dim: s.dim, ..p1.style }, ..p1 };
    lemma_flag(p2, s.italic, 3, rest);
}

proof fn lemma_last_flags(pen: Pen, s: Style, rest: Seq<Param>)
    requires
        !pen.style.inverse,
        !pen.style.hidden,
        !pen.style.strikeout,
    ensures
        apply(pen, flag(s.inverse, 7) + (flag(s.hidden, 8) + (flag(s.strikeout, 9) + rest)))
            == apply(
            Pen {
                style: Style {
                    inverse: s.inverse,
                    hidden: s.hidden,
                    strikeout: s.strikeout,
                    ..pen.style
                },
                ..pen
            },
            rest,
        ),
{
    let r2 = flag(s.strikeout, 9) + rest;
    let r1 = flag(s.hidden, 8) + r2;
    lemma_flag(pen, s.inverse, 7, r1);
    let p1 = Pen { style: Style { inverse: s.inverse, ..pen.style }, ..pen };
    lemma_flag(p1, s.hidden, 8, r2);
    let p2 = Pen { style: Style { hidden: s.hidden, ..p1.style }, ..p1 };
    lemma_flag(p2, s.strikeout, 9, rest);
}

proof fn lemma_style(p: Pen, rest: Seq<Param>)
    ensures
        apply(
            snapshot::default_pen(),
            flag(p.style.bold, 1) + (flag(p.style.dim, 2) + (flag(p.style.italic, 3) + (
            underline_list(p.style) + (flag(p.style.inverse, 7) + (flag(p.style.hidden, 8) + (flag(
                p.style.strikeout,
                9,
            ) + rest)))))),
        ) == apply(styled(p), rest),
{
    let s = p.style;
    let pen = snapshot::default_pen();
    let last = flag(s.inverse, 7) + (flag(s.hidden, 8) + (flag(s.strikeout, 9) + rest));
    lemma_first_flags(pen, s, underline_list(s) + last);
    let p1 = Pen {
        style: Style { bold: s.bold, dim: s.dim, italic: s.italic, ..pen.style },
        ..pen
    };
    lemma_underline(p1, s, last);
    let u = seen_style(s);
    let p2 = Pen {
        style: Style {
            underline: u.underline,
            double_underline: u.double_underline,
            undercurl: u.undercurl,
            dotted_underline: u.dotted_underline,
            dashed_underline: u.dashed_underline,
            ..p1.style
        },
        ..p1
    };
    lemma_last_flags(p2, s, rest);
}

proof fn lemma_pen_applied(p: Pen)
    ensures
        apply(snapshot::default_pen(), pen_params(p)) == seen(p),
{
    let r2 = underline_color_list(p.underline_color);
    let r1 = color_list(p.bg, 40, 48) + r2;
    lemma_style(p, color_list(p.fg, 30, 38) + r1);
    let p1 = styled(p);
    lemma_color(p1, p.fg, 30, 38, r1);
    let p2 = Pen { fg: seen_color(p.fg, FOREGROUND), ..p1 };
    lemma_color(p2, p.bg, 40, 48, r2);
    let p3 = Pen { bg: seen_color(p.bg, BACKGROUND), ..p2 };
    lemma_underline_color(p3, p.underline_color);
}

proof fn lemma_params_both(a: Seq<Param>, b: Seq<Param>)
    ensures
        params_text(a + b) == params_text(a) + params_text(b),
    decreases b.len(),
{
    if b.len() == 0 {
        assert(a + b =~= a);
        assert(params_text(a) + params_text(b) =~= params_text(a));
    } else {
        assert((a + b).drop_last() =~= a + b.drop_last());
        lemma_params_both(a, b.drop_last());
        assert(params_text(a + b) =~= params_text(a) + params_text(b));
    }
}

proof fn lemma_one_param(p: Param)
    ensures
        params_text(seq![p]) == ";"@ + param_text(p),
{
    let ps = seq![p];
    assert(ps.drop_last() =~= seq![]);
    assert(ps.last() == p);
    assert(params_text(ps.drop_last()) =~= seq![]);
    assert(params_text(ps) =~= ";"@ + param_text(p));
}

proof fn lemma_two_params(p: Param, ps: Seq<Param>)
    ensures
        params_text(seq![p] + ps) == ";"@ + param_text(p) + params_text(ps),
{
    lemma_params_both(seq![p], ps);
    lemma_one_param(p);
}

pub(crate) proof fn lemma_digit(n: nat)
    requires
        n < 10,
    ensures
        snapshot::num(n as int) == seq![(48 + n) as char],
{
    assert(text::decimal(n) =~= seq![(48 + n) as u8]);
    assert(snapshot::num(n as int) =~= seq![(48 + n) as char]);
}

proof fn lemma_flag_text(b: bool, n: nat, s: Seq<char>)
    requires
        n < 10,
        s == seq![';', (48 + n) as char],
    ensures
        params_text(flag(b, n)) == snapshot::only(b, s),
{
    if b {
        lemma_one_param(seq![n]);
        lemma_digit(n);
        reveal_strlit(";");
        assert(param_text(seq![n]) == snapshot::num(n as int));
        assert(params_text(flag(b, n)) =~= s);
    }
}

proof fn lemma_underline_text(s: Style)
    ensures
        params_text(underline_list(s)) == snapshot::underline_params(s),
{
    reveal_strlit(";");
    reveal_strlit(":");
    reveal_strlit(";4");
    reveal_strlit(";4:2");
    reveal_strlit(";4:3");
    reveal_strlit(";4:4");
    reveal_strlit(";4:5");
    lemma_digit(4);
    assert(param_text(seq![4nat]) == snapshot::num(4));
    if s.underline {
        lemma_one_param(seq![4nat]);
        assert(params_text(underline_list(s)) =~= ";4"@);
    } else if underline_list(s).len() > 0 {
        let k = underline_list(s)[0][1];
        lemma_digit(k);
        let p = seq![4nat, k];
        assert(underline_list(s) =~= seq![p]);
        lemma_one_param(p);
        assert(p.drop_last() =~= seq![4nat]);
        assert(param_text(p) =~= snapshot::num(4) + ":"@ + snapshot::num(k as int));
        assert(params_text(underline_list(s)) =~= snapshot::underline_params(s));
    }
}

proof fn lemma_number_text(n: nat)
    ensures
        param_text(seq![n]) == snapshot::num(n as int),
{
}

proof fn lemma_indexed_text(extended: nat, i: nat)
    ensures
        params_text(seq![seq![extended], seq![5nat], seq![i]]) == ";"@ + snapshot::num(
            extended as int,
        ) + ";5;"@ + snapshot::num(i as int),
{
    let (a, b, c) = (seq![extended], seq![5nat], seq![i]);
    assert(seq![a, b, c] =~= seq![a] + (seq![b] + seq![c]));
    lemma_two_params(a, seq![b] + seq![c]);
    lemma_two_params(b, seq![c]);
    lemma_one_param(c);
    lemma_number_text(extended);
    lemma_number_text(5);
    lemma_number_text(i);
    lemma_digit(5);
    reveal_strlit(";");
    reveal_strlit(";5;");
    assert(";"@ + snapshot::num(5) + ";"@ =~= ";5;"@);
    assert(params_text(seq![a, b, c]) =~= ";"@ + snapshot::num(extended as int) + (";"@
        + snapshot::num(5) + ";"@) + snapshot::num(i as int));
}

proof fn lemma_rgb_text(extended: nat, r: nat, g: nat, b: nat)
    ensures
        params_text(seq![seq![extended], seq![2nat], seq![r], seq![g], seq![b]]) == ";"@
            + snapshot::num(extended as int) + ";2;"@ + snapshot::num(r as int) + ";"@
            + snapshot::num(g as int) + ";"@ + snapshot::num(b as int),
{
    let (x, y) = (seq![extended], seq![2nat]);
    let (p, q, t) = (seq![r], seq![g], seq![b]);
    assert(seq![x, y, p, q, t] =~= seq![x] + (seq![y] + (seq![p] + (seq![q] + seq![t]))));
    lemma_two_params(x, seq![y] + (seq![p] + (seq![q] + seq![t])));
    lemma_two_params(y, seq![p] + (seq![q] + seq![t]));
    lemma_two_params(p, seq![q] + seq![t]);
    lemma_two_params(q, seq![t]);
    lemma_one_param(t);
    lemma_number_text(extended);
    lemma_number_text(2);
    lemma_number_text(r);
    lemma_number_text(g);
    lemma_number_text(b);
    lemma_digit(2);
    reveal_strlit(";");
    reveal_strlit(";2;");
    assert(";"@ + snapshot::num(2) + ";"@ =~= ";2;"@);
    assert(params_text(seq![x, y, p, q, t]) =~= ";"@ + snapshot::num(extended as int) + (";"@
        + snapshot::num(2) + ";"@) + snapshot::num(r as int) + ";"@ + snapshot::num(g as int)
        + ";"@ + snapshot::num(b as int));
}

proof fn lemma_color_text(c: Color, base: nat, extended: nat)
    ensures
        params_text(color_list(c, base, extended)) == snapshot::color_params(
            c,
            base as int,
            extended as int,
        ),
{
    match c {
        Color::Named(n) => {
            if n < 8 {
                lemma_one_param(seq![base + n as nat]);
                lemma_number_text(base + n as nat);
            } else if n < 16 {
                lemma_one_param(seq![(base + 60 + n - 8) as nat]);
                lemma_number_text((base + 60 + n - 8) as nat);
            }
        },
        Color::Indexed(i) => {
            lemma_indexed_text(extended, i as nat);
        },
        Color::Spec(rgb) => {
            lemma_rgb_text(extended, rgb.r as nat, rgb.g as nat, rgb.b as nat);
        },
    }
}

proof fn lemma_fifty_eight()
    ensures
        snapshot::num(58) == seq!['5', '8'],
{
    assert(text::decimal(5) =~= seq![53u8]);
    assert(text::decimal(58) =~= seq![53u8, 56u8]);
    assert(snapshot::num(58) =~= seq!['5', '8']);
}

proof fn lemma_underline_color_text(c: Option<Color>)
    ensures
        params_text(underline_color_list(c)) == snapshot::underline_color_params(c),
{
    lemma_fifty_eight();
    reveal_strlit(";");
    if let Some(Color::Indexed(i)) = c {
        lemma_indexed_text(58, i as nat);
        reveal_strlit(";5;");
        reveal_strlit(";58;5;");
        assert(";"@ + snapshot::num(58) + ";5;"@ =~= ";58;5;"@);
    } else if let Some(Color::Spec(rgb)) = c {
        lemma_rgb_text(58, rgb.r as nat, rgb.g as nat, rgb.b as nat);
        reveal_strlit(";2;");
        reveal_strlit(";58;2;");
        assert(";"@ + snapshot::num(58) + ";2;"@ =~= ";58;2;"@);
    }
}

proof fn lemma_grouped(a: Seq<char>, b: Seq<char>, c: Seq<char>, d: Seq<char>)
    ensures
        a + (b + (c + d)) == a + b + c + d,
{
    assert(a + (b + (c + d)) =~= a + b + c + d);
}

proof fn lemma_flags_text(s: Style)
    ensures
        params_text(flag(s.bold, 1)) == snapshot::only(s.bold, ";1"@),
        params_text(flag(s.dim, 2)) == snapshot::only(s.dim, ";2"@),
        params_text(flag(s.italic, 3)) == snapshot::only(s.italic, ";3"@),
        params_text(flag(s.inverse, 7)) == snapshot::only(s.inverse, ";7"@),
        params_text(flag(s.hidden, 8)) == snapshot::only(s.hidden, ";8"@),
        params_text(flag(s.strikeout, 9)) == snapshot::only(s.strikeout, ";9"@),
{
    reveal_strlit(";1");
    reveal_strlit(";2");
    reveal_strlit(";3");
    reveal_strlit(";7");
    reveal_strlit(";8");
    reveal_strlit(";9");
    assert(";1"@ =~= seq![';', 49u8 as char]);
    assert(";2"@ =~= seq![';', 50u8 as char]);
    assert(";3"@ =~= seq![';', 51u8 as char]);
    assert(";7"@ =~= seq![';', 55u8 as char]);
    assert(";8"@ =~= seq![';', 56u8 as char]);
    assert(";9"@ =~= seq![';', 57u8 as char]);
    lemma_flag_text(s.bold, 1, ";1"@);
    lemma_flag_text(s.dim, 2, ";2"@);
    lemma_flag_text(s.italic, 3, ";3"@);
    lemma_flag_text(s.inverse, 7, ";7"@);
    lemma_flag_text(s.hidden, 8, ";8"@);
    lemma_flag_text(s.strikeout, 9, ";9"@);
}

proof fn lemma_style_text(s: Style, rest: Seq<Param>)
    ensures
        params_text(
            flag(s.bold, 1) + (flag(s.dim, 2) + (flag(s.italic, 3) + (underline_list(s) + (flag(
                s.inverse,
                7,
            ) + (flag(s.hidden, 8) + (flag(s.strikeout, 9) + rest)))))),
        ) == snapshot::style_params(s) + params_text(rest),
{
    let r6 = flag(s.strikeout, 9) + rest;
    let r5 = flag(s.hidden, 8) + r6;
    let r4 = flag(s.inverse, 7) + r5;
    let r3 = underline_list(s) + r4;
    let r2 = flag(s.italic, 3) + r3;
    let r1 = flag(s.dim, 2) + r2;
    lemma_params_both(flag(s.bold, 1), r1);
    lemma_params_both(flag(s.dim, 2), r2);
    lemma_params_both(flag(s.italic, 3), r3);
    lemma_params_both(underline_list(s), r4);
    lemma_params_both(flag(s.inverse, 7), r5);
    lemma_params_both(flag(s.hidden, 8), r6);
    lemma_params_both(flag(s.strikeout, 9), rest);
    lemma_flags_text(s);
    lemma_underline_text(s);
    let a = params_text(flag(s.bold, 1));
    let b = params_text(flag(s.dim, 2));
    let c = params_text(flag(s.italic, 3));
    let d = params_text(underline_list(s));
    let e = params_text(flag(s.inverse, 7));
    let f = params_text(flag(s.hidden, 8));
    let g = params_text(flag(s.strikeout, 9));
    let t = params_text(rest);
    lemma_seven(a, b, c, d, e, f, g, t);
}

proof fn lemma_seven(
    a: Seq<char>,
    b: Seq<char>,
    c: Seq<char>,
    d: Seq<char>,
    e: Seq<char>,
    f: Seq<char>,
    g: Seq<char>,
    t: Seq<char>,
)
    ensures
        a + (b + (c + (d + (e + (f + (g + t)))))) == a + b + c + d + e + f + g + t,
{
    lemma_grouped(e, f, g, t);
    lemma_grouped(a, b, c, d + (e + (f + (g + t))));
    lemma_grouped(a + b + c, d, e, f);
    let x = a + b + c;
    assert(x + (d + (e + f + g + t)) =~= x + d + e + f + g + t);
}

proof fn lemma_pen_text(p: Pen)
    ensures
        snapshot::sgr(p) == "\x1b[0"@ + params_text(pen_params(p)) + "m"@,
{
    let r2 = underline_color_list(p.underline_color);
    let r1 = color_list(p.bg, 40, 48) + r2;
    let r0 = color_list(p.fg, 30, 38) + r1;
    lemma_style_text(p.style, r0);
    lemma_params_both(color_list(p.fg, 30, 38), r1);
    lemma_params_both(color_list(p.bg, 40, 48), r2);
    lemma_color_text(p.fg, 30, 38);
    lemma_color_text(p.bg, 40, 48);
    lemma_underline_color_text(p.underline_color);
    lemma_five(
        "\x1b[0"@,
        snapshot::style_params(p.style),
        snapshot::color_params(p.fg, 30, 38),
        snapshot::color_params(p.bg, 40, 48),
        snapshot::underline_color_params(p.underline_color),
    );
}

proof fn lemma_five(a: Seq<char>, b: Seq<char>, c: Seq<char>, d: Seq<char>, e: Seq<char>)
    ensures
        a + (b + (c + (d + e))) == a + b + c + d + e,
{
    lemma_grouped(b, c, d, e);
    assert(a + (b + c + d + e) =~= a + b + c + d + e);
}

/// A pen is restated in full: the sequence that sets it, a reset and then the pen's own
/// parameters, leaves a terminal with that pen, as it is drawn, whatever its pen was before.
pub proof fn a_pen_is_restated_in_full(before: Pen, p: Pen)
    ensures
        snapshot::sgr(p) == "\x1b[0"@ + params_text(pen_params(p)) + "m"@,
        apply(before, seq![seq![0nat]] + pen_params(p)) == seen(p),
{
    lemma_pen_text(p);
    let all = seq![seq![0nat]] + pen_params(p);
    assert(all[0] == seq![0nat]);
    assert(all.skip(1) =~= pen_params(p));
    lemma_pen_applied(p);
}

} // verus!
