//! Serialize a terminal's state back into an escape-sequence stream.
//!
//! The stream is plain terminal output: styled text for history and screen (run-length attributes,
//! wrap-aware), a cursor position, the active private modes, and the title. The receiver parses it
//! like any other pane output. Frames of the alternate screen never enter the primary grid or its
//! history, so they cannot leak into what is sent.
//!
//! Not restored (all of it heals on the program's next repaint): scroll regions, charsets, saved
//! cursors, tab stops, cursor shape, pending-wrap state.

use crate::color::{Color, BACKGROUND, FOREGROUND};
use crate::text;
use crate::text::{push_chars, push_number};
use vstd::prelude::*;
use vstd::slice::*;
use vstd::string::*;
use vstd::utf8::*;

verus! {

/// The attributes of a cell that select how its text is drawn.
#[derive(Debug, Clone, Copy, PartialEq, Eq, Structural)]
pub struct Style {
    pub bold: bool,
    pub dim: bool,
    pub italic: bool,
    pub underline: bool,
    pub double_underline: bool,
    pub undercurl: bool,
    pub dotted_underline: bool,
    pub dashed_underline: bool,
    pub inverse: bool,
    pub hidden: bool,
    pub strikeout: bool,
}

/// One cell of a grid.
#[derive(Debug, PartialEq, Eq)]
pub struct Cell {
    pub c: char,
    /// Characters drawn over `c`, if the cell has room for any.
    pub zerowidth: Option<Vec<char>>,
    pub fg: Color,
    pub bg: Color,
    pub style: Style,
    pub underline_color: Option<Color>,
    /// The row goes on in the next one.
    pub wrapline: bool,
    /// The character takes this column and the next one.
    pub wide: bool,
    /// A filler beside a wide character.
    pub spacer: bool,
}

/// History and visible screen, top to bottom, and where the cursor is on the screen.
#[derive(Debug, PartialEq, Eq)]
pub struct Grid {
    pub rows: Vec<Vec<Cell>>,
    pub cursor_line: u32,
    pub cursor_column: u32,
}

/// The private modes of a terminal.
#[derive(Debug, Clone, Copy, PartialEq, Eq, Structural)]
pub struct Modes {
    pub show_cursor: bool,
    pub app_cursor: bool,
    pub app_keypad: bool,
    pub line_wrap: bool,
    pub line_feed_new_line: bool,
    pub insert: bool,
    pub mouse_report_click: bool,
    pub mouse_drag: bool,
    pub mouse_motion: bool,
    pub focus_in_out: bool,
    pub utf8_mouse: bool,
    pub sgr_mouse: bool,
    pub alternate_scroll: bool,
    pub bracketed_paste: bool,
    pub disambiguate_esc_codes: bool,
    pub report_event_types: bool,
    pub report_alternate_keys: bool,
    pub report_all_keys_as_esc: bool,
    pub report_associated_text: bool,
}

/// What is on a terminal: the primary screen, the alternate one while a program shows it, and the
/// modes.
#[derive(Debug, PartialEq, Eq)]
pub struct Screen {
    pub primary: Grid,
    pub alternate: Option<Grid>,
    pub modes: Modes,
}

/// How the next character will be drawn.
#[derive(Debug, Clone, Copy, PartialEq, Eq, Structural)]
pub struct Pen {
    pub fg: Color,
    pub bg: Color,
    pub style: Style,
    pub underline_color: Option<Color>,
}

pub open spec fn plain_style() -> Style {
    Style {
        bold: false,
        dim: false,
        italic: false,
        underline: false,
        double_underline: false,
        undercurl: false,
        dotted_underline: false,
        dashed_underline: false,
        inverse: false,
        hidden: false,
        strikeout: false,
    }
}

/// The pen of a fresh terminal.
pub open spec fn default_pen() -> Pen {
    Pen {
        fg: Color::Named(FOREGROUND),
        bg: Color::Named(BACKGROUND),
        style: plain_style(),
        underline_color: None,
    }
}

/// The pen that draws a cell.
pub open spec fn pen_of(cell: Cell) -> Pen {
    Pen {
        fg: cell.fg,
        bg: cell.bg,
        style: cell.style,
        underline_color: cell.underline_color,
    }
}

/// A number in decimal.
pub open spec fn num(n: int) -> Seq<char> {
    text::ascii(text::decimal(n as nat))
}

/// A text that is there only under a condition.
pub open spec fn only(b: bool, s: Seq<char>) -> Seq<char> {
    if b {
        s
    } else {
        seq![]
    }
}

/// The parameters that select a colour. The default colours need none: the leading reset restores
/// them.
pub open spec fn color_params(color: Color, named_base: int, extended: int) -> Seq<char> {
    match color {
        Color::Named(n) => {
            if n < 8 {
                ";"@ + num(named_base + n)
            } else if n < 16 {
                ";"@ + num(named_base + 60 + n - 8)
            } else {
                seq![]
            }
        },
        Color::Indexed(i) => ";"@ + num(extended) + ";5;"@ + num(i as int),
        Color::Spec(rgb) => ";"@ + num(extended) + ";2;"@ + num(rgb.r as int) + ";"@ + num(
            rgb.g as int,
        ) + ";"@ + num(rgb.b as int),
    }
}

/// The parameter that selects an underline.
pub open spec fn underline_params(s: Style) -> Seq<char> {
    if s.underline {
        ";4"@
    } else if s.double_underline {
        ";4:2"@
    } else if s.undercurl {
        ";4:3"@
    } else if s.dotted_underline {
        ";4:4"@
    } else if s.dashed_underline {
        ";4:5"@
    } else {
        seq![]
    }
}

/// The parameters that select the attributes.
pub open spec fn style_params(s: Style) -> Seq<char> {
    only(s.bold, ";1"@) + only(s.dim, ";2"@) + only(s.italic, ";3"@) + underline_params(s) + only(
        s.inverse,
        ";7"@,
    ) + only(s.hidden, ";8"@) + only(s.strikeout, ";9"@)
}

/// The parameters that select an underline colour.
pub open spec fn underline_color_params(color: Option<Color>) -> Seq<char> {
    match color {
        Some(Color::Indexed(i)) => ";58;5;"@ + num(i as int),
        Some(Color::Spec(rgb)) => ";58;2;"@ + num(rgb.r as int) + ";"@ + num(rgb.g as int) + ";"@
            + num(rgb.b as int),
        _ => seq![],
    }
}

/// The full restated attribute set of a pen.
pub open spec fn sgr(p: Pen) -> Seq<char> {
    "\x1b[0"@ + style_params(p.style) + color_params(p.fg, 30, 38) + color_params(p.bg, 40, 48)
        + underline_color_params(p.underline_color) + "m"@
}

/// The attributes to send before a cell: none if the pen is right already.
pub open spec fn pen_change(pen: Pen, cell: Cell) -> Seq<char> {
    only(pen != pen_of(cell), sgr(pen_of(cell)))
}

/// A cell that a blank cell would not look the same as.
pub open spec fn has_content(cell: Cell) -> bool {
    let s = cell.style;
    ||| cell.c != ' '
    ||| cell.bg != Color::Named(BACKGROUND)
    ||| s.inverse || s.strikeout
    ||| s.underline || s.double_underline || s.undercurl || s.dotted_underline
        || s.dashed_underline
    ||| cell.zerowidth is Some
}

/// How many cells of a row there are up to the last one with content.
pub open spec fn content_end(row: Seq<Cell>) -> nat
    decreases row.len(),
{
    if row.len() == 0 || has_content(row.last()) {
        row.len()
    } else {
        content_end(row.drop_last())
    }
}

/// A character that is printed, and no control.
pub open spec fn printable(c: char) -> bool {
    ' ' <= c && c != '\x7f' && !('\u{80}' <= c <= '\u{9f}')
}

/// Whether a row goes on in the next one.
pub open spec fn wraps(row: Seq<Cell>) -> bool {
    row.last().wrapline
}

/// A wide character with room beside it: its filler, or a blank in place of it.
pub open spec fn whole(row: Seq<Cell>, x: int) -> bool {
    &&& 0 <= x
    &&& x + 1 < row.len()
    &&& !row[x].spacer
    &&& row[x].wide
    &&& row[x].c != ' '
    &&& printable(row[x].c)
    &&& row[x + 1].spacer || !has_content(row[x + 1])
}

/// A column that comes with a wide character: the one before it, or the one that did not fit and
/// begins the next row.
pub open spec fn filled(row: Seq<Cell>, x: int, next_wide: bool) -> bool {
    whole(row, x - 1) || row[x].spacer && x == row.len() - 1 && next_wide
}

/// A cell that can be printed as it is. A tab, which stays in the cell that it was typed in, half a
/// wide character, and one whose second column holds something else cannot.
pub open spec fn intact(row: Seq<Cell>, x: int) -> bool {
    !row[x].spacer && printable(row[x].c) && (row[x].wide ==> whole(row, x))
}

/// Characters drawn over a cell's own.
pub open spec fn overlay(cell: Cell) -> Seq<char> {
    match cell.zerowidth {
        Some(z) => z@,
        None => seq![],
    }
}

/// The characters of a cell. One that cannot be printed as it is leaves a blank, so that what is
/// behind it keeps its column.
pub open spec fn cell_text(row: Seq<Cell>, x: int) -> Seq<char> {
    seq![
        if intact(row, x) {
            row[x].c
        } else {
            ' '
        },
    ] + overlay(row[x])
}

/// A background other than the default one.
pub open spec fn coloured(bg: Color) -> bool {
    match bg {
        Color::Named(n) => n < 16,
        _ => true,
    }
}

/// Whether a row continues the one before it.
pub open spec fn continues(rows: Seq<Vec<Cell>>, i: int) -> bool {
    i > 0 && wraps(rows[i - 1]@)
}

/// Whether a row goes on with a wide character.
pub open spec fn next_wide(rows: Seq<Vec<Cell>>, i: int) -> bool {
    wraps(rows[i]@) && i + 1 < rows.len() && whole(rows[i + 1]@, 0)
}

/// How many cells of a row are sent: up to the last one with content. A row that goes on in the
/// next one is sent whole, and so is one that continues another and begins in a background of its
/// own, which a terminal that scrolls would fill it with. Of a row that continues another at least
/// one cell is sent: without it the terminal would not go to that row.
pub open spec fn row_end(rows: Seq<Vec<Cell>>, i: int) -> nat {
    let row = rows[i]@;
    if wraps(row) || continues(rows, i) && coloured(row[0].bg) {
        row.len()
    } else if continues(rows, i) && content_end(row) == 0 {
        1
    } else {
        content_end(row)
    }
}

/// The text of the first cells of a row, and the pen after them. Fillers are left out: printing
/// the wide character beside them makes them again.
pub open spec fn cells_text(row: Seq<Cell>, n: int, next_wide: bool, pen: Pen) -> (Seq<char>, Pen)
    decreases n,
{
    if n <= 0 {
        (seq![], pen)
    } else {
        let (before, p) = cells_text(row, n - 1, next_wide, pen);
        if filled(row, n - 1, next_wide) {
            (before, p)
        } else {
            (
                before + pen_change(p, row[n - 1]) + cell_text(row, n - 1),
                pen_of(row[n - 1]),
            )
        }
    }
}

/// Whether a line break stands before a row.
pub open spec fn breaks(rows: Seq<Vec<Cell>>, i: int) -> bool {
    i > 0 && !continues(rows, i)
}

/// The pen at the beginning of a row: a line is not broken in a background of its own, which a
/// terminal that scrolls would fill the new row with.
pub open spec fn pen_at(rows: Seq<Vec<Cell>>, i: int, pen: Pen) -> Pen {
    if breaks(rows, i) && coloured(pen.bg) {
        default_pen()
    } else {
        pen
    }
}

/// What stands before a row.
pub open spec fn break_text(rows: Seq<Vec<Cell>>, i: int, pen: Pen) -> Seq<char> {
    only(breaks(rows, i) && coloured(pen.bg), sgr(default_pen())) + only(breaks(rows, i), "\r\n"@)
}

/// The text of the first rows, and the pen after them. Rows are joined by a line break except
/// where one goes on in the next; blank rows keep their break.
pub open spec fn rows_text(rows: Seq<Vec<Cell>>, n: int) -> (Seq<char>, Pen)
    decreases n,
{
    if n <= 0 {
        (seq![], default_pen())
    } else {
        let (before, p) = rows_text(rows, n - 1);
        let (own, q) = cells_text(
            rows[n - 1]@,
            row_end(rows, n - 1) as int,
            next_wide(rows, n - 1),
            pen_at(rows, n - 1, p),
        );
        (before + break_text(rows, n - 1, p) + own, q)
    }
}

/// The escape that moves the cursor.
pub open spec fn move_to(grid: Grid) -> Seq<char> {
    "\x1b["@ + num(grid.cursor_line + 1) + ";"@ + num(grid.cursor_column + 1) + "H"@
}

/// A whole grid: its text, the attributes reset, and the cursor.
pub open spec fn grid_text(grid: Grid) -> Seq<char> {
    rows_text(grid.rows@, grid.rows@.len() as int).0 + "\x1b[0m"@ + move_to(grid)
}

/// The enhanced keyboard protocol's flags as a number.
pub open spec fn kitty_flags(m: Modes) -> int {
    (if m.disambiguate_esc_codes {
        1int
    } else {
        0
    }) + (if m.report_event_types {
        2int
    } else {
        0
    }) + (if m.report_alternate_keys {
        4int
    } else {
        0
    }) + (if m.report_all_keys_as_esc {
        8int
    } else {
        0
    }) + (if m.report_associated_text {
        16int
    } else {
        0
    })
}

/// The modes that differ from a fresh terminal's.
pub open spec fn modes_text(m: Modes) -> Seq<char> {
    only(!m.show_cursor, "\x1b[?25l"@) + only(m.app_cursor, "\x1b[?1h"@) + only(
        m.app_keypad,
        "\x1b="@,
    ) + only(!m.line_wrap, "\x1b[?7l"@) + only(m.line_feed_new_line, "\x1b[20h"@) + only(
        m.insert,
        "\x1b[4h"@,
    ) + only(m.mouse_report_click, "\x1b[?1000h"@) + only(m.mouse_drag, "\x1b[?1002h"@) + only(
        m.mouse_motion,
        "\x1b[?1003h"@,
    ) + only(m.focus_in_out, "\x1b[?1004h"@) + only(m.utf8_mouse, "\x1b[?1005h"@) + only(
        m.sgr_mouse,
        "\x1b[?1006h"@,
    ) + only(m.alternate_scroll, "\x1b[?1007h"@) + only(!m.alternate_scroll, "\x1b[?1007l"@) + only(
        m.bracketed_paste,
        "\x1b[?2004h"@,
    ) + only(kitty_flags(m) != 0, "\x1b[="@ + num(kitty_flags(m)) + ";1u"@)
}

/// The whole stream. While a program shows the alternate screen, the primary one is sent first,
/// so that leaving the alternate screen later lands on the right content. The alternate screen
/// comes up with the cursor where it was, and is sent from its first cell on.
pub open spec fn snapshot(s: Screen, title: Option<Seq<char>>) -> Seq<char> {
    grid_text(s.primary) + match s.alternate {
        Some(g) => "\x1b[?1049h\x1b[1;1H"@ + grid_text(g),
        None => seq![],
    } + modes_text(s.modes) + match title {
        Some(t) => "\x1b]2;"@ + t + "\x07"@,
        None => seq![],
    }
}

/// Every row of a grid has at least one column.
pub open spec fn rectangular(g: Grid) -> bool {
    forall|i: int| 0 <= i < g.rows@.len() ==> (#[trigger] g.rows@[i])@.len() > 0
}

fn push_if(out: &mut String, b: bool, s: &str)
    ensures
        final(out)@ == old(out)@ + only(b, s@),
{
    if b {
        out.append(s);
    }
    assert(out@ =~= old(out)@ + only(b, s@));
}

fn push_color(out: &mut String, color: Color, named_base: u16, extended: u16)
    requires
        named_base < 1000,
    ensures
        final(out)@ == old(out)@ + color_params(color, named_base as int, extended as int),
{
    match color {
        Color::Named(n) => {
            if n < 8 {
                out.append(";");
                push_number(out, (named_base + n) as u128);
            } else if n < 16 {
                out.append(";");
                push_number(out, (named_base + 60 + n - 8) as u128);
            }
        },
        Color::Indexed(i) => {
            out.append(";");
            push_number(out, extended as u128);
            out.append(";5;");
            push_number(out, i as u128);
        },
        Color::Spec(rgb) => {
            out.append(";");
            push_number(out, extended as u128);
            out.append(";2;");
            push_number(out, rgb.r as u128);
            out.append(";");
            push_number(out, rgb.g as u128);
            out.append(";");
            push_number(out, rgb.b as u128);
        },
    }
    assert(out@ =~= old(out)@ + color_params(color, named_base as int, extended as int));
}

fn underline_code(s: Style) -> (r: &'static str)
    ensures
        r@ == underline_params(s),
{
    if s.underline {
        ";4"
    } else if s.double_underline {
        ";4:2"
    } else if s.undercurl {
        ";4:3"
    } else if s.dotted_underline {
        ";4:4"
    } else if s.dashed_underline {
        ";4:5"
    } else {
        proof {
            reveal_strlit("");
        }
        assert(""@ =~= seq![]);
        ""
    }
}

fn style_codes(s: Style) -> (r: String)
    ensures
        r@ == style_params(s),
{
    let mut r = String::new();
    push_if(&mut r, s.bold, ";1");
    assert(r@ =~= only(s.bold, ";1"@));
    push_if(&mut r, s.dim, ";2");
    push_if(&mut r, s.italic, ";3");
    r.append(underline_code(s));
    push_if(&mut r, s.inverse, ";7");
    push_if(&mut r, s.hidden, ";8");
    push_if(&mut r, s.strikeout, ";9");
    r
}

fn push_underline_color(out: &mut String, color: Option<Color>)
    ensures
        final(out)@ == old(out)@ + underline_color_params(color),
{
    match color {
        Some(Color::Indexed(i)) => {
            out.append(";58;5;");
            push_number(out, i as u128);
        },
        Some(Color::Spec(rgb)) => {
            out.append(";58;2;");
            push_number(out, rgb.r as u128);
            out.append(";");
            push_number(out, rgb.g as u128);
            out.append(";");
            push_number(out, rgb.b as u128);
        },
        _ => {},
    }
    assert(out@ =~= old(out)@ + underline_color_params(color));
}

impl Pen {
    fn new() -> (p: Pen)
        ensures
            p == default_pen(),
    {
        Pen {
            fg: Color::Named(FOREGROUND),
            bg: Color::Named(BACKGROUND),
            style: Style {
                bold: false,
                dim: false,
                italic: false,
                underline: false,
                double_underline: false,
                undercurl: false,
                dotted_underline: false,
                dashed_underline: false,
                inverse: false,
                hidden: false,
                strikeout: false,
            },
            underline_color: None,
        }
    }

    /// One full restated attribute set whenever a cell's style differs from the previous cell's,
    /// nothing in between.
    fn emit(&mut self, out: &mut String, cell: &Cell)
        ensures
            *final(self) == pen_of(*cell),
            final(out)@ == old(out)@ + pen_change(*old(self), *cell),
    {
        let same_underline: bool = match (self.underline_color, cell.underline_color) {
            (Some(a), Some(b)) => a == b,
            (None, None) => true,
            _ => false,
        };
        if self.fg == cell.fg && self.bg == cell.bg && self.style == cell.style && same_underline {
            assert(out@ =~= old(out)@ + pen_change(*old(self), *cell));
            return;
        }
        out.append("\x1b[0");
        out.append(style_codes(cell.style).as_str());
        push_color(out, cell.fg, 30, 38);
        push_color(out, cell.bg, 40, 48);
        push_underline_color(out, cell.underline_color);
        out.append("m");
        self.fg = cell.fg;
        self.bg = cell.bg;
        self.style = cell.style;
        self.underline_color = cell.underline_color;
        assert(out@ =~= old(out)@ + pen_change(*old(self), *cell));
    }
}

fn cell_has_content(cell: &Cell) -> (b: bool)
    ensures
        b == has_content(*cell),
{
    let s = cell.style;
    cell.c != ' ' || cell.bg != Color::Named(BACKGROUND) || s.inverse || s.strikeout || s.underline
        || s.double_underline || s.undercurl || s.dotted_underline || s.dashed_underline
        || cell.zerowidth.is_some()
}

fn is_printable(c: char) -> (b: bool)
    ensures
        b == printable(c),
{
    ' ' <= c && c != '\x7f' && !('\u{80}' <= c && c <= '\u{9f}')
}

fn is_coloured(bg: Color) -> (b: bool)
    ensures
        b == coloured(bg),
{
    match bg {
        Color::Named(n) => n < 16,
        _ => true,
    }
}

fn is_whole(row: &Vec<Cell>, x: usize) -> (b: bool)
    requires
        x < row@.len(),
    ensures
        b == whole(row@, x as int),
{
    row.len() - x > 1 && !row[x].spacer && row[x].wide && row[x].c != ' ' && is_printable(
        row[x].c,
    ) && (row[x + 1].spacer || !cell_has_content(&row[x + 1]))
}

fn is_filled(row: &Vec<Cell>, x: usize, next_wide: bool) -> (b: bool)
    requires
        x < row@.len(),
    ensures
        b == filled(row@, x as int, next_wide),
{
    x > 0 && is_whole(row, x - 1) || row[x].spacer && x == row.len() - 1 && next_wide
}

fn end_of(rows: &Vec<Vec<Cell>>, i: usize) -> (end: usize)
    requires
        i < rows@.len(),
        forall|j: int| 0 <= j < rows@.len() ==> (#[trigger] rows@[j])@.len() > 0,
    ensures
        end == row_end(rows@, i as int),
        end <= rows@[i as int]@.len(),
{
    let row = &rows[i];
    let after: bool = i > 0 && rows[i - 1][rows[i - 1].len() - 1].wrapline;
    if row[row.len() - 1].wrapline || after && is_coloured(row[0].bg) {
        return row.len();
    }
    let mut end: usize = row.len();
    assert(row@.take(end as int) =~= row@);
    while end > 0 && !cell_has_content(&row[end - 1])
        invariant
            end <= row@.len(),
            content_end(row@) == content_end(row@.take(end as int)),
        decreases end,
    {
        assert(row@.take(end as int).drop_last() =~= row@.take(end - 1));
        end = end - 1;
    }
    if after && end == 0 {
        return 1;
    }
    end
}

proof fn lemma_joined(a: Seq<char>, b: Seq<char>, c: Seq<char>, d: Seq<char>)
    ensures
        a + b + c + d == a + (b + c + d),
{
    assert(a + b + c + d =~= a + (b + c + d));
}

/// A cell's attributes, where they change, and its characters.
fn write_cell(out: &mut String, row: &Vec<Cell>, x: usize, pen: &mut Pen)
    requires
        x < row@.len(),
    ensures
        final(out)@ == old(out)@ + pen_change(*old(pen), row@[x as int]) + cell_text(
            row@,
            x as int,
        ),
        *final(pen) == pen_of(row@[x as int]),
{
    let cell = &row[x];
    pen.emit(out, cell);
    let ghost before = out@;
    let as_is: bool = !cell.spacer && is_printable(cell.c) && (!cell.wide || is_whole(row, x));
    out.push(
        if as_is {
            cell.c
        } else {
            ' '
        },
    );
    match &cell.zerowidth {
        Some(z) => {
            push_chars(out, z.as_slice());
        },
        None => {},
    }
    assert(out@ =~= before + cell_text(row@, x as int));
}

fn write_row(out: &mut String, row: &Vec<Cell>, end: usize, next_wide: bool, pen: &mut Pen)
    requires
        end <= row@.len(),
    ensures
        final(out)@ == old(out)@ + cells_text(row@, end as int, next_wide, *old(pen)).0,
        *final(pen) == cells_text(row@, end as int, next_wide, *old(pen)).1,
{
    let mut c: usize = 0;
    assert(out@ =~= old(out)@ + cells_text(row@, 0, next_wide, *pen).0);
    while c < end
        invariant
            c <= end <= row@.len(),
            out@ == old(out)@ + cells_text(row@, c as int, next_wide, *old(pen)).0,
            *pen == cells_text(row@, c as int, next_wide, *old(pen)).1,
        decreases end - c,
    {
        if !is_filled(row, c, next_wide) {
            proof {
                lemma_joined(
                    old(out)@,
                    cells_text(row@, c as int, next_wide, *old(pen)).0,
                    pen_change(*pen, row@[c as int]),
                    cell_text(row@, c as int),
                );
            }
            write_cell(out, row, c, pen);
        }
        c = c + 1;
    }
}

proof fn lemma_reset_text()
    ensures
        sgr(default_pen()) == "\x1b[0m"@,
{
    reveal_strlit("\x1b[0");
    reveal_strlit("m");
    reveal_strlit("\x1b[0m");
    let p = default_pen();
    assert(style_params(p.style) =~= seq![]);
    assert(color_params(p.fg, 30, 38) =~= seq![]);
    assert(color_params(p.bg, 40, 48) =~= seq![]);
    assert(sgr(p) =~= "\x1b[0m"@);
}

/// End a line.
fn break_line(out: &mut String, broken: bool, pen: &mut Pen)
    ensures
        final(out)@ == old(out)@ + (only(
            broken && coloured(old(pen).bg),
            sgr(default_pen()),
        ) + only(broken, "\r\n"@)),
        *final(pen) == (if broken && coloured(old(pen).bg) {
            default_pen()
        } else {
            *old(pen)
        }),
{
    let reset: bool = broken && is_coloured(pen.bg);
    push_if(out, reset, "\x1b[0m");
    push_if(out, broken, "\r\n");
    if reset {
        *pen = Pen::new();
    }
    proof {
        lemma_reset_text();
        assert(out@ =~= old(out)@ + (only(reset, sgr(default_pen())) + only(broken, "\r\n"@)));
    }
}

/// A row, with what stands before it.
fn write_next(out: &mut String, rows: &Vec<Vec<Cell>>, l: usize, pen: &mut Pen)
    requires
        forall|i: int| 0 <= i < rows@.len() ==> (#[trigger] rows@[i])@.len() > 0,
        l < rows@.len(),
    ensures
        ({
            let (own, q) = cells_text(
                rows@[l as int]@,
                row_end(rows@, l as int) as int,
                next_wide(rows@, l as int),
                pen_at(rows@, l as int, *old(pen)),
            );
            &&& final(out)@ == old(out)@ + break_text(rows@, l as int, *old(pen)) + own
            &&& *final(pen) == q
        }),
{
    let row = &rows[l];
    let broken: bool = l > 0 && !rows[l - 1][rows[l - 1].len() - 1].wrapline;
    assert(broken == breaks(rows@, l as int));
    break_line(out, broken, pen);
    let goes_on_wide: bool = row[row.len() - 1].wrapline && rows.len() - l > 1 && is_whole(
        &rows[l + 1],
        0,
    );
    assert(goes_on_wide == next_wide(rows@, l as int));
    let end = end_of(rows, l);
    write_row(out, row, end, goes_on_wide, pen);
}

fn write_rows(out: &mut String, rows: &Vec<Vec<Cell>>)
    requires
        forall|i: int| 0 <= i < rows@.len() ==> (#[trigger] rows@[i])@.len() > 0,
    ensures
        final(out)@ == old(out)@ + rows_text(rows@, rows@.len() as int).0,
{
    let mut pen = Pen::new();
    let mut l: usize = 0;
    assert(out@ =~= old(out)@ + rows_text(rows@, 0).0);
    while l < rows.len()
        invariant
            forall|i: int| 0 <= i < rows@.len() ==> (#[trigger] rows@[i])@.len() > 0,
            l <= rows@.len(),
            out@ == old(out)@ + rows_text(rows@, l as int).0,
            pen == rows_text(rows@, l as int).1,
        decreases rows.len() - l,
    {
        proof {
            lemma_joined(
                old(out)@,
                rows_text(rows@, l as int).0,
                break_text(rows@, l as int, pen),
                cells_text(
                    rows@[l as int]@,
                    row_end(rows@, l as int) as int,
                    next_wide(rows@, l as int),
                    pen_at(rows@, l as int, pen),
                ).0,
            );
        }
        write_next(out, rows, l, &mut pen);
        l = l + 1;
    }
}

/// A grid's text, reset and cursor position.
fn write_grid(out: &mut String, grid: &Grid)
    requires
        rectangular(*grid),
    ensures
        final(out)@ == old(out)@ + grid_text(*grid),
{
    write_rows(out, &grid.rows);
    out.append("\x1b[0m");
    out.append("\x1b[");
    push_number(out, grid.cursor_line as u128 + 1);
    out.append(";");
    push_number(out, grid.cursor_column as u128 + 1);
    out.append("H");
    assert(out@ =~= old(out)@ + grid_text(*grid));
}

fn modes_codes(m: &Modes) -> (r: String)
    ensures
        r@ == modes_text(*m),
{
    let mut r = String::new();
    push_if(&mut r, !m.show_cursor, "\x1b[?25l");
    assert(r@ =~= only(!m.show_cursor, "\x1b[?25l"@));
    push_if(&mut r, m.app_cursor, "\x1b[?1h");
    push_if(&mut r, m.app_keypad, "\x1b=");
    push_if(&mut r, !m.line_wrap, "\x1b[?7l");
    push_if(&mut r, m.line_feed_new_line, "\x1b[20h");
    push_if(&mut r, m.insert, "\x1b[4h");
    push_if(&mut r, m.mouse_report_click, "\x1b[?1000h");
    push_if(&mut r, m.mouse_drag, "\x1b[?1002h");
    push_if(&mut r, m.mouse_motion, "\x1b[?1003h");
    push_if(&mut r, m.focus_in_out, "\x1b[?1004h");
    push_if(&mut r, m.utf8_mouse, "\x1b[?1005h");
    push_if(&mut r, m.sgr_mouse, "\x1b[?1006h");
    push_if(&mut r, m.alternate_scroll, "\x1b[?1007h");
    push_if(&mut r, !m.alternate_scroll, "\x1b[?1007l");
    push_if(&mut r, m.bracketed_paste, "\x1b[?2004h");
    r.append(kitty_code(m).as_str());
    r
}

fn kitty_code(m: &Modes) -> (r: String)
    ensures
        r@ == only(kitty_flags(*m) != 0, "\x1b[="@ + num(kitty_flags(*m)) + ";1u"@),
{
    let mut kitty: u64 = 0;
    if m.disambiguate_esc_codes {
        kitty = kitty + 1;
    }
    if m.report_event_types {
        kitty = kitty + 2;
    }
    if m.report_alternate_keys {
        kitty = kitty + 4;
    }
    if m.report_all_keys_as_esc {
        kitty = kitty + 8;
    }
    if m.report_associated_text {
        kitty = kitty + 16;
    }
    if kitty == 0 {
        return String::new();
    }
    let mut r = "\x1b[=".to_owned();
    push_number(&mut r, kitty as u128);
    r.append(";1u");
    r
}

/// Serialize a screen (history, screen, cursor, modes, title) into an escape stream that recreates
/// it when fed to a freshly created terminal of the same size.
pub fn serialize(screen: &Screen, title: Option<&str>) -> (bytes: Vec<u8>)
    requires
        rectangular(screen.primary),
        screen.alternate matches Some(g) ==> rectangular(g),
    ensures
        bytes@ == encode_utf8(
            snapshot(
                *screen,
                match title {
                    Some(t) => Some(t@),
                    None => None,
                },
            ),
        ),
{
    let mut out = String::new();
    write_grid(&mut out, &screen.primary);
    match &screen.alternate {
        Some(g) => {
            out.append("\x1b[?1049h\x1b[1;1H");
            write_grid(&mut out, g);
        },
        None => {},
    }
    let ghost grids = out@;
    out.append(modes_codes(&screen.modes).as_str());
    match title {
        Some(t) => {
            out.append("\x1b]2;");
            out.append(t);
            out.append("\x07");
        },
        None => {},
    }
    proof {
        let t = match title {
            Some(t) => Some(t@),
            None => None,
        };
        assert(out@ =~= snapshot(*screen, t));
    }
    slice_to_vec(out.as_str().as_bytes())
}

} // verus!
