//! A terminal as the reader of a snapshot: what it holds after each order that a stream gives it.
//!
//! This is the part of a terminal that a snapshot relies on: printing with wrapping and wide
//! characters, scrolling into the history, attributes, moving the cursor, the alternate screen and
//! the modes. How wide a character is, is the terminal's own affair and a parameter here.

use crate::color::Color;
use crate::snapshot;
use crate::snapshot::{Modes, Pen};
use crate::snapshot_laws;
use crate::snapshot_laws::Param;
use crate::text;
use vstd::prelude::*;

verus! {

/// A terminal's size, how many lines of history it keeps, and how many columns a character takes.
pub struct Shape {
    pub cols: nat,
    pub lines: nat,
    pub history: nat,
    pub width: spec_fn(char) -> nat,
}

/// A cell as a terminal holds it.
#[verifier::ext_equal]
pub struct Spot {
    pub c: char,
    /// Characters of no width that were drawn over `c`.
    pub over: Seq<char>,
    pub pen: Pen,
    /// A filler beside a wide character.
    pub spacer: bool,
    /// The row goes on in the next one.
    pub wrapline: bool,
}

/// A screen and what scrolled out of it.
#[verifier::ext_equal]
pub struct Sheet {
    /// All rows so far; the last of them are the screen.
    pub rows: Seq<Seq<Spot>>,
    /// The row of the cursor.
    pub at: int,
    pub column: int,
    /// The row is full: the next character goes to the next one.
    pub pending: bool,
}

/// The state of a terminal.
pub struct Terminal {
    pub screen: Sheet,
    /// The primary screen, while the alternate one is shown.
    pub primary: Option<Sheet>,
    pub pen: Pen,
    pub modes: Modes,
    pub title: Option<Seq<char>>,
}

/// What a stream can tell a terminal to do.
pub enum Order {
    Print(Seq<char>),
    Return,
    Feed,
    Attributes(Seq<Param>),
    /// Line and column, counted from one.
    Move { line: nat, column: nat },
    Private { mode: nat, on: bool },
    Public { mode: nat, on: bool },
    Keypad,
    Keyboard(nat),
    Title(Seq<char>),
}

/// How an order is written.
pub open spec fn order_text(o: Order) -> Seq<char> {
    match o {
        Order::Print(t) => t,
        Order::Return => "\r"@,
        Order::Feed => "\n"@,
        Order::Attributes(ps) => "\x1b["@ + snapshot_laws::param_text(ps[0])
            + snapshot_laws::params_text(ps.skip(1)) + "m"@,
        Order::Move { line, column } => "\x1b["@ + snapshot::num(line as int) + ";"@
            + snapshot::num(column as int) + "H"@,
        Order::Private { mode, on } => "\x1b[?"@ + snapshot::num(mode as int) + switch(on),
        Order::Public { mode, on } => "\x1b["@ + snapshot::num(mode as int) + switch(on),
        Order::Keypad => "\x1b="@,
        Order::Keyboard(n) => "\x1b[="@ + snapshot::num(n as int) + ";1u"@,
        Order::Title(t) => "\x1b]2;"@ + t + "\x07"@,
    }
}

/// The letter that switches a mode on or off.
pub open spec fn switch(on: bool) -> Seq<char> {
    if on {
        "h"@
    } else {
        "l"@
    }
}

/// How orders are written.
pub open spec fn orders_text(os: Seq<Order>) -> Seq<char>
    decreases os.len(),
{
    if os.len() == 0 {
        seq![]
    } else {
        orders_text(os.drop_last()) + order_text(os.last())
    }
}

/// A cell that nothing was printed in.
pub open spec fn bare(bg: Color) -> Spot {
    Spot {
        c: ' ',
        over: seq![],
        pen: Pen { bg, ..snapshot::default_pen() },
        spacer: false,
        wrapline: false,
    }
}

/// A row that nothing was printed in.
pub open spec fn bare_row(k: Shape, bg: Color) -> Seq<Spot> {
    Seq::new(k.cols, |x: int| bare(bg))
}

/// Rows that nothing was printed in.
pub open spec fn bare_rows(k: Shape, n: nat, bg: Color) -> Seq<Seq<Spot>> {
    Seq::new(n, |i: int| bare_row(k, bg))
}

/// The modes of a fresh terminal.
pub open spec fn default_modes() -> Modes {
    Modes {
        show_cursor: true,
        app_cursor: false,
        app_keypad: false,
        line_wrap: true,
        line_feed_new_line: false,
        insert: false,
        mouse_report_click: false,
        mouse_drag: false,
        mouse_motion: false,
        focus_in_out: false,
        utf8_mouse: false,
        sgr_mouse: false,
        alternate_scroll: true,
        bracketed_paste: false,
        disambiguate_esc_codes: false,
        report_event_types: false,
        report_alternate_keys: false,
        report_all_keys_as_esc: false,
        report_associated_text: false,
    }
}

/// A fresh terminal.
pub open spec fn fresh(k: Shape) -> Terminal {
    Terminal {
        screen: Sheet {
            rows: bare_rows(k, k.lines, snapshot::default_pen().bg),
            at: 0,
            column: 0,
            pending: false,
        },
        primary: None,
        pen: snapshot::default_pen(),
        modes: default_modes(),
        title: None,
    }
}

impl Sheet {
    /// The row that is the first of the screen.
    pub open spec fn top(self, k: Shape) -> int {
        self.rows.len() - k.lines
    }

    /// The rows that are held: the screen and as much of what scrolled out as the history takes.
    pub open spec fn held(self, k: Shape, history: nat) -> Seq<Seq<Spot>> {
        if self.rows.len() > k.lines + history {
            self.rows.skip(self.rows.len() - k.lines - history)
        } else {
            self.rows
        }
    }

    /// A cell changed.
    pub open spec fn with(self, column: int, s: Spot) -> Sheet {
        Sheet { rows: self.rows.update(self.at, self.rows[self.at].update(column, s)), ..self }
    }

    /// One line further down. Below the last row a new one is made, in the background that is
    /// selected.
    pub open spec fn fed(self, k: Shape, bg: Color) -> Sheet {
        if self.at + 1 < self.rows.len() {
            Sheet { at: self.at + 1, ..self }
        } else {
            Sheet { rows: self.rows.push(bare_row(k, bg)), at: self.at + 1, ..self }
        }
    }

    /// The row goes on in the next one.
    pub open spec fn wrapped(self, k: Shape, bg: Color) -> Sheet {
        let s = self.rows[self.at][self.column];
        Sheet {
            column: 0,
            pending: false,
            ..self.with(self.column, Spot { wrapline: true, ..s }).fed(k, bg)
        }
    }

    /// Where a character goes: to the next row, if this one is full, or if it is wide and only one
    /// column is left, which a filler takes then.
    pub open spec fn ready(self, k: Shape, pen: Pen, c: char) -> Sheet {
        if self.pending {
            self.wrapped(k, pen.bg)
        } else if (k.width)(c) == 2 && self.column + 1 >= k.cols {
            self.with(self.column, filler(pen)).wrapped(k, pen.bg)
        } else {
            self
        }
    }

    /// The cells from the cursor on move to the right, as far as there is room.
    pub open spec fn shifted(self, k: Shape, n: nat) -> Sheet {
        let row = self.rows[self.at];
        if self.column + n < k.cols {
            Sheet {
                rows: self.rows.update(
                    self.at,
                    row.take(self.column) + row.subrange(k.cols - n, k.cols as int)
                        + row.subrange(self.column, k.cols - n),
                ),
                ..self
            }
        } else {
            self
        }
    }

    /// A character in its cell, with a filler beside it if it is wide, and the cursor behind it.
    pub open spec fn put(self, k: Shape, pen: Pen, c: char) -> Sheet {
        let s = Spot { c, over: seq![], pen, spacer: false, wrapline: false };
        if (k.width)(c) == 2 {
            self.with(self.column, s).with(self.column + 1, filler(pen)).past(k, self.column + 1)
        } else {
            self.with(self.column, s).past(k, self.column)
        }
    }

    /// The cursor behind a column that was printed in.
    pub open spec fn past(self, k: Shape, column: int) -> Sheet {
        if column + 1 < k.cols {
            Sheet { column: column + 1, ..self }
        } else {
            Sheet { column, pending: true, ..self }
        }
    }

    /// A character without width, over the one that was printed last.
    pub open spec fn over(self, c: char) -> Sheet {
        let back = if self.pending || self.column == 0 {
            self.column
        } else {
            self.column - 1
        };
        let x = if self.rows[self.at][back].spacer && back > 0 {
            back - 1
        } else {
            back
        };
        let s = self.rows[self.at][x];
        self.with(x, Spot { over: s.over.push(c), ..s })
    }

    /// A character is printed.
    pub open spec fn input(self, k: Shape, pen: Pen, modes: Modes, c: char) -> Sheet {
        let w = (k.width)(c);
        if w == 0 {
            self.over(c)
        } else if modes.line_wrap {
            let s = self.ready(k, pen, c);
            (if modes.insert {
                s.shifted(k, w)
            } else {
                s
            }).put(k, pen, c)
        } else if w == 2 && self.column + 1 >= k.cols {
            Sheet { pending: true, ..self }
        } else {
            (if modes.insert {
                self.shifted(k, w)
            } else {
                self
            }).put(k, pen, c)
        }
    }

    /// Characters are printed one after the other.
    pub open spec fn printed(self, k: Shape, pen: Pen, modes: Modes, t: Seq<char>) -> Sheet
        decreases t.len(),
    {
        if t.len() == 0 {
            self
        } else {
            self.printed(k, pen, modes, t.drop_last()).input(k, pen, modes, t.last())
        }
    }

    /// The cursor moved to a place on the screen.
    pub open spec fn moved(self, k: Shape, line: int, column: int) -> Sheet {
        Sheet {
            at: self.top(k) + if line < k.lines {
                line
            } else {
                k.lines - 1
            },
            column: if column < k.cols {
                column
            } else {
                k.cols - 1
            },
            pending: false,
            ..self
        }
    }
}

/// The filler of a column that a wide character takes or leaves.
pub open spec fn filler(pen: Pen) -> Spot {
    Spot { c: ' ', over: seq![], pen, spacer: true, wrapline: false }
}

/// The flags of the enhanced keyboard protocol, taken from a number.
pub open spec fn keyboard(m: Modes, n: nat) -> Modes {
    Modes {
        disambiguate_esc_codes: n % 2 == 1,
        report_event_types: (n / 2) % 2 == 1,
        report_alternate_keys: (n / 4) % 2 == 1,
        report_all_keys_as_esc: (n / 8) % 2 == 1,
        report_associated_text: (n / 16) % 2 == 1,
        ..m
    }
}

/// A private mode switched. The kinds of mouse reports exclude each other, and so do the ways to
/// encode them.
pub open spec fn private(m: Modes, mode: nat, on: bool) -> Modes {
    if mode == 1 {
        Modes { app_cursor: on, ..m }
    } else if mode == 7 {
        Modes { line_wrap: on, ..m }
    } else if mode == 25 {
        Modes { show_cursor: on, ..m }
    } else if mode == 1000 {
        Modes {
            mouse_report_click: on,
            mouse_drag: m.mouse_drag && !on,
            mouse_motion: m.mouse_motion && !on,
            ..m
        }
    } else if mode == 1002 {
        Modes {
            mouse_report_click: m.mouse_report_click && !on,
            mouse_drag: on,
            mouse_motion: m.mouse_motion && !on,
            ..m
        }
    } else if mode == 1003 {
        Modes {
            mouse_report_click: m.mouse_report_click && !on,
            mouse_drag: m.mouse_drag && !on,
            mouse_motion: on,
            ..m
        }
    } else if mode == 1004 {
        Modes { focus_in_out: on, ..m }
    } else if mode == 1005 {
        Modes { utf8_mouse: on, sgr_mouse: m.sgr_mouse && !on, ..m }
    } else if mode == 1006 {
        Modes { sgr_mouse: on, utf8_mouse: m.utf8_mouse && !on, ..m }
    } else if mode == 1007 {
        Modes { alternate_scroll: on, ..m }
    } else if mode == 2004 {
        Modes { bracketed_paste: on, ..m }
    } else {
        m
    }
}

/// A public mode switched.
pub open spec fn public(m: Modes, mode: nat, on: bool) -> Modes {
    if mode == 4 {
        Modes { insert: on, ..m }
    } else if mode == 20 {
        Modes { line_feed_new_line: on, ..m }
    } else {
        m
    }
}

impl Terminal {
    /// The alternate screen shown or left. It comes up empty, with the cursor where it was.
    pub open spec fn swapped(self, k: Shape, alternate: bool) -> Terminal {
        match self.primary {
            None if alternate => Terminal {
                screen: Sheet {
                    rows: bare_rows(k, k.lines, self.pen.bg),
                    at: self.screen.at - self.screen.top(k),
                    ..self.screen
                },
                primary: Some(self.screen),
                modes: keyboard(self.modes, 0),
                ..self
            },
            Some(p) if !alternate => Terminal {
                screen: p,
                primary: None,
                modes: keyboard(self.modes, 0),
                ..self
            },
            _ => self,
        }
    }

    /// An order carried out.
    pub open spec fn obeyed(self, k: Shape, o: Order) -> Terminal {
        match o {
            Order::Print(t) => Terminal {
                screen: self.screen.printed(k, self.pen, self.modes, t),
                ..self
            },
            Order::Return => Terminal {
                screen: Sheet { column: 0, pending: false, ..self.screen },
                ..self
            },
            Order::Feed => {
                let s = self.screen.fed(k, self.pen.bg);
                Terminal {
                    screen: if self.modes.line_feed_new_line {
                        Sheet { column: 0, pending: false, ..s }
                    } else {
                        s
                    },
                    ..self
                }
            },
            Order::Attributes(ps) => Terminal {
                pen: snapshot_laws::apply(self.pen, ps),
                ..self
            },
            Order::Move { line, column } => Terminal {
                screen: self.screen.moved(k, line - 1, column - 1),
                ..self
            },
            Order::Private { mode, on } => if mode == 1049 {
                self.swapped(k, on)
            } else {
                Terminal { modes: private(self.modes, mode, on), ..self }
            },
            Order::Public { mode, on } => Terminal {
                modes: public(self.modes, mode, on),
                ..self
            },
            Order::Keypad => Terminal {
                modes: Modes { app_keypad: true, ..self.modes },
                ..self
            },
            Order::Keyboard(n) => Terminal { modes: keyboard(self.modes, n), ..self },
            Order::Title(t) => Terminal { title: Some(t), ..self },
        }
    }

    /// Orders carried out one after the other.
    pub open spec fn after(self, k: Shape, os: Seq<Order>) -> Terminal
        decreases os.len(),
    {
        if os.len() == 0 {
            self
        } else {
            self.after(k, os.drop_last()).obeyed(k, os.last())
        }
    }
}

/// Where a terminal stands in a stream.
#[verifier::ext_equal]
pub enum Reading {
    Ground,
    Escape,
    /// In a control sequence; what came of it so far.
    Control(Seq<char>),
    /// In a command of the operating system; what came of it so far.
    Command(Seq<char>),
}

/// A text cut at a separator.
pub open spec fn split(s: Seq<char>, sep: char) -> Seq<Seq<char>>
    decreases s.len(),
{
    if s.len() == 0 {
        seq![seq![]]
    } else {
        let before = split(s.drop_last(), sep);
        if s.last() == sep {
            before.push(seq![])
        } else {
            before.drop_last().push(before.last().push(s.last()))
        }
    }
}

/// A parameter, read.
pub open spec fn read_param(s: Seq<char>) -> Param {
    let parts = split(s, ':');
    Seq::new(parts.len(), |i: int| text::digits_value(parts[i]))
}

/// Parameters, read.
pub open spec fn read_params(s: Seq<char>) -> Seq<Param> {
    let parts = split(s, ';');
    Seq::new(parts.len(), |i: int| read_param(parts[i]))
}

/// What a control sequence orders.
pub open spec fn control_orders(s: Seq<char>, c: char) -> Seq<Order> {
    if c == 'm' {
        seq![Order::Attributes(read_params(s))]
    } else if c == 'H' {
        let ps = read_params(s);
        if ps.len() == 2 {
            seq![Order::Move { line: ps[0][0], column: ps[1][0] }]
        } else {
            seq![]
        }
    } else if c == 'h' || c == 'l' {
        if s.len() > 0 && s[0] == '?' {
            seq![Order::Private { mode: text::digits_value(s.skip(1)), on: c == 'h' }]
        } else {
            seq![Order::Public { mode: text::digits_value(s), on: c == 'h' }]
        }
    } else if c == 'u' && s.len() > 0 && s[0] == '=' {
        let ps = read_params(s.skip(1));
        if ps.len() == 2 && ps[1] == seq![1nat] {
            seq![Order::Keyboard(ps[0][0])]
        } else {
            seq![]
        }
    } else {
        seq![]
    }
}

/// What a command of the operating system orders.
pub open spec fn command_orders(s: Seq<char>) -> Seq<Order> {
    if s.len() >= 2 && s[0] == '2' && s[1] == ';' {
        seq![Order::Title(s.skip(2))]
    } else {
        seq![]
    }
}

/// One character of a stream: where the terminal stands then, and what it is ordered to do.
pub open spec fn step(r: Reading, c: char) -> (Reading, Seq<Order>) {
    match r {
        Reading::Ground => if c == '\x1b' {
            (Reading::Escape, seq![])
        } else if c == '\r' {
            (r, seq![Order::Return])
        } else if c == '\n' {
            (r, seq![Order::Feed])
        } else if snapshot::printable(c) {
            (r, seq![Order::Print(seq![c])])
        } else {
            (r, seq![])
        },
        Reading::Escape => if c == '[' {
            (Reading::Control(seq![]), seq![])
        } else if c == ']' {
            (Reading::Command(seq![]), seq![])
        } else if c == '=' {
            (Reading::Ground, seq![Order::Keypad])
        } else {
            (Reading::Ground, seq![])
        },
        Reading::Control(s) => if '@' <= c <= '~' {
            (Reading::Ground, control_orders(s, c))
        } else {
            (Reading::Control(s.push(c)), seq![])
        },
        Reading::Command(s) => if c == '\x07' {
            (Reading::Ground, command_orders(s))
        } else if c == '\x1b' {
            (Reading::Escape, seq![])
        } else {
            (Reading::Command(s.push(c)), seq![])
        },
    }
}

/// A stretch of a stream, read.
pub open spec fn read(r: Reading, s: Seq<char>) -> (Reading, Seq<Order>)
    decreases s.len(),
{
    if s.len() == 0 {
        (r, seq![])
    } else {
        let (q, os) = read(r, s.drop_last());
        let (p, more) = step(q, s.last());
        (p, os + more)
    }
}

impl Terminal {
    /// A terminal that a stream was fed to.
    pub open spec fn fed(self, k: Shape, s: Seq<char>) -> Terminal {
        self.after(k, read(Reading::Ground, s).1)
    }
}

} // verus!
