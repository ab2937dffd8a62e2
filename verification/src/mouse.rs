//! The mouse over the panes: what goes to the program, what selects, what scrolls.

use crate::proto::PaneId;
use crate::text;
use crate::text::push_decimal;
use vstd::prelude::*;

verus! {

/// Two clicks within this many nanoseconds on one point belong together.
pub const CLICK_SPAN: u64 = 350_000_000;

/// The mouse reporting that a pane's program asked for.
#[derive(Debug, Clone, Copy, PartialEq, Eq, Structural)]
pub struct MouseModes {
    /// Any reporting at all.
    pub report: bool,
    /// The extended encoding.
    pub sgr: bool,
    /// All motion.
    pub motion: bool,
    /// Motion with a button held.
    pub drag: bool,
}

/// A mouse button.
#[derive(Debug, Clone, Copy, PartialEq, Eq, Structural)]
pub enum Button {
    Left,
    Middle,
    Right,
    Other,
}

/// A click: when, in nanoseconds on a steady clock, and on which point of the grid.
#[derive(Debug, Clone, Copy, PartialEq, Eq, Structural)]
pub struct Click {
    pub at: u64,
    pub line: i32,
    pub column: u64,
}

/// How much a click selects.
#[derive(Debug, Clone, Copy, PartialEq, Eq, Structural)]
pub enum SelectionKind {
    Simple,
    Word,
    Lines,
}

/// The mouse interaction in progress.
#[derive(Debug, Clone, Copy, PartialEq, Eq)]
pub struct Mouse {
    /// The pane an interaction began in; the interaction stays with it.
    pub pane: Option<PaneId>,
    /// The reported button held down.
    pub held: Option<u8>,
    pub selecting: bool,
    /// The cell of the last report.
    pub last_cell: Option<(u64, u64)>,
    pub last_click: Option<Click>,
    pub clicks: u8,
}

/// What a mouse motion does to the pane it concerns.
#[derive(Debug, PartialEq, Eq)]
pub enum Motion {
    Nothing,
    Report(Vec<u8>),
    /// Extend the selection to the mouse.
    Extend,
}

/// What a button does.
#[derive(Debug, PartialEq, Eq)]
pub enum Press {
    Nothing,
    /// The program has the mouse: focus the pane where asked, and send the report where there is
    /// one.
    Forward { focus: bool, report: Option<Vec<u8>> },
    /// Focus the pane and begin a selection, where the mouse is on a point of the grid.
    Select { kind: Option<SelectionKind> },
    /// Finish selecting in the pane.
    Finish { pane: Option<PaneId> },
    /// Paste the primary selection into the pane.
    Paste,
}

/// What the wheel does.
#[derive(Debug, PartialEq, Eq)]
pub enum Wheel {
    Nothing,
    /// Send the bytes so many times.
    Send { bytes: Vec<u8>, times: u32 },
    /// Move the history viewport by so many lines.
    Scroll(i32),
}

pub enum MotionView {
    Nothing,
    Report(Seq<u8>),
    Extend,
}

pub enum PressView {
    Nothing,
    Forward { focus: bool, report: Option<Seq<u8>> },
    Select { kind: Option<SelectionKind> },
    Finish { pane: Option<PaneId> },
    Paste,
}

pub enum WheelView {
    Nothing,
    Send { bytes: Seq<u8>, times: int },
    Scroll(int),
}

impl View for Motion {
    type V = MotionView;

    open spec fn view(&self) -> MotionView {
        match *self {
            Motion::Nothing => MotionView::Nothing,
            Motion::Report(b) => MotionView::Report(b@),
            Motion::Extend => MotionView::Extend,
        }
    }
}

impl View for Press {
    type V = PressView;

    open spec fn view(&self) -> PressView {
        match *self {
            Press::Nothing => PressView::Nothing,
            Press::Forward { focus, report } => PressView::Forward {
                focus,
                report: match report {
                    Some(b) => Some(b@),
                    None => None,
                },
            },
            Press::Select { kind } => PressView::Select { kind },
            Press::Finish { pane } => PressView::Finish { pane },
            Press::Paste => PressView::Paste,
        }
    }
}

impl View for Wheel {
    type V = WheelView;

    open spec fn view(&self) -> WheelView {
        match *self {
            Wheel::Nothing => WheelView::Nothing,
            Wheel::Send { bytes, times } => WheelView::Send { bytes: bytes@, times: times as int },
            Wheel::Scroll(n) => WheelView::Scroll(n as int),
        }
    }
}

/// A coordinate in the short encoding: at most 223, moved up by 32.
pub open spec fn short_coordinate(n: int) -> u8 {
    (if n < 223 {
        n + 32
    } else {
        255
    }) as u8
}

/// A mouse report. The extended encoding writes the numbers out and tells press and release apart
/// by the last letter. The short one has one byte for each, and button 3 for a release.
pub open spec fn report_bytes(cb: u8, pressed: bool, col: u64, row: u64, sgr: bool) -> Seq<u8> {
    if sgr {
        seq![0x1bu8, 0x5b, 0x3c] + text::decimal(cb as nat) + seq![0x3bu8] + text::decimal(
            col as nat,
        ) + seq![0x3bu8] + text::decimal(row as nat) + seq![
            if pressed {
                0x4du8
            } else {
                0x6du8
            },
        ]
    } else {
        seq![
            0x1bu8,
            0x5b,
            0x4d,
            (32 + if pressed {
                cb as int
            } else {
                3
            }) as u8,
            short_coordinate(col as int),
            short_coordinate(row as int),
        ]
    }
}

/// Encode a mouse event at a 1-based cell.
pub fn report_mouse(cb: u8, pressed: bool, col: u64, row: u64, sgr: bool) -> (out: Vec<u8>)
    requires
        cb <= 223,
    ensures
        out@ == report_bytes(cb, pressed, col, row, sgr),
{
    let mut out: Vec<u8> = Vec::new();
    out.push(0x1b);
    out.push(0x5b);
    if sgr {
        out.push(0x3c);
        push_decimal(&mut out, cb as u64);
        out.push(0x3b);
        push_decimal(&mut out, col);
        out.push(0x3b);
        push_decimal(&mut out, row);
        if pressed {
            out.push(0x4d);
        } else {
            out.push(0x6d);
        }
    } else {
        out.push(0x4d);
        if pressed {
            out.push(32 + cb);
        } else {
            out.push(35);
        }
        out.push(if col < 223 {
            (col + 32) as u8
        } else {
            255
        });
        out.push(if row < 223 {
            (row + 32) as u8
        } else {
            255
        });
    }
    assert(out@ =~= report_bytes(cb, pressed, col, row, sgr));
    out
}

/// The number of a reported button.
pub open spec fn button_code(b: Button) -> Option<u8> {
    match b {
        Button::Left => Some(0),
        Button::Middle => Some(1),
        Button::Right => Some(2),
        Button::Other => None,
    }
}

/// The click count after a click: repeated clicks on one point run through 1, 2 and 3.
pub open spec fn clicks_after(m: Mouse, c: Click) -> u8 {
    if (m.last_click matches Some(p) && c.at - p.at < CLICK_SPAN && p.line == c.line && p.column
        == c.column) {
        (m.clicks % 3 + 1) as u8
    } else {
        1
    }
}

/// What the count selects: a word for two clicks, lines for three.
pub open spec fn kind_of(clicks: u8) -> SelectionKind {
    if clicks == 2 {
        SelectionKind::Word
    } else if clicks == 3 {
        SelectionKind::Lines
    } else {
        SelectionKind::Simple
    }
}

impl Mouse {
    /// Only the three reported buttons are held.
    pub open spec fn wf(self) -> bool {
        self.held matches Some(b) ==> b <= 2
    }

    /// The pane that a motion concerns.
    pub open spec fn target(self, under: Option<PaneId>) -> Option<PaneId> {
        if self.pane is Some {
            self.pane
        } else {
            under
        }
    }

    /// The button that a motion is reported for, where it is reported: the one held, in the pane
    /// of the interaction; none (3) over a pane that wants all motion.
    pub open spec fn motion_code(self, under: Option<PaneId>, shift: bool, m: MouseModes) -> Option<
        u8,
    > {
        if !m.report || shift {
            None
        } else if self.pane is Some {
            if m.drag || m.motion {
                self.held
            } else {
                None
            }
        } else if under is Some && m.motion {
            Some(3)
        } else {
            None
        }
    }

    /// What a motion does: it is reported once for each cell it enters, and otherwise extends a
    /// selection that the program does not see.
    pub open spec fn motion(
        self,
        under: Option<PaneId>,
        shift: bool,
        m: MouseModes,
        cell: Option<(u64, u64)>,
    ) -> MotionView {
        match self.motion_code(under, shift, m) {
            Some(cb) => {
                if cell is Some && cell != self.last_cell {
                    MotionView::Report(
                        report_bytes((cb + 32) as u8, true, (cell->0).0, (cell->0).1, m.sgr),
                    )
                } else {
                    MotionView::Nothing
                }
            },
            None => {
                if self.pane is Some && !(m.report && !shift) && self.selecting {
                    MotionView::Extend
                } else {
                    MotionView::Nothing
                }
            },
        }
    }

    /// The state after a motion.
    pub open spec fn after_motion(
        self,
        under: Option<PaneId>,
        shift: bool,
        m: MouseModes,
        cell: Option<(u64, u64)>,
    ) -> Mouse {
        if self.motion_code(under, shift, m) is Some && cell is Some {
            Mouse { last_cell: cell, ..self }
        } else {
            self
        }
    }

    /// What a button does over a pane. A program that asked for the mouse gets it; Shift keeps it
    /// for the local selection.
    pub open spec fn press(
        self,
        pane: PaneId,
        shift: bool,
        m: MouseModes,
        cell: Option<(u64, u64)>,
        b: Button,
        pressed: bool,
        click: Option<Click>,
    ) -> PressView {
        if m.report && !shift {
            PressView::Forward {
                focus: pressed,
                report: if button_code(b) is Some && cell is Some {
                    Some(report_bytes(button_code(b)->0, pressed, (cell->0).0, (cell->0).1, m.sgr))
                } else {
                    None
                },
            }
        } else if b == Button::Left && pressed {
            PressView::Select {
                kind: match click {
                    Some(c) => Some(kind_of(clicks_after(self, c))),
                    None => None,
                },
            }
        } else if b == Button::Left && !pressed && self.selecting {
            PressView::Finish { pane: self.pane }
        } else if b == Button::Middle && pressed {
            PressView::Paste
        } else {
            PressView::Nothing
        }
    }

    /// The state after a button.
    pub open spec fn after_press(
        self,
        pane: PaneId,
        shift: bool,
        m: MouseModes,
        cell: Option<(u64, u64)>,
        b: Button,
        pressed: bool,
        click: Option<Click>,
    ) -> Mouse {
        if m.report && !shift {
            if button_code(b) is Some && cell is Some {
                Mouse {
                    held: if pressed {
                        button_code(b)
                    } else {
                        None
                    },
                    pane: if pressed {
                        Some(pane)
                    } else {
                        None
                    },
                    last_cell: cell,
                    ..self
                }
            } else {
                self
            }
        } else if b == Button::Left && pressed {
            match click {
                Some(c) => Mouse {
                    pane: Some(pane),
                    clicks: clicks_after(self, c),
                    last_click: click,
                    selecting: true,
                    ..self
                },
                None => Mouse { pane: Some(pane), ..self },
            }
        } else if b == Button::Left && !pressed && self.selecting {
            Mouse { selecting: false, pane: None, ..self }
        } else {
            self
        }
    }

    /// No interaction.
    pub fn new() -> (m: Mouse)
        ensures
            m == (Mouse {
                pane: None,
                held: None,
                selecting: false,
                last_cell: None,
                last_click: None,
                clicks: 0,
            }),
            m.wf(),
    {
        Mouse {
            pane: None,
            held: None,
            selecting: false,
            last_cell: None,
            last_click: None,
            clicks: 0,
        }
    }

    /// The pane whose modes and cell a motion needs, given the pane under the mouse.
    pub fn concerns(&self, under: Option<PaneId>) -> (p: Option<PaneId>)
        ensures
            p == self.target(under),
    {
        if self.pane.is_some() {
            self.pane
        } else {
            under
        }
    }

    /// The mouse moved. `modes` and `cell` belong to the pane that the motion concerns.
    pub fn moved(
        &mut self,
        under: Option<PaneId>,
        shift: bool,
        modes: MouseModes,
        cell: Option<(u64, u64)>,
    ) -> (r: Motion)
        requires
            old(self).wf(),
        ensures
            final(self).wf(),
            r@ == old(self).motion(under, shift, modes, cell),
            *final(self) == old(self).after_motion(under, shift, modes, cell),
    {
        let code: Option<u8> = if !modes.report || shift {
            None
        } else if self.pane.is_some() {
            if modes.drag || modes.motion {
                self.held
            } else {
                None
            }
        } else if under.is_some() && modes.motion {
            Some(3)
        } else {
            None
        };
        match code {
            Some(cb) => {
                match cell {
                    Some((col, row)) => {
                        let same = match self.last_cell {
                            Some((c, r)) => c == col && r == row,
                            None => false,
                        };
                        self.last_cell = cell;
                        if same {
                            Motion::Nothing
                        } else {
                            Motion::Report(report_mouse(cb + 32, true, col, row, modes.sgr))
                        }
                    },
                    None => Motion::Nothing,
                }
            },
            None => {
                if self.pane.is_some() && !(modes.report && !shift) && self.selecting {
                    Motion::Extend
                } else {
                    Motion::Nothing
                }
            },
        }
    }

    /// A button went down or up over a pane. `click` is the grid point under the mouse.
    pub fn button(
        &mut self,
        pane: PaneId,
        shift: bool,
        modes: MouseModes,
        cell: Option<(u64, u64)>,
        button: Button,
        pressed: bool,
        click: Option<Click>,
    ) -> (r: Press)
        requires
            old(self).wf(),
        ensures
            final(self).wf(),
            r@ == old(self).press(pane, shift, modes, cell, button, pressed, click),
            *final(self) == old(self).after_press(pane, shift, modes, cell, button, pressed, click),
    {
        if modes.report && !shift {
            let code: Option<u8> = match button {
                Button::Left => Some(0),
                Button::Middle => Some(1),
                Button::Right => Some(2),
                Button::Other => None,
            };
            match (code, cell) {
                (Some(cb), Some((col, row))) => {
                    if pressed {
                        self.held = code;
                        self.pane = Some(pane);
                    } else {
                        self.held = None;
                        self.pane = None;
                    }
                    self.last_cell = cell;
                    Press::Forward {
                        focus: pressed,
                        report: Some(report_mouse(cb, pressed, col, row, modes.sgr)),
                    }
                },
                _ => Press::Forward { focus: pressed, report: None },
            }
        } else {
            match button {
                Button::Left => {
                    if pressed {
                        self.pane = Some(pane);
                        match click {
                            Some(c) => {
                                let recent = match self.last_click {
                                    Some(p) => (c.at < p.at || c.at - p.at < CLICK_SPAN) && p.line
                                        == c.line && p.column == c.column,
                                    None => false,
                                };
                                self.clicks = if recent {
                                    self.clicks % 3 + 1
                                } else {
                                    1
                                };
                                self.last_click = click;
                                self.selecting = true;
                                let kind = if self.clicks == 2 {
                                    SelectionKind::Word
                                } else if self.clicks == 3 {
                                    SelectionKind::Lines
                                } else {
                                    SelectionKind::Simple
                                };
                                Press::Select { kind: Some(kind) }
                            },
                            None => Press::Select { kind: None },
                        }
                    } else if self.selecting {
                        let at = self.pane;
                        self.selecting = false;
                        self.pane = None;
                        Press::Finish { pane: at }
                    } else {
                        Press::Nothing
                    }
                },
                Button::Middle => {
                    if pressed {
                        Press::Paste
                    } else {
                        Press::Nothing
                    }
                },
                _ => Press::Nothing,
            }
        }
    }
}

/// Whether a mouse button is for the panes at all: not with a menu, a dialog or the font window
/// open, and not on a divider.
pub fn takes_button(menu_open: bool, font_settings: bool, on_divider: bool) -> (b: bool)
    ensures
        b == (!menu_open && !font_settings && !on_divider),
{
    !menu_open && !font_settings && !on_divider
}

/// Whether the wheel is for the panes.
pub fn takes_wheel(menu_open: bool, font_settings: bool) -> (b: bool)
    ensures
        b == (!menu_open && !font_settings),
{
    !menu_open && !font_settings
}

/// Whether a right click over a pane is kept from the chrome: the program there has the mouse.
pub fn keeps_right_click(shift: bool, over: Option<MouseModes>) -> (b: bool)
    ensures
        b == (!shift && (over matches Some(m) && m.report)),
{
    match over {
        Some(m) => !shift && m.report,
        None => false,
    }
}

/// The screen that the wheel turns over.
#[derive(Debug, Clone, Copy, PartialEq, Eq, Structural)]
pub struct WheelModes {
    pub alternate_screen: bool,
    /// The program wants arrow keys for the wheel on the alternate screen.
    pub alternate_scroll: bool,
    pub app_cursor: bool,
}

/// How often something is done for a signed number of lines.
pub open spec fn turns(lines: int) -> int {
    if lines < 0 {
        -lines
    } else {
        lines
    }
}

/// What the wheel does over a pane, by lines upward. A program that asked for the mouse gets wheel
/// buttons, one for each line. Otherwise the history scrolls; on the alternate screen, which has
/// none, arrow keys are sent where the program asked for them.
pub open spec fn wheel_action(
    lines: int,
    shift: bool,
    m: MouseModes,
    w: WheelModes,
    cell: Option<(u64, u64)>,
) -> WheelView {
    if lines == 0 {
        WheelView::Nothing
    } else if m.report && !shift {
        match cell {
            Some((col, row)) => WheelView::Send {
                bytes: report_bytes(
                    if lines > 0 {
                        64
                    } else {
                        65
                    },
                    true,
                    col,
                    row,
                    m.sgr,
                ),
                times: turns(lines),
            },
            None => WheelView::Nothing,
        }
    } else if w.alternate_screen {
        if w.alternate_scroll {
            WheelView::Send {
                bytes: seq![
                    0x1bu8,
                    if w.app_cursor {
                        0x4fu8
                    } else {
                        0x5bu8
                    },
                    if lines > 0 {
                        0x41u8
                    } else {
                        0x42u8
                    },
                ],
                times: turns(lines),
            }
        } else {
            WheelView::Nothing
        }
    } else {
        WheelView::Scroll(lines)
    }
}

/// Decide what a turn of the wheel does over a pane.
pub fn on_wheel(
    lines: i32,
    shift: bool,
    modes: MouseModes,
    screen: WheelModes,
    cell: Option<(u64, u64)>,
) -> (r: Wheel)
    ensures
        r@ == wheel_action(lines as int, shift, modes, screen, cell),
{
    if lines == 0 {
        return Wheel::Nothing;
    }
    let times: u32 = if lines < 0 {
        (-(lines as i64)) as u32
    } else {
        lines as u32
    };
    if modes.report && !shift {
        match cell {
            Some((col, row)) => {
                let cb: u8 = if lines > 0 {
                    64
                } else {
                    65
                };
                Wheel::Send { bytes: report_mouse(cb, true, col, row, modes.sgr), times }
            },
            None => Wheel::Nothing,
        }
    } else if screen.alternate_screen {
        if screen.alternate_scroll {
            let mut bytes: Vec<u8> = Vec::new();
            bytes.push(0x1b);
            bytes.push(if screen.app_cursor {
                0x4f
            } else {
                0x5b
            });
            bytes.push(if lines > 0 {
                0x41
            } else {
                0x42
            });
            assert(bytes@ =~= seq![0x1bu8, bytes@[1], bytes@[2]]);
            Wheel::Send { bytes, times }
        } else {
            Wheel::Nothing
        }
    } else {
        Wheel::Scroll(lines)
    }
}

/// With Shift held nothing of the mouse reaches the program, whatever it asked for.
pub proof fn shift_keeps_the_mouse(
    s: Mouse,
    under: Option<PaneId>,
    pane: PaneId,
    m: MouseModes,
    cell: Option<(u64, u64)>,
    b: Button,
    pressed: bool,
    click: Option<Click>,
)
    ensures
        !(s.motion(under, true, m, cell) is Report),
        !(s.press(pane, true, m, cell, b, pressed, click) is Forward),
{
}

/// A motion inside one cell is reported once.
pub proof fn motion_is_reported_once_for_a_cell(
    s: Mouse,
    under: Option<PaneId>,
    shift: bool,
    m: MouseModes,
    cell: Option<(u64, u64)>,
)
    ensures
        s.motion(under, shift, m, cell) is Report ==> s.after_motion(
            under,
            shift,
            m,
            cell,
        ).motion(under, shift, m, cell) is Nothing,
{
}

/// A press that the program got belongs to its pane until the release, wherever the mouse goes; the
/// release ends it.
pub proof fn an_interaction_stays_with_its_pane(
    s: Mouse,
    pane: PaneId,
    other: PaneId,
    m: MouseModes,
    cell: (u64, u64),
    b: Button,
)
    requires
        m.report,
        b != Button::Other,
    ensures
        s.after_press(pane, false, m, Some(cell), b, true, None).target(Some(other)) == Some(pane),
        s.after_press(pane, false, m, Some(cell), b, true, None).after_press(
            pane,
            false,
            m,
            Some(cell),
            b,
            false,
            None,
        ).target(Some(other)) == Some(other),
{
}

/// Quick clicks on one point select a spot, a word, its lines, and then a spot again.
pub proof fn clicks_run_through_the_kinds(s: Mouse, p: PaneId, m: MouseModes, c: Click)
    requires
        !m.report,
        s.last_click is None,
    ensures
        ({
            let step = |x: Mouse| x.after_press(p, false, m, None, Button::Left, true, Some(c));
            let kind = |x: Mouse| x.press(p, false, m, None, Button::Left, true, Some(c));
            &&& kind(s) == (PressView::Select { kind: Some(SelectionKind::Simple) })
            &&& kind(step(s)) == (PressView::Select { kind: Some(SelectionKind::Word) })
            &&& kind(step(step(s))) == (PressView::Select { kind: Some(SelectionKind::Lines) })
            &&& kind(step(step(step(s)))) == (PressView::Select {
                kind: Some(SelectionKind::Simple),
            })
        }),
{
}

} // verus!
