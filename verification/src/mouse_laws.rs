//! What programs read in mouse reports, and what the mouse does where they do not get it.

use crate::mouse::{
    button_code, keeps_right_click, on_wheel, report_bytes, takes_button, takes_wheel, wheel_action,
    Button, Click, Motion, MotionView, Mouse, MouseModes, PressView, SelectionKind, Wheel,
    WheelModes, WheelView,
};
use crate::osc133_laws::{digits, worth};
use crate::proto::PaneId;
use crate::text;
use vstd::prelude::*;

verus! {

/// Bytes that write a number.
pub open spec fn is_number(d: Seq<u8>, n: int) -> bool {
    digits(d) && worth(d) == n
}

/// A report in the extended encoding: `ESC [ <`, the button, the column and the row in decimal,
/// and `M` for a press or `m` for a release.
pub open spec fn extended(b: Seq<u8>, button: int, column: int, row: int, pressed: bool) -> bool {
    exists|x: Seq<u8>, y: Seq<u8>, z: Seq<u8>|
        #![trigger is_number(x, button), is_number(y, column), is_number(z, row)]
        is_number(x, button) && is_number(y, column) && is_number(z, row) && b == seq![
            0x1bu8,
            0x5b,
            0x3c,
        ] + x + seq![0x3bu8] + y + seq![0x3bu8] + z + seq![
            if pressed {
                0x4du8
            } else {
                0x6du8
            },
        ]
}

/// A report says what happened and where. In the extended encoding all numbers are written out; in
/// the short one each is a byte, 32 more than the number and never more than 255, and a release
/// does not say of which button.
pub proof fn reports_say_what_happened(cb: u8, pressed: bool, col: u64, row: u64)
    requires
        cb <= 223,
    ensures
        extended(report_bytes(cb, pressed, col, row, true), cb as int, col as int, row as int, pressed),
        ({
            let b = report_bytes(cb, pressed, col, row, false);
            &&& b.len() == 6
            &&& b[0] == 0x1b && b[1] == 0x5b && b[2] == 0x4d
            &&& pressed ==> b[3] - 32 == cb
            &&& !pressed ==> b[3] - 32 == 3
            &&& col <= 223 ==> b[4] - 32 == col
            &&& col > 223 ==> b[4] == 255
            &&& row <= 223 ==> b[5] - 32 == row
            &&& row > 223 ==> b[5] == 255
        }),
{
    lemma_number(cb as nat);
    lemma_number(col as nat);
    lemma_number(row as nat);
}

proof fn lemma_number(n: nat)
    ensures
        is_number(text::decimal(n), n as int),
    decreases n,
{
    let d = text::decimal(n);
    if n < 10 {
        reveal_with_fuel(worth, 2);
        assert(d.drop_last() =~= seq![]);
    } else {
        lemma_number(n / 10);
        let front = text::decimal(n / 10);
        assert(d.drop_last() =~= front);
        assert forall|i: int| 0 <= i < d.len() implies 0x30 <= #[trigger] d[i] <= 0x39 by {
            if i < front.len() {
                assert(d[i] == front[i]);
            }
        }
    }
}

/// The left button is number 0, the middle one 1 and the right one 2.
pub proof fn buttons_have_their_numbers()
    ensures
        button_code(Button::Left) == Some(0u8),
        button_code(Button::Middle) == Some(1u8),
        button_code(Button::Right) == Some(2u8),
        button_code(Button::Other) is None,
{
}

/// A program that asked for the mouse gets every press and release of the three buttons, at the
/// cell under the mouse, and a press gives its pane the focus. Without Shift nothing else happens.
pub proof fn programs_get_the_buttons(
    s: Mouse,
    pane: PaneId,
    m: MouseModes,
    cell: (u64, u64),
    b: Button,
    pressed: bool,
    click: Option<Click>,
)
    requires
        m.report,
        b != Button::Other,
    ensures
        s.press(pane, false, m, Some(cell), b, pressed, click) matches PressView::Forward {
            focus,
            report,
        } && focus == pressed && report is Some && report->0 == report_bytes(
            button_code(b)->0,
            pressed,
            cell.0,
            cell.1,
            m.sgr,
        ),
        ({
            let t = s.after_press(pane, false, m, Some(cell), b, pressed, click);
            &&& pressed ==> t.pane == Some(pane) && t.held == button_code(b)
            &&& !pressed ==> t.pane is None && t.held is None
            &&& t.last_cell == Some(cell)
            &&& t.selecting == s.selecting
        }),
{
}

/// Where the program does not get the mouse the left button selects: a click on its own a spot, a
/// second one at the same point within 350 milliseconds a word, and a third one lines. The
/// selection ends in the pane that it began in. The middle button pastes, and nothing else does.
pub proof fn the_mouse_selects(
    s: Mouse,
    pane: PaneId,
    shift: bool,
    m: MouseModes,
    cell: Option<(u64, u64)>,
    c: Click,
    b: Button,
    pressed: bool,
)
    requires
        !m.report || shift,
    ensures
        b == Button::Left && pressed ==> {
            let t = s.after_press(pane, shift, m, cell, b, pressed, Some(c));
            let near = s.last_click is Some && c.at - s.last_click->0.at < 350_000_000
                && s.last_click->0.line == c.line && s.last_click->0.column == c.column;
            &&& t.selecting && t.pane == Some(pane) && t.last_click == Some(c)
            &&& !near ==> t.clicks == 1
            &&& near && s.clicks == 1 ==> t.clicks == 2
            &&& near && s.clicks == 2 ==> t.clicks == 3
            &&& near && s.clicks == 3 ==> t.clicks == 1
            &&& s.press(pane, shift, m, cell, b, pressed, Some(c)) == (PressView::Select {
                kind: Some(
                    if t.clicks == 2 {
                        SelectionKind::Word
                    } else if t.clicks == 3 {
                        SelectionKind::Lines
                    } else {
                        SelectionKind::Simple
                    },
                ),
            })
        },
        b == Button::Left && !pressed && s.selecting ==> s.press(
            pane,
            shift,
            m,
            cell,
            b,
            pressed,
            Some(c),
        ) == (PressView::Finish { pane: s.pane }) && !s.after_press(
            pane,
            shift,
            m,
            cell,
            b,
            pressed,
            Some(c),
        ).selecting && s.after_press(pane, shift, m, cell, b, pressed, Some(c)).pane is None,
        s.press(pane, shift, m, cell, b, pressed, Some(c)) is Paste <==> b == Button::Middle
            && pressed,
        b == Button::Right || b == Button::Other ==> s.press(
            pane,
            shift,
            m,
            cell,
            b,
            pressed,
            Some(c),
        ) is Nothing && s.after_press(pane, shift, m, cell, b, pressed, Some(c)) == s,
{
}

/// Motion is reported to programs that asked for it: as the held button and 32, or as 35 with none
/// held, at the new cell. A selection that is being made follows the mouse where nothing is
/// reported.
pub proof fn motion_is_reported_or_selects(
    s: Mouse,
    under: Option<PaneId>,
    shift: bool,
    m: MouseModes,
    cell: (u64, u64),
)
    requires
        s.wf(),
    ensures
        s.pane is Some && s.held is Some && m.report && !shift && (m.drag || m.motion)
            && s.last_cell != Some(cell) ==> s.motion(under, shift, m, Some(cell))
            == MotionView::Report(
            report_bytes((s.held->0 + 32) as u8, true, cell.0, cell.1, m.sgr),
        ),
        s.pane is None && under is Some && m.report && m.motion && !shift && s.last_cell != Some(
            cell,
        ) ==> s.motion(under, shift, m, Some(cell)) == MotionView::Report(
            report_bytes(35, true, cell.0, cell.1, m.sgr),
        ),
        s.motion(under, shift, m, Some(cell)) is Report ==> m.report && !shift && (m.motion
            || m.drag && s.held is Some),
        s.pane is Some && s.selecting && (!m.report || shift) ==> s.motion(
            under,
            shift,
            m,
            Some(cell),
        ) is Extend,
        s.motion(under, shift, m, Some(cell)) is Extend ==> s.selecting && s.pane is Some,
        s.pane is Some ==> s.target(under) == s.pane,
        s.pane is None ==> s.target(under) == under,
{
}

/// The wheel moves through the history by as many lines as it turned, upward for a turn up. A
/// program that asked for the mouse gets button 64 for each line up and 65 for each line down
/// instead, and on the alternate screen one that asked for that an arrow key for each line.
pub proof fn the_wheel_turns(
    lines: int,
    shift: bool,
    m: MouseModes,
    w: WheelModes,
    cell: (u64, u64),
)
    requires
        lines != 0,
    ensures
        ({
            let r = wheel_action(lines, shift, m, w, Some(cell));
            let n = if lines > 0 {
                lines
            } else {
                -lines
            };
            let got = m.report && !shift;
            &&& got && lines > 0 ==> r == (WheelView::Send {
                bytes: report_bytes(64, true, cell.0, cell.1, m.sgr),
                times: n,
            })
            &&& got && lines < 0 ==> r == (WheelView::Send {
                bytes: report_bytes(65, true, cell.0, cell.1, m.sgr),
                times: n,
            })
            &&& !got && !w.alternate_screen ==> r == WheelView::Scroll(lines)
            &&& !got && w.alternate_screen && !w.alternate_scroll ==> r is Nothing
            &&& !got && w.alternate_screen && w.alternate_scroll ==> (r matches WheelView::Send {
                bytes,
                times,
            } && times == n && bytes.len() == 3 && bytes[0] == 0x1b && (bytes[1] == 0x4f
                <==> w.app_cursor) && (bytes[1] == 0x5b <==> !w.app_cursor) && (bytes[2] == 0x41
                <==> lines > 0) && (bytes[2] == 0x42 <==> lines < 0))
        }),
        wheel_action(0, shift, m, w, Some(cell)) is Nothing,
{
}

/// A turn of the wheel is carried out in full.
pub proof fn turns_are_carried_out(
    lines: i32,
    m: MouseModes,
    w: WheelModes,
    cell: Option<(u64, u64)>,
    r: Wheel,
)
    requires
        call_ensures(on_wheel, (lines, true, m, w, cell), r),
        lines != 0,
        !w.alternate_screen,
    ensures
        r@ == WheelView::Scroll(lines as int),
{
}

/// Menus and the font window keep the mouse, dividers keep the buttons, and a right click is kept
/// from the menu exactly where a program has the mouse.
pub proof fn menus_keep_the_mouse(
    menu: bool,
    font: bool,
    divider: bool,
    shift: bool,
    over: Option<MouseModes>,
    button: bool,
    wheel: bool,
    right: bool,
)
    requires
        call_ensures(takes_button, (menu, font, divider), button),
        call_ensures(takes_wheel, (menu, font), wheel),
        call_ensures(keeps_right_click, (shift, over), right),
    ensures
        menu || font ==> !button && !wheel,
        divider ==> !button,
        !menu && !font ==> wheel,
        !menu && !font && !divider ==> button,
        right ==> !shift && over is Some && over->0.report,
        !shift && over is Some && over->0.report ==> right,
{
}

} // verus!
