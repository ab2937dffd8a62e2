use potty::blink::{cursor_blinks, shows_cursor, Blink, BLINK_INTERVAL};
use potty::mouse::{
    keeps_right_click, on_wheel, report_mouse, takes_button, takes_wheel, Button, Click, Motion,
    Mouse, MouseModes, Press, SelectionKind, Wheel, WheelModes, CLICK_SPAN,
};

const OFF: MouseModes = MouseModes { report: false, sgr: false, motion: false, drag: false };
const DRAG: MouseModes = MouseModes { report: true, sgr: true, motion: false, drag: true };

fn click(at: u64) -> Option<Click> {
    Some(Click { at, line: 0, column: 3 })
}

#[test]
fn reports_come_in_both_forms() {
    assert_eq!(report_mouse(0, true, 5, 7, true), b"\x1b[<0;5;7M");
    assert_eq!(report_mouse(2, false, 5, 7, true), b"\x1b[<2;5;7m");
    assert_eq!(report_mouse(0, true, 5, 7, false), [0x1b, b'[', b'M', 32, 37, 39]);
    assert_eq!(report_mouse(1, false, 300, 1, false), [0x1b, b'[', b'M', 35, 255, 33]);
}

#[test]
fn clicks_select_a_spot_a_word_and_lines() {
    let mut m = Mouse::new();
    let mut kinds = Vec::new();
    for n in 0..4 {
        match m.button(1, false, OFF, Some((1, 1)), Button::Left, true, click(n * 1000)) {
            Press::Select { kind } => kinds.push(kind.unwrap()),
            other => panic!("{other:?}"),
        }
        let end = m.button(1, false, OFF, Some((1, 1)), Button::Left, false, None);
        assert!(matches!(end, Press::Finish { .. }));
    }
    use_kinds(&kinds);
    let late = click(CLICK_SPAN * 9);
    let again = m.button(1, false, OFF, Some((1, 1)), Button::Left, true, late);
    assert_eq!(again, Press::Select { kind: Some(SelectionKind::Simple) });
}

fn use_kinds(kinds: &[SelectionKind]) {
    assert_eq!(
        kinds,
        [
            SelectionKind::Simple,
            SelectionKind::Word,
            SelectionKind::Lines,
            SelectionKind::Simple
        ]
    );
}

#[test]
fn a_program_gets_its_presses_and_drags() {
    let mut m = Mouse::new();
    let down = m.button(1, false, DRAG, Some((2, 3)), Button::Left, true, None);
    assert!(matches!(&down, Press::Forward { report: Some(b), .. } if b == b"\x1b[<0;2;3M"));
    let drag = m.moved(Some(1), false, DRAG, Some((4, 3)));
    assert_eq!(drag, Motion::Report(b"\x1b[<32;4;3M".to_vec()));
    assert_eq!(m.moved(Some(1), false, DRAG, Some((4, 3))), Motion::Nothing);
    assert_eq!(m.concerns(Some(2)), Some(1));
    let up = m.button(1, false, DRAG, Some((4, 3)), Button::Left, false, None);
    assert!(matches!(&up, Press::Forward { report: Some(b), .. } if b == b"\x1b[<0;4;3m"));
    assert_eq!(m.concerns(Some(2)), Some(2));
}

#[test]
fn shift_takes_the_mouse_from_a_program() {
    let mut m = Mouse::new();
    let down = m.button(1, true, DRAG, Some((2, 3)), Button::Left, true, click(1));
    assert!(matches!(down, Press::Select { .. }));
    assert_eq!(m.moved(Some(1), true, DRAG, Some((4, 3))), Motion::Extend);
}

#[test]
fn the_middle_button_pastes() {
    let mut m = Mouse::new();
    let p = m.button(1, false, OFF, Some((1, 1)), Button::Middle, true, None);
    assert_eq!(p, Press::Paste);
}

#[test]
fn the_wheel_scrolls_or_is_sent() {
    let plain = WheelModes { alternate_screen: false, alternate_scroll: true, app_cursor: false };
    let alt = WheelModes { alternate_screen: true, ..plain };
    let at = Some((2, 3));
    assert_eq!(on_wheel(3, false, OFF, plain, at), Wheel::Scroll(3));
    assert_eq!(
        on_wheel(-2, false, OFF, alt, at),
        Wheel::Send { bytes: b"\x1b[B".to_vec(), times: 2 }
    );
    let app = WheelModes { app_cursor: true, ..alt };
    assert_eq!(
        on_wheel(1, false, OFF, app, at),
        Wheel::Send { bytes: b"\x1bOA".to_vec(), times: 1 }
    );
    let deaf = WheelModes { alternate_scroll: false, ..alt };
    assert_eq!(on_wheel(1, false, OFF, deaf, at), Wheel::Nothing);
    assert_eq!(
        on_wheel(2, false, DRAG, plain, at),
        Wheel::Send { bytes: b"\x1b[<64;2;3M".to_vec(), times: 2 }
    );
    assert_eq!(on_wheel(2, true, DRAG, plain, at), Wheel::Scroll(2));
}

#[test]
fn open_menus_keep_the_mouse() {
    assert!(takes_button(false, false, false));
    assert!(!takes_button(true, false, false));
    assert!(!takes_button(false, true, false));
    assert!(!takes_button(false, false, true));
    assert!(takes_wheel(false, false) && !takes_wheel(true, false));
    assert!(keeps_right_click(false, Some(DRAG)));
    assert!(!keeps_right_click(true, Some(DRAG)));
    assert!(!keeps_right_click(false, None));
}

#[test]
fn a_cursor_blinks_at_its_interval() {
    let mut b = Blink::new();
    let t = b.tick(true, 0);
    assert_eq!((b.on, t.until), (true, Some(BLINK_INTERVAL)));
    assert!(!b.tick(true, BLINK_INTERVAL - 1).redraw);
    assert!(b.tick(true, BLINK_INTERVAL).redraw);
    assert!(!b.on);
    b.reset();
    assert!(b.on);
    assert_eq!(b.tick(false, 7).until, None);
    assert!(cursor_blinks(true, true) && !cursor_blinks(true, false));
    assert!(shows_cursor(true, true) && !shows_cursor(true, false) && shows_cursor(false, false));
}
