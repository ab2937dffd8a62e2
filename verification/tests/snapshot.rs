use alacritty_terminal::event::VoidListener;
use alacritty_terminal::grid::Dimensions;
use alacritty_terminal::index::{Column, Line};
use alacritty_terminal::term::cell::{Cell, Flags};
use alacritty_terminal::term::test::TermSize;
use alacritty_terminal::term::{Config, Term, TermMode};
use alacritty_terminal::vte::ansi::{Color, NamedColor, Processor, StdSyncHandler};
use potty::color;
use potty::snapshot;
use potty::snapshot::serialize;

const COLS: usize = 20;
const ROWS: usize = 5;
const HISTORY: usize = 100;

struct Harness {
    term: Term<VoidListener>,
    parser: Processor<StdSyncHandler>,
}

impl Harness {
    fn new() -> Self {
        let config = Config { scrolling_history: HISTORY, ..Config::default() };
        Self {
            term: Term::new(config, &TermSize::new(COLS, ROWS), VoidListener),
            parser: Processor::new(),
        }
    }

    fn feed(&mut self, bytes: &[u8]) {
        self.parser.advance(&mut self.term, bytes);
    }

    fn snapshot(&mut self) -> Vec<u8> {
        serialize(&screen_of(&mut self.term), None)
    }
}

fn color_of(c: Color) -> color::Color {
    match c {
        Color::Named(n) => color::Color::Named(n as u16),
        Color::Indexed(i) => color::Color::Indexed(i),
        Color::Spec(c) => color::Color::Spec(color::Rgb { r: c.r, g: c.g, b: c.b }),
    }
}

fn cell_of(cell: &Cell) -> snapshot::Cell {
    let f = cell.flags;
    snapshot::Cell {
        c: cell.c,
        zerowidth: cell.zerowidth().map(|z| z.to_vec()),
        fg: color_of(cell.fg),
        bg: color_of(cell.bg),
        style: snapshot::Style {
            bold: f.contains(Flags::BOLD),
            dim: f.contains(Flags::DIM),
            italic: f.contains(Flags::ITALIC),
            underline: f.contains(Flags::UNDERLINE),
            double_underline: f.contains(Flags::DOUBLE_UNDERLINE),
            undercurl: f.contains(Flags::UNDERCURL),
            dotted_underline: f.contains(Flags::DOTTED_UNDERLINE),
            dashed_underline: f.contains(Flags::DASHED_UNDERLINE),
            inverse: f.contains(Flags::INVERSE),
            hidden: f.contains(Flags::HIDDEN),
            strikeout: f.contains(Flags::STRIKEOUT),
        },
        underline_color: cell.underline_color().map(color_of),
        wrapline: f.contains(Flags::WRAPLINE),
        wide: f.contains(Flags::WIDE_CHAR),
        spacer: f.intersects(Flags::WIDE_CHAR_SPACER | Flags::LEADING_WIDE_CHAR_SPACER),
    }
}

fn grid_of(term: &Term<VoidListener>) -> snapshot::Grid {
    let g = term.grid();
    let rows = (g.topmost_line().0..=g.bottommost_line().0)
        .map(|l| (0..g.columns()).map(|c| cell_of(&g[Line(l)][Column(c)])).collect())
        .collect();
    snapshot::Grid {
        rows,
        cursor_line: g.cursor.point.line.0 as u32,
        cursor_column: g.cursor.point.column.0 as u32,
    }
}

fn modes_of(m: &TermMode) -> snapshot::Modes {
    snapshot::Modes {
        show_cursor: m.contains(TermMode::SHOW_CURSOR),
        app_cursor: m.contains(TermMode::APP_CURSOR),
        app_keypad: m.contains(TermMode::APP_KEYPAD),
        line_wrap: m.contains(TermMode::LINE_WRAP),
        line_feed_new_line: m.contains(TermMode::LINE_FEED_NEW_LINE),
        insert: m.contains(TermMode::INSERT),
        mouse_report_click: m.contains(TermMode::MOUSE_REPORT_CLICK),
        mouse_drag: m.contains(TermMode::MOUSE_DRAG),
        mouse_motion: m.contains(TermMode::MOUSE_MOTION),
        focus_in_out: m.contains(TermMode::FOCUS_IN_OUT),
        utf8_mouse: m.contains(TermMode::UTF8_MOUSE),
        sgr_mouse: m.contains(TermMode::SGR_MOUSE),
        alternate_scroll: m.contains(TermMode::ALTERNATE_SCROLL),
        bracketed_paste: m.contains(TermMode::BRACKETED_PASTE),
        disambiguate_esc_codes: m.contains(TermMode::DISAMBIGUATE_ESC_CODES),
        report_event_types: m.contains(TermMode::REPORT_EVENT_TYPES),
        report_alternate_keys: m.contains(TermMode::REPORT_ALTERNATE_KEYS),
        report_all_keys_as_esc: m.contains(TermMode::REPORT_ALL_KEYS_AS_ESC),
        report_associated_text: m.contains(TermMode::REPORT_ASSOCIATED_TEXT),
    }
}

/// The inactive screen is reached by swapping it in and back.
fn screen_of(term: &mut Term<VoidListener>) -> snapshot::Screen {
    let modes = modes_of(term.mode());
    if term.mode().contains(TermMode::ALT_SCREEN) {
        let alternate = grid_of(term);
        let kept = term.grid().clone();
        term.swap_alt();
        let primary = grid_of(term);
        term.swap_alt();
        *term.grid_mut() = kept;
        snapshot::Screen { primary, alternate: Some(alternate), modes }
    } else {
        snapshot::Screen { primary: grid_of(term), alternate: None, modes }
    }
}

fn has_content(cell: &Cell) -> bool {
    let drawn = Flags::INVERSE | Flags::STRIKEOUT | Flags::ALL_UNDERLINES;
    cell.c != ' '
        || cell.bg != Color::Named(NamedColor::Background)
        || cell.flags.intersects(drawn)
        || cell.zerowidth().is_some()
}

fn round_trip(original: &mut Harness) -> Harness {
    let bytes = original.snapshot();
    let mut restored = Harness::new();
    restored.feed(&bytes);
    restored
}

/// The two grids render identically: same history depth, and every cell either matches or
/// both are visually blank (a trimmed trailing cell only keeps its bg/decoration guarantee).
fn assert_same_screen(a: &Term<VoidListener>, b: &Term<VoidListener>) {
    assert_eq!(
        a.grid().history_size(),
        b.grid().history_size(),
        "history depth"
    );
    assert_eq!(a.grid().cursor.point, b.grid().cursor.point, "cursor");
    let top = a.grid().topmost_line().0;
    for l in top..ROWS as i32 {
        for c in 0..COLS {
            let ca = &a.grid()[Line(l)][Column(c)];
            let cb = &b.grid()[Line(l)][Column(c)];
            let visible = |cell: &Cell| has_content(cell) || cell.c != ' ';
            if !visible(ca) && !visible(cb) {
                continue;
            }
            assert_eq!(ca.c, cb.c, "char at line {l} col {c}");
            assert_eq!(ca.fg, cb.fg, "fg at line {l} col {c}");
            assert_eq!(ca.bg, cb.bg, "bg at line {l} col {c}");
            let mask = Flags::INVERSE
                | Flags::BOLD
                | Flags::ITALIC
                | Flags::DIM
                | Flags::HIDDEN
                | Flags::STRIKEOUT
                | Flags::ALL_UNDERLINES
                | Flags::WRAPLINE
                | Flags::WIDE_CHAR
                | Flags::WIDE_CHAR_SPACER
                | Flags::LEADING_WIDE_CHAR_SPACER;
            assert_eq!(
                ca.flags & mask,
                cb.flags & mask,
                "flags at line {l} col {c}"
            );
        }
    }
}

fn screen_text(term: &Term<VoidListener>) -> String {
    let mut text = String::new();
    let top = term.grid().topmost_line().0;
    for l in top..ROWS as i32 {
        for c in 0..COLS {
            text.push(term.grid()[Line(l)][Column(c)].c);
        }
    }
    text
}

#[test]
fn plain_text_round_trips() {
    let mut orig = Harness::new();
    orig.feed(b"$ echo hi\r\nhi\r\n$ ");
    let restored = round_trip(&mut orig);
    assert_same_screen(&orig.term, &restored.term);
    assert!(screen_text(&restored.term).contains("echo hi"));
}

#[test]
fn styles_round_trip() {
    let mut orig = Harness::new();
    orig.feed(b"\x1b[1;31mred\x1b[0m \x1b[3;48;5;27midx\x1b[0m\r\n");
    orig.feed(b"\x1b[4;38;2;10;200;30mtrue\x1b[0m \x1b[7minv\x1b[0m");
    let restored = round_trip(&mut orig);
    assert_same_screen(&orig.term, &restored.term);
}

#[test]
fn history_round_trips() {
    let mut orig = Harness::new();
    for i in 0..40 {
        orig.feed(format!("line {i}\r\n").as_bytes());
    }
    let restored = round_trip(&mut orig);
    assert_eq!(orig.term.grid().history_size(), 40 - ROWS + 1);
    assert_same_screen(&orig.term, &restored.term);
    assert!(screen_text(&restored.term).contains("line 0"));
}

#[test]
fn wide_chars_and_wrapping_round_trip() {
    let mut orig = Harness::new();
    orig.feed("日本語 wide\r\n".as_bytes());
    orig.feed(b"a long line that soft-wraps across rows without a newline");
    let restored = round_trip(&mut orig);
    assert_same_screen(&orig.term, &restored.term);
}

#[test]
fn cursor_and_modes_round_trip() {
    let mut orig = Harness::new();
    orig.feed(b"prompt\x1b[?1h\x1b[?2004h\x1b[?1002h\x1b[?1006h\x1b[?25l\x1b[3;7H");
    let restored = round_trip(&mut orig);
    assert_same_screen(&orig.term, &restored.term);
    for bit in [
        TermMode::APP_CURSOR,
        TermMode::BRACKETED_PASTE,
        TermMode::MOUSE_DRAG,
        TermMode::SGR_MOUSE,
    ] {
        assert!(restored.term.mode().contains(bit), "{bit:?} not restored");
    }
    assert!(!restored.term.mode().contains(TermMode::SHOW_CURSOR));
}

/// The bug that motivated snapshots: a finished full-screen-app episode (helix, vim) must
/// leave zero trace, no matter how much it painted. With raw replay, trimming used to cut the
/// alt-screen entry off and the paints landed in the primary screen and scrollback.
#[test]
fn finished_alt_screen_episode_leaves_no_trace() {
    let mut orig = Harness::new();
    orig.feed(b"$ hx file\r\n");
    orig.feed(b"\x1b[?1049h");
    for frame in 0..2000 {
        for row in 1..=ROWS {
            orig.feed(format!("\x1b[{row};1H\x1b[38;2;1;2;3mXJUNKX {frame}").as_bytes());
        }
    }
    orig.feed(b"\x1b[?1049l$ ");
    let bytes = orig.snapshot();
    let junk = b"XJUNKX";
    assert!(
        !bytes.windows(junk.len()).any(|w| w == junk),
        "alt-screen paints leaked into the snapshot"
    );
    let mut restored = Harness::new();
    restored.feed(&bytes);
    assert_same_screen(&orig.term, &restored.term);
    assert!(!screen_text(&restored.term).contains("XJUNKX"));
}

/// Reattaching while the app is still on the alt screen: the snapshot recreates the primary
/// screen underneath, then the alt screen on top — and serializing must not disturb the
/// running terminal (the swap-and-restore dance is invisible).
#[test]
fn active_alt_screen_round_trips() {
    let mut orig = Harness::new();
    orig.feed(b"$ hx file\r\n");
    orig.feed(b"\x1b[?1049h\x1b[2;3H\x1b[1mEDITOR\x1b[0m");

    let first = orig.snapshot();
    let second = orig.snapshot();
    assert_eq!(first, second, "serializing twice must not perturb the term");

    let mut restored = Harness::new();
    restored.feed(&first);
    assert!(restored.term.mode().contains(TermMode::ALT_SCREEN));
    assert_same_screen(&orig.term, &restored.term);
    assert!(screen_text(&restored.term).contains("EDITOR"));

    // Leave the alt screen on both: the primary screens must match too.
    orig.feed(b"\x1b[?1049l");
    restored.feed(b"\x1b[?1049l");
    assert_same_screen(&orig.term, &restored.term);
    assert!(screen_text(&restored.term).contains("hx file"));
}

#[test]
fn title_is_included() {
    let mut orig = Harness::new();
    orig.feed(b"$ ");
    let bytes = serialize(&screen_of(&mut orig.term), Some("build box"));
    let osc = b"\x1b]2;build box\x07";
    assert!(bytes.windows(osc.len()).any(|w| w == osc));
}

fn plain() -> snapshot::Style {
    snapshot::Style {
        bold: false,
        dim: false,
        italic: false,
        underline: false,
        double_underline: false,
        undercurl: false,
        dotted_underline: false,
        dashed_underline: false,
        inverse: false,
        hidden: false,
        strikeout: false,
    }
}

fn cell(c: char) -> snapshot::Cell {
    snapshot::Cell {
        c,
        zerowidth: None,
        fg: color::Color::Named(color::FOREGROUND),
        bg: color::Color::Named(color::BACKGROUND),
        style: plain(),
        underline_color: None,
        wrapline: false,
        wide: false,
        spacer: false,
    }
}

fn fresh() -> snapshot::Modes {
    let h = Harness::new();
    modes_of(h.term.mode())
}

fn text_of(rows: Vec<Vec<snapshot::Cell>>) -> String {
    let primary = snapshot::Grid { rows, cursor_line: 0, cursor_column: 2 };
    let screen = snapshot::Screen { primary, alternate: None, modes: fresh() };
    String::from_utf8(serialize(&screen, None)).unwrap()
}

/// What a terminal in its initial state adds behind every screen.
fn tail() -> String {
    let empty = text_of(vec![]);
    empty.strip_prefix("\x1b[0m\x1b[1;3H").unwrap().to_string()
}

#[test]
fn equal_pens_are_sent_once_and_blanks_are_dropped() {
    let bold = snapshot::Style { bold: true, ..plain() };
    let row = vec![
        cell('a'),
        snapshot::Cell { style: bold, ..cell('b') },
        snapshot::Cell { style: bold, ..cell('c') },
        cell(' '),
    ];
    assert_eq!(text_of(vec![row]), format!("a\x1b[0;1mbc\x1b[0m\x1b[1;3H{}", tail()));
}

#[test]
fn rows_break_unless_they_wrap() {
    let wrapped = vec![cell('a'), snapshot::Cell { wrapline: true, ..cell(' ') }];
    let rows = vec![wrapped, vec![cell('b'), cell(' ')], vec![cell(' '), cell(' ')], vec![cell('c')]];
    assert_eq!(text_of(rows), format!("a b\r\n\r\nc\x1b[0m\x1b[1;3H{}", tail()));
}

#[test]
fn every_attribute_has_its_parameter() {
    let style = snapshot::Style { dim: true, undercurl: true, hidden: true, ..plain() };
    let c = snapshot::Cell {
        style,
        fg: color::Color::Named(9),
        bg: color::Color::Indexed(200),
        underline_color: Some(color::Color::Spec(color::Rgb { r: 1, g: 2, b: 3 })),
        zerowidth: Some(vec!['\u{301}']),
        ..cell('e')
    };
    assert_eq!(
        text_of(vec![vec![c]]),
        format!("\x1b[0;2;4:3;8;91;48;5;200;58;2;1;2;3me\u{301}\x1b[0m\x1b[1;3H{}", tail())
    );
}

#[test]
fn keyboard_flags_are_sent_as_one_number() {
    let modes = snapshot::Modes {
        disambiguate_esc_codes: true,
        report_all_keys_as_esc: true,
        ..fresh()
    };
    let primary = snapshot::Grid { rows: vec![], cursor_line: 0, cursor_column: 0 };
    let screen = snapshot::Screen { primary, alternate: None, modes };
    let text = String::from_utf8(serialize(&screen, Some("t"))).unwrap();
    assert!(text.ends_with("\x1b[=9;1u\x1b]2;t\x07"));
}

fn sent(modes: snapshot::Modes) -> String {
    let primary = snapshot::Grid { rows: vec![], cursor_line: 0, cursor_column: 0 };
    let screen = snapshot::Screen { primary, alternate: None, modes };
    String::from_utf8(serialize(&screen, None)).unwrap()
}

#[test]
fn alternate_scroll_is_switched_off_where_it_was_off() {
    assert_eq!(sent(fresh()), "\x1b[0m\x1b[1;1H\x1b[?1007h");
    let off = snapshot::Modes { alternate_scroll: false, ..fresh() };
    assert_eq!(sent(off), "\x1b[0m\x1b[1;1H\x1b[?1007l");
    let mut original = Harness::new();
    original.feed(b"\x1b[?1007l");
    let restored = round_trip(&mut original);
    assert!(!restored.term.mode().contains(TermMode::ALTERNATE_SCROLL));
}

#[test]
fn every_mode_reads_back() {
    let streams: [&[u8]; 8] = [
        b"\x1b[?25l\x1b[?1h\x1b=\x1b[?7l",
        b"\x1b[20h\x1b[4h",
        b"\x1b[?1000h\x1b[?1005h",
        b"\x1b[?1002h\x1b[?1006h",
        b"\x1b[?1003h\x1b[?1004h",
        b"\x1b[?1007l\x1b[?2004h",
        b"\x1b[?1007l\x1b[?1007h",
        b"",
    ];
    for stream in streams {
        let mut original = Harness::new();
        original.feed(stream);
        let restored = round_trip(&mut original);
        assert_eq!(restored.term.mode(), original.term.mode());
    }
}

/// Every cell of history and screen is the same, but for a tab, which comes back as a blank.
fn assert_same(a: &Harness, b: &Harness) {
    let (a, b) = (a.term.grid(), b.term.grid());
    assert_eq!(a.history_size(), b.history_size());
    assert_eq!(a.cursor.point, b.cursor.point);
    for line in a.topmost_line().0..=a.bottommost_line().0 {
        for column in 0..COLS {
            let (x, y) = (&a[Line(line)][Column(column)], &b[Line(line)][Column(column)]);
            let c = if x.c == '\t' { ' ' } else { x.c };
            let place = (line, column);
            assert_eq!((place, c, x.bg, x.flags), (place, y.c, y.bg, y.flags));
            assert_eq!(x.zerowidth(), y.zerowidth());
            assert!(!has_content(x) || x.fg == y.fg);
        }
    }
}

fn comes_back(stream: &[u8]) -> Harness {
    let mut original = Harness::new();
    original.feed(stream);
    let restored = round_trip(&mut original);
    assert_same(&original, &restored);
    restored
}

#[test]
fn a_wide_character_that_did_not_fit_comes_back_in_its_row() {
    comes_back(
        "0123456789012345678\u{4e2d}e\u{301}x\r\n\x1b[44mfull row of colour..\x1b[0m\r\nend"
            .as_bytes(),
    );
}

#[test]
fn an_alternate_screen_begins_in_its_first_cell() {
    let mut original = Harness::new();
    original.feed(b"prompt\x1b[?1049h\x1b[HXY\x1b[3;4Hend");
    let mut restored = round_trip(&mut original);
    assert_same(&original, &restored);
    original.feed(b"\x1b[?1049l");
    restored.feed(b"\x1b[?1049l");
    assert_same(&original, &restored);
    assert_eq!(restored.term.grid().cursor.point.column.0, 6);
}

#[test]
fn a_wrapped_row_before_a_blank_one_keeps_its_line() {
    let edge = comes_back(b"01234567890123456789x\x08\x1b[K\r\nZ");
    assert_eq!(edge.term.grid()[Line(2)][Column(0)].c, 'Z');
    comes_back(b"a\r\n\r\n01234567890123456789x\x08\x1b[K\r\n1\r\n2\r\n3\r\n4\r\n5");
}

#[test]
fn a_wide_character_that_was_erased_keeps_its_line() {
    let mut original = Harness::new();
    original.feed("0123456789012345678\u{4e2d}x\r\x1b[K\r\nZ".as_bytes());
    let restored = round_trip(&mut original);
    let g = restored.term.grid();
    assert_eq!(g[Line(0)][Column(18)].c, '8');
    assert!(g[Line(0)][Column(19)].flags.contains(Flags::WRAPLINE));
    assert_eq!(g[Line(2)][Column(0)].c, 'Z');
}

#[test]
fn what_is_behind_a_tab_keeps_its_column() {
    let tab = comes_back(b"a\tb\r\n\t\tc\r\n1234567890123456789\tz");
    assert_eq!(tab.term.grid()[Line(0)][Column(8)].c, 'b');
    assert_eq!(tab.term.grid()[Line(1)][Column(16)].c, 'c');
}

#[test]
fn rows_that_scroll_in_keep_their_background() {
    comes_back(b"1\r\n2\r\n3\r\n4\r\n\x1b[44mblue\x1b[0m\r\nplain\r\n");
    comes_back(
        b"1\r\n2\r\n3\r\n4\r\n01234567890123456789\x1b[0m\r\n\x1b[A\x1b[20Gx\x1b[45my\x1b[0m\r\nend",
    );
}

#[test]
fn a_torn_wide_character_leaves_its_neighbours_alone() {
    let mut original = Harness::new();
    original.feed("a\u{4e2d}b\x1b[1;3H\x1b[1K\r\nc\u{4e2d}d\x1b[2;3H\x1b[K".as_bytes());
    let restored = round_trip(&mut original);
    let row = |h: &Harness, line| -> Vec<char> {
        (0..COLS).map(|c| h.term.grid()[Line(line)][Column(c)].c).collect()
    };
    assert_eq!(row(&original, 0)[3], 'b');
    assert_eq!(row(&restored, 0), row(&original, 0));
    assert_eq!(row(&original, 1)[1], '\u{4e2d}');
    assert_eq!(row(&restored, 1), row(&original, 1));
}

#[test]
fn the_cells_that_are_sent_are_exact() {
    let wrapped = || vec![cell('a'), snapshot::Cell { wrapline: true, ..cell('b') }];
    let blank = || vec![cell(' '), cell(' ')];
    let blue = |c| snapshot::Cell { bg: color::Color::Indexed(4), ..cell(c) };
    assert_eq!(
        text_of(vec![wrapped(), blank(), vec![cell('Z'), cell(' ')]]),
        format!("ab \r\nZ\x1b[0m\x1b[1;3H{}", tail())
    );
    assert_eq!(
        text_of(vec![wrapped(), vec![blue('c'), cell(' ')], blank()]),
        format!("ab\x1b[0;48;5;4mc\x1b[0m \r\n\x1b[0m\x1b[1;3H{}", tail())
    );
    assert_eq!(
        text_of(vec![vec![blue('c'), cell(' ')], vec![cell('d'), cell(' ')]]),
        format!("\x1b[0;48;5;4mc\x1b[0m\r\nd\x1b[0m\x1b[1;3H{}", tail())
    );
    assert_eq!(
        text_of(vec![vec![cell('\t'), cell(' '), cell('b')]]),
        format!("  b\x1b[0m\x1b[1;3H{}", tail())
    );
    let primary = snapshot::Grid { rows: vec![], cursor_line: 0, cursor_column: 4 };
    let shown = snapshot::Grid { rows: vec![vec![cell('X')]], cursor_line: 0, cursor_column: 0 };
    let screen = snapshot::Screen { primary, alternate: Some(shown), modes: fresh() };
    assert_eq!(
        String::from_utf8(serialize(&screen, None)).unwrap(),
        "\x1b[0m\x1b[1;5H\x1b[?1049h\x1b[1;1HX\x1b[0m\x1b[1;1H\x1b[?1007h"
    );
}
