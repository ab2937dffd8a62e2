//! User configuration: fonts, colours, cursor, clipboard policy and connection profiles, and how
//! the written form of each is understood.

use crate::bits;
use crate::bits::Single;
use crate::color;
use crate::color::{default_ansi, Palette, Rgb};
use crate::text;
use crate::text::{ascii_lower, chars_of, string_of, trimmed};
use vstd::prelude::*;
use vstd::slice::*;
use vstd::string::*;
use vstd::utf8::*;

verus! {

/// The configuration file. Sizes are the bits of single-precision numbers.
#[derive(Debug, PartialEq, Eq)]
pub struct Config {
    /// `None` is the generic monospace family.
    pub font_family: Option<String>,
    /// The shell to start; `None` is the platform's default.
    pub shell: Option<String>,
    pub font_size: Single,
    /// Size of the text around the terminals.
    pub ui_font_size: Single,
    /// Clipboard policy for programs: "copy", "copy-paste", "paste" or "disabled".
    pub osc52: String,
    /// Padding between a pane's border and its cells.
    pub pane_padding: Single,
    /// Default cursor shape: "block", "underline" (or "underscore"), "beam" (or "bar").
    pub cursor_shape: String,
    pub cursor_blink: bool,
    /// Thickness of the underline and beam cursor as a fraction of the cell.
    pub cursor_thickness: Single,
    /// Command that starts the session daemon on a remote host.
    pub remote_command: String,
    pub profiles: Vec<ConnectionProfile>,
    /// Keyboard shortcut overrides, by action.
    pub hotkeys: Vec<(String, String)>,
    pub colors: Colors,
}

/// A saved connection.
#[derive(Debug, PartialEq, Eq)]
pub struct ConnectionProfile {
    pub name: Option<String>,
    pub user: String,
    pub host: String,
    pub port: u16,
    pub use_potty_session: bool,
    /// Environment variables for remote sessions of this target, by name.
    pub env: Vec<(String, String)>,
    pub last_connected: Option<u64>,
}

/// A colour scheme, each colour written as `#rrggbb`.
#[derive(Debug, PartialEq, Eq)]
pub struct Colors {
    pub foreground: String,
    pub background: String,
    pub cursor: String,
    /// Background of selected text.
    pub selection: String,
    /// Border of the focused pane.
    pub border: String,
    /// The 16 base colours. Missing or unreadable entries fall back to the defaults.
    pub ansi: Vec<String>,
}

/// A named colour scheme to choose from.
#[derive(Debug, Clone, Copy, PartialEq, Eq)]
pub struct ColorPreset {
    pub name: &'static str,
    pub foreground: &'static str,
    pub background: &'static str,
    pub cursor: &'static str,
    pub selection: &'static str,
    pub border: &'static str,
    pub ansi: [&'static str; 16],
}

#[derive(Debug, Clone, Copy, PartialEq, Eq, Structural)]
pub enum CursorShape {
    Block,
    Underline,
    Beam,
    HollowBlock,
    Hidden,
}

/// What programs may do with the clipboard.
#[derive(Debug, Clone, Copy, PartialEq, Eq, Structural)]
pub enum Osc52 {
    Disabled,
    OnlyCopy,
    OnlyPaste,
    CopyPaste,
}

/// A text without the given character at its front.
pub open spec fn trim_front(s: Seq<char>, c: char) -> Seq<char>
    decreases s.len(),
{
    if s.len() > 0 && s[0] == c {
        trim_front(s.skip(1), c)
    } else {
        s
    }
}

/// The value of a hexadecimal digit.
pub open spec fn hex_digit(b: u8) -> Option<int> {
    if 0x30 <= b <= 0x39 {
        Some(b - 0x30)
    } else if 0x61 <= b <= 0x66 {
        Some(b - 0x61 + 10)
    } else if 0x41 <= b <= 0x46 {
        Some(b - 0x41 + 10)
    } else {
        None
    }
}

/// The value of two bytes that write a number in hexadecimal: two digits, or a plus sign and one.
pub open spec fn hex_pair(a: u8, b: u8) -> Option<int> {
    match hex_digit(b) {
        Some(low) => if a == 0x2b {
            Some(low)
        } else {
            match hex_digit(a) {
                Some(high) => Some(high * 16 + low),
                None => None,
            }
        },
        None => None,
    }
}

/// The bytes of a written colour without the white space around it and the hash signs before it.
pub open spec fn color_bytes(s: Seq<char>) -> Seq<u8> {
    encode_utf8(trim_front(text::trim(s), '#'))
}

/// The colour that a text writes.
pub open spec fn color_of(s: Seq<char>) -> Option<Rgb> {
    let b = color_bytes(s);
    if b.len() != 6 {
        None
    } else {
        match (hex_pair(b[0], b[1]), hex_pair(b[2], b[3]), hex_pair(b[4], b[5])) {
            (Some(r), Some(g), Some(b)) => Some(Rgb { r: r as u8, g: g as u8, b: b as u8 }),
            _ => None,
        }
    }
}

/// A text of the length of a colour falls apart into pairs of bytes between characters, as far as
/// it is read.
pub open spec fn splits_in_pairs(s: Seq<char>) -> bool {
    let b = color_bytes(s);
    b.len() == 6 ==> is_char_boundary(b, 2) && (hex_pair(b[0], b[1]) is Some ==> is_char_boundary(
        b,
        4,
    ))
}

/// The colour that a text writes, or a default.
pub open spec fn color_or(s: Seq<char>, default: Rgb) -> Rgb {
    match color_of(s) {
        Some(c) => c,
        None => default,
    }
}

/// One of the 16 base colours of a scheme.
pub open spec fn ansi_slot(ansi: Seq<String>, i: int) -> Rgb {
    if i < ansi.len() {
        color_or(ansi[i]@, color::base16()[i])
    } else {
        color::base16()[i]
    }
}

fn stripped(s: &str) -> (r: String)
    ensures
        r@ == trim_front(text::trim(s@), '#'),
{
    let cs = chars_of(s);
    let t = trimmed(cs.as_slice());
    let mut i: usize = 0;
    assert(t@.skip(0) =~= t@);
    while i < t.len() && t[i] == '#'
        invariant
            i <= t@.len(),
            trim_front(t@, '#') == trim_front(t@.skip(i as int), '#'),
        decreases t.len() - i,
    {
        assert(t@.skip(i as int).skip(1) =~= t@.skip(i + 1));
        i = i + 1;
    }
    let rest = slice_subrange(t, i, t.len());
    assert(rest@ =~= t@.skip(i as int));
    string_of(rest)
}

fn digit_value(b: u8) -> (r: Option<u8>)
    ensures
        match r {
            Some(v) => hex_digit(b) == Some(v as int) && v < 16,
            None => hex_digit(b) is None,
        },
{
    if 0x30 <= b && b <= 0x39 {
        Some(b - 0x30)
    } else if 0x61 <= b && b <= 0x66 {
        Some(b - 0x61 + 10)
    } else if 0x41 <= b && b <= 0x46 {
        Some(b - 0x41 + 10)
    } else {
        None
    }
}

fn pair_value(a: u8, b: u8) -> (r: Option<u8>)
    ensures
        match r {
            Some(v) => hex_pair(a, b) == Some(v as int),
            None => hex_pair(a, b) is None,
        },
{
    let low: u8 = match digit_value(b) {
        Some(v) => v,
        None => {
            return None;
        },
    };
    if a == 0x2b {
        return Some(low);
    }
    match digit_value(a) {
        Some(high) => Some(high * 16 + low),
        None => None,
    }
}

/// Read a colour written as `#rrggbb`.
pub fn parse_hex(s: &str) -> (r: Option<Rgb>)
    requires
        splits_in_pairs(s@),
    ensures
        r == color_of(s@),
{
    let t = stripped(s);
    let b = t.as_str().as_bytes();
    if b.len() != 6 {
        return None;
    }
    match (pair_value(b[0], b[1]), pair_value(b[2], b[3]), pair_value(b[4], b[5])) {
        (Some(r), Some(g), Some(b)) => Some(Rgb { r, g, b }),
        _ => None,
    }
}

/// Whether a text can be read as a colour at all.
pub fn can_read_color(s: &str) -> (ok: bool)
    ensures
        ok == splits_in_pairs(s@),
{
    let t = stripped(s);
    let b = t.as_str().as_bytes();
    if b.len() != 6 {
        return true;
    }
    t.as_str().is_char_boundary(2) && (pair_value(b[0], b[1]).is_none()
        || t.as_str().is_char_boundary(4))
}

/// The lower-case hexadecimal digit of a value.
pub open spec fn hex_char(v: u8) -> char {
    if v < 10 {
        (48 + v) as char
    } else {
        (87 + v) as char
    }
}

/// A colour as `#rrggbb`.
pub open spec fn written(c: Rgb) -> Seq<char> {
    seq![
        '#',
        hex_char(c.r / 16),
        hex_char(c.r % 16),
        hex_char(c.g / 16),
        hex_char(c.g % 16),
        hex_char(c.b / 16),
        hex_char(c.b % 16),
    ]
}

fn push_hex(s: &mut String, v: u8)
    ensures
        final(s)@ == old(s)@ + seq![hex_char(v / 16), hex_char(v % 16)],
{
    let high: u8 = v / 16;
    let low: u8 = v % 16;
    s.push(
        if high < 10 {
            (48 + high) as char
        } else {
            (87 + high) as char
        },
    );
    s.push(
        if low < 10 {
            (48 + low) as char
        } else {
            (87 + low) as char
        },
    );
    assert(s@ =~= old(s)@ + seq![hex_char(v / 16), hex_char(v % 16)]);
}

/// Write a colour as `#rrggbb`.
pub fn write_hex(c: Rgb) -> (s: String)
    ensures
        s@ == written(c),
{
    let mut s = String::new();
    s.push('#');
    push_hex(&mut s, c.r);
    push_hex(&mut s, c.g);
    push_hex(&mut s, c.b);
    assert(s@ =~= written(c));
    s
}

/// A written colour reads back as what it was.
pub proof fn colors_round_trip(c: Rgb)
    ensures
        color_of(written(c)) == Some(c),
        splits_in_pairs(written(c)),
{
    let s = written(c);
    let t = s.skip(1);
    let (r, g, b) = (c.r, c.g, c.b);
    assert forall|v: u8| v < 16 implies hex_digit(#[trigger] hex_char(v) as u8) == Some(v as int)
        && !text::is_white(hex_char(v)) && hex_char(v) != '#' && (hex_char(v) as u32) < 128
        && hex_char(v) as u8 != 0x2b by {}
    assert(text::trim_start(s) == s);
    assert(s.last() == hex_char((b % 16) as u8));
    assert(text::trim(s) == s);
    assert(trim_front(t, '#') == t);
    assert(trim_front(s, '#') == t);
    assert(is_ascii_chars(t));
    is_ascii_chars_encode_utf8(t);
    let bytes = encode_utf8(t);
    assert(bytes.len() == 6);
    assert(bytes[0] == hex_char(r / 16) as u8);
    assert(bytes[1] == hex_char(r % 16) as u8);
    assert(bytes[2] == hex_char(g / 16) as u8);
    assert(bytes[3] == hex_char(g % 16) as u8);
    assert(bytes[4] == hex_char(b / 16) as u8);
    assert(bytes[5] == hex_char(b % 16) as u8);
    encode_utf8_valid_utf8(t);
    is_char_boundary_iff_not_is_continuation_byte(bytes, 2);
    is_char_boundary_iff_not_is_continuation_byte(bytes, 4);
}

/// A text is one of a preset's.
pub open spec fn texts(ansi: Seq<&'static str>) -> Seq<Seq<char>> {
    ansi.map_values(|s: &'static str| s@)
}

/// The views of a list of texts.
pub open spec fn views(ss: Seq<String>) -> Seq<Seq<char>> {
    ss.map_values(|s: String| s@)
}

impl ColorPreset {
    /// The name and the colours of a preset, in order.
    pub open spec fn table(self) -> Seq<Seq<char>> {
        seq![
            self.name@,
            self.foreground@,
            self.background@,
            self.cursor@,
            self.selection@,
            self.border@,
        ] + texts(self.ansi@)
    }

    /// The preset as a colour scheme.
    pub fn colors(&self) -> (c: Colors)
        ensures
            c.foreground@ == self.foreground@,
            c.background@ == self.background@,
            c.cursor@ == self.cursor@,
            c.selection@ == self.selection@,
            c.border@ == self.border@,
            views(c.ansi@) == texts(self.ansi@),
    {
        let mut ansi: Vec<String> = Vec::new();
        let mut i: usize = 0;
        while i < 16
            invariant
                i <= 16,
                ansi@.len() == i,
                forall|k: int| 0 <= k < i ==> (#[trigger] ansi@[k])@ == self.ansi@[k]@,
            decreases 16 - i,
        {
            ansi.push(self.ansi[i].to_owned());
            i = i + 1;
        }
        assert(views(ansi@) =~= texts(self.ansi@));
        Colors {
            foreground: self.foreground.to_owned(),
            background: self.background.to_owned(),
            cursor: self.cursor.to_owned(),
            selection: self.selection.to_owned(),
            border: self.border.to_owned(),
            ansi,
        }
    }
}

/// The name and the colours of each preset: foreground, background, cursor, selection, border, then
/// the base colours.
pub open spec fn preset_tables() -> Seq<Seq<Seq<char>>> {
    seq![
        seq![
            "Adwaita Dark"@,
            "#d0cfcc"@,
            "#171421"@,
            "#d0cfcc"@,
            "#26436e"@,
            "#51a1ff"@,
            "#241f31"@,
            "#c01c28"@,
            "#2ec27e"@,
            "#f5c211"@,
            "#1e78e4"@,
            "#9841bb"@,
            "#0ab9dc"@,
            "#c0bfbc"@,
            "#5e5c64"@,
            "#ed333b"@,
            "#57e389"@,
            "#f8e45c"@,
            "#51a1ff"@,
            "#c061cb"@,
            "#4fd2fd"@,
            "#f6f5f4"@,
        ],
        seq![
            "Monokai"@,
            "#f8f8f2"@,
            "#272822"@,
            "#f8f8f2"@,
            "#49483e"@,
            "#f92672"@,
            "#272822"@,
            "#f92672"@,
            "#a6e22e"@,
            "#e6db74"@,
            "#66d9ef"@,
            "#ae81ff"@,
            "#a1efe4"@,
            "#f8f8f2"@,
            "#75715e"@,
            "#f92672"@,
            "#a6e22e"@,
            "#e6db74"@,
            "#66d9ef"@,
            "#ae81ff"@,
            "#a1efe4"@,
            "#f9f8f5"@,
        ],
        seq![
            "Gruvbox Dark"@,
            "#ebdbb2"@,
            "#282828"@,
            "#ebdbb2"@,
            "#504945"@,
            "#fe8019"@,
            "#282828"@,
            "#cc241d"@,
            "#98971a"@,
            "#d79921"@,
            "#458588"@,
            "#b16286"@,
            "#689d6a"@,
            "#a89984"@,
            "#928374"@,
            "#fb4934"@,
            "#b8bb26"@,
            "#fabd2f"@,
            "#83a598"@,
            "#d3869b"@,
            "#8ec07c"@,
            "#ebdbb2"@,
        ],
        seq![
            "Solarized Dark"@,
            "#839496"@,
            "#002b36"@,
            "#839496"@,
            "#073642"@,
            "#268bd2"@,
            "#073642"@,
            "#dc322f"@,
            "#859900"@,
            "#b58900"@,
            "#268bd2"@,
            "#d33682"@,
            "#2aa198"@,
            "#eee8d5"@,
            "#002b36"@,
            "#cb4b16"@,
            "#586e75"@,
            "#657b83"@,
            "#839496"@,
            "#6c71c4"@,
            "#93a1a1"@,
            "#fdf6e3"@,
        ],
        seq![
            "One Dark"@,
            "#abb2bf"@,
            "#282c34"@,
            "#abb2bf"@,
            "#3e4451"@,
            "#61afef"@,
            "#282c34"@,
            "#e06c75"@,
            "#98c379"@,
            "#e5c07b"@,
            "#61afef"@,
            "#c678dd"@,
            "#56b6c2"@,
            "#abb2bf"@,
            "#5c6370"@,
            "#e06c75"@,
            "#98c379"@,
            "#e5c07b"@,
            "#61afef"@,
            "#c678dd"@,
            "#56b6c2"@,
            "#ffffff"@,
        ],
    ]
}

/// Dark variants of common schemes: the eight normal, then the eight bright colours, in the order
/// black, red, green, yellow, blue, magenta, cyan, white. The cursor follows the foreground; the
/// border has each scheme's accent colour.
pub fn color_presets() -> (ps: Vec<ColorPreset>)
    ensures
        ps@.map_values(|p: ColorPreset| p.table()) == preset_tables(),
{
    let ps = vec![
        ColorPreset {
            name: "Adwaita Dark",
            foreground: "#d0cfcc",
            background: "#171421",
            cursor: "#d0cfcc",
            selection: "#26436e",
            border: "#51a1ff",
            ansi: [
                "#241f31", "#c01c28", "#2ec27e", "#f5c211", "#1e78e4", "#9841bb", "#0ab9dc", "#c0bfbc",
                "#5e5c64", "#ed333b", "#57e389", "#f8e45c", "#51a1ff", "#c061cb", "#4fd2fd", "#f6f5f4",
            ],
        },
        ColorPreset {
            name: "Monokai",
            foreground: "#f8f8f2",
            background: "#272822",
            cursor: "#f8f8f2",
            selection: "#49483e",
            border: "#f92672",
            ansi: [
                "#272822", "#f92672", "#a6e22e", "#e6db74", "#66d9ef", "#ae81ff", "#a1efe4", "#f8f8f2",
                "#75715e", "#f92672", "#a6e22e", "#e6db74", "#66d9ef", "#ae81ff", "#a1efe4", "#f9f8f5",
            ],
        },
        ColorPreset {
            name: "Gruvbox Dark",
            foreground: "#ebdbb2",
            background: "#282828",
            cursor: "#ebdbb2",
            selection: "#504945",
            border: "#fe8019",
            ansi: [
                "#282828", "#cc241d", "#98971a", "#d79921", "#458588", "#b16286", "#689d6a", "#a89984",
                "#928374", "#fb4934", "#b8bb26", "#fabd2f", "#83a598", "#d3869b", "#8ec07c", "#ebdbb2",
            ],
        },
        ColorPreset {
            name: "Solarized Dark",
            foreground: "#839496",
            background: "#002b36",
            cursor: "#839496",
            selection: "#073642",
            border: "#268bd2",
            ansi: [
                "#073642", "#dc322f", "#859900", "#b58900", "#268bd2", "#d33682", "#2aa198", "#eee8d5",
                "#002b36", "#cb4b16", "#586e75", "#657b83", "#839496", "#6c71c4", "#93a1a1", "#fdf6e3",
            ],
        },
        ColorPreset {
            name: "One Dark",
            foreground: "#abb2bf",
            background: "#282c34",
            cursor: "#abb2bf",
            selection: "#3e4451",
            border: "#61afef",
            ansi: [
                "#282c34", "#e06c75", "#98c379", "#e5c07b", "#61afef", "#c678dd", "#56b6c2", "#abb2bf",
                "#5c6370", "#e06c75", "#98c379", "#e5c07b", "#61afef", "#c678dd", "#56b6c2", "#ffffff",
            ],
        },
    ];
    proof {
        let tables = ps@.map_values(|p: ColorPreset| p.table());
        assert forall|i: int| 0 <= i < 5 implies #[trigger] tables[i] == preset_tables()[i] by {
            assert(tables[i] =~= preset_tables()[i]);
        }
        assert(tables =~= preset_tables());
    }
    ps
}

/// The colours of the default scheme's base, as texts.
pub open spec fn default_base() -> Seq<Seq<char>> {
    color::base16().map_values(|c: Rgb| written(c))
}

impl Default for Colors {
    fn default() -> (c: Colors)
        ensures
            c.foreground@ == "#cccccc"@,
            c.background@ == "#0d0d10"@,
            c.cursor@ == "#cccccc"@,
            c.selection@ == "#334a6b"@,
            c.border@ == "#78a0ff"@,
            views(c.ansi@) == default_base(),
    {
        let base = default_ansi();
        let mut ansi: Vec<String> = Vec::new();
        let mut i: usize = 0;
        while i < 16
            invariant
                i <= 16,
                base@ == color::base16(),
                ansi@.len() == i,
                forall|k: int| 0 <= k < i ==> (#[trigger] ansi@[k])@ == written(base@[k]),
            decreases 16 - i,
        {
            ansi.push(write_hex(base[i]));
            i = i + 1;
        }
        assert(views(ansi@) =~= default_base());
        Colors {
            foreground: "#cccccc".to_owned(),
            background: "#0d0d10".to_owned(),
            cursor: "#cccccc".to_owned(),
            selection: "#334a6b".to_owned(),
            border: "#78a0ff".to_owned(),
            ansi,
        }
    }
}

impl Default for ConnectionProfile {
    fn default() -> (p: ConnectionProfile)
        ensures
            p.name is None,
            p.user@.len() == 0,
            p.host@.len() == 0,
            p.port == 22,
            !p.use_potty_session,
            p.env@.len() == 0,
            p.last_connected is None,
    {
        ConnectionProfile {
            name: None,
            user: String::new(),
            host: String::new(),
            port: 22,
            use_potty_session: false,
            env: Vec::new(),
            last_connected: None,
        }
    }
}

/// 15 points.
pub const DEFAULT_FONT_SIZE: Single = 0x4170_0000;

/// 13 points.
pub const DEFAULT_UI_FONT_SIZE: Single = 0x4150_0000;

/// 5 points.
pub const DEFAULT_PANE_PADDING: Single = 0x40a0_0000;

/// 0.15 of a cell.
pub const DEFAULT_CURSOR_THICKNESS: Single = 0x3e19_999a;

/// 6 points.
pub const MIN_FONT_SIZE: Single = 0x40c0_0000;

/// 48 points.
pub const MAX_FONT_SIZE: Single = 0x4240_0000;

impl Default for Config {
    fn default() -> (c: Config)
        ensures
            c.font_family is None,
            c.shell is None,
            c.font_size == DEFAULT_FONT_SIZE,
            c.ui_font_size == DEFAULT_UI_FONT_SIZE,
            c.osc52@ == "copy"@,
            c.pane_padding == DEFAULT_PANE_PADDING,
            c.cursor_shape@ == "block"@,
            !c.cursor_blink,
            c.cursor_thickness == DEFAULT_CURSOR_THICKNESS,
            c.remote_command@ == "potty-session"@,
            c.profiles@.len() == 0,
            c.hotkeys@.len() == 0,
            c.colors.foreground@ == "#cccccc"@,
            c.colors.background@ == "#0d0d10"@,
            c.colors.cursor@ == "#cccccc"@,
            c.colors.selection@ == "#334a6b"@,
            c.colors.border@ == "#78a0ff"@,
            views(c.colors.ansi@) == default_base(),
    {
        Config {
            font_family: None,
            shell: None,
            font_size: DEFAULT_FONT_SIZE,
            ui_font_size: DEFAULT_UI_FONT_SIZE,
            osc52: "copy".to_owned(),
            pane_padding: DEFAULT_PANE_PADDING,
            cursor_shape: "block".to_owned(),
            cursor_blink: false,
            cursor_thickness: DEFAULT_CURSOR_THICKNESS,
            remote_command: "potty-session".to_owned(),
            profiles: Vec::new(),
            hotkeys: Vec::new(),
            colors: Colors::default(),
        }
    }
}

/// The clipboard policy that a text names. Anything unknown is the safe one.
pub open spec fn policy_of(s: Seq<char>) -> Osc52 {
    if s == "disabled"@ {
        Osc52::Disabled
    } else if s == "paste"@ {
        Osc52::OnlyPaste
    } else if s == "copy-paste"@ {
        Osc52::CopyPaste
    } else {
        Osc52::OnlyCopy
    }
}

/// The cursor shape that a text names, whatever its case and the white space around it. Anything
/// unknown is a block.
pub open spec fn shape_of(s: Seq<char>) -> CursorShape {
    let t = text::ascii_lowered(text::trim(s));
    if t == "underline"@ || t == "underscore"@ {
        CursorShape::Underline
    } else if t == "beam"@ || t == "bar"@ {
        CursorShape::Beam
    } else {
        CursorShape::Block
    }
}

/// Every colour of a scheme can be read.
pub open spec fn readable(c: Colors) -> bool {
    &&& splits_in_pairs(c.foreground@)
    &&& splits_in_pairs(c.background@)
    &&& splits_in_pairs(c.cursor@)
    &&& splits_in_pairs(c.selection@)
    &&& forall|i: int| 0 <= i < c.ansi@.len() && i < 16 ==> splits_in_pairs(
        (#[trigger] c.ansi@[i])@,
    )
}

fn color_else(s: &str, default: Rgb) -> (c: Rgb)
    requires
        splits_in_pairs(s@),
    ensures
        c == color_or(s@, default),
{
    match parse_hex(s) {
        Some(c) => c,
        None => default,
    }
}

impl Colors {
    fn slot(&self, i: usize) -> (c: Rgb)
        requires
            i < 16,
            readable(*self),
        ensures
            c == ansi_slot(self.ansi@, i as int),
    {
        let base = default_ansi();
        if i < self.ansi.len() {
            color_else(self.ansi[i].as_str(), base[i])
        } else {
            base[i]
        }
    }

    /// Whether every colour can be read.
    pub fn can_read(&self) -> (ok: bool)
        ensures
            ok == readable(*self),
    {
        let mut i: usize = 0;
        while i < self.ansi.len() && i < 16
            invariant
                i <= self.ansi@.len(),
                i <= 16,
                forall|k: int| 0 <= k < i ==> splits_in_pairs((#[trigger] self.ansi@[k])@),
            decreases self.ansi.len() - i,
        {
            if !can_read_color(self.ansi[i].as_str()) {
                return false;
            }
            i = i + 1;
        }
        can_read_color(self.foreground.as_str()) && can_read_color(self.background.as_str())
            && can_read_color(self.cursor.as_str()) && can_read_color(self.selection.as_str())
    }
}

impl Config {
    /// Resolve the color scheme into the palette to draw with.
    pub fn palette(&self) -> (p: Palette)
        requires
            readable(self.colors),
        ensures
            p.fg == color_or(self.colors.foreground@, color::default_fg()),
            p.bg == color_or(self.colors.background@, color::default_bg()),
            p.cursor == color_or(self.colors.cursor@, color::default_fg()),
            p.selection == color_or(self.colors.selection@, color::default_selection()),
            forall|i: int| 0 <= i < 16 ==> #[trigger] p.ansi@[i] == ansi_slot(
                self.colors.ansi@,
                i,
            ),
    {
        let d = Palette::default();
        let c = &self.colors;
        Palette {
            fg: color_else(c.foreground.as_str(), d.fg),
            bg: color_else(c.background.as_str(), d.bg),
            cursor: color_else(c.cursor.as_str(), d.cursor),
            selection: color_else(c.selection.as_str(), d.selection),
            ansi: [
                c.slot(0),
                c.slot(1),
                c.slot(2),
                c.slot(3),
                c.slot(4),
                c.slot(5),
                c.slot(6),
                c.slot(7),
                c.slot(8),
                c.slot(9),
                c.slot(10),
                c.slot(11),
                c.slot(12),
                c.slot(13),
                c.slot(14),
                c.slot(15),
            ],
        }
    }

    /// The configured default cursor shape.
    pub fn cursor_shape(&self) -> (s: CursorShape)
        ensures
            s == shape_of(self.cursor_shape@),
    {
        let cs = chars_of(self.cursor_shape.as_str());
        let t = ascii_lower(trimmed(cs.as_slice()));
        if t == "underline".to_owned() || t == "underscore".to_owned() {
            CursorShape::Underline
        } else if t == "beam".to_owned() || t == "bar".to_owned() {
            CursorShape::Beam
        } else {
            CursorShape::Block
        }
    }

    /// The configured clipboard policy.
    pub fn clipboard_policy(&self) -> (p: Osc52)
        ensures
            p == policy_of(self.osc52@),
    {
        if self.osc52 == "disabled".to_owned() {
            Osc52::Disabled
        } else if self.osc52 == "paste".to_owned() {
            Osc52::OnlyPaste
        } else if self.osc52 == "copy-paste".to_owned() {
            Osc52::CopyPaste
        } else {
            Osc52::OnlyCopy
        }
    }

    /// Border colour of the focused pane.
    pub fn border(&self) -> (c: Rgb)
        requires
            splits_in_pairs(self.colors.border@),
        ensures
            c == color_or(self.colors.border@, color::default_border()),
    {
        color_else(self.colors.border.as_str(), Rgb { r: 0x78, g: 0xa0, b: 0xff })
    }

    /// Set the font size, kept between 6 and 48 points.
    pub fn set_font_size(&mut self, size: Single)
        ensures
            *final(self) == (Config {
                font_size: bits::clamped(size, MIN_FONT_SIZE, MAX_FONT_SIZE),
                ..*old(self)
            }),
    {
        self.font_size = bits::clamp(size, MIN_FONT_SIZE, MAX_FONT_SIZE);
    }

    /// Whether a new configuration has another font, so that every terminal has to be fitted anew.
    pub fn font_changed(&self, new: &Config) -> (b: bool)
        ensures
            b == other_font(*self, *new),
    {
        let same_family: bool = match (&self.font_family, &new.font_family) {
            (Some(a), Some(b)) => *a == *b,
            (None, None) => true,
            _ => false,
        };
        !same_family || !bits::same_number(new.font_size, self.font_size)
    }
}

/// A font's name, as text.
pub open spec fn family_of(c: Config) -> Option<Seq<char>> {
    match c.font_family {
        Some(f) => Some(f@),
        None => None,
    }
}

/// Two configurations whose fonts differ in family or size. A size that is no number differs from
/// every size.
pub open spec fn other_font(old: Config, new: Config) -> bool {
    family_of(old) != family_of(new) || !bits::equal_numbers(new.font_size, old.font_size)
}

} // verus!
