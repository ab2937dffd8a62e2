use potty::bits::{clamp, same_number};
use potty::color::Rgb;
use potty::config::{
    can_read_color, color_presets, parse_hex, write_hex, Colors, Config, ConnectionProfile,
    CursorShape, Osc52,
};
use potty::profiles::{
    clean_profile_name, connect_profile_views, parse_host, profile_target, remember, MAX_PROFILES,
};

fn rgb(r: u8, g: u8, b: u8) -> Rgb {
    Rgb { r, g, b }
}

#[test]
fn the_defaults_are_the_documented_ones() {
    let c = Config::default();
    assert_eq!(f32::from_bits(c.font_size), 15.0);
    assert_eq!(f32::from_bits(c.ui_font_size), 13.0);
    assert_eq!(f32::from_bits(c.pane_padding), 5.0);
    assert_eq!(f32::from_bits(c.cursor_thickness), 0.15);
    assert_eq!(c.osc52, "copy");
    assert_eq!(c.remote_command, "potty-session");
    assert_eq!(c.colors, Colors::default());
    assert_eq!(c.colors.background, "#0d0d10");
    assert_eq!(c.colors.ansi.len(), 16);
    assert_eq!(ConnectionProfile::default().port, 22);
}

#[test]
fn colors_are_read_from_hex() {
    assert_eq!(parse_hex("#ff8000"), Some(rgb(255, 128, 0)));
    assert_eq!(parse_hex("  ##00ff00 "), Some(rgb(0, 255, 0)));
    assert_eq!(parse_hex("FF8000"), Some(rgb(255, 128, 0)));
    assert_eq!(parse_hex("+1+2+3"), Some(rgb(1, 2, 3)));
    assert_eq!(parse_hex("#ff80"), None);
    assert_eq!(parse_hex("gggggg"), None);
    assert!(can_read_color("#ff8000"));
    assert_eq!(write_hex(rgb(1, 171, 255)), "#01abff");
    assert_eq!(parse_hex(&write_hex(rgb(9, 8, 7))), Some(rgb(9, 8, 7)));
}

#[test]
fn a_color_that_would_be_cut_inside_a_letter_is_told_apart() {
    assert!(!can_read_color("aéabc"));
    assert!(can_read_color("ééé"));
    assert_eq!(parse_hex("ééé"), None);
    let mut c = Colors::default();
    assert!(c.can_read());
    c.cursor = "aéabc".to_string();
    assert!(!c.can_read());
}

#[test]
fn the_palette_falls_back_color_by_color() {
    let mut c = Config::default();
    c.colors.foreground = "nonsense".to_string();
    c.colors.background = "#102030".to_string();
    c.colors.ansi = vec!["#010203".to_string(), "bad".to_string()];
    assert!(c.colors.can_read());
    let p = c.palette();
    let d = Config::default().palette();
    assert_eq!(p.fg, rgb(0xcc, 0xcc, 0xcc));
    assert_eq!(p.bg, rgb(0x10, 0x20, 0x30));
    assert_eq!(p.ansi[0], rgb(1, 2, 3));
    assert_eq!(p.ansi[1..], d.ansi[1..]);
    assert_eq!(c.border(), rgb(0x78, 0xa0, 0xff));
}

#[test]
fn written_choices_are_understood() {
    let mut c = Config::default();
    for (text, shape) in [
        (" Underscore ", CursorShape::Underline),
        ("bar", CursorShape::Beam),
        ("BEAM", CursorShape::Beam),
        ("block", CursorShape::Block),
        ("?", CursorShape::Block),
    ] {
        c.cursor_shape = text.to_string();
        assert_eq!(c.cursor_shape(), shape);
    }
    for (text, policy) in [
        ("copy", Osc52::OnlyCopy),
        ("copy-paste", Osc52::CopyPaste),
        ("paste", Osc52::OnlyPaste),
        ("disabled", Osc52::Disabled),
    ] {
        c.osc52 = text.to_string();
        assert_eq!(c.clipboard_policy(), policy);
    }
}

#[test]
fn the_font_size_stays_usable() {
    let mut c = Config::default();
    for (set, kept) in [(20.0f32, 20.0f32), (1.0, 6.0), (100.0, 48.0)] {
        c.set_font_size(set.to_bits());
        assert_eq!(f32::from_bits(c.font_size), kept);
    }
    c.set_font_size(f32::NAN.to_bits());
    assert!(f32::from_bits(c.font_size).is_nan());
    let (low, high) = (1.0f32.to_bits(), 2.0f32.to_bits());
    assert_eq!(f32::from_bits(clamp((-3.5f32).to_bits(), low, high)), 1.0);
    assert_eq!(f32::from_bits(clamp(1.5f32.to_bits(), low, high)), 1.5);
    assert!(same_number(0.0f32.to_bits(), (-0.0f32).to_bits()));
    assert!(!same_number(f32::NAN.to_bits(), f32::NAN.to_bits()));
}

#[test]
fn a_font_change_is_noticed() {
    let a = Config::default();
    let mut b = Config::default();
    assert!(!a.font_changed(&b));
    b.font_family = Some("Mono".to_string());
    assert!(a.font_changed(&b));
    b.font_family = None;
    b.font_size = 16.0f32.to_bits();
    assert!(a.font_changed(&b));
}

#[test]
fn every_preset_is_complete() {
    let ps = color_presets();
    assert!(!ps.is_empty());
    for p in &ps {
        let c = p.colors();
        assert_eq!(c.ansi.len(), 16);
        assert!(c.ansi.iter().all(|h| parse_hex(h).is_some()));
        assert_eq!(c.foreground, p.foreground);
    }
    assert_eq!(ps[0].name, "Adwaita Dark");
    assert_eq!(ps[0].foreground, "#d0cfcc");
}

#[test]
fn targets_are_read_and_written() {
    let read = |s: &str| parse_host(s, "me");
    let part = |u: &str, h: &str, p: u16| (u.to_string(), h.to_string(), p);
    assert_eq!(read(" u@h:2222 "), part("u", "h", 2222));
    assert_eq!(read("h"), part("me", "h", 22));
    assert_eq!(read("u@h:x"), part("u", "h", 22));
    assert_eq!(read("a@b@c"), part("a", "b@c", 22));
    let mut p = ConnectionProfile { host: "h".to_string(), ..ConnectionProfile::default() };
    assert_eq!(profile_target(&p), "h");
    p.user = "u".to_string();
    p.port = 2222;
    assert_eq!(profile_target(&p), "u@h:2222");
    assert_eq!(clean_profile_name("  box "), Some("box".to_string()));
    assert_eq!(clean_profile_name("   "), None);
}

#[test]
fn connections_are_remembered_newest_first() {
    let mut ps = Vec::new();
    let host = |n: usize| format!("h{n}");
    for n in 0..MAX_PROFILES + 3 {
        remember(&mut ps, None, &"u".to_string(), &host(n), 22, true, n as u64);
    }
    assert_eq!(ps.len(), MAX_PROFILES);
    assert_eq!(ps[0].host, host(MAX_PROFILES + 2));
    remember(&mut ps, Some("x".to_string()), &"u".to_string(), &host(10), 22, false, 99);
    assert_eq!(ps.len(), MAX_PROFILES);
    assert_eq!((ps[0].host.clone(), ps[0].name.clone()), (host(10), Some("x".to_string())));
    assert!(!ps[0].use_potty_session);
    let rows = connect_profile_views(&ps);
    assert_eq!((rows[0].index, rows[0].label.as_str(), rows[0].detail.as_str()), (0, "x", "u@h10"));
    assert_eq!(rows[1].label, rows[1].detail);
}

#[test]
fn profiles_without_a_host_are_not_offered() {
    let ps = vec![
        ConnectionProfile { host: "  ".to_string(), ..ConnectionProfile::default() },
        ConnectionProfile { host: "b".to_string(), ..ConnectionProfile::default() },
    ];
    let rows = connect_profile_views(&ps);
    assert_eq!(rows.len(), 1);
    assert_eq!(rows[0].index, 1);
}
