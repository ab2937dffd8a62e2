use potty::color::{Color, Palette, Rgb, BACKGROUND, FOREGROUND};
use potty::config::CursorShape;
use potty::grid::{
    ansi256, brighten, buffer_room, families, paint, prepare, resolve, scissor, Atlas, Glyphs,
    GridCell, GridCursor, Image, Place, ATLAS,
};

fn cell(c: char) -> GridCell {
    GridCell {
        line: 0,
        column: 0,
        c,
        fg: Color::Named(FOREGROUND),
        bg: Color::Named(BACKGROUND),
        bold: false,
        inverse: false,
        hidden: false,
        selected: false,
    }
}

fn unset() -> Vec<Option<Rgb>> {
    vec![None; 269]
}

#[test]
fn the_color_cube_and_the_greys() {
    assert_eq!(ansi256(16), Rgb { r: 0, g: 0, b: 0 });
    assert_eq!(ansi256(231), Rgb { r: 255, g: 255, b: 255 });
    assert_eq!(ansi256(196), Rgb { r: 255, g: 0, b: 0 });
    assert_eq!(ansi256(67), Rgb { r: 95, g: 135, b: 175 });
    assert_eq!(ansi256(232), Rgb { r: 8, g: 8, b: 8 });
    assert_eq!(ansi256(255), Rgb { r: 238, g: 238, b: 238 });
    assert_eq!(ansi256(3), Palette::default().ansi[3]);
}

#[test]
fn bold_brightens_the_first_eight() {
    assert_eq!(brighten(1, true), 9);
    assert_eq!(brighten(1, false), 1);
    assert_eq!(brighten(8, true), 8);
    let p = Palette::default();
    assert_eq!(resolve(Color::Named(1), &unset(), &p, true), p.ansi[9]);
    assert_eq!(resolve(Color::Indexed(1), &unset(), &p, true), p.ansi[9]);
    assert_eq!(resolve(Color::Named(BACKGROUND), &unset(), &p, true), p.bg);
}

#[test]
fn what_a_program_set_wins() {
    let p = Palette::default();
    let mut set = unset();
    let red = Rgb { r: 250, g: 1, b: 2 };
    set[4] = Some(red);
    set[FOREGROUND as usize] = Some(red);
    assert_eq!(resolve(Color::Indexed(4), &set, &p, false), red);
    assert_eq!(resolve(Color::Named(FOREGROUND), &set, &p, false), red);
    assert_eq!(resolve(Color::Indexed(5), &set, &p, false), p.ansi[5]);
}

#[test]
fn cells_are_painted_by_their_attributes() {
    let p = Palette::default();
    let plain = paint(&cell('x'), 0, &unset(), &p, None);
    assert_eq!(plain.fill, None);
    assert_eq!(plain.glyph.unwrap().color, p.fg);
    let inverse = paint(&GridCell { inverse: true, ..cell('x') }, 0, &unset(), &p, None);
    assert_eq!(inverse.fill, Some(p.fg));
    assert_eq!(inverse.glyph.unwrap().color, p.bg);
    let selected = paint(&GridCell { selected: true, ..cell('x') }, 0, &unset(), &p, None);
    assert_eq!(selected.fill, Some(p.selection));
    assert!(paint(&cell(' '), 0, &unset(), &p, None).glyph.is_none());
    assert_eq!(paint(&GridCell { line: -3, ..cell('x') }, 5, &unset(), &p, None).row, 2);
}

#[test]
fn a_cursor_is_a_block_or_a_strip() {
    let p = Palette::default();
    let at = |shape| Some(GridCursor { line: 0, column: 0, shape });
    let block = paint(&cell('x'), 0, &unset(), &p, at(CursorShape::Block));
    assert_eq!(block.fill, Some(p.cursor));
    let beam = paint(&cell('x'), 0, &unset(), &p, at(CursorShape::Beam));
    assert_eq!(beam.fill, None);
    assert_eq!(beam.strip.unwrap().color, p.cursor);
    let cells = vec![cell('x')];
    let off = prepare(&cells, 0, &unset(), &p, at(CursorShape::Block), false);
    assert_eq!(off.len(), 1);
    assert_eq!(off[0].fill, None);
}

#[test]
fn the_atlas_fills_row_by_row() {
    let mut a = Atlas::new();
    assert_eq!(a.allocate(10, 20), Some(Place { x: 0, y: 0, w: 10, h: 20 }));
    assert_eq!(a.allocate(5, 8), Some(Place { x: 11, y: 0, w: 5, h: 8 }));
    assert_eq!(a.allocate(ATLAS, 4), Some(Place { x: 0, y: 21, w: ATLAS, h: 4 }));
    assert_eq!(a.allocate(ATLAS + 1, 1), None);
    assert_eq!(a.allocate(1, ATLAS), None);
}

#[test]
fn a_glyph_is_rasterized_once() {
    let mut g = Glyphs::new();
    assert_eq!(g.find('a', false), None);
    let image = Image { w: 4, h: 6, left: 1, top: 5, mask: true };
    let kept = g.keep('a', false, Some(image)).unwrap();
    assert_eq!((kept.place.w, kept.place.h, kept.left, kept.top), (4, 6, 1, 5));
    assert_eq!(g.find('a', false), Some(Some(kept)));
    assert_eq!(g.find('a', true), None);
    assert_eq!(g.keep(' ', false, None), None);
    assert_eq!(g.find(' ', false), Some(None));
    g.clear();
    assert_eq!(g.find('a', false), None);
}

#[test]
fn a_pane_is_drawn_inside_the_window() {
    assert_eq!(scissor(10, 10, 50, 50, 40, 100), Some(Place { x: 10, y: 10, w: 30, h: 50 }));
    assert_eq!(scissor(50, 0, 10, 10, 40, 40), None);
    assert_eq!(scissor(0, 0, 0, 5, 10, 10), None);
    assert_eq!(buffer_room(16, 10), 16);
    assert_eq!(buffer_room(16, 17), 32);
}

#[test]
fn font_families_are_listed_once_in_order() {
    let faces = vec![
        (true, Some("B".to_string())),
        (false, Some("C".to_string())),
        (true, Some("A".to_string())),
        (true, None),
        (true, Some("B".to_string())),
    ];
    assert_eq!(families(&faces), ["A", "B"]);
}
