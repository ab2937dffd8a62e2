//! What is seen of a cell: its colours, its glyph, the selection and the cursor.

use crate::color;
use crate::color::{Color, Palette, Rgb};
use crate::grid::{
    color256, painted, prepare, resolve, resolved, scissor, Atlas, GlyphsView, GridCell, GridCursor,
    Image, Paint, Place,
};
use vstd::prelude::*;

verus! {

/// A colour that is given by its components is drawn as it is given, whatever the program or the
/// palette set, bold or not.
pub proof fn direct_colors_are_drawn_as_given(
    rgb: Rgb,
    overrides: Seq<Option<Rgb>>,
    p: Palette,
    bright: bool,
)
    ensures
        resolved(Color::Spec(rgb), overrides, p, bright).r == rgb.r,
        resolved(Color::Spec(rgb), overrides, p, bright).g == rgb.g,
        resolved(Color::Spec(rgb), overrides, p, bright).b == rgb.b,
{
}

/// So is one that is resolved in fact.
pub proof fn direct_colors_are_resolved_as_given(
    rgb: Rgb,
    overrides: Vec<Option<Rgb>>,
    p: Palette,
    bright: bool,
    out: Rgb,
)
    requires
        call_ensures(resolve, (Color::Spec(rgb), &overrides, &p, bright), out),
    ensures
        out.r == rgb.r && out.g == rgb.g && out.b == rgb.b,
{
}

/// The six levels of the colour cube.
pub open spec fn levels() -> Seq<u8> {
    seq![0u8, 95, 135, 175, 215, 255]
}

/// The cube of the 256 colours counts blue first, then green, then red, by six levels each.
pub proof fn the_cube_counts_its_levels(r: int, g: int, b: int)
    requires
        0 <= r < 6,
        0 <= g < 6,
        0 <= b < 6,
    ensures
        color256((16 + 36 * r + 6 * g + b) as u8).r == levels()[r],
        color256((16 + 36 * r + 6 * g + b) as u8).g == levels()[g],
        color256((16 + 36 * r + 6 * g + b) as u8).b == levels()[b],
{
    let n = 36 * r + 6 * g + b;
    assert(n / 36 == r && n / 6 % 6 == g && n % 6 == b) by (nonlinear_arith)
        requires
            n == 36 * r + 6 * g + b,
            0 <= r < 6,
            0 <= g < 6,
            0 <= b < 6,
    ;
}

/// The last 24 of the 256 colours are grays, from 8 on in steps of ten.
pub proof fn grays_rise_by_ten(k: int)
    requires
        0 <= k < 24,
    ensures
        color256((232 + k) as u8).r == 8 + 10 * k,
        color256((232 + k) as u8).g == 8 + 10 * k,
        color256((232 + k) as u8).b == 8 + 10 * k,
{
}

/// The eight standard colours and their bright variants: red, green and blue are on where the
/// number has the bit, and what is on in a bright one is brighter.
pub proof fn base_colors_go_by_their_bits(i: int)
    requires
        0 <= i < 8,
    ensures
        color::base16().len() == 16,
        (color::base16()[i].r > 200) == (i % 2 == 1),
        (color::base16()[i].g > 200) == (i / 2 % 2 == 1),
        (color::base16()[i].b > 200) == (i / 4 % 2 == 1),
        i > 0 && i < 7 ==> color::base16()[i].r == 0 || color::base16()[i].r == 205,
        i > 0 && i < 7 ==> color::base16()[i].g == 0 || color::base16()[i].g == 205,
        i > 0 ==> (color::base16()[i + 8].r == 255) == (i % 2 == 1),
        i > 0 ==> (color::base16()[i + 8].g == 255) == (i / 2 % 2 == 1),
        i > 0 ==> (color::base16()[i + 8].b == 255) == (i / 4 % 2 == 1),
        color::base16()[0] == (Rgb { r: 0, g: 0, b: 0 }),
        color::base16()[8] == (Rgb { r: 127, g: 127, b: 127 }),
        color::base16()[7] == (Rgb { r: 229, g: 229, b: 229 }),
        color::base16()[15] == (Rgb { r: 255, g: 255, b: 255 }),
{
}

/// An indexed colour is what the program set for it, else the palette's among the first sixteen and
/// the standard one among the others.
pub proof fn slots_are_looked_up(i: u8, overrides: Seq<Option<Rgb>>, p: Palette)
    ensures
        i < overrides.len() && overrides[i as int] is Some ==> resolved(
            Color::Indexed(i),
            overrides,
            p,
            false,
        ) == overrides[i as int]->0,
        (i >= overrides.len() || overrides[i as int] is None) && i < 16 ==> resolved(
            Color::Indexed(i),
            overrides,
            p,
            false,
        ) == p.ansi@[i as int],
        (i >= overrides.len() || overrides[i as int] is None) && i >= 16 ==> resolved(
            Color::Indexed(i),
            overrides,
            p,
            false,
        ) == color256(i),
        i < 16 ==> resolved(Color::Named(i as u16), overrides, p, false) == resolved(
            Color::Indexed(i),
            overrides,
            p,
            false,
        ),
        i < 8 ==> resolved(Color::Indexed(i), overrides, p, true) == resolved(
            Color::Indexed((i + 8) as u8),
            overrides,
            p,
            false,
        ),
{
}

/// The default colours are the palette's unless the program set them: the background is number 257
/// and the text colour 256.
pub proof fn defaults_come_from_the_palette(
    n: u16,
    overrides: Seq<Option<Rgb>>,
    p: Palette,
    bright: bool,
)
    requires
        n >= 16,
    ensures
        n < overrides.len() && overrides[n as int] is Some ==> resolved(
            Color::Named(n),
            overrides,
            p,
            bright,
        ) == overrides[n as int]->0,
        (n >= overrides.len() || overrides[n as int] is None) ==> resolved(
            Color::Named(n),
            overrides,
            p,
            bright,
        ) == if n == 257 {
            p.bg
        } else {
            p.fg
        },
{
}

/// A cell with nothing special about it shows its character in its text colour, over its own
/// background where that is not the palette's.
pub proof fn plain_cells_show_their_text(
    cell: GridCell,
    offset: u32,
    overrides: Seq<Option<Rgb>>,
    p: Palette,
)
    requires
        !cell.inverse,
        !cell.selected,
        !cell.hidden,
        cell.c != ' ' && cell.c != '\0',
    ensures
        ({
            let r = painted(cell, offset, overrides, p, None);
            &&& r.glyph is Some
            &&& r.glyph->0.c == cell.c
            &&& r.glyph->0.bold == cell.bold
            &&& r.glyph->0.color == resolved(cell.fg, overrides, p, cell.bold)
            &&& r.strip is None
            &&& match r.fill {
                Some(c) => c == resolved(cell.bg, overrides, p, false) && c != p.bg,
                None => resolved(cell.bg, overrides, p, false) == p.bg,
            }
        }),
{
}

/// A cell is drawn where it stands, moved down by as many lines as the view is up in the history.
pub proof fn cells_are_drawn_in_their_place(
    cell: GridCell,
    offset: u32,
    overrides: Seq<Option<Rgb>>,
    p: Palette,
    cursor: Option<GridCursor>,
)
    ensures
        painted(cell, offset, overrides, p, cursor).row == cell.line + offset,
        painted(cell, offset, overrides, p, cursor).column == cell.column,
{
}

/// Reverse video exchanges the two colours: what was the text's is behind it, and the other way
/// round.
pub proof fn reverse_video_exchanges_the_colors(
    cell: GridCell,
    offset: u32,
    overrides: Seq<Option<Rgb>>,
    p: Palette,
)
    requires
        cell.inverse,
        !cell.selected,
        !cell.hidden,
        cell.c != ' ' && cell.c != '\0',
    ensures
        ({
            let r = painted(cell, offset, overrides, p, None);
            &&& r.glyph is Some
            &&& r.glyph->0.color == resolved(cell.bg, overrides, p, false)
            &&& match r.fill {
                Some(c) => c == resolved(cell.fg, overrides, p, cell.bold) && c != p.bg,
                None => resolved(cell.fg, overrides, p, cell.bold) == p.bg,
            }
        }),
{
}

/// What is selected is filled with the selection's colour, and otherwise drawn as it is.
pub proof fn the_selection_is_behind_the_text(
    cell: GridCell,
    offset: u32,
    overrides: Seq<Option<Rgb>>,
    p: Palette,
    cursor: Option<GridCursor>,
)
    ensures
        ({
            let plain = GridCell { selected: false, ..cell };
            let marked = GridCell { selected: true, ..cell };
            let (a, b) = (
                painted(plain, offset, overrides, p, cursor),
                painted(marked, offset, overrides, p, cursor),
            );
            &&& a.glyph == b.glyph
            &&& a.strip == b.strip
            &&& cursor is None ==> b.fill == Some(p.selection)
        }),
{
}

/// A block cursor covers its cell, in its own colour, with the text in the background's. A beam and
/// an underline are drawn over the cell, which stays as it is. A hidden cursor, and one elsewhere,
/// changes nothing.
pub proof fn the_cursor_is_drawn_on_its_cell(
    cell: GridCell,
    offset: u32,
    overrides: Seq<Option<Rgb>>,
    p: Palette,
    cursor: GridCursor,
)
    ensures
        ({
            let none = painted(cell, offset, overrides, p, None);
            let r = painted(cell, offset, overrides, p, Some(cursor));
            let here = cursor.line == cell.line && cursor.column == cell.column;
            &&& none.strip is None
            &&& !here || cursor.shape is Hidden ==> r == none
            &&& here && (cursor.shape is Block || cursor.shape is HollowBlock) ==> r.fill == Some(
                p.cursor,
            ) && r.strip is None && (none.glyph is Some) == (r.glyph is Some) && (r.glyph is Some
                ==> r.glyph->0.color == p.bg && r.glyph->0.c == cell.c)
            &&& here && (cursor.shape is Beam || cursor.shape is Underline) ==> r.strip is Some
                && r.strip->0.shape == cursor.shape && r.strip->0.color == p.cursor && r.fill
                == none.fill && r.glyph == none.glyph
        }),
{
}

/// Blanks and hidden text draw no glyph; everything else does.
pub proof fn blanks_draw_no_glyph(
    cell: GridCell,
    offset: u32,
    overrides: Seq<Option<Rgb>>,
    p: Palette,
    cursor: Option<GridCursor>,
)
    ensures
        painted(cell, offset, overrides, p, cursor).glyph is None <==> cell.c == ' ' || cell.c
            == '\0' || cell.hidden,
        painted(cell, offset, overrides, p, cursor).glyph matches Some(i) ==> i.c == cell.c && i.bold
            == cell.bold,
{
}

/// Every cell of a pane is drawn, in order; the cursor only while it shows.
pub proof fn all_cells_are_drawn(
    cells: Vec<GridCell>,
    offset: u32,
    overrides: Vec<Option<Rgb>>,
    p: Palette,
    cursor: Option<GridCursor>,
    show: bool,
    out: Vec<Paint>,
)
    requires
        call_ensures(prepare, (&cells, offset, &overrides, &p, cursor, show), out),
    ensures
        out@.len() == cells@.len(),
        forall|i: int|
            0 <= i < cells@.len() ==> #[trigger] out@[i] == painted(
                cells@[i],
                offset,
                overrides@,
                p,
                if show {
                    cursor
                } else {
                    None
                },
            ),
{
}

/// A place is as large as what goes there, and inside the atlas of 1024 by 1024; the first thing
/// that fits gets one.
pub proof fn places_have_the_size_asked_for(a: Atlas, w: u32, h: u32)
    requires
        a.wf(),
    ensures
        a.place(w, h) matches Some(p) ==> p.w == w && p.h == h && p.x + w <= 1024 && p.y + h <= 1024,
        (a.x == 0 && a.y == 0 && a.row_h == 0) ==> (a.place(w, h) is Some <==> w <= 1024 && h
            <= 1024),
        a.x + w <= 1024 && a.y + h <= 1024 ==> a.place(w, h) is Some,
        a.place(w, h) is None && w <= 1024 && h <= 1024 ==> a.y + h > 1024 || a.x + w > 1024 && a.y
            + a.row_h + h > 1024,
{
}

/// What is kept of a glyph is what the rasterizer said of it; what is empty or no mask is not
/// drawn.
pub proof fn kept_glyphs_are_as_rasterized(g: GlyphsView, image: Option<Image>)
    ensures
        g.fitted(image) matches Some(k) ==> image is Some && k.left == image->0.left && k.top
            == image->0.top && k.place.w == image->0.w && k.place.h == image->0.h,
        image is None ==> g.fitted(image) is None,
        image matches Some(i) ==> (!i.mask || i.w == 0 || i.h == 0 ==> g.fitted(image) is None),
        image matches Some(i) ==> (i.mask && i.w > 0 && i.h > 0 && g.atlas.place(i.w, i.h) is Some
            ==> g.fitted(image) is Some),
        forall|c: char, bold: bool|
            image is None || !image->0.mask || image->0.w == 0 || image->0.h == 0 ==> (
            #[trigger] g.kept(c, bold, image)).atlas == g.atlas,
        forall|c: char, bold: bool|
            image is Some && image->0.mask && image->0.w > 0 && image->0.h > 0 ==> (
            #[trigger] g.kept(c, bold, image)).atlas == g.atlas.placed(image->0.w, image->0.h),
{
}

/// What is cut off at a surface's edge lies on the surface, begins where it was asked to, and ends
/// there or at the edge.
pub proof fn scissors_cut_at_the_edge(
    x: u32,
    y: u32,
    w: u32,
    h: u32,
    sw: u32,
    sh: u32,
    r: Option<Place>,
)
    requires
        call_ensures(scissor, (x, y, w, h, sw, sh), r),
    ensures
        r is None <==> w == 0 || h == 0 || x >= sw || y >= sh,
        r matches Some(p) ==> p.x == x && p.y == y && p.w > 0 && p.h > 0 && (p.x + p.w == x + w
            && p.x + p.w <= sw || p.x + p.w == sw && sw < x + w) && (p.y + p.h == y + h && p.y + p.h
            <= sh || p.y + p.h == sh && sh < y + h),
{
}

/// Names are in the order of their first difference, and one that goes on comes behind.
pub proof fn names_are_ordered_as_in_a_dictionary(
    p: Seq<char>,
    a: Seq<char>,
    b: Seq<char>,
    x: char,
    y: char,
)
    ensures
        x < y ==> crate::grid::precedes(p.push(x) + a, p.push(y) + b),
        x > y ==> !crate::grid::precedes(p.push(x) + a, p.push(y) + b),
        crate::grid::precedes(p, p.push(x) + a),
        !crate::grid::precedes(p.push(x) + a, p),
        !crate::grid::precedes(p, p),
    decreases p.len(),
{
    let (s, t) = (p.push(x) + a, p.push(y) + b);
    if p.len() > 0 {
        let q = p.skip(1);
        names_are_ordered_as_in_a_dictionary(q, a, b, x, y);
        assert(s.skip(1) =~= q.push(x) + a);
        assert(t.skip(1) =~= q.push(y) + b);
        assert(s[0] == p[0] && t[0] == p[0]);
    } else {
        assert(s[0] == x && t[0] == y);
    }
}

/// The picker offers each monospaced family once, and in order.
pub proof fn families_are_offered_in_order(
    faces: Vec<(bool, Option<String>)>,
    r: Vec<String>,
    i: int,
    j: int,
)
    requires
        call_ensures(crate::grid::families, (&faces,), r),
        0 <= i < j < r@.len(),
    ensures
        crate::grid::precedes(r@[i]@, r@[j]@),
        r@[i]@ != r@[j]@,
{
    let v = crate::grid::name_views(r@);
    assert(v[i] == r@[i]@ && v[j] == r@[j]@);
    names_are_ordered_as_in_a_dictionary(r@[i]@, seq![], seq![], 'a', 'a');
}

} // verus!
