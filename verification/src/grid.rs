//! What the grid renderer draws: the colour of every cell, the place of every glyph in the atlas,
//! and the families that the font picker offers.

use crate::color;
use crate::color::{Color, Palette, Rgb, BACKGROUND};
use crate::config::CursorShape;
use std::collections::HashMap;
use vstd::arithmetic::power2::*;
use vstd::prelude::*;

verus! {

/// The side of the square glyph atlas.
pub const ATLAS: u32 = 1024;

/// A base colour of bold text: one of the eight standard ones becomes its bright variant.
pub open spec fn brightened(i: u8, bright: bool) -> u8 {
    if bright && i < 8 {
        (i + 8) as u8
    } else {
        i
    }
}

/// Promote one of the 8 standard ANSI colors to its bright variant (for bold text).
pub fn brighten(i: u8, bright: bool) -> (r: u8)
    ensures
        r == brightened(i, bright),
{
    if bright && i < 8 {
        i + 8
    } else {
        i
    }
}

/// A level of the colour cube: 0, and then even steps from 95 to 255.
pub open spec fn cube_step(v: int) -> u8 {
    (if v == 0 {
        0
    } else {
        v * 40 + 55
    }) as u8
}

/// The 256-color palette: 16 base colours, a cube of 6 by 6 by 6, and 24 grays.
pub open spec fn color256(i: u8) -> Rgb {
    if i < 16 {
        color::base16()[i as int]
    } else if i < 232 {
        Rgb {
            r: cube_step((i - 16) / 36),
            g: cube_step((i - 16) / 6 % 6),
            b: cube_step((i - 16) % 6),
        }
    } else {
        let v = ((i - 232) * 10 + 8) as u8;
        Rgb { r: v, g: v, b: v }
    }
}

fn step(v: u8) -> (r: u8)
    requires
        v <= 5,
    ensures
        r == cube_step(v as int),
{
    if v == 0 {
        0
    } else {
        v * 40 + 55
    }
}

/// Standard 256-color palette.
pub fn ansi256(i: u8) -> (c: Rgb)
    ensures
        c == color256(i),
{
    if i < 16 {
        color::default_ansi()[i as usize]
    } else if i < 232 {
        let n: u8 = i - 16;
        Rgb { r: step(n / 36), g: step((n / 6) % 6), b: step(n % 6) }
    } else {
        let v: u8 = (i - 232) * 10 + 8;
        Rgb { r: v, g: v, b: v }
    }
}

/// The colour that the program set for a slot, if any.
pub open spec fn set_color(overrides: Seq<Option<Rgb>>, i: int) -> Option<Rgb> {
    if 0 <= i < overrides.len() {
        overrides[i]
    } else {
        None
    }
}

/// The colour of a slot of the 256.
pub open spec fn slot_color(i: u8, overrides: Seq<Option<Rgb>>, p: Palette) -> Rgb {
    match set_color(overrides, i as int) {
        Some(c) => c,
        None => if i < 16 {
            p.ansi@[i as int]
        } else {
            color256(i)
        },
    }
}

/// A cell colour as it is drawn. What the program set wins; otherwise the palette applies.
pub open spec fn resolved(c: Color, overrides: Seq<Option<Rgb>>, p: Palette, bright: bool) -> Rgb {
    match c {
        Color::Spec(rgb) => rgb,
        Color::Indexed(i) => slot_color(brightened(i, bright), overrides, p),
        Color::Named(n) => if n < 16 {
            slot_color(brightened(n as u8, bright), overrides, p)
        } else {
            match set_color(overrides, n as int) {
                Some(c) => c,
                None => if n == BACKGROUND {
                    p.bg
                } else {
                    p.fg
                },
            }
        },
    }
}

fn override_of(overrides: &Vec<Option<Rgb>>, i: usize) -> (c: Option<Rgb>)
    ensures
        c == set_color(overrides@, i as int),
{
    if i < overrides.len() {
        overrides[i]
    } else {
        None
    }
}

fn slot(i: u8, overrides: &Vec<Option<Rgb>>, p: &Palette) -> (c: Rgb)
    ensures
        c == slot_color(i, overrides@, *p),
{
    match override_of(overrides, i as usize) {
        Some(c) => c,
        None => {
            if i < 16 {
                p.ansi[i as usize]
            } else {
                ansi256(i)
            }
        },
    }
}

/// Resolve a cell color. `bright` (bold text) promotes the 8 base ANSI colors.
pub fn resolve(c: Color, overrides: &Vec<Option<Rgb>>, p: &Palette, bright: bool) -> (rgb: Rgb)
    ensures
        rgb == resolved(c, overrides@, *p, bright),
{
    match c {
        Color::Spec(rgb) => rgb,
        Color::Indexed(i) => slot(brighten(i, bright), overrides, p),
        Color::Named(n) => {
            if n < 16 {
                slot(brighten(n as u8, bright), overrides, p)
            } else {
                match override_of(overrides, n as usize) {
                    Some(c) => c,
                    None => {
                        if n == BACKGROUND {
                            p.bg
                        } else {
                            p.fg
                        }
                    },
                }
            }
        },
    }
}

/// A cell of the visible grid.
#[derive(Debug, Clone, Copy, PartialEq, Eq, Structural)]
pub struct GridCell {
    pub line: i32,
    pub column: u32,
    pub c: char,
    pub fg: Color,
    pub bg: Color,
    pub bold: bool,
    pub inverse: bool,
    pub hidden: bool,
    pub selected: bool,
}

/// A cursor and its shape.
#[derive(Debug, Clone, Copy, PartialEq, Eq, Structural)]
pub struct GridCursor {
    pub line: i32,
    pub column: u32,
    pub shape: CursorShape,
}

/// What is drawn for a cell, and where in the viewport.
#[derive(Debug, Clone, Copy, PartialEq, Eq, Structural)]
pub struct Paint {
    pub row: i64,
    pub column: u32,
    /// The colour that fills the cell.
    pub fill: Option<Rgb>,
    /// An underline or beam cursor, in its colour.
    pub strip: Option<Strip>,
    pub glyph: Option<Ink>,
}

/// A cursor that covers part of its cell.
#[derive(Debug, Clone, Copy, PartialEq, Eq, Structural)]
pub struct Strip {
    pub shape: CursorShape,
    pub color: Rgb,
}

/// A glyph in its face and colour.
#[derive(Debug, Clone, Copy, PartialEq, Eq, Structural)]
pub struct Ink {
    pub c: char,
    pub bold: bool,
    pub color: Rgb,
}

/// How a cursor covers its cell: an underline and a beam in part, the others whole.
pub open spec fn covering(shape: CursorShape) -> Option<CursorShape> {
    match shape {
        CursorShape::Hidden => None,
        CursorShape::Underline => Some(CursorShape::Underline),
        CursorShape::Beam => Some(CursorShape::Beam),
        CursorShape::Block => Some(CursorShape::Block),
        CursorShape::HollowBlock => Some(CursorShape::Block),
    }
}

/// The cursor on a cell, where it is there and to be seen.
pub open spec fn cursor_on(cell: GridCell, cursor: Option<GridCursor>) -> Option<CursorShape> {
    match cursor {
        Some(k) => if k.line == cell.line && k.column == cell.column {
            covering(k.shape)
        } else {
            None
        },
        None => None,
    }
}

/// The text colour of a cell: the other one in reverse video, and the background's under a block
/// cursor.
pub open spec fn ink_color(
    cell: GridCell,
    overrides: Seq<Option<Rgb>>,
    p: Palette,
    cursor: Option<GridCursor>,
) -> Rgb {
    if cursor_on(cell, cursor) == Some(CursorShape::Block) {
        p.bg
    } else if cell.inverse {
        resolved(cell.bg, overrides, p, false)
    } else {
        resolved(cell.fg, overrides, p, cell.bold)
    }
}

/// What fills a cell: a block cursor, else the selection, else its background where that is not
/// the palette's.
pub open spec fn fill_color(
    cell: GridCell,
    overrides: Seq<Option<Rgb>>,
    p: Palette,
    cursor: Option<GridCursor>,
) -> Option<Rgb> {
    let bg = if cell.inverse {
        resolved(cell.fg, overrides, p, cell.bold)
    } else {
        resolved(cell.bg, overrides, p, false)
    };
    if cursor_on(cell, cursor) == Some(CursorShape::Block) {
        Some(p.cursor)
    } else if cell.selected {
        Some(p.selection)
    } else if bg != p.bg {
        Some(bg)
    } else {
        None
    }
}

/// What is drawn for a cell when the viewport is moved `offset` lines into the history.
pub open spec fn painted(
    cell: GridCell,
    offset: u32,
    overrides: Seq<Option<Rgb>>,
    p: Palette,
    cursor: Option<GridCursor>,
) -> Paint {
    let on = cursor_on(cell, cursor);
    Paint {
        row: (cell.line + offset) as i64,
        column: cell.column,
        fill: fill_color(cell, overrides, p, cursor),
        strip: match on {
            Some(shape) => if shape == CursorShape::Block {
                None
            } else {
                Some(Strip { shape, color: p.cursor })
            },
            None => None,
        },
        glyph: if cell.c == ' ' || cell.c == '\0' || cell.hidden {
            None
        } else {
            Some(Ink { c: cell.c, bold: cell.bold, color: ink_color(cell, overrides, p, cursor) })
        },
    }
}

/// Decide what is drawn for one cell.
pub fn paint(
    cell: &GridCell,
    offset: u32,
    overrides: &Vec<Option<Rgb>>,
    p: &Palette,
    cursor: Option<GridCursor>,
) -> (r: Paint)
    ensures
        r == painted(*cell, offset, overrides@, *p, cursor),
{
    let mut ink: Rgb = resolve(cell.fg, overrides, p, cell.bold);
    let mut bg: Rgb = resolve(cell.bg, overrides, p, false);
    if cell.inverse {
        let other: Rgb = ink;
        ink = bg;
        bg = other;
    }
    let mut fill: Option<Rgb> = None;
    if bg != p.bg {
        fill = Some(bg);
    }
    if cell.selected {
        fill = Some(p.selection);
    }
    let mut strip: Option<Strip> = None;
    match cursor {
        Some(k) => {
            if k.line == cell.line && k.column == cell.column {
                match k.shape {
                    CursorShape::Hidden => {},
                    CursorShape::Underline => {
                        strip = Some(Strip { shape: CursorShape::Underline, color: p.cursor });
                    },
                    CursorShape::Beam => {
                        strip = Some(Strip { shape: CursorShape::Beam, color: p.cursor });
                    },
                    _ => {
                        fill = Some(p.cursor);
                        ink = p.bg;
                    },
                }
            }
        },
        None => {},
    }
    let glyph: Option<Ink> = if cell.c == ' ' || cell.c == '\0' || cell.hidden {
        None
    } else {
        Some(Ink { c: cell.c, bold: cell.bold, color: ink })
    };
    Paint { row: cell.line as i64 + offset as i64, column: cell.column, fill, strip, glyph }
}

/// Decide what is drawn for the visible cells of a pane. The cursor is drawn only while the
/// program shows it and it is not in the dark half of a blink.
pub fn prepare(
    cells: &Vec<GridCell>,
    offset: u32,
    overrides: &Vec<Option<Rgb>>,
    p: &Palette,
    cursor: Option<GridCursor>,
    show_cursor: bool,
) -> (r: Vec<Paint>)
    ensures
        r@ == cells@.map_values(
            |c: GridCell|
                painted(
                    c,
                    offset,
                    overrides@,
                    *p,
                    if show_cursor {
                        cursor
                    } else {
                        None
                    },
                ),
        ),
{
    let shown: Option<GridCursor> = if show_cursor {
        cursor
    } else {
        None
    };
    let mut r: Vec<Paint> = Vec::new();
    for i in 0..cells.len()
        invariant
            r@.len() == i,
            forall|k: int|
                0 <= k < i ==> #[trigger] r@[k] == painted(
                    cells@[k],
                    offset,
                    overrides@,
                    *p,
                    shown,
                ),
    {
        r.push(paint(&cells[i], offset, overrides, p, shown));
    }
    assert(r@ =~= cells@.map_values(
        |c: GridCell|
            painted(
                c,
                offset,
                overrides@,
                *p,
                if show_cursor {
                    cursor
                } else {
                    None
                },
            ),
    ));
    r
}

/// A place in the atlas.
#[derive(Debug, Clone, Copy, PartialEq, Eq, Structural)]
pub struct Place {
    pub x: u32,
    pub y: u32,
    pub w: u32,
    pub h: u32,
}

/// Simple shelf packer over one square texture: the next free spot on the current shelf, and how
/// tall the shelf is.
#[derive(Debug, Clone, Copy, PartialEq, Eq, Structural)]
pub struct Atlas {
    pub x: u32,
    pub y: u32,
    pub row_h: u32,
}

impl Atlas {
    /// The shelf stays within the texture, but for the gap behind it.
    pub open spec fn wf(self) -> bool {
        self.x <= ATLAS + 1 && self.y + self.row_h <= ATLAS + 1
    }

    /// The shelf that something of a width goes to: the current one while it has room, else the
    /// next.
    pub open spec fn shelf(self, w: int) -> Atlas {
        if self.x + w > ATLAS {
            Atlas { x: 0, y: (self.y + self.row_h) as u32, row_h: 0 }
        } else {
            self
        }
    }

    /// Where something of the size goes.
    pub open spec fn place(self, w: u32, h: u32) -> Option<Place> {
        let s = self.shelf(w as int);
        if w > ATLAS || h > ATLAS || s.y + h > ATLAS {
            None
        } else {
            Some(Place { x: s.x, y: s.y, w, h })
        }
    }

    /// The atlas after it.
    pub open spec fn placed(self, w: u32, h: u32) -> Atlas {
        let s = self.shelf(w as int);
        if w > ATLAS || h > ATLAS {
            self
        } else if s.y + h > ATLAS {
            s
        } else {
            Atlas {
                x: (s.x + w + 1) as u32,
                y: s.y,
                row_h: if s.row_h > h + 1 {
                    s.row_h
                } else {
                    (h + 1) as u32
                },
            }
        }
    }

    /// An empty atlas.
    pub fn new() -> (a: Atlas)
        ensures
            a == (Atlas { x: 0, y: 0, row_h: 0 }),
            a.wf(),
    {
        Atlas { x: 0, y: 0, row_h: 0 }
    }

    /// Find a place. There is none once the texture is full.
    pub fn allocate(&mut self, w: u32, h: u32) -> (r: Option<Place>)
        requires
            old(self).wf(),
        ensures
            final(self).wf(),
            r == old(self).place(w, h),
            *final(self) == old(self).placed(w, h),
    {
        if w > ATLAS || h > ATLAS {
            return None;
        }
        if self.x + w > ATLAS {
            self.x = 0;
            self.y = self.y + self.row_h;
            self.row_h = 0;
        }
        if self.y + h > ATLAS {
            return None;
        }
        let p = Place { x: self.x, y: self.y, w, h };
        self.x = self.x + (w + 1);
        if self.row_h <= h + 1 {
            self.row_h = h + 1;
        }
        Some(p)
    }
}

/// The places given to a sequence of sizes.
pub open spec fn places(a: Atlas, sizes: Seq<(u32, u32)>) -> Seq<Option<Place>>
    decreases sizes.len(),
{
    if sizes.len() == 0 {
        seq![]
    } else {
        let (w, h) = sizes[0];
        seq![a.place(w, h)] + places(a.placed(w, h), sizes.skip(1))
    }
}

/// Two places with no pixel in common, not even at their edges.
pub open spec fn apart(p: Place, q: Place) -> bool {
    p.x + p.w < q.x || q.x + q.w < p.x || p.y + p.h < q.y || q.y + q.h < p.y
}

/// A place that the packer has left behind.
pub open spec fn behind(a: Atlas, p: Place) -> bool {
    p.y + p.h < a.y || (p.y == a.y && p.x + p.w < a.x && p.h < a.row_h)
}

/// A place inside the texture.
pub open spec fn inside(p: Place) -> bool {
    p.x + p.w <= ATLAS && p.y + p.h <= ATLAS
}

proof fn lemma_placed(a: Atlas, w: u32, h: u32, old_place: Place)
    requires
        a.wf(),
    ensures
        a.placed(w, h).wf(),
        a.place(w, h) matches Some(p) ==> inside(p) && behind(a.placed(w, h), p),
        behind(a, old_place) ==> behind(a.placed(w, h), old_place),
        behind(a, old_place) ==> (a.place(w, h) matches Some(p) ==> apart(old_place, p)),
{
}

proof fn lemma_places(a: Atlas, sizes: Seq<(u32, u32)>, before: Place)
    requires
        a.wf(),
        behind(a, before),
    ensures
        places(a, sizes).len() == sizes.len(),
        forall|j: int|
            0 <= j < sizes.len() ==> (#[trigger] places(a, sizes)[j] matches Some(q) ==> apart(
                before,
                q,
            )),
    decreases sizes.len(),
{
    if sizes.len() > 0 {
        let (w, h) = sizes[0];
        lemma_placed(a, w, h, before);
        lemma_places(a.placed(w, h), sizes.skip(1), before);
        let rest = places(a.placed(w, h), sizes.skip(1));
        assert forall|j: int| 0 <= j < sizes.len() implies (#[trigger] places(a, sizes)[j] matches Some(
            q,
        ) ==> apart(before, q)) by {
            if j > 0 {
                assert(places(a, sizes)[j] == rest[j - 1]);
            }
        }
    }
}

/// Glyphs never overlap in the atlas, however many are asked for and of whatever sizes, and each
/// lies inside it.
pub proof fn glyphs_never_overlap(a: Atlas, sizes: Seq<(u32, u32)>, i: int, j: int)
    requires
        a.wf(),
        0 <= i < j < sizes.len(),
    ensures
        places(a, sizes).len() == sizes.len(),
        places(a, sizes)[i] matches Some(p) ==> inside(p),
        places(a, sizes)[i] is Some && places(a, sizes)[j] is Some ==> apart(
            places(a, sizes)[i]->0,
            places(a, sizes)[j]->0,
        ),
    decreases sizes.len(),
{
    let (w, h) = sizes[0];
    let next = a.placed(w, h);
    let rest = places(next, sizes.skip(1));
    lemma_placed(a, w, h, Place { x: 0, y: 0, w: 0, h: 0 });
    if i == 0 {
        lemma_len(next, sizes.skip(1));
        if a.place(w, h) is Some {
            lemma_places(next, sizes.skip(1), a.place(w, h)->0);
        }
        assert(places(a, sizes)[j] == rest[j - 1]);
    } else {
        glyphs_never_overlap(next, sizes.skip(1), i - 1, j - 1);
        assert(places(a, sizes)[i] == rest[i - 1]);
        assert(places(a, sizes)[j] == rest[j - 1]);
    }
}

proof fn lemma_len(a: Atlas, sizes: Seq<(u32, u32)>)
    ensures
        places(a, sizes).len() == sizes.len(),
    decreases sizes.len(),
{
    if sizes.len() > 0 {
        let (w, h) = sizes[0];
        lemma_len(a.placed(w, h), sizes.skip(1));
    }
}

/// A rasterized glyph: its size, where it is placed from the pen, and whether it is a plain mask.
#[derive(Debug, Clone, Copy, PartialEq, Eq, Structural)]
pub struct Image {
    pub w: u32,
    pub h: u32,
    pub left: i32,
    pub top: i32,
    pub mask: bool,
}

/// A glyph in the atlas.
#[derive(Debug, Clone, Copy, PartialEq, Eq, Structural)]
pub struct Glyph {
    pub place: Place,
    pub left: i32,
    pub top: i32,
}

/// The number under which a character in a face is remembered.
pub open spec fn glyph_key(c: char, bold: bool) -> u64 {
    (2 * (c as u32) + if bold {
        1int
    } else {
        0
    }) as u64
}

/// Rasterized glyphs. One that cannot be drawn is remembered as such.
#[derive(Debug)]
pub struct Glyphs {
    map: HashMap<u64, Option<Glyph>>,
    atlas: Atlas,
}

pub struct GlyphsView {
    pub map: Map<u64, Option<Glyph>>,
    pub atlas: Atlas,
}

impl View for Glyphs {
    type V = GlyphsView;

    closed spec fn view(&self) -> GlyphsView {
        GlyphsView { map: self.map@, atlas: self.atlas }
    }
}

/// Whether an image can be drawn: a mask with at least a pixel.
pub open spec fn drawable(image: Option<Image>) -> bool {
    image matches Some(i) && i.mask && i.w > 0 && i.h > 0
}

impl GlyphsView {
    /// What is remembered of a glyph: nothing, that it cannot be drawn, or where it is.
    pub open spec fn known(self, c: char, bold: bool) -> Option<Option<Glyph>> {
        if self.map.contains_key(glyph_key(c, bold)) {
            Some(self.map[glyph_key(c, bold)])
        } else {
            None
        }
    }

    /// The glyph that an image becomes.
    pub open spec fn fitted(self, image: Option<Image>) -> Option<Glyph> {
        if drawable(image) {
            match self.atlas.place(image->0.w, image->0.h) {
                Some(place) => Some(Glyph { place, left: image->0.left, top: image->0.top }),
                None => None,
            }
        } else {
            None
        }
    }

    /// The state after an image was kept.
    pub open spec fn kept(self, c: char, bold: bool, image: Option<Image>) -> GlyphsView {
        GlyphsView {
            map: self.map.insert(glyph_key(c, bold), self.fitted(image)),
            atlas: if drawable(image) {
                self.atlas.placed(image->0.w, image->0.h)
            } else {
                self.atlas
            },
        }
    }
}

fn key_of(c: char, bold: bool) -> (k: u64)
    ensures
        k == glyph_key(c, bold),
{
    2 * (c as u64) + if bold {
        1
    } else {
        0
    }
}

impl Glyphs {
    /// The packer is in order.
    pub open spec fn wf(self) -> bool {
        self@.atlas.wf()
    }

    /// No glyphs.
    pub fn new() -> (g: Glyphs)
        ensures
            g.wf(),
            g@ == (GlyphsView { map: Map::empty(), atlas: Atlas { x: 0, y: 0, row_h: 0 } }),
    {
        Glyphs { map: HashMap::new(), atlas: Atlas::new() }
    }

    /// Forget all glyphs and start the atlas again: the font changed.
    pub fn clear(&mut self)
        ensures
            final(self).wf(),
            final(self)@ == (GlyphsView {
                map: Map::empty(),
                atlas: Atlas { x: 0, y: 0, row_h: 0 },
            }),
    {
        self.map = HashMap::new();
        self.atlas = Atlas::new();
    }

    /// Look a glyph up.
    pub fn find(&self, c: char, bold: bool) -> (r: Option<Option<Glyph>>)
        ensures
            r == self@.known(c, bold),
    {
        broadcast use vstd::std_specs::hash::group_hash_axioms;

        match self.map.get(&key_of(c, bold)) {
            Some(g) => Some(*g),
            None => None,
        }
    }

    /// Remember what the rasterizer made of a glyph. The result says where its pixels go.
    pub fn keep(&mut self, c: char, bold: bool, image: Option<Image>) -> (r: Option<Glyph>)
        requires
            old(self).wf(),
        ensures
            final(self).wf(),
            r == old(self)@.fitted(image),
            final(self)@ == old(self)@.kept(c, bold, image),
    {
        broadcast use vstd::std_specs::hash::group_hash_axioms;

        let mut r: Option<Glyph> = None;
        match image {
            Some(i) => {
                if i.mask && i.w > 0 && i.h > 0 {
                    match self.atlas.allocate(i.w, i.h) {
                        Some(place) => {
                            r = Some(Glyph { place, left: i.left, top: i.top });
                        },
                        None => {},
                    }
                }
            },
            None => {},
        }
        self.map.insert(key_of(c, bold), r);
        r
    }
}

/// A glyph is rasterized once: afterwards it is found as it was kept, and keeping another one does
/// not touch it.
pub proof fn kept_glyphs_are_found(
    g: GlyphsView,
    c: char,
    bold: bool,
    image: Option<Image>,
    c2: char,
    bold2: bool,
)
    ensures
        g.kept(c, bold, image).known(c, bold) == Some(g.fitted(image)),
        (c, bold) != (c2, bold2) ==> g.kept(c, bold, image).known(c2, bold2) == g.known(c2, bold2),
{
}

/// The part of a surface that a rectangle covers, if any: its position, and its size cut off at
/// the surface's edge.
pub fn scissor(x: u32, y: u32, w: u32, h: u32, sw: u32, sh: u32) -> (r: Option<Place>)
    ensures
        r is Some <==> w > 0 && h > 0 && x < sw && y < sh,
        r matches Some(p) ==> {
            &&& p.x == x && p.y == y
            &&& p.w == (if w <= sw - x {
                w as int
            } else {
                sw - x
            })
            &&& p.h == (if h <= sh - y {
                h as int
            } else {
                sh - y
            })
        },
{
    if x >= sw || y >= sh || w == 0 || h == 0 {
        return None;
    }
    let w: u32 = if w <= sw - x {
        w
    } else {
        sw - x
    };
    let h: u32 = if h <= sh - y {
        h
    } else {
        sh - y
    };
    Some(Place { x, y, w, h })
}

/// The room that a buffer has after it took in some items: what it had, or the next power of two.
pub fn buffer_room(cap: u32, len: u32) -> (r: u32)
    requires
        len <= 0x8000_0000,
    ensures
        len <= cap ==> r == cap,
        len > cap ==> (exists|k: nat| r == #[trigger] pow2(k)) && len <= r && r < 2 * len,
{
    if len <= cap {
        return cap;
    }
    let mut p: u32 = 1;
    proof {
        lemma2_to64();
        assert(p == pow2(0));
    }
    while p < len
        invariant
            exists|k: nat| p == #[trigger] pow2(k),
            1 <= len <= 0x8000_0000,
            1 <= p < 2 * len,
        decreases 2 * len - p,
    {
        proof {
            let k = choose|k: nat| p == #[trigger] pow2(k);
            lemma_pow2_unfold(k + 1);
            assert(2 * p == pow2(k + 1));
        }
        p = p * 2;
    }
    p
}

/// One text before another, character by character; a text is behind its beginnings.
pub open spec fn precedes(a: Seq<char>, b: Seq<char>) -> bool
    decreases a.len(),
{
    if b.len() == 0 {
        false
    } else if a.len() == 0 {
        true
    } else if a[0] == b[0] {
        precedes(a.skip(1), b.skip(1))
    } else {
        a[0] < b[0]
    }
}

proof fn lemma_order(a: Seq<char>, b: Seq<char>, c: Seq<char>)
    ensures
        !precedes(a, a),
        a != b ==> precedes(a, b) || precedes(b, a),
        precedes(a, b) && precedes(b, c) ==> precedes(a, c),
    decreases a.len(),
{
    if a.len() > 0 && b.len() > 0 {
        lemma_order(
            a.skip(1),
            b.skip(1),
            if c.len() > 0 {
                c.skip(1)
            } else {
                c
            },
        );
        if a[0] == b[0] && a.skip(1) == b.skip(1) {
            assert(a =~= seq![a[0]] + a.skip(1));
            assert(b =~= seq![b[0]] + b.skip(1));
        }
    } else if a.len() > 0 {
        lemma_order(a.skip(1), a.skip(1), a.skip(1));
        if b.len() == 0 {
            assert(precedes(b, a));
        }
    } else {
        if b.len() == 0 {
            assert(a =~= b);
        }
    }
}

fn comes_before(a: &Vec<char>, b: &Vec<char>) -> (r: bool)
    ensures
        r == precedes(a@, b@),
{
    let mut i: usize = 0;
    assert(a@.skip(0) =~= a@);
    assert(b@.skip(0) =~= b@);
    while i < a.len() && i < b.len() && a[i] == b[i]
        invariant
            i <= a.len(),
            i <= b.len(),
            precedes(a@, b@) == precedes(a@.skip(i as int), b@.skip(i as int)),
        decreases a.len() - i,
    {
        assert(a@.skip(i as int).skip(1) =~= a@.skip(i as int + 1));
        assert(b@.skip(i as int).skip(1) =~= b@.skip(i as int + 1));
        i = i + 1;
    }
    if i >= b.len() {
        false
    } else if i >= a.len() {
        true
    } else {
        a[i] < b[i]
    }
}

/// A list in strictly rising order.
pub open spec fn rising(names: Seq<Seq<char>>) -> bool {
    forall|i: int, j: int| 0 <= i < j < names.len() ==> precedes(names[i], names[j])
}

/// The texts of a list of names.
pub open spec fn name_views(names: Seq<String>) -> Seq<Seq<char>> {
    names.map_values(|n: String| n@)
}

/// The families that the picker offers: of each monospaced face the first name, once, in order.
pub fn families(faces: &Vec<(bool, Option<String>)>) -> (r: Vec<String>)
    ensures
        rising(name_views(r@)),
        forall|n: Seq<char>|
            #[trigger] name_views(r@).contains(n) <==> exists|i: int|
                0 <= i < faces@.len() && (#[trigger] faces@[i]).0 && (faces@[i].1 matches Some(s)
                    && s@ == n),
{
    let mut r: Vec<String> = Vec::new();
    for i in 0..faces.len()
        invariant
            rising(name_views(r@)),
            forall|n: Seq<char>|
                #[trigger] name_views(r@).contains(n) <==> exists|k: int|
                    0 <= k < i && (#[trigger] faces@[k]).0 && (faces@[k].1 matches Some(s) && s@
                        == n),
    {
        let ghost was = name_views(r@);
        let face = &faces[i];
        if face.0 {
            match &face.1 {
                Some(s) => {
                    add_name(&mut r, s);
                    assert forall|n: Seq<char>| #[trigger]
                        name_views(r@).contains(n) <==> exists|k: int|
                            0 <= k < i + 1 && (#[trigger] faces@[k]).0 && (faces@[k].1 matches Some(
                                t,
                            ) && t@ == n) by {
                        assert(faces@[i as int].1 is Some);
                        if name_views(r@).contains(n) && n != s@ {
                            assert(was.contains(n));
                        }
                    }
                },
                None => {},
            }
        }
    }
    r
}

fn add_name(names: &mut Vec<String>, s: &String)
    requires
        rising(name_views(old(names)@)),
    ensures
        rising(name_views(final(names)@)),
        forall|n: Seq<char>| #[trigger]
            name_views(final(names)@).contains(n) <==> n == s@ || name_views(
                old(names)@,
            ).contains(n),
{
    let ghost was = name_views(names@);
    let cs = crate::text::chars_of(s.as_str());
    let mut i: usize = 0;
    while i < names.len() && comes_before(&crate::text::chars_of(names[i].as_str()), &cs)
        invariant
            *names == *old(names),
            was == name_views(names@),
            cs@ == s@,
            i <= names.len(),
            forall|k: int| 0 <= k < i ==> #[trigger] precedes(was[k], s@),
        decreases names.len() - i,
    {
        i = i + 1;
    }
    if i < names.len() && names[i] == *s {
        assert(was[i as int] == s@);
        return;
    }
    proof {
        assert forall|k: int| i <= k < was.len() implies #[trigger] precedes(s@, was[k]) by {
            lemma_order(s@, was[i as int], was[k]);
        }
    }
    names.insert(i, s.clone());
    let ghost now = name_views(names@);
    proof {
        assert(now =~= was.insert(i as int, s@));
        assert forall|a: int, b: int| 0 <= a < b < now.len() implies precedes(now[a], now[b]) by {
            if a < i && b > i {
                lemma_order(was[a], s@, was[b - 1]);
            }
        }
        assert forall|n: Seq<char>| #[trigger] now.contains(n) <==> n == s@ || was.contains(n) by {
            if was.contains(n) {
                let k = choose|k: int| 0 <= k < was.len() && was[k] == n;
                if k < i {
                    assert(now[k] == n);
                } else {
                    assert(now[k + 1] == n);
                }
            }
            if n == s@ {
                assert(now[i as int] == n);
            }
            if now.contains(n) {
                let k = choose|k: int| 0 <= k < now.len() && now[k] == n;
                if k < i {
                    assert(was[k] == n);
                } else if k > i {
                    assert(was[k - 1] == n);
                }
            }
        }
    }
}

/// What the program set wins over the palette, in every slot.
pub proof fn program_colors_win(
    i: u8,
    overrides: Seq<Option<Rgb>>,
    p: Palette,
    q: Palette,
    bright: bool,
)
    requires
        set_color(overrides, brightened(i, bright) as int) is Some,
    ensures
        resolved(Color::Indexed(i), overrides, p, bright) == resolved(
            Color::Indexed(i),
            overrides,
            q,
            bright,
        ),
        resolved(Color::Indexed(i), overrides, p, bright) == set_color(
            overrides,
            brightened(i, bright) as int,
        )->0,
{
}

/// Bold text brightens the eight standard colours, under either way to name them, and nothing
/// else.
pub proof fn bold_brightens_the_standard_colors(i: u8, overrides: Seq<Option<Rgb>>, p: Palette)
    ensures
        i < 8 ==> resolved(Color::Indexed(i), overrides, p, true) == resolved(
            Color::Indexed((i + 8) as u8),
            overrides,
            p,
            false,
        ),
        i >= 8 ==> resolved(Color::Indexed(i), overrides, p, true) == resolved(
            Color::Indexed(i),
            overrides,
            p,
            false,
        ),
        i < 16 ==> resolved(Color::Named(i as u16), overrides, p, true) == resolved(
            Color::Indexed(i),
            overrides,
            p,
            true,
        ),
{
}

} // verus!
