//! The viewport interaction engine: converts pointer input under a live
//! pan/zoom transform into grid coordinates and actions on the map grid.
//!
//! All coordinates are integers in subpixels (256 subpixels per screen
//! pixel), so the math is exact. The zoom is the edge length of one tile
//! in subpixels; the pan is the offset of the grid origin from the
//! viewport origin. Zooming keeps the world point under the pointer
//! fixed: the pan is adjusted by the pointer's grid coordinate times the
//! zoom change (`lemma_anchor_preserving_zoom` states this exactly).

use vstd::arithmetic::div_mod::{
    lemma_fundamental_div_mod, lemma_fundamental_div_mod_converse, lemma_mod_bound,
};
use vstd::prelude::*;

use crate::document::{render_document_spec, DocValue};
use crate::map::{map_doc, map_of_doc, MapData, MapInfoPopup, MapV};
use crate::parse::parse_document_chars;
use crate::{ErrorKind, FeError};

verus! {

/// Subpixels per screen pixel.
pub const SUBPIXELS: i64 = 256;

/// The smallest tile edge, in subpixels (16 pixels).
pub const ZOOM_MIN: i64 = 16 * SUBPIXELS;

/// The largest tile edge, in subpixels (128 pixels).
pub const ZOOM_MAX: i64 = 128 * SUBPIXELS;

/// The tile edge a fresh viewport starts with, in subpixels (64 pixels).
pub const ZOOM_INIT: i64 = 64 * SUBPIXELS;

/// The largest magnitude a pan offset or pointer coordinate may reach,
/// in subpixels; pans saturate here so that the arithmetic stays exact.
pub const COORD_LIMIT: i64 = 1099511627776;

/// A value clamped into an inclusive range.
pub open spec fn clamp_spec(v: int, lo: int, hi: int) -> int {
    if v < lo {
        lo
    } else if v > hi {
        hi
    } else {
        v
    }
}

/// Clamps a value into an inclusive range.
pub fn clamp_i64(v: i64, lo: i64, hi: i64) -> (r: i64)
    requires
        lo <= hi,
    ensures
        r == clamp_spec(v as int, lo as int, hi as int),
{
    if v < lo {
        lo
    } else if v > hi {
        hi
    } else {
        v
    }
}

/// Division rounding toward negative infinity (for a positive divisor
/// this is Euclidean division, the `/` of specifications).
pub fn div_floor(a: i64, b: i64) -> (r: i64)
    requires
        1 <= b,
        -0x4000_0000_0000_0000 <= a <= 0x4000_0000_0000_0000,
    ensures
        r == a as int / b as int,
{
    if a >= 0 {
        let q = (a as u64 / b as u64) as i64;
        proof {
            lemma_fundamental_div_mod(a as int, b as int);
            lemma_mod_bound(a as int, b as int);
        }
        q
    } else {
        let neg: u64 = (-(a as i128)) as u64;
        let q: u64 = neg / (b as u64);
        let rem: u64 = neg % (b as u64);
        if rem == 0 {
            let r = -(q as i64);
            proof {
                assert(neg == q * b + rem && 0 <= rem < b) by {
                    lemma_fundamental_div_mod(neg as int, b as int);
                    lemma_mod_bound(neg as int, b as int);
                }
                assert(a as int == (-(q as int)) * (b as int) + 0) by (nonlinear_arith)
                    requires
                        neg == -(a as int),
                        neg == q * b + 0,
                ;
                lemma_fundamental_div_mod_converse(a as int, b as int, -(q as int), 0);
            }
            r
        } else {
            let r = -(q as i64) - 1;
            proof {
                assert(neg == q * b + rem && 0 <= rem < b) by {
                    lemma_fundamental_div_mod(neg as int, b as int);
                    lemma_mod_bound(neg as int, b as int);
                }
                assert(a as int == (-(q as int) - 1) * (b as int) + (b - rem)) by (nonlinear_arith)
                    requires
                        neg == -(a as int),
                        neg == q * b + rem,
                ;
                lemma_fundamental_div_mod_converse(
                    a as int,
                    b as int,
                    -(q as int) - 1,
                    b - rem,
                );
            }
            r
        }
    }
}

/// The pan/zoom transform of the tile viewport.
#[derive(Debug)]
pub struct Viewport {
    pub scroll_x: i64,
    pub scroll_y: i64,
    pub zoom: i64,
}

/// The zoom after applying a wheel or keyboard change.
pub open spec fn zoom_after(zoom: int, delta: int) -> int {
    clamp_spec(zoom - delta, ZOOM_MIN as int, ZOOM_MAX as int)
}

/// The pan adjustment that keeps the pointer's world point fixed while
/// the zoom moves from `zoom` to `zoom2`: the pointer offset times the
/// zoom change, divided by the old zoom.
pub open spec fn pan_adjust(off: int, zoom: int, zoom2: int) -> int {
    (off * (zoom - zoom2)) / zoom
}

/// A pan component after adding a delta and saturating at the limit.
pub open spec fn pan_after(scroll: int, delta: int) -> int {
    clamp_spec(scroll + delta, -COORD_LIMIT as int, COORD_LIMIT as int)
}

/// The grid cell a pointer offset falls into.
pub open spec fn cell_of(off: int, zoom: int) -> int {
    off / zoom
}

impl Viewport {
    /// Whether the transform stays within its working range.
    pub open spec fn wf(&self) -> bool {
        &&& ZOOM_MIN <= self.zoom <= ZOOM_MAX
        &&& -COORD_LIMIT <= self.scroll_x <= COORD_LIMIT
        &&& -COORD_LIMIT <= self.scroll_y <= COORD_LIMIT
    }

    /// A fresh transform: no pan, default zoom.
    pub fn new() -> (r: Self)
        ensures
            r.wf(),
            r.scroll_x == 0,
            r.scroll_y == 0,
            r.zoom == ZOOM_INIT,
    {
        Viewport { scroll_x: 0, scroll_y: 0, zoom: ZOOM_INIT }
    }

    /// Applies a zoom change anchored at the pointer offsets `off_x`,
    /// `off_y` (pointer position minus pan): the zoom moves toward the
    /// clamped target and the pan absorbs the pointer's share of the
    /// change, so the world point under the pointer keeps its screen
    /// position to within one subpixel.
    pub fn apply_zoom(&mut self, off_x: i64, off_y: i64, delta: i64)
        requires
            old(self).wf(),
            -2 * COORD_LIMIT <= off_x <= 2 * COORD_LIMIT,
            -2 * COORD_LIMIT <= off_y <= 2 * COORD_LIMIT,
            -COORD_LIMIT <= delta <= COORD_LIMIT,
        ensures
            final(self).wf(),
            final(self).zoom == zoom_after(old(self).zoom as int, delta as int),
            final(self).scroll_x == pan_after(
                old(self).scroll_x as int,
                pan_adjust(off_x as int, old(self).zoom as int, final(self).zoom as int),
            ),
            final(self).scroll_y == pan_after(
                old(self).scroll_y as int,
                pan_adjust(off_y as int, old(self).zoom as int, final(self).zoom as int),
            ),
    {
        let zoom2 = clamp_i64(self.zoom - delta, ZOOM_MIN, ZOOM_MAX);
        let dz = self.zoom - zoom2;
        proof {
            assert(-(ZOOM_MAX as int) <= dz <= ZOOM_MAX);
            assert((off_x as int) * (dz as int) <= 2 * (COORD_LIMIT as int) * (ZOOM_MAX as int))
                by (nonlinear_arith)
                requires
                    -2 * (COORD_LIMIT as int) <= off_x as int <= 2 * (COORD_LIMIT as int),
                    -(ZOOM_MAX as int) <= dz as int <= ZOOM_MAX as int,
            ;
            assert(-(2 * (COORD_LIMIT as int) * (ZOOM_MAX as int)) <= (off_x as int) * (dz as int))
                by (nonlinear_arith)
                requires
                    -2 * (COORD_LIMIT as int) <= off_x as int <= 2 * (COORD_LIMIT as int),
                    -(ZOOM_MAX as int) <= dz as int <= ZOOM_MAX as int,
            ;
            assert((off_y as int) * (dz as int) <= 2 * (COORD_LIMIT as int) * (ZOOM_MAX as int))
                by (nonlinear_arith)
                requires
                    -2 * (COORD_LIMIT as int) <= off_y as int <= 2 * (COORD_LIMIT as int),
                    -(ZOOM_MAX as int) <= dz as int <= ZOOM_MAX as int,
            ;
            assert(-(2 * (COORD_LIMIT as int) * (ZOOM_MAX as int)) <= (off_y as int) * (dz as int))
                by (nonlinear_arith)
                requires
                    -2 * (COORD_LIMIT as int) <= off_y as int <= 2 * (COORD_LIMIT as int),
                    -(ZOOM_MAX as int) <= dz as int <= ZOOM_MAX as int,
            ;
        }
        let adj_x = div_floor(off_x * dz, self.zoom);
        let adj_y = div_floor(off_y * dz, self.zoom);
        proof {
            lemma_div_magnitude(off_x as int * dz as int, self.zoom as int);
            lemma_div_magnitude(off_y as int * dz as int, self.zoom as int);
        }
        self.scroll_x = clamp_i64(self.scroll_x + adj_x, -COORD_LIMIT, COORD_LIMIT);
        self.scroll_y = clamp_i64(self.scroll_y + adj_y, -COORD_LIMIT, COORD_LIMIT);
        self.zoom = zoom2;
    }

    /// Adds a pan delta (keyboard keys, middle-mouse drag), saturating at
    /// the working limit.
    pub fn apply_pan(&mut self, dx: i64, dy: i64)
        requires
            old(self).wf(),
            -COORD_LIMIT <= dx <= COORD_LIMIT,
            -COORD_LIMIT <= dy <= COORD_LIMIT,
        ensures
            final(self).wf(),
            final(self).zoom == old(self).zoom,
            final(self).scroll_x == pan_after(old(self).scroll_x as int, dx as int),
            final(self).scroll_y == pan_after(old(self).scroll_y as int, dy as int),
    {
        self.scroll_x = clamp_i64(self.scroll_x + dx, -COORD_LIMIT, COORD_LIMIT);
        self.scroll_y = clamp_i64(self.scroll_y + dy, -COORD_LIMIT, COORD_LIMIT);
    }

    /// The grid cell under a pointer position, each axis the floor of
    /// the pointer offset over the zoom.
    pub fn grid_cell(&self, pointer_x: i64, pointer_y: i64) -> (r: (i64, i64))
        requires
            self.wf(),
            -COORD_LIMIT <= pointer_x <= COORD_LIMIT,
            -COORD_LIMIT <= pointer_y <= COORD_LIMIT,
        ensures
            r.0 == cell_of(pointer_x - self.scroll_x, self.zoom as int),
            r.1 == cell_of(pointer_y - self.scroll_y, self.zoom as int),
    {
        (div_floor(pointer_x - self.scroll_x, self.zoom), div_floor(
            pointer_y - self.scroll_y,
            self.zoom,
        ))
    }
}

/// The magnitude of a quotient is bounded by the magnitude of the
/// dividend when the divisor is at least one.
proof fn lemma_div_magnitude(a: int, b: int)
    requires
        1 <= b,
    ensures
        a >= 0 ==> 0 <= a / b <= a,
        a < 0 ==> a <= a / b <= 0,
{
    lemma_fundamental_div_mod(a, b);
    lemma_mod_bound(a, b);
    assert(a == b * (a / b) + (a % b));
    if a >= 0 {
        assert(0 <= a / b <= a) by (nonlinear_arith)
            requires
                1 <= b,
                0 <= a,
                a == b * (a / b) + (a % b),
                0 <= a % b < b,
        ;
    } else {
        assert(a <= a / b <= 0) by (nonlinear_arith)
            requires
                1 <= b,
                a < 0,
                a == b * (a / b) + (a % b),
                0 <= a % b < b,
        ;
    }
}

/// Zooming anchored at the pointer preserves the pointer's world point.
///
/// With the pointer at offset `off` from the pan origin and the zoom
/// moving from `zoom` to `zoom2`, the pan adjustment `adj` satisfies:
/// the world point under the pointer, re-projected at the new zoom and
/// new pan, lands within one subpixel of the pointer (its screen error
/// `off * dz - adj * zoom`, in units of `zoom`ths of a subpixel, lies in
/// `[0, zoom)`); and when the pointer sits exactly on a grid coordinate
/// `g` (that is, `off == g * zoom`), the new pan is exactly the old pan
/// plus `g` times the zoom change.
pub proof fn lemma_anchor_preserving_zoom(off: int, zoom: int, zoom2: int)
    requires
        1 <= zoom,
    ensures
        0 <= off * (zoom - zoom2) - pan_adjust(off, zoom, zoom2) * zoom < zoom,
        off % zoom == 0 ==> pan_adjust(off, zoom, zoom2) == (off / zoom) * (zoom - zoom2),
{
    let dz = zoom - zoom2;
    let adj = pan_adjust(off, zoom, zoom2);
    lemma_fundamental_div_mod(off * dz, zoom);
    lemma_mod_bound(off * dz, zoom);
    assert(off * dz == zoom * ((off * dz) / zoom) + (off * dz) % zoom);
    assert(off * dz - adj * zoom == (off * dz) % zoom) by (nonlinear_arith)
        requires
            adj == (off * dz) / zoom,
            off * dz == zoom * ((off * dz) / zoom) + (off * dz) % zoom,
    ;
    if off % zoom == 0 {
        let g = off / zoom;
        lemma_fundamental_div_mod(off, zoom);
        assert(off == g * zoom);
        assert(off * dz == (g * dz) * zoom + 0) by (nonlinear_arith)
            requires
                off == g * zoom,
        ;
        lemma_fundamental_div_mod_converse(off * dz, zoom, g * dz, 0);
    }
}

/// The raw input of one frame, already converted to subpixel integers by
/// the host: the pointer position relative to the viewport origin, the
/// summed zoom change from wheel and keys, the summed pan delta from
/// keys and middle-mouse drag, and the button states.
pub struct FrameInput {
    pub pointer_x: i64,
    pub pointer_y: i64,
    pub zoom_delta: i64,
    pub pan_dx: i64,
    pub pan_dy: i64,
    pub primary_down: bool,
    pub secondary_down: bool,
    pub middle_down: bool,
}

impl FrameInput {
    /// Whether every component is within the engine's working range.
    pub open spec fn wf(&self) -> bool {
        &&& -COORD_LIMIT <= self.pointer_x <= COORD_LIMIT
        &&& -COORD_LIMIT <= self.pointer_y <= COORD_LIMIT
        &&& -COORD_LIMIT <= self.zoom_delta <= COORD_LIMIT
        &&& -COORD_LIMIT <= self.pan_dx <= COORD_LIMIT
        &&& -COORD_LIMIT <= self.pan_dy <= COORD_LIMIT
    }
}

/// What the host should draw or open after a frame: the cell to preview
/// the selected tile at, and whether to open the info popup.
pub struct FrameAction {
    pub preview: Option<(u32, u32)>,
    pub open_info: bool,
}

/// What the info popup finds at a grid cell: the first unit there, else
/// the first spawn point there, else nothing.
#[derive(PartialEq, Eq, Structural, Debug, Clone, Copy)]
pub enum InfoContext {
    UnitAt(usize),
    SpawnAt(usize),
    Nothing,
}

/// Resolves the info context at a grid cell: the first unit whose
/// position equals the target is authoritative; otherwise the first
/// spawn point there; otherwise the cell is empty.
pub fn resolve_info(map: &MapData, pos: (u32, u32)) -> (r: InfoContext)
    ensures
        match r {
            InfoContext::UnitAt(i) => i < map@.units.len() && (map@.units[i as int].x,
            map@.units[i as int].y) == pos && forall|j: int|
                0 <= j < i ==> ((#[trigger] map@.units[j]).x, map@.units[j].y) != pos,
            InfoContext::SpawnAt(i) => i < map@.spawns.len() && map@.spawns[i as int] == pos
                && (forall|j: int|
                0 <= j < map@.units.len() ==> ((#[trigger] map@.units[j]).x, map@.units[j].y)
                    != pos) && forall|j: int| 0 <= j < i ==> #[trigger] map@.spawns[j] != pos,
            InfoContext::Nothing => (forall|j: int|
                0 <= j < map@.units.len() ==> ((#[trigger] map@.units[j]).x, map@.units[j].y)
                    != pos) && forall|j: int|
                0 <= j < map@.spawns.len() ==> #[trigger] map@.spawns[j] != pos,
        },
{
    let mut i: usize = 0;
    while i < map.units.len()
        invariant
            i <= map@.units.len(),
            map@.units.len() == map.units@.len(),
            forall|j: int|
                0 <= j < i ==> ((#[trigger] map@.units[j]).x, map@.units[j].y) != pos,
        decreases map.units@.len() - i,
    {
        if map.units[i].x == pos.0 && map.units[i].y == pos.1 {
            proof {
                assert(map@.units[i as int] == map.units@[i as int]@);
            }
            return InfoContext::UnitAt(i);
        }
        proof {
            assert(map@.units[i as int] == map.units@[i as int]@);
        }
        i = i + 1;
    }
    let mut i: usize = 0;
    while i < map.spawns.len()
        invariant
            i <= map@.spawns.len(),
            map@.spawns.len() == map.spawns@.len(),
            forall|j: int|
                0 <= j < map@.units.len() ==> ((#[trigger] map@.units[j]).x, map@.units[j].y)
                    != pos,
            forall|j: int| 0 <= j < i ==> #[trigger] map@.spawns[j] != pos,
        decreases map.spawns@.len() - i,
    {
        if map.spawns[i].0 == pos.0 && map.spawns[i].1 == pos.1 {
            return InfoContext::SpawnAt(i);
        }
        i = i + 1;
    }
    InfoContext::Nothing
}

/// A map open in the editor: the grid itself, the pan/zoom transform of
/// its viewport, and the transient state of the info popup.
#[derive(Debug)]
pub struct MapEditor {
    pub data: MapData,
    pub viewport: Viewport,
    pub info_popup: MapInfoPopup,
}

impl MapEditor {
    /// Whether the editor's grid and transform are well formed.
    pub open spec fn wf(&self) -> bool {
        self.data.wf() && self.viewport.wf()
    }

    /// Opens a map from schema text, with a fresh viewport transform.
    pub fn open(name: String, text: &str) -> (r: Result<MapEditor, FeError>)
        ensures
            match r {
                Result::Ok(ed) => parse_document_chars(text@) is Some && map_of_doc(
                    parse_document_chars(text@)->Some_0,
                    name@,
                ) == Result::<MapV, Seq<char>>::Ok(ed.data@) && ed.wf() && ed.viewport.zoom == ZOOM_INIT
                    && ed.viewport.scroll_x == 0 && ed.viewport.scroll_y == 0
                    && ed.info_popup.unit@ == Seq::<char>::empty() && ed.info_popup.position == (
                0u32,
                0u32,
                ),
                Result::Err(e) => (parse_document_chars(text@) is None && e.kind
                    == ErrorKind::Parse) || (parse_document_chars(text@) is Some && map_of_doc(
                    parse_document_chars(text@)->Some_0,
                    name@,
                ) is Err && e.kind == ErrorKind::Schema && e.msg@ == map_of_doc(
                    parse_document_chars(text@)->Some_0,
                    name@,
                )->Err_0),
            },
    {
        match MapData::open(name, text) {
            Result::Ok(data) => Result::Ok(
                MapEditor { data, viewport: Viewport::new(), info_popup: MapInfoPopup::new() },
            ),
            Result::Err(e) => Result::Err(e),
        }
    }

    /// A fresh map of the given size, with a fresh viewport transform.
    pub fn with_size(name: String, width: usize, height: usize) -> (r: MapEditor)
        requires
            1 <= width <= i64::MAX,
            1 <= height <= i64::MAX,
            width * height <= usize::MAX,
        ensures
            r.wf(),
            r.data.name@ == name@,
            r.data.width == width,
            r.data.height == height,
            forall|i: int| 0 <= i < r.data.tiles().len() ==> #[trigger] r.data.tiles()[i] == 0,
            r.data.units@.len() == 0,
            r.data.spawns@.len() == 0,
            r.viewport.zoom == ZOOM_INIT,
            r.viewport.scroll_x == 0,
            r.viewport.scroll_y == 0,
            r.info_popup.unit@ == Seq::<char>::empty(),
            r.info_popup.position == (0u32, 0u32),
    {
        MapEditor {
            data: MapData::with_size(name, width, height),
            viewport: Viewport::new(),
            info_popup: MapInfoPopup::new(),
        }
    }

    /// Reads the tile at an in-bounds coordinate.
    pub fn get_tile(&self, x: usize, y: usize) -> (r: usize)
        requires
            self.data.wf(),
            x < self.data.width,
            y < self.data.height,
        ensures
            r == self.data.tile_at(x as int, y as int),
    {
        self.data.get_tile(x, y)
    }

    /// Serializes the grid to schema text.
    pub fn to_toml(&self) -> (r: String)
        requires
            self.data.wf(),
        ensures
            r@ == render_document_spec(map_doc(self.data@)),
    {
        self.data.to_toml()
    }
}

/// The pointer's offset from the pan origin along each axis, before the
/// frame's transform updates.
pub open spec fn frame_off(ed: MapEditor, input: FrameInput) -> (int, int) {
    (input.pointer_x - ed.viewport.scroll_x, input.pointer_y - ed.viewport.scroll_y)
}

/// Whether the pointer lies over the grid, judged with the transform the
/// frame started with.
pub open spec fn frame_in_bounds(ed: MapEditor, input: FrameInput) -> bool {
    let (offx, offy) = frame_off(ed, input);
    &&& 0 <= offx < ed.data.width * ed.viewport.zoom
    &&& 0 <= offy < ed.data.height * ed.viewport.zoom
}

/// The grid cell under the pointer, judged with the transform the frame
/// started with.
pub open spec fn frame_cell(ed: MapEditor, input: FrameInput) -> (int, int) {
    let (offx, offy) = frame_off(ed, input);
    (offx / (ed.viewport.zoom as int), offy / (ed.viewport.zoom as int))
}

/// A nonnegative offset short of `width` tiles falls in a cell short of
/// `width`.
proof fn lemma_cell_bound(off: int, zoom: int, width: int)
    requires
        1 <= zoom,
        0 <= off,
        off < width * zoom,
    ensures
        0 <= off / zoom < width,
{
    lemma_fundamental_div_mod(off, zoom);
    lemma_mod_bound(off, zoom);
    assert(0 <= off / zoom < width) by (nonlinear_arith)
        requires
            1 <= zoom,
            0 <= off,
            off < width * zoom,
            off == zoom * (off / zoom) + (off % zoom),
            0 <= off % zoom < zoom,
    ;
}

/// Runs one frame of viewport interaction, in the order the host's event
/// loop feeds it: the pointer's grid position is judged with the frame's
/// starting transform; the zoom change is applied anchored at the
/// pointer; the pan delta is added; and if the pointer lies over the
/// grid, a held primary button paints the selected tile into the
/// pointer's cell, a held secondary button targets the info popup at that
/// cell and asks the host to open it, and the returned action carries the
/// cell to preview whenever the middle button is not held.
pub fn process_frame(ed: &mut MapEditor, input: FrameInput, selected_tile: usize) -> (r:
    FrameAction)
    requires
        old(ed).wf(),
        input.wf(),
        selected_tile <= i64::MAX,
        old(ed).data.width <= u32::MAX,
        old(ed).data.height <= u32::MAX,
    ensures
        final(ed).wf(),
        final(ed).viewport.zoom == zoom_after(old(ed).viewport.zoom as int, input.zoom_delta as int),
        final(ed).viewport.scroll_x == pan_after(
            pan_after(
                old(ed).viewport.scroll_x as int,
                pan_adjust(
                    frame_off(*old(ed), input).0,
                    old(ed).viewport.zoom as int,
                    final(ed).viewport.zoom as int,
                ),
            ),
            input.pan_dx as int,
        ),
        final(ed).viewport.scroll_y == pan_after(
            pan_after(
                old(ed).viewport.scroll_y as int,
                pan_adjust(
                    frame_off(*old(ed), input).1,
                    old(ed).viewport.zoom as int,
                    final(ed).viewport.zoom as int,
                ),
            ),
            input.pan_dy as int,
        ),
        final(ed).data.name == old(ed).data.name,
        final(ed).data.width == old(ed).data.width,
        final(ed).data.height == old(ed).data.height,
        final(ed).data.units == old(ed).data.units,
        final(ed).data.spawns == old(ed).data.spawns,
        frame_in_bounds(*old(ed), input) ==> 0 <= frame_cell(*old(ed), input).0
            < old(ed).data.width && 0 <= frame_cell(*old(ed), input).1 < old(ed).data.height,
        (frame_in_bounds(*old(ed), input) && input.primary_down) ==> final(ed).data.tiles()
            == old(ed).data.tiles().update(
            frame_cell(*old(ed), input).0 + frame_cell(*old(ed), input).1 * old(ed).data.width,
            selected_tile,
        ),
        !(frame_in_bounds(*old(ed), input) && input.primary_down) ==> final(ed).data.tiles()
            == old(ed).data.tiles(),
        r.open_info == (frame_in_bounds(*old(ed), input) && input.secondary_down),
        r.open_info ==> final(ed).info_popup.position == (
            frame_cell(*old(ed), input).0 as u32,
            frame_cell(*old(ed), input).1 as u32,
        ),
        !r.open_info ==> final(ed).info_popup.position == old(ed).info_popup.position,
        final(ed).info_popup.unit == old(ed).info_popup.unit,
        r.preview == (if frame_in_bounds(*old(ed), input) && !input.middle_down {
            Option::Some(
                (frame_cell(*old(ed), input).0 as u32, frame_cell(*old(ed), input).1 as u32),
            )
        } else {
            Option::<(u32, u32)>::None
        }),
{
    let off_x = input.pointer_x - ed.viewport.scroll_x;
    let off_y = input.pointer_y - ed.viewport.scroll_y;
    let zoom0 = ed.viewport.zoom;
    ed.viewport.apply_zoom(off_x, off_y, input.zoom_delta);
    ed.viewport.apply_pan(input.pan_dx, input.pan_dy);
    let mut action = FrameAction { preview: Option::None, open_info: false };
    let ghost w0 = ed.data.width;
    let ghost h0 = ed.data.height;
    proof {
        assert((w0 as int) * (zoom0 as int) <= (u32::MAX as int) * (ZOOM_MAX as int))
            by (nonlinear_arith)
            requires
                w0 <= u32::MAX,
                1 <= zoom0 <= ZOOM_MAX,
        ;
        assert((h0 as int) * (zoom0 as int) <= (u32::MAX as int) * (ZOOM_MAX as int))
            by (nonlinear_arith)
            requires
                h0 <= u32::MAX,
                1 <= zoom0 <= ZOOM_MAX,
        ;
    }
    let w_sub = (ed.data.width as i64) * zoom0;
    let h_sub = (ed.data.height as i64) * zoom0;
    if 0 <= off_x && off_x < w_sub && 0 <= off_y && off_y < h_sub {
        proof {
            lemma_cell_bound(off_x as int, zoom0 as int, ed.data.width as int);
            lemma_cell_bound(off_y as int, zoom0 as int, ed.data.height as int);
        }
        let cx = div_floor(off_x, zoom0);
        let cy = div_floor(off_y, zoom0);
        if input.primary_down {
            ed.data.set_tile(cx as usize, cy as usize, selected_tile);
        }
        if input.secondary_down {
            ed.info_popup.position = (cx as u32, cy as u32);
            action.open_info = true;
        }
        if !input.middle_down {
            action.preview = Option::Some((cx as u32, cy as u32));
        }
    }
    action
}

} // verus!
