//! The map grid: a fixed-size tile index buffer plus the units and spawn
//! points placed on it. Tile access is bounds-checked, and the grid
//! converts to and from the structured document model, round-tripping
//! exactly.

use vstd::prelude::*;

use crate::document::{
    doc_get, doc_view, pairs_view, render_document_spec, render_inline_pairs, spec_get, vals_view, DocV,
    DocValue,
};
use crate::parse::{parse_document_chars, parse_document_text};
use crate::text::chars_to_string;
use crate::{ErrorKind, FeError};

verus! {

broadcast use vstd::string::group_string_axioms;

/// One unit placed on the map: a grid position, an optional display name
/// and a positional reference into the class collection.
#[derive(Debug, Clone, PartialEq)]
pub struct MapUnit {
    pub x: u32,
    pub y: u32,
    pub name: String,
    pub class: usize,
}

/// The mathematical shape of a unit.
#[verifier::ext_equal]
pub struct UnitV {
    pub x: u32,
    pub y: u32,
    pub name: Seq<char>,
    pub class: usize,
}

impl View for MapUnit {
    type V = UnitV;

    open spec fn view(&self) -> UnitV {
        UnitV { x: self.x, y: self.y, name: self.name@, class: self.class }
    }
}

/// The mathematical shapes of a unit sequence.
pub open spec fn units_view(s: Seq<MapUnit>) -> Seq<UnitV> {
    Seq::new(s.len(), |i: int| s[i]@)
}

impl MapUnit {
    /// A fresh, unnamed unit of the first class at the given position.
    pub fn at_position(x: u32, y: u32) -> (r: Self)
        ensures
            r.x == x,
            r.y == y,
            r.name@ == Seq::<char>::empty(),
            r.class == 0,
    {
        MapUnit { x, y, name: String::new(), class: 0 }
    }
}

/// The mathematical shape of a map grid.
#[verifier::ext_equal]
pub struct MapV {
    pub name: Seq<char>,
    pub width: usize,
    pub height: usize,
    pub tiles: Seq<usize>,
    pub units: Seq<UnitV>,
    pub spawns: Seq<(u32, u32)>,
}

/// A map grid: its name, its fixed dimensions, a flat row-major tile
/// buffer of length `width * height`, and the entities placed on it.
#[derive(Debug)]
pub struct MapData {
    pub name: String,
    pub width: usize,
    pub height: usize,
    pub data: Vec<usize>,
    pub units: Vec<MapUnit>,
    pub spawns: Vec<(u32, u32)>,
}

impl View for MapData {
    type V = MapV;

    open spec fn view(&self) -> MapV {
        MapV {
            name: self.name@,
            width: self.width,
            height: self.height,
            tiles: self.data@,
            units: units_view(self.units@),
            spawns: self.spawns@,
        }
    }
}

/// Whether a map shape stays within the grid's and the document model's
/// limits: positive dimensions, a tile buffer of exactly `width * height`
/// entries, and every stored number representable as a document integer.
pub open spec fn wf_map(m: MapV) -> bool {
    &&& 1 <= m.width
    &&& 1 <= m.height
    &&& m.width * m.height <= usize::MAX
    &&& m.width <= i64::MAX
    &&& m.height <= i64::MAX
    &&& m.tiles.len() == m.width * m.height
    &&& forall|i: int| 0 <= i < m.tiles.len() ==> #[trigger] m.tiles[i] <= i64::MAX
    &&& forall|i: int| 0 <= i < m.units.len() ==> (#[trigger] m.units[i]).class <= i64::MAX
}

impl MapData {
    /// Whether the grid is well formed.
    pub open spec fn wf(&self) -> bool {
        wf_map(self@)
    }

    /// The tile buffer, row-major.
    pub open spec fn tiles(&self) -> Seq<usize> {
        self.data@
    }

    /// The tile index stored at a grid coordinate.
    pub open spec fn tile_at(&self, x: int, y: int) -> usize {
        self.data@[x + y * self.width]
    }

    /// A fresh grid of the given size with every tile set to the default
    /// index zero and nothing placed on it.
    pub fn with_size(name: String, width: usize, height: usize) -> (r: Self)
        requires
            1 <= width <= i64::MAX,
            1 <= height <= i64::MAX,
            width * height <= usize::MAX,
        ensures
            r.wf(),
            r.name@ == name@,
            r.width == width,
            r.height == height,
            r.tiles().len() == width * height,
            forall|i: int| 0 <= i < r.tiles().len() ==> #[trigger] r.tiles()[i] == 0,
            r.units@.len() == 0,
            r.spawns@.len() == 0,
    {
        let total = width * height;
        let mut data: Vec<usize> = Vec::new();
        let mut i: usize = 0;
        while i < total
            invariant
                i <= total,
                data@.len() == i,
                forall|t: int| 0 <= t < i ==> #[trigger] data@[t] == 0,
            decreases total - i,
        {
            data.push(0);
            i = i + 1;
        }
        MapData { name, width, height, data, units: Vec::new(), spawns: Vec::new() }
    }

    /// The flat buffer index of an in-bounds coordinate is in range.
    proof fn lemma_index(&self, x: usize, y: usize)
        requires
            self.wf(),
            x < self.width,
            y < self.height,
        ensures
            x + y * self.width < self.tiles().len(),
    {
        assert(x + y * self.width < self.width * self.height) by (nonlinear_arith)
            requires
                x < self.width,
                y < self.height,
                1 <= self.width,
        ;
    }

    /// Reads the tile at an in-bounds coordinate.
    pub fn get_tile(&self, x: usize, y: usize) -> (r: usize)
        requires
            self.wf(),
            x < self.width,
            y < self.height,
        ensures
            r == self.tile_at(x as int, y as int),
    {
        proof {
            self.lemma_index(x, y);
        }
        self.data[x + y * self.width]
    }

    /// Writes the tile at an in-bounds coordinate, leaving every other
    /// tile and every other field unchanged.
    pub fn set_tile(&mut self, x: usize, y: usize, value: usize)
        requires
            old(self).wf(),
            x < old(self).width,
            y < old(self).height,
            value <= i64::MAX,
        ensures
            final(self).wf(),
            final(self).tile_at(x as int, y as int) == value,
            final(self).tiles().len() == old(self).tiles().len(),
            final(self).tiles() == old(self).tiles().update(x + y * old(self).width, value),
            final(self).name == old(self).name,
            final(self).width == old(self).width,
            final(self).height == old(self).height,
            final(self).units == old(self).units,
            final(self).spawns == old(self).spawns,
    {
        proof {
            self.lemma_index(x, y);
        }
        let idx = x + y * self.width;
        self.data.set(idx, value);
        proof {
            assert forall|i: int| 0 <= i < self.data@.len() implies #[trigger] self.data@[i]
                <= i64::MAX by {
                if i != idx {
                    assert(self.data@[i] == old(self).data@[i]);
                }
            }
            assert(units_view(self.units@) =~= units_view(old(self).units@));
            assert(final(self)@.units == old(self)@.units);
        }
    }

    /// Reads a tile if the coordinate is in bounds; reports the
    /// out-of-bounds access otherwise.
    pub fn try_get_tile(&self, x: usize, y: usize) -> (r: Option<usize>)
        requires
            self.wf(),
        ensures
            match r {
                Option::Some(v) => x < self.width && y < self.height && v == self.tile_at(
                    x as int,
                    y as int,
                ),
                Option::None => x >= self.width || y >= self.height,
            },
    {
        if x < self.width && y < self.height {
            Option::Some(self.get_tile(x, y))
        } else {
            Option::None
        }
    }

    /// Writes a tile if the coordinate is in bounds and reports whether it
    /// did; an out-of-bounds write changes nothing.
    pub fn try_set_tile(&mut self, x: usize, y: usize, value: usize) -> (r: bool)
        requires
            old(self).wf(),
            value <= i64::MAX,
        ensures
            final(self).wf(),
            r == (x < old(self).width && y < old(self).height),
            r ==> final(self)@ == (MapV {
                tiles: old(self)@.tiles.update(x + y * old(self).width, value),
                ..old(self)@
            }),
            !r ==> final(self)@ == old(self)@,
    {
        if x < self.width && y < self.height {
            self.set_tile(x, y, value);
            true
        } else {
            false
        }
    }

    /// Appends a unit to the grid's unit list.
    pub fn place_unit(&mut self, unit: MapUnit)
        requires
            old(self).wf(),
            unit.class <= i64::MAX,
        ensures
            final(self).wf(),
            final(self)@ == (MapV { units: old(self)@.units.push(unit@), ..old(self)@ }),
    {
        self.units.push(unit);
        proof {
            assert(units_view(self.units@) =~= units_view(old(self).units@).push(
                self.units@[old(self).units@.len() as int]@,
            ));
            assert(final(self)@ =~= MapV { units: old(self)@.units.push(unit@), ..old(self)@ });
        }
    }

    /// Removes the unit at an index, shifting the rest down.
    pub fn remove_unit(&mut self, index: usize)
        requires
            old(self).wf(),
            index < old(self).units@.len(),
        ensures
            final(self).wf(),
            final(self)@ == (MapV { units: old(self)@.units.remove(index as int), ..old(self)@ }),
    {
        self.units.remove(index);
        proof {
            assert(units_view(self.units@) =~= units_view(old(self).units@).remove(index as int));
            assert(final(self)@ =~= MapV {
                units: old(self)@.units.remove(index as int),
                ..old(self)@
            });
        }
    }

    /// Appends a spawn point to the grid's spawn list.
    pub fn place_spawn(&mut self, pos: (u32, u32))
        requires
            old(self).wf(),
        ensures
            final(self).wf(),
            final(self)@ == (MapV { spawns: old(self)@.spawns.push(pos), ..old(self)@ }),
    {
        self.spawns.push(pos);
        proof {
            assert(units_view(self.units@) =~= units_view(old(self).units@));
            assert(final(self)@ =~= MapV { spawns: old(self)@.spawns.push(pos), ..old(self)@ });
        }
    }

    /// Removes the spawn point at an index, shifting the rest down.
    pub fn remove_spawn(&mut self, index: usize)
        requires
            old(self).wf(),
            index < old(self).spawns@.len(),
        ensures
            final(self).wf(),
            final(self)@ == (MapV { spawns: old(self)@.spawns.remove(index as int), ..old(self)@ }),
    {
        self.spawns.remove(index);
        proof {
            assert(units_view(self.units@) =~= units_view(old(self).units@));
            assert(final(self)@ =~= MapV {
                spawns: old(self)@.spawns.remove(index as int),
                ..old(self)@
            });
        }
    }
}

/// The document shape of a tile buffer: one integer per tile.
pub open spec fn tiles_doc(t: Seq<usize>) -> Seq<DocV> {
    Seq::new(t.len(), |i: int| DocV::Int(t[i] as int))
}

/// The document shape of one unit: an inline table of its fields.
pub open spec fn unit_doc(u: UnitV) -> DocV {
    DocV::Table(
        seq![
            ("x"@, DocV::Int(u.x as int)),
            ("y"@, DocV::Int(u.y as int)),
            ("name"@, DocV::Str(u.name)),
            ("class"@, DocV::Int(u.class as int)),
        ],
    )
}

/// The document shapes of a unit sequence.
pub open spec fn units_doc(us: Seq<UnitV>) -> Seq<DocV> {
    Seq::new(us.len(), |i: int| unit_doc(us[i]))
}

/// The document shape of one spawn point.
pub open spec fn spawn_doc(p: (u32, u32)) -> DocV {
    DocV::Table(seq![("x"@, DocV::Int(p.0 as int)), ("y"@, DocV::Int(p.1 as int))])
}

/// The document shapes of a spawn-point sequence.
pub open spec fn spawns_doc(ss: Seq<(u32, u32)>) -> Seq<DocV> {
    Seq::new(ss.len(), |i: int| spawn_doc(ss[i]))
}

/// The document a map grid serializes to: its dimensions, its tile
/// buffer, its units and its spawn points, in that order.
pub open spec fn map_doc(m: MapV) -> DocV {
    DocV::Table(
        seq![
            ("width"@, DocV::Int(m.width as int)),
            ("height"@, DocV::Int(m.height as int)),
            ("data"@, DocV::Arr(tiles_doc(m.tiles))),
            ("units"@, DocV::Arr(units_doc(m.units))),
            ("spawns"@, DocV::Arr(spawns_doc(m.spawns))),
        ],
    )
}

/// Reads a tile buffer back out of its document shape: every element must
/// be an integer that fits both a machine word and a document integer.
/// A failure carries the message the load reports.
pub open spec fn tiles_of(es: Seq<DocV>, i: int, acc: Seq<usize>) -> Result<Seq<usize>, Seq<char>>
    decreases es.len() - i,
{
    if !(0 <= i <= es.len()) {
        Result::Err("a `data` entry must be an integer"@)
    } else if i == es.len() {
        Result::Ok(acc)
    } else {
        match es[i] {
            DocV::Int(v) => if 0 <= v <= usize::MAX && v <= i64::MAX {
                tiles_of(es, i + 1, acc.push(v as usize))
            } else {
                Result::Err("a `data` entry is out of range"@)
            },
            _ => Result::Err("a `data` entry must be an integer"@),
        }
    }
}

/// Reads one unit back out of its document shape: a table with integer
/// `x` and `y` coordinates, a string `name` and an integer `class`.
/// A failure carries the message the load reports, naming the offending
/// field and the expected type.
pub open spec fn unit_of(d: DocV) -> Result<UnitV, Seq<char>> {
    if !(d is Table) {
        Result::Err("a `units` entry must be a table"@)
    } else {
        let ps = d->Table_0;
        match spec_get(ps, "x"@) {
            Option::Some(DocV::Int(x)) => match spec_get(ps, "y"@) {
                Option::Some(DocV::Int(y)) => match spec_get(ps, "name"@) {
                    Option::Some(DocV::Str(nm)) => match spec_get(ps, "class"@) {
                        Option::Some(DocV::Int(c)) => if !(0 <= x <= u32::MAX && 0 <= y
                            <= u32::MAX) {
                            Result::Err("a unit position must fit 32 bits"@)
                        } else if !(0 <= c <= usize::MAX && c <= i64::MAX) {
                            Result::Err("`class` of a unit is out of range"@)
                        } else {
                            Result::Ok(
                                UnitV { x: x as u32, y: y as u32, name: nm, class: c as usize },
                            )
                        },
                        _ => Result::Err("`class` of a unit must be an integer"@),
                    },
                    _ => Result::Err("`name` of a unit must be a string"@),
                },
                _ => Result::Err("`y` of a unit must be an integer"@),
            },
            _ => Result::Err("`x` of a unit must be an integer"@),
        }
    }
}

/// Reads a unit sequence back out of its document shapes, passing the
/// first failure on.
pub open spec fn units_of(es: Seq<DocV>, i: int, acc: Seq<UnitV>) -> Result<Seq<UnitV>, Seq<char>>
    decreases es.len() - i,
{
    if !(0 <= i <= es.len()) {
        Result::Err("a `units` entry must be a table"@)
    } else if i == es.len() {
        Result::Ok(acc)
    } else {
        match unit_of(es[i]) {
            Result::Ok(u) => units_of(es, i + 1, acc.push(u)),
            Result::Err(m) => Result::Err(m),
        }
    }
}

/// Reads one spawn point back out of its document shape. A failure
/// carries the message the load reports.
pub open spec fn spawn_of(d: DocV) -> Result<(u32, u32), Seq<char>> {
    if !(d is Table) {
        Result::Err("a `spawns` entry must be a table"@)
    } else {
        let ps = d->Table_0;
        match spec_get(ps, "x"@) {
            Option::Some(DocV::Int(x)) => match spec_get(ps, "y"@) {
                Option::Some(DocV::Int(y)) => if 0 <= x <= u32::MAX && 0 <= y <= u32::MAX {
                    Result::Ok((x as u32, y as u32))
                } else {
                    Result::Err("a spawn position must fit 32 bits"@)
                },
                _ => Result::Err("`y` of a spawn must be an integer"@),
            },
            _ => Result::Err("`x` of a spawn must be an integer"@),
        }
    }
}

/// Reads a spawn-point sequence back out of its document shapes, passing
/// the first failure on.
pub open spec fn spawns_of(es: Seq<DocV>, i: int, acc: Seq<(u32, u32)>) -> Result<
    Seq<(u32, u32)>,
    Seq<char>,
>
    decreases es.len() - i,
{
    if !(0 <= i <= es.len()) {
        Result::Err("a `spawns` entry must be a table"@)
    } else if i == es.len() {
        Result::Ok(acc)
    } else {
        match spawn_of(es[i]) {
            Result::Ok(p) => spawns_of(es, i + 1, acc.push(p)),
            Result::Err(m) => Result::Err(m),
        }
    }
}

/// Reads a whole map grid back out of a document, under the given name.
/// Every failure is a schema condition — a missing or mistyped field, a
/// dimension that is not positive, a number out of range, or a tile
/// buffer whose length is not `width * height` — and carries the message
/// the load reports, naming the offending field and the expected type.
pub open spec fn map_of_doc(d: DocV, name: Seq<char>) -> Result<MapV, Seq<char>> {
    if !(d is Table) {
        Result::Err("a map document must be a table"@)
    } else {
        let ps = d->Table_0;
        match spec_get(ps, "width"@) {
            Option::Some(DocV::Int(w)) => match spec_get(ps, "height"@) {
                Option::Some(DocV::Int(h)) => if w < 1 || h < 1 {
                    Result::Err("`width` and `height` must be positive"@)
                } else if w > usize::MAX || h > usize::MAX {
                    Result::Err("`width` or `height` is out of range"@)
                } else if w * h > usize::MAX {
                    Result::Err("the map area is out of range"@)
                } else {
                    match spec_get(ps, "data"@) {
                        Option::Some(DocV::Arr(des)) => match tiles_of(des, 0, Seq::empty()) {
                            Result::Ok(tiles) => if tiles.len() != w * h {
                                Result::Err(
                                    "the `data` array\'s length must equal `width` times `height`"@,
                                )
                            } else {
                                match spec_get(ps, "units"@) {
                                    Option::Some(DocV::Arr(ues)) => match units_of(
                                        ues,
                                        0,
                                        Seq::empty(),
                                    ) {
                                        Result::Ok(units) => match spec_get(ps, "spawns"@) {
                                            Option::Some(DocV::Arr(ses)) => match spawns_of(
                                                ses,
                                                0,
                                                Seq::empty(),
                                            ) {
                                                Result::Ok(spawns) => Result::Ok(
                                                    MapV {
                                                        name,
                                                        width: w as usize,
                                                        height: h as usize,
                                                        tiles,
                                                        units,
                                                        spawns,
                                                    },
                                                ),
                                                Result::Err(m) => Result::Err(m),
                                            },
                                            _ => Result::Err("`spawns` must be an array"@),
                                        },
                                        Result::Err(m) => Result::Err(m),
                                    },
                                    _ => Result::Err("`units` must be an array"@),
                                }
                            },
                            Result::Err(m) => Result::Err(m),
                        },
                        _ => Result::Err("`data` must be an array"@),
                    }
                },
                _ => Result::Err("`height` must be an integer"@),
            },
            _ => Result::Err("`width` must be an integer"@),
        }
    }
}

/// Builds the inline-table pairs of one unit's document shape.
fn unit_pairs(u: &MapUnit) -> (r: Vec<(String, DocValue)>)
    requires
        u.class <= i64::MAX,
    ensures
        pairs_view(r@) == unit_doc(u@)->Table_0,
{
    let mut ps: Vec<(String, DocValue)> = Vec::new();
    ps.push(("x".to_owned(), DocValue::Int(u.x as i64)));
    ps.push(("y".to_owned(), DocValue::Int(u.y as i64)));
    ps.push(("name".to_owned(), DocValue::Str(u.name.clone())));
    ps.push(("class".to_owned(), DocValue::Int(u.class as i64)));
    proof {
        crate::document::lemma_pairs_view(ps@);
        assert(ps@.len() == 4);
        assert(ps@[0].0@ == "x"@);
        assert(doc_view(ps@[0].1) == DocV::Int(u.x as int));
        assert(pairs_view(ps@)[0] == ("x"@, DocV::Int(u.x as int)));
        assert(unit_doc(u@)->Table_0[0] == ("x"@, DocV::Int(u.x as int)));
        assert(ps@[1].0@ == "y"@ && doc_view(ps@[1].1) == DocV::Int(u.y as int));
        assert(pairs_view(ps@)[1] == ("y"@, DocV::Int(u.y as int)));
        assert(ps@[2].0@ == "name"@ && doc_view(ps@[2].1) == DocV::Str(u.name@));
        assert(pairs_view(ps@)[2] == ("name"@, DocV::Str(u.name@)));
        assert(ps@[3].0@ == "class"@ && doc_view(ps@[3].1) == DocV::Int(u.class as int));
        assert(pairs_view(ps@)[3] == ("class"@, DocV::Int(u.class as int)));
        assert(pairs_view(ps@) =~~= unit_doc(u@)->Table_0);
    }
    ps
}

impl MapUnit {
    /// Serializes this unit to its document shape.
    pub fn to_document(&self) -> (r: DocValue)
        requires
            self.class <= i64::MAX,
        ensures
            r@ == unit_doc(self@),
    {
        DocValue::Table(unit_pairs(self))
    }

    /// Serializes this unit to the comma-separated `key = value` text that
    /// stands between the braces of its inline table.
    pub fn to_toml_dict(&self) -> (r: String)
        requires
            self.class <= i64::MAX,
        ensures
            r@ == render_inline_pairs(unit_doc(self@)->Table_0),
    {
        let ps = unit_pairs(self);
        let mut out: Vec<char> = Vec::new();
        crate::document::append_inline_pairs(&mut out, &ps, 0);
        proof {
            assert(pairs_view(ps@).skip(0) =~= pairs_view(ps@));
        }
        chars_to_string(&out)
    }
}

impl MapData {
    /// Serializes the grid to its document shape: the inverse of
    /// `from_document` under the same name.
    pub fn to_document(&self) -> (r: DocValue)
        requires
            self.wf(),
        ensures
            r@ == map_doc(self@),
    {
        let mut tiles: Vec<DocValue> = Vec::new();
        let mut i: usize = 0;
        while i < self.data.len()
            invariant
                self.wf(),
                i <= self.data@.len(),
                vals_view(tiles@) == tiles_doc(self.data@.subrange(0, i as int)),
            decreases self.data@.len() - i,
        {
            let ghost before = tiles@;
            tiles.push(DocValue::Int(self.data[i] as i64));
            proof {
                crate::document::lemma_vals_view_push(before, tiles@[before.len() as int]);
                assert(vals_view(tiles@) =~= tiles_doc(self.data@.subrange(0, i + 1)));
            }
            i = i + 1;
        }
        proof {
            assert(self.data@.subrange(0, self.data@.len() as int) =~= self.data@);
        }
        let mut units: Vec<DocValue> = Vec::new();
        let mut i: usize = 0;
        while i < self.units.len()
            invariant
                self.wf(),
                i <= self.units@.len(),
                vals_view(units@) == units_doc(units_view(self.units@).subrange(0, i as int)),
            decreases self.units@.len() - i,
        {
            let ghost before = units@;
            assert(self@.units[i as int].class <= i64::MAX);
            units.push(self.units[i].to_document());
            proof {
                crate::document::lemma_vals_view_push(before, units@[before.len() as int]);
                assert(vals_view(units@) =~= units_doc(
                    units_view(self.units@).subrange(0, i + 1),
                ));
            }
            i = i + 1;
        }
        proof {
            assert(units_view(self.units@).subrange(0, self.units@.len() as int) =~= units_view(
                self.units@,
            ));
        }
        let mut spawns: Vec<DocValue> = Vec::new();
        let mut i: usize = 0;
        while i < self.spawns.len()
            invariant
                i <= self.spawns@.len(),
                vals_view(spawns@) == spawns_doc(self.spawns@.subrange(0, i as int)),
            decreases self.spawns@.len() - i,
        {
            let ghost before = spawns@;
            let p = self.spawns[i];
            let mut ps: Vec<(String, DocValue)> = Vec::new();
            ps.push(("x".to_owned(), DocValue::Int(p.0 as i64)));
            ps.push(("y".to_owned(), DocValue::Int(p.1 as i64)));
            proof {
                crate::document::lemma_pairs_view(ps@);
                assert(ps@[0].0@ == "x"@ && doc_view(ps@[0].1) == DocV::Int(p.0 as int));
                assert(pairs_view(ps@)[0] == ("x"@, DocV::Int(p.0 as int)));
                assert(ps@[1].0@ == "y"@ && doc_view(ps@[1].1) == DocV::Int(p.1 as int));
                assert(pairs_view(ps@)[1] == ("y"@, DocV::Int(p.1 as int)));
                assert(pairs_view(ps@) =~~= spawn_doc(self.spawns@[i as int])->Table_0);
            }
            spawns.push(DocValue::Table(ps));
            proof {
                crate::document::lemma_vals_view_push(before, spawns@[before.len() as int]);
                assert(vals_view(spawns@) =~= spawns_doc(self.spawns@.subrange(0, i + 1)));
            }
            i = i + 1;
        }
        proof {
            assert(self.spawns@.subrange(0, self.spawns@.len() as int) =~= self.spawns@);
        }
        let mut top: Vec<(String, DocValue)> = Vec::new();
        top.push(("width".to_owned(), DocValue::Int(self.width as i64)));
        top.push(("height".to_owned(), DocValue::Int(self.height as i64)));
        top.push(("data".to_owned(), DocValue::Arr(tiles)));
        top.push(("units".to_owned(), DocValue::Arr(units)));
        top.push(("spawns".to_owned(), DocValue::Arr(spawns)));
        proof {
            crate::document::lemma_pairs_view(top@);
            assert(top@[0].0@ == "width"@ && doc_view(top@[0].1) == DocV::Int(self.width as int));
            assert(pairs_view(top@)[0] == ("width"@, DocV::Int(self.width as int)));
            assert(top@[1].0@ == "height"@ && doc_view(top@[1].1) == DocV::Int(
                self.height as int,
            ));
            assert(pairs_view(top@)[1] == ("height"@, DocV::Int(self.height as int)));
            assert(top@[2].0@ == "data"@ && doc_view(top@[2].1) == DocV::Arr(
                tiles_doc(self@.tiles),
            ));
            assert(pairs_view(top@)[2] == ("data"@, DocV::Arr(tiles_doc(self@.tiles))));
            assert(top@[3].0@ == "units"@ && doc_view(top@[3].1) == DocV::Arr(
                units_doc(self@.units),
            ));
            assert(pairs_view(top@)[3] == ("units"@, DocV::Arr(units_doc(self@.units))));
            assert(top@[4].0@ == "spawns"@ && doc_view(top@[4].1) == DocV::Arr(
                spawns_doc(self@.spawns),
            ));
            assert(pairs_view(top@)[4] == ("spawns"@, DocV::Arr(spawns_doc(self@.spawns))));
            assert(pairs_view(top@) =~~= map_doc(self@)->Table_0);
        }
        DocValue::Table(top)
    }

    /// Serializes the grid to schema text.
    pub fn to_toml(&self) -> (r: String)
        requires
            self.wf(),
        ensures
            r@ == render_document_spec(map_doc(self@)),
    {
        let doc = self.to_document();
        crate::document::render_document(&doc)
    }

    /// Decides well-formedness at run time, for callers that assembled a
    /// grid from parts the library did not check.
    pub fn is_well_formed(&self) -> (r: bool)
        ensures
            r == self.wf(),
    {
        if self.width < 1 || self.height < 1 {
            return false;
        }
        if self.width as u64 > i64::MAX as u64 || self.height as u64 > i64::MAX as u64 {
            return false;
        }
        proof {
            assert((self.width as int) * (self.height as int) <= u64::MAX as int * u64::MAX as int)
                by (nonlinear_arith)
                requires
                    self.width <= u64::MAX,
                    self.height <= u64::MAX,
            ;
        }
        if (self.width as u128) * (self.height as u128) != self.data.len() as u128 {
            return false;
        }
        let mut i: usize = 0;
        while i < self.data.len()
            invariant
                i <= self.data@.len(),
                forall|t: int| 0 <= t < i ==> #[trigger] self.data@[t] <= i64::MAX,
            decreases self.data@.len() - i,
        {
            if self.data[i] as u64 > i64::MAX as u64 {
                proof {
                    assert(self@.tiles[i as int] > i64::MAX);
                }
                return false;
            }
            i = i + 1;
        }
        let mut i: usize = 0;
        while i < self.units.len()
            invariant
                i <= self.units@.len(),
                forall|t: int|
                    0 <= t < i ==> (#[trigger] units_view(self.units@)[t]).class <= i64::MAX,
            decreases self.units@.len() - i,
        {
            if self.units[i].class as u64 > i64::MAX as u64 {
                proof {
                    assert(units_view(self.units@)[i as int].class == self.units@[i as int].class);
                    assert(self@.units[i as int].class > i64::MAX);
                    assert(!self.wf());
                }
                return false;
            }
            proof {
                assert(units_view(self.units@)[i as int].class == self.units@[i as int].class);
            }
            i = i + 1;
        }
        true
    }
}

/// A schema failure: a required field is missing, mistyped or out of
/// range.
fn schema_err(msg: &str) -> (r: FeError)
    ensures
        r.kind == ErrorKind::Schema,
        r.msg@ == msg@,
{
    FeError { kind: ErrorKind::Schema, msg: msg.to_owned() }
}

/// Reads one unit out of its document shape, validating every field.
fn unit_from_document(d: &DocValue) -> (r: Result<MapUnit, FeError>)
    ensures
        match r {
            Result::Ok(u) => unit_of(d@) == Result::<UnitV, Seq<char>>::Ok(u@) && u.class <= i64::MAX,
            Result::Err(e) => unit_of(d@) is Err && e.kind == ErrorKind::Schema && e.msg@
                == unit_of(d@)->Err_0,
        },
{
    let ps = match d {
        DocValue::Table(ps) => ps,
        _ => {
            return Result::Err(schema_err("a `units` entry must be a table"));
        },
    };
    let xkey = "x".to_owned();
    let x = match doc_get(ps, &xkey) {
        Option::Some(DocValue::Int(v)) => *v,
        _ => {
            return Result::Err(schema_err("`x` of a unit must be an integer"));
        },
    };
    let ykey = "y".to_owned();
    let y = match doc_get(ps, &ykey) {
        Option::Some(DocValue::Int(v)) => *v,
        _ => {
            return Result::Err(schema_err("`y` of a unit must be an integer"));
        },
    };
    let nkey = "name".to_owned();
    let name = match doc_get(ps, &nkey) {
        Option::Some(DocValue::Str(s)) => s.clone(),
        _ => {
            return Result::Err(schema_err("`name` of a unit must be a string"));
        },
    };
    let ckey = "class".to_owned();
    let class = match doc_get(ps, &ckey) {
        Option::Some(DocValue::Int(v)) => *v,
        _ => {
            return Result::Err(schema_err("`class` of a unit must be an integer"));
        },
    };
    if !(0 <= x && x <= u32::MAX as i64 && 0 <= y && y <= u32::MAX as i64) {
        return Result::Err(schema_err("a unit position must fit 32 bits"));
    }
    if class < 0 || class as u64 > usize::MAX as u64 {
        return Result::Err(schema_err("`class` of a unit is out of range"));
    }
    let u = MapUnit { x: x as u32, y: y as u32, name, class: class as usize };
    proof {
        assert(unit_of(d@) is Ok);
        assert(unit_of(d@)->Ok_0 =~~= u@);
    }
    Result::Ok(u)
}

impl MapData {
    /// Reconstructs a grid from a document under the given name: the
    /// inverse of `to_document`. Returns a schema error exactly when a
    /// field is missing, mistyped or out of range, a dimension is not
    /// positive, or the tile array's length is not `width * height`; a
    /// grid is returned only when the whole document is valid.
    pub fn from_document(doc: &DocValue, name: String) -> (r: Result<MapData, FeError>)
        ensures
            match r {
                Result::Ok(g) => map_of_doc(doc@, name@) == Result::<MapV, Seq<char>>::Ok(g@) && g.wf()
                    && g.name@ == name@,
                Result::Err(e) => map_of_doc(doc@, name@) is Err && e.kind == ErrorKind::Schema
                    && e.msg@ == map_of_doc(doc@, name@)->Err_0,
            },
    {
        let ps = match doc {
            DocValue::Table(ps) => ps,
            _ => {
                return Result::Err(schema_err("a map document must be a table"));
            },
        };
        let wkey = "width".to_owned();
        let w = match doc_get(ps, &wkey) {
            Option::Some(DocValue::Int(v)) => *v,
            _ => {
                return Result::Err(schema_err("`width` must be an integer"));
            },
        };
        let hkey = "height".to_owned();
        let h = match doc_get(ps, &hkey) {
            Option::Some(DocValue::Int(v)) => *v,
            _ => {
                return Result::Err(schema_err("`height` must be an integer"));
            },
        };
        if w < 1 || h < 1 {
            return Result::Err(schema_err("`width` and `height` must be positive"));
        }
        if w as u64 > usize::MAX as u64 || h as u64 > usize::MAX as u64 {
            return Result::Err(schema_err("`width` or `height` is out of range"));
        }
        let width = w as usize;
        let height = h as usize;
        proof {
            assert((width as int) * (height as int) <= u64::MAX as int * u64::MAX as int)
                by (nonlinear_arith)
                requires
                    width <= u64::MAX,
                    height <= u64::MAX,
            ;
        }
        if (width as u128) * (height as u128) > usize::MAX as u128 {
            return Result::Err(schema_err("the map area is out of range"));
        }
        let dkey = "data".to_owned();
        let des = match doc_get(ps, &dkey) {
            Option::Some(DocValue::Arr(es)) => es,
            _ => {
                return Result::Err(schema_err("`data` must be an array"));
            },
        };
        proof {
            crate::document::lemma_vals_view(des@);
        }
        let mut tiles: Vec<usize> = Vec::new();
        let mut i: usize = 0;
        while i < des.len()
            invariant
                i <= des@.len(),
                doc@ == DocV::Table(pairs_view(ps@)),
                spec_get(pairs_view(ps@), "width"@) == Option::Some(DocV::Int(width as int)),
                spec_get(pairs_view(ps@), "height"@) == Option::Some(DocV::Int(height as int)),
                1 <= width <= i64::MAX,
                1 <= height <= i64::MAX,
                width * height <= usize::MAX,
                spec_get(pairs_view(ps@), "data"@) == Option::Some(DocV::Arr(vals_view(des@))),
                vals_view(des@).len() == des@.len(),
                forall|t: int|
                    0 <= t < des@.len() ==> vals_view(des@)[t] == doc_view(#[trigger] des@[t]),
                tiles_of(vals_view(des@), 0, Seq::empty()) == tiles_of(
                    vals_view(des@),
                    i as int,
                    tiles@,
                ),
                forall|t: int| 0 <= t < tiles@.len() ==> #[trigger] tiles@[t] <= i64::MAX,
            decreases des@.len() - i,
        {
            match &des[i] {
                DocValue::Int(v) => {
                    if *v < 0 || *v as u64 > usize::MAX as u64 {
                        return Result::Err(schema_err("a `data` entry is out of range"));
                    }
                    tiles.push(*v as usize);
                },
                _ => {
                    return Result::Err(schema_err("a `data` entry must be an integer"));
                },
            }
            i = i + 1;
        }
        if tiles.len() != width * height {
            return Result::Err(
                schema_err("the `data` array's length must equal `width` times `height`"),
            );
        }
        let ukey = "units".to_owned();
        let ues = match doc_get(ps, &ukey) {
            Option::Some(DocValue::Arr(es)) => es,
            _ => {
                return Result::Err(schema_err("`units` must be an array"));
            },
        };
        proof {
            crate::document::lemma_vals_view(ues@);
        }
        let mut units: Vec<MapUnit> = Vec::new();
        proof {
            assert(units_view(units@) =~= Seq::<UnitV>::empty());
        }
        let mut i: usize = 0;
        while i < ues.len()
            invariant
                i <= ues@.len(),
                doc@ == DocV::Table(pairs_view(ps@)),
                spec_get(pairs_view(ps@), "width"@) == Option::Some(DocV::Int(width as int)),
                spec_get(pairs_view(ps@), "height"@) == Option::Some(DocV::Int(height as int)),
                1 <= width <= i64::MAX,
                1 <= height <= i64::MAX,
                width * height <= usize::MAX,
                spec_get(pairs_view(ps@), "data"@) == Option::Some(DocV::Arr(vals_view(des@))),
                tiles_of(vals_view(des@), 0, Seq::empty()) == Result::<Seq<usize>, Seq<char>>::Ok(tiles@),
                tiles@.len() == width * height,
                spec_get(pairs_view(ps@), "units"@) == Option::Some(DocV::Arr(vals_view(ues@))),
                vals_view(ues@).len() == ues@.len(),
                forall|t: int|
                    0 <= t < ues@.len() ==> vals_view(ues@)[t] == doc_view(#[trigger] ues@[t]),
                units_of(vals_view(ues@), 0, Seq::empty()) == units_of(
                    vals_view(ues@),
                    i as int,
                    units_view(units@),
                ),
                forall|t: int|
                    0 <= t < units@.len() ==> (#[trigger] units_view(units@)[t]).class <= i64::MAX,
            decreases ues@.len() - i,
        {
            let ghost before = units_view(units@);
            match unit_from_document(&ues[i]) {
                Result::Ok(u) => {
                    units.push(u);
                    proof {
                        assert(units_view(units@) =~= before.push(
                            units@[units@.len() - 1]@,
                        ));
                    }
                },
                Result::Err(e) => {
                    return Result::Err(e);
                },
            }
            i = i + 1;
        }
        let skey = "spawns".to_owned();
        let ses = match doc_get(ps, &skey) {
            Option::Some(DocValue::Arr(es)) => es,
            _ => {
                return Result::Err(schema_err("`spawns` must be an array"));
            },
        };
        proof {
            crate::document::lemma_vals_view(ses@);
        }
        let mut spawns: Vec<(u32, u32)> = Vec::new();
        let mut i: usize = 0;
        while i < ses.len()
            invariant
                i <= ses@.len(),
                doc@ == DocV::Table(pairs_view(ps@)),
                spec_get(pairs_view(ps@), "width"@) == Option::Some(DocV::Int(width as int)),
                spec_get(pairs_view(ps@), "height"@) == Option::Some(DocV::Int(height as int)),
                1 <= width <= i64::MAX,
                1 <= height <= i64::MAX,
                width * height <= usize::MAX,
                spec_get(pairs_view(ps@), "data"@) == Option::Some(DocV::Arr(vals_view(des@))),
                tiles_of(vals_view(des@), 0, Seq::empty()) == Result::<Seq<usize>, Seq<char>>::Ok(tiles@),
                tiles@.len() == width * height,
                spec_get(pairs_view(ps@), "units"@) == Option::Some(DocV::Arr(vals_view(ues@))),
                units_of(vals_view(ues@), 0, Seq::empty()) == Result::<Seq<UnitV>, Seq<char>>::Ok(units_view(units@)),
                forall|t: int|
                    0 <= t < units@.len() ==> (#[trigger] units_view(units@)[t]).class <= i64::MAX,
                spec_get(pairs_view(ps@), "spawns"@) == Option::Some(DocV::Arr(vals_view(ses@))),
                vals_view(ses@).len() == ses@.len(),
                forall|t: int|
                    0 <= t < ses@.len() ==> vals_view(ses@)[t] == doc_view(#[trigger] ses@[t]),
                spawns_of(vals_view(ses@), 0, Seq::empty()) == spawns_of(
                    vals_view(ses@),
                    i as int,
                    spawns@,
                ),
            decreases ses@.len() - i,
        {
            let sps = match &ses[i] {
                DocValue::Table(sps) => sps,
                _ => {
                    return Result::Err(schema_err("a `spawns` entry must be a table"));
                },
            };
            let xkey = "x".to_owned();
            let x = match doc_get(sps, &xkey) {
                Option::Some(DocValue::Int(v)) => *v,
                _ => {
                    return Result::Err(schema_err("`x` of a spawn must be an integer"));
                },
            };
            let ykey = "y".to_owned();
            let y = match doc_get(sps, &ykey) {
                Option::Some(DocValue::Int(v)) => *v,
                _ => {
                    return Result::Err(schema_err("`y` of a spawn must be an integer"));
                },
            };
            if !(0 <= x && x <= u32::MAX as i64 && 0 <= y && y <= u32::MAX as i64) {
                return Result::Err(schema_err("a spawn position must fit 32 bits"));
            }
            spawns.push((x as u32, y as u32));
            i = i + 1;
        }
        let g = MapData { name, width, height, data: tiles, units, spawns };
        proof {
            assert(map_of_doc(doc@, name@) is Ok);
            assert(map_of_doc(doc@, name@)->Ok_0 =~~= g@);
            assert(wf_map(g@));
        }
        Result::Ok(g)
    }

    /// Opens a map from schema text under the given name: parses the text
    /// and reconstructs the grid. Returns a parse error exactly when the
    /// text is not grammatical, a schema error exactly when the parsed
    /// document does not describe a valid grid, and the grid otherwise.
    pub fn open(name: String, text: &str) -> (r: Result<MapData, FeError>)
        ensures
            match r {
                Result::Ok(g) => parse_document_chars(text@) is Some && map_of_doc(
                    parse_document_chars(text@)->Some_0,
                    name@,
                ) == Result::<MapV, Seq<char>>::Ok(g@) && g.wf() && g.name@ == name@,
                Result::Err(e) => (parse_document_chars(text@) is None && e.kind
                    == ErrorKind::Parse) || (parse_document_chars(text@) is Some && map_of_doc(
                    parse_document_chars(text@)->Some_0,
                    name@,
                ) is Err && e.kind == ErrorKind::Schema && e.msg@ == map_of_doc(
                    parse_document_chars(text@)->Some_0,
                    name@,
                )->Err_0),
            },
    {
        match parse_document_text(text) {
            Result::Ok(doc) => MapData::from_document(&doc, name),
            Result::Err(e) => Result::Err(e),
        }
    }
}

/// Reading a rendered tile buffer back yields the tiles already gathered
/// plus the remaining tiles.
proof fn lemma_tiles_round(t: Seq<usize>, i: int, acc: Seq<usize>)
    requires
        0 <= i <= t.len(),
        forall|k: int| 0 <= k < t.len() ==> #[trigger] t[k] <= i64::MAX,
    ensures
        tiles_of(tiles_doc(t), i, acc) == Result::<Seq<usize>, Seq<char>>::Ok(acc + t.skip(i)),
    decreases t.len() - i,
{
    if i == t.len() {
        assert(acc + t.skip(i) =~= acc);
    } else {
        lemma_tiles_round(t, i + 1, acc.push(t[i]));
        assert(tiles_doc(t)[i] == DocV::Int(t[i] as int));
        assert(acc.push(t[i]) + t.skip(i + 1) =~= acc + t.skip(i));
    }
}

/// Reading a rendered unit back yields that unit.
proof fn lemma_unit_round(u: UnitV)
    requires
        u.class <= i64::MAX,
    ensures
        unit_of(unit_doc(u)) == Result::<UnitV, Seq<char>>::Ok(u),
{
    reveal_strlit("x");
    reveal_strlit("y");
    reveal_strlit("name");
    reveal_strlit("class");
    let ps = unit_doc(u)->Table_0;
    let p1 = ps.drop_first();
    let p2 = p1.drop_first();
    let p3 = p2.drop_first();
    assert("x"@.len() == 1);
    assert("name"@.len() == 4);
    assert("x"@[0] == 'x');
    assert("y"@[0] == 'y');
    assert("x"@ != "y"@ && "x"@ != "name"@ && "x"@ != "class"@);
    assert("y"@ != "name"@ && "y"@ != "class"@);
    assert("name"@ != "class"@);
    assert(spec_get(ps, "x"@) == Option::Some(DocV::Int(u.x as int)));
    assert(spec_get(p1, "y"@) == Option::Some(DocV::Int(u.y as int)));
    assert(spec_get(ps, "y"@) == spec_get(p1, "y"@));
    assert(spec_get(p2, "name"@) == Option::Some(DocV::Str(u.name)));
    assert(spec_get(p1, "name"@) == spec_get(p2, "name"@));
    assert(spec_get(ps, "name"@) == spec_get(p1, "name"@));
    assert(spec_get(p3, "class"@) == Option::Some(DocV::Int(u.class as int)));
    assert(spec_get(p2, "class"@) == spec_get(p3, "class"@));
    assert(spec_get(p1, "class"@) == spec_get(p2, "class"@));
    assert(spec_get(ps, "class"@) == spec_get(p1, "class"@));
    assert(unit_of(unit_doc(u)) is Ok);
    assert(unit_of(unit_doc(u))->Ok_0 =~~= u);
}

/// Reading rendered units back yields the units already gathered plus the
/// remaining units.
proof fn lemma_units_round(us: Seq<UnitV>, i: int, acc: Seq<UnitV>)
    requires
        0 <= i <= us.len(),
        forall|k: int| 0 <= k < us.len() ==> (#[trigger] us[k]).class <= i64::MAX,
    ensures
        units_of(units_doc(us), i, acc) == Result::<Seq<UnitV>, Seq<char>>::Ok(acc + us.skip(i)),
    decreases us.len() - i,
{
    if i == us.len() {
        assert(acc + us.skip(i) =~= acc);
    } else {
        lemma_unit_round(us[i]);
        lemma_units_round(us, i + 1, acc.push(us[i]));
        assert(units_doc(us)[i] == unit_doc(us[i]));
        assert(acc.push(us[i]) + us.skip(i + 1) =~= acc + us.skip(i));
    }
}

/// Reading a rendered spawn point back yields that spawn point.
proof fn lemma_spawn_round(p: (u32, u32))
    ensures
        spawn_of(spawn_doc(p)) == Result::<(u32, u32), Seq<char>>::Ok(p),
{
    reveal_strlit("x");
    reveal_strlit("y");
    let ps = spawn_doc(p)->Table_0;
    let p1 = ps.drop_first();
    assert("x"@[0] == 'x' && "y"@[0] == 'y');
    assert("x"@ != "y"@);
    assert(spec_get(ps, "x"@) == Option::Some(DocV::Int(p.0 as int)));
    assert(spec_get(p1, "y"@) == Option::Some(DocV::Int(p.1 as int)));
    assert(spec_get(ps, "y"@) == spec_get(p1, "y"@));
}

/// Reading rendered spawn points back yields the spawn points already
/// gathered plus the remaining ones.
proof fn lemma_spawns_round(ss: Seq<(u32, u32)>, i: int, acc: Seq<(u32, u32)>)
    requires
        0 <= i <= ss.len(),
    ensures
        spawns_of(spawns_doc(ss), i, acc) == Result::<Seq<(u32, u32)>, Seq<char>>::Ok(acc + ss.skip(i)),
    decreases ss.len() - i,
{
    if i == ss.len() {
        assert(acc + ss.skip(i) =~= acc);
    } else {
        lemma_spawn_round(ss[i]);
        lemma_spawns_round(ss, i + 1, acc.push(ss[i]));
        assert(spawns_doc(ss)[i] == spawn_doc(ss[i]));
        assert(acc.push(ss[i]) + ss.skip(i + 1) =~= acc + ss.skip(i));
    }
}

/// Serialization round-trips: reading a well-formed grid's document back
/// under the grid's own name yields the grid again, with its width,
/// height, tile array, units and spawn points all equal.
pub proof fn lemma_map_document_round_trip(m: MapV)
    requires
        wf_map(m),
    ensures
        map_of_doc(map_doc(m), m.name) == Result::<MapV, Seq<char>>::Ok(m),
{
    reveal_strlit("width");
    reveal_strlit("height");
    reveal_strlit("data");
    reveal_strlit("units");
    reveal_strlit("spawns");
    let ps = map_doc(m)->Table_0;
    let p1 = ps.drop_first();
    let p2 = p1.drop_first();
    let p3 = p2.drop_first();
    let p4 = p3.drop_first();
    assert("width"@.len() == 5 && "height"@.len() == 6 && "data"@.len() == 4 && "units"@.len()
        == 5 && "spawns"@.len() == 6);
    assert("width"@[0] == 'w' && "height"@[0] == 'h' && "units"@[0] == 'u' && "spawns"@[0] == 's');
    assert("width"@ != "height"@ && "width"@ != "data"@ && "width"@ != "units"@ && "width"@
        != "spawns"@);
    assert("height"@ != "data"@ && "height"@ != "units"@ && "height"@ != "spawns"@);
    assert("data"@ != "units"@ && "data"@ != "spawns"@);
    assert("units"@ != "spawns"@);
    assert(spec_get(ps, "width"@) == Option::Some(DocV::Int(m.width as int)));
    assert(spec_get(p1, "height"@) == Option::Some(DocV::Int(m.height as int)));
    assert(spec_get(ps, "height"@) == spec_get(p1, "height"@));
    assert(spec_get(p2, "data"@) == Option::Some(DocV::Arr(tiles_doc(m.tiles))));
    assert(spec_get(p1, "data"@) == spec_get(p2, "data"@));
    assert(spec_get(ps, "data"@) == spec_get(p1, "data"@));
    assert(spec_get(p3, "units"@) == Option::Some(DocV::Arr(units_doc(m.units))));
    assert(spec_get(p2, "units"@) == spec_get(p3, "units"@));
    assert(spec_get(p1, "units"@) == spec_get(p2, "units"@));
    assert(spec_get(ps, "units"@) == spec_get(p1, "units"@));
    assert(spec_get(p4, "spawns"@) == Option::Some(DocV::Arr(spawns_doc(m.spawns))));
    assert(spec_get(p3, "spawns"@) == spec_get(p4, "spawns"@));
    assert(spec_get(p2, "spawns"@) == spec_get(p3, "spawns"@));
    assert(spec_get(p1, "spawns"@) == spec_get(p2, "spawns"@));
    assert(spec_get(ps, "spawns"@) == spec_get(p1, "spawns"@));
    lemma_tiles_round(m.tiles, 0, Seq::empty());
    assert(Seq::empty() + m.tiles.skip(0) =~= m.tiles);
    lemma_units_round(m.units, 0, Seq::empty());
    assert(Seq::empty() + m.units.skip(0) =~= m.units);
    lemma_spawns_round(m.spawns, 0, Seq::empty());
    assert(Seq::empty() + m.spawns.skip(0) =~= m.spawns);
    assert(map_of_doc(map_doc(m), m.name) is Ok);
    assert(map_of_doc(map_doc(m), m.name)->Ok_0 =~~= m);
}

/// Appends a copy of a text fragment to a character buffer.
fn append_text(out: &mut Vec<char>, s: &str)
    ensures
        final(out)@ == old(out)@ + s@,
{
    let cs = crate::text::str_chars(s);
    let mut i: usize = 0;
    while i < cs.len()
        invariant
            i <= cs@.len(),
            cs@ == s@,
            out@ == old(out)@ + cs@.subrange(0, i as int),
        decreases cs@.len() - i,
    {
        out.push(cs[i]);
        i = i + 1;
        proof {
            assert(out@ =~= old(out)@ + cs@.subrange(0, i as int));
        }
    }
    proof {
        assert(cs@.subrange(0, cs@.len() as int) =~= cs@);
    }
}

/// The Rust source text one unit exports to for the game engine.
pub open spec fn unit_engine_text(u: UnitV) -> Seq<char> {
    "UnitData {\n\tname: "@ + crate::document::render_value(DocV::Str(u.name)) + ",\n\tx: "@
        + crate::text::dec_digits(u.x as nat) + ",\n\ty: "@ + crate::text::dec_digits(u.y as nat)
        + ",\n\tis_boss: false\n\tlevel: 1\n}\n"@
}

impl MapUnit {
    /// Exports the unit as Rust source text for the game engine: its
    /// name quoted and escaped, its position in decimal, and default
    /// values for the fields the editor does not track.
    pub fn to_engine(&self) -> (r: String)
        ensures
            r@ == unit_engine_text(self@),
    {
        let mut out: Vec<char> = Vec::new();
        append_text(&mut out, "UnitData {\n\tname: ");
        let nm = crate::text::str_chars(self.name.as_str());
        out.push('"');
        crate::text::append_escaped(&mut out, &nm);
        out.push('"');
        append_text(&mut out, ",\n\tx: ");
        let xd = crate::text::u64_dec_chars(self.x as u64);
        append_digits(&mut out, &xd);
        append_text(&mut out, ",\n\ty: ");
        let yd = crate::text::u64_dec_chars(self.y as u64);
        append_digits(&mut out, &yd);
        append_text(&mut out, ",\n\tis_boss: false\n\tlevel: 1\n}\n");
        proof {
            assert(out@ =~= unit_engine_text(self@));
        }
        chars_to_string(&out)
    }
}

/// Appends a copy of a rendered digit run to a character buffer.
fn append_digits(out: &mut Vec<char>, digits: &Vec<char>)
    ensures
        final(out)@ == old(out)@ + digits@,
{
    let mut i: usize = 0;
    while i < digits.len()
        invariant
            i <= digits@.len(),
            out@ == old(out)@ + digits@.subrange(0, i as int),
        decreases digits@.len() - i,
    {
        out.push(digits[i]);
        i = i + 1;
        proof {
            assert(out@ =~= old(out)@ + digits@.subrange(0, i as int));
        }
    }
    proof {
        assert(digits@.subrange(0, digits@.len() as int) =~= digits@);
    }
}

/// The engine export of the first `i` units, one per line.
pub open spec fn units_engine_upto(us: Seq<UnitV>, i: int) -> Seq<char>
    decreases i,
{
    if i <= 0 {
        Seq::empty()
    } else {
        units_engine_upto(us, i - 1) + unit_engine_text(us[i - 1]) + ",\n"@
    }
}

/// The Rust source text a map exports to for the game engine.
pub open spec fn map_engine_text(m: MapV) -> Seq<char> {
    "LevelData {\n\twidth: "@ + crate::text::dec_digits(m.width as nat) + ",\n\theight: "@
        + crate::text::dec_digits(m.height as nat) + ",\n\tmap: &["@
        + crate::document::render_elems(tiles_doc(m.tiles)) + "],\n\tunits: &[\n"@
        + units_engine_upto(m.units, m.units.len() as int) + "\t]\n}\n"@
}

impl MapData {
    /// The tile buffer as document values.
    fn tiles_doc_values(&self) -> (r: Vec<DocValue>)
        requires
            self.wf(),
        ensures
            vals_view(r@) == tiles_doc(self@.tiles),
    {
        let mut tiles: Vec<DocValue> = Vec::new();
        let mut i: usize = 0;
        while i < self.data.len()
            invariant
                self.wf(),
                i <= self.data@.len(),
                vals_view(tiles@) == tiles_doc(self.data@.subrange(0, i as int)),
            decreases self.data@.len() - i,
        {
            let ghost before = tiles@;
            tiles.push(DocValue::Int(self.data[i] as i64));
            proof {
                crate::document::lemma_vals_view_push(before, tiles@[before.len() as int]);
                assert(vals_view(tiles@) =~= tiles_doc(self.data@.subrange(0, i + 1)));
            }
            i = i + 1;
        }
        proof {
            assert(self.data@.subrange(0, self.data@.len() as int) =~= self.data@);
        }
        tiles
    }

    /// Exports the map as Rust source text for the game engine: its
    /// dimensions and tile buffer in decimal, and one engine record per
    /// unit.
    pub fn to_engine(&self) -> (r: String)
        requires
            self.wf(),
        ensures
            r@ == map_engine_text(self@),
    {
        let mut out: Vec<char> = Vec::new();
        append_text(&mut out, "LevelData {\n\twidth: ");
        let wd = crate::text::u64_dec_chars(self.width as u64);
        append_digits(&mut out, &wd);
        append_text(&mut out, ",\n\theight: ");
        let hd = crate::text::u64_dec_chars(self.height as u64);
        append_digits(&mut out, &hd);
        append_text(&mut out, ",\n\tmap: &[");
        let tiles = self.tiles_doc_values();
        crate::document::append_elems(&mut out, &tiles, 0);
        proof {
            assert(vals_view(tiles@).skip(0) =~= vals_view(tiles@));
        }
        append_text(&mut out, "],\n\tunits: &[\n");
        let ghost prefix = out@;
        let mut i: usize = 0;
        while i < self.units.len()
            invariant
                i <= self.units@.len(),
                self.wf(),
                out@ == prefix + units_engine_upto(units_view(self.units@), i as int),
            decreases self.units@.len() - i,
        {
            let ue = self.units[i].to_engine();
            append_text(&mut out, ue.as_str());
            append_text(&mut out, ",\n");
            proof {
                assert(units_view(self.units@)[i as int] == self.units@[i as int]@);
                assert(out@ =~= prefix + units_engine_upto(units_view(self.units@), i + 1));
            }
            i = i + 1;
        }
        append_text(&mut out, "\t]\n}\n");
        proof {
            assert(out@ =~= map_engine_text(self@));
        }
        chars_to_string(&out)
    }
}

/// A well-formed grid's document is well formed, so it survives the text
/// codec.
proof fn lemma_wf_map_doc(m: MapV)
    requires
        wf_map(m),
    ensures
        crate::document::wf_doc(map_doc(m)),
{
    let ps = map_doc(m)->Table_0;
    assert(crate::document::wf_value(DocV::Arr(tiles_doc(m.tiles)))) by {
        assert(forall|k: int|
            0 <= k < tiles_doc(m.tiles).len() ==> crate::document::wf_value(
                #[trigger] tiles_doc(m.tiles)[k],
            )) by {
            assert(forall|k: int|
                0 <= k < m.tiles.len() ==> #[trigger] tiles_doc(m.tiles)[k] == DocV::Int(
                    m.tiles[k] as int,
                ));
        }
        crate::document::lemma_wf_elems_all(tiles_doc(m.tiles));
    }
    assert(crate::document::wf_value(DocV::Arr(units_doc(m.units)))) by {
        assert forall|k: int| 0 <= k < units_doc(m.units).len() implies crate::document::wf_value(
            #[trigger] units_doc(m.units)[k],
        ) by {
            let u = m.units[k];
            assert(units_doc(m.units)[k] == unit_doc(u));
            let ups = unit_doc(u)->Table_0;
            assert forall|t: int| 0 <= t < ups.len() implies crate::document::wf_value(
                (#[trigger] ups[t]).1,
            ) by {
                assert(u.class <= i64::MAX);
            }
            crate::document::lemma_wf_pairs_all(ups);
        }
        crate::document::lemma_wf_elems_all(units_doc(m.units));
    }
    assert(crate::document::wf_value(DocV::Arr(spawns_doc(m.spawns)))) by {
        assert forall|k: int| 0 <= k < spawns_doc(m.spawns).len() implies crate::document::wf_value(
            #[trigger] spawns_doc(m.spawns)[k],
        ) by {
            let p = m.spawns[k];
            assert(spawns_doc(m.spawns)[k] == spawn_doc(p));
            let sps = spawn_doc(p)->Table_0;
            assert forall|t: int| 0 <= t < sps.len() implies crate::document::wf_value(
                (#[trigger] sps[t]).1,
            ) by {}
            crate::document::lemma_wf_pairs_all(sps);
        }
        crate::document::lemma_wf_elems_all(spawns_doc(m.spawns));
    }
    assert forall|k: int| 0 <= k < ps.len() implies crate::document::wf_value(
        (#[trigger] ps[k]).1,
    ) by {}
    crate::document::lemma_wf_pairs_all(ps);
    assert forall|a: int, b: int|
        0 <= a < b < ps.len() && (#[trigger] ps[a]).1 is Table implies (
    #[trigger] ps[b]).1 is Table by {}
}

/// Serialization round-trips through text as well: parsing the schema
/// text of a well-formed grid's document yields that document, and
/// reading the document back under the grid's own name yields the grid
/// again. Together with the contracts of `to_toml` and `open`, opening
/// the serialized text of a well-formed grid reproduces it exactly.
pub proof fn lemma_map_text_round_trip(m: MapV)
    requires
        wf_map(m),
    ensures
        parse_document_chars(render_document_spec(map_doc(m))) == Option::Some(map_doc(m)),
        map_of_doc(map_doc(m), m.name) == Result::<MapV, Seq<char>>::Ok(m),
{
    lemma_wf_map_doc(m);
    crate::roundtrip::lemma_parse_render_round_trip(map_doc(m));
    lemma_map_document_round_trip(m);
}

/// Transient state of the tile-inspection popup: the name typed for the
/// selected unit and the grid cell the popup targets.
#[derive(Debug)]
pub struct MapInfoPopup {
    pub unit: String,
    pub position: (u32, u32),
}

impl MapInfoPopup {
    /// A popup targeting the origin with no name typed.
    pub fn new() -> (r: Self)
        ensures
            r.unit@ == Seq::<char>::empty(),
            r.position == (0u32, 0u32),
    {
        MapInfoPopup { unit: String::new(), position: (0, 0) }
    }
}

} // verus!
