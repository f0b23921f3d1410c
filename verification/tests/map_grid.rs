//! Tests of the map grid: construction, bounds-checked tile access,
//! entity placement, serialization and the load/save round trip.

use fe_editor::map::{MapData, MapUnit};
use fe_editor::ErrorKind;

fn named(s: &str) -> String {
    s.to_string()
}

#[test]
fn with_size_fills_tiles_with_zero() {
    let g = MapData::with_size(named("m"), 4, 3);
    assert_eq!(g.width, 4);
    assert_eq!(g.height, 3);
    assert_eq!(g.data.len(), 12);
    assert!(g.data.iter().all(|t| *t == 0));
    assert!(g.units.is_empty());
    assert!(g.spawns.is_empty());
}

#[test]
fn tiles_read_back_what_was_set() {
    let mut g = MapData::with_size(named("m"), 5, 4);
    g.set_tile(2, 3, 7);
    g.set_tile(0, 0, 9);
    assert_eq!(g.get_tile(2, 3), 7);
    assert_eq!(g.get_tile(0, 0), 9);
    assert_eq!(g.get_tile(1, 3), 0);
}

#[test]
fn out_of_bounds_access_fails_fast() {
    let mut g = MapData::with_size(named("m"), 5, 4);
    assert_eq!(g.try_get_tile(5, 0), None);
    assert_eq!(g.try_get_tile(0, 4), None);
    assert_eq!(g.try_get_tile(4, 3), Some(0));
    assert!(!g.try_set_tile(5, 0, 1));
    assert!(g.try_set_tile(4, 3, 1));
    assert_eq!(g.get_tile(4, 3), 1);
}

#[test]
fn units_and_spawns_place_and_remove() {
    let mut g = MapData::with_size(named("m"), 5, 5);
    g.place_unit(MapUnit::at_position(1, 2));
    g.place_unit(MapUnit { x: 3, y: 4, name: named("bob"), class: 1 });
    g.place_spawn((0, 0));
    g.place_spawn((2, 2));
    assert_eq!(g.units.len(), 2);
    g.remove_unit(0);
    assert_eq!(g.units.len(), 1);
    assert_eq!(g.units[0].name, "bob");
    g.remove_spawn(1);
    assert_eq!(g.spawns, vec![(0, 0)]);
}

#[test]
fn loads_the_empty_fifteen_by_ten_document() {
    let data = vec!["0"; 150].join(", ");
    let text = format!("width = 15\nheight = 10\ndata = [{data}]\nunits = []\nspawns = []\n");
    let g = MapData::open(named("m"), &text).unwrap();
    assert_eq!(g.width, 15);
    assert_eq!(g.height, 10);
    assert_eq!(g.data.len(), 150);
    assert!(g.data.iter().all(|t| *t == 0));
    assert!(g.units.is_empty());
    assert!(g.spawns.is_empty());
}

#[test]
fn tile_array_length_mismatch_is_a_schema_error() {
    let text = "width = 15\nheight = 10\ndata = [0, 0, 0]\nunits = []\nspawns = []\n";
    let err = MapData::open(named("m"), text).unwrap_err();
    assert_eq!(err.kind, ErrorKind::Schema);
    assert!(err.msg.contains("length"));
}

#[test]
fn missing_and_mistyped_fields_are_schema_errors() {
    for bad in [
        "height = 1\ndata = [0]\nunits = []\nspawns = []\n",
        "width = \"1\"\nheight = 1\ndata = [0]\nunits = []\nspawns = []\n",
        "width = 0\nheight = 1\ndata = []\nunits = []\nspawns = []\n",
        "width = -1\nheight = 1\ndata = []\nunits = []\nspawns = []\n",
        "width = 1\nheight = 1\ndata = [\"x\"]\nunits = []\nspawns = []\n",
        "width = 1\nheight = 1\ndata = [0]\nunits = [1]\nspawns = []\n",
        "width = 1\nheight = 1\ndata = [0]\nunits = [{x = 1, y = 1, name = \"a\"}]\nspawns = []\n",
        "width = 1\nheight = 1\ndata = [0]\nunits = []\nspawns = [{x = 1}]\n",
        "width = 1\nheight = 1\ndata = [0]\nunits = []\nspawns = [{x = -1, y = 0}]\n",
    ] {
        let err = MapData::open(named("m"), bad).unwrap_err();
        assert_eq!(err.kind, ErrorKind::Schema, "accepted: {bad:?}");
    }
}

#[test]
fn schema_errors_name_the_offending_field() {
    let cases = [
        (
            "height = 1\ndata = [0]\nunits = []\nspawns = []\n",
            "`width` must be an integer",
        ),
        (
            "width = \"1\"\nheight = 1\ndata = [0]\nunits = []\nspawns = []\n",
            "`width` must be an integer",
        ),
        (
            "width = 0\nheight = 1\ndata = []\nunits = []\nspawns = []\n",
            "`width` and `height` must be positive",
        ),
        (
            "width = 1\nheight = 1\nunits = []\nspawns = []\n",
            "`data` must be an array",
        ),
        (
            "width = 1\nheight = 1\ndata = [\"x\"]\nunits = []\nspawns = []\n",
            "a `data` entry must be an integer",
        ),
        (
            "width = 1\nheight = 1\ndata = [0]\nunits = [{x = 1, y = 1, name = \"a\"}]\nspawns = []\n",
            "`class` of a unit must be an integer",
        ),
        (
            "width = 1\nheight = 1\ndata = [0]\nunits = []\nspawns = [{x = 1}]\n",
            "`y` of a spawn must be an integer",
        ),
    ];
    for (bad, msg) in cases {
        let err = MapData::open(named("m"), bad).unwrap_err();
        assert_eq!(err.kind, ErrorKind::Schema);
        assert_eq!(err.msg, msg, "for {bad:?}");
    }
}

#[test]
fn malformed_text_is_a_parse_error() {
    let err = MapData::open(named("m"), "width = \n").unwrap_err();
    assert_eq!(err.kind, ErrorKind::Parse);
}

#[test]
fn loads_units_and_spawns() {
    let text = "width = 2\nheight = 2\ndata = [1, 2, 3, 4]\n\
                units = [{x = 0, y = 1, name = \"ann\", class = 2}]\n\
                spawns = [{x = 1, y = 0}, {x = 1, y = 1}]\n";
    let g = MapData::open(named("m"), text).unwrap();
    assert_eq!(g.get_tile(0, 1), 3);
    assert_eq!(g.units.len(), 1);
    assert_eq!(g.units[0], MapUnit { x: 0, y: 1, name: named("ann"), class: 2 });
    assert_eq!(g.spawns, vec![(1, 0), (1, 1)]);
}

#[test]
fn serializes_to_the_canonical_text() {
    let mut g = MapData::with_size(named("m"), 2, 2);
    g.set_tile(1, 0, 5);
    g.place_unit(MapUnit { x: 1, y: 1, name: named("bob"), class: 0 });
    g.place_spawn((0, 1));
    assert_eq!(
        g.to_toml(),
        "width = 2\nheight = 2\ndata = [0, 5, 0, 0]\n\
         units = [{x = 1, y = 1, name = \"bob\", class = 0}]\n\
         spawns = [{x = 0, y = 1}]\n"
    );
}

#[test]
fn unit_serializes_to_a_toml_dict() {
    let u = MapUnit { x: 3, y: 4, name: named("a \"b\""), class: 2 };
    assert_eq!(u.to_toml_dict(), "x = 3, y = 4, name = \"a \\\"b\\\"\", class = 2");
}

#[test]
fn open_of_serialize_reproduces_the_grid() {
    let mut g = MapData::with_size(named("level one"), 3, 2);
    g.set_tile(0, 0, 9);
    g.set_tile(2, 1, 4);
    g.place_unit(MapUnit { x: 2, y: 0, name: named("ann"), class: 1 });
    g.place_unit(MapUnit { x: 2, y: 0, name: String::new(), class: 0 });
    g.place_spawn((1, 1));
    let text = g.to_toml();
    let back = MapData::open(named("level one"), &text).unwrap();
    assert_eq!(back.name, g.name);
    assert_eq!(back.width, g.width);
    assert_eq!(back.height, g.height);
    assert_eq!(back.data, g.data);
    assert_eq!(back.units, g.units);
    assert_eq!(back.spawns, g.spawns);
}

#[test]
fn unit_engine_export_has_the_expected_shape() {
    let u = MapUnit { x: 3, y: 4, name: named("ann"), class: 1 };
    assert_eq!(
        u.to_engine(),
        "UnitData {\n\tname: \"ann\",\n\tx: 3,\n\ty: 4,\n\tis_boss: false\n\tlevel: 1\n}\n"
    );
}

#[test]
fn engine_export_has_the_expected_shape() {
    let mut g = MapData::with_size(named("m"), 2, 1);
    g.set_tile(1, 0, 3);
    g.place_unit(MapUnit { x: 0, y: 0, name: named("ann"), class: 0 });
    assert_eq!(
        g.to_engine(),
        "LevelData {\n\twidth: 2,\n\theight: 1,\n\tmap: &[0, 3],\n\tunits: &[\n\
         UnitData {\n\tname: \"ann\",\n\tx: 0,\n\ty: 0,\n\tis_boss: false\n\tlevel: 1\n}\n,\n\t]\n}\n"
    );
}
