//! Tests of the viewport interaction engine, the info-context
//! resolution, the tileset geometry, and the small shell-state types.

use fe_editor::config::EditorConfig;
use fe_editor::map::{MapData, MapUnit};
use fe_editor::tileset::{flatten_rgba, tile_origins};
use fe_editor::viewport::{
    process_frame, resolve_info, FrameInput, InfoContext, MapEditor, Viewport, ZOOM_INIT,
    ZOOM_MAX, ZOOM_MIN,
};
use fe_editor::{ErrorKind, ModalCapsule, SaveState};

fn idle_input() -> FrameInput {
    FrameInput {
        pointer_x: 0,
        pointer_y: 0,
        zoom_delta: 0,
        pan_dx: 0,
        pan_dy: 0,
        primary_down: false,
        secondary_down: false,
        middle_down: false,
    }
}

#[test]
fn zoom_clamps_to_its_range() {
    let mut v = Viewport::new();
    assert_eq!(v.zoom, ZOOM_INIT);
    v.apply_zoom(0, 0, 1 << 30);
    assert_eq!(v.zoom, ZOOM_MIN);
    v.apply_zoom(0, 0, -(1 << 30));
    assert_eq!(v.zoom, ZOOM_MAX);
}

#[test]
fn zoom_at_a_grid_point_moves_pan_by_the_zoom_change() {
    // The pointer sits at grid coordinate 3 on each axis: off = 3 * zoom.
    let mut v = Viewport::new();
    let gx = 3i64;
    let off = gx * v.zoom;
    let zoom0 = v.zoom;
    v.apply_zoom(off, off, 1024);
    let dz = zoom0 - v.zoom;
    assert_eq!(dz, 1024);
    // Anchor preservation: pan' = pan + g * (zoom - zoom').
    assert_eq!(v.scroll_x, gx * dz);
    assert_eq!(v.scroll_y, gx * dz);
}

#[test]
fn zoom_anchor_error_stays_under_one_subpixel() {
    // An off-grid pointer: the re-projected point may drift, but by less
    // than one subpixel.
    let mut v = Viewport::new();
    let off = 12345i64;
    let zoom0 = v.zoom;
    v.apply_zoom(off, off, 777);
    let dz = zoom0 - v.zoom;
    let err = off * dz - v.scroll_x * zoom0;
    assert!(0 <= err && err < zoom0);
}

#[test]
fn pan_accumulates_deltas() {
    let mut v = Viewport::new();
    v.apply_pan(100, -50);
    v.apply_pan(-30, 10);
    assert_eq!((v.scroll_x, v.scroll_y), (70, -40));
}

#[test]
fn grid_cell_floors_toward_negative_infinity() {
    let mut v = Viewport::new();
    assert_eq!(v.grid_cell(0, 0), (0, 0));
    assert_eq!(v.grid_cell(ZOOM_INIT - 1, ZOOM_INIT), (0, 1));
    assert_eq!(v.grid_cell(-1, -ZOOM_INIT), (-1, -1));
    v.apply_pan(ZOOM_INIT, 0);
    assert_eq!(v.grid_cell(0, 0), (-1, 0));
}

#[test]
fn info_context_finds_the_unit_then_the_spawn_then_nothing() {
    let mut g = MapData::with_size("m".to_string(), 10, 10);
    g.place_spawn((3, 4));
    g.place_unit(MapUnit { x: 3, y: 4, name: "ann".to_string(), class: 0 });
    g.place_unit(MapUnit { x: 3, y: 4, name: "bob".to_string(), class: 1 });
    // The first matching unit is authoritative, even over a spawn there.
    assert_eq!(resolve_info(&g, (3, 4)), InfoContext::UnitAt(0));
    g.remove_unit(0);
    g.remove_unit(0);
    assert_eq!(resolve_info(&g, (3, 4)), InfoContext::SpawnAt(0));
    g.remove_spawn(0);
    assert_eq!(resolve_info(&g, (3, 4)), InfoContext::Nothing);
}

#[test]
fn placing_a_unit_resolves_at_its_cell_and_nowhere_else() {
    let mut g = MapData::with_size("m".to_string(), 10, 10);
    g.place_unit(MapUnit::at_position(3, 4));
    assert_eq!(resolve_info(&g, (3, 4)), InfoContext::UnitAt(0));
    assert_eq!(resolve_info(&g, (3, 5)), InfoContext::Nothing);
}

#[test]
fn a_frame_paints_under_the_pointer() {
    let mut ed = MapEditor::with_size("m".to_string(), 10, 10);
    let mut input = idle_input();
    // Point into cell (2, 1) and hold the primary button.
    input.pointer_x = 2 * ZOOM_INIT + 5;
    input.pointer_y = ZOOM_INIT + 5;
    input.primary_down = true;
    let action = process_frame(&mut ed, input, 7);
    assert_eq!(ed.get_tile(2, 1), 7);
    assert_eq!(ed.get_tile(2, 2), 0);
    assert_eq!(action.preview, Some((2, 1)));
    assert!(!action.open_info);
}

#[test]
fn a_frame_outside_the_grid_changes_no_tile() {
    let mut ed = MapEditor::with_size("m".to_string(), 2, 2);
    let mut input = idle_input();
    input.pointer_x = 5 * ZOOM_INIT;
    input.pointer_y = 0;
    input.primary_down = true;
    let action = process_frame(&mut ed, input, 7);
    assert!(ed.data.data.iter().all(|t| *t == 0));
    assert_eq!(action.preview, None);
    assert!(!action.open_info);
}

#[test]
fn a_secondary_click_targets_the_info_popup() {
    let mut ed = MapEditor::with_size("m".to_string(), 10, 10);
    let mut input = idle_input();
    input.pointer_x = 3 * ZOOM_INIT;
    input.pointer_y = 4 * ZOOM_INIT;
    input.secondary_down = true;
    input.middle_down = true;
    let action = process_frame(&mut ed, input, 0);
    assert!(action.open_info);
    assert_eq!(ed.info_popup.position, (3, 4));
    // A held middle button suppresses the placement preview.
    assert_eq!(action.preview, None);
}

#[test]
fn map_editor_opens_and_serializes() {
    let text = "width = 2\nheight = 2\ndata = [0, 1, 2, 3]\nunits = []\nspawns = []\n";
    let ed = MapEditor::open("m".to_string(), text).unwrap();
    assert_eq!(ed.get_tile(1, 1), 3);
    assert_eq!(ed.to_toml(), text);
    let err = MapEditor::open("m".to_string(), "width = 2\n").unwrap_err();
    assert_eq!(err.kind, ErrorKind::Schema);
}

#[test]
fn tile_origins_slices_an_atlas_row_major() {
    let v = tile_origins(48, 32).unwrap();
    assert_eq!(
        v,
        vec![(0, 0), (16, 0), (32, 0), (0, 16), (16, 16), (32, 16)]
    );
}

#[test]
fn tile_origins_rejects_unaligned_images() {
    let err = tile_origins(48, 33).unwrap_err();
    assert_eq!(err.kind, ErrorKind::Validation);
    let err = tile_origins(47, 32).unwrap_err();
    assert_eq!(err.kind, ErrorKind::Validation);
}

#[test]
fn flatten_rgba_lays_pixels_out_in_order() {
    let pixels = vec![(1u8, 2u8, 3u8, 4u8), (5, 6, 7, 8)];
    assert_eq!(flatten_rgba(&pixels), vec![1, 2, 3, 4, 5, 6, 7, 8]);
}

#[test]
fn save_state_tracks_save_and_autosave() {
    let mut s = SaveState::new();
    assert!(s.is_saved());
    assert!(s.is_autosaved());
    s.mark_unsaved();
    assert!(!s.is_saved());
    assert!(!s.is_autosaved());
    s.mark_autosaved();
    assert!(!s.is_saved());
    assert!(s.is_autosaved());
    s.mark_saved();
    assert!(s.is_saved());
    assert!(s.is_autosaved());
}

#[test]
fn modal_capsule_remembers_an_open_request() {
    let mut c = ModalCapsule::new();
    assert!(!c.should_open());
    c.open();
    assert!(c.should_open());
    c.reset();
    assert!(!c.should_open());
}

#[test]
fn an_error_adopted_from_plain_text_counts_as_io() {
    let e = fe_editor::FeError::from("cannot reach the project".to_string());
    assert_eq!(e.kind, ErrorKind::Io);
    assert_eq!(e.message(), "cannot reach the project");
}

#[test]
fn config_reads_the_project_path() {
    let c = EditorConfig::open("project = \"game/\"\n").unwrap();
    assert_eq!(c.save_path, "game/");
    let c = EditorConfig::open("other = 1\n").unwrap();
    assert_eq!(c.save_path, ".");
    let c = EditorConfig::open("project = 7\n").unwrap();
    assert_eq!(c.save_path, ".");
    let err = EditorConfig::open("project = \n").unwrap_err();
    assert_eq!(err.kind, ErrorKind::Parse);
}
