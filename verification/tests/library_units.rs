use winpanes::config::{Config, FrameConfig};
use winpanes::dock::{DockManager, DockResult, Docked};
use winpanes::layout::{panel_areas, PanelArea, Preset, Rect, HEADER_H, TOOLBAR_H};
use winpanes::win_util::{argb_to_colorref, is_elevated, is_manageable, rgb, scale_for_dpi, theme_for};

const R1: Rect = Rect { x: 1, y: 1, w: 100, h: 100 };
const R2: Rect = Rect { x: 2, y: 2, w: 200, h: 200 };

#[test]
fn preset_counts_and_labels() {
    assert_eq!(Preset::Grid2x2.panel_count(), 4);
    assert_eq!(Preset::Cols2.panel_count(), 2);
    assert_eq!(Preset::Rows2.panel_count(), 2);
    assert_eq!(Preset::Grid2x2.label(), "4分割");
    assert_eq!(Preset::Cols2.label(), "縦2分割");
    assert_eq!(Preset::Rows2.label(), "横2分割");
    assert_eq!(HEADER_H, 28);
    assert_eq!(TOOLBAR_H, 32);
}

#[test]
fn contains_is_exact_at_the_i32_edges() {
    let r = Rect { x: i32::MAX - 1, y: 0, w: 10, h: 10 };
    assert!(r.contains(i32::MAX, 5));
    assert!(!r.contains(i32::MAX - 2, 5));
    let empty = Rect { x: 0, y: 0, w: 0, h: 0 };
    assert!(!empty.contains(0, 0));
}

#[test]
fn grid_cells_tile_the_area_with_remainder_last() {
    let area = Rect { x: 10, y: 20, w: 101, h: 51 };
    let p = panel_areas(Preset::Grid2x2, area, 5);
    assert_eq!(p.len(), 4);
    assert_eq!(p[0].header, Rect { x: 10, y: 20, w: 50, h: 5 });
    assert_eq!(p[1].header, Rect { x: 60, y: 20, w: 51, h: 5 });
    assert_eq!(p[2].header, Rect { x: 10, y: 45, w: 50, h: 5 });
    assert_eq!(p[3].body, Rect { x: 60, y: 50, w: 51, h: 21 });
    // each cell's header and body fill it exactly
    assert_eq!(p[3].header.h + p[3].body.h, 26);
    assert_eq!(p[1].header.x + p[1].header.w, area.x + area.w);
}

#[test]
fn negative_length_splits_toward_zero() {
    let p = panel_areas(Preset::Cols2, Rect { x: 0, y: 0, w: -3, h: 10 }, 2);
    assert_eq!(p[0].header.w, -1);
    assert_eq!(p[1].header.x, -1);
    assert_eq!(p[1].header.w, -2);
}

#[test]
fn dock_then_undock_gives_back_the_docking_rect() {
    let mut m = DockManager::new(2);
    assert_eq!(m.dock(7u32, 1, R2), DockResult::Docked);
    assert_eq!(m.dock(7u32, 0, R1), DockResult::Moved { from: 1 });
    // the rectangle of the first docking is kept through the move
    assert_eq!(m.undock(7), Some(R2));
}

#[test]
fn drop_on_own_panel_reports_moved_and_cancels_maximize() {
    let mut m = DockManager::new(2);
    m.dock(7u32, 0, R1);
    assert_eq!(m.toggle_maximize(0), Some(true));
    assert_eq!(m.dock(7u32, 0, R2), DockResult::Moved { from: 0 });
    assert_eq!(m.maximized_panel(), None);
    assert_eq!(m.undock(7), Some(R1));
}

#[test]
fn locks_toggle_back_and_only_on_occupied_panels() {
    let mut m = DockManager::new(3);
    m.dock(1u32, 2, R1);
    assert!(m.toggle_lock(2));
    assert!(!m.toggle_lock(2));
    assert!(!m.toggle_lock(1));
    assert!(!m.toggle_lock(99));
    assert!(!m.is_locked(99));
}

#[test]
fn maximize_switches_between_panels() {
    let mut m = DockManager::new(3);
    m.dock(1u32, 0, R1);
    m.dock(2u32, 1, R2);
    assert_eq!(m.toggle_maximize(0), Some(true));
    assert_eq!(m.toggle_maximize(1), Some(true));
    assert_eq!(m.maximized_panel(), Some(1));
    assert_eq!(m.toggle_maximize(2), None);
    assert_eq!(m.raise_order(), vec![1, 2]);
}

#[test]
fn resize_conserves_windows_in_panel_order() {
    let mut m = DockManager::new(4);
    m.dock(1u32, 0, R1);
    m.dock(2u32, 2, R2);
    m.dock(3u32, 3, R1);
    let released = m.set_panel_count(1);
    assert_eq!(released, vec![Docked { id: 2, orig: R2 }, Docked { id: 3, orig: R1 }]);
    assert_eq!(m.panel_count(), 1);
    assert_eq!(m.occupant(0), Some(1));
    assert_eq!(m.panel_of(3), None);
}

#[test]
fn drain_returns_panel_order_and_empties() {
    let mut m = DockManager::new(3);
    m.dock(5u32, 2, R2);
    m.dock(4u32, 0, R1);
    m.toggle_maximize(2);
    assert_eq!(m.drain_all(), vec![Docked { id: 4, orig: R1 }, Docked { id: 5, orig: R2 }]);
    assert_eq!(m.panel_count(), 3);
    assert_eq!(m.maximized_panel(), None);
    assert!(m.drain_all().is_empty());
}

#[test]
fn rejected_move_out_of_locked_panel_even_to_out_of_range_panel() {
    let mut m = DockManager::new(2);
    m.dock(1u32, 0, R1);
    m.toggle_lock(0);
    assert_eq!(m.dock(1u32, 9, R2), DockResult::Rejected);
    assert_eq!(m.occupant(0), Some(1));
}

#[test]
fn target_rects_in_panel_order() {
    let mut m = DockManager::new(2);
    let panels = panel_areas(Preset::Rows2, Rect { x: 0, y: 0, w: 100, h: 100 }, 10);
    let body = Rect { x: 0, y: 0, w: 100, h: 100 };
    m.dock(9u32, 1, R1);
    m.dock(8u32, 0, R2);
    assert_eq!(m.target_rects(&panels, body), vec![(8, panels[0].body), (9, panels[1].body)]);
    m.toggle_maximize(0);
    let only: Vec<PanelArea> = vec![panels[0], panels[1]];
    assert_eq!(m.target_rects(&only, body), vec![(8, body), (9, panels[1].body)]);
}

#[test]
fn frame_config_defaults_and_startup_frames() {
    let d = FrameConfig::default();
    assert_eq!(
        d,
        FrameConfig { preset: Preset::Grid2x2, x: 100, y: 100, width: 1280, height: 800, maximized: false }
    );
    let empty = Config::default();
    assert!(empty.frame.is_empty());
    assert_eq!(empty.startup_frames(), vec![d]);
    let saved = FrameConfig { preset: Preset::Rows2, x: 1, y: 2, width: 3, height: 4, maximized: true };
    let cfg = Config { frame: vec![saved, d] };
    assert_eq!(cfg.startup_frames(), vec![saved, d]);
}

#[test]
fn dpi_scaling_rounds_to_nearest() {
    assert_eq!(scale_for_dpi(28, 96), 28);
    assert_eq!(scale_for_dpi(28, 144), 42);
    assert_eq!(scale_for_dpi(28, 120), 35);
    assert_eq!(scale_for_dpi(1, 144), 2);
    assert_eq!(scale_for_dpi(32, 0), 32);
}

#[test]
fn manageable_windows() {
    assert!(is_manageable(true, true, false, None, 10, 20));
    assert!(is_manageable(true, true, false, Some(0), 10, 20));
    assert!(!is_manageable(false, true, false, None, 10, 20));
    assert!(!is_manageable(true, false, false, None, 10, 20));
    assert!(!is_manageable(true, true, true, None, 10, 20));
    assert!(!is_manageable(true, true, false, Some(2), 10, 20));
    assert!(!is_manageable(true, true, false, None, 20, 20));
}

#[test]
fn elevation_verdicts() {
    assert!(is_elevated(None));
    assert!(is_elevated(Some(None)));
    assert!(!is_elevated(Some(Some(0))));
    assert!(is_elevated(Some(Some(1))));
}

#[test]
fn colour_formulas() {
    assert_eq!(rgb(0x00, 0x78, 0xD4), 0x00D4_7800);
    assert_eq!(rgb(0x12, 0x34, 0x56), 0x0056_3412);
    assert_eq!(argb_to_colorref(0xFF11_2233), 0x0033_2211);
    let light = theme_for(true, None);
    assert_eq!(light.accent, 0x00D4_7800);
    assert_eq!(light.bg, 0x00F3_F3F3);
    assert_eq!(light.denied, 0x001C_2BC4);
    let dark = theme_for(false, Some(0x80AA_BBCC));
    assert_eq!(dark.accent, 0x00CC_BBAA);
    assert_eq!(dark.bg, 0x0020_2020);
    assert_eq!(dark.denied, 0x0023_11E8);
    assert_eq!(dark.overlay_color(true), dark.denied);
    assert_eq!(dark.overlay_color(false), dark.accent);
}
