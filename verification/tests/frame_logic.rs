use winpanes::config::FrameConfig;
use winpanes::dock::{DockResult, Docked};
use winpanes::drag::{hit_panel, release_in_place, DropAction, DropOutcome, OverlayCommand};
use winpanes::frame::{
    body_area, bottom_docked, button_at, button_rects, click_command, hit_zone, offset, offset_panels, App,
    ButtonId, ButtonMetrics, FrameCommand, FrameState, HitZone, PanelMaxOutcome,
};
use winpanes::layout::{panel_areas, PanelArea, Preset, Rect};
use winpanes::paint::{
    frame_paint_ops, Caption, FontKind, PaintMetrics, PaintOp, TextStyle, GLYPH_CLOSE, GLYPH_MAXIMIZE,
    GLYPH_RESTORE, WHITE,
};
use winpanes::win_util::theme_for;

const R1: Rect = Rect { x: 1, y: 1, w: 100, h: 100 };
const R2: Rect = Rect { x: 2, y: 2, w: 200, h: 200 };

fn cfg(preset: Preset) -> FrameConfig {
    FrameConfig { preset, x: 10, y: 20, width: 800, height: 600, maximized: false }
}

fn app_with(frames: Vec<FrameState>) -> App {
    let mut a = App::new(theme_for(true, None));
    a.frames = frames;
    a
}

#[test]
fn frame_from_config_is_empty_and_saves_back() {
    let f = FrameState::from_config(77, &cfg(Preset::Cols2));
    assert_eq!(f.hwnd, 77);
    assert_eq!(f.dock.panel_count(), 2);
    assert_eq!(f.restore_rect, Rect { x: 10, y: 20, w: 800, h: 600 });
    assert!(!f.maximized);
    let a = app_with(vec![f]);
    assert_eq!(a.to_config().frame, vec![cfg(Preset::Cols2)]);
}

#[test]
fn tool_maximize_saves_and_restores_the_rectangle() {
    let mut f = FrameState::from_config(1, &cfg(Preset::Grid2x2));
    let work = Rect { x: 0, y: 0, w: 1920, h: 1040 };
    let cur = Rect { x: 5, y: 6, w: 700, h: 500 };
    assert_eq!(f.toggle_tool_maximize(Some(cur), work), work);
    assert!(f.maximized);
    assert_eq!(f.restore_rect, cur);
    f.record_restore_rect(Some(work));
    assert_eq!(f.restore_rect, cur);
    assert_eq!(f.toggle_tool_maximize(Some(work), work), cur);
    assert!(!f.maximized);
    f.record_restore_rect(Some(R1));
    assert_eq!(f.restore_rect, R1);
    // an unknown window rectangle leaves the frame unmaximized
    assert_eq!(f.toggle_tool_maximize(None, work), work);
    assert!(!f.maximized);
}

#[test]
fn panel_maximize_outcomes_and_hover() {
    let mut f = FrameState::from_config(1, &cfg(Preset::Cols2));
    assert_eq!(f.toggle_panel_maximize(0), PanelMaxOutcome::Ignored);
    f.dock.dock(42, 0, R1);
    assert_eq!(f.toggle_panel_maximize(0), PanelMaxOutcome::Maximized(42));
    assert_eq!(f.toggle_panel_maximize(0), PanelMaxOutcome::Restored);
    assert!(f.set_hover(Some(ButtonId::ToolMax)));
    assert!(!f.set_hover(Some(ButtonId::ToolMax)));
    assert!(f.set_hover(None));
    assert_eq!(f.hover, None);
}

#[test]
fn preset_change_releases_overflow_and_failed_moves_are_released() {
    let mut f = FrameState::from_config(1, &cfg(Preset::Grid2x2));
    f.dock.dock(11, 0, R1);
    f.dock.dock(12, 3, R2);
    assert_eq!(f.docked_ids(), vec![11, 12]);
    assert_eq!(f.set_preset(Preset::Rows2), vec![Docked { id: 12, orig: R2 }]);
    assert_eq!(f.preset, Preset::Rows2);
    assert_eq!(f.dock.panel_count(), 2);
    f.dock.dock(13, 1, R2);
    f.release_failed(&vec![11, 99]);
    assert_eq!(f.docked_ids(), vec![13]);
}

#[test]
fn reflow_moves_skip_the_dragged_window() {
    let mut f = FrameState::from_config(1, &cfg(Preset::Cols2));
    let panels = panel_areas(Preset::Cols2, Rect { x: 0, y: 32, w: 800, h: 568 }, 28);
    let body = Rect { x: 0, y: 32, w: 800, h: 568 };
    f.dock.dock(11, 0, R1);
    f.dock.dock(12, 1, R2);
    assert_eq!(f.reflow_moves(&panels, body, None), vec![(11, panels[0].body), (12, panels[1].body)]);
    assert_eq!(f.reflow_moves(&panels, body, Some(11)), vec![(12, panels[1].body)]);
}

#[test]
fn geometry_helpers() {
    assert_eq!(body_area(Rect { x: 0, y: 0, w: 800, h: 600 }, 32), Rect { x: 0, y: 32, w: 800, h: 568 });
    assert_eq!(body_area(Rect { x: 0, y: 0, w: 800, h: 20 }, 32), Rect { x: 0, y: 32, w: 800, h: 0 });
    assert_eq!(offset(R1, 10, -1), Rect { x: 11, y: 0, w: 100, h: 100 });
    let p = vec![PanelArea { header: R1, body: R2 }];
    assert_eq!(
        offset_panels(&p, 1, 2),
        vec![PanelArea { header: Rect { x: 2, y: 3, w: 100, h: 100 }, body: Rect { x: 3, y: 4, w: 200, h: 200 } }]
    );
}

fn metrics() -> ButtonMetrics {
    ButtonMetrics { toolbar_h: 32, caption_w: 46, preset_w: 72, preset_x: 8, panel_button_w: 40 }
}

#[test]
fn buttons_layout_and_lookup() {
    let panels = panel_areas(Preset::Cols2, Rect { x: 0, y: 32, w: 1000, h: 568 }, 28);
    let b = button_rects(1000, metrics(), false, &panels);
    assert_eq!(
        b,
        vec![
            (ButtonId::ToolClose, Rect { x: 954, y: 0, w: 46, h: 32 }),
            (ButtonId::ToolMax, Rect { x: 908, y: 0, w: 46, h: 32 }),
            (ButtonId::Preset(Preset::Grid2x2), Rect { x: 8, y: 0, w: 72, h: 32 }),
            (ButtonId::Preset(Preset::Cols2), Rect { x: 80, y: 0, w: 72, h: 32 }),
            (ButtonId::Preset(Preset::Rows2), Rect { x: 152, y: 0, w: 72, h: 32 }),
            (ButtonId::PanelMax(0), Rect { x: 460, y: 32, w: 40, h: 28 }),
            (ButtonId::PanelMax(1), Rect { x: 960, y: 32, w: 40, h: 28 }),
        ]
    );
    let with_restore = button_rects(1000, metrics(), true, &panels);
    assert_eq!(with_restore[2], (ButtonId::PanelRestore, Rect { x: 862, y: 0, w: 46, h: 32 }));
    assert_eq!(button_at(&b, 960, 10), Some(ButtonId::ToolClose));
    assert_eq!(button_at(&b, 81, 31), Some(ButtonId::Preset(Preset::Cols2)));
    assert_eq!(button_at(&b, 470, 40), Some(ButtonId::PanelMax(0)));
    assert_eq!(button_at(&b, 300, 10), None);
}

#[test]
fn hit_zones() {
    let c = Rect { x: 0, y: 0, w: 800, h: 600 };
    assert_eq!(hit_zone(2, 3, c, false, false, 32), HitZone::TopLeft);
    assert_eq!(hit_zone(795, 3, c, false, false, 32), HitZone::TopRight);
    assert_eq!(hit_zone(2, 595, c, false, false, 32), HitZone::BottomLeft);
    assert_eq!(hit_zone(795, 595, c, false, false, 32), HitZone::BottomRight);
    assert_eq!(hit_zone(2, 300, c, false, false, 32), HitZone::Left);
    assert_eq!(hit_zone(792, 300, c, false, false, 32), HitZone::Right);
    assert_eq!(hit_zone(300, 7, c, false, false, 32), HitZone::Top);
    assert_eq!(hit_zone(300, 592, c, false, false, 32), HitZone::Bottom);
    assert_eq!(hit_zone(300, 20, c, false, false, 32), HitZone::Caption);
    assert_eq!(hit_zone(300, 20, c, false, true, 32), HitZone::Client);
    assert_eq!(hit_zone(300, 200, c, false, false, 32), HitZone::Client);
    assert_eq!(hit_zone(2, 3, c, true, false, 32), HitZone::Caption);
    assert_eq!(hit_zone(2, 595, c, true, false, 32), HitZone::Client);
}

#[test]
fn click_commands() {
    assert_eq!(click_command(None, None), None);
    assert_eq!(click_command(Some(ButtonId::ToolClose), None), Some(FrameCommand::Close));
    assert_eq!(click_command(Some(ButtonId::ToolMax), None), Some(FrameCommand::ToggleToolMaximize));
    assert_eq!(
        click_command(Some(ButtonId::Preset(Preset::Rows2)), None),
        Some(FrameCommand::SetPreset(Preset::Rows2))
    );
    assert_eq!(click_command(Some(ButtonId::PanelMax(3)), None), Some(FrameCommand::TogglePanelMaximize(3)));
    assert_eq!(click_command(Some(ButtonId::PanelRestore), Some(1)), Some(FrameCommand::TogglePanelMaximize(1)));
    assert_eq!(click_command(Some(ButtonId::PanelRestore), None), None);
}

#[test]
fn bottom_docked_is_the_last_in_z_order() {
    assert_eq!(bottom_docked(&vec![3, 5], &vec![1, 5, 2, 3, 4]), Some(3));
    assert_eq!(bottom_docked(&vec![5], &vec![1, 5, 2]), Some(5));
    assert_eq!(bottom_docked(&vec![], &vec![1, 2]), None);
    assert_eq!(bottom_docked(&vec![9], &vec![1, 2]), None);
}

#[test]
fn app_frames_lookup_close_and_save() {
    let mut a = app_with(vec![
        FrameState::from_config(1, &cfg(Preset::Cols2)),
        FrameState::from_config(2, &cfg(Preset::Rows2)),
        FrameState::from_config(1, &cfg(Preset::Grid2x2)),
    ]);
    assert_eq!(a.frame_index(1), Some(0));
    assert_eq!(a.frame_index(2), Some(1));
    assert_eq!(a.frame_index(3), None);
    a.frames[0].dock.dock(50, 1, R1);
    a.frames[2].dock.dock(60, 0, R2);
    assert_eq!(a.close_frame(1), vec![Docked { id: 50, orig: R1 }]);
    assert_eq!(a.frames.len(), 1);
    assert_eq!(a.frames[0].hwnd, 2);
    assert!(a.close_frame(9).is_empty());
    assert_eq!(a.to_config().frame, vec![cfg(Preset::Rows2)]);
}

#[test]
fn hit_panel_picks_the_first_panel_under_the_point() {
    let f0 = panel_areas(Preset::Cols2, Rect { x: 0, y: 0, w: 100, h: 100 }, 10);
    let f1 = panel_areas(Preset::Rows2, Rect { x: 50, y: 0, w: 100, h: 100 }, 10);
    let frames = vec![f0.clone(), f1.clone()];
    assert_eq!(hit_panel(&frames, 10, 5), Some((0, 0, f0[0].body)));
    assert_eq!(hit_panel(&frames, 60, 50), Some((0, 1, f0[1].body)));
    assert_eq!(hit_panel(&frames, 120, 70), Some((1, 1, f1[1].body)));
    assert_eq!(hit_panel(&frames, 500, 5), None);
}

#[test]
fn drag_flow_docks_moves_and_releases() {
    let mut a = app_with(vec![
        FrameState::from_config(100, &cfg(Preset::Cols2)),
        FrameState::from_config(200, &cfg(Preset::Cols2)),
    ]);
    // a new window dropped on frame 1, panel 0
    a.start_drag(7, false);
    assert_eq!(a.dragging.map(|d| d.from_locked), Some(false));
    assert_eq!(a.drag_overlay(Some((1, 0, R1))), Some(OverlayCommand::Show { rect: R1, denied: false }));
    assert_eq!(a.drag_overlay(None), Some(OverlayCommand::Hide));
    assert_eq!(a.end_drag(7, Some((1, 0))), DropAction::Dock { frame: 1, panel: 0 });
    assert!(a.dragging.is_none());
    assert_eq!(
        a.drop_into(1, 0, 7, Some(R2)),
        DropOutcome { released_from: None, docked: Some((200, DockResult::Docked)) }
    );
    assert_eq!(a.home_frame(7), Some(200));
    // moved across frames: released from frame 1 first, keeping its rectangle
    a.start_drag(7, false);
    assert_eq!(a.end_drag(7, Some((0, 1))), DropAction::Dock { frame: 0, panel: 1 });
    assert_eq!(
        a.drop_into(0, 1, 7, Some(R1)),
        DropOutcome { released_from: Some(200), docked: Some((100, DockResult::Docked)) }
    );
    assert_eq!(a.home_frame(7), Some(100));
    assert_eq!(a.frames[1].dock.occupant(0), None);
    assert_eq!(a.frames[0].dock.undock(7), Some(R2));
    // a frame that does not exist docks nothing
    assert_eq!(a.drop_into(5, 0, 7, None), DropOutcome { released_from: None, docked: None });
    assert_eq!(a.home_frame(7), None);
    // a window with no known rectangle is remembered with an empty one
    assert_eq!(
        a.drop_into(0, 0, 8, None),
        DropOutcome { released_from: None, docked: Some((100, DockResult::Docked)) }
    );
    assert_eq!(a.frames[0].dock.undock(8), Some(Rect { x: 0, y: 0, w: 0, h: 0 }));
    // dropped outside: released in place with its old size
    assert_eq!(release_in_place(Rect { x: 300, y: 400, w: 10, h: 10 }, R2), Rect { x: 300, y: 400, w: 200, h: 200 });
}

#[test]
fn drag_end_respects_locks_and_denial() {
    let mut a = app_with(vec![FrameState::from_config(100, &cfg(Preset::Cols2))]);
    a.frames[0].dock.dock(7, 0, R1);
    a.frames[0].dock.dock(8, 1, R2);
    a.frames[0].dock.toggle_lock(1);
    // onto a locked panel
    a.start_drag(7, false);
    assert_eq!(a.drag_overlay(Some((0, 1, R2))), Some(OverlayCommand::Show { rect: R2, denied: true }));
    assert_eq!(a.end_drag(7, Some((0, 1))), DropAction::SnapBack(Some(100)));
    // out of a locked panel
    a.start_drag(8, false);
    assert_eq!(a.dragging.map(|d| d.from_locked), Some(true));
    assert_eq!(a.end_drag(8, None), DropAction::SnapBack(Some(100)));
    // an elevated window, and the end of another window's drag
    a.start_drag(9, true);
    assert_eq!(a.end_drag(9, Some((0, 0))), DropAction::Ignore);
    a.start_drag(9, false);
    assert_eq!(a.end_drag(10, Some((0, 0))), DropAction::Ignore);
    assert_eq!(a.end_drag(9, None), DropAction::Ignore);
    assert_eq!(a.drag_overlay(None), None);
    // dropped outside any panel
    a.start_drag(7, false);
    assert_eq!(a.end_drag(7, None), DropAction::Release);
    // a destroyed window is forgotten
    assert_eq!(a.on_window_destroyed(7), Some(100));
    assert_eq!(a.on_window_destroyed(7), None);
    assert_eq!(a.frames[0].dock.occupant(0), None);
}

#[test]
fn paint_operations_of_a_small_frame() {
    let t = theme_for(true, None);
    let mut f = FrameState::from_config(1, &cfg(Preset::Rows2));
    f.dock.dock(42, 0, R1);
    f.set_hover(Some(ButtonId::ToolClose));
    let client = Rect { x: 0, y: 0, w: 200, h: 132 };
    let panels = panel_areas(Preset::Rows2, Rect { x: 0, y: 32, w: 200, h: 100 }, 10);
    let m = PaintMetrics { toolbar_h: 32, hair: 1, title_pad: 10, title_button_w: 40, underline: 2 };
    let buttons = vec![
        (ButtonId::ToolClose, Rect { x: 154, y: 0, w: 46, h: 32 }),
        (ButtonId::Preset(Preset::Rows2), Rect { x: 8, y: 0, w: 72, h: 32 }),
        (ButtonId::PanelMax(0), Rect { x: 160, y: 32, w: 40, h: 10 }),
        (ButtonId::PanelMax(1), Rect { x: 160, y: 82, w: 40, h: 10 }),
    ];
    let ops = frame_paint_ops(client, &f, &t, m, &panels, &buttons);
    let h0 = panels[0].header;
    let b0 = panels[0].body;
    let h1 = panels[1].header;
    let expected = vec![
        PaintOp::Fill { rect: client, color: t.bg },
        PaintOp::Fill { rect: Rect { x: 0, y: 0, w: 200, h: 32 }, color: t.toolbar },
        PaintOp::Fill { rect: Rect { x: 0, y: 31, w: 200, h: 1 }, color: t.border },
        PaintOp::UseFont(FontKind::Text),
        PaintOp::Fill { rect: h0, color: t.header },
        PaintOp::Fill { rect: Rect { x: 0, y: 41, w: 200, h: 1 }, color: t.border },
        PaintOp::Text {
            rect: Rect { x: 10, y: 32, w: 140, h: 10 },
            caption: Caption::WindowTitle(42),
            color: t.text,
            style: TextStyle::LeftEllipsis,
        },
        PaintOp::Fill { rect: Rect { x: b0.x, y: b0.y + b0.h - 1, w: 200, h: 1 }, color: t.border },
        PaintOp::Fill { rect: h1, color: t.header },
        PaintOp::Fill { rect: Rect { x: 0, y: 91, w: 200, h: 1 }, color: t.border },
        PaintOp::Text {
            rect: Rect { x: 10, y: 82, w: 140, h: 10 },
            caption: Caption::EmptyPanel,
            color: t.text_dim,
            style: TextStyle::Left,
        },
        PaintOp::Fill { rect: Rect { x: 154, y: 0, w: 46, h: 32 }, color: t.denied },
        PaintOp::UseFont(FontKind::Icon),
        PaintOp::Glyph { rect: Rect { x: 154, y: 0, w: 46, h: 32 }, glyph: GLYPH_CLOSE, color: WHITE },
        PaintOp::UseFont(FontKind::Text),
        PaintOp::Text {
            rect: Rect { x: 8, y: 0, w: 72, h: 32 },
            caption: Caption::PresetLabel(Preset::Rows2),
            color: t.text,
            style: TextStyle::Centered,
        },
        PaintOp::Fill { rect: Rect { x: 8, y: 29, w: 72, h: 2 }, color: t.accent },
        PaintOp::UseFont(FontKind::Icon),
        PaintOp::Glyph { rect: Rect { x: 160, y: 32, w: 40, h: 10 }, glyph: GLYPH_MAXIMIZE, color: t.text_dim },
    ];
    assert_eq!(ops, expected);
    f.dock.toggle_maximize(0);
    let ops = frame_paint_ops(client, &f, &t, m, &panels, &buttons);
    assert_eq!(
        ops.last(),
        Some(&PaintOp::Glyph { rect: Rect { x: 160, y: 32, w: 40, h: 10 }, glyph: GLYPH_RESTORE, color: t.text_dim })
    );
}

#[test]
fn drop_moves_a_window_between_frames_and_replaces_an_occupant() {
    let mut a = app_with(vec![
        FrameState::from_config(100, &cfg(Preset::Cols2)),
        FrameState::from_config(200, &cfg(Preset::Cols2)),
    ]);
    a.frames[0].dock.dock(7, 0, R1);
    a.frames[1].dock.dock(8, 1, R2);
    // window 7 leaves frame 100 and pushes window 8 out of panel 1 of frame 200
    let o = a.drop_into(1, 1, 7, Some(R2));
    assert_eq!(o.released_from, Some(100));
    assert_eq!(o.docked, Some((200, DockResult::Replaced { freed: Docked { id: 8, orig: R2 } })));
    assert_eq!(a.frames[0].dock.occupant(0), None);
    assert_eq!(a.frames[1].dock.occupant(1), Some(7));
    assert_eq!(a.home_frame(7), Some(200));
    assert_eq!(a.home_frame(8), None);
    // a locked target refuses the window, which stays released
    assert!(a.frames[0].dock.dock(9, 1, R1) == DockResult::Docked);
    assert!(a.frames[0].dock.toggle_lock(1));
    let o = a.drop_into(0, 1, 7, None);
    assert_eq!(o, DropOutcome { released_from: Some(200), docked: Some((100, DockResult::Rejected)) });
    assert_eq!(a.home_frame(7), None);
    assert_eq!(a.frames[0].dock.occupant(1), Some(9));
}
