use winpanes::frame::{buttons_computable, panels_shiftable, shift_computable, ButtonMetrics};
use winpanes::layout::{layout_computable, panel_areas, PanelArea, Preset, Rect};
use winpanes::paint::{paint_computable, PaintMetrics};

#[test]
fn layout_computable_detects_overflow() {
    let area = Rect { x: 0, y: 0, w: 1000, h: 600 };
    assert!(layout_computable(Preset::Grid2x2, area, 28));
    assert!(!layout_computable(Preset::Cols2, Rect { x: i32::MAX - 10, y: 0, w: 100, h: 10 }, 2));
    assert!(!layout_computable(Preset::Rows2, Rect { x: 0, y: i32::MAX - 5, w: 10, h: 20 }, 2));
    assert!(!layout_computable(Preset::Cols2, area, i32::MIN));
    assert!(layout_computable(Preset::Rows2, Rect { x: 0, y: 0, w: -3, h: -3 }, 5));
}

#[test]
fn shift_and_button_computability() {
    let r = Rect { x: i32::MAX, y: 0, w: 1, h: 1 };
    assert!(!shift_computable(r, 1, 0));
    assert!(shift_computable(r, -1, 0));
    let panels = vec![PanelArea { header: r, body: Rect { x: 0, y: 0, w: 1, h: 1 } }];
    assert!(!panels_shiftable(&panels, 1, 0));
    assert!(panels_shiftable(&panels, 0, 1));
    let m = ButtonMetrics { toolbar_h: 32, caption_w: 46, preset_w: 72, preset_x: 8, panel_button_w: 40 };
    let ok = panel_areas(Preset::Cols2, Rect { x: 0, y: 32, w: 1000, h: 568 }, 28);
    assert!(buttons_computable(1000, m, true, &ok));
    assert!(!buttons_computable(i32::MIN, m, false, &ok));
    assert!(!buttons_computable(1000, m, false, &panels));
}

#[test]
fn paint_computability() {
    let m = PaintMetrics { toolbar_h: 32, hair: 1, title_pad: 10, title_button_w: 40, underline: 2 };
    let panels = panel_areas(Preset::Cols2, Rect { x: 0, y: 32, w: 1000, h: 568 }, 28);
    let buttons = vec![(winpanes::frame::ButtonId::ToolMax, Rect { x: 0, y: 0, w: 46, h: 32 })];
    assert!(paint_computable(m, &panels, &buttons));
    let low = vec![(winpanes::frame::ButtonId::ToolMax, Rect { x: 0, y: i32::MIN, w: 46, h: 0 })];
    assert!(!paint_computable(m, &panels, &low));
    assert!(!paint_computable(PaintMetrics { toolbar_h: i32::MIN, ..m }, &panels, &buttons));
}
