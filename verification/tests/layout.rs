use winpanes::layout::{panel_areas, Preset, Rect};

const AREA: Rect = Rect { x: 0, y: 0, w: 1000, h: 600 };

#[test]
fn cols2_splits_width_evenly() {
    let p = panel_areas(Preset::Cols2, AREA, 28);
    assert_eq!(p.len(), 2);
    assert_eq!(p[0].header, Rect { x: 0, y: 0, w: 500, h: 28 });
    assert_eq!(p[0].body, Rect { x: 0, y: 28, w: 500, h: 572 });
    assert_eq!(p[1].body, Rect { x: 500, y: 28, w: 500, h: 572 });
}

#[test]
fn rows2_splits_height_evenly() {
    let p = panel_areas(Preset::Rows2, AREA, 28);
    assert_eq!(p.len(), 2);
    assert_eq!(p[0].header, Rect { x: 0, y: 0, w: 1000, h: 28 });
    assert_eq!(p[1].header, Rect { x: 0, y: 300, w: 1000, h: 28 });
    assert_eq!(p[1].body, Rect { x: 0, y: 328, w: 1000, h: 272 });
}

#[test]
fn grid2x2_is_row_major() {
    let p = panel_areas(Preset::Grid2x2, AREA, 28);
    assert_eq!(p.len(), 4);
    assert_eq!(p[0].header.x, 0); // 左上
    assert_eq!(p[1].header.x, 500); // 右上
    assert_eq!(p[1].header.y, 0);
    assert_eq!(p[2].header.x, 0); // 左下
    assert_eq!(p[2].header.y, 300);
    assert_eq!(p[3].header.x, 500); // 右下
    assert_eq!(p[3].header.y, 300);
}

#[test]
fn odd_size_remainder_goes_to_last_cell() {
    let p = panel_areas(Preset::Cols2, Rect { x: 0, y: 0, w: 1001, h: 601 }, 28);
    assert_eq!(p[0].body.w, 500);
    assert_eq!(p[1].body.w, 501);
}

#[test]
fn tiny_area_clamps_body_height_to_zero() {
    let p = panel_areas(Preset::Cols2, Rect { x: 0, y: 0, w: 100, h: 20 }, 28);
    assert_eq!(p[0].body.h, 0);
    assert_eq!(p[0].header.h, 20); // ヘッダーはセル高さでクリップ
}

#[test]
fn rect_contains_is_half_open() {
    let r = Rect { x: 10, y: 10, w: 100, h: 50 };
    assert!(r.contains(10, 10));
    assert!(r.contains(109, 59));
    assert!(!r.contains(110, 60));
    assert!(!r.contains(9, 10));
}
