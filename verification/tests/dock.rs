use winpanes::dock::{DockManager, DockResult, Docked};
use winpanes::layout::{panel_areas, Preset, Rect};

const R1: Rect = Rect { x: 1, y: 1, w: 100, h: 100 };
const R2: Rect = Rect { x: 2, y: 2, w: 200, h: 200 };

#[test]
fn dock_into_empty_panel() {
    let mut m = DockManager::new(4);
    assert_eq!(m.dock(10u32, 0, R1), DockResult::Docked);
    assert_eq!(m.occupant(0), Some(10));
    assert_eq!(m.panel_of(10), Some(0));
}

#[test]
fn outside_drop_on_occupied_panel_replaces_and_frees() {
    // フレーム外からの占有パネルへのドロップは先住を解除して置き換え
    let mut m = DockManager::new(4);
    m.dock(10u32, 0, R1);
    let r = m.dock(20u32, 0, R2);
    assert_eq!(r, DockResult::Replaced { freed: Docked { id: 10, orig: R1 } });
    assert_eq!(m.occupant(0), Some(20));
    assert_eq!(m.panel_of(10), None);
}

#[test]
fn docked_to_docked_swaps() {
    // ドック済み同士は入れ替え
    let mut m = DockManager::new(4);
    m.dock(10u32, 0, R1);
    m.dock(20u32, 1, R2);
    let r = m.dock(10u32, 1, R1);
    assert_eq!(r, DockResult::Swapped { from: 0, other: 20 });
    assert_eq!(m.occupant(0), Some(20));
    assert_eq!(m.occupant(1), Some(10));
}

#[test]
fn docked_to_empty_moves() {
    let mut m = DockManager::new(4);
    m.dock(10u32, 0, R1);
    assert_eq!(m.dock(10u32, 2, R1), DockResult::Moved { from: 0 });
    assert_eq!(m.occupant(0), None);
    assert_eq!(m.occupant(2), Some(10));
}

#[test]
fn undock_returns_original_rect() {
    // 解除時は元サイズ復元のために orig を返す
    let mut m = DockManager::new(4);
    m.dock(10u32, 0, R1);
    assert_eq!(m.undock(10), Some(R1));
    assert_eq!(m.panel_of(10), None);
    assert_eq!(m.undock(10), None);
}

#[test]
fn destroyed_window_is_removed() {
    let mut m = DockManager::new(4);
    m.dock(10u32, 0, R1);
    assert!(m.on_destroyed(10));
    assert!(!m.on_destroyed(10));
    assert_eq!(m.occupant(0), None);
}

#[test]
fn maximize_toggles_and_ignores_empty_panel() {
    let mut m = DockManager::new(4);
    assert_eq!(m.toggle_maximize(0), None); // 空パネルは無効
    m.dock(10u32, 0, R1);
    assert_eq!(m.toggle_maximize(0), Some(true));
    assert_eq!(m.maximized_panel(), Some(0));
    assert_eq!(m.toggle_maximize(0), Some(false));
    assert_eq!(m.maximized_panel(), None);
}

#[test]
fn dock_cancels_maximize() {
    // 最大化中のドック系操作は最大化を解除してから適用
    let mut m = DockManager::new(4);
    m.dock(10u32, 0, R1);
    m.toggle_maximize(0);
    m.dock(20u32, 1, R2);
    assert_eq!(m.maximized_panel(), None);
}

#[test]
fn undock_of_maximized_window_clears_maximize() {
    let mut m = DockManager::new(4);
    m.dock(10u32, 0, R1);
    m.toggle_maximize(0);
    m.undock(10);
    assert_eq!(m.maximized_panel(), None);
}

#[test]
fn shrinking_panel_count_releases_overflow() {
    // プリセット変更であふれたウィンドウは解除
    let mut m = DockManager::new(4);
    m.dock(10u32, 1, R1);
    m.dock(20u32, 3, R2);
    let released = m.set_panel_count(2);
    assert_eq!(released, vec![Docked { id: 20, orig: R2 }]);
    assert_eq!(m.panel_count(), 2);
    assert_eq!(m.occupant(1), Some(10));
}

#[test]
fn growing_panel_count_keeps_windows() {
    let mut m = DockManager::new(2);
    m.dock(10u32, 0, R1);
    assert!(m.set_panel_count(4).is_empty());
    assert_eq!(m.panel_count(), 4);
    assert_eq!(m.occupant(0), Some(10));
}

#[test]
fn drain_all_returns_everything() {
    let mut m = DockManager::new(4);
    m.dock(10u32, 0, R1);
    m.dock(20u32, 3, R2);
    let mut all = m.drain_all();
    all.sort_by_key(|d| d.id);
    assert_eq!(all, vec![Docked { id: 10, orig: R1 }, Docked { id: 20, orig: R2 }]);
    assert_eq!(m.occupant(0), None);
}

#[test]
fn target_rects_uses_body_and_maximized_uses_frame_body() {
    let mut m = DockManager::new(2);
    let panels = panel_areas(Preset::Cols2, Rect { x: 0, y: 0, w: 1000, h: 600 }, 28);
    let frame_body = Rect { x: 0, y: 0, w: 1000, h: 600 };
    m.dock(10u32, 0, R1);
    m.dock(20u32, 1, R2);
    let t = m.target_rects(&panels, frame_body);
    assert!(t.contains(&(10, panels[0].body)));
    assert!(t.contains(&(20, panels[1].body)));
    m.toggle_maximize(1);
    let t = m.target_rects(&panels, frame_body);
    assert!(t.contains(&(20, frame_body)));
    assert!(t.contains(&(10, panels[0].body)));
}

// ------------------------------------------------------------ ロック

#[test]
fn locked_panel_rejects_outside_drop() {
    let mut m = DockManager::new(4);
    m.dock(10u32, 0, R1);
    m.toggle_lock(0);
    assert_eq!(m.dock(20u32, 0, R2), DockResult::Rejected);
    assert_eq!(m.occupant(0), Some(10)); // 先住は不変
    assert_eq!(m.panel_of(20), None);
}

#[test]
fn locked_panel_rejects_swap() {
    let mut m = DockManager::new(4);
    m.dock(10u32, 0, R1);
    m.dock(20u32, 1, R2);
    m.toggle_lock(1);
    assert_eq!(m.dock(10u32, 1, R1), DockResult::Rejected);
    assert_eq!(m.occupant(0), Some(10));
    assert_eq!(m.occupant(1), Some(20));
}

#[test]
fn locked_source_panel_rejects_move_out() {
    // 完全ロック: ロック中パネルの占有者は他パネルへも動かせない
    let mut m = DockManager::new(4);
    m.dock(10u32, 0, R1);
    m.toggle_lock(0);
    assert_eq!(m.dock(10u32, 2, R1), DockResult::Rejected);
    assert_eq!(m.occupant(0), Some(10));
    assert_eq!(m.occupant(2), None);
}

#[test]
fn empty_panel_cannot_be_locked() {
    // ロックはドック済みウィンドウの保護。空パネルはロック不可
    let mut m = DockManager::<u32>::new(4);
    assert!(!m.toggle_lock(3));
    assert!(!m.is_locked(3));
}

#[test]
fn toggle_lock_toggles_and_reports() {
    let mut m = DockManager::new(2);
    m.dock(10u32, 0, R1);
    assert!(!m.is_locked(0));
    assert!(m.toggle_lock(0));
    assert!(m.is_locked(0));
    assert!(!m.toggle_lock(0));
    assert!(!m.is_locked(0));
}

#[test]
fn raise_order_is_panel_order_without_maximize() {
    let mut m = DockManager::new(4);
    m.dock(10u32, 0, R1);
    m.dock(20u32, 1, R2);
    m.dock(30u32, 3, R1);
    assert_eq!(m.raise_order(), vec![10, 20, 30]);
}

#[test]
fn raise_order_puts_maximized_window_last() {
    // 後に挙げたものほど前面になるため、最大化中のウィンドウは末尾であること
    let mut m = DockManager::new(4);
    m.dock(10u32, 0, R1);
    m.dock(20u32, 1, R2);
    m.dock(30u32, 3, R1);
    m.toggle_maximize(0);
    assert_eq!(m.raise_order(), vec![20, 30, 10]);
    m.toggle_maximize(0); // 解除でパネル順に戻る
    assert_eq!(m.raise_order(), vec![10, 20, 30]);
}

#[test]
fn lock_does_not_block_maximize() {
    let mut m = DockManager::new(4);
    m.dock(10u32, 0, R1);
    m.toggle_lock(0);
    assert_eq!(m.toggle_maximize(0), Some(true));
    assert_eq!(m.maximized_panel(), Some(0));
    assert_eq!(m.toggle_maximize(0), Some(false));
}

#[test]
fn rejected_dock_keeps_maximize() {
    // 拒否時は「dock は最大化を解除してから適用」も発動しない
    let mut m = DockManager::new(4);
    m.dock(10u32, 0, R1);
    m.dock(30u32, 1, R2);
    m.toggle_lock(1);
    m.toggle_maximize(0);
    assert_eq!(m.dock(20u32, 1, R2), DockResult::Rejected);
    assert_eq!(m.maximized_panel(), Some(0));
}

#[test]
fn panel_count_change_resizes_locks() {
    let mut m = DockManager::new(4);
    m.dock(10u32, 1, R1);
    m.dock(20u32, 3, R2);
    m.toggle_lock(1);
    m.toggle_lock(3);
    m.set_panel_count(2);
    assert!(m.is_locked(1)); // 残るパネルのロックは維持
    assert!(!m.is_locked(3)); // あふれたロックは破棄(範囲外は false)
    m.set_panel_count(4);
    assert!(!m.is_locked(3)); // 拡大分は非ロック
}

#[test]
fn undock_clears_lock() {
    // destroy・消失ウィンドウ除去経路の保証: undock は成功し、空パネルにロックを残さない
    let mut m = DockManager::new(4);
    m.dock(10u32, 0, R1);
    m.toggle_lock(0);
    assert_eq!(m.undock(10), Some(R1));
    assert!(!m.is_locked(0));
}

#[test]
fn drain_all_clears_locks() {
    // フレームクローズ時の全解放でロックも解除
    let mut m = DockManager::new(4);
    m.dock(10u32, 0, R1);
    m.toggle_lock(0);
    m.drain_all();
    assert!(!m.is_locked(0));
}
