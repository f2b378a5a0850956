//! Frames: the per-frame state, its geometry (body, buttons, hit testing) and
//! the state changes behind the frame's commands.
use crate::config::{Config, FrameConfig};
use crate::dock::{occupied, DockManager, DockState, Docked};
use crate::layout::{fits, fits_i32, max_int, PanelArea, Preset, Rect};
use crate::win_util::Theme;
use vstd::prelude::*;

verus! {

broadcast use vstd::laws_eq::group_laws_eq;

/// A button on the toolbar or on a panel header; drawing and hit testing share
/// one definition of where the buttons are.
#[derive(Clone, Copy, PartialEq, Eq, Debug, Structural)]
pub enum ButtonId {
    Preset(Preset),
    ToolMax,
    ToolClose,
    PanelMax(usize),
    /// Shown on the toolbar only while a panel is maximized (the maximized window
    /// covers the panel headers and their buttons).
    PanelRestore,
}

/// The state of one frame. `hwnd` is the frame window's raw handle; docked
/// windows are identified by their raw handles too.
pub struct FrameState {
    pub hwnd: isize,
    pub preset: Preset,
    pub dock: DockManager<isize>,
    /// The window rectangle when not maximized (also what is saved).
    pub restore_rect: Rect,
    pub maximized: bool,
    pub hover: Option<ButtonId>,
}

/// The abstract state of a frame.
pub struct FrameView {
    pub hwnd: isize,
    pub preset: Preset,
    pub dock: DockState<isize>,
    pub restore_rect: Rect,
    pub maximized: bool,
    pub hover: Option<ButtonId>,
}

impl View for FrameState {
    type V = FrameView;

    open spec fn view(&self) -> FrameView {
        FrameView {
            hwnd: self.hwnd,
            preset: self.preset,
            dock: self.dock@,
            restore_rect: self.restore_rect,
            maximized: self.maximized,
            hover: self.hover,
        }
    }
}

impl FrameView {
    /// The ledger is consistent and has one slot per panel of the preset.
    pub open spec fn wf(self) -> bool {
        &&& self.dock.wf()
        &&& self.dock.slots.len() == self.preset.panels()
    }
}

/// What a click on a frame asks for.
#[derive(Clone, Copy, PartialEq, Eq, Debug, Structural)]
pub enum FrameCommand {
    Close,
    ToggleToolMaximize,
    SetPreset(Preset),
    TogglePanelMaximize(usize),
}

/// What toggling a panel's maximization did.
#[derive(Clone, Copy, PartialEq, Eq, Debug, Structural)]
pub enum PanelMaxOutcome {
    /// The panel is empty; nothing happened.
    Ignored,
    /// The panel is now maximized; its window is to be brought to the top.
    Maximized(isize),
    /// The panel is no longer maximized.
    Restored,
}

/// Where a point of the frame's client area lies for the window manager.
#[derive(Clone, Copy, PartialEq, Eq, Debug, Structural)]
pub enum HitZone {
    TopLeft,
    TopRight,
    BottomLeft,
    BottomRight,
    Left,
    Right,
    Top,
    Bottom,
    /// The toolbar outside of any button: dragging moves the frame.
    Caption,
    Client,
}

/// Sizes (in physical pixels) of the toolbar and its buttons.
#[derive(Clone, Copy, PartialEq, Eq, Debug, Structural)]
pub struct ButtonMetrics {
    /// Toolbar height.
    pub toolbar_h: i32,
    /// Width of a caption button (close, maximize, restore).
    pub caption_w: i32,
    /// Width of a preset button.
    pub preset_w: i32,
    /// Left margin of the first preset button.
    pub preset_x: i32,
    /// Width of the maximize button at the right end of a panel header.
    pub panel_button_w: i32,
}

impl FrameState {
    /// A frame with handle `hwnd` as saved in `cfg`: its panels empty, not
    /// maximized, with `cfg`'s rectangle to restore to.
    pub fn from_config(hwnd: isize, cfg: &FrameConfig) -> (f: FrameState)
        ensures
            f@.wf(),
            f@.hwnd == hwnd,
            f@.preset == cfg.preset,
            f@.dock == DockState::<isize>::empty(cfg.preset.panels() as nat),
            f@.restore_rect == (Rect { x: cfg.x, y: cfg.y, w: cfg.width, h: cfg.height }),
            !f@.maximized,
            f@.hover is None,
    {
        let n = cfg.preset.panel_count();
        FrameState {
            hwnd,
            preset: cfg.preset,
            dock: DockManager::new(n),
            restore_rect: Rect { x: cfg.x, y: cfg.y, w: cfg.width, h: cfg.height },
            maximized: false,
            hover: None,
        }
    }

    /// Sets the hovered button; whether it changed (the frame is then repainted).
    pub fn set_hover(&mut self, b: Option<ButtonId>) -> (changed: bool)
        ensures
            changed == (old(self).hover != b),
            final(self)@ == (FrameView { hover: b, ..old(self)@ }),
    {
        let changed = match (self.hover, b) {
            (None, None) => false,
            (Some(x), Some(y)) => x != y,
            _ => true,
        };
        if changed {
            self.hover = b;
        }
        changed
    }

    /// Records the window rectangle after a move or resize; a maximized frame
    /// keeps the rectangle it restores to.
    pub fn record_restore_rect(&mut self, current: Option<Rect>)
        ensures
            final(self)@ == (FrameView {
                restore_rect: if !old(self).maximized && current is Some {
                    current->0
                } else {
                    old(self).restore_rect
                },
                ..old(self)@
            }),
    {
        if !self.maximized {
            match current {
                Some(r) => self.restore_rect = r,
                None => {},
            }
        }
    }

    /// Toggles the frame's maximization (to the monitor's work area `work_area`)
    /// and returns the window rectangle to apply. Leaving maximization returns the
    /// saved rectangle; entering it saves the current rectangle (when known).
    pub fn toggle_tool_maximize(&mut self, current: Option<Rect>, work_area: Rect) -> (target: Rect)
        ensures
            old(self).maximized ==> target == old(self).restore_rect && final(self)@ == (FrameView {
                maximized: false,
                ..old(self)@
            }),
            !old(self).maximized ==> target == work_area && final(self)@ == (match current {
                Some(cur) => FrameView { restore_rect: cur, maximized: true, ..old(self)@ },
                None => old(self)@,
            }),
    {
        if self.maximized {
            self.maximized = false;
            self.restore_rect
        } else {
            match current {
                Some(cur) => {
                    self.restore_rect = cur;
                    self.maximized = true;
                },
                None => {},
            }
            work_area
        }
    }

    /// Toggles the maximization of `panel`; an empty panel is ignored.
    pub fn toggle_panel_maximize(&mut self, panel: usize) -> (o: PanelMaxOutcome)
        requires
            old(self)@.wf(),
        ensures
            final(self)@ == (FrameView { dock: old(self)@.dock.max_toggling(panel as int).0, ..old(self)@ }),
            final(self)@.wf(),
            o == match old(self)@.dock.max_toggling(panel as int).1 {
                None => PanelMaxOutcome::Ignored,
                Some(true) => PanelMaxOutcome::Maximized(old(self)@.dock.occupant(panel as int)->0),
                Some(false) => PanelMaxOutcome::Restored,
            },
    {
        let id = match self.dock.occupant(panel) {
            Some(id) => id,
            None => return PanelMaxOutcome::Ignored,
        };
        match self.dock.toggle_maximize(panel) {
            Some(true) => PanelMaxOutcome::Maximized(id),
            Some(false) => PanelMaxOutcome::Restored,
            None => PanelMaxOutcome::Ignored,
        }
    }

    /// Switches to preset `p`; windows of panels that no longer exist are released
    /// and returned (to be restored to their original rectangles).
    pub fn set_preset(&mut self, p: Preset) -> (released: Vec<Docked<isize>>)
        requires
            old(self)@.wf(),
        ensures
            final(self)@ == (FrameView {
                preset: p,
                dock: old(self)@.dock.resizing(p.panels() as nat).0,
                ..old(self)@
            }),
            released@ == old(self)@.dock.resizing(p.panels() as nat).1,
            final(self)@.wf(),
    {
        self.preset = p;
        self.dock.set_panel_count(p.panel_count())
    }

    /// Releases the windows that could not be moved into their panels.
    pub fn release_failed(&mut self, failed: &Vec<isize>)
        requires
            old(self)@.wf(),
        ensures
            final(self)@ == (FrameView { dock: undock_all(old(self)@.dock, failed@), ..old(self)@ }),
            final(self)@.wf(),
            forall|k: int| 0 <= k < failed@.len() ==> final(self)@.dock.position(#[trigger] failed@[k]) is None,
    {
        let mut i: usize = 0;
        while i < failed.len()
            invariant
                i <= failed@.len(),
                self@ == (FrameView { dock: undock_all(old(self)@.dock, failed@.subrange(0, i as int)), ..old(self)@ }),
                self@.wf(),
                forall|k: int| 0 <= k < i ==> self@.dock.position(#[trigger] failed@[k]) is None,
            decreases failed@.len() - i,
        {
            let ghost before = self@.dock;
            assert(failed@.subrange(0, i as int + 1).drop_last() =~= failed@.subrange(0, i as int));
            self.dock.undock(failed[i]);
            proof {
                assert forall|k: int| 0 <= k < i + 1 implies self@.dock.position(#[trigger] failed@[k]) is None by {
                    if k < i {
                        lemma_undocking_keeps_absent(before, failed@[i as int], failed@[k]);
                    }
                }
            }
            i = i + 1;
        }
        assert(failed@.subrange(0, failed@.len() as int) =~= failed@);
    }

    /// The windows docked in this frame, in panel order.
    pub fn docked_ids(&self) -> (ids: Vec<isize>)
        ensures
            ids@ == ids_of(occupied(self@.dock.slots)),
    {
        let mut ids: Vec<isize> = Vec::new();
        let n = self.dock.panel_count();
        let mut i: usize = 0;
        while i < n
            invariant
                n == self@.dock.slots.len(),
                i <= n,
                ids@ == ids_of(occupied(self@.dock.slots.subrange(0, i as int))),
            decreases n - i,
        {
            let ghost prefix = self@.dock.slots.subrange(0, i as int);
            assert(self@.dock.slots.subrange(0, i as int + 1).drop_last() =~= prefix);
            match self.dock.occupant(i) {
                Some(id) => {
                    ids.push(id);
                    proof {
                        lemma_ids_of_push(occupied(prefix), self@.dock.slots[i as int]->0);
                    }
                },
                None => {},
            }
            i = i + 1;
        }
        assert(self@.dock.slots.subrange(0, n as int) =~= self@.dock.slots);
        ids
    }

    /// Where each docked window goes, leaving out the window being dragged:
    /// the panel body (`panels` in screen coordinates) or `frame_body` when maximized.
    pub fn reflow_moves(&self, panels: &Vec<PanelArea>, frame_body: Rect, dragging: Option<isize>) -> (moves: Vec<(isize, Rect)>)
        requires
            self@.dock.covered_by(panels@),
        ensures
            moves@ == without_id(self@.dock.targets(panels@, frame_body), dragging),
    {
        let targets = self.dock.target_rects(panels.as_slice(), frame_body);
        let mut moves: Vec<(isize, Rect)> = Vec::new();
        let mut i: usize = 0;
        while i < targets.len()
            invariant
                i <= targets@.len(),
                moves@ == without_id(targets@.subrange(0, i as int), dragging),
            decreases targets@.len() - i,
        {
            assert(targets@.subrange(0, i as int + 1).drop_last() =~= targets@.subrange(0, i as int));
            let (id, r) = targets[i];
            if dragging != Some(id) {
                moves.push((id, r));
            }
            i = i + 1;
        }
        assert(targets@.subrange(0, targets@.len() as int) =~= targets@);
        moves
    }
}

/// The ledger after releasing each of `ids` in turn.
pub open spec fn undock_all(s: DockState<isize>, ids: Seq<isize>) -> DockState<isize>
    decreases ids.len(),
{
    if ids.len() == 0 {
        s
    } else {
        undock_all(s, ids.drop_last()).undocking(ids.last()).0
    }
}

/// The ids of docked windows.
pub open spec fn ids_of(ds: Seq<Docked<isize>>) -> Seq<isize> {
    ds.map_values(|d: Docked<isize>| d.id)
}

/// The moves without the one of the dragged window.
pub open spec fn without_id(moves: Seq<(isize, Rect)>, dragging: Option<isize>) -> Seq<(isize, Rect)>
    decreases moves.len(),
{
    if moves.len() == 0 {
        Seq::empty()
    } else {
        let rest = without_id(moves.drop_last(), dragging);
        if dragging == Some(moves.last().0) {
            rest
        } else {
            rest.push(moves.last())
        }
    }
}

proof fn lemma_ids_of_push(ds: Seq<Docked<isize>>, d: Docked<isize>)
    ensures
        ids_of(ds.push(d)) == ids_of(ds).push(d.id),
{
    assert(ids_of(ds.push(d)) =~= ids_of(ds).push(d.id));
}

/// Releasing one window leaves a window that was not docked not docked.
proof fn lemma_undocking_keeps_absent(s: DockState<isize>, gone: isize, id: isize)
    requires
        s.wf(),
        s.position(id) is None,
    ensures
        s.undocking(gone).0.position(id) is None,
{
    let t = s.undocking(gone).0;
    assert forall|i: int| !t.holds(i, id) by {
        assert(!s.holds(i, id));
    }
}

/// The panel area below the toolbar, in client coordinates.
pub open spec fn body_rect(client: Rect, toolbar_h: i32) -> Rect {
    Rect { x: 0, y: toolbar_h, w: client.w, h: max_int(client.h - toolbar_h, 0) as i32 }
}

/// The part of the client area below the toolbar (`toolbar_h` pixels high).
pub fn body_area(client: Rect, toolbar_h: i32) -> (r: Rect)
    requires
        fits_i32(client.h - toolbar_h),
    ensures
        r == body_rect(client, toolbar_h),
{
    let h = client.h - toolbar_h;
    Rect { x: 0, y: toolbar_h, w: client.w, h: if h > 0 { h } else { 0 } }
}

/// `r` moved by (`dx`, `dy`).
pub open spec fn shifted(r: Rect, dx: i32, dy: i32) -> Rect {
    Rect { x: (r.x + dx) as i32, y: (r.y + dy) as i32, ..r }
}

/// Moving `r` by (`dx`, `dy`) stays in the `i32` range.
pub open spec fn shift_defined(r: Rect, dx: i32, dy: i32) -> bool {
    fits_i32(r.x + dx) && fits_i32(r.y + dy)
}

/// Moving a panel by (`dx`, `dy`) stays in the `i32` range.
pub open spec fn panel_shift_defined(p: PanelArea, dx: i32, dy: i32) -> bool {
    shift_defined(p.header, dx, dy) && shift_defined(p.body, dx, dy)
}

/// `r` moved by (`dx`, `dy`), e.g. from client to screen coordinates.
pub fn offset(r: Rect, dx: i32, dy: i32) -> (o: Rect)
    requires
        shift_defined(r, dx, dy),
    ensures
        o == shifted(r, dx, dy),
{
    Rect { x: r.x + dx, y: r.y + dy, ..r }
}

/// Panels moved by (`dx`, `dy`): header and body alike.
pub fn offset_panels(panels: &Vec<PanelArea>, dx: i32, dy: i32) -> (moved: Vec<PanelArea>)
    requires
        forall|i: int| 0 <= i < panels@.len() ==> panel_shift_defined(#[trigger] panels@[i], dx, dy),
    ensures
        moved@.len() == panels@.len(),
        forall|i: int|
            0 <= i < panels@.len() ==> #[trigger] moved@[i] == (PanelArea {
                header: shifted(panels@[i].header, dx, dy),
                body: shifted(panels@[i].body, dx, dy),
            }),
{
    let mut moved: Vec<PanelArea> = Vec::new();
    let mut i: usize = 0;
    while i < panels.len()
        invariant
            i <= panels@.len(),
            forall|k: int| 0 <= k < panels@.len() ==> panel_shift_defined(#[trigger] panels@[k], dx, dy),
            moved@.len() == i,
            forall|k: int|
                0 <= k < i ==> #[trigger] moved@[k] == (PanelArea {
                    header: shifted(panels@[k].header, dx, dy),
                    body: shifted(panels@[k].body, dx, dy),
                }),
        decreases panels@.len() - i,
    {
        let p = panels[i];
        moved.push(PanelArea { header: offset(p.header, dx, dy), body: offset(p.body, dx, dy) });
        i = i + 1;
    }
    moved
}

/// The button list: close and maximize at the right end of the toolbar, the
/// panel-restore button left of them while a panel is maximized, the three preset
/// buttons from the left, then one maximize button at the right end of each
/// panel header.
pub open spec fn button_layout(client_w: i32, m: ButtonMetrics, panel_maximized: bool, panels: Seq<PanelArea>) -> Seq<(ButtonId, Rect)> {
    let tb = m.toolbar_h;
    let bw = m.caption_w;
    let caption = seq![
        (ButtonId::ToolClose, Rect { x: (client_w - bw) as i32, y: 0, w: bw, h: tb }),
        (ButtonId::ToolMax, Rect { x: (client_w - bw * 2) as i32, y: 0, w: bw, h: tb }),
    ];
    let toolbar = if panel_maximized {
        caption.push((ButtonId::PanelRestore, Rect { x: (client_w - bw * 3) as i32, y: 0, w: bw, h: tb }))
    } else {
        caption
    };
    let presets = seq![
        (ButtonId::Preset(Preset::Grid2x2), Rect { x: m.preset_x, y: 0, w: m.preset_w, h: tb }),
        (ButtonId::Preset(Preset::Cols2), Rect { x: (m.preset_x + m.preset_w) as i32, y: 0, w: m.preset_w, h: tb }),
        (ButtonId::Preset(Preset::Rows2), Rect { x: (m.preset_x + m.preset_w * 2) as i32, y: 0, w: m.preset_w, h: tb }),
    ];
    toolbar + presets + Seq::new(panels.len(), |i: int| panel_button(panels[i], i, m.panel_button_w))
}

/// The maximize button of panel `i`.
pub open spec fn panel_button(p: PanelArea, i: int, w: i32) -> (ButtonId, Rect) {
    (
        ButtonId::PanelMax(i as usize),
        Rect { x: (p.header.x + p.header.w - w) as i32, y: p.header.y, w, h: p.header.h },
    )
}

/// The button positions compute within the `i32` range.
pub open spec fn buttons_defined(client_w: i32, m: ButtonMetrics, panel_maximized: bool, panels: Seq<PanelArea>) -> bool {
    &&& fits_i32(client_w - m.caption_w)
    &&& fits_i32(m.caption_w * 2)
    &&& fits_i32(client_w - m.caption_w * 2)
    &&& panel_maximized ==> fits_i32(m.caption_w * 3) && fits_i32(client_w - m.caption_w * 3)
    &&& fits_i32(m.preset_w * 2)
    &&& fits_i32(m.preset_x + m.preset_w)
    &&& fits_i32(m.preset_x + m.preset_w * 2)
    &&& panels.len() <= usize::MAX
    &&& forall|i: int|
        0 <= i < panels.len() ==> fits_i32(#[trigger] panels[i].header.x + panels[i].header.w) && fits_i32(
            panels[i].header.x + panels[i].header.w - m.panel_button_w,
        )
}

/// The buttons of a frame whose client area is `client_w` wide, with panels
/// `panels` (client coordinates).
pub fn button_rects(client_w: i32, m: ButtonMetrics, panel_maximized: bool, panels: &Vec<PanelArea>) -> (v: Vec<(ButtonId, Rect)>)
    requires
        buttons_defined(client_w, m, panel_maximized, panels@),
    ensures
        v@ == button_layout(client_w, m, panel_maximized, panels@),
{
    let tb = m.toolbar_h;
    let bw = m.caption_w;
    let pw = m.preset_w;
    let mut v: Vec<(ButtonId, Rect)> = Vec::new();
    v.push((ButtonId::ToolClose, Rect { x: client_w - bw, y: 0, w: bw, h: tb }));
    v.push((ButtonId::ToolMax, Rect { x: client_w - bw * 2, y: 0, w: bw, h: tb }));
    if panel_maximized {
        v.push((ButtonId::PanelRestore, Rect { x: client_w - bw * 3, y: 0, w: bw, h: tb }));
    }
    v.push((ButtonId::Preset(Preset::Grid2x2), Rect { x: m.preset_x, y: 0, w: pw, h: tb }));
    v.push((ButtonId::Preset(Preset::Cols2), Rect { x: m.preset_x + pw, y: 0, w: pw, h: tb }));
    v.push((ButtonId::Preset(Preset::Rows2), Rect { x: m.preset_x + pw * 2, y: 0, w: pw, h: tb }));
    let ghost head = v@;
    let hb = m.panel_button_w;
    let mut i: usize = 0;
    while i < panels.len()
        invariant
            i <= panels@.len(),
            buttons_defined(client_w, m, panel_maximized, panels@),
            hb == m.panel_button_w,
            v@ == head + Seq::new(i as nat, |k: int| panel_button(panels@[k], k, m.panel_button_w)),
        decreases panels@.len() - i,
    {
        let h = panels[i].header;
        assert(fits_i32(panels@[i as int].header.x + panels@[i as int].header.w));
        v.push((ButtonId::PanelMax(i), Rect { x: h.x + h.w - hb, y: h.y, w: hb, h: h.h }));
        assert(v@ =~= head + Seq::new((i + 1) as nat, |k: int| panel_button(panels@[k], k, m.panel_button_w)));
        i = i + 1;
    }
    assert(v@ =~= button_layout(client_w, m, panel_maximized, panels@));
    v
}

/// The first button of `buttons` that contains the point.
pub open spec fn first_button_at(buttons: Seq<(ButtonId, Rect)>, x: int, y: int) -> Option<ButtonId>
    decreases buttons.len(),
{
    if buttons.len() == 0 {
        None
    } else if buttons[0].1.holds(x, y) {
        Some(buttons[0].0)
    } else {
        first_button_at(buttons.drop_first(), x, y)
    }
}

/// The button under the point (`buttons` as given by [`button_rects`]).
pub fn button_at(buttons: &Vec<(ButtonId, Rect)>, x: i32, y: i32) -> (b: Option<ButtonId>)
    ensures
        b == first_button_at(buttons@, x as int, y as int),
{
    let mut i: usize = 0;
    assert(buttons@.subrange(0, buttons@.len() as int) =~= buttons@);
    while i < buttons.len()
        invariant
            i <= buttons@.len(),
            first_button_at(buttons@, x as int, y as int) == first_button_at(buttons@.subrange(i as int, buttons@.len() as int), x as int, y as int),
        decreases buttons@.len() - i,
    {
        let (b, r) = buttons[i];
        let ghost rest = buttons@.subrange(i as int, buttons@.len() as int);
        assert(rest.drop_first() =~= buttons@.subrange(i as int + 1, buttons@.len() as int));
        if r.contains(x, y) {
            return Some(b);
        }
        i = i + 1;
    }
    None
}

/// Width of the resize border at the frame's edges, in pixels.
pub const RESIZE_BORDER: i32 = 8;

/// The hit zone of a point (client coordinates) of a frame with client rectangle
/// `client`: the 8-pixel border resizes (corners first, not while the frame is
/// maximized); the toolbar outside of buttons moves the frame; the rest is client.
pub open spec fn hit_zone_of(x: int, y: int, client: Rect, maximized: bool, on_button: bool, toolbar_h: int) -> HitZone {
    let m = RESIZE_BORDER as int;
    let left = !maximized && x < m;
    let right = !maximized && x >= client.w - m;
    let top = !maximized && y < m;
    let bottom = !maximized && y >= client.h - m;
    if left && top {
        HitZone::TopLeft
    } else if right && top {
        HitZone::TopRight
    } else if left && bottom {
        HitZone::BottomLeft
    } else if right && bottom {
        HitZone::BottomRight
    } else if left {
        HitZone::Left
    } else if right {
        HitZone::Right
    } else if top {
        HitZone::Top
    } else if bottom {
        HitZone::Bottom
    } else if y < toolbar_h && !on_button {
        HitZone::Caption
    } else {
        HitZone::Client
    }
}

/// Classifies a point for the window manager (`on_button`: the point is on a button).
pub fn hit_zone(x: i32, y: i32, client: Rect, maximized: bool, on_button: bool, toolbar_h: i32) -> (z: HitZone)
    requires
        !maximized ==> fits_i32(client.w - RESIZE_BORDER) && fits_i32(client.h - RESIZE_BORDER),
    ensures
        z == hit_zone_of(x as int, y as int, client, maximized, on_button, toolbar_h as int),
{
    let m = RESIZE_BORDER;
    let (left, right, top, bottom) = if maximized {
        (false, false, false, false)
    } else {
        (x < m, x >= client.w - m, y < m, y >= client.h - m)
    };
    if left && top {
        HitZone::TopLeft
    } else if right && top {
        HitZone::TopRight
    } else if left && bottom {
        HitZone::BottomLeft
    } else if right && bottom {
        HitZone::BottomRight
    } else if left {
        HitZone::Left
    } else if right {
        HitZone::Right
    } else if top {
        HitZone::Top
    } else if bottom {
        HitZone::Bottom
    } else if y < toolbar_h && !on_button {
        HitZone::Caption
    } else {
        HitZone::Client
    }
}

/// What a click on `button` asks for; the panel-restore button restores the
/// maximized panel (`maximized_panel`), and does nothing when there is none.
pub fn click_command(button: Option<ButtonId>, maximized_panel: Option<usize>) -> (c: Option<FrameCommand>)
    ensures
        c == match button {
            None => None,
            Some(ButtonId::ToolClose) => Some(FrameCommand::Close),
            Some(ButtonId::ToolMax) => Some(FrameCommand::ToggleToolMaximize),
            Some(ButtonId::Preset(p)) => Some(FrameCommand::SetPreset(p)),
            Some(ButtonId::PanelMax(i)) => Some(FrameCommand::TogglePanelMaximize(i)),
            Some(ButtonId::PanelRestore) => match maximized_panel {
                Some(p) => Some(FrameCommand::TogglePanelMaximize(p)),
                None => None,
            },
        },
{
    match button {
        None => None,
        Some(ButtonId::ToolClose) => Some(FrameCommand::Close),
        Some(ButtonId::ToolMax) => Some(FrameCommand::ToggleToolMaximize),
        Some(ButtonId::Preset(p)) => Some(FrameCommand::SetPreset(p)),
        Some(ButtonId::PanelMax(i)) => Some(FrameCommand::TogglePanelMaximize(i)),
        Some(ButtonId::PanelRestore) => match maximized_panel {
            Some(p) => Some(FrameCommand::TogglePanelMaximize(p)),
            None => None,
        },
    }
}

/// The last window of `z_order` (topmost first) that is one of `ids`.
pub open spec fn last_member(z_order: Seq<isize>, ids: Seq<isize>) -> Option<isize>
    decreases z_order.len(),
{
    if z_order.len() == 0 {
        None
    } else if ids.contains(z_order.last()) {
        Some(z_order.last())
    } else {
        last_member(z_order.drop_last(), ids)
    }
}

fn contains_id(ids: &Vec<isize>, id: isize) -> (b: bool)
    ensures
        b == ids@.contains(id),
{
    let mut i: usize = 0;
    while i < ids.len()
        invariant
            i <= ids@.len(),
            forall|k: int| 0 <= k < i ==> ids@[k] != id,
        decreases ids@.len() - i,
    {
        if ids[i] == id {
            assert(ids@[i as int] == id);
            return true;
        }
        i = i + 1;
    }
    false
}

/// The bottommost of the docked windows `ids`, given the top-level windows in
/// Z order from the top (`z_order`).
pub fn bottom_docked(ids: &Vec<isize>, z_order: &Vec<isize>) -> (b: Option<isize>)
    ensures
        b == last_member(z_order@, ids@),
{
    let mut bottom: Option<isize> = None;
    let mut i: usize = 0;
    while i < z_order.len()
        invariant
            i <= z_order@.len(),
            bottom == last_member(z_order@.subrange(0, i as int), ids@),
        decreases z_order@.len() - i,
    {
        assert(z_order@.subrange(0, i as int + 1).drop_last() =~= z_order@.subrange(0, i as int));
        let w = z_order[i];
        if contains_id(ids, w) {
            bottom = Some(w);
        }
        i = i + 1;
    }
    assert(z_order@.subrange(0, z_order@.len() as int) =~= z_order@);
    bottom
}

/// An ongoing drag of a window.
#[derive(Clone, Copy, PartialEq, Eq, Debug, Structural)]
pub struct DragCtx {
    /// Raw handle of the dragged window.
    pub target: isize,
    /// The window may not be docked (its process is elevated): red highlight.
    pub denied: bool,
    /// The window sits in a locked panel: any drop snaps it back.
    pub from_locked: bool,
}

/// The state of the whole application: its frames and the ongoing drag.
pub struct App {
    pub frames: Vec<FrameState>,
    pub theme: Theme,
    pub app_hwnd: isize,
    pub overlay: isize,
    pub dragging: Option<DragCtx>,
    /// The frame last used; where preset changes from the tray menu apply.
    pub last_active: isize,
    /// Saving is suspended while the application shuts down.
    pub suppress_save: bool,
}

/// The abstract state of the application.
pub struct AppView {
    pub frames: Seq<FrameView>,
    pub theme: Theme,
    pub app_hwnd: isize,
    pub overlay: isize,
    pub dragging: Option<DragCtx>,
    pub last_active: isize,
    pub suppress_save: bool,
}

impl View for App {
    type V = AppView;

    open spec fn view(&self) -> AppView {
        AppView {
            frames: frame_views(self.frames@),
            theme: self.theme,
            app_hwnd: self.app_hwnd,
            overlay: self.overlay,
            dragging: self.dragging,
            last_active: self.last_active,
            suppress_save: self.suppress_save,
        }
    }
}

/// The saved record of a frame.
pub open spec fn frame_config_of(f: FrameView) -> FrameConfig {
    FrameConfig {
        preset: f.preset,
        x: f.restore_rect.x,
        y: f.restore_rect.y,
        width: f.restore_rect.w,
        height: f.restore_rect.h,
        maximized: f.maximized,
    }
}

/// No window is docked in two different frames.
pub open spec fn docked_once(frames: Seq<FrameView>) -> bool {
    forall|f: int, g: int, i: int, j: int|
        0 <= f < frames.len() && 0 <= g < frames.len() && f != g && 0 <= i < frames[f].dock.slots.len() && 0 <= j
            < frames[g].dock.slots.len() && (#[trigger] frames[f].dock.slots[i]) is Some
            && (#[trigger] frames[g].dock.slots[j]) is Some ==> frames[f].dock.slots[i]->0.id
            != frames[g].dock.slots[j]->0.id
}

/// Replacing a frame by one whose windows are some of its windows, in the same
/// panels, keeps every window in at most one frame.
pub proof fn lemma_shrunk_frame_once(frames: Seq<FrameView>, f: int, nf: FrameView)
    requires
        docked_once(frames),
        0 <= f < frames.len(),
        forall|i: int|
            0 <= i < nf.dock.slots.len() && (#[trigger] nf.dock.slots[i]) is Some ==> i < frames[f].dock.slots.len()
                && nf.dock.slots[i] == frames[f].dock.slots[i],
    ensures
        docked_once(frames.update(f, nf)),
{
    let t = frames.update(f, nf);
    assert forall|a: int, b: int, i: int, j: int|
        0 <= a < t.len() && 0 <= b < t.len() && a != b && 0 <= i < t[a].dock.slots.len() && 0 <= j
            < t[b].dock.slots.len() && (#[trigger] t[a].dock.slots[i]) is Some && (#[trigger] t[b].dock.slots[j]) is Some
        implies t[a].dock.slots[i]->0.id != t[b].dock.slots[j]->0.id by {
        if a == f {
            assert(t[a].dock.slots[i] == frames[a].dock.slots[i]);
            assert(t[b] == frames[b]);
            assert(frames[a].dock.slots[i] is Some && frames[b].dock.slots[j] is Some);
        } else if b == f {
            assert(t[b].dock.slots[j] == frames[b].dock.slots[j]);
            assert(t[a] == frames[a]);
            assert(frames[a].dock.slots[i] is Some && frames[b].dock.slots[j] is Some);
        } else {
            assert(t[a] == frames[a] && t[b] == frames[b]);
            assert(frames[a].dock.slots[i] is Some && frames[b].dock.slots[j] is Some);
        }
    }
}

/// Replacing a frame by one whose windows are its own windows (in any panels) and
/// possibly `id`, where no other frame docks `id`, keeps every window in at most
/// one frame.
pub proof fn lemma_grown_frame_once(frames: Seq<FrameView>, f: int, nf: FrameView, id: isize)
    requires
        docked_once(frames),
        0 <= f < frames.len(),
        forall|g: int, j: int|
            0 <= g < frames.len() && g != f && 0 <= j < frames[g].dock.slots.len() && (#[trigger] frames[g].dock.slots[j])
                is Some ==> frames[g].dock.slots[j]->0.id != id,
        forall|i: int|
            0 <= i < nf.dock.slots.len() && (#[trigger] nf.dock.slots[i]) is Some ==> nf.dock.slots[i]->0.id == id
                || exists|j: int|
                0 <= j < frames[f].dock.slots.len() && frames[f].dock.slots[j] is Some && frames[f].dock.slots[j]->0.id
                    == nf.dock.slots[i]->0.id,
    ensures
        docked_once(frames.update(f, nf)),
{
    let t = frames.update(f, nf);
    assert forall|a: int, b: int, i: int, j: int|
        0 <= a < t.len() && 0 <= b < t.len() && a != b && 0 <= i < t[a].dock.slots.len() && 0 <= j
            < t[b].dock.slots.len() && (#[trigger] t[a].dock.slots[i]) is Some && (#[trigger] t[b].dock.slots[j]) is Some
        implies t[a].dock.slots[i]->0.id != t[b].dock.slots[j]->0.id by {
        if a == f {
            assert(t[b] == frames[b]);
            assert(frames[b].dock.slots[j] is Some);
            if nf.dock.slots[i]->0.id != id {
                let k = choose|k: int|
                    0 <= k < frames[f].dock.slots.len() && frames[f].dock.slots[k] is Some && frames[f].dock.slots[k]->0.id
                        == nf.dock.slots[i]->0.id;
                assert(frames[f].dock.slots[k] is Some);
            }
        } else if b == f {
            assert(t[a] == frames[a]);
            assert(frames[a].dock.slots[i] is Some);
            if nf.dock.slots[j]->0.id != id {
                let k = choose|k: int|
                    0 <= k < frames[f].dock.slots.len() && frames[f].dock.slots[k] is Some && frames[f].dock.slots[k]->0.id
                        == nf.dock.slots[j]->0.id;
                assert(frames[f].dock.slots[k] is Some);
            }
        } else {
            assert(t[a] == frames[a] && t[b] == frames[b]);
            assert(frames[a].dock.slots[i] is Some && frames[b].dock.slots[j] is Some);
        }
    }
}

/// Dropping frames keeps every window in at most one frame; the kept frames are
/// frames of the original list.
proof fn lemma_frames_without_once(frames: Seq<FrameView>, hwnd: isize)
    requires
        docked_once(frames),
    ensures
        docked_once(frames_without(frames, hwnd)),
        forall|k: int|
            0 <= k < frames_without(frames, hwnd).len() ==> exists|j: int|
                0 <= j < frames.len() && #[trigger] frames_without(frames, hwnd)[k] == frames[j],
    decreases frames.len(),
{
    if frames.len() > 0 {
        let d = frames.drop_last();
        let n = frames.len() - 1;
        assert(docked_once(d)) by {
            assert forall|a: int, b: int, i: int, j: int|
                0 <= a < d.len() && 0 <= b < d.len() && a != b && 0 <= i < d[a].dock.slots.len() && 0 <= j
                    < d[b].dock.slots.len() && (#[trigger] d[a].dock.slots[i]) is Some && (#[trigger] d[b].dock.slots[j])
                    is Some implies d[a].dock.slots[i]->0.id != d[b].dock.slots[j]->0.id by {
                assert(d[a] == frames[a] && d[b] == frames[b]);
                assert(frames[a].dock.slots[i] is Some && frames[b].dock.slots[j] is Some);
            }
        }
        lemma_frames_without_once(d, hwnd);
        let rest = frames_without(d, hwnd);
        let r = frames_without(frames, hwnd);
        if frames.last().hwnd == hwnd {
            assert(r == rest);
            assert forall|k: int| 0 <= k < r.len() implies exists|j: int|
                0 <= j < frames.len() && #[trigger] r[k] == frames[j] by {
                let j = choose|j: int| 0 <= j < d.len() && rest[k] == d[j];
                assert(r[k] == frames[j]);
            }
        } else {
            assert(r == rest.push(frames.last()));
            assert forall|k: int| 0 <= k < r.len() implies exists|j: int|
                0 <= j < frames.len() && #[trigger] r[k] == frames[j] by {
                if k < rest.len() {
                    let j = choose|j: int| 0 <= j < d.len() && rest[k] == d[j];
                    assert(r[k] == frames[j]);
                } else {
                    assert(r[k] == frames[n]);
                }
            }
            assert forall|a: int, b: int, i: int, j: int|
                0 <= a < r.len() && 0 <= b < r.len() && a != b && 0 <= i < r[a].dock.slots.len() && 0 <= j
                    < r[b].dock.slots.len() && (#[trigger] r[a].dock.slots[i]) is Some && (#[trigger] r[b].dock.slots[j])
                    is Some implies r[a].dock.slots[i]->0.id != r[b].dock.slots[j]->0.id by {
                if a < rest.len() && b < rest.len() {
                    assert(r[a] == rest[a] && r[b] == rest[b]);
                    assert(rest[a].dock.slots[i] is Some && rest[b].dock.slots[j] is Some);
                } else if a < rest.len() {
                    let ja = choose|ja: int| 0 <= ja < d.len() && rest[a] == d[ja];
                    assert(r[a] == frames[ja] && r[b] == frames[n]);
                    assert(frames[ja].dock.slots[i] is Some && frames[n].dock.slots[j] is Some);
                } else {
                    let jb = choose|jb: int| 0 <= jb < d.len() && rest[b] == d[jb];
                    assert(r[b] == frames[jb] && r[a] == frames[n]);
                    assert(frames[n].dock.slots[i] is Some && frames[jb].dock.slots[j] is Some);
                }
            }
        }
    }
}

/// Index of the first of `frames` with handle `hwnd`.
pub open spec fn first_frame(frames: Seq<FrameView>, hwnd: isize) -> Option<int> {
    if exists|i: int| 0 <= i < frames.len() && frames[i].hwnd == hwnd {
        Some(
            choose|i: int|
                0 <= i < frames.len() && frames[i].hwnd == hwnd && forall|j: int|
                    0 <= j < i ==> frames[j].hwnd != hwnd,
        )
    } else {
        None
    }
}

/// `first_frame` names the first frame with the handle.
pub proof fn lemma_first_frame(frames: Seq<FrameView>, hwnd: isize)
    ensures
        first_frame(frames, hwnd) matches Some(i) ==> 0 <= i < frames.len() && frames[i].hwnd == hwnd
            && forall|j: int| 0 <= j < i ==> frames[j].hwnd != hwnd,
        first_frame(frames, hwnd) is None ==> forall|j: int| 0 <= j < frames.len() ==> frames[j].hwnd != hwnd,
{
    if exists|i: int| 0 <= i < frames.len() && frames[i].hwnd == hwnd {
        let w = choose|i: int| 0 <= i < frames.len() && frames[i].hwnd == hwnd;
        lemma_first_index(frames, hwnd, w);
    }
}

proof fn lemma_first_index(frames: Seq<FrameView>, hwnd: isize, w: int)
    requires
        0 <= w < frames.len(),
        frames[w].hwnd == hwnd,
    ensures
        exists|i: int|
            0 <= i < frames.len() && frames[i].hwnd == hwnd && forall|j: int| 0 <= j < i ==> frames[j].hwnd != hwnd,
    decreases w,
{
    if exists|j: int| 0 <= j < w && frames[j].hwnd == hwnd {
        let j = choose|j: int| 0 <= j < w && frames[j].hwnd == hwnd;
        lemma_first_index(frames, hwnd, j);
    } else {
        assert(forall|j: int| 0 <= j < w ==> frames[j].hwnd != hwnd);
    }
}

/// The frames other than those with handle `hwnd`, in order.
pub open spec fn frames_without(frames: Seq<FrameView>, hwnd: isize) -> Seq<FrameView>
    decreases frames.len(),
{
    if frames.len() == 0 {
        Seq::empty()
    } else {
        let rest = frames_without(frames.drop_last(), hwnd);
        if frames.last().hwnd == hwnd {
            rest
        } else {
            rest.push(frames.last())
        }
    }
}

impl AppView {
    /// Every frame is consistent, and no window is docked in two frames.
    pub open spec fn wf(self) -> bool {
        &&& forall|i: int| 0 <= i < self.frames.len() ==> (#[trigger] self.frames[i]).wf()
        &&& docked_once(self.frames)
    }

    /// Index of the first frame with handle `hwnd`.
    pub open spec fn frame_index(self, hwnd: isize) -> Option<int> {
        first_frame(self.frames, hwnd)
    }
}

impl App {
    /// No frames, no drag, the given palette.
    pub fn new(theme: Theme) -> (a: App)
        ensures
            a@.frames.len() == 0,
            a@.wf(),
            a@.theme == theme,
            a@.dragging is None,
            !a@.suppress_save,
            a@.app_hwnd == 0 && a@.overlay == 0 && a@.last_active == 0,
    {
        let a = App {
            frames: Vec::new(),
            theme,
            app_hwnd: 0,
            overlay: 0,
            dragging: None,
            last_active: 0,
            suppress_save: false,
        };
        assert(a@.frames =~= Seq::<FrameView>::empty());
        a
    }

    /// The first frame with handle `hwnd`.
    pub fn frame_index(&self, hwnd: isize) -> (r: Option<usize>)
        ensures
            r matches Some(i) ==> self@.frame_index(hwnd) == Some(i as int),
            r is None ==> self@.frame_index(hwnd) is None,
    {
        let mut i: usize = 0;
        while i < self.frames.len()
            invariant
                i <= self.frames@.len(),
                forall|j: int| 0 <= j < i ==> self@.frames[j].hwnd != hwnd,
            decreases self.frames@.len() - i,
        {
            if self.frames[i].hwnd == hwnd {
                proof {
                    let v = self@;
                    assert(v.frames[i as int].hwnd == hwnd);
                    let c = choose|k: int|
                        0 <= k < v.frames.len() && v.frames[k].hwnd == hwnd && forall|j: int|
                            0 <= j < k ==> v.frames[j].hwnd != hwnd;
                    if c < i {
                    } else if c > i {
                        assert(v.frames[i as int].hwnd != hwnd);
                    }
                }
                return Some(i);
            }
            i = i + 1;
        }
        None
    }

    /// The configuration to save: one record per frame, in frame order.
    pub fn to_config(&self) -> (c: Config)
        ensures
            c.frame@.len() == self@.frames.len(),
            forall|i: int| 0 <= i < self@.frames.len() ==> #[trigger] c.frame@[i] == frame_config_of(self@.frames[i]),
    {
        let mut frame: Vec<FrameConfig> = Vec::new();
        let mut i: usize = 0;
        while i < self.frames.len()
            invariant
                i <= self.frames@.len(),
                frame@.len() == i,
                forall|k: int| 0 <= k < i ==> #[trigger] frame@[k] == frame_config_of(self@.frames[k]),
            decreases self.frames@.len() - i,
        {
            let f = &self.frames[i];
            frame.push(
                FrameConfig {
                    preset: f.preset,
                    x: f.restore_rect.x,
                    y: f.restore_rect.y,
                    width: f.restore_rect.w,
                    height: f.restore_rect.h,
                    maximized: f.maximized,
                },
            );
            i = i + 1;
        }
        Config { frame }
    }

    /// Closes the frame `hwnd`: its docked windows are released (returned, to be
    /// restored) and the frame is dropped.
    pub fn close_frame(&mut self, hwnd: isize) -> (released: Vec<Docked<isize>>)
        requires
            old(self)@.wf(),
        ensures
            released@ == match old(self)@.frame_index(hwnd) {
                Some(i) => occupied(old(self)@.frames[i].dock.slots),
                None => Seq::empty(),
            },
            final(self)@ == (AppView { frames: frames_without(old(self)@.frames, hwnd), ..old(self)@ }),
            final(self)@.wf(),
    {
        let ghost old_frames = self.frames@;
        assert(forall|i: int| 0 <= i < old_frames.len() ==> (#[trigger] old_frames[i])@.wf()) by {
            assert forall|i: int| 0 <= i < old_frames.len() implies (#[trigger] old_frames[i])@.wf() by {
                assert(old(self)@.frames[i] == old_frames[i]@);
            }
        }
        let mut rest: Vec<FrameState> = Vec::new();
        std::mem::swap(&mut rest, &mut self.frames);
        assert(rest@ == old_frames);
        let (kept, released) = split_off_frame(rest, hwnd);
        self.frames = kept;
        proof {
            assert(old(self)@.frames == frame_views(old_frames));
            lemma_first_frame(frame_views(old_frames), hwnd);
            match first_frame(frame_views(old_frames), hwnd) {
                Some(i) => {
                    assert(old(self)@.frames[i] == old_frames[i]@);
                },
                None => {},
            }
            assert(self@.frames == frames_without(old(self)@.frames, hwnd));
            lemma_frames_without_once(old(self)@.frames, hwnd);
            assert forall|i: int| 0 <= i < self@.frames.len() implies (#[trigger] self@.frames[i]).wf() by {
                assert(self@.frames[i] == self.frames@[i]@);
            }
        }
        released
    }
}

/// The views of frames.
pub open spec fn frame_views(frames: Seq<FrameState>) -> Seq<FrameView> {
    frames.map_values(|f: FrameState| f@)
}

proof fn lemma_frames_without_wf(frames: Seq<FrameView>, hwnd: isize)
    requires
        forall|i: int| 0 <= i < frames.len() ==> (#[trigger] frames[i]).wf(),
    ensures
        forall|i: int|
            0 <= i < frames_without(frames, hwnd).len() ==> (#[trigger] frames_without(frames, hwnd)[i]).wf(),
    decreases frames.len(),
{
    if frames.len() > 0 {
        let d = frames.drop_last();
        assert forall|i: int| 0 <= i < d.len() implies (#[trigger] d[i]).wf() by {
            assert(d[i] == frames[i]);
        }
        lemma_frames_without_wf(d, hwnd);
        let rest = frames_without(d, hwnd);
        let r = frames_without(frames, hwnd);
        assert(frames.last().wf());
        assert forall|i: int| 0 <= i < r.len() implies (#[trigger] r[i]).wf() by {
            if i < rest.len() {
                assert(r[i] == rest[i]);
            }
        }
    }
}

/// Drops the frames with handle `hwnd`; the first of them is drained and its
/// released windows are returned.
fn split_off_frame(frames: Vec<FrameState>, hwnd: isize) -> (r: (Vec<FrameState>, Vec<Docked<isize>>))
    requires
        forall|i: int| 0 <= i < frames@.len() ==> (#[trigger] frames@[i])@.wf(),
    ensures
        frame_views(r.0@) == frames_without(frame_views(frames@), hwnd),
        forall|i: int| 0 <= i < r.0@.len() ==> (#[trigger] r.0@[i])@.wf(),
        r.1@ == match first_frame(frame_views(frames@), hwnd) {
            Some(i) => occupied(frames@[i]@.dock.slots),
            None => Seq::empty(),
        },
{
    let ghost orig = frames@;
    let ghost origv = frame_views(orig);
    assert(origv.len() == orig.len());
    let n = frames.len();
    let mut rest = frames;
    let mut kept: Vec<FrameState> = Vec::new();
    let mut released: Vec<Docked<isize>> = Vec::new();
    let mut found = false;
    let mut k: usize = 0;
    while rest.len() > 0
        invariant
            k <= orig.len(),
            orig.len() == n,
            origv == frame_views(orig),
            origv.len() == orig.len(),
            rest@ == orig.subrange(k as int, orig.len() as int),
            rest@.len() == orig.len() - k,
            forall|i: int| 0 <= i < orig.len() ==> (#[trigger] orig[i])@.wf(),
            frame_views(kept@) == frames_without(origv.subrange(0, k as int), hwnd),
            forall|i: int| 0 <= i < kept@.len() ==> (#[trigger] kept@[i])@.wf(),
            found ==> exists|i: int|
                0 <= i < k && orig[i].hwnd == hwnd && (forall|j: int| 0 <= j < i ==> orig[j].hwnd != hwnd)
                    && released@ == occupied(orig[i]@.dock.slots),
            !found ==> released@.len() == 0 && forall|j: int| 0 <= j < k ==> orig[j].hwnd != hwnd,
        decreases rest@.len(),
    {
        let mut f = rest.remove(0);
        assert(f == orig[k as int]);
        assert(origv[k as int] == f@);
        assert(origv.subrange(0, k as int + 1).drop_last() =~= origv.subrange(0, k as int));
        assert(origv.subrange(0, k as int + 1).last() == f@);
        if f.hwnd != hwnd {
            let ghost before = kept@;
            kept.push(f);
            assert(frame_views(kept@) =~= frame_views(before).push(f@));
        } else if !found {
            assert(f@.wf());
            released = f.dock.drain_all();
            found = true;
        }
        k = k + 1;
    }
    proof {
        assert(origv.subrange(0, orig.len() as int) =~= origv);
        lemma_frames_without_wf(origv, hwnd);
        let a = origv;
        if found {
            let i = choose|i: int|
                0 <= i < k && orig[i].hwnd == hwnd && (forall|j: int| 0 <= j < i ==> orig[j].hwnd != hwnd)
                    && released@ == occupied(orig[i]@.dock.slots);
            assert(a[i].hwnd == hwnd);
            let c = choose|c: int|
                0 <= c < a.len() && a[c].hwnd == hwnd && forall|j: int| 0 <= j < c ==> a[j].hwnd != hwnd;
            if c < i {
                assert(orig[c].hwnd != hwnd);
            } else if c > i {
                assert(a[i].hwnd != hwnd);
            }
        } else {
            assert forall|i: int| 0 <= i < a.len() implies a[i].hwnd != hwnd by {
                assert(orig[i].hwnd != hwnd);
            }
        }
    }
    (kept, released)
}

/// The frame a saved record opens: its handle, preset and rectangle from the
/// record, empty panels, not maximized.
pub open spec fn opened_frame(hwnd: isize, c: FrameConfig) -> FrameView {
    FrameView {
        hwnd,
        preset: c.preset,
        dock: DockState::<isize>::empty(c.preset.panels() as nat),
        restore_rect: Rect { x: c.x, y: c.y, w: c.width, h: c.height },
        maximized: false,
        hover: None,
    }
}

/// Saving a frame just opened from a record gives the record back. A record of a
/// maximized frame is reopened by maximizing the frame while its window still has
/// the record's rectangle, which saves that rectangle again.
pub proof fn law_saved_frame_round_trip(hwnd: isize, c: FrameConfig)
    ensures
        !c.maximized ==> frame_config_of(opened_frame(hwnd, c)) == c,
        c.maximized ==> frame_config_of(
            FrameView {
                restore_rect: Rect { x: c.x, y: c.y, w: c.width, h: c.height },
                maximized: true,
                ..opened_frame(hwnd, c)
            },
        ) == c,
{
}

/// Re-laying out a frame never moves the window being dragged, and moves every
/// other docked window of the frame.
pub proof fn law_reflow_skips_dragged(moves: Seq<(isize, Rect)>, dragged: isize)
    ensures
        forall|k: int| 0 <= k < without_id(moves, Some(dragged)).len() ==> (#[trigger] without_id(moves, Some(dragged))[k]).0 != dragged,
        forall|k: int|
            0 <= k < moves.len() && moves[k].0 != dragged ==> without_id(moves, Some(dragged)).contains(#[trigger] moves[k]),
    decreases moves.len(),
{
    if moves.len() > 0 {
        law_reflow_skips_dragged(moves.drop_last(), dragged);
        let rest = without_id(moves.drop_last(), Some(dragged));
        assert forall|k: int|
            0 <= k < moves.len() && moves[k].0 != dragged implies without_id(moves, Some(dragged)).contains(
                #[trigger] moves[k],
            ) by {
            if k < moves.len() - 1 {
                assert(moves.drop_last()[k] == moves[k]);
                let j = choose|j: int| 0 <= j < rest.len() && rest[j] == moves[k];
                if moves.last().0 != dragged {
                    assert(without_id(moves, Some(dragged))[j] == moves[k]);
                }
            } else {
                assert(without_id(moves, Some(dragged)).last() == moves[k]);
            }
        }
    }
}

/// A maximized frame has no resize border: every point is caption or client.
pub proof fn law_maximized_frame_is_not_resizable(x: int, y: int, client: Rect, on_button: bool, toolbar_h: int)
    ensures
        hit_zone_of(x, y, client, true, on_button, toolbar_h) == if y < toolbar_h && !on_button {
            HitZone::Caption
        } else {
            HitZone::Client
        },
{
}

/// Whether moving `r` by (`dx`, `dy`) stays in the `i32` range ([`offset`]'s precondition).
pub fn shift_computable(r: Rect, dx: i32, dy: i32) -> (b: bool)
    ensures
        b == shift_defined(r, dx, dy),
{
    fits(r.x as i64 + dx as i64) && fits(r.y as i64 + dy as i64)
}

/// Whether every panel can be moved by (`dx`, `dy`) ([`offset_panels`]'s precondition).
pub fn panels_shiftable(panels: &Vec<PanelArea>, dx: i32, dy: i32) -> (b: bool)
    ensures
        b == forall|i: int| 0 <= i < panels@.len() ==> panel_shift_defined(#[trigger] panels@[i], dx, dy),
{
    let mut i: usize = 0;
    while i < panels.len()
        invariant
            i <= panels@.len(),
            forall|k: int| 0 <= k < i ==> panel_shift_defined(#[trigger] panels@[k], dx, dy),
        decreases panels@.len() - i,
    {
        if !shift_computable(panels[i].header, dx, dy) || !shift_computable(panels[i].body, dx, dy) {
            assert(!panel_shift_defined(panels@[i as int], dx, dy));
            return false;
        }
        i = i + 1;
    }
    true
}

/// Whether [`button_rects`] computes within the `i32` range (its precondition).
pub fn buttons_computable(client_w: i32, m: ButtonMetrics, panel_maximized: bool, panels: &Vec<PanelArea>) -> (b: bool)
    ensures
        b == buttons_defined(client_w, m, panel_maximized, panels@),
{
    let cw = client_w as i64;
    let bw = m.caption_w as i64;
    let pw = m.preset_w as i64;
    if !(fits(cw - bw) && fits(bw * 2) && fits(cw - bw * 2)) {
        return false;
    }
    if panel_maximized && !(fits(bw * 3) && fits(cw - bw * 3)) {
        return false;
    }
    if !(fits(pw * 2) && fits(m.preset_x as i64 + pw) && fits(m.preset_x as i64 + pw * 2)) {
        return false;
    }
    let mut i: usize = 0;
    while i < panels.len()
        invariant
            i <= panels@.len(),
            forall|k: int|
                0 <= k < i ==> fits_i32(#[trigger] panels@[k].header.x + panels@[k].header.w) && fits_i32(
                    panels@[k].header.x + panels@[k].header.w - m.panel_button_w,
                ),
        decreases panels@.len() - i,
    {
        let h = panels[i].header;
        let right = h.x as i64 + h.w as i64;
        if !fits(right) || !fits(right - m.panel_button_w as i64) {
            return false;
        }
        i = i + 1;
    }
    true
}

} // verus!
