//! Dragging windows onto panels: where the cursor is, what the drop
//! highlight shows, and what a drop does to the frames' ledgers.
use crate::dock::{lemma_docking_sources, DockResult, DockState, Docked};
use crate::frame::{docked_once, lemma_grown_frame_once, App, AppView, DragCtx, FrameView};
use crate::layout::{PanelArea, Rect};
use vstd::prelude::*;

verus! {

broadcast use vstd::laws_eq::group_laws_eq;

/// What the drop highlight does during a drag.
#[derive(Clone, Copy, PartialEq, Eq, Debug, Structural)]
pub enum OverlayCommand {
    /// Cover `rect` (a panel body), red when the drop would be refused.
    Show { rect: Rect, denied: bool },
    Hide,
}

/// What the end of a drag asks for.
#[derive(Clone, Copy, PartialEq, Eq, Debug, Structural)]
pub enum DropAction {
    /// Not the dragged window, or a window that may not be docked.
    Ignore,
    /// The drop is refused by a lock: re-lay out the frame the window is docked
    /// in (if any), which puts it back into its panel.
    SnapBack(Option<isize>),
    /// Dock into `panel` of frame `frame` (after releasing the window from
    /// wherever it is docked).
    Dock { frame: usize, panel: usize },
    /// Dropped outside every panel: release the window where it lies.
    Release,
}

/// What a drop did.
#[derive(PartialEq, Eq, Debug)]
pub struct DropOutcome {
    /// Handle of the frame the window was released from (to re-lay out).
    pub released_from: Option<isize>,
    /// Handle of the target frame and what its ledger did, when the frame exists.
    pub docked: Option<(isize, DockResult<isize>)>,
}

/// The point is on the header or the body of the panel.
pub open spec fn panel_hit(p: PanelArea, x: int, y: int) -> bool {
    p.header.holds(x, y) || p.body.holds(x, y)
}

/// Panel (`f`, `p`) comes before panel (`fi`, `pi`): frames in order, then panels.
pub open spec fn before(f: int, p: int, fi: int, pi: int) -> bool {
    f < fi || (f == fi && p < pi)
}

/// The first panel (frames in order, then panels in order) whose header or body
/// contains the point, with that panel's body. `frames` holds the panels of each
/// frame in screen coordinates.
pub fn hit_panel(frames: &Vec<Vec<PanelArea>>, x: i32, y: i32) -> (r: Option<(usize, usize, Rect)>)
    ensures
        r matches Some((fi, pi, body)) ==> {
            &&& fi < frames@.len()
            &&& pi < frames@[fi as int]@.len()
            &&& panel_hit(frames@[fi as int]@[pi as int], x as int, y as int)
            &&& body == frames@[fi as int]@[pi as int].body
            &&& forall|f: int, p: int|
                0 <= f < frames@.len() && 0 <= p < frames@[f]@.len() && before(f, p, fi as int, pi as int)
                    ==> !panel_hit(#[trigger] frames@[f]@[p], x as int, y as int)
        },
        r is None ==> forall|f: int, p: int|
            0 <= f < frames@.len() && 0 <= p < frames@[f]@.len() ==> !panel_hit(
                #[trigger] frames@[f]@[p],
                x as int,
                y as int,
            ),
{
    let mut fi: usize = 0;
    while fi < frames.len()
        invariant
            fi <= frames@.len(),
            forall|f: int, p: int|
                0 <= f < fi && 0 <= p < frames@[f]@.len() ==> !panel_hit(#[trigger] frames@[f]@[p], x as int, y as int),
        decreases frames@.len() - fi,
    {
        let panels = &frames[fi];
        let mut pi: usize = 0;
        while pi < panels.len()
            invariant
                fi < frames@.len(),
                panels@ == frames@[fi as int]@,
                pi <= panels@.len(),
                forall|f: int, p: int|
                    0 <= f < fi && 0 <= p < frames@[f]@.len() ==> !panel_hit(#[trigger] frames@[f]@[p], x as int, y as int),
                forall|p: int| 0 <= p < pi ==> !panel_hit(#[trigger] panels@[p], x as int, y as int),
            decreases panels@.len() - pi,
        {
            let p = panels[pi];
            if p.header.contains(x, y) || p.body.contains(x, y) {
                return Some((fi, pi, p.body));
            }
            pi = pi + 1;
        }
        fi = fi + 1;
    }
    None
}

/// The rectangle a window is restored to when docked (`prev`: the rectangle it
/// had when first docked, if it was docked; `current`: its window rectangle, if
/// known): `prev`, else `current`, else the empty rectangle at the origin.
pub open spec fn dock_origin(prev: Option<Rect>, current: Option<Rect>) -> Rect {
    match prev {
        Some(r) => r,
        None => match current {
            Some(c) => c,
            None => Rect { x: 0, y: 0, w: 0, h: 0 },
        },
    }
}

/// A window released outside every panel keeps where it was dropped (`current`)
/// and gets its size from before docking (`orig`) back.
pub fn release_in_place(current: Rect, orig: Rect) -> (r: Rect)
    ensures
        r == (Rect { x: current.x, y: current.y, w: orig.w, h: orig.h }),
{
    Rect { x: current.x, y: current.y, w: orig.w, h: orig.h }
}

/// Frame `frame` docks window `id` in a locked panel.
pub open spec fn locked_in(frame: FrameView, id: isize) -> bool {
    frame.dock.position(id) matches Some(p) && frame.dock.is_locked(p as int)
}

/// Frame `f` of `frames` docks window `id`.
#[verifier::opaque]
pub open spec fn frame_docks(frames: Seq<FrameView>, f: int, id: isize) -> bool {
    0 <= f < frames.len() && frames[f].dock.position(id) is Some
}

/// The first of `frames` that docks `id`.
#[verifier::opaque]
pub open spec fn home_of(frames: Seq<FrameView>, id: isize) -> Option<int> {
    if exists|f: int| frame_docks(frames, f, id) {
        Some(choose|f: int| frame_docks(frames, f, id) && forall|g: int| 0 <= g < f ==> !frame_docks(frames, g, id))
    } else {
        None
    }
}

impl AppView {
    /// Frame `f` docks window `id`.
    pub open spec fn docks(self, f: int, id: isize) -> bool {
        frame_docks(self.frames, f, id)
    }

    /// The first frame that docks `id`.
    pub open spec fn home(self, id: isize) -> Option<int> {
        home_of(self.frames, id)
    }

    /// Handle of the first frame that docks `id`.
    pub open spec fn home_hwnd(self, id: isize) -> Option<isize> {
        match self.home(id) {
            Some(f) => Some(self.frames[f].hwnd),
            None => None,
        }
    }

    /// Window `id` sits in a locked panel of some frame.
    pub open spec fn in_locked_panel(self, id: isize) -> bool {
        exists|f: int| 0 <= f < self.frames.len() && locked_in(#[trigger] self.frames[f], id)
    }

    /// Panel `pi` of frame `fi` exists and is locked.
    pub open spec fn panel_locked(self, fi: int, pi: int) -> bool {
        0 <= fi < self.frames.len() && self.frames[fi].dock.is_locked(pi)
    }

    /// The application with the ledger of frame `f` replaced by `d`.
    pub open spec fn with_dock(self, f: int, d: DockState<isize>) -> AppView {
        AppView { frames: self.frames.update(f, FrameView { dock: d, ..self.frames[f] }), ..self }
    }

    /// The highlight during a drag, for the panel under the cursor (`hit`: frame,
    /// panel, panel body); nothing when no drag is going on. A drop is shown as
    /// refused for a window that may not be docked, a window in a locked panel,
    /// or a locked target panel.
    pub open spec fn overlay_for(self, hit: Option<(usize, usize, Rect)>) -> Option<OverlayCommand> {
        match self.dragging {
            None => None,
            Some(ctx) => match hit {
                Some((fi, pi, body)) => Some(
                    OverlayCommand::Show {
                        rect: body,
                        denied: ctx.denied || ctx.from_locked || self.panel_locked(fi as int, pi as int),
                    },
                ),
                None => Some(OverlayCommand::Hide),
            },
        }
    }

    /// What the end of a drag of `target` over `hit` (frame, panel) asks for.
    /// Only the dragged window counts, and not when it may not be docked. A window
    /// from a locked panel, or dropped on a locked panel, snaps back.
    pub open spec fn drop_action(self, target: isize, hit: Option<(usize, usize)>) -> DropAction {
        match self.dragging {
            None => DropAction::Ignore,
            Some(ctx) => if ctx.target != target || ctx.denied {
                DropAction::Ignore
            } else if ctx.from_locked {
                DropAction::SnapBack(self.home_hwnd(target))
            } else {
                match hit {
                    Some((fi, pi)) => if self.panel_locked(fi as int, pi as int) {
                        DropAction::SnapBack(self.home_hwnd(target))
                    } else {
                        DropAction::Dock { frame: fi, panel: pi }
                    },
                    None => DropAction::Release,
                }
            },
        }
    }

    /// The application after releasing `id` from the first frame that docks it,
    /// with the rectangle to restore and the handle of that frame.
    pub open spec fn undocking_anywhere(self, id: isize) -> (AppView, Option<(Rect, isize)>) {
        match self.home(id) {
            None => (self, None),
            Some(f) => (
                self.with_dock(f, self.frames[f].dock.undocking(id).0),
                Some((self.frames[f].dock.undocking(id).1->0, self.frames[f].hwnd)),
            ),
        }
    }

    /// `home` names the first frame that docks the window.
    pub proof fn lemma_home(self, id: isize)
        ensures
            self.home(id) matches Some(f) ==> self.docks(f, id) && forall|g: int| 0 <= g < f ==> !self.docks(g, id),
            self.home(id) is None ==> forall|g: int| !self.docks(g, id),
    {
        lemma_home_of(self.frames, id);
    }
}

proof fn lemma_home_of(frames: Seq<FrameView>, id: isize)
    ensures
        home_of(frames, id) matches Some(f) ==> frame_docks(frames, f, id) && forall|g: int|
            0 <= g < f ==> !frame_docks(frames, g, id),
        home_of(frames, id) is None ==> forall|g: int| !frame_docks(frames, g, id),
{
    reveal(home_of);
    if exists|f: int| frame_docks(frames, f, id) {
        let w = choose|f: int| frame_docks(frames, f, id);
        lemma_first_home(frames, id, w);
        let c = choose|f: int| frame_docks(frames, f, id) && forall|g: int| 0 <= g < f ==> !frame_docks(frames, g, id);
        assert(home_of(frames, id) == Some(c));
    }
}

proof fn lemma_first_home(frames: Seq<FrameView>, id: isize, w: int)
    requires
        frame_docks(frames, w, id),
    ensures
        exists|f: int| frame_docks(frames, f, id) && forall|g: int| 0 <= g < f ==> !frame_docks(frames, g, id),
    decreases w,
{
    reveal(frame_docks);
    if exists|g: int| 0 <= g < w && frame_docks(frames, g, id) {
        let g = choose|g: int| 0 <= g < w && frame_docks(frames, g, id);
        lemma_first_home(frames, id, g);
    } else {
        assert(forall|g: int| 0 <= g < w ==> !frame_docks(frames, g, id));
    }
}

impl App {
    /// Index of the first frame that docks `id`.
    fn home_index(&self, id: isize) -> (r: Option<usize>)
        requires
            self@.wf(),
        ensures
            r matches Some(f) ==> self@.home(id) == Some(f as int) && f < self.frames@.len(),
            r is None ==> self@.home(id) is None,
    {
        proof {
            self@.lemma_home(id);
        }
        let mut f: usize = 0;
        while f < self.frames.len()
            invariant
                self@.wf(),
                f <= self.frames@.len(),
                forall|g: int| 0 <= g < f ==> !self@.docks(g, id),
            decreases self.frames@.len() - f,
        {
            let ghost v = self@;
            assert(v.frames[f as int] == self.frames@[f as int]@);
            assert(v.frames[f as int].wf());
            let found = self.frames[f].dock.panel_of(id).is_some();
            if found {
                assert(v.docks(f as int, id)) by {
                    reveal(frame_docks);
                }
                proof {
                    v.lemma_home(id);
                    assert(v.home(id) is Some);
                    let h = v.home(id)->0;
                    assert(v.docks(h, id));
                    assert(0 <= h) by {
                        reveal(frame_docks);
                    }
                    assert(!(h < f as int));
                    assert(!(h > f as int));
                    assert(v.home(id) == Some(f as int));
                }
                return Some(f);
            }
            assert(!v.docks(f as int, id)) by {
                reveal(frame_docks);
            }
            f = f + 1;
        }
        assert forall|g: int| !self@.docks(g, id) by {
            reveal(frame_docks);
        }
        None
    }

    /// Handle of the frame that docks `id` (the frame to re-lay out to put the
    /// window back into its panel).
    pub fn home_frame(&self, id: isize) -> (h: Option<isize>)
        requires
            self@.wf(),
        ensures
            h == self@.home_hwnd(id),
    {
        match self.home_index(id) {
            Some(f) => {
                assert(self@.frames[f as int] == self.frames@[f as int]@);
                Some(self.frames[f].hwnd)
            },
            None => None,
        }
    }

    /// Starts dragging `target`; `denied`: the window may not be docked. Whether the
    /// window sits in a locked panel is fixed now (locks cannot change while the
    /// mouse is busy dragging).
    pub fn start_drag(&mut self, target: isize, denied: bool)
        requires
            old(self)@.wf(),
        ensures
            final(self)@ == (AppView {
                dragging: Some(DragCtx { target, denied, from_locked: old(self)@.in_locked_panel(target) }),
                ..old(self)@
            }),
            final(self)@.wf(),
    {
        let mut from_locked = false;
        let mut f: usize = 0;
        while f < self.frames.len()
            invariant
                self@ == old(self)@,
                self@.wf(),
                f <= self.frames@.len(),
                from_locked == exists|g: int| 0 <= g < f && locked_in(#[trigger] self@.frames[g], target),
            decreases self.frames@.len() - f,
        {
            let ghost v = self@;
            assert(v.frames[f as int] == self.frames@[f as int]@);
            assert(v.frames[f as int].wf());
            match self.frames[f].dock.panel_of(target) {
                Some(p) => {
                    if self.frames[f].dock.is_locked(p) {
                        from_locked = true;
                    }
                },
                None => {},
            }
            f = f + 1;
        }
        self.dragging = Some(DragCtx { target, denied, from_locked });
    }

    /// The highlight to show while dragging, for the panel under the cursor.
    pub fn drag_overlay(&self, hit: Option<(usize, usize, Rect)>) -> (c: Option<OverlayCommand>)
        ensures
            c == self@.overlay_for(hit),
    {
        match self.dragging {
            None => None,
            Some(ctx) => match hit {
                Some((fi, pi, body)) => {
                    let dest_locked = if fi < self.frames.len() {
                        self.frames[fi].dock.is_locked(pi)
                    } else {
                        false
                    };
                    Some(OverlayCommand::Show { rect: body, denied: ctx.denied || ctx.from_locked || dest_locked })
                },
                None => Some(OverlayCommand::Hide),
            },
        }
    }

    /// Ends the drag of `target` over `hit` (frame, panel) and says what to do.
    pub fn end_drag(&mut self, target: isize, hit: Option<(usize, usize)>) -> (a: DropAction)
        requires
            old(self)@.wf(),
        ensures
            a == old(self)@.drop_action(target, hit),
            final(self)@ == (AppView { dragging: None, ..old(self)@ }),
            final(self)@.wf(),
    {
        let ctx = self.dragging;
        self.dragging = None;
        let ghost v = self@;
        assert(v.frames == old(self)@.frames);
        match ctx {
            None => DropAction::Ignore,
            Some(ctx) => {
                if ctx.target != target || ctx.denied {
                    return DropAction::Ignore;
                }
                if ctx.from_locked {
                    return DropAction::SnapBack(self.home_frame(target));
                }
                match hit {
                    Some((fi, pi)) => {
                        let dest_locked = if fi < self.frames.len() {
                            self.frames[fi].dock.is_locked(pi)
                        } else {
                            false
                        };
                        if dest_locked {
                            DropAction::SnapBack(self.home_frame(target))
                        } else {
                            DropAction::Dock { frame: fi, panel: pi }
                        }
                    },
                    None => DropAction::Release,
                }
            },
        }
    }

    /// Releases `id` from the first frame that docks it; returns the rectangle to
    /// restore it to and the handle of that frame (to re-lay out).
    pub fn undock_from_any_frame(&mut self, id: isize) -> (r: Option<(Rect, isize)>)
        requires
            old(self)@.wf(),
        ensures
            (final(self)@, r) == old(self)@.undocking_anywhere(id),
            final(self)@.wf(),
    {
        match self.home_index(id) {
            None => None,
            Some(f) => {
                let ghost v = self@;
                assert(v.frames[f as int] == self.frames@[f as int]@);
                assert(v.frames[f as int].wf());
                proof {
                    v.lemma_home(id);
                    assert(v.frames[f as int].dock.position(id) is Some) by {
                        reveal(frame_docks);
                    }
                }
                let hwnd = self.frames[f].hwnd;
                let orig = self.frames[f].dock.undock(id);
                proof {
                    let w = v.with_dock(f as int, v.frames[f as int].dock.undocking(id).0);
                    assert(self@.frames =~= w.frames);
                    assert forall|i: int| 0 <= i < self@.frames.len() implies (#[trigger] self@.frames[i]).wf() by {
                        if i != f {
                            assert(self@.frames[i] == v.frames[i]);
                        }
                    }
                }
                match orig {
                    Some(o) => Some((o, hwnd)),
                    None => None,
                }
            },
        }
    }

    /// Forgets a window that no longer exists; the handle of the frame that docked
    /// it (to re-lay out), if any. Nothing is restored.
    pub fn on_window_destroyed(&mut self, id: isize) -> (h: Option<isize>)
        requires
            old(self)@.wf(),
        ensures
            final(self)@ == old(self)@.undocking_anywhere(id).0,
            h == old(self)@.home_hwnd(id),
            final(self)@.wf(),
    {
        match self.undock_from_any_frame(id) {
            Some((_, hwnd)) => Some(hwnd),
            None => None,
        }
    }

    /// Drops `id` onto panel `pi` of frame `fi`: the window is first released from
    /// the frame that docks it (it keeps the rectangle it was first docked with),
    /// then docked there; a window that was not docked will be restored to
    /// `current` (its window rectangle when known). Returns the handle of the frame
    /// it was released from and, when frame `fi` exists, that frame's handle and
    /// what its ledger did.
    pub fn drop_into(&mut self, fi: usize, pi: usize, id: isize, current: Option<Rect>) -> (o: DropOutcome)
        requires
            old(self)@.wf(),
            fi < old(self)@.frames.len() ==> pi < old(self)@.frames[fi as int].dock.slots.len(),
        ensures
            ({
                let (a1, rel) = old(self)@.undocking_anywhere(id);
                let prev = match rel {
                    Some((r, _)) => Some(r),
                    None => None,
                };
                &&& o.released_from == match rel {
                    Some((_, h)) => Some(h),
                    None => None,
                }
                &&& fi >= a1.frames.len() ==> o.docked is None && final(self)@ == a1
                &&& fi < a1.frames.len() ==> {
                    let (d, res) = a1.frames[fi as int].dock.docking(id, pi as int, dock_origin(prev, current));
                    &&& o.docked == Some((a1.frames[fi as int].hwnd, res))
                    &&& final(self)@ == a1.with_dock(fi as int, d)
                }
            }),
            final(self)@.wf(),
    {
        proof {
            lemma_nowhere_after_undock(old(self)@, id);
        }
        let released = self.undock_from_any_frame(id);
        let (prev, released_from) = match released {
            Some((r, h)) => (Some(r), Some(h)),
            None => (None, None),
        };
        let orig = match prev {
            Some(r) => r,
            None => match current {
                Some(c) => c,
                None => Rect { x: 0, y: 0, w: 0, h: 0 },
            },
        };
        if fi >= self.frames.len() {
            return DropOutcome { released_from, docked: None };
        }
        let ghost v = self@;
        assert(v.frames[fi as int] == self.frames@[fi as int]@);
        assert(v.frames[fi as int].wf());
        proof {
            old(self)@.lemma_home(id);
            if let Some(f) = old(self)@.home(id) {
                assert(0 <= f < old(self)@.frames.len()) by {
                    reveal(frame_docks);
                }
            }
        }
        let hwnd = self.frames[fi].hwnd;
        let res = self.frames[fi].dock.dock(id, pi, orig);
        proof {
            let d0 = v.frames[fi as int].dock;
            let w = v.with_dock(fi as int, d0.docking(id, pi as int, orig).0);
            assert(self@.frames =~= w.frames);
            assert forall|i: int| 0 <= i < self@.frames.len() implies (#[trigger] self@.frames[i]).wf() by {
                if i != fi {
                    assert(self@.frames[i] == v.frames[i]);
                }
            }
            lemma_docking_sources(d0, id, pi as int, orig);
            lemma_grown_frame_once(v.frames, fi as int, self@.frames[fi as int], id);
        }
        DropOutcome { released_from, docked: Some((hwnd, res)) }
    }

}

/// Once a window is released from the frame that docks it, no frame docks it.
pub proof fn lemma_nowhere_after_undock(a: AppView, id: isize)
    requires
        a.wf(),
    ensures
        forall|g: int, j: int|
            0 <= g < a.undocking_anywhere(id).0.frames.len() && 0 <= j < a.undocking_anywhere(id).0.frames[g].dock.slots.len()
                && (#[trigger] a.undocking_anywhere(id).0.frames[g].dock.slots[j]) is Some
                ==> a.undocking_anywhere(id).0.frames[g].dock.slots[j]->0.id != id,
{
    a.lemma_home(id);
    let a1 = a.undocking_anywhere(id).0;
    match a.home(id) {
        None => {
            assert forall|g: int, j: int|
                0 <= g < a1.frames.len() && 0 <= j < a1.frames[g].dock.slots.len() && (#[trigger] a1.frames[g].dock.slots[j])
                    is Some implies a1.frames[g].dock.slots[j]->0.id != id by {
                assert(a.frames[g].wf());
                assert(!a.docks(g, id));
                assert(a.frames[g].dock.position(id) is None) by {
                    reveal(frame_docks);
                }
                a.frames[g].dock.lemma_position(id);
                assert(!a.frames[g].dock.holds(j, id));
            }
        },
        Some(f) => {
            assert(0 <= f < a.frames.len() && a.frames[f].dock.position(id) is Some) by {
                reveal(frame_docks);
            }
            assert(a.frames[f].wf());
            let d = a.frames[f].dock;
            d.lemma_position(id);
            let p = d.position(id)->0 as int;
            assert forall|g: int, j: int|
                0 <= g < a1.frames.len() && 0 <= j < a1.frames[g].dock.slots.len() && (#[trigger] a1.frames[g].dock.slots[j])
                    is Some implies a1.frames[g].dock.slots[j]->0.id != id by {
                if g == f {
                    assert(a1.frames[g].dock.slots == d.slots.update(p, None));
                    assert(j != p);
                    assert(!d.holds(j, id));
                } else {
                    assert(a1.frames[g] == a.frames[g]);
                    assert(d.slots[p] is Some);
                    assert(a.frames[f].dock.slots[p] is Some && a.frames[g].dock.slots[j] is Some);
                }
            }
        },
    }
}

/// A lock always wins over a drop: a window from a locked panel, or dropped onto
/// a locked panel, is never docked by the drop but snaps back into the panel it
/// is docked in (if any); a window that may not be docked is left alone.
pub proof fn law_locks_block_drops(a: AppView, target: isize, hit: Option<(usize, usize)>)
    requires
        a.dragging matches Some(ctx) && ctx.target == target,
    ensures
        a.dragging->0.denied ==> a.drop_action(target, hit) == DropAction::Ignore,
        !a.dragging->0.denied && (a.dragging->0.from_locked || (hit matches Some((fi, pi)) && a.panel_locked(
            fi as int,
            pi as int,
        ))) ==> a.drop_action(target, hit) == DropAction::SnapBack(a.home_hwnd(target)),
        a.drop_action(target, hit) is Dock ==> !a.dragging->0.from_locked && match hit {
            Some((fi, pi)) => !a.panel_locked(fi as int, pi as int),
            None => false,
        },
{
}

/// The highlight tells the truth about the drop: over a panel it is shown as
/// refused exactly when releasing the dragged window there would not dock it, so
/// a window from a locked panel (which always snaps back) always gets the refused
/// highlight, as does a locked target panel.
pub proof fn law_highlight_matches_drop(a: AppView, target: isize, fi: usize, pi: usize, body: Rect)
    requires
        a.dragging matches Some(ctx) && ctx.target == target,
    ensures
        a.overlay_for(Some((fi, pi, body))) == Some(
            OverlayCommand::Show { rect: body, denied: !(a.drop_action(target, Some((fi, pi))) is Dock) },
        ),
        a.dragging->0.from_locked ==> a.overlay_for(Some((fi, pi, body))) == Some(
            OverlayCommand::Show { rect: body, denied: true },
        ),
        a.panel_locked(fi as int, pi as int) ==> a.overlay_for(Some((fi, pi, body))) == Some(
            OverlayCommand::Show { rect: body, denied: true },
        ),
        a.overlay_for(None) == Some(OverlayCommand::Hide),
{
}

/// After a window is released from the frame that docks it, that frame no longer
/// docks it, and every other frame is unchanged.
pub proof fn law_undock_anywhere_releases(a: AppView, id: isize)
    requires
        a.wf(),
    ensures
        a.undocking_anywhere(id).1 is Some <==> a.home(id) is Some,
        a.home(id) matches Some(f) ==> !a.undocking_anywhere(id).0.docks(f, id) && forall|g: int|
            0 <= g < a.frames.len() && g != f ==> a.undocking_anywhere(id).0.frames[g] == a.frames[g],
        a.undocking_anywhere(id).0.frames.len() == a.frames.len(),
{
    a.lemma_home(id);
    match a.home(id) {
        Some(f) => {
            assert(0 <= f < a.frames.len()) by {
                reveal(frame_docks);
            }
            assert(a.frames[f].wf());
            assert(a.frames[f].dock.position(id) is Some) by {
                reveal(frame_docks);
            }
            let d = a.frames[f].dock;
            d.lemma_position(id);
            let u = d.undocking(id).0;
            assert forall|i: int| !u.holds(i, id) by {
                if 0 <= i < d.slots.len() && i != d.position(id)->0 as int {
                    assert(u.slots[i] == d.slots[i]);
                }
            }
            assert(!a.undocking_anywhere(id).0.docks(f, id)) by {
                reveal(frame_docks);
            }
        },
        None => {},
    }
}

/// A drop moves the window into the target panel: once it is released from the
/// frame that docks it, docking it into panel `pi` of frame `fi` either is refused
/// by a lock (and changes nothing) or leaves it in that panel, remembered with
/// `orig`, with frame `fi` as the only frame that docks it.
pub proof fn law_drop_docks_in_target(a: AppView, fi: int, pi: int, id: isize, orig: Rect)
    requires
        a.wf(),
        0 <= fi < a.frames.len(),
        0 <= pi < a.frames[fi].dock.slots.len(),
    ensures
        ({
            let a1 = a.undocking_anywhere(id).0;
            let (d, res) = a1.frames[fi].dock.docking(id, pi, orig);
            let a2 = a1.with_dock(fi, d);
            &&& res is Rejected <==> a1.frames[fi].dock.is_locked(pi)
            &&& res is Rejected ==> a2 == a1
            &&& !(res is Rejected) ==> {
                &&& a2.frames[fi].dock.slots[pi] == (Some(Docked { id, orig }))
                &&& a2.home(id) == Some(fi)
                &&& forall|g: int| 0 <= g < a2.frames.len() && g != fi ==> !a2.docks(g, id)
            }
        }),
{
    law_undock_anywhere_releases(a, id);
    lemma_nowhere_after_undock(a, id);
    let a1 = a.undocking_anywhere(id).0;
    let s = a1.frames[fi].dock;
    assert(s.slots.len() == a.frames[fi].dock.slots.len()) by {
        a.lemma_home(id);
        if let Some(f) = a.home(id) {
            if f == fi {
                assert(a.frames[f].wf());
                assert(a.frames[f].dock.position(id) is Some) by {
                    reveal(frame_docks);
                }
            }
        }
    }
    assert forall|i: int| !s.holds(i, id) by {
        if 0 <= i < s.slots.len() && s.slots[i] is Some {
            assert(a1.frames[fi].dock.slots[i]->0.id != id);
        }
    }
    assert(s.position(id) is None);
    let (d, res) = s.docking(id, pi, orig);
    let a2 = a1.with_dock(fi, d);
    if res is Rejected {
        assert(a2.frames =~= a1.frames);
    } else {
        assert(d.slots[pi] == Some(Docked { id, orig }));
        assert(d.holds(pi, id));
        assert(a2.frames[fi].dock == d);
        assert(a2.docks(fi, id)) by {
            reveal(frame_docks);
        }
        assert forall|g: int| 0 <= g < a2.frames.len() && g != fi implies !a2.docks(g, id) by {
            assert(a2.frames[g] == a1.frames[g]);
            assert forall|i: int| !a1.frames[g].dock.holds(i, id) by {
                if 0 <= i < a1.frames[g].dock.slots.len() && a1.frames[g].dock.slots[i] is Some {
                    assert(a1.frames[g].dock.slots[i]->0.id != id);
                }
            }
            reveal(frame_docks);
        }
        a2.lemma_home(id);
        if let Some(f) = a2.home(id) {
            if f != fi {
                assert(0 <= f < a2.frames.len()) by {
                    reveal(frame_docks);
                }
            }
        }
    }
}

} // verus!
