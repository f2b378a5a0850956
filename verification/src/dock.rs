//! The dock ledger of one frame: which window occupies which panel, which
//! panel is maximized and which panels are locked.
use crate::layout::{PanelArea, Rect};
use vstd::laws_eq::obeys_concrete_eq;
use vstd::prelude::*;

verus! {

/// A docked window and the rectangle it had before docking (restored on release).
#[derive(Clone, Copy, PartialEq, Eq, Debug)]
pub struct Docked<Id> {
    pub id: Id,
    pub orig: Rect,
}

/// What a dock request did.
#[derive(PartialEq, Eq, Debug)]
pub enum DockResult<Id> {
    /// A new window was placed into an empty panel.
    Docked,
    /// A docked window moved to an empty panel (or was dropped on its own panel).
    Moved { from: usize },
    /// Two docked windows swapped panels; `other` now sits in `from`.
    Swapped { from: usize, other: Id },
    /// A new window took an occupied panel; the previous occupant was released
    /// and is to be restored to its `orig` by the caller.
    Replaced { freed: Docked<Id> },
    /// A locked panel is involved; nothing changed.
    Rejected,
}

/// The abstract state of a [`DockManager`].
pub struct DockState<Id> {
    /// Occupant of each panel.
    pub slots: Seq<Option<Docked<Id>>>,
    /// The maximized panel, if any.
    pub maximized: Option<usize>,
    /// Lock flag of each panel.
    pub locked: Seq<bool>,
}

/// The docked windows of `s`, in panel order.
pub open spec fn occupied<Id>(s: Seq<Option<Docked<Id>>>) -> Seq<Docked<Id>>
    decreases s.len(),
{
    if s.len() == 0 {
        Seq::empty()
    } else {
        let rest = occupied(s.drop_last());
        match s.last() {
            Some(d) => rest.push(d),
            None => rest,
        }
    }
}

impl<Id: PartialEq> DockState<Id> {
    /// Panel `i` holds window `id`.
    pub open spec fn holds(self, i: int, id: Id) -> bool {
        0 <= i < self.slots.len() && self.slots[i] is Some && self.slots[i]->0.id == id
    }

    /// The window in panel `i`, if any (none outside the panel range).
    pub open spec fn occupant(self, i: int) -> Option<Id> {
        if 0 <= i < self.slots.len() {
            match self.slots[i] {
                Some(d) => Some(d.id),
                None => None,
            }
        } else {
            None
        }
    }

    /// The panel that holds `id`, if any.
    pub open spec fn position(self, id: Id) -> Option<usize> {
        if exists|i: int| self.holds(i, id) {
            Some((choose|i: int| self.holds(i, id)) as usize)
        } else {
            None
        }
    }

    /// Panel `i` is locked (a panel outside the range is not).
    pub open spec fn is_locked(self, i: int) -> bool {
        0 <= i < self.locked.len() && self.locked[i]
    }

    /// The ledger is consistent: one lock flag per panel, a window is in at most one
    /// panel, a maximized or locked panel is occupied, and window ids compare by value.
    pub open spec fn wf(self) -> bool {
        &&& obeys_concrete_eq::<Id>()
        &&& self.slots.len() <= usize::MAX
        &&& self.locked.len() == self.slots.len()
        &&& forall|i: int, j: int|
            0 <= i < self.slots.len() && 0 <= j < self.slots.len() && i != j && self.slots[i] is Some
                && self.slots[j] is Some ==> self.slots[i]->0.id != self.slots[j]->0.id
        &&& (self.maximized matches Some(m) ==> m < self.slots.len() && self.slots[m as int] is Some)
        &&& forall|i: int| 0 <= i < self.slots.len() && #[trigger] self.locked[i] ==> self.slots[i] is Some
    }

    /// `n` empty, unlocked panels and nothing maximized.
    pub open spec fn empty(n: nat) -> DockState<Id> {
        DockState {
            slots: Seq::new(n, |i: int| None),
            maximized: None,
            locked: Seq::new(n, |i: int| false),
        }
    }

    /// A dock request for `id` on `panel` is refused: the panel is locked or `id`
    /// sits in a locked panel.
    pub open spec fn rejects(self, id: Id, panel: int) -> bool {
        ||| self.is_locked(panel)
        ||| (self.position(id) matches Some(p) && self.is_locked(p as int))
    }

    /// State and answer after docking `id` (with original rectangle `orig`) on `panel`.
    /// A refused request changes nothing; otherwise maximization ends and:
    /// a window dropped on its own panel stays; a docked window moves to an empty
    /// panel or swaps with the occupant; a new window fills an empty panel or
    /// replaces (and releases) the occupant.
    pub open spec fn docking(self, id: Id, panel: int, orig: Rect) -> (DockState<Id>, DockResult<Id>) {
        if self.rejects(id, panel) {
            (self, DockResult::Rejected)
        } else {
            let s = DockState { maximized: None, ..self };
            match self.position(id) {
                Some(from) => if from == panel {
                    (s, DockResult::Moved { from })
                } else {
                    let moving = self.slots[from as int];
                    match self.slots[panel] {
                        Some(other) => (
                            DockState {
                                slots: self.slots.update(from as int, Some(other)).update(panel, moving),
                                ..s
                            },
                            DockResult::Swapped { from, other: other.id },
                        ),
                        None => (
                            DockState { slots: self.slots.update(from as int, None).update(panel, moving), ..s },
                            DockResult::Moved { from },
                        ),
                    }
                },
                None => match self.slots[panel] {
                    Some(prev) => (
                        DockState { slots: self.slots.update(panel, Some(Docked { id, orig })), ..s },
                        DockResult::Replaced { freed: prev },
                    ),
                    None => (
                        DockState { slots: self.slots.update(panel, Some(Docked { id, orig })), ..s },
                        DockResult::Docked,
                    ),
                },
            }
        }
    }

    /// State after releasing `id`, and the rectangle to restore it to. The freed
    /// panel loses its lock and its maximization.
    pub open spec fn undocking(self, id: Id) -> (DockState<Id>, Option<Rect>) {
        match self.position(id) {
            None => (self, None),
            Some(p) => (
                DockState {
                    slots: self.slots.update(p as int, None),
                    maximized: if self.maximized == Some(p) {
                        None
                    } else {
                        self.maximized
                    },
                    locked: self.locked.update(p as int, false),
                },
                Some(self.slots[p as int]->0.orig),
            ),
        }
    }

    /// State after toggling the lock of `panel`, and the new lock state.
    /// An empty panel cannot be locked.
    pub open spec fn lock_toggling(self, panel: int) -> (DockState<Id>, bool) {
        if self.occupant(panel) is None {
            (self, false)
        } else {
            (
                DockState { locked: self.locked.update(panel, !self.locked[panel]), ..self },
                !self.locked[panel],
            )
        }
    }

    /// State after toggling the maximization of `panel`, and whether it is now
    /// maximized (`None` for an empty panel, which is ignored). Locks do not matter.
    pub open spec fn max_toggling(self, panel: int) -> (DockState<Id>, Option<bool>) {
        if self.occupant(panel) is None {
            (self, None)
        } else if self.maximized == Some(panel as usize) {
            (DockState { maximized: None, ..self }, Some(false))
        } else {
            (DockState { maximized: Some(panel as usize), ..self }, Some(true))
        }
    }

    /// State after changing the panel count to `n`, and the released windows (the
    /// occupants of the dropped panels, in panel order). Kept panels keep their
    /// occupant and lock; added panels are empty and unlocked; maximization ends.
    pub open spec fn resizing(self, n: nat) -> (DockState<Id>, Seq<Docked<Id>>) {
        if n < self.slots.len() {
            (
                DockState {
                    slots: self.slots.subrange(0, n as int),
                    maximized: None,
                    locked: self.locked.subrange(0, n as int),
                },
                occupied(self.slots.subrange(n as int, self.slots.len() as int)),
            )
        } else {
            (
                DockState {
                    slots: self.slots + Seq::new((n - self.slots.len()) as nat, |i: int| None),
                    maximized: None,
                    locked: self.locked + Seq::new((n - self.locked.len()) as nat, |i: int| false),
                },
                Seq::empty(),
            )
        }
    }

    /// State after releasing everything, and all released windows in panel order.
    pub open spec fn draining(self) -> (DockState<Id>, Seq<Docked<Id>>) {
        (DockState::empty(self.slots.len()), occupied(self.slots))
    }

    /// Occupants of panels `0..k`, in panel order, leaving out the maximized panel.
    pub open spec fn order_prefix(self, k: int) -> Seq<Id>
        decreases k,
    {
        if k <= 0 {
            Seq::empty()
        } else {
            let rest = self.order_prefix(k - 1);
            if self.maximized != Some((k - 1) as usize) && self.occupant(k - 1) is Some {
                rest.push(self.occupant(k - 1)->0)
            } else {
                rest
            }
        }
    }

    /// Order in which the docked windows are raised (the last one ends up in front):
    /// panel order, with the occupant of the maximized panel last.
    pub open spec fn raise_order(self) -> Seq<Id> {
        let others = self.order_prefix(self.slots.len() as int);
        match self.maximized {
            Some(m) => match self.occupant(m as int) {
                Some(id) => others.push(id),
                None => others,
            },
            None => others,
        }
    }

    /// Target rectangle of each docked window of panels `0..k`, in panel order:
    /// the panel body, or `frame_body` for the maximized panel.
    pub open spec fn targets_prefix(self, k: int, panels: Seq<PanelArea>, frame_body: Rect) -> Seq<(Id, Rect)>
        decreases k,
    {
        if k <= 0 {
            Seq::empty()
        } else {
            let rest = self.targets_prefix(k - 1, panels, frame_body);
            match self.slots[k - 1] {
                Some(d) => rest.push(
                    (
                        d.id,
                        if self.maximized == Some((k - 1) as usize) {
                            frame_body
                        } else {
                            panels[k - 1].body
                        },
                    ),
                ),
                None => rest,
            }
        }
    }

    /// Target rectangles of all docked windows, in panel order.
    pub open spec fn targets(self, panels: Seq<PanelArea>, frame_body: Rect) -> Seq<(Id, Rect)> {
        self.targets_prefix(self.slots.len() as int, panels, frame_body)
    }

    /// Every docked, non-maximized panel has a panel area in `panels`.
    pub open spec fn covered_by(self, panels: Seq<PanelArea>) -> bool {
        forall|i: int|
            0 <= i < self.slots.len() && self.slots[i] is Some && self.maximized != Some(i as usize)
                ==> i < panels.len()
    }
}

impl<Id: PartialEq> DockState<Id> {
    /// `position` names the one panel that holds the window.
    pub proof fn lemma_position(self, id: Id)
        requires
            self.wf(),
        ensures
            self.position(id) matches Some(p) ==> self.holds(p as int, id),
            self.position(id) is None ==> forall|i: int| !self.holds(i, id),
            forall|i: int| self.holds(i, id) ==> self.position(id) == Some(i as usize),
    {
        if exists|i: int| self.holds(i, id) {
            let c = choose|i: int| self.holds(i, id);
            assert forall|i: int| self.holds(i, id) implies i == c by {
                if i != c {
                    assert(self.slots[i]->0.id != self.slots[c]->0.id);
                }
            }
        }
    }

    proof fn lemma_docking_wf(self, id: Id, panel: int, orig: Rect)
        requires
            self.wf(),
            0 <= panel < self.slots.len() || self.rejects(id, panel),
        ensures
            self.docking(id, panel, orig).0.wf(),
            !self.rejects(id, panel) ==> self.docking(id, panel, orig).0.occupant(panel) == Some(id),
    {
        self.lemma_position(id);
        let t = self.docking(id, panel, orig).0;
        if !self.rejects(id, panel) {
            assert(t.slots.len() == self.slots.len());
            match self.position(id) {
                Some(from) => {
                    if from as int != panel {
                        assert forall|i: int, j: int|
                            0 <= i < t.slots.len() && 0 <= j < t.slots.len() && i != j && t.slots[i] is Some
                                && t.slots[j] is Some implies t.slots[i]->0.id != t.slots[j]->0.id by {
                            let si = if i == panel {
                                from as int
                            } else if i == from as int && self.slots[panel] is Some {
                                panel
                            } else {
                                i
                            };
                            let sj = if j == panel {
                                from as int
                            } else if j == from as int && self.slots[panel] is Some {
                                panel
                            } else {
                                j
                            };
                            assert(t.slots[i] == self.slots[si]);
                            assert(t.slots[j] == self.slots[sj]);
                        }
                    }
                },
                None => {
                    assert forall|i: int, j: int|
                        0 <= i < t.slots.len() && 0 <= j < t.slots.len() && i != j && t.slots[i] is Some
                            && t.slots[j] is Some implies t.slots[i]->0.id != t.slots[j]->0.id by {
                        if i == panel {
                            assert(!self.holds(j, id));
                        } else if j == panel {
                            assert(!self.holds(i, id));
                        }
                    }
                },
            }
        }
    }

    proof fn lemma_resizing_wf(self, n: nat)
        requires
            self.wf(),
            n <= usize::MAX,
        ensures
            self.resizing(n).0.wf(),
    {
        let t = self.resizing(n).0;
        if n < self.slots.len() {
            assert forall|i: int, j: int|
                0 <= i < t.slots.len() && 0 <= j < t.slots.len() && i != j && t.slots[i] is Some
                    && t.slots[j] is Some implies t.slots[i]->0.id != t.slots[j]->0.id by {
                assert(t.slots[i] == self.slots[i]);
                assert(t.slots[j] == self.slots[j]);
            }
            assert forall|i: int| 0 <= i < t.slots.len() && #[trigger] t.locked[i] implies t.slots[i] is Some by {
                assert(self.locked[i]);
            }
        } else {
            assert forall|i: int, j: int|
                0 <= i < t.slots.len() && 0 <= j < t.slots.len() && i != j && t.slots[i] is Some
                    && t.slots[j] is Some implies t.slots[i]->0.id != t.slots[j]->0.id by {
                assert(i < self.slots.len());
                assert(j < self.slots.len());
                assert(t.slots[i] == self.slots[i]);
                assert(t.slots[j] == self.slots[j]);
            }
            assert forall|i: int| 0 <= i < t.slots.len() && #[trigger] t.locked[i] implies t.slots[i] is Some by {
                assert(i < self.slots.len());
                assert(self.locked[i]);
                assert(t.slots[i] == self.slots[i]);
            }
        }
    }
}

/// Docking a window that is not docked yet puts it into the panel, and releasing
/// it afterwards gives back exactly the rectangle it was docked with.
pub proof fn law_undock_returns_docking_rect<Id: PartialEq>(s: DockState<Id>, id: Id, panel: int, orig: Rect)
    requires
        s.wf(),
        0 <= panel < s.slots.len(),
        !s.rejects(id, panel),
        s.position(id) is None,
    ensures
        s.docking(id, panel, orig).0.position(id) == Some(panel as usize),
        s.docking(id, panel, orig).0.undocking(id).1 == Some(orig),
        s.docking(id, panel, orig).0.undocking(id).0.position(id) is None,
{
    s.lemma_docking_wf(id, panel, orig);
    let t = s.docking(id, panel, orig).0;
    assert(t.holds(panel, id));
    t.lemma_position(id);
    let u = t.undocking(id).0;
    assert forall|i: int| !u.holds(i, id) by {
        if i != panel && 0 <= i < t.slots.len() {
            assert(u.slots[i] == t.slots[i]);
        }
    }
}

/// Moving or swapping docked windows keeps the rectangle each was first docked
/// with: after a move or swap the moved window's record (id and rectangle) is the
/// one it had before, and in a swap the other window's record moves to `from`.
pub proof fn law_moves_keep_records<Id: PartialEq>(s: DockState<Id>, id: Id, panel: int, orig: Rect)
    requires
        s.wf(),
        0 <= panel < s.slots.len(),
        !s.rejects(id, panel),
        s.position(id) is Some,
    ensures
        ({
            let from = s.position(id)->0 as int;
            let t = s.docking(id, panel, orig).0;
            &&& t.slots[panel] == s.slots[from]
            &&& t.slots[panel]->0.id == id
            &&& from != panel ==> t.slots[from] == s.slots[panel]
            &&& forall|i: int| 0 <= i < s.slots.len() && i != from && i != panel ==> t.slots[i] == s.slots[i]
        }),
{
    s.lemma_position(id);
}

/// Docking never touches a lock: whatever the request, every panel keeps its lock
/// flag, so a locked window stays protected after windows are docked elsewhere.
pub proof fn law_dock_keeps_locks<Id: PartialEq>(s: DockState<Id>, id: Id, panel: int, orig: Rect)
    ensures
        s.docking(id, panel, orig).0.locked == s.locked,
        forall|i: int| s.is_locked(i) ==> s.docking(id, panel, orig).0.is_locked(i),
{
}

/// Releasing a window ends a maximization only when it is the window of the
/// maximized panel: releasing any other window keeps the maximized panel, and a
/// window that is not docked changes nothing.
pub proof fn law_undock_keeps_other_maximization<Id: PartialEq>(s: DockState<Id>, id: Id)
    requires
        s.wf(),
    ensures
        s.position(id) is None ==> s.undocking(id) == (s, None::<Rect>),
        s.position(id) matches Some(p) && s.maximized != Some(p) ==> s.undocking(id).0.maximized == s.maximized,
        s.position(id) matches Some(p) && s.maximized == Some(p) ==> s.undocking(id).0.maximized is None,
        s.maximized matches Some(m) && s.occupant(m as int) != Some(id) ==> s.undocking(id).0.maximized == s.maximized,
{
    s.lemma_position(id);
    if let Some(m) = s.maximized {
        if let Some(p) = s.position(id) {
            if p == m {
                assert(s.holds(m as int, id));
            }
        }
    }
}

/// A change of panel count always ends the maximization, whatever the new count.
pub proof fn law_resize_ends_maximization<Id: PartialEq>(s: DockState<Id>, n: nat)
    ensures
        s.resizing(n).0.maximized is None,
        s.resizing(n).0.slots.len() == n,
{
}

/// A refused dock request changes nothing at all (not even the maximization).
pub proof fn law_rejected_changes_nothing<Id: PartialEq>(s: DockState<Id>, id: Id, panel: int, orig: Rect)
    requires
        s.rejects(id, panel),
    ensures
        s.docking(id, panel, orig) == (s, DockResult::<Id>::Rejected),
{
}

/// Toggling a panel's lock twice restores the ledger, and the two answers differ;
/// an empty panel stays unlocked.
pub proof fn law_lock_toggle_is_an_involution<Id: PartialEq>(s: DockState<Id>, panel: int)
    requires
        s.wf(),
    ensures
        s.lock_toggling(panel).0.lock_toggling(panel).0 == s,
        s.occupant(panel) is Some ==> s.lock_toggling(panel).1 != s.lock_toggling(panel).0.lock_toggling(panel).1,
        s.occupant(panel) is None ==> !s.lock_toggling(panel).1 && !s.lock_toggling(panel).0.is_locked(panel),
{
    let t = s.lock_toggling(panel).0;
    if s.occupant(panel) is Some {
        assert(t.occupant(panel) is Some);
        assert(t.lock_toggling(panel).0.locked =~= s.locked);
    }
}

/// Toggling the maximization of an occupied panel twice restores the ledger when
/// no other panel was maximized; locks play no part.
pub proof fn law_maximize_toggle_round_trip<Id: PartialEq>(s: DockState<Id>, panel: int)
    requires
        s.wf(),
        s.occupant(panel) is Some,
        s.maximized is None || s.maximized == Some(panel as usize),
    ensures
        s.max_toggling(panel).0.max_toggling(panel).0 == s,
        s.max_toggling(panel).1 == Some(s.maximized is None),
        s.max_toggling(panel).0.max_toggling(panel).1 == Some(!(s.maximized is None)),
        s.max_toggling(panel).0.locked == s.locked,
{
}

/// `occupied` distributes over concatenation.
pub proof fn lemma_occupied_concat<Id>(a: Seq<Option<Docked<Id>>>, b: Seq<Option<Docked<Id>>>)
    ensures
        occupied(a + b) == occupied(a) + occupied(b),
    decreases b.len(),
{
    if b.len() == 0 {
        assert(a + b =~= a);
        assert(occupied(b) =~= Seq::<Docked<Id>>::empty());
        assert(occupied(a) + occupied(b) =~= occupied(a));
    } else {
        lemma_occupied_concat(a, b.drop_last());
        assert((a + b).drop_last() =~= a + b.drop_last());
        assert((a + b).last() == b.last());
        match b.last() {
            Some(d) => {
                assert(occupied(a) + occupied(b.drop_last()).push(d) =~= (occupied(a) + occupied(b.drop_last())).push(d));
            },
            None => {},
        }
    }
}

/// Changing the panel count loses no window: the windows docked before are the
/// windows still docked followed by the released ones, in panel order.
pub proof fn law_resize_keeps_every_window<Id: PartialEq>(s: DockState<Id>, n: nat)
    requires
        s.wf(),
    ensures
        occupied(s.slots) == occupied(s.resizing(n).0.slots) + s.resizing(n).1,
        forall|i: int| 0 <= i < n && i < s.slots.len() ==> s.resizing(n).0.slots[i] == s.slots[i] && s.resizing(n).0.locked[i]
            == s.locked[i],
        forall|i: int| s.slots.len() <= i < n ==> s.resizing(n).0.slots[i] is None && !s.resizing(n).0.locked[i],
{
    if n < s.slots.len() {
        lemma_occupied_concat(s.slots.subrange(0, n as int), s.slots.subrange(n as int, s.slots.len() as int));
        assert(s.slots.subrange(0, n as int) + s.slots.subrange(n as int, s.slots.len() as int) =~= s.slots);
    } else {
        let pad = Seq::new((n - s.slots.len()) as nat, |i: int| None::<Docked<Id>>);
        lemma_occupied_concat(s.slots, pad);
        lemma_occupied_none(pad);
        assert(occupied(s.slots) + Seq::<Docked<Id>>::empty() =~= occupied(s.slots));
    }
}

/// Empty panels hold no window.
pub proof fn lemma_occupied_none<Id>(s: Seq<Option<Docked<Id>>>)
    requires
        forall|i: int| 0 <= i < s.len() ==> s[i] is None,
    ensures
        occupied(s) == Seq::<Docked<Id>>::empty(),
    decreases s.len(),
{
    if s.len() > 0 {
        lemma_occupied_none(s.drop_last());
    }
}

/// Releasing everything returns every docked window and leaves a ledger with the
/// same number of panels and no window, lock or maximization.
pub proof fn law_drain_releases_everything<Id: PartialEq>(s: DockState<Id>)
    requires
        s.wf(),
    ensures
        s.draining().1 == occupied(s.slots),
        occupied(s.draining().0.slots) == Seq::<Docked<Id>>::empty(),
        s.draining().0.slots.len() == s.slots.len(),
        forall|i: int| !s.draining().0.is_locked(i),
        s.draining().0.maximized is None,
{
    lemma_occupied_none(s.draining().0.slots);
}

/// A panel's occupant and a window's panel agree.
pub proof fn law_occupant_and_position_agree<Id: PartialEq>(s: DockState<Id>, id: Id, i: int)
    requires
        s.wf(),
        0 <= i < s.slots.len(),
    ensures
        s.occupant(i) == Some(id) <==> s.position(id) == Some(i as usize),
{
    s.lemma_position(id);
    assert((i as usize) as int == i);
    if s.occupant(i) == Some(id) {
        assert(s.holds(i, id));
    }
    if s.position(id) == Some(i as usize) {
        assert(s.holds(i, id));
    }
}

/// The raise order without a maximized panel is the panel order of the docked windows.
pub proof fn law_raise_order_is_panel_order<Id: PartialEq>(s: DockState<Id>)
    requires
        s.maximized is None,
    ensures
        s.raise_order() == occupied(s.slots).map_values(|d: Docked<Id>| d.id),
{
    lemma_order_prefix(s, s.slots.len() as int);
    assert(s.slots.subrange(0, s.slots.len() as int) =~= s.slots);
}

proof fn lemma_order_prefix<Id: PartialEq>(s: DockState<Id>, k: int)
    requires
        s.maximized is None,
        0 <= k <= s.slots.len(),
    ensures
        s.order_prefix(k) == occupied(s.slots.subrange(0, k)).map_values(|d: Docked<Id>| d.id),
    decreases k,
{
    if k == 0 {
        assert(occupied(s.slots.subrange(0, 0)) =~= Seq::<Docked<Id>>::empty());
        assert(occupied(s.slots.subrange(0, 0)).map_values(|d: Docked<Id>| d.id) =~= Seq::<Id>::empty());
    } else {
        lemma_order_prefix(s, k - 1);
        assert(s.slots.subrange(0, k).drop_last() =~= s.slots.subrange(0, k - 1));
        let prev = occupied(s.slots.subrange(0, k - 1));
        match s.slots[k - 1] {
            Some(d) => {
                assert(prev.push(d).map_values(|d: Docked<Id>| d.id) =~= prev.map_values(|d: Docked<Id>| d.id).push(d.id));
            },
            None => {},
        }
    }
}

/// With a maximized panel, its window is raised last (in front of all others).
pub proof fn law_raise_order_maximized_last<Id: PartialEq>(s: DockState<Id>)
    requires
        s.wf(),
        s.maximized is Some,
    ensures
        s.raise_order().len() > 0,
        s.raise_order().last() == s.slots[s.maximized->0 as int]->0.id,
{
}

/// After a dock request the ledger has as many panels as before, and every
/// docked window is the requested one or a window that was docked before.
pub proof fn lemma_docking_sources<Id: PartialEq>(s: DockState<Id>, id: Id, panel: int, orig: Rect)
    requires
        s.wf(),
        0 <= panel < s.slots.len() || s.rejects(id, panel),
    ensures
        s.docking(id, panel, orig).0.slots.len() == s.slots.len(),
        forall|i: int|
            0 <= i < s.slots.len() && (#[trigger] s.docking(id, panel, orig).0.slots[i]) is Some ==> s.docking(
                id,
                panel,
                orig,
            ).0.slots[i]->0.id == id || exists|j: int|
                0 <= j < s.slots.len() && s.slots[j] is Some && s.slots[j]->0.id == s.docking(id, panel, orig).0.slots[i]->0.id,
{
    s.lemma_position(id);
    let t = s.docking(id, panel, orig).0;
    assert forall|i: int| 0 <= i < s.slots.len() && (#[trigger] t.slots[i]) is Some implies t.slots[i]->0.id == id
        || exists|j: int| 0 <= j < s.slots.len() && s.slots[j] is Some && s.slots[j]->0.id == t.slots[i]->0.id by {
        if t.slots[i] == s.slots[i] {
            assert(s.slots[i] is Some);
        } else if s.position(id) is Some {
            let from = s.position(id)->0 as int;
            if t.slots[i] == s.slots[from] {
                assert(s.slots[from] is Some);
            } else {
                assert(t.slots[i] == s.slots[panel]);
                assert(s.slots[panel] is Some);
            }
        }
    }
}

/// The dock ledger of a frame with one slot per panel. `Id` identifies windows.
pub struct DockManager<Id> {
    slots: Vec<Option<Docked<Id>>>,
    maximized: Option<usize>,
    locked: Vec<bool>,
}

impl<Id> View for DockManager<Id> {
    type V = DockState<Id>;

    closed spec fn view(&self) -> DockState<Id> {
        DockState { slots: self.slots@, maximized: self.maximized, locked: self.locked@ }
    }
}

/// Window ids compare by value.
fn same_id<Id: Copy + Eq>(a: Id, b: Id) -> (r: bool)
    requires
        obeys_concrete_eq::<Id>(),
    ensures
        r == (a == b),
{
    proof {
        reveal(obeys_concrete_eq);
    }
    a == b
}

impl<Id: Copy + Eq> DockManager<Id> {
    /// A ledger of `panel_count` empty, unlocked panels.
    pub fn new(panel_count: usize) -> (m: Self)
        requires
            obeys_concrete_eq::<Id>(),
        ensures
            m@ == DockState::<Id>::empty(panel_count as nat),
            m@.wf(),
    {
        let mut slots: Vec<Option<Docked<Id>>> = Vec::new();
        let mut locked: Vec<bool> = Vec::new();
        let mut i: usize = 0;
        while i < panel_count
            invariant
                i <= panel_count,
                slots@.len() == i,
                locked@.len() == i,
                forall|j: int| 0 <= j < i ==> #[trigger] slots@[j] is None,
                forall|j: int| 0 <= j < i ==> !#[trigger] locked@[j],
            decreases panel_count - i,
        {
            slots.push(None);
            locked.push(false);
            i = i + 1;
        }
        let m = DockManager { slots, maximized: None, locked };
        assert(m@.slots =~= DockState::<Id>::empty(panel_count as nat).slots);
        assert(m@.locked =~= DockState::<Id>::empty(panel_count as nat).locked);
        m
    }

    pub fn panel_count(&self) -> (n: usize)
        ensures
            n == self@.slots.len(),
    {
        self.slots.len()
    }

    /// The window in `panel`, if any.
    pub fn occupant(&self, panel: usize) -> (r: Option<Id>)
        ensures
            r == self@.occupant(panel as int),
    {
        if panel < self.slots.len() {
            match self.slots[panel] {
                Some(d) => Some(d.id),
                None => None,
            }
        } else {
            None
        }
    }

    /// The panel that holds `id`, if any.
    pub fn panel_of(&self, id: Id) -> (r: Option<usize>)
        requires
            self@.wf(),
        ensures
            r == self@.position(id),
            r matches Some(p) ==> self@.holds(p as int, id),
            r is None ==> forall|i: int| !self@.holds(i, id),
    {
        let mut i: usize = 0;
        while i < self.slots.len()
            invariant
                self@.wf(),
                i <= self.slots@.len(),
                forall|j: int| 0 <= j < i ==> !self@.holds(j, id),
            decreases self.slots@.len() - i,
        {
            match self.slots[i] {
                Some(d) => {
                    if same_id(d.id, id) {
                        assert(self@.holds(i as int, id));
                        let ghost c = choose|k: int| self@.holds(k, id);
                        assert(c == i);
                        return Some(i);
                    }
                },
                None => {},
            }
            i = i + 1;
        }
        None
    }

    pub fn maximized_panel(&self) -> (r: Option<usize>)
        ensures
            r == self@.maximized,
    {
        self.maximized
    }

    /// Whether `panel` is locked (a panel outside the range is not).
    pub fn is_locked(&self, panel: usize) -> (b: bool)
        ensures
            b == self@.is_locked(panel as int),
    {
        if panel < self.locked.len() {
            self.locked[panel]
        } else {
            false
        }
    }

    /// Toggles the lock of `panel` and returns the new state. A lock protects a
    /// docked window, so an empty panel cannot be locked.
    pub fn toggle_lock(&mut self, panel: usize) -> (b: bool)
        requires
            old(self)@.wf(),
        ensures
            (final(self)@, b) == old(self)@.lock_toggling(panel as int),
            final(self)@.wf(),
    {
        if self.occupant(panel).is_none() {
            return false;
        }
        let l = !self.locked[panel];
        self.locked.set(panel, l);
        proof {
            assert(self@ =~= old(self)@.lock_toggling(panel as int).0);
        }
        l
    }

    /// Docks `id` (whose rectangle before docking is `orig`) on `panel`. A request
    /// that involves a locked panel is rejected and changes nothing; otherwise a
    /// maximized panel is first restored.
    pub fn dock(&mut self, id: Id, panel: usize, orig: Rect) -> (r: DockResult<Id>)
        requires
            old(self)@.wf(),
            panel < old(self)@.slots.len() || old(self)@.rejects(id, panel as int),
        ensures
            (final(self)@, r) == old(self)@.docking(id, panel as int, orig),
            final(self)@.wf(),
            r is Rejected <==> old(self)@.rejects(id, panel as int),
            r is Rejected ==> final(self)@ == old(self)@,
            !(r is Rejected) ==> final(self)@.maximized is None && final(self)@.occupant(panel as int)
                == Some(id),
    {
        proof {
            old(self)@.lemma_docking_wf(id, panel as int, orig);
        }
        let pos = self.panel_of(id);
        let from_locked = match pos {
            Some(p) => self.is_locked(p),
            None => false,
        };
        if self.is_locked(panel) || from_locked {
            return DockResult::Rejected;
        }
        self.maximized = None;
        let ghost s0 = old(self)@;
        match pos {
            Some(from) => {
                if from == panel {
                    DockResult::Moved { from }
                } else {
                    let moving = self.slots[from];
                    match self.slots[panel] {
                        Some(other) => {
                            self.slots.set(from, Some(other));
                            self.slots.set(panel, moving);
                            proof {
                                assert(self@.slots =~= s0.docking(id, panel as int, orig).0.slots);
                                assert(self@ == s0.docking(id, panel as int, orig).0);
                            }
                            DockResult::Swapped { from, other: other.id }
                        },
                        None => {
                            self.slots.set(from, None);
                            self.slots.set(panel, moving);
                            proof {
                                assert(self@.slots =~= s0.docking(id, panel as int, orig).0.slots);
                                assert(self@ == s0.docking(id, panel as int, orig).0);
                            }
                            DockResult::Moved { from }
                        },
                    }
                }
            },
            None => {
                match self.slots[panel] {
                    Some(prev) => {
                        self.slots.set(panel, Some(Docked { id, orig }));
                        proof {
                            assert(self@.slots =~= s0.docking(id, panel as int, orig).0.slots);
                            assert(self@ == s0.docking(id, panel as int, orig).0);
                        }
                        DockResult::Replaced { freed: prev }
                    },
                    None => {
                        self.slots.set(panel, Some(Docked { id, orig }));
                        proof {
                            assert(self@.slots =~= s0.docking(id, panel as int, orig).0.slots);
                            assert(self@ == s0.docking(id, panel as int, orig).0);
                        }
                        DockResult::Docked
                    },
                }
            },
        }
    }

    /// Releases `id` and returns the rectangle to restore it to (`None` if it was
    /// not docked). The freed panel keeps no lock and no maximization.
    pub fn undock(&mut self, id: Id) -> (r: Option<Rect>)
        requires
            old(self)@.wf(),
        ensures
            (final(self)@, r) == old(self)@.undocking(id),
            final(self)@.wf(),
            final(self)@.position(id) is None,
    {
        let panel = match self.panel_of(id) {
            Some(p) => p,
            None => return None,
        };
        if self.maximized == Some(panel) {
            self.maximized = None;
        }
        self.locked.set(panel, false);
        let prev = self.slots[panel];
        self.slots.set(panel, None);
        proof {
            assert(self@.slots =~= old(self)@.undocking(id).0.slots);
            assert(self@.locked =~= old(self)@.undocking(id).0.locked);
            assert forall|i: int| !self@.holds(i, id) by {}
        }
        match prev {
            Some(d) => Some(d.orig),
            None => None,
        }
    }

    /// Removes a window that no longer exists; whether it was docked.
    pub fn on_destroyed(&mut self, id: Id) -> (b: bool)
        requires
            old(self)@.wf(),
        ensures
            final(self)@ == old(self)@.undocking(id).0,
            b == (old(self)@.position(id) is Some),
            final(self)@.wf(),
    {
        self.undock(id).is_some()
    }

    /// Toggles the maximization of `panel` and returns whether it is now maximized;
    /// an empty panel is ignored (`None`).
    pub fn toggle_maximize(&mut self, panel: usize) -> (r: Option<bool>)
        requires
            old(self)@.wf(),
        ensures
            (final(self)@, r) == old(self)@.max_toggling(panel as int),
            final(self)@.wf(),
    {
        if self.occupant(panel).is_none() {
            return None;
        }
        if self.maximized == Some(panel) {
            self.maximized = None;
            Some(false)
        } else {
            self.maximized = Some(panel);
            Some(true)
        }
    }

    /// Changes the number of panels (a preset change). Windows of dropped panels
    /// are released and returned in panel order; maximization ends.
    pub fn set_panel_count(&mut self, n: usize) -> (released: Vec<Docked<Id>>)
        requires
            old(self)@.wf(),
        ensures
            (final(self)@, released@) == old(self)@.resizing(n as nat),
            final(self)@.wf(),
    {
        proof {
            old(self)@.lemma_resizing_wf(n as nat);
        }
        let len = self.slots.len();
        let mut released: Vec<Docked<Id>> = Vec::new();
        if n < len {
            let mut i: usize = n;
            while i < len
                invariant
                    n <= i <= len,
                    len == self.slots@.len(),
                    self.slots@ == old(self)@.slots,
                    released@ == occupied(self.slots@.subrange(n as int, i as int)),
                decreases len - i,
            {
                let ghost before = self.slots@.subrange(n as int, i as int);
                assert(self.slots@.subrange(n as int, i as int + 1).drop_last() =~= before);
                match self.slots[i] {
                    Some(d) => released.push(d),
                    None => {},
                }
                i = i + 1;
            }
            self.slots.truncate(n);
            self.locked.truncate(n);
        } else {
            let mut i: usize = len;
            while i < n
                invariant
                    len <= i <= n,
                    self.slots@.len() == i,
                    self.locked@.len() == i,
                    self.slots@.subrange(0, len as int) == old(self)@.slots,
                    self.locked@.subrange(0, len as int) == old(self)@.locked,
                    forall|j: int| len <= j < i ==> #[trigger] self.slots@[j] is None,
                    forall|j: int| len <= j < i ==> !#[trigger] self.locked@[j],
                decreases n - i,
            {
                self.slots.push(None);
                self.locked.push(false);
                i = i + 1;
            }
            assert(released@ =~= Seq::<Docked<Id>>::empty());
            proof {
                let want = old(self)@.resizing(n as nat).0;
                assert forall|j: int| 0 <= j < len implies self.slots@[j] == want.slots[j] by {
                    assert(self.slots@.subrange(0, len as int)[j] == self.slots@[j]);
                }
                assert forall|j: int| 0 <= j < len implies self.locked@[j] == want.locked[j] by {
                    assert(self.locked@.subrange(0, len as int)[j] == self.locked@[j]);
                }
                assert(self@.slots =~= want.slots);
                assert(self@.locked =~= want.locked);
            }
        }
        self.maximized = None;
        proof {
            let want = old(self)@.resizing(n as nat).0;
            assert(self@.slots =~= want.slots);
            assert(self@.locked =~= want.locked);
            assert(self@ == want);
            assert(released@ == old(self)@.resizing(n as nat).1);
        }
        released
    }

    /// Releases every window (frame closed): returns all of them in panel order and
    /// leaves the panels empty, unlocked and not maximized.
    pub fn drain_all(&mut self) -> (released: Vec<Docked<Id>>)
        requires
            old(self)@.wf(),
        ensures
            (final(self)@, released@) == old(self)@.draining(),
            final(self)@.wf(),
    {
        self.maximized = None;
        let len = self.slots.len();
        let mut released: Vec<Docked<Id>> = Vec::new();
        let mut i: usize = 0;
        while i < len
            invariant
                i <= len,
                self.maximized is None,
                len == self.slots@.len(),
                len == self.locked@.len(),
                len == old(self)@.slots.len(),
                forall|j: int| i <= j < len ==> #[trigger] self.slots@[j] == old(self)@.slots[j],
                forall|j: int| 0 <= j < i ==> #[trigger] self.slots@[j] is None,
                forall|j: int| 0 <= j < i ==> !#[trigger] self.locked@[j],
                released@ == occupied(old(self)@.slots.subrange(0, i as int)),
            decreases len - i,
        {
            assert(old(self)@.slots.subrange(0, i as int + 1).drop_last() =~= old(self)@.slots.subrange(
                0,
                i as int,
            ));
            match self.slots[i] {
                Some(d) => released.push(d),
                None => {},
            }
            self.slots.set(i, None);
            self.locked.set(i, false);
            i = i + 1;
        }
        proof {
            assert(old(self)@.slots.subrange(0, len as int) =~= old(self)@.slots);
            let want = old(self)@.draining().0;
            assert(self@.slots =~= want.slots);
            assert(self@.locked =~= want.locked);
            assert(self@ == want);
            assert(released@ == old(self)@.draining().1);
        }
        released
    }

    /// The order in which to raise the docked windows, later ones in front: panel
    /// order, with the occupant of the maximized panel last (frontmost).
    pub fn raise_order(&self) -> (ids: Vec<Id>)
        requires
            self@.wf(),
        ensures
            ids@ == self@.raise_order(),
    {
        let mut ids: Vec<Id> = Vec::new();
        let mut i: usize = 0;
        while i < self.slots.len()
            invariant
                i <= self.slots@.len(),
                ids@ == self@.order_prefix(i as int),
            decreases self.slots@.len() - i,
        {
            if self.maximized != Some(i) {
                match self.slots[i] {
                    Some(d) => ids.push(d.id),
                    None => {},
                }
            }
            i = i + 1;
        }
        match self.maximized {
            Some(p) => match self.occupant(p) {
                Some(id) => ids.push(id),
                None => {},
            },
            None => {},
        }
        ids
    }

    /// Target rectangle of every docked window, in panel order: the panel's body,
    /// or `frame_body` (the whole panel area) for the maximized panel.
    pub fn target_rects(&self, panels: &[PanelArea], frame_body: Rect) -> (t: Vec<(Id, Rect)>)
        requires
            self@.covered_by(panels@),
        ensures
            t@ == self@.targets(panels@, frame_body),
    {
        let mut t: Vec<(Id, Rect)> = Vec::new();
        let mut i: usize = 0;
        while i < self.slots.len()
            invariant
                i <= self.slots@.len(),
                self@.covered_by(panels@),
                t@ == self@.targets_prefix(i as int, panels@, frame_body),
            decreases self.slots@.len() - i,
        {
            match self.slots[i] {
                Some(d) => {
                    let r = if self.maximized == Some(i) {
                        frame_body
                    } else {
                        panels[i].body
                    };
                    t.push((d.id, r));
                },
                None => {},
            }
            i = i + 1;
        }
        t
    }
}

} // verus!
