//! The monitor set: one tag state per physical monitor.
//!
//! A [`MonitorsState`] owns one [`crate::state::State`] per monitor,
//! remembers which monitor is focused, and routes events and commands to
//! the focused monitor's state. A window address lives on at most one
//! monitor across the whole set.

use vstd::prelude::*;

use crate::state::{Changes as StateChanges, State};
use crate::Error;

verus! {

/// One monitor as reported by the host window manager's topology query.
#[derive(Debug)]
pub struct MonitorInfo {
    pub id: u8,
    pub name: String,
    pub focused: bool,
}

/// One physical monitor and its tag state.
#[derive(Debug)]
pub struct Monitor {
    pub id: u8,
    pub name: String,
    pub state: State,
}

/// The set of monitors and the index of the focused one.
#[derive(Debug)]
pub struct MonitorsState {
    pub monitors: Vec<Monitor>,
    pub active_monitor_index: usize,
}

/// A differential update tagged with the monitor it applies to.
#[derive(Debug)]
pub struct Changes {
    pub active_monitor_index: usize,
    pub changes: StateChanges,
}

impl MonitorsState {
    /// Some monitor carries this name.
    pub open spec fn has_name(self, name: Seq<char>) -> bool {
        exists|i: int|
            0 <= i < self.monitors.len() && (#[trigger] self.monitors[i].name@) == name
    }

    /// The index of the monitor carrying this name (meaningful only when
    /// present; unique under well-formedness).
    pub open spec fn name_index(self, name: Seq<char>) -> int {
        choose|i: int| 0 <= i < self.monitors.len() && (#[trigger] self.monitors[i].name@) == name
    }

    /// Address `a` is tracked on some monitor.
    pub open spec fn tracked_anywhere(self, a: Seq<char>) -> bool {
        exists|i: int|
            0 <= i < self.monitors.len() && (#[trigger] self.monitors[i].state.tracked_addr(a))
    }

    /// Well-formedness: at least one monitor (and at most 255, matching the
    /// one-byte monitor numbering of the command protocol), a focused index
    /// in range, each tag state well formed, unique monitor names, and every
    /// window address on at most one monitor.
    pub open spec fn wf(self) -> bool {
        &&& 1 <= self.monitors.len() <= 255
        &&& self.active_monitor_index < self.monitors.len()
        &&& forall|i: int| 0 <= i < self.monitors.len() ==> (#[trigger] self.monitors[i].state).wf()
        &&& forall|i: int, j: int|
            0 <= i < j < self.monitors.len() ==> (#[trigger] self.monitors[i].name@)
                != (#[trigger] self.monitors[j].name@)
        &&& forall|i: int, j: int, a: Seq<char>|
            0 <= i < self.monitors.len() && 0 <= j < self.monitors.len() && i != j ==> !((
            #[trigger] self.monitors[i].state.tracked_addr(a)) && (
            #[trigger] self.monitors[j].state.tracked_addr(a)))
    }

    /// Under well-formedness, a name picks out at most one monitor.
    pub proof fn lemma_name_unique(self, name: Seq<char>, i: int, j: int)
        requires
            self.wf(),
            0 <= i < self.monitors.len(),
            0 <= j < self.monitors.len(),
            self.monitors[i].name@ == name,
            self.monitors[j].name@ == name,
        ensures
            i == j,
    {
        if i < j {
            assert(self.monitors[i].name@ != self.monitors[j].name@);
        }
        if j < i {
            assert(self.monitors[j].name@ != self.monitors[i].name@);
        }
    }

    /// The index of the first focused entry of a topology report, falling
    /// back to 0.
    pub open spec fn first_focused_from(infos: Seq<MonitorInfo>, i: int) -> Option<int>
        decreases infos.len() - i,
    {
        if i < 0 || i >= infos.len() {
            None
        } else if infos[i].focused {
            Some(i)
        } else {
            Self::first_focused_from(infos, i + 1)
        }
    }

    /// The monitor index reported focused by a topology snapshot, or 0.
    pub open spec fn focused_index(infos: Seq<MonitorInfo>) -> int {
        match Self::first_focused_from(infos, 0) {
            Some(i) => i,
            None => 0,
        }
    }

    /// Builds the monitor set from a topology snapshot: one fresh tag state
    /// per monitor, focus on the monitor the snapshot reports focused.
    pub fn from_infos(infos: Vec<MonitorInfo>) -> (r: MonitorsState)
        requires
            1 <= infos@.len() <= 255,
            forall|i: int, j: int|
                0 <= i < j < infos@.len() ==> (#[trigger] infos[i].name@) != (
                #[trigger] infos[j].name@),
        ensures
            r.wf(),
            r.monitors.len() == infos@.len(),
            forall|i: int|
                0 <= i < infos@.len() ==> (#[trigger] r.monitors[i]).id == infos[i].id
                    && r.monitors[i].name@ == infos[i].name@ && r.monitors[i].state.fresh()
                    && r.monitors[i].state.wf(),
            r.active_monitor_index == Self::focused_index(infos@),
    {
        let mut focused: Option<usize> = None;
        let mut i: usize = 0;
        while i < infos.len()
            invariant
                i <= infos@.len(),
                infos@.len() <= 255,
                focused is None ==> Self::first_focused_from(infos@, 0)
                    == Self::first_focused_from(infos@, i as int),
                focused is Some ==> Self::first_focused_from(infos@, 0) == Some(
                    focused->0 as int,
                ) && focused->0 < infos@.len(),
            decreases infos@.len() - i,
        {
            if focused.is_none() && infos[i].focused {
                focused = Some(i);
            }
            i = i + 1;
        }
        let active = match focused {
            Some(i) => i,
            None => 0,
        };

        let mut monitors: Vec<Monitor> = Vec::new();
        let mut k: usize = 0;
        while k < infos.len()
            invariant
                k <= infos@.len(),
                monitors.len() == k,
                forall|j: int|
                    0 <= j < k ==> (#[trigger] monitors[j]).id == infos[j].id && monitors[j].name@
                        == infos[j].name@ && monitors[j].state.fresh() && monitors[j].state.wf()
                        && forall|a: Seq<char>| !(#[trigger] monitors[j].state.tracked_addr(a)),
            decreases infos@.len() - k,
        {
            monitors.push(
                Monitor { id: infos[k].id, name: infos[k].name.clone(), state: State::new() },
            );
            k = k + 1;
        }

        let r = MonitorsState { monitors, active_monitor_index: active };
        proof {
            assert forall|i2: int, j2: int, a: Seq<char>|
                0 <= i2 < r.monitors.len() && 0 <= j2 < r.monitors.len() && i2 != j2 implies !((
            #[trigger] r.monitors[i2].state.tracked_addr(a)) && (
            #[trigger] r.monitors[j2].state.tracked_addr(a))) by {
                assert(!r.monitors[i2].state.tracked_addr(a));
            }
        }
        r
    }

    /// The number of the monitor after the focused one, wrapping to 0.
    pub fn next_monitor(&self) -> (r: u8)
        requires
            self.wf(),
        ensures
            r as int == if self.active_monitor_index + 1 < self.monitors.len() {
                self.active_monitor_index + 1
            } else {
                0
            },
    {
        let next_index = self.active_monitor_index + 1;
        if next_index < self.monitors.len() {
            next_index as u8
        } else {
            0
        }
    }

    /// Focuses the monitor with the given name. Fails, changing nothing,
    /// when no monitor carries it.
    pub fn focused_monitor_changed(&mut self, name: &str) -> (r: Result<(), Error>)
        requires
            old(self).wf(),
        ensures
            final(self).wf(),
            final(self).monitors@ == old(self).monitors@,
            !old(self).has_name(name@) ==> r == Err::<(), Error>(Error::UnknownMonitor)
                && final(self).active_monitor_index == old(self).active_monitor_index,
            old(self).has_name(name@) ==> r == Ok::<(), Error>(())
                && final(self).active_monitor_index == old(self).name_index(name@),
    {
        let n: String = name.to_owned();
        let mut i: usize = 0;
        while i < self.monitors.len()
            invariant
                self.wf(),
                self.monitors@ == old(self).monitors@,
                self.active_monitor_index == old(self).active_monitor_index,
                n@ == name@,
                i <= self.monitors.len(),
                forall|j: int| 0 <= j < i ==> (#[trigger] self.monitors[j].name@) != name@,
            decreases self.monitors.len() - i,
        {
            if self.monitors[i].name == n {
                proof {
                    assert(self.has_name(name@));
                    self.lemma_name_unique(name@, i as int, self.name_index(name@));
                }
                self.active_monitor_index = i;
                return Ok(());
            }
            i = i + 1;
        }
        Err(Error::UnknownMonitor)
    }

    /// The tag state of the focused monitor.
    pub open spec fn active_state(self) -> State {
        self.monitors[self.active_monitor_index as int].state
    }

    /// Address `a` is tracked on a monitor other than the focused one.
    pub open spec fn tracked_on_other(self, a: Seq<char>) -> bool {
        exists|i: int|
            0 <= i < self.monitors.len() && i != self.active_monitor_index && (
            #[trigger] self.monitors[i].state.tracked_addr(a))
    }

    /// The frame of a delegated operation: same monitors, same focus, every
    /// monitor but the focused one untouched, the focused one keeping its
    /// identity.
    pub open spec fn delegate_frame(pre: MonitorsState, post: MonitorsState) -> bool {
        &&& post.monitors.len() == pre.monitors.len()
        &&& post.active_monitor_index == pre.active_monitor_index
        &&& forall|i: int|
            0 <= i < pre.monitors.len() && i != pre.active_monitor_index
                ==> #[trigger] post.monitors[i] == pre.monitors[i]
        &&& post.monitors[pre.active_monitor_index as int].name == pre.monitors[pre.active_monitor_index as int].name
        &&& post.monitors[pre.active_monitor_index as int].id == pre.monitors[pre.active_monitor_index as int].id
    }

    /// The monitor set stays well formed when only the focused monitor's
    /// state changes, gaining at most one window that no other monitor holds.
    proof fn lemma_delegate_wf(pre: MonitorsState, post: MonitorsState, grown: Option<Seq<char>>)
        requires
            pre.wf(),
            Self::delegate_frame(pre, post),
            post.active_state().wf(),
            forall|a: Seq<char>|
                (#[trigger] post.active_state().tracked_addr(a)) ==> pre.active_state().tracked_addr(
                    a,
                ) || Some(a) == grown,
            match grown {
                Some(w) => forall|j: int|
                    0 <= j < pre.monitors.len() && j != pre.active_monitor_index ==> !(
                    #[trigger] pre.monitors[j].state.tracked_addr(w)),
                None => true,
            },
        ensures
            post.wf(),
    {
        let act = pre.active_monitor_index as int;
        assert forall|i: int| 0 <= i < post.monitors.len() implies (
        #[trigger] post.monitors[i].state).wf() by {
            if i != act {
                assert(post.monitors[i] == pre.monitors[i]);
            }
        }
        assert forall|i: int, j: int| 0 <= i < j < post.monitors.len() implies (
        #[trigger] post.monitors[i].name@) != (#[trigger] post.monitors[j].name@) by {
            if i != act {
                assert(post.monitors[i] == pre.monitors[i]);
            }
            if j != act {
                assert(post.monitors[j] == pre.monitors[j]);
            }
        }
        assert forall|i: int, j: int, a: Seq<char>|
            0 <= i < post.monitors.len() && 0 <= j < post.monitors.len() && i != j implies !((
        #[trigger] post.monitors[i].state.tracked_addr(a)) && (
        #[trigger] post.monitors[j].state.tracked_addr(a))) by {
            if post.monitors[i].state.tracked_addr(a) && post.monitors[j].state.tracked_addr(a) {
                if i == act {
                    assert(post.monitors[j] == pre.monitors[j]);
                    assert(pre.monitors[j].state.tracked_addr(a));
                    assert(post.active_state().tracked_addr(a));
                    if pre.active_state().tracked_addr(a) {
                        assert(pre.monitors[act].state.tracked_addr(a));
                    } else {
                        assert(Some(a) == grown);
                        assert(!pre.monitors[j].state.tracked_addr(grown->0));
                    }
                    assert(false);
                } else if j == act {
                    assert(post.monitors[i] == pre.monitors[i]);
                    assert(pre.monitors[i].state.tracked_addr(a));
                    assert(post.active_state().tracked_addr(a));
                    if pre.active_state().tracked_addr(a) {
                        assert(pre.monitors[act].state.tracked_addr(a));
                    } else {
                        assert(Some(a) == grown);
                        assert(!pre.monitors[i].state.tracked_addr(grown->0));
                    }
                    assert(false);
                } else {
                    assert(post.monitors[i] == pre.monitors[i]);
                    assert(post.monitors[j] == pre.monitors[j]);
                    assert(false);
                }
            }
        }
    }

    /// The index of the monitor tracking `a` (meaningful only when tracked
    /// somewhere; unique under well-formedness).
    pub open spec fn holder_index(self, a: Seq<char>) -> int {
        choose|i: int|
            0 <= i < self.monitors.len() && (#[trigger] self.monitors[i].state.tracked_addr(a))
    }

    /// Under well-formedness, at most one monitor tracks an address.
    pub proof fn lemma_holder_unique(self, a: Seq<char>, i: int, j: int)
        requires
            self.wf(),
            0 <= i < self.monitors.len(),
            0 <= j < self.monitors.len(),
            self.monitors[i].state.tracked_addr(a),
            self.monitors[j].state.tracked_addr(a),
        ensures
            i == j,
    {
        if i != j {
            assert(!(self.monitors[i].state.tracked_addr(a) && self.monitors[j].state.tracked_addr(
                a,
            )));
        }
    }

    /// Finds the monitor tracking `addr`, scanning in order.
    fn find_holder(&self, addr: &str) -> (r: Option<usize>)
        requires
            self.wf(),
        ensures
            match r {
                Some(h) => h < self.monitors.len() && self.monitors[h as int].state.tracked_addr(
                    addr@,
                ),
                None => !self.tracked_anywhere(addr@),
            },
    {
        let mut i: usize = 0;
        while i < self.monitors.len()
            invariant
                self.wf(),
                i <= self.monitors.len(),
                forall|j: int|
                    0 <= j < i ==> !(#[trigger] self.monitors[j].state.tracked_addr(addr@)),
            decreases self.monitors.len() - i,
        {
            let found = self.monitors[i].state.find_window_tag_index(addr);
            if found.is_some() {
                proof {
                    assert(self.monitors[i as int].state.tag_seq(found->0 as int).contains(addr@));
                    assert(self.monitors[i as int].state.tracked_addr(addr@));
                }
                return Some(i);
            }
            i = i + 1;
        }
        None
    }

    /// The monitor set stays well formed when only monitor `k`'s state
    /// changes, gaining at most one window that no other monitor holds.
    proof fn lemma_one_changed_wf(
        pre: MonitorsState,
        post: MonitorsState,
        k: int,
        grown: Option<Seq<char>>,
    )
        requires
            pre.wf(),
            post.monitors.len() == pre.monitors.len(),
            post.active_monitor_index == pre.active_monitor_index,
            0 <= k < pre.monitors.len(),
            forall|i: int|
                0 <= i < pre.monitors.len() && i != k ==> #[trigger] post.monitors[i]
                    == pre.monitors[i],
            post.monitors[k].name@ == pre.monitors[k].name@,
            post.monitors[k].state.wf(),
            forall|a: Seq<char>|
                (#[trigger] post.monitors[k].state.tracked_addr(a)) ==> pre.monitors[k].state.tracked_addr(
                    a,
                ) || Some(a) == grown,
            match grown {
                Some(w) => forall|j: int|
                    0 <= j < pre.monitors.len() && j != k ==> !(
                    #[trigger] pre.monitors[j].state.tracked_addr(w)),
                None => true,
            },
        ensures
            post.wf(),
    {
        assert forall|i: int| 0 <= i < post.monitors.len() implies (
        #[trigger] post.monitors[i].state).wf() by {
            if i != k {
                assert(post.monitors[i] == pre.monitors[i]);
            }
        }
        assert forall|i: int, j: int| 0 <= i < j < post.monitors.len() implies (
        #[trigger] post.monitors[i].name@) != (#[trigger] post.monitors[j].name@) by {
            if i != k {
                assert(post.monitors[i] == pre.monitors[i]);
            }
            if j != k {
                assert(post.monitors[j] == pre.monitors[j]);
            }
        }
        assert forall|i: int, j: int, a: Seq<char>|
            0 <= i < post.monitors.len() && 0 <= j < post.monitors.len() && i != j implies !((
        #[trigger] post.monitors[i].state.tracked_addr(a)) && (
        #[trigger] post.monitors[j].state.tracked_addr(a))) by {
            if post.monitors[i].state.tracked_addr(a) && post.monitors[j].state.tracked_addr(a) {
                if i == k {
                    assert(post.monitors[j] == pre.monitors[j]);
                    assert(pre.monitors[j].state.tracked_addr(a));
                    if pre.monitors[k].state.tracked_addr(a) {
                        assert(!(pre.monitors[k].state.tracked_addr(a)
                            && pre.monitors[j].state.tracked_addr(a)));
                    } else {
                        assert(Some(a) == grown);
                        assert(!pre.monitors[j].state.tracked_addr(grown->0));
                    }
                    assert(false);
                } else if j == k {
                    assert(post.monitors[i] == pre.monitors[i]);
                    assert(pre.monitors[i].state.tracked_addr(a));
                    if pre.monitors[k].state.tracked_addr(a) {
                        assert(!(pre.monitors[k].state.tracked_addr(a)
                            && pre.monitors[i].state.tracked_addr(a)));
                    } else {
                        assert(Some(a) == grown);
                        assert(!pre.monitors[i].state.tracked_addr(grown->0));
                    }
                    assert(false);
                } else {
                    assert(post.monitors[i] == pre.monitors[i]);
                    assert(post.monitors[j] == pre.monitors[j]);
                    assert(false);
                }
            }
        }
    }

    /// The monitor set stays well formed when a window leaves its holder for
    /// another monitor.
    proof fn lemma_migrate_wf(
        pre: MonitorsState,
        post: MonitorsState,
        h: int,
        d: int,
        w: Seq<char>,
    )
        requires
            pre.wf(),
            post.monitors.len() == pre.monitors.len(),
            post.active_monitor_index == pre.active_monitor_index,
            0 <= h < pre.monitors.len(),
            0 <= d < pre.monitors.len(),
            h != d,
            pre.monitors[h].state.tracked_addr(w),
            forall|i: int|
                0 <= i < pre.monitors.len() && i != h && i != d ==> #[trigger] post.monitors[i]
                    == pre.monitors[i],
            post.monitors[h].name@ == pre.monitors[h].name@,
            post.monitors[d].name@ == pre.monitors[d].name@,
            post.monitors[h].state.wf(),
            post.monitors[d].state.wf(),
            forall|a: Seq<char>|
                (#[trigger] post.monitors[h].state.tracked_addr(a)) ==> pre.monitors[h].state.tracked_addr(
                    a,
                ) && a != w,
            forall|a: Seq<char>|
                (#[trigger] post.monitors[d].state.tracked_addr(a)) ==> pre.monitors[d].state.tracked_addr(
                    a,
                ) || a == w,
        ensures
            post.wf(),
    {
        assert forall|i: int| 0 <= i < post.monitors.len() implies (
        #[trigger] post.monitors[i].state).wf() by {
            if i != h && i != d {
                assert(post.monitors[i] == pre.monitors[i]);
            }
        }
        assert forall|i: int, j: int| 0 <= i < j < post.monitors.len() implies (
        #[trigger] post.monitors[i].name@) != (#[trigger] post.monitors[j].name@) by {
            if i != h && i != d {
                assert(post.monitors[i] == pre.monitors[i]);
            }
            if j != h && j != d {
                assert(post.monitors[j] == pre.monitors[j]);
            }
        }
        assert forall|i: int, j: int, a: Seq<char>|
            0 <= i < post.monitors.len() && 0 <= j < post.monitors.len() && i != j implies !((
        #[trigger] post.monitors[i].state.tracked_addr(a)) && (
        #[trigger] post.monitors[j].state.tracked_addr(a))) by {
            if post.monitors[i].state.tracked_addr(a) && post.monitors[j].state.tracked_addr(a) {
                // reduce each side to a pre-state fact
                if i != h && i != d {
                    assert(post.monitors[i] == pre.monitors[i]);
                    assert(pre.monitors[i].state.tracked_addr(a));
                }
                if j != h && j != d {
                    assert(post.monitors[j] == pre.monitors[j]);
                    assert(pre.monitors[j].state.tracked_addr(a));
                }
                if a == w {
                    // only the destination can track the moved window
                    if i != d {
                        if i == h {
                            assert(false);
                        } else {
                            assert(!(pre.monitors[i].state.tracked_addr(w)
                                && pre.monitors[h].state.tracked_addr(w)));
                            assert(false);
                        }
                    }
                    if j != d {
                        if j == h {
                            assert(false);
                        } else {
                            assert(!(pre.monitors[j].state.tracked_addr(w)
                                && pre.monitors[h].state.tracked_addr(w)));
                            assert(false);
                        }
                    }
                    assert(false);
                } else {
                    assert(pre.monitors[i].state.tracked_addr(a));
                    assert(pre.monitors[j].state.tracked_addr(a));
                    assert(false);
                }
            }
        }
    }

    /// Moves a window (or the focused monitor's active window) to the
    /// monitor with the given index: it leaves whichever monitor holds it
    /// and joins the destination monitor's active tag.
    pub fn move_window_to_monitor(&mut self, dest_monitor: u8, window: Option<String>) -> (r:
        Result<(), Error>)
        requires
            old(self).wf(),
        ensures
            final(self).wf(),
            final(self).monitors.len() == old(self).monitors.len(),
            final(self).active_monitor_index == old(self).active_monitor_index,
            old(self).active_state().effective_window(window) is None ==> r == Err::<(), Error>(
                Error::NoActiveWindow,
            ) && final(self).monitors@ == old(self).monitors@,
            old(self).active_state().effective_window(window) is Some ==> {
                let w = old(self).active_state().effective_window(window)->0;
                let d = dest_monitor as int;
                let h = old(self).holder_index(w);
                &&& (d >= old(self).monitors.len() ==> r == Err::<(), Error>(
                    Error::MonitorOutOfRange,
                ) && final(self).monitors@ == old(self).monitors@)
                &&& (d < old(self).monitors.len() && !old(self).tracked_anywhere(w) ==> r
                    == Err::<(), Error>(Error::UnknownWindow) && final(self).monitors@ == old(
                    self,
                ).monitors@)
                &&& (d < old(self).monitors.len() && old(self).tracked_anywhere(w) ==> {
                    &&& r == Ok::<(), Error>(())
                    &&& final(self).monitors[h].name == old(self).monitors[h].name
                    &&& final(self).monitors[h].id == old(self).monitors[h].id
                    &&& final(self).monitors[d].name == old(self).monitors[d].name
                    &&& final(self).monitors[d].id == old(self).monitors[d].id
                    &&& (h == d ==> State::migrate_post(
                        old(self).monitors[h].state,
                        final(self).monitors[h].state,
                        w,
                    ) && (forall|a: Seq<char>|
                        #[trigger] final(self).monitors[h].state.tracked_addr(a) <==> old(
                            self,
                        ).monitors[h].state.tracked_addr(a)) && forall|i: int|
                        0 <= i < old(self).monitors.len() && i != h
                            ==> #[trigger] final(self).monitors[i] == old(self).monitors[i])
                    &&& (h != d ==> State::removed_post(
                        old(self).monitors[h].state,
                        final(self).monitors[h].state,
                        w,
                    ) && State::added_post(
                        old(self).monitors[d].state,
                        final(self).monitors[d].state,
                        w,
                    ) && final(self).monitors[d].state.active_window == old(
                        self,
                    ).monitors[d].state.active_window && (forall|a: Seq<char>|
                        #[trigger] final(self).monitors[h].state.tracked_addr(a) <==> (old(
                            self,
                        ).monitors[h].state.tracked_addr(a) && a != w)) && (forall|a: Seq<char>|
                        #[trigger] final(self).monitors[d].state.tracked_addr(a) <==> (old(
                            self,
                        ).monitors[d].state.tracked_addr(a) || a == w)) && forall|i: int|
                        0 <= i < old(self).monitors.len() && i != h && i != d
                            ==> #[trigger] final(self).monitors[i] == old(self).monitors[i])
                })
            },
    {
        let idx = self.active_monitor_index;
        let win = match window {
            Some(w) => Some(w),
            None => self.monitors[idx].state.active_window(),
        };
        let win = match win {
            Some(w) => w,
            None => {
                return Err(Error::NoActiveWindow);
            },
        };
        let d = dest_monitor as usize;
        if d >= self.monitors.len() {
            return Err(Error::MonitorOutOfRange);
        }
        let h = match self.find_holder(win.as_str()) {
            Some(h) => h,
            None => {
                return Err(Error::UnknownWindow);
            },
        };
        proof {
            assert(self.tracked_anywhere(win@));
            self.lemma_holder_unique(win@, h as int, self.holder_index(win@));
        }
        let ghost pre = *self;
        let hm = &mut self.monitors[h];
        let _ = hm.state.window_removed(win.clone());
        let ghost mid = *self;
        let dm = &mut self.monitors[d];
        let _ = dm.state.new_window_added(win);
        proof {
            if h == d {
                assert(State::migrate_step(
                    pre.monitors[h as int].state,
                    mid.monitors[h as int].state,
                    self.monitors[h as int].state,
                    win@,
                ));
                Self::lemma_one_changed_wf(pre, *self, h as int, Some(win@));
            } else {
                assert(mid.monitors[d as int] == pre.monitors[d as int]);
                assert(!pre.monitors[d as int].state.tracked_addr(win@)) by {
                    assert(!(pre.monitors[d as int].state.tracked_addr(win@)
                        && pre.monitors[h as int].state.tracked_addr(win@)));
                }
                Self::lemma_migrate_wf(pre, *self, h as int, d as int, win@);
            }
        }
        Ok(())
    }

    /// Records a window on the focused monitor's active tag. Fails, changing
    /// nothing, when the address is already tracked on any monitor.
    pub fn new_window_added(&mut self, window: String) -> (r: Result<(), Error>)
        requires
            old(self).wf(),
        ensures
            final(self).wf(),
            Self::delegate_frame(*old(self), *final(self)),
            old(self).tracked_anywhere(window@) ==> r == Err::<(), Error>(Error::AlreadyTracked)
                && final(self).monitors@ == old(self).monitors@,
            !old(self).tracked_anywhere(window@) ==> r == Ok::<(), Error>(()) && State::added_post(
                old(self).active_state(),
                final(self).active_state(),
                window@,
            ) && final(self).active_state().active_window == old(self).active_state().active_window,
    {
        let mut i: usize = 0;
        while i < self.monitors.len()
            invariant
                self.wf(),
                self == old(self),
                i <= self.monitors.len(),
                forall|j: int|
                    0 <= j < i && j != self.active_monitor_index ==> !(
                    #[trigger] self.monitors[j].state.tracked_addr(window@)),
            decreases self.monitors.len() - i,
        {
            if i != self.active_monitor_index {
                let found = self.monitors[i].state.find_window_tag_index(window.as_str());
                if found.is_some() {
                    proof {
                        assert(self.monitors[i as int].state.tag_seq(found->0 as int).contains(
                            window@,
                        ));
                        assert(self.monitors[i as int].state.tracked_addr(window@));
                        assert(self.tracked_anywhere(window@));
                    }
                    return Err(Error::AlreadyTracked);
                }
            }
            i = i + 1;
        }
        let ghost pre = *self;
        let idx = self.active_monitor_index;
        let m = &mut self.monitors[idx];
        let r = m.state.new_window_added(window);
        proof {
            Self::lemma_delegate_wf(pre, *self, Some(window@));
            if r is Err {
                assert(pre.active_state().tracked_addr(window@));
                assert(pre.tracked_anywhere(window@));
                assert(self.monitors@ =~= pre.monitors@);
            } else {
                if pre.tracked_anywhere(window@) {
                    let j = choose|j: int|
                        0 <= j < pre.monitors.len() && (#[trigger] pre.monitors[j].state.tracked_addr(
                            window@,
                        ));
                    assert(false);
                }
            }
        }
        r
    }

    /// Removes a window from the focused monitor's state. Fails, changing
    /// nothing, when the focused monitor does not track it.
    pub fn window_removed(&mut self, window: String) -> (r: Result<(), Error>)
        requires
            old(self).wf(),
        ensures
            final(self).wf(),
            Self::delegate_frame(*old(self), *final(self)),
            !old(self).active_state().tracked_addr(window@) ==> r == Err::<(), Error>(
                Error::UnknownWindow,
            ) && final(self).monitors@ == old(self).monitors@,
            old(self).active_state().tracked_addr(window@) ==> r == Ok::<(), Error>(())
                && State::removed_post(
                old(self).active_state(),
                final(self).active_state(),
                window@,
            ),
    {
        let ghost pre = *self;
        let idx = self.active_monitor_index;
        let m = &mut self.monitors[idx];
        let r = m.state.window_removed(window);
        proof {
            Self::lemma_delegate_wf(pre, *self, None);
            if r is Err {
                assert(self.monitors@ =~= pre.monitors@);
            }
        }
        r
    }

    /// Records the focused window on the focused monitor; an unknown address
    /// is first added to its active tag. Fails, changing nothing, when the
    /// address is tracked on a different monitor.
    pub fn focus_window_changed(&mut self, window: String) -> (r: Result<(), Error>)
        requires
            old(self).wf(),
        ensures
            final(self).wf(),
            Self::delegate_frame(*old(self), *final(self)),
            old(self).tracked_on_other(window@) ==> r == Err::<(), Error>(Error::AlreadyTracked)
                && final(self).monitors@ == old(self).monitors@,
            !old(self).tracked_on_other(window@) ==> {
                &&& r == Ok::<(), Error>(())
                &&& final(self).active_state().active_window == Some(window)
                &&& old(self).active_state().tracked_addr(window@)
                    ==> final(self).active_state().tags@ == old(self).active_state().tags@
                &&& !old(self).active_state().tracked_addr(window@) ==> State::added_post(
                    old(self).active_state(),
                    final(self).active_state(),
                    window@,
                )
            },
    {
        let mut i: usize = 0;
        while i < self.monitors.len()
            invariant
                self.wf(),
                self == old(self),
                i <= self.monitors.len(),
                forall|j: int|
                    0 <= j < i && j != self.active_monitor_index ==> !(
                    #[trigger] self.monitors[j].state.tracked_addr(window@)),
            decreases self.monitors.len() - i,
        {
            if i != self.active_monitor_index {
                let found = self.monitors[i].state.find_window_tag_index(window.as_str());
                if found.is_some() {
                    proof {
                        assert(self.monitors[i as int].state.tag_seq(found->0 as int).contains(
                            window@,
                        ));
                        assert(self.monitors[i as int].state.tracked_addr(window@));
                        assert(self.tracked_on_other(window@));
                    }
                    return Err(Error::AlreadyTracked);
                }
            }
            i = i + 1;
        }
        let ghost pre = *self;
        let idx = self.active_monitor_index;
        let m = &mut self.monitors[idx];
        let r = m.state.focus_window_changed(window);
        proof {
            Self::lemma_delegate_wf(pre, *self, Some(window@));
            if pre.tracked_on_other(window@) {
                let j = choose|j: int|
                    0 <= j < pre.monitors.len() && j != pre.active_monitor_index && (
                    #[trigger] pre.monitors[j].state.tracked_addr(window@));
                assert(false);
            }
        }
        r
    }

    /// Moves a window (or the focused monitor's active window) to a tag of
    /// the focused monitor, reporting the differential update for it.
    pub fn move_window(&mut self, dest_tag: u8, window: Option<String>) -> (r: Result<
        Changes,
        Error,
    >)
        requires
            old(self).wf(),
        ensures
            final(self).wf(),
            Self::delegate_frame(*old(self), *final(self)),
            match old(self).active_state().move_window_err(dest_tag, window) {
                Some(e) => r == Err::<Changes, Error>(e) && final(self).monitors@ == old(
                    self,
                ).monitors@,
                None => r is Ok && r->Ok_0.active_monitor_index == old(self).active_monitor_index
                    && State::move_post(
                    old(self).active_state(),
                    final(self).active_state(),
                    dest_tag,
                    old(self).active_state().effective_window(window)->0,
                    r->Ok_0.changes,
                ),
            },
    {
        let ghost pre = *self;
        let idx = self.active_monitor_index;
        let m = &mut self.monitors[idx];
        let r = m.state.move_window(dest_tag, window);
        proof {
            Self::lemma_delegate_wf(pre, *self, None);
            if r is Err {
                assert(self.monitors@ =~= pre.monitors@);
            }
        }
        match r {
            Ok(changes) => Ok(Changes { active_monitor_index: idx, changes }),
            Err(e) => Err(e),
        }
    }

    /// Replaces the focused monitor's visibility mask, reporting the
    /// differential update for it.
    pub fn set_visible_tags(&mut self, tags: u32) -> (r: Result<Changes, Error>)
        requires
            old(self).wf(),
        ensures
            final(self).wf(),
            Self::delegate_frame(*old(self), *final(self)),
            tags == 0 ==> r == Err::<Changes, Error>(Error::MaskEmpty) && final(self).monitors@
                == old(self).monitors@,
            tags != 0 ==> r is Ok && r->Ok_0.active_monitor_index == old(self).active_monitor_index && State::set_visible_post(
                old(self).active_state(),
                final(self).active_state(),
                tags,
                r->Ok_0.changes,
            ),
    {
        let ghost pre = *self;
        let idx = self.active_monitor_index;
        let m = &mut self.monitors[idx];
        let r = m.state.set_visible_tags(tags);
        proof {
            crate::state::lemma_tags_congruence(self.monitors[idx as int].state, pre.active_state());
            Self::lemma_delegate_wf(pre, *self, None);
            if r is Err {
                assert(self.monitors@ =~= pre.monitors@);
            }
        }
        match r {
            Ok(changes) => Ok(Changes { active_monitor_index: idx, changes }),
            Err(e) => Err(e),
        }
    }

    /// Flips the visibility of one tag on the focused monitor, reporting the
    /// differential update for it.
    pub fn toggle_tag(&mut self, tag: u8) -> (r: Result<Changes, Error>)
        requires
            old(self).wf(),
        ensures
            final(self).wf(),
            Self::delegate_frame(*old(self), *final(self)),
            !(1 <= tag <= 32) ==> r == Err::<Changes, Error>(Error::TagOutOfRange) && final(self).monitors@ == old(self).monitors@,
            1 <= tag <= 32 ==> {
                let mask = crate::bits::toggled(old(self).active_state().visible_tags, tag - 1);
                &&& (mask == 0 ==> r == Err::<Changes, Error>(Error::MaskEmpty) && final(self).monitors@ == old(self).monitors@)
                &&& (mask != 0 ==> r is Ok && r->Ok_0.active_monitor_index == old(self).active_monitor_index && State::set_visible_post(
                    old(self).active_state(),
                    final(self).active_state(),
                    mask,
                    r->Ok_0.changes,
                ))
            },
    {
        let ghost pre = *self;
        let idx = self.active_monitor_index;
        let m = &mut self.monitors[idx];
        let r = m.state.toggle_tag(tag);
        proof {
            crate::state::lemma_tags_congruence(self.monitors[idx as int].state, pre.active_state());
            Self::lemma_delegate_wf(pre, *self, None);
            if r is Err {
                assert(self.monitors@ =~= pre.monitors@);
            }
        }
        match r {
            Ok(changes) => Ok(Changes { active_monitor_index: idx, changes }),
            Err(e) => Err(e),
        }
    }

    /// Restores the focused monitor's previously visible mask, reporting the
    /// differential update for it.
    pub fn restore_prev_tags(&mut self) -> (r: Result<Changes, Error>)
        requires
            old(self).wf(),
        ensures
            final(self).wf(),
            Self::delegate_frame(*old(self), *final(self)),
            r is Ok && r->Ok_0.active_monitor_index == old(self).active_monitor_index
                && State::set_visible_post(
                old(self).active_state(),
                final(self).active_state(),
                old(self).active_state().prev_tags,
                r->Ok_0.changes,
            ),
    {
        let ghost pre = *self;
        let idx = self.active_monitor_index;
        let m = &mut self.monitors[idx];
        let r = m.state.restore_prev_tags();
        proof {
            crate::state::lemma_tags_congruence(self.monitors[idx as int].state, pre.active_state());
            Self::lemma_delegate_wf(pre, *self, None);
        }
        match r {
            Ok(changes) => Ok(Changes { active_monitor_index: idx, changes }),
            Err(e) => Err(e),
        }
    }

    /// The monitor set stays well formed when one monitor is dropped.
    proof fn lemma_remove_monitor_wf(pre: MonitorsState, post: MonitorsState, rm: int)
        requires
            pre.wf(),
            pre.monitors.len() >= 2,
            0 <= rm < pre.monitors.len(),
            post.monitors@ == pre.monitors@.remove(rm),
            post.active_monitor_index < post.monitors.len(),
        ensures
            post.wf(),
    {
        pre.monitors@.remove_ensures(rm);
        assert forall|i: int| 0 <= i < post.monitors.len() implies (
        #[trigger] post.monitors[i].state).wf() by {
            let j: int = if i < rm {
                i
            } else {
                i + 1
            };
            assert(post.monitors[i] == pre.monitors[j]);
        }
        assert forall|i: int, j: int| 0 <= i < j < post.monitors.len() implies (
        #[trigger] post.monitors[i].name@) != (#[trigger] post.monitors[j].name@) by {
            let i2: int = if i < rm {
                i
            } else {
                i + 1
            };
            let j2: int = if j < rm {
                j
            } else {
                j + 1
            };
            assert(post.monitors[i] == pre.monitors[i2]);
            assert(post.monitors[j] == pre.monitors[j2]);
            assert(pre.monitors[i2].name@ != pre.monitors[j2].name@);
        }
        assert forall|i: int, j: int, a: Seq<char>|
            0 <= i < post.monitors.len() && 0 <= j < post.monitors.len() && i != j implies !((
        #[trigger] post.monitors[i].state.tracked_addr(a)) && (
        #[trigger] post.monitors[j].state.tracked_addr(a))) by {
            let i2: int = if i < rm {
                i
            } else {
                i + 1
            };
            let j2: int = if j < rm {
                j
            } else {
                j + 1
            };
            assert(post.monitors[i] == pre.monitors[i2]);
            assert(post.monitors[j] == pre.monitors[j2]);
            assert(!(pre.monitors[i2].state.tracked_addr(a) && pre.monitors[j2].state.tracked_addr(
                a,
            )));
        }
    }

    /// Removes the monitor with the given name, after migrating every one of
    /// its windows to the active tag of the first surviving monitor. Returns
    /// the survivor's index in the old list, the survivor's active tag
    /// index, and the migrated addresses. Fails, changing nothing, for an
    /// unknown name or when the named monitor is the only one.
    pub fn monitor_removed(&mut self, name: &str) -> (r: Result<(usize, usize, Vec<String>), Error>)
        requires
            old(self).wf(),
        ensures
            final(self).wf(),
            !old(self).has_name(name@) ==> r == Err::<(usize, usize, Vec<String>), Error>(
                Error::UnknownMonitor,
            ) && final(self).monitors@ == old(self).monitors@ && final(self).active_monitor_index
                == old(self).active_monitor_index,
            old(self).has_name(name@) && old(self).monitors.len() == 1 ==> r == Err::<
                (usize, usize, Vec<String>),
                Error,
            >(Error::LastMonitor) && final(self).monitors@ == old(self).monitors@
                && final(self).active_monitor_index == old(self).active_monitor_index,
            old(self).has_name(name@) && old(self).monitors.len() >= 2 ==> {
                let rm = old(self).name_index(name@);
                let sv: int = if rm == 0 {
                    1int
                } else {
                    0int
                };
                let osv = old(self).monitors[sv];
                let fsv = final(self).monitors[0];
                let act = osv.state.active_tag_index as int;
                let ws = old(self).monitors[rm].state.all_addrs();
                &&& r is Ok
                &&& r->Ok_0.0 == sv
                &&& r->Ok_0.1 == osv.state.active_tag_index
                &&& crate::dispatch::str_views(r->Ok_0.2@) == ws
                &&& final(self).monitors@ == old(self).monitors@.update(sv, fsv).remove(rm)
                &&& fsv.name == osv.name
                &&& fsv.id == osv.id
                &&& fsv.state.visible_tags == osv.state.visible_tags
                &&& fsv.state.prev_tags == osv.state.prev_tags
                &&& fsv.state.active_tag_index == osv.state.active_tag_index
                &&& fsv.state.active_window == osv.state.active_window
                &&& fsv.state.tag_seq(act) == osv.state.tag_seq(act) + ws
                &&& forall|t: int|
                    0 <= t < 32 && t != act ==> #[trigger] fsv.state.tag_seq(t) == osv.state.tag_seq(
                        t,
                    )
                &&& final(self).active_monitor_index == (if old(self).active_monitor_index == rm {
                    0int
                } else if old(self).active_monitor_index > rm {
                    old(self).active_monitor_index - 1
                } else {
                    old(self).active_monitor_index as int
                })
            },
    {
        let n: String = name.to_owned();
        let mut rm_opt: Option<usize> = None;
        let mut i: usize = 0;
        while i < self.monitors.len()
            invariant
                self.wf(),
                n@ == name@,
                i <= self.monitors.len(),
                rm_opt is None ==> forall|j: int|
                    0 <= j < i ==> (#[trigger] self.monitors[j].name@) != name@,
                rm_opt is Some ==> rm_opt->0 < self.monitors.len()
                    && self.monitors[rm_opt->0 as int].name@ == name@,
            decreases self.monitors.len() - i,
        {
            if rm_opt.is_none() && self.monitors[i].name == n {
                rm_opt = Some(i);
            }
            i = i + 1;
        }
        let rm = match rm_opt {
            Some(r) => r,
            None => {
                return Err(Error::UnknownMonitor);
            },
        };
        proof {
            assert(self.has_name(name@));
            self.lemma_name_unique(name@, rm as int, self.name_index(name@));
        }
        if self.monitors.len() == 1 {
            return Err(Error::LastMonitor);
        }
        let sv: usize = if rm == 0 {
            1
        } else {
            0
        };
        let windows = self.monitors[rm].state.all_window_addrs();
        let ghost pre = *self;
        let ghost ws = pre.monitors[rm as int].state.all_addrs();
        let ghost act = pre.monitors[sv as int].state.active_tag_index as int;
        proof {
            pre.monitors[rm as int].state.lemma_all_addrs();
            assert(pre.monitors[sv as int].state.tag_seq(act) + ws.take(0) =~= pre.monitors[sv as int].state.tag_seq(act));
            assert forall|j: int|
                0 <= j < ws.len() implies #[trigger] pre.monitors[rm as int].state.tracked_addr(
                ws[j],
            ) by {
                assert(ws.contains(ws[j]));
            }
        }
        let mut k: usize = 0;
        while k < windows.len()
            invariant
                self.wf(),
                pre.wf(),
                rm < pre.monitors.len(),
                sv < pre.monitors.len(),
                rm != sv,
                k <= windows.len(),
                self.monitors.len() == pre.monitors.len(),
                self.active_monitor_index == pre.active_monitor_index,
                windows@.map_values(|s: String| s@) == ws,
                ws.no_duplicates(),
                act == pre.monitors[sv as int].state.active_tag_index as int,
                forall|i2: int|
                    0 <= i2 < pre.monitors.len() && i2 != rm && i2 != sv
                        ==> #[trigger] self.monitors[i2] == pre.monitors[i2],
                self.monitors[rm as int].name == pre.monitors[rm as int].name,
                self.monitors[rm as int].id == pre.monitors[rm as int].id,
                forall|j: int|
                    k <= j < ws.len() ==> #[trigger] self.monitors[rm as int].state.tracked_addr(
                        ws[j],
                    ),
                self.monitors[sv as int].name == pre.monitors[sv as int].name,
                self.monitors[sv as int].id == pre.monitors[sv as int].id,
                self.monitors[sv as int].state.visible_tags == pre.monitors[sv as int].state.visible_tags,
                self.monitors[sv as int].state.prev_tags == pre.monitors[sv as int].state.prev_tags,
                self.monitors[sv as int].state.active_tag_index == pre.monitors[sv as int].state.active_tag_index,
                self.monitors[sv as int].state.active_window == pre.monitors[sv as int].state.active_window,
                self.monitors[sv as int].state.tag_seq(act) == pre.monitors[sv as int].state.tag_seq(
                    act,
                ) + ws.take(k as int),
                forall|t: int|
                    0 <= t < 32 && t != act ==> #[trigger] self.monitors[sv as int].state.tag_seq(t)
                        == pre.monitors[sv as int].state.tag_seq(t),
            decreases windows.len() - k,
        {
            let w = windows[k].clone();
            proof {
                assert(w@ == ws[k as int]);
                assert(self.monitors[rm as int].state.tracked_addr(w@));
                assert(self.tracked_anywhere(w@));
                self.lemma_holder_unique(w@, rm as int, self.holder_index(w@));
            }
            let ghost step = *self;
            let res = self.move_window_to_monitor(sv as u8, Some(w));
            proof {
                assert(step.active_state().effective_window(Some(w)) == Some(ws[k as int]));
                assert(res is Ok);
                // re-establish the survivor's active tag contents
                assert(self.monitors[sv as int].state.tag_seq(act) =~= pre.monitors[sv as int].state.tag_seq(
                    act,
                ) + ws.take(k as int + 1));
                // the remaining windows are still on the leaving monitor
                assert forall|j: int|
                    k + 1 <= j < ws.len() implies #[trigger] self.monitors[rm as int].state.tracked_addr(
                    ws[j],
                ) by {
                    assert(ws[j] != ws[k as int]);
                    assert(step.monitors[rm as int].state.tracked_addr(ws[j]));
                }
            }
            k = k + 1;
        }
        let active_idx = self.monitors[sv].state.active_tag_index();
        let ghost looped = *self;
        let _ = self.monitors.remove(rm);
        if self.active_monitor_index == rm {
            self.active_monitor_index = 0;
        } else if self.active_monitor_index > rm {
            self.active_monitor_index = self.active_monitor_index - 1;
        }
        proof {
            assert(ws.take(ws.len() as int) =~= ws);
            assert(looped.monitors@.remove(rm as int) =~= pre.monitors@.update(
                sv as int,
                looped.monitors[sv as int],
            ).remove(rm as int));
            Self::lemma_remove_monitor_wf(looped, *self, rm as int);
            assert(self.monitors[0] == looped.monitors[sv as int]);
        }
        Ok((sv, active_idx, windows))
    }

    /// The log line for one monitor: its id, its name, and its state
    /// summary.
    pub open spec fn monitor_dump(m: Monitor) -> Seq<char> {
        "Monitor "@ + crate::dispatch::dec_of(m.id as nat) + ","@ + m.name@ + ":\n"@
            + m.state.dump_spec()
    }

    /// The concatenated log lines of monitors `0..n`.
    pub open spec fn dump_upto(s: Seq<Monitor>, n: int) -> Seq<char>
        decreases n,
    {
        if n <= 0 {
            Seq::empty()
        } else {
            Self::dump_upto(s, n - 1) + Self::monitor_dump(s[n - 1])
        }
    }

    /// A multi-line summary of the whole monitor set, for logs.
    pub fn debug_dump(&self) -> (r: String)
        requires
            self.wf(),
        ensures
            r@ == "Active monitor: "@ + crate::dispatch::dec_of(self.active_monitor_index as nat)
                + "\n"@ + Self::dump_upto(self.monitors@, self.monitors@.len() as int),
    {
        let mut s: String = "Active monitor: ".to_owned();
        s.append(crate::dispatch::dec_string(self.active_monitor_index as u32).as_str());
        s.append("\n");
        let ghost header = s@;
        let mut i: usize = 0;
        while i < self.monitors.len()
            invariant
                self.wf(),
                i <= self.monitors.len(),
                s@ == header + Self::dump_upto(self.monitors@, i as int),
            decreases self.monitors.len() - i,
        {
            let m = &self.monitors[i];
            s.append("Monitor ");
            s.append(crate::dispatch::dec_string(m.id as u32).as_str());
            s.append(",");
            s.append(m.name.as_str());
            s.append(":\n");
            s.append(m.state.debug_dump().as_str());
            proof {
                assert(s@ =~= header + Self::dump_upto(self.monitors@, i as int + 1));
            }
            i = i + 1;
        }
        s
    }

    /// The batch re-asserting every monitor's base workspace mapping, one
    /// line per monitor in order: workspace `i + 1` pinned to the monitor
    /// at position `i`, the same numbering the reveal commands use.
    pub open spec fn reset_lines(s: Seq<Monitor>) -> Seq<Seq<char>> {
        Seq::new(s.len(), |i: int| crate::dispatch::workspace_to_monitor_line(i, s[i].name@))
    }

    /// The commands re-asserting every monitor's base workspace mapping.
    pub fn reset_monitor_workspaces(&self) -> (r: Vec<String>)
        requires
            self.monitors.len() <= 255,
        ensures
            crate::dispatch::str_views(r@) == Self::reset_lines(self.monitors@),
    {
        let ghost lines = Self::reset_lines(self.monitors@);
        let mut args: Vec<String> = Vec::new();
        let mut i: usize = 0;
        while i < self.monitors.len()
            invariant
                self.monitors.len() <= 255,
                i <= self.monitors.len(),
                lines == Self::reset_lines(self.monitors@),
                crate::dispatch::str_views(args@) == lines.take(i as int),
            decreases self.monitors.len() - i,
        {
            let m = &self.monitors[i];
            let mut line: String = "dispatch moveworkspacetomonitor ".to_owned();
            line.append(crate::dispatch::dec_string(i as u32 + 1).as_str());
            line.append(" ");
            line.append(m.name.as_str());
            let ghost a0 = args@;
            proof {
                assert(line@ == lines[i as int]);
            }
            args.push(line);
            proof {
                assert(crate::dispatch::str_views(args@) =~= crate::dispatch::str_views(a0).push(
                    lines[i as int],
                ));
                assert(lines.take(i as int + 1) =~= lines.take(i as int).push(lines[i as int]));
            }
            i = i + 1;
        }
        proof {
            assert(lines.take(self.monitors@.len() as int) =~= lines);
        }
        args
    }

    /// Integrates a monitor discovered at runtime: appends it with a fresh
    /// tag state and returns the batch re-asserting every monitor's base
    /// workspace. Fails, changing nothing, when the name is already
    /// registered.
    pub fn monitor_added_with_object(&mut self, info: MonitorInfo) -> (r: Result<
        Vec<String>,
        Error,
    >)
        requires
            old(self).wf(),
            old(self).monitors.len() < 255,
        ensures
            final(self).wf(),
            final(self).active_monitor_index == old(self).active_monitor_index,
            old(self).has_name(info.name@) ==> r == Err::<Vec<String>, Error>(
                Error::AlreadyRegistered,
            ) && final(self).monitors@ == old(self).monitors@,
            !old(self).has_name(info.name@) ==> {
                &&& r is Ok
                &&& final(self).monitors@.len() == old(self).monitors@.len() + 1
                &&& forall|i: int|
                    0 <= i < old(self).monitors@.len() ==> #[trigger] final(self).monitors[i]
                        == old(self).monitors[i]
                &&& final(self).monitors[old(self).monitors@.len() as int].id == info.id
                &&& final(self).monitors[old(self).monitors@.len() as int].name@ == info.name@
                &&& final(self).monitors[old(self).monitors@.len() as int].state.fresh()
                &&& crate::dispatch::str_views(r->Ok_0@) == Self::reset_lines(
                    final(self).monitors@,
                )
            },
    {
        let n: String = info.name.clone();
        let mut i: usize = 0;
        while i < self.monitors.len()
            invariant
                self.wf(),
                self == old(self),
                n@ == info.name@,
                i <= self.monitors.len(),
                forall|j: int| 0 <= j < i ==> (#[trigger] self.monitors[j].name@) != info.name@,
            decreases self.monitors.len() - i,
        {
            if self.monitors[i].name == n {
                proof {
                    assert(self.has_name(info.name@));
                }
                return Err(Error::AlreadyRegistered);
            }
            i = i + 1;
        }
        let ghost pre = *self;
        self.monitors.push(Monitor { id: info.id, name: info.name, state: State::new() });
        proof {
            let len = pre.monitors@.len() as int;
            assert forall|i2: int| 0 <= i2 < self.monitors.len() implies (
            #[trigger] self.monitors[i2].state).wf() by {
                if i2 < len {
                    assert(self.monitors[i2] == pre.monitors[i2]);
                }
            }
            assert forall|i2: int, j2: int| 0 <= i2 < j2 < self.monitors.len() implies (
            #[trigger] self.monitors[i2].name@) != (#[trigger] self.monitors[j2].name@) by {
                if j2 < len {
                    assert(self.monitors[i2] == pre.monitors[i2]);
                    assert(self.monitors[j2] == pre.monitors[j2]);
                } else {
                    assert(self.monitors[i2] == pre.monitors[i2]);
                    assert(self.monitors[j2].name@ == info.name@);
                }
            }
            assert forall|i2: int, j2: int, a: Seq<char>|
                0 <= i2 < self.monitors.len() && 0 <= j2 < self.monitors.len() && i2 != j2 implies !((
            #[trigger] self.monitors[i2].state.tracked_addr(a)) && (
            #[trigger] self.monitors[j2].state.tracked_addr(a))) by {
                if i2 < len && j2 < len {
                    assert(self.monitors[i2] == pre.monitors[i2]);
                    assert(self.monitors[j2] == pre.monitors[j2]);
                } else if i2 == len {
                    assert(!self.monitors[i2].state.tracked_addr(a));
                } else {
                    assert(!self.monitors[j2].state.tracked_addr(a));
                }
            }
        }
        Ok(self.reset_monitor_workspaces())
    }

    /// Focuses the monitor with the given one-based number.
    pub fn focused_monitor_changed_by_num(&mut self, n: u8)
        requires
            old(self).wf(),
            1 <= n,
            n as int <= old(self).monitors.len(),
        ensures
            final(self).wf(),
            final(self).monitors@ == old(self).monitors@,
            final(self).active_monitor_index == n - 1,
    {
        let index = (n - 1) as usize;
        self.active_monitor_index = index;
    }
}

} // verus!
