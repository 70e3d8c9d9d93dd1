//! Per-monitor tag state machine.
//!
//! A [`State`] tracks 32 tags, a visibility mask over them, the previously
//! visible mask, the active tag and the active window. Mutating operations
//! return a [`Changes`] record: the differential update (windows to reveal,
//! windows to hide, an optional focus target) that the dispatch layer turns
//! into window-manager commands.

use vstd::prelude::*;
use vstd::string::StringExecFns;

use crate::bits::{bit_set, lowest_set, toggled};
use crate::bits::{lemma_bit_set_nonzero, lemma_lowest_set, lemma_mask_test, lemma_toggle_branches};
use crate::Error;

verus! {

/// A window address paired with the id of the tag that holds it.
///
/// Identity is the address alone; `tag` is carried as context for the
/// dispatcher.
#[derive(Debug)]
pub struct WindowInfo {
    pub addr: String,
    pub tag: u8,
}

/// The mathematical image of a [`WindowInfo`].
pub struct WinView {
    pub addr: Seq<char>,
    pub tag: u8,
}

impl View for WindowInfo {
    type V = WinView;

    open spec fn view(&self) -> WinView {
        WinView { addr: self.addr@, tag: self.tag }
    }
}

/// The views of a sequence of window records.
pub open spec fn views_of(v: Seq<WindowInfo>) -> Seq<WinView> {
    v.map_values(|w: WindowInfo| w@)
}

/// The view of an optional window address.
pub open spec fn opt_view(o: Option<String>) -> Option<Seq<char>> {
    match o {
        Some(s) => Some(s@),
        None => None,
    }
}

/// One of the 32 window groupings of a monitor.
#[derive(Debug)]
pub struct Tag {
    pub id: u8,
    pub window_addrs: Vec<String>,
}

impl Tag {
    fn new(id: u8) -> (r: Tag)
        ensures
            r.id == id,
            r.window_addrs@ == Seq::<String>::empty(),
    {
        Tag { id, window_addrs: Vec::new() }
    }
}

/// A differential update: windows that became visible, windows that became
/// hidden, and an optional window to focus.
#[derive(Debug)]
pub struct Changes {
    pub window_added: Vec<WindowInfo>,
    pub window_removed: Vec<WindowInfo>,
    pub focus: Option<String>,
}

/// The tag state of one monitor.
#[derive(Debug)]
pub struct State {
    pub tags: Vec<Tag>,
    pub visible_tags: u32,
    pub prev_tags: u32,
    pub active_tag_index: usize,
    pub active_window: Option<String>,
}

impl State {
    /// The addresses of tag index `t`, in insertion order.
    pub open spec fn tag_seq(self, t: int) -> Seq<Seq<char>> {
        self.tags[t].window_addrs@.map_values(|w: String| w@)
    }

    /// The windows of tag index `t`, each paired with the owning tag id.
    pub open spec fn tag_views(self, t: int) -> Seq<WinView> {
        self.tags[t].window_addrs@.map_values(|w: String| WinView { addr: w@, tag: (t + 1) as u8 })
    }

    /// Address `a` is tracked somewhere in this state.
    pub open spec fn tracked_addr(self, a: Seq<char>) -> bool {
        exists|t: int| 0 <= t < 32 && self.tag_seq(t).contains(a)
    }

    /// The index of the tag holding address `a` (meaningful only when tracked;
    /// unique under `windows_unique`).
    pub open spec fn tag_of(self, a: Seq<char>) -> int {
        choose|t: int| 0 <= t < 32 && self.tag_seq(t).contains(a)
    }

    /// The position of address `a` within tag `t` (meaningful only when
    /// present; unique under `windows_unique`).
    pub open spec fn pos_of(self, t: int, a: Seq<char>) -> int {
        choose|i: int| 0 <= i < self.tag_seq(t).len() && self.tag_seq(t)[i] == a
    }

    /// The visible windows contributed by tags `0..n`, in tag order and then
    /// insertion order.
    pub open spec fn visible_upto(self, n: int) -> Seq<WinView>
        decreases n,
    {
        if n <= 0 {
            Seq::empty()
        } else {
            self.visible_upto(n - 1) + if bit_set(self.visible_tags, n - 1) {
                self.tag_views(n - 1)
            } else {
                Seq::empty()
            }
        }
    }

    /// The snapshot of currently visible windows that differential updates
    /// are computed from.
    pub open spec fn visible_model(self) -> Seq<WinView> {
        self.visible_upto(32)
    }

    /// The addresses of tags `0..n`, visible or not.
    pub open spec fn all_upto(self, n: int) -> Seq<Seq<char>>
        decreases n,
    {
        if n <= 0 {
            Seq::empty()
        } else {
            self.all_upto(n - 1) + self.tag_seq(n - 1)
        }
    }

    /// Every tracked address, in tag order and then insertion order.
    pub open spec fn all_addrs(self) -> Seq<Seq<char>> {
        self.all_upto(32)
    }

    /// No address occurs at two distinct positions: every tracked window
    /// lives in exactly one tag, exactly once.
    pub open spec fn windows_unique(self) -> bool {
        forall|t1: int, i1: int, t2: int, i2: int|
            0 <= t1 < 32 && 0 <= i1 < self.tag_seq(t1).len() && 0 <= t2 < 32 && 0 <= i2
                < self.tag_seq(t2).len() && (t1 != t2 || i1 != i2) ==> #[trigger] self.tag_seq(
                t1,
            )[i1] != #[trigger] self.tag_seq(t2)[i2]
    }

    /// Structural shape: exactly 32 tags, with ids `1..=32` in order.
    pub open spec fn tags_wf(self) -> bool {
        &&& self.tags.len() == 32
        &&& forall|t: int| 0 <= t < 32 ==> (#[trigger] self.tags[t].id) == t + 1
    }

    /// Well-formedness: 32 tags with ids `1..=32`, non-empty visibility
    /// masks, an active tag that is visible, unique windows, and an active
    /// window that is tracked.
    pub open spec fn wf(self) -> bool {
        &&& self.tags_wf()
        &&& self.visible_tags != 0
        &&& self.prev_tags != 0
        &&& self.active_tag_index < 32
        &&& bit_set(self.visible_tags, self.active_tag_index as int)
        &&& self.windows_unique()
        &&& match self.active_window {
            Some(w) => self.tracked_addr(w@),
            None => true,
        }
    }

    /// The state a monitor starts in: all tags empty, only tag 1 visible,
    /// tag 1 active, no active window.
    pub open spec fn fresh(self) -> bool {
        &&& self.visible_tags == 1u32
        &&& self.prev_tags == 1u32
        &&& self.active_tag_index == 0
        &&& self.active_window is None
        &&& forall|t: int| 0 <= t < 32 ==> #[trigger] self.tag_seq(t) == Seq::<Seq<char>>::empty()
    }

    /// A fresh state: all tags empty, tag 1 visible and active, no active
    /// window.
    pub fn new() -> (r: State)
        ensures
            r.wf(),
            r.fresh(),
            forall|a: Seq<char>| !(#[trigger] r.tracked_addr(a)),
    {
        let mut tags: Vec<Tag> = Vec::new();
        let mut n: u8 = 1;
        while n <= 32
            invariant
                1 <= n <= 33,
                tags.len() == n - 1,
                forall|t: int| 0 <= t < n - 1 ==> (#[trigger] tags[t].id) == t + 1,
                forall|t: int|
                    0 <= t < n - 1 ==> (#[trigger] tags[t].window_addrs@) == Seq::<String>::empty(),
            decreases 33 - n,
        {
            tags.push(Tag::new(n));
            n = n + 1;
        }
        let r = State {
            tags,
            visible_tags: 1,
            prev_tags: 1,
            active_tag_index: 0,
            active_window: None,
        };
        proof {
            assert((1u32 >> 0u32) & 1u32 == 1u32) by (bit_vector);
            assert forall|t: int| 0 <= t < 32 implies #[trigger] r.tag_seq(t) == Seq::<
                Seq<char>,
            >::empty() by {
                assert(r.tag_seq(t) =~= Seq::<Seq<char>>::empty());
            }
            assert forall|a: Seq<char>| !(#[trigger] r.tracked_addr(a)) by {
                if r.tracked_addr(a) {
                    let t = choose|t: int| 0 <= t < 32 && r.tag_seq(t).contains(a);
                    assert(false);
                }
            }
        }
        r
    }

    /// The current visibility mask.
    pub fn visible_tags(&self) -> (r: u32)
        ensures
            r == self.visible_tags,
    {
        self.visible_tags
    }

    /// The index of the active tag.
    pub fn active_tag_index(&self) -> (r: usize)
        ensures
            r == self.active_tag_index,
    {
        self.active_tag_index
    }

    /// A copy of the active window address, if any.
    pub fn active_window(&self) -> (r: Option<String>)
        ensures
            r == self.active_window,
    {
        clone_opt(&self.active_window)
    }
}

impl State {
    /// The one-line summary `debug_dump` produces.
    pub open spec fn dump_spec(self) -> Seq<char> {
        "  visible: "@ + crate::dispatch::dec_of(self.visible_tags as nat) + " prev: "@
            + crate::dispatch::dec_of(self.prev_tags as nat) + " active_tag: "@
            + crate::dispatch::dec_of(self.active_tag_index as nat) + "\n"@
    }

    /// A one-line summary of the visibility bookkeeping, for logs.
    pub fn debug_dump(&self) -> (r: String)
        requires
            self.active_tag_index < 32,
        ensures
            r@ == self.dump_spec(),
    {
        let mut line: String = "  visible: ".to_owned();
        line.append(crate::dispatch::dec_string(self.visible_tags).as_str());
        line.append(" prev: ");
        line.append(crate::dispatch::dec_string(self.prev_tags).as_str());
        line.append(" active_tag: ");
        line.append(crate::dispatch::dec_string(self.active_tag_index as u32).as_str());
        line.append("\n");
        line
    }

    /// Finds the tag holding `addr` together with the window's position in
    /// it, scanning tags and windows in order.
    pub fn find_window_indexes(&self, addr: &str) -> (r: Option<(usize, usize)>)
        requires
            self.tags.len() == 32,
        ensures
            match r {
                Some(ix) => {
                    &&& ix.0 < 32
                    &&& ix.1 < self.tag_seq(ix.0 as int).len()
                    &&& self.tag_seq(ix.0 as int)[ix.1 as int] == addr@
                    &&& forall|t2: int| 0 <= t2 < ix.0 ==> !self.tag_seq(t2).contains(addr@)
                    &&& forall|i2: int|
                        0 <= i2 < ix.1 ==> self.tag_seq(ix.0 as int)[i2] != addr@
                },
                None => !self.tracked_addr(addr@),
            },
    {
        let a: String = addr.to_owned();
        let mut t: usize = 0;
        while t < 32
            invariant
                self.tags.len() == 32,
                t <= 32,
                a@ == addr@,
                forall|t2: int| 0 <= t2 < t ==> !(#[trigger] self.tag_seq(t2)).contains(addr@),
            decreases 32 - t,
        {
            match find_str_pos(&self.tags[t].window_addrs, &a) {
                Some(i) => {
                    proof {
                        assert(self.tag_seq(t as int)[i as int] == addr@);
                    }
                    return Some((t, i));
                },
                None => {
                    proof {
                        assert forall|i2: int|
                            0 <= i2 < self.tag_seq(t as int).len() implies self.tag_seq(t as int)[i2]
                            != addr@ by {}
                        assert(!self.tag_seq(t as int).contains(addr@));
                    }
                },
            }
            t = t + 1;
        }
        None
    }

    /// Finds the index of the tag holding `addr`, if any.
    pub fn find_window_tag_index(&self, addr: &str) -> (r: Option<usize>)
        requires
            self.tags.len() == 32,
        ensures
            match r {
                Some(t) => {
                    &&& t < 32
                    &&& self.tag_seq(t as int).contains(addr@)
                    &&& forall|t2: int| 0 <= t2 < t ==> !self.tag_seq(t2).contains(addr@)
                },
                None => !self.tracked_addr(addr@),
            },
    {
        match self.find_window_indexes(addr) {
            Some(ix) => {
                proof {
                    assert(self.tag_seq(ix.0 as int).contains(addr@));
                }
                Some(ix.0)
            },
            None => None,
        }
    }

    /// The currently visible windows, in tag order and then insertion order,
    /// each annotated with its owning tag id.
    pub fn visible_windows(&self) -> (r: Vec<WindowInfo>)
        requires
            self.tags_wf(),
        ensures
            views_of(r@) == self.visible_model(),
    {
        let mut windows: Vec<WindowInfo> = Vec::new();
        let mut n: usize = 0;
        while n < 32
            invariant
                self.tags_wf(),
                n <= 32,
                views_of(windows@) == self.visible_upto(n as int),
            decreases 32 - n,
        {
            proof {
                lemma_mask_test(self.visible_tags, n as u32);
            }
            if self.visible_tags & (1u32 << (n as u32)) != 0 {
                let tag = &self.tags[n];
                let mut i: usize = 0;
                while i < tag.window_addrs.len()
                    invariant
                        self.tags_wf(),
                        n < 32,
                        *tag == self.tags[n as int],
                        i <= tag.window_addrs.len(),
                        bit_set(self.visible_tags, n as int),
                        views_of(windows@) == self.visible_upto(n as int) + self.tag_views(
                            n as int,
                        ).take(i as int),
                    decreases tag.window_addrs.len() - i,
                {
                    let ghost ws0 = windows@;
                    let wi = WindowInfo { addr: tag.window_addrs[i].clone(), tag: tag.id };
                    proof {
                        let ghost gwi = wi;
                        assert(gwi@ == self.tag_views(n as int)[i as int]);
                    }
                    windows.push(wi);
                    proof {
                        assert(views_of(windows@) =~= views_of(ws0).push(
                            self.tag_views(n as int)[i as int],
                        ));
                        assert(self.tag_views(n as int).take(i as int + 1) =~= self.tag_views(
                            n as int,
                        ).take(i as int).push(self.tag_views(n as int)[i as int]));
                        assert(views_of(windows@) =~= self.visible_upto(n as int) + self.tag_views(
                            n as int,
                        ).take(i as int + 1));
                    }
                    i = i + 1;
                }
                proof {
                    assert(self.tag_views(n as int).take(tag.window_addrs.len() as int)
                        =~= self.tag_views(n as int));
                    assert(views_of(windows@) =~= self.visible_upto(n as int + 1));
                }
            } else {
                proof {
                    assert(views_of(windows@) =~= self.visible_upto(n as int + 1));
                }
            }
            n = n + 1;
        }
        windows
    }

    /// Every tracked address, in tag order and then insertion order.
    pub fn all_window_addrs(&self) -> (r: Vec<String>)
        requires
            self.tags.len() == 32,
        ensures
            r@.map_values(|w: String| w@) == self.all_addrs(),
    {
        let mut out: Vec<String> = Vec::new();
        let mut n: usize = 0;
        while n < 32
            invariant
                self.tags.len() == 32,
                n <= 32,
                out@.map_values(|w: String| w@) == self.all_upto(n as int),
            decreases 32 - n,
        {
            let tag = &self.tags[n];
            let mut i: usize = 0;
            while i < tag.window_addrs.len()
                invariant
                    self.tags.len() == 32,
                    n < 32,
                    *tag == self.tags[n as int],
                    i <= tag.window_addrs.len(),
                    out@.map_values(|w: String| w@) == self.all_upto(n as int) + self.tag_seq(
                        n as int,
                    ).take(i as int),
                decreases tag.window_addrs.len() - i,
            {
                let ghost os0 = out@;
                out.push(tag.window_addrs[i].clone());
                proof {
                    assert(out@.map_values(|w: String| w@) =~= os0.map_values(
                        |w: String| w@,
                    ).push(self.tag_seq(n as int)[i as int]));
                    assert(self.tag_seq(n as int).take(i as int + 1) =~= self.tag_seq(
                        n as int,
                    ).take(i as int).push(self.tag_seq(n as int)[i as int]));
                    assert(out@.map_values(|w: String| w@) =~= self.all_upto(n as int)
                        + self.tag_seq(n as int).take(i as int + 1));
                }
                i = i + 1;
            }
            proof {
                assert(self.tag_seq(n as int).take(tag.window_addrs.len() as int) =~= self.tag_seq(
                    n as int,
                ));
                assert(out@.map_values(|w: String| w@) =~= self.all_upto(n as int + 1));
            }
            n = n + 1;
        }
        out
    }
}

impl State {
    /// What adding window `w` guarantees: `w` appended to the active tag,
    /// every other tag and all visibility bookkeeping untouched.
    pub open spec fn added_post(pre: State, post: State, w: Seq<char>) -> bool {
        &&& post.tags.len() == 32
        &&& post.tag_seq(pre.active_tag_index as int) == pre.tag_seq(
            pre.active_tag_index as int,
        ).push(w)
        &&& forall|t: int|
            0 <= t < 32 && t != pre.active_tag_index ==> #[trigger] post.tag_seq(t)
                == pre.tag_seq(t)
        &&& post.visible_tags == pre.visible_tags
        &&& post.prev_tags == pre.prev_tags
        &&& post.active_tag_index == pre.active_tag_index
    }

    /// What removing window `w` guarantees: `w` deleted from the tag that
    /// held it, the active window cleared if it was `w`, everything else
    /// untouched.
    pub open spec fn removed_post(pre: State, post: State, w: Seq<char>) -> bool {
        let src = pre.tag_of(w);
        &&& post.tags.len() == 32
        &&& post.tag_seq(src) == pre.tag_seq(src).remove(pre.pos_of(src, w))
        &&& forall|t: int| 0 <= t < 32 && t != src ==> #[trigger] post.tag_seq(t) == pre.tag_seq(t)
        &&& post.visible_tags == pre.visible_tags
        &&& post.prev_tags == pre.prev_tags
        &&& post.active_tag_index == pre.active_tag_index
        &&& post.active_window == (if opt_view(pre.active_window) == Some(w) {
            None::<String>
        } else {
            pre.active_window
        })
    }

    /// The first window of the lowest-indexed tag that is visible under
    /// `mask` and non-empty, scanning from tag index `t` upward.
    pub open spec fn first_visible_from(self, mask: u32, t: int) -> Option<Seq<char>>
        decreases 32 - t,
    {
        if t < 0 || t >= 32 {
            None
        } else if bit_set(mask, t) && self.tag_seq(t).len() > 0 {
            Some(self.tag_seq(t)[0])
        } else {
            self.first_visible_from(mask, t + 1)
        }
    }

    /// The focus fallback of `set_visible_tags`: the first window of the
    /// lowest visible non-empty tag, if any.
    pub open spec fn first_visible_window(self, mask: u32) -> Option<Seq<char>> {
        self.first_visible_from(mask, 0)
    }

    /// The active window exists and sits on a tag that stays visible under
    /// `mask`.
    pub open spec fn active_keeps_focus(self, mask: u32) -> bool {
        match self.active_window {
            Some(w) => self.tracked_addr(w@) && bit_set(mask, self.tag_of(w@)),
            None => false,
        }
    }

    /// How the state changes under a successful `set_visible_tags(mask)`:
    /// the mask is replaced and the old one remembered, no window moves, and
    /// the active tag follows the active window when it stays visible, else
    /// falls to the lowest visible tag.
    pub open spec fn set_state_post(pre: State, post: State, mask: u32) -> bool {
        &&& post.tags@ == pre.tags@
        &&& post.visible_tags == mask
        &&& post.prev_tags == pre.visible_tags
        &&& if pre.active_keeps_focus(mask) {
            &&& post.active_tag_index == pre.tag_of(pre.active_window->0@)
            &&& post.active_window == pre.active_window
        } else {
            &&& post.active_tag_index == lowest_set(mask)
            &&& post.active_window is None
        }
    }

    /// The focus a successful `set_visible_tags(mask)` reports: the active
    /// window when it stays visible, otherwise the first window of the
    /// lowest visible non-empty tag.
    pub open spec fn set_focus_spec(pre: State, mask: u32) -> Option<Seq<char>> {
        if pre.active_keeps_focus(mask) {
            opt_view(pre.active_window)
        } else {
            pre.first_visible_window(mask)
        }
    }

    /// What a successful `set_visible_tags(mask)` guarantees: the state
    /// transition, and a returned update holding the difference between the
    /// two visible snapshots and the reported focus.
    pub open spec fn set_visible_post(pre: State, post: State, mask: u32, c: Changes) -> bool {
        &&& Self::set_state_post(pre, post, mask)
        &&& views_of(c.window_added@) == diff_of(post.visible_model(), pre.visible_model())
        &&& views_of(c.window_removed@) == diff_of(pre.visible_model(), post.visible_model())
        &&& opt_view(c.focus) == Self::set_focus_spec(pre, mask)
        &&& pre.active_keeps_focus(mask) ==> c.focus == pre.active_window
    }

    /// Replaces the visibility mask, remembering the old one, and reports
    /// which windows to reveal and hide and where focus lands. Fails,
    /// changing nothing, when the mask would leave no tag visible.
    pub fn set_visible_tags(&mut self, tags: u32) -> (r: Result<Changes, Error>)
        requires
            old(self).wf(),
        ensures
            final(self).wf(),
            tags == 0 ==> r == Err::<Changes, Error>(Error::MaskEmpty) && *final(self) == *old(
                self,
            ),
            tags != 0 ==> r is Ok && State::set_visible_post(
                *old(self),
                *final(self),
                tags,
                r->Ok_0,
            ),
    {
        if tags == 0 {
            return Err(Error::MaskEmpty);
        }
        let ghost pre = *old(self);
        let w1 = self.visible_windows();
        self.prev_tags = self.visible_tags;
        self.visible_tags = tags;

        let mut first_window: Option<String> = None;
        let mut first_tag_index: Option<usize> = None;
        let mut n: usize = 0;
        while n < 32
            invariant
                self.tags_wf(),
                n <= 32,
                first_tag_index is None ==> forall|t: int| 0 <= t < n ==> !bit_set(tags, t),
                first_tag_index is Some ==> first_tag_index->0 == lowest_set(tags)
                    && first_tag_index->0 < 32,
                first_window is None ==> self.first_visible_from(tags, 0)
                    == self.first_visible_from(tags, n as int),
                first_window is Some ==> self.first_visible_from(tags, 0) == Some(
                    first_window->0@,
                ),
            decreases 32 - n,
        {
            proof {
                lemma_mask_test(tags, n as u32);
            }
            if tags & (1u32 << (n as u32)) != 0 {
                if first_window.is_none() && self.tags[n].window_addrs.len() > 0 {
                    first_window = Some(self.tags[n].window_addrs[0].clone());
                } else {
                    proof {
                        if first_window is None {
                            assert(self.tag_seq(n as int).len() == 0);
                            assert(self.first_visible_from(tags, n as int)
                                == self.first_visible_from(tags, n as int + 1));
                        }
                    }
                }
                if first_tag_index.is_none() {
                    first_tag_index = Some(n);
                    proof {
                        lemma_bit_set_nonzero(tags, n as u32);
                        lemma_lowest_set(tags);
                        if lowest_set(tags) < n {
                            assert(!bit_set(tags, lowest_set(tags)));
                            assert(false);
                        }
                        if lowest_set(tags) > n {
                            assert(!bit_set(tags, n as int));
                            assert(false);
                        }
                    }
                }
            } else {
                proof {
                    if first_window is None {
                        assert(self.first_visible_from(tags, n as int) == self.first_visible_from(
                            tags,
                            n as int + 1,
                        ));
                    }
                }
            }
            n = n + 1;
        }

        let w2 = self.visible_windows();
        let ghost s1 = *self;
        let (window_added, window_removed) = window_diff(w1, w2);

        let aw = clone_opt(&self.active_window);
        let active_idx = match &aw {
            Some(w) => self.find_window_tag_index(w.as_str()),
            None => None,
        };

        let keep: bool;
        let mut keep_idx: usize = 0;
        match active_idx {
            Some(t) => {
                proof {
                    lemma_mask_test(tags, t as u32);
                }
                keep = tags & (1u32 << (t as u32)) != 0;
                keep_idx = t;
            },
            None => {
                keep = false;
            },
        }

        proof {
            lemma_tags_congruence(s1, pre);
            if pre.active_window is Some {
                assert(pre.tracked_addr(pre.active_window->0@));
                assert(s1.tracked_addr(pre.active_window->0@));
                assert(active_idx is Some);
                let t = active_idx->0 as int;
                assert(s1.tag_seq(t).contains(pre.active_window->0@));
                pre.lemma_tag_of(pre.active_window->0@, t);
                assert(keep == pre.active_keeps_focus(tags));
            } else {
                assert(!pre.active_keeps_focus(tags));
            }
        }

        let focus: Option<String>;
        if keep {
            self.active_tag_index = keep_idx;
            focus = clone_opt(&self.active_window);
        } else {
            proof {
                if first_tag_index is None {
                    lemma_lowest_set(tags);
                    assert(!bit_set(tags, lowest_set(tags)));
                    assert(false);
                }
            }
            self.active_tag_index = first_tag_index.unwrap();
            self.active_window = None;
            focus = first_window;
        }

        proof {
            Self::lemma_visible_congruence(*self, s1, 32);
            lemma_tags_congruence(*self, pre);
            if !keep {
                Self::lemma_first_visible_congruence(s1, pre, tags, 0);
            }
        }
        Ok(Changes { window_added, window_removed, focus })
    }

    /// `first_visible_from` depends only on the tags vector and the mask.
    proof fn lemma_first_visible_congruence(s1: State, s2: State, mask: u32, t: int)
        requires
            s1.tags@ == s2.tags@,
        ensures
            s1.first_visible_from(mask, t) == s2.first_visible_from(mask, t),
        decreases 32 - t,
    {
        if 0 <= t < 32 {
            assert(s1.tags@[t] == s2.tags@[t]);
            Self::lemma_first_visible_congruence(s1, s2, mask, t + 1);
        }
    }

    /// Restores the previously visible mask. Because the replaced mask is
    /// remembered in turn, a second consecutive restore returns to the
    /// original mask. Never fails.
    pub fn restore_prev_tags(&mut self) -> (r: Result<Changes, Error>)
        requires
            old(self).wf(),
        ensures
            final(self).wf(),
            r is Ok,
            State::set_visible_post(*old(self), *final(self), old(self).prev_tags, r->Ok_0),
    {
        let prev = self.prev_tags;
        self.set_visible_tags(prev)
    }

    /// Flips the visibility of one tag and delegates to `set_visible_tags`;
    /// the zero-mask check there is the only guard against hiding the last
    /// visible tag.
    pub fn toggle_tag(&mut self, tag: u8) -> (r: Result<Changes, Error>)
        requires
            old(self).wf(),
        ensures
            final(self).wf(),
            !(1 <= tag <= 32) ==> r == Err::<Changes, Error>(Error::TagOutOfRange) && *final(self)
                == *old(self),
            1 <= tag <= 32 ==> {
                let mask = toggled(old(self).visible_tags, tag - 1);
                &&& (mask == 0 ==> r == Err::<Changes, Error>(Error::MaskEmpty) && *final(self)
                    == *old(self))
                &&& (mask != 0 ==> r is Ok && State::set_visible_post(
                    *old(self),
                    *final(self),
                    mask,
                    r->Ok_0,
                ))
            },
    {
        if tag < 1 || tag > 32 {
            return Err(Error::TagOutOfRange);
        }
        let tag_index: u32 = (tag - 1) as u32;

        let tags_mask = if self.visible_tags & (1u32 << tag_index) != 0 {
            self.visible_tags & !(1u32 << tag_index)
        } else {
            self.visible_tags | (1u32 << tag_index)
        };
        proof {
            lemma_mask_test(self.visible_tags, tag_index);
            lemma_toggle_branches(self.visible_tags, tag_index);
        }
        self.set_visible_tags(tags_mask)
    }

    /// The window an operation acts on: the given one, or else the active
    /// window.
    pub open spec fn effective_window(self, window: Option<String>) -> Option<Seq<char>> {
        if window is Some {
            opt_view(window)
        } else {
            opt_view(self.active_window)
        }
    }

    /// The error a `move_window(dest_tag, window)` reports, if any: an
    /// out-of-range tag, no effective window, an unknown window, or a window
    /// already on the destination tag.
    pub open spec fn move_window_err(self, dest_tag: u8, window: Option<String>) -> Option<Error> {
        if !(1 <= dest_tag <= 32) {
            Some(Error::TagOutOfRange)
        } else {
            match self.effective_window(window) {
                None => Some(Error::NoActiveWindow),
                Some(w) => if !self.tracked_addr(w) {
                    Some(Error::UnknownWindow)
                } else if self.tag_of(w) == dest_tag - 1 {
                    Some(Error::SameTag)
                } else {
                    None
                },
            }
        }
    }

    /// How the state changes under a successful `move_window`: the window
    /// leaves its tag and is appended to the destination tag; the
    /// visibility bookkeeping and the active window stay.
    pub open spec fn move_state_post(pre: State, post: State, dest_tag: u8, w: Seq<char>) -> bool {
        let src = pre.tag_of(w);
        let dst = dest_tag - 1;
        &&& post.tags.len() == 32
        &&& post.tag_seq(dst) == pre.tag_seq(dst).push(w)
        &&& post.tag_seq(src) == pre.tag_seq(src).remove(pre.pos_of(src, w))
        &&& forall|t: int|
            0 <= t < 32 && t != dst && t != src ==> #[trigger] post.tag_seq(t) == pre.tag_seq(t)
        &&& post.visible_tags == pre.visible_tags
        &&& post.prev_tags == pre.prev_tags
        &&& post.active_tag_index == pre.active_tag_index
        &&& post.active_window == pre.active_window
    }

    /// What a successful `move_window` guarantees: the state transition, a
    /// returned update holding the difference between the two visible
    /// snapshots, and no focus change.
    pub open spec fn move_post(pre: State, post: State, dest_tag: u8, w: Seq<char>, c: Changes) -> bool {
        &&& Self::move_state_post(pre, post, dest_tag, w)
        &&& views_of(c.window_added@) == diff_of(post.visible_model(), pre.visible_model())
        &&& views_of(c.window_removed@) == diff_of(pre.visible_model(), post.visible_model())
        &&& c.focus is None
    }

    /// Moves `window` (or the active window) to tag `dest_tag` and reports
    /// which windows to reveal and hide; the active window does not re-focus
    /// on a move.
    pub fn move_window(&mut self, dest_tag: u8, window: Option<String>) -> (r: Result<
        Changes,
        Error,
    >)
        requires
            old(self).wf(),
        ensures
            final(self).wf(),
            match old(self).move_window_err(dest_tag, window) {
                Some(e) => r == Err::<Changes, Error>(e) && *final(self) == *old(self),
                None => r is Ok && State::move_post(
                    *old(self),
                    *final(self),
                    dest_tag,
                    old(self).effective_window(window)->0,
                    r->Ok_0,
                ),
            },
            forall|a: Seq<char>|
                #[trigger] final(self).tracked_addr(a) <==> old(self).tracked_addr(a),
    {
        if dest_tag < 1 || dest_tag > 32 {
            return Err(Error::TagOutOfRange);
        }
        let dest_tag_index = (dest_tag - 1) as usize;
        let win = match window {
            Some(w) => Some(w),
            None => clone_opt(&self.active_window),
        };
        let win = match win {
            Some(w) => w,
            None => {
                return Err(Error::NoActiveWindow);
            },
        };
        let (tag_index, window_index) = match self.find_window_indexes(win.as_str()) {
            Some(indexes) => indexes,
            None => {
                return Err(Error::UnknownWindow);
            },
        };
        proof {
            old(self).lemma_tag_of(win@, tag_index as int);
            old(self).lemma_pos_of(tag_index as int, win@, window_index as int);
        }
        if dest_tag_index == tag_index {
            return Err(Error::SameTag);
        }

        let w1 = self.visible_windows();
        let ghost pre = *self;

        // take the window out of its tag, then append it to the destination
        let tag = &mut self.tags[tag_index];
        let moved = tag.window_addrs.remove(window_index);
        let ghost mid = *self;
        proof {
            pre.tag_seq(tag_index as int).remove_ensures(window_index as int);
            pre.tags[tag_index as int].window_addrs@.remove_ensures(window_index as int);
            assert(mid.tag_seq(tag_index as int) =~= pre.tag_seq(tag_index as int).remove(
                window_index as int,
            ));
            assert forall|t: int| 0 <= t < 32 && t != tag_index implies #[trigger] mid.tag_seq(t)
                == pre.tag_seq(t) by {
                assert(mid.tags[t] == pre.tags[t]);
            }
            lemma_remove_preserves(pre, mid, tag_index as int, window_index as int);
        }
        let tag2 = &mut self.tags[dest_tag_index];
        tag2.window_addrs.push(moved);
        proof {
            assert(self.tag_seq(dest_tag_index as int) =~= mid.tag_seq(
                dest_tag_index as int,
            ).push(win@));
            assert forall|t: int| 0 <= t < 32 && t != dest_tag_index implies #[trigger] self.tag_seq(
                t,
            ) == mid.tag_seq(t) by {
                assert(self.tags[t] == mid.tags[t]);
            }
            lemma_push_preserves(mid, *self, dest_tag_index as int, win@);
        }

        let w2 = self.visible_windows();
        let ghost s2 = *self;
        let (window_added, window_removed) = window_diff(w1, w2);
        proof {
            match pre.active_window {
                Some(a) => {
                    assert(pre.tracked_addr(a@));
                    if a@ == win@ {
                        assert(s2.tracked_addr(a@));
                    } else {
                        assert(mid.tracked_addr(a@));
                        assert(s2.tracked_addr(a@));
                    }
                },
                None => {},
            }
        }
        Ok(Changes { window_added, window_removed, focus: None })
    }

    /// Records `addr` on the active tag. Fails, changing nothing, when the
    /// address is already tracked; the host window manager is already
    /// displaying the window, so no differential update is produced.
    pub fn new_window_added(&mut self, window: String) -> (r: Result<(), Error>)
        requires
            old(self).wf(),
        ensures
            final(self).wf(),
            old(self).tracked_addr(window@) ==> r == Err::<(), Error>(Error::AlreadyTracked)
                && *final(self) == *old(self),
            !old(self).tracked_addr(window@) ==> r == Ok::<(), Error>(()) && State::added_post(
                *old(self),
                *final(self),
                window@,
            ) && final(self).active_window == old(self).active_window,
            forall|a: Seq<char>|
                #[trigger] final(self).tracked_addr(a) <==> (old(self).tracked_addr(a) || (r is Ok
                    && a == window@)),
    {
        match self.find_window_tag_index(window.as_str()) {
            Some(_) => Err(Error::AlreadyTracked),
            None => {
                let ghost pre = *self;
                let idx = self.active_tag_index;
                let tag = &mut self.tags[idx];
                tag.window_addrs.push(window);
                proof {
                    assert(self.tag_seq(idx as int) =~= pre.tag_seq(idx as int).push(window@));
                    assert forall|t: int| 0 <= t < 32 && t != idx implies #[trigger] self.tag_seq(t)
                        == pre.tag_seq(t) by {
                        assert(self.tags[t] == pre.tags[t]);
                    }
                    lemma_push_preserves(pre, *self, idx as int, window@);
                }
                Ok(())
            },
        }
    }

    /// Forgets `addr`, wherever it is tracked. Fails, changing nothing, when
    /// the address is unknown. No differential update is produced.
    pub fn window_removed(&mut self, window: String) -> (r: Result<(), Error>)
        requires
            old(self).wf(),
        ensures
            final(self).wf(),
            !old(self).tracked_addr(window@) ==> r == Err::<(), Error>(Error::UnknownWindow)
                && *final(self) == *old(self),
            old(self).tracked_addr(window@) ==> r == Ok::<(), Error>(()) && State::removed_post(
                *old(self),
                *final(self),
                window@,
            ),
            forall|a: Seq<char>|
                #[trigger] final(self).tracked_addr(a) <==> (old(self).tracked_addr(a) && !(r is Ok
                    && a == window@)),
    {
        let (tag_index, window_index) = match self.find_window_indexes(window.as_str()) {
            Some(indexes) => indexes,
            None => {
                return Err(Error::UnknownWindow);
            },
        };
        let ghost pre = *self;
        proof {
            pre.lemma_tag_of(window@, tag_index as int);
            pre.lemma_pos_of(tag_index as int, window@, window_index as int);
        }
        let tag = &mut self.tags[tag_index];
        let _removed = tag.window_addrs.remove(window_index);
        let clear = match &self.active_window {
            Some(a) => *a == window,
            None => false,
        };
        if clear {
            self.active_window = None;
        }
        proof {
            pre.tag_seq(tag_index as int).remove_ensures(window_index as int);
            pre.tags[tag_index as int].window_addrs@.remove_ensures(window_index as int);
            assert(self.tag_seq(tag_index as int) =~= pre.tag_seq(tag_index as int).remove(
                window_index as int,
            ));
            assert forall|t: int| 0 <= t < 32 && t != tag_index implies #[trigger] self.tag_seq(t)
                == pre.tag_seq(t) by {
                assert(self.tags[t] == pre.tags[t]);
            }
            lemma_remove_preserves(pre, *self, tag_index as int, window_index as int);
        }
        Ok(())
    }

    /// Records `addr` as the active window; an unknown address is first
    /// added to the active tag. Never fails.
    pub fn focus_window_changed(&mut self, window: String) -> (r: Result<(), Error>)
        requires
            old(self).wf(),
        ensures
            final(self).wf(),
            r == Ok::<(), Error>(()),
            final(self).active_window == Some(window),
            old(self).tracked_addr(window@) ==> final(self).tags@ == old(self).tags@
                && final(self).visible_tags == old(self).visible_tags && final(self).prev_tags
                == old(self).prev_tags && final(self).active_tag_index == old(
                self,
            ).active_tag_index,
            !old(self).tracked_addr(window@) ==> State::added_post(
                *old(self),
                *final(self),
                window@,
            ),
            forall|a: Seq<char>|
                #[trigger] final(self).tracked_addr(a) <==> (old(self).tracked_addr(a) || a
                    == window@),
    {
        let tag_index = self.find_window_tag_index(window.as_str());
        if tag_index.is_none() {
            let _ = self.new_window_added(window.clone());
        }
        let ghost mid = *self;
        self.active_window = Some(window);
        proof {
            lemma_tags_congruence(*self, mid);
            if old(self).tracked_addr(window@) {
                lemma_tags_congruence(*self, *old(self));
            } else {
                assert(self.tag_seq(old(self).active_tag_index as int).contains(window@)) by {
                    let s = self.tag_seq(old(self).active_tag_index as int);
                    assert(s[s.len() - 1] == window@);
                }
            }
        }
        Ok(())
    }
}

/// Finds the position of `addr` in `v`, scanning in order.
fn find_str_pos(v: &Vec<String>, addr: &String) -> (r: Option<usize>)
    ensures
        match r {
            Some(i) => {
                &&& i < v@.len()
                &&& v@[i as int]@ == addr@
                &&& forall|j: int| 0 <= j < i ==> v@[j]@ != addr@
            },
            None => forall|j: int| 0 <= j < v@.len() ==> v@[j]@ != addr@,
        },
{
    let mut i: usize = 0;
    while i < v.len()
        invariant
            i <= v.len(),
            forall|j: int| 0 <= j < i ==> v@[j]@ != addr@,
        decreases v.len() - i,
    {
        if v[i] == *addr {
            return Some(i);
        }
        i = i + 1;
    }
    None
}

impl State {
    /// Under uniqueness, an address is held by at most one tag.
    pub proof fn lemma_tag_unique(self, a: Seq<char>, t1: int, t2: int)
        requires
            self.windows_unique(),
            0 <= t1 < 32,
            0 <= t2 < 32,
            self.tag_seq(t1).contains(a),
            self.tag_seq(t2).contains(a),
        ensures
            t1 == t2,
    {
        let i1 = choose|i: int| 0 <= i < self.tag_seq(t1).len() && self.tag_seq(t1)[i] == a;
        let i2 = choose|i: int| 0 <= i < self.tag_seq(t2).len() && self.tag_seq(t2)[i] == a;
        if t1 != t2 {
            assert(self.tag_seq(t1)[i1] != self.tag_seq(t2)[i2]);
            assert(false);
        }
    }

    /// Under uniqueness, `tag_of` names the tag that holds the address.
    pub proof fn lemma_tag_of(self, a: Seq<char>, t: int)
        requires
            self.windows_unique(),
            0 <= t < 32,
            self.tag_seq(t).contains(a),
        ensures
            self.tag_of(a) == t,
            self.tracked_addr(a),
    {
        self.lemma_tag_unique(a, t, self.tag_of(a));
    }

    /// Under uniqueness, `pos_of` names the position of the address in its tag.
    pub proof fn lemma_pos_of(self, t: int, a: Seq<char>, i: int)
        requires
            self.windows_unique(),
            0 <= t < 32,
            0 <= i < self.tag_seq(t).len(),
            self.tag_seq(t)[i] == a,
        ensures
            self.pos_of(t, a) == i,
    {
        assert(self.tag_seq(t).contains(a));
        let j = self.pos_of(t, a);
        if j != i {
            assert(self.tag_seq(t)[i] != self.tag_seq(t)[j]);
            assert(false);
        }
    }

    /// The visible snapshot depends only on the tags and the visibility mask.
    pub proof fn lemma_visible_congruence(s1: State, s2: State, n: int)
        requires
            s1.tags@ == s2.tags@,
            s1.visible_tags == s2.visible_tags,
        ensures
            s1.visible_upto(n) == s2.visible_upto(n),
        decreases n,
    {
        if n > 0 {
            Self::lemma_visible_congruence(s1, s2, n - 1);
            assert(s1.tags[n - 1] == s2.tags[n - 1]);
        }
    }
}

/// Tag contents, uniqueness and tracking depend only on the tags vector.
pub proof fn lemma_tags_congruence(s1: State, s2: State)
    requires
        s1.tags@ == s2.tags@,
    ensures
        forall|t: int| #[trigger] s1.tag_seq(t) == s2.tag_seq(t),
        s1.windows_unique() == s2.windows_unique(),
        forall|a: Seq<char>| #[trigger] s1.tracked_addr(a) == s2.tracked_addr(a),
{
    assert forall|t: int| #[trigger] s1.tag_seq(t) == s2.tag_seq(t) by {
        assert(s1.tags@[t] == s2.tags@[t]);
    }
    assert(s1.windows_unique() == s2.windows_unique()) by {
        if s1.windows_unique() {
            assert forall|t1: int, i1: int, t2: int, i2: int|
                0 <= t1 < 32 && 0 <= i1 < s2.tag_seq(t1).len() && 0 <= t2 < 32 && 0 <= i2
                    < s2.tag_seq(t2).len() && (t1 != t2 || i1 != i2) implies #[trigger] s2.tag_seq(
                t1,
            )[i1] != #[trigger] s2.tag_seq(t2)[i2] by {
                assert(s1.tag_seq(t1)[i1] != s1.tag_seq(t2)[i2]);
            }
        }
        if s2.windows_unique() {
            assert forall|t1: int, i1: int, t2: int, i2: int|
                0 <= t1 < 32 && 0 <= i1 < s1.tag_seq(t1).len() && 0 <= t2 < 32 && 0 <= i2
                    < s1.tag_seq(t2).len() && (t1 != t2 || i1 != i2) implies #[trigger] s1.tag_seq(
                t1,
            )[i1] != #[trigger] s1.tag_seq(t2)[i2] by {
                assert(s2.tag_seq(t1)[i1] != s2.tag_seq(t2)[i2]);
            }
        }
    }
    assert forall|a: Seq<char>| #[trigger] s1.tracked_addr(a) == s2.tracked_addr(a) by {
        if s1.tracked_addr(a) {
            let t = choose|t: int| 0 <= t < 32 && s1.tag_seq(t).contains(a);
            assert(s2.tag_seq(t).contains(a));
        }
        if s2.tracked_addr(a) {
            let t = choose|t: int| 0 <= t < 32 && s2.tag_seq(t).contains(a);
            assert(s1.tag_seq(t).contains(a));
        }
    }
}

/// After appending an address that was tracked nowhere, windows are still
/// unique, and exactly the old addresses plus the new one are tracked.
proof fn lemma_push_preserves(pre: State, post: State, dst: int, w: Seq<char>)
    requires
        pre.tags.len() == 32,
        post.tags.len() == 32,
        0 <= dst < 32,
        post.tag_seq(dst) == pre.tag_seq(dst).push(w),
        forall|t: int| 0 <= t < 32 && t != dst ==> #[trigger] post.tag_seq(t) == pre.tag_seq(t),
        pre.windows_unique(),
        !pre.tracked_addr(w),
    ensures
        post.windows_unique(),
        forall|a: Seq<char>| pre.tracked_addr(a) ==> post.tracked_addr(a),
        forall|a: Seq<char>| post.tracked_addr(a) ==> pre.tracked_addr(a) || a == w,
        post.tracked_addr(w),
{
    let n = pre.tag_seq(dst).len() as int;
    assert(post.tag_seq(dst)[n] == w);
    assert(post.tag_seq(dst).contains(w));
    assert(post.tracked_addr(w));
    assert forall|t1: int, i1: int, t2: int, i2: int|
        0 <= t1 < 32 && 0 <= i1 < post.tag_seq(t1).len() && 0 <= t2 < 32 && 0 <= i2 < post.tag_seq(
            t2,
        ).len() && (t1 != t2 || i1 != i2) implies #[trigger] post.tag_seq(t1)[i1]
        != #[trigger] post.tag_seq(t2)[i2] by {
        let fresh1 = t1 == dst && i1 == n;
        let fresh2 = t2 == dst && i2 == n;
        if fresh1 && fresh2 {
            assert(false);
        } else if fresh1 {
            assert(post.tag_seq(t2)[i2] == pre.tag_seq(t2)[i2]);
            assert(pre.tag_seq(t2).contains(pre.tag_seq(t2)[i2]));
            assert(post.tag_seq(t1)[i1] == w);
        } else if fresh2 {
            assert(post.tag_seq(t1)[i1] == pre.tag_seq(t1)[i1]);
            assert(pre.tag_seq(t1).contains(pre.tag_seq(t1)[i1]));
            assert(post.tag_seq(t2)[i2] == w);
        } else {
            assert(post.tag_seq(t1)[i1] == pre.tag_seq(t1)[i1]);
            assert(post.tag_seq(t2)[i2] == pre.tag_seq(t2)[i2]);
        }
    }
    assert forall|a: Seq<char>| pre.tracked_addr(a) implies post.tracked_addr(a) by {
        let t = choose|t: int| 0 <= t < 32 && pre.tag_seq(t).contains(a);
        let i = choose|i: int| 0 <= i < pre.tag_seq(t).len() && pre.tag_seq(t)[i] == a;
        assert(post.tag_seq(t)[i] == a);
        assert(post.tag_seq(t).contains(a));
    }
    assert forall|a: Seq<char>| post.tracked_addr(a) implies pre.tracked_addr(a) || a == w by {
        let t = choose|t: int| 0 <= t < 32 && post.tag_seq(t).contains(a);
        let i = choose|i: int| 0 <= i < post.tag_seq(t).len() && post.tag_seq(t)[i] == a;
        if !(t == dst && i == n) {
            assert(pre.tag_seq(t)[i] == a);
            assert(pre.tag_seq(t).contains(a));
        }
    }
}

/// After removing one window, windows are still unique, the removed address
/// is gone, and every other address stays.
proof fn lemma_remove_preserves(pre: State, post: State, src: int, i: int)
    requires
        pre.tags.len() == 32,
        post.tags.len() == 32,
        0 <= src < 32,
        0 <= i < pre.tag_seq(src).len(),
        post.tag_seq(src) == pre.tag_seq(src).remove(i),
        forall|t: int| 0 <= t < 32 && t != src ==> #[trigger] post.tag_seq(t) == pre.tag_seq(t),
        pre.windows_unique(),
    ensures
        post.windows_unique(),
        forall|a: Seq<char>| post.tracked_addr(a) ==> pre.tracked_addr(a),
        !post.tracked_addr(pre.tag_seq(src)[i]),
        forall|a: Seq<char>|
            pre.tracked_addr(a) && a != pre.tag_seq(src)[i] ==> post.tracked_addr(a),
{
    let w = pre.tag_seq(src)[i];
    pre.tag_seq(src).remove_ensures(i);
    assert forall|t1: int, i1: int, t2: int, i2: int|
        0 <= t1 < 32 && 0 <= i1 < post.tag_seq(t1).len() && 0 <= t2 < 32 && 0 <= i2 < post.tag_seq(
            t2,
        ).len() && (t1 != t2 || i1 != i2) implies #[trigger] post.tag_seq(t1)[i1]
        != #[trigger] post.tag_seq(t2)[i2] by {
        let j1: int = if t1 == src && i1 >= i {
            i1 + 1
        } else {
            i1
        };
        let j2: int = if t2 == src && i2 >= i {
            i2 + 1
        } else {
            i2
        };
        assert(post.tag_seq(t1)[i1] == pre.tag_seq(t1)[j1]);
        assert(post.tag_seq(t2)[i2] == pre.tag_seq(t2)[j2]);
        assert(t1 != t2 || j1 != j2);
    }
    assert forall|a: Seq<char>| post.tracked_addr(a) implies pre.tracked_addr(a) by {
        let t = choose|t: int| 0 <= t < 32 && post.tag_seq(t).contains(a);
        let k = choose|k: int| 0 <= k < post.tag_seq(t).len() && post.tag_seq(t)[k] == a;
        let j: int = if t == src && k >= i {
            k + 1
        } else {
            k
        };
        assert(pre.tag_seq(t)[j] == a);
        assert(pre.tag_seq(t).contains(a));
    }
    assert(!post.tracked_addr(w)) by {
        if post.tracked_addr(w) {
            let t = choose|t: int| 0 <= t < 32 && post.tag_seq(t).contains(w);
            let k = choose|k: int| 0 <= k < post.tag_seq(t).len() && post.tag_seq(t)[k] == w;
            let j: int = if t == src && k >= i {
                k + 1
            } else {
                k
            };
            assert(pre.tag_seq(t)[j] == w);
            assert(t != src || j != i);
            assert(pre.tag_seq(t)[j] != pre.tag_seq(src)[i]);
            assert(false);
        }
    }
    assert forall|a: Seq<char>| pre.tracked_addr(a) && a != w implies post.tracked_addr(a) by {
        let t = choose|t: int| 0 <= t < 32 && pre.tag_seq(t).contains(a);
        let j = choose|j: int| 0 <= j < pre.tag_seq(t).len() && pre.tag_seq(t)[j] == a;
        if t == src && j == i {
            assert(false);
        } else if t == src && j > i {
            assert(post.tag_seq(t)[j - 1] == a);
            assert(post.tag_seq(t).contains(a));
        } else {
            assert(post.tag_seq(t)[j] == a);
            assert(post.tag_seq(t).contains(a));
        }
    }
}

/// Some entry of `s` carries address `a`.
pub open spec fn contains_addr(s: Seq<WinView>, a: Seq<char>) -> bool {
    exists|i: int| 0 <= i < s.len() && s[i].addr == a
}

/// The entries of `b` whose address does not occur in `a`, in order:
/// the set difference `b − a` under address equality.
pub open spec fn diff_of(b: Seq<WinView>, a: Seq<WinView>) -> Seq<WinView>
    decreases b.len(),
{
    if b.len() == 0 {
        Seq::empty()
    } else {
        diff_of(b.drop_last(), a) + if contains_addr(a, b.last().addr) {
            Seq::empty()
        } else {
            seq![b.last()]
        }
    }
}

/// The address set of a snapshot.
pub open spec fn addr_set(s: Seq<WinView>) -> Set<Seq<char>> {
    Set::new(|x: Seq<char>| contains_addr(s, x))
}

/// Membership in a concatenation splits over the halves.
pub proof fn lemma_contains_addr_concat(s1: Seq<WinView>, s2: Seq<WinView>, x: Seq<char>)
    ensures
        contains_addr(s1 + s2, x) <==> (contains_addr(s1, x) || contains_addr(s2, x)),
{
    if contains_addr(s1 + s2, x) {
        let i = choose|i: int| 0 <= i < (s1 + s2).len() && (s1 + s2)[i].addr == x;
        if i < s1.len() {
            assert(s1[i].addr == x);
        } else {
            assert(s2[i - s1.len()].addr == x);
        }
    }
    if contains_addr(s1, x) {
        let i = choose|i: int| 0 <= i < s1.len() && s1[i].addr == x;
        assert((s1 + s2)[i].addr == x);
    }
    if contains_addr(s2, x) {
        let i = choose|i: int| 0 <= i < s2.len() && s2[i].addr == x;
        assert((s1 + s2)[s1.len() + i].addr == x);
    }
}

/// An address occurs in `b − a` exactly when it occurs in `b` but not in `a`.
pub proof fn lemma_diff_addrs(b: Seq<WinView>, a: Seq<WinView>, x: Seq<char>)
    ensures
        contains_addr(diff_of(b, a), x) <==> (contains_addr(b, x) && !contains_addr(a, x)),
    decreases b.len(),
{
    if b.len() == 0 {
    } else {
        lemma_diff_addrs(b.drop_last(), a, x);
        let tail: Seq<WinView> = if contains_addr(a, b.last().addr) {
            Seq::empty()
        } else {
            seq![b.last()]
        };
        lemma_contains_addr_concat(diff_of(b.drop_last(), a), tail, x);
        // membership in b splits into the prefix and the last entry
        if contains_addr(b, x) {
            let i = choose|i: int| 0 <= i < b.len() && b[i].addr == x;
            if i < b.len() - 1 {
                assert(b.drop_last()[i].addr == x);
            }
        }
        if contains_addr(b.drop_last(), x) {
            let i = choose|i: int| 0 <= i < b.drop_last().len() && b.drop_last()[i].addr == x;
            assert(b[i].addr == x);
        }
        if tail.len() == 1 && tail[0].addr == x {
            assert(b[b.len() - 1].addr == x);
        }
    }
}

/// No two entries carry the same address: the snapshot reads as a set.
pub open spec fn addrs_unique(s: Seq<WinView>) -> bool {
    forall|i: int, j: int| 0 <= i < j < s.len() ==> (#[trigger] s[i]).addr != (#[trigger] s[j]).addr
}

/// A difference of a duplicate-free snapshot is duplicate-free: each
/// difference entry comes from a distinct entry of `b`.
pub proof fn lemma_diff_unique(b: Seq<WinView>, a: Seq<WinView>)
    requires
        addrs_unique(b),
    ensures
        addrs_unique(diff_of(b, a)),
    decreases b.len(),
{
    if b.len() > 0 {
        assert(addrs_unique(b.drop_last())) by {
            assert forall|i: int, j: int|
                0 <= i < j < b.drop_last().len() implies (#[trigger] b.drop_last()[i]).addr != (
            #[trigger] b.drop_last()[j]).addr by {
                assert(b[i].addr != b[j].addr);
            }
        }
        lemma_diff_unique(b.drop_last(), a);
        let d0 = diff_of(b.drop_last(), a);
        let last = b.last();
        if !contains_addr(a, last.addr) {
            assert(!contains_addr(d0, last.addr)) by {
                lemma_diff_addrs(b.drop_last(), a, last.addr);
                if contains_addr(b.drop_last(), last.addr) {
                    let i = choose|i: int|
                        0 <= i < b.drop_last().len() && b.drop_last()[i].addr == last.addr;
                    assert(b[i].addr == b[b.len() - 1].addr);
                    assert(false);
                }
            }
            let whole = d0 + seq![last];
            assert forall|i: int, j: int| 0 <= i < j < whole.len() implies (
            #[trigger] whole[i]).addr != (#[trigger] whole[j]).addr by {
                if j < d0.len() {
                    assert(whole[i] == d0[i] && whole[j] == d0[j]);
                } else {
                    assert(whole[j] == last);
                    assert(whole[i] == d0[i]);
                    if d0[i].addr == last.addr {
                        assert(contains_addr(d0, last.addr));
                        assert(false);
                    }
                }
            }
        }
    }
}

/// The `added` and `removed` parts of a differential update are
/// address-disjoint: no window is both revealed and hidden.
pub proof fn lemma_diff_disjoint(a: Seq<WinView>, b: Seq<WinView>)
    ensures
        forall|x: Seq<char>|
            !((#[trigger] contains_addr(diff_of(b, a), x)) && contains_addr(diff_of(a, b), x)),
{
    assert forall|x: Seq<char>|
        !((#[trigger] contains_addr(diff_of(b, a), x)) && contains_addr(
            diff_of(a, b),
            x,
        )) by {
        lemma_diff_addrs(b, a, x);
        lemma_diff_addrs(a, b, x);
    }
}

/// Applying a differential update to the prior snapshot yields the new one:
/// removing `a − b` from `a` and adding `b − a` gives exactly `b`, as
/// address sets.
pub proof fn lemma_diff_apply(a: Seq<WinView>, b: Seq<WinView>)
    ensures
        addr_set(a).difference(addr_set(diff_of(a, b))).union(addr_set(diff_of(b, a))) =~= addr_set(
            b,
        ),
{
    assert forall|x: Seq<char>|
        addr_set(a).difference(addr_set(diff_of(a, b))).union(
            addr_set(diff_of(b, a)),
        ).contains(x) == addr_set(b).contains(x) by {
        lemma_diff_addrs(b, a, x);
        lemma_diff_addrs(a, b, x);
    }
}

/// True when some entry of `v` carries address `addr`.
fn vec_contains_addr(v: &Vec<WindowInfo>, addr: &String) -> (r: bool)
    ensures
        r == contains_addr(views_of(v@), addr@),
{
    let mut i: usize = 0;
    while i < v.len()
        invariant
            i <= v.len(),
            forall|j: int| 0 <= j < i ==> views_of(v@)[j].addr != addr@,
        decreases v.len() - i,
    {
        if v[i].addr == *addr {
            proof {
                assert(views_of(v@)[i as int].addr == addr@);
            }
            return true;
        }
        i = i + 1;
    }
    false
}

/// The entries of `b` whose address does not occur in `a`, in order.
fn diff_vec(b: &Vec<WindowInfo>, a: &Vec<WindowInfo>) -> (r: Vec<WindowInfo>)
    ensures
        views_of(r@) == diff_of(views_of(b@), views_of(a@)),
{
    let mut out: Vec<WindowInfo> = Vec::new();
    let mut i: usize = 0;
    while i < b.len()
        invariant
            i <= b.len(),
            views_of(out@) == diff_of(views_of(b@).take(i as int), views_of(a@)),
        decreases b.len() - i,
    {
        let ghost pre = views_of(b@).take(i as int);
        let ghost cur = views_of(b@).take(i as int + 1);
        proof {
            assert(cur.drop_last() =~= pre);
            assert(cur.last() == views_of(b@)[i as int]);
        }
        if !vec_contains_addr(a, &b[i].addr) {
            let ghost os0 = out@;
            out.push(WindowInfo { addr: b[i].addr.clone(), tag: b[i].tag });
            proof {
                assert(views_of(out@) =~= views_of(os0).push(views_of(b@)[i as int]));
                assert(views_of(out@) =~= diff_of(cur, views_of(a@)));
            }
        } else {
            proof {
                assert(views_of(out@) =~= diff_of(cur, views_of(a@)));
            }
        }
        i = i + 1;
    }
    proof {
        assert(views_of(b@).take(b@.len() as int) =~= views_of(b@));
    }
    out
}

/// The differential update between two snapshots: entries of `b` that are
/// new with respect to `a`, and entries of `a` that are gone from `b`,
/// compared by address only.
pub fn window_diff(a: Vec<WindowInfo>, b: Vec<WindowInfo>) -> (r: (
    Vec<WindowInfo>,
    Vec<WindowInfo>,
))
    ensures
        views_of(r.0@) == diff_of(views_of(b@), views_of(a@)),
        views_of(r.1@) == diff_of(views_of(a@), views_of(b@)),
        addrs_unique(views_of(b@)) ==> addrs_unique(views_of(r.0@)),
        addrs_unique(views_of(a@)) ==> addrs_unique(views_of(r.1@)),
{
    let added = diff_vec(&b, &a);
    let removed = diff_vec(&a, &b);
    proof {
        if addrs_unique(views_of(b@)) {
            lemma_diff_unique(views_of(b@), views_of(a@));
        }
        if addrs_unique(views_of(a@)) {
            lemma_diff_unique(views_of(a@), views_of(b@));
        }
    }
    (added, removed)
}

/// A copy of an optional address.
fn clone_opt(o: &Option<String>) -> (r: Option<String>)
    ensures
        r == *o,
{
    match o {
        Some(s) => Some(s.clone()),
        None => None,
    }
}

impl State {
    /// The flattened address list of tags `0..n` carries exactly the
    /// addresses of those tags, without duplicates.
    proof fn lemma_all_upto(self, n: int)
        requires
            self.windows_unique(),
            0 <= n <= 32,
        ensures
            self.all_upto(n).no_duplicates(),
            forall|a: Seq<char>|
                #[trigger] self.all_upto(n).contains(a) <==> exists|t: int|
                    0 <= t < n && self.tag_seq(t).contains(a),
        decreases n,
    {
        if n > 0 {
            self.lemma_all_upto(n - 1);
            let left = self.all_upto(n - 1);
            let right = self.tag_seq(n - 1);
            let whole = self.all_upto(n);
            assert(whole == left + right);
            assert forall|a: Seq<char>| #[trigger] whole.contains(a) implies exists|t: int|
                0 <= t < n && self.tag_seq(t).contains(a) by {
                let i = choose|i: int| 0 <= i < whole.len() && whole[i] == a;
                if i < left.len() {
                    assert(left[i] == a);
                    assert(left.contains(a));
                } else {
                    assert(right[i - left.len()] == a);
                    assert(right.contains(a));
                }
            }
            assert forall|a: Seq<char>|
                (exists|t: int| 0 <= t < n && self.tag_seq(t).contains(a)) implies #[trigger] whole.contains(
                a,
            ) by {
                let t = choose|t: int| 0 <= t < n && self.tag_seq(t).contains(a);
                if t < n - 1 {
                    assert(left.contains(a));
                    let i = choose|i: int| 0 <= i < left.len() && left[i] == a;
                    assert(whole[i] == a);
                } else {
                    let i = choose|i: int| 0 <= i < right.len() && right[i] == a;
                    assert(whole[left.len() + i] == a);
                }
            }
            assert forall|i: int, j: int| 0 <= i < j < whole.len() implies whole[i] != whole[j] by {
                if j < left.len() {
                    assert(left[i] != left[j]);
                } else if i >= left.len() {
                    // two positions of the same tag
                    assert(self.tag_seq(n - 1)[i - left.len()] != self.tag_seq(n - 1)[j
                        - left.len()]);
                } else {
                    // one position in an earlier tag, one in tag n - 1
                    let a = whole[i];
                    assert(left[i] == a);
                    assert(left.contains(a));
                    let t = choose|t: int| 0 <= t < n - 1 && self.tag_seq(t).contains(a);
                    let p = choose|p: int|
                        0 <= p < self.tag_seq(t).len() && self.tag_seq(t)[p] == a;
                    assert(self.tag_seq(t)[p] != self.tag_seq(n - 1)[j - left.len()]);
                }
            }
        }
    }

    /// With unique windows, the flattened address list has no duplicates
    /// and carries exactly the tracked addresses.
    pub proof fn lemma_all_addrs(self)
        requires
            self.windows_unique(),
        ensures
            self.all_addrs().no_duplicates(),
            forall|a: Seq<char>|
                #[trigger] self.all_addrs().contains(a) <==> self.tracked_addr(a),
    {
        self.lemma_all_upto(32);
    }

    /// One migration step described exactly: first `removed_post` into `mid`,
    /// then `added_post` out of it, the active window untouched after the
    /// removal.
    pub open spec fn migrate_step(pre: State, mid: State, post: State, w: Seq<char>) -> bool {
        &&& State::removed_post(pre, mid, w)
        &&& State::added_post(mid, post, w)
        &&& post.active_window == mid.active_window
    }

    /// What removing a window and re-adding it (on the then-active tag)
    /// guarantees, with the intermediate state existentially bound.
    pub open spec fn migrate_post(pre: State, post: State, w: Seq<char>) -> bool {
        exists|mid: State| #[trigger] State::migrate_step(pre, mid, post, w)
    }
}

/// Law: toggling the same tag twice is a no-op on the visibility mask,
/// provided neither call is blocked by the empty-mask check.
pub proof fn lemma_toggle_toggle(s0: State, s1: State, s2: State, t: u8, c1: Changes, c2: Changes)
    requires
        1 <= t <= 32,
        toggled(s0.visible_tags, t - 1) != 0,
        State::set_visible_post(s0, s1, toggled(s0.visible_tags, t - 1), c1),
        toggled(s1.visible_tags, t - 1) != 0,
        State::set_visible_post(s1, s2, toggled(s1.visible_tags, t - 1), c2),
    ensures
        s2.visible_tags == s0.visible_tags,
{
    crate::bits::lemma_toggle_twice(s0.visible_tags, (t - 1) as u32);
}

/// Law: after `set_visible_tags(a)` and then `set_visible_tags(b)`, a
/// restore (which replays the remembered mask) brings `visible_tags` back
/// to `a`.
pub proof fn lemma_set_set_restore(
    s0: State,
    s1: State,
    s2: State,
    s3: State,
    a: u32,
    b: u32,
    c1: Changes,
    c2: Changes,
    c3: Changes,
)
    requires
        State::set_visible_post(s0, s1, a, c1),
        State::set_visible_post(s1, s2, b, c2),
        State::set_visible_post(s2, s3, s2.prev_tags, c3),
    ensures
        s3.visible_tags == a,
{
}

/// Law: moving a window to another tag and back leaves it on its original
/// tag.
pub proof fn lemma_move_back(
    s0: State,
    s1: State,
    s2: State,
    w: Seq<char>,
    t: u8,
    t_orig: u8,
    c1: Changes,
    c2: Changes,
)
    requires
        s0.wf(),
        s2.wf(),
        s0.tracked_addr(w),
        t_orig == s0.tag_of(w) + 1,
        State::move_post(s0, s1, t, w, c1),
        State::move_post(s1, s2, t_orig, w, c2),
    ensures
        s2.tag_of(w) == s0.tag_of(w),
{
    let dst2 = t_orig - 1;
    let seq2 = s2.tag_seq(dst2);
    assert(seq2[seq2.len() - 1] == w);
    assert(seq2.contains(w));
    s2.lemma_tag_of(w, dst2);
}

} // verus!
