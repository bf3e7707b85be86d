//! Cycle navigator: an ordered character list plus the map of characters that
//! currently have a live window, with forward/backward hotkey traversal that
//! skips inactive entries.

use vstd::prelude::*;

verus! {

use vstd::string::StringExecFns;

/// Handle the windowing system assigned to a window; stable only within a
/// session.
pub type WindowHandle = u32;

/// The character names of a list of strings, as sequences of characters.
pub open spec fn names_of(s: Seq<String>) -> Seq<Seq<char>> {
    s.map_values(|n: String| n@)
}

/// The map an association list of (name, window) entries denotes: a later
/// entry for a name overrides an earlier one.
pub open spec fn assoc_map(s: Seq<(String, WindowHandle)>) -> Map<Seq<char>, WindowHandle>
    decreases s.len(),
{
    if s.len() == 0 {
        Map::empty()
    } else {
        assoc_map(s.drop_last()).insert(s.last().0@, s.last().1)
    }
}

/// No two entries of the association list share a name.
pub open spec fn assoc_unique(s: Seq<(String, WindowHandle)>) -> bool {
    forall|i: int, j: int| 0 <= i < j < s.len() ==> s[i].0@ != s[j].0@
}

proof fn lemma_assoc_contains(s: Seq<(String, WindowHandle)>, n: Seq<char>)
    ensures
        assoc_map(s).contains_key(n) <==> (exists|i: int| 0 <= i < s.len() && s[i].0@ == n),
    decreases s.len(),
{
    if s.len() > 0 {
        lemma_assoc_contains(s.drop_last(), n);
        if s.last().0@ == n {
            assert(s[s.len() - 1].0@ == n);
        } else if assoc_map(s).contains_key(n) {
            let i = choose|i: int| 0 <= i < s.drop_last().len() && s.drop_last()[i].0@ == n;
            assert(s[i].0@ == n);
        } else if exists|i: int| 0 <= i < s.len() && s[i].0@ == n {
            let i = choose|i: int| 0 <= i < s.len() && s[i].0@ == n;
            assert(s.drop_last()[i].0@ == n);
        }
    }
}

proof fn lemma_assoc_value(s: Seq<(String, WindowHandle)>, i: int)
    requires
        assoc_unique(s),
        0 <= i < s.len(),
    ensures
        assoc_map(s).contains_key(s[i].0@),
        assoc_map(s)[s[i].0@] == s[i].1,
    decreases s.len(),
{
    if i == s.len() - 1 {
    } else {
        lemma_assoc_value(s.drop_last(), i);
        assert(s.drop_last()[i] == s[i]);
    }
}

proof fn lemma_assoc_update(s: Seq<(String, WindowHandle)>, i: int, p: (String, WindowHandle))
    requires
        assoc_unique(s),
        0 <= i < s.len(),
        p.0@ == s[i].0@,
    ensures
        assoc_unique(s.update(i, p)),
        assoc_map(s.update(i, p)) == assoc_map(s).insert(p.0@, p.1),
    decreases s.len(),
{
    let t = s.update(i, p);
    assert(forall|k: int| 0 <= k < s.len() && k != i ==> t[k] == s[k]);
    if i == s.len() - 1 {
        assert(t.drop_last() =~= s.drop_last());
        assert(assoc_map(t) =~= assoc_map(s).insert(p.0@, p.1));
    } else {
        lemma_assoc_update(s.drop_last(), i, p);
        assert(t.drop_last() =~= s.drop_last().update(i, p));
        assert(t.last() == s.last());
        assert(assoc_map(t) == assoc_map(s.drop_last()).insert(p.0@, p.1).insert(
            s.last().0@,
            s.last().1,
        ));
        // The two inserted keys differ, so the inserts commute.
        assert(s.last().0@ != p.0@);
        assert(assoc_map(t) =~= assoc_map(s).insert(p.0@, p.1));
    }
}

proof fn lemma_assoc_remove(s: Seq<(String, WindowHandle)>, i: int)
    requires
        assoc_unique(s),
        0 <= i < s.len(),
    ensures
        assoc_unique(s.remove(i)),
        assoc_map(s.remove(i)) == assoc_map(s).remove(s[i].0@),
    decreases s.len(),
{
    let t = s.remove(i);
    s.remove_ensures(i);
    if i == s.len() - 1 {
        assert(t =~= s.drop_last());
        lemma_assoc_contains(t, s[i].0@);
        assert(forall|k: int| 0 <= k < t.len() ==> t[k].0@ != s[i].0@);
        assert(!assoc_map(t).contains_key(s[i].0@));
        assert(assoc_map(t) =~= assoc_map(s).remove(s[i].0@));
    } else {
        lemma_assoc_remove(s.drop_last(), i);
        assert(t.drop_last() =~= s.drop_last().remove(i));
        assert(t.last() == s.last());
        assert(s.last().0@ != s[i].0@);
        assert(assoc_map(t) =~= assoc_map(s).remove(s[i].0@));
    }
}

proof fn lemma_assoc_push(s: Seq<(String, WindowHandle)>, p: (String, WindowHandle))
    requires
        assoc_unique(s),
        forall|i: int| 0 <= i < s.len() ==> s[i].0@ != p.0@,
    ensures
        assoc_unique(s.push(p)),
        assoc_map(s.push(p)) == assoc_map(s).insert(p.0@, p.1),
{
    assert(s.push(p).drop_last() =~= s);
    assert(s.push(p).last() == p);
}

/// Index reached from `start` after `k` forward steps in a cyclic order of
/// length `n`; meaningful for `0 <= start < n` and `0 <= k <= n`.
pub open spec fn fwd_pos(start: int, k: int, n: int) -> int {
    if start + k < n {
        start + k
    } else {
        start + k - n
    }
}

/// Index reached from `start` after `k` backward steps in a cyclic order of
/// length `n`; meaningful for `0 <= start < n` and `0 <= k <= n`.
pub open spec fn bwd_pos(start: int, k: int, n: int) -> int {
    if start - k >= 0 {
        start - k
    } else {
        start - k + n
    }
}

/// The index of the first active entry a forward scan meets, starting `k`
/// steps past `start` and giving up after a full wrap (offset `n`).
pub open spec fn fwd_hit_from(
    order: Seq<Seq<char>>,
    active: Map<Seq<char>, WindowHandle>,
    start: int,
    k: int,
) -> Option<int>
    decreases order.len() + 1 - k,
    when k >= 0
{
    let n = order.len() as int;
    if k > n || k < 0 {
        None
    } else if active.contains_key(order[fwd_pos(start, k, n)]) {
        Some(fwd_pos(start, k, n))
    } else {
        fwd_hit_from(order, active, start, k + 1)
    }
}

/// The index a forward cycle step moves to: the first active entry strictly
/// after `start`, wrapping, with `start` itself checked last.
pub open spec fn fwd_hit(
    order: Seq<Seq<char>>,
    active: Map<Seq<char>, WindowHandle>,
    start: int,
) -> Option<int> {
    fwd_hit_from(order, active, start, 1)
}

/// The index of the first active entry a backward scan meets, starting `k`
/// steps before `start` and giving up after a full wrap (offset `n`).
pub open spec fn bwd_hit_from(
    order: Seq<Seq<char>>,
    active: Map<Seq<char>, WindowHandle>,
    start: int,
    k: int,
) -> Option<int>
    decreases order.len() + 1 - k,
    when k >= 0
{
    let n = order.len() as int;
    if k > n || k < 0 {
        None
    } else if active.contains_key(order[bwd_pos(start, k, n)]) {
        Some(bwd_pos(start, k, n))
    } else {
        bwd_hit_from(order, active, start, k + 1)
    }
}

/// The index a backward cycle step moves to: the first active entry strictly
/// before `start`, wrapping, with `start` itself checked last.
pub open spec fn bwd_hit(
    order: Seq<Seq<char>>,
    active: Map<Seq<char>, WindowHandle>,
    start: int,
) -> Option<int> {
    bwd_hit_from(order, active, start, 1)
}

/// An empty association list denotes the empty map.
proof fn lemma_assoc_empty(s: Seq<(String, WindowHandle)>)
    requires
        s.len() == 0,
    ensures
        assoc_map(s) == Map::<Seq<char>, WindowHandle>::empty(),
{
}

/// A non-empty association list denotes a non-empty map.
proof fn lemma_assoc_nonempty(s: Seq<(String, WindowHandle)>)
    requires
        s.len() > 0,
    ensures
        assoc_map(s) != Map::<Seq<char>, WindowHandle>::empty(),
{
    assert(assoc_map(s).contains_key(s.last().0@));
    assert(!Map::<Seq<char>, WindowHandle>::empty().contains_key(s.last().0@));
}

/// Index of the first association-list entry with the given name, if any.
fn position_of_entry(list: &Vec<(String, WindowHandle)>, name: &String) -> (r: Option<usize>)
    ensures
        match r {
            Some(i) => i < list@.len() && list@[i as int].0@ == name@,
            None => forall|k: int| 0 <= k < list@.len() ==> list@[k].0@ != name@,
        },
{
    let n = list.len();
    let mut i: usize = 0;
    while i < n
        invariant
            n == list@.len(),
            i <= n,
            forall|k: int| 0 <= k < i ==> list@[k].0@ != name@,
        decreases n - i,
    {
        if list[i].0 == *name {
            return Some(i);
        }
        i = i + 1;
    }
    None
}

/// Index of the first name in the list equal to the given name, if any.
fn position_of_name(list: &Vec<String>, name: &String) -> (r: Option<usize>)
    ensures
        match r {
            Some(i) => {
                &&& i < list@.len()
                &&& list@[i as int]@ == name@
                &&& forall|k: int| 0 <= k < i ==> list@[k]@ != name@
            },
            None => forall|k: int| 0 <= k < list@.len() ==> list@[k]@ != name@,
        },
{
    let n = list.len();
    let mut i: usize = 0;
    while i < n
        invariant
            n == list@.len(),
            i <= n,
            forall|k: int| 0 <= k < i ==> list@[k]@ != name@,
        decreases n - i,
    {
        if list[i] == *name {
            return Some(i);
        }
        i = i + 1;
    }
    None
}


/// Everything `cycle_forward` promises, relating the state before the call,
/// the state after it, and the returned window.
pub open spec fn forward_post(pre: CycleState, post: CycleState, r: Option<WindowHandle>) -> bool {
    &&& post.wf()
    &&& post.order() == pre.order()
    &&& post.active() == pre.active()
    &&& (pre.active() == Map::<Seq<char>, WindowHandle>::empty() || pre.order().len() == 0
        ==> r is None && post.index() == pre.index())
    &&& (!(pre.active() == Map::<Seq<char>, WindowHandle>::empty() || pre.order().len() == 0)
        ==> match fwd_hit(pre.order(), pre.active(), pre.index()) {
        Some(idx) => {
            &&& post.index() == idx
            &&& r == Some(pre.active()[pre.order()[idx]])
        },
        None => r is None && post.index() == pre.index(),
    })
    &&& (r matches Some(w) ==> exists|nm: Seq<char>|
        {
            &&& #[trigger] pre.active().contains_key(nm)
            &&& pre.active()[nm] == w
            &&& pre.order().contains(nm)
        })
}

/// Everything `cycle_backward` promises.
pub open spec fn backward_post(pre: CycleState, post: CycleState, r: Option<WindowHandle>) -> bool {
    &&& post.wf()
    &&& post.order() == pre.order()
    &&& post.active() == pre.active()
    &&& (pre.active() == Map::<Seq<char>, WindowHandle>::empty() || pre.order().len() == 0
        ==> r is None && post.index() == pre.index())
    &&& (!(pre.active() == Map::<Seq<char>, WindowHandle>::empty() || pre.order().len() == 0)
        ==> match bwd_hit(pre.order(), pre.active(), pre.index()) {
        Some(idx) => {
            &&& post.index() == idx
            &&& r == Some(pre.active()[pre.order()[idx]])
        },
        None => r is None && post.index() == pre.index(),
    })
    &&& (r matches Some(w) ==> exists|nm: Seq<char>|
        {
            &&& #[trigger] pre.active().contains_key(nm)
            &&& pre.active()[nm] == w
            &&& pre.order().contains(nm)
        })
}

/// Everything `add_window` promises.
pub open spec fn add_window_post(
    pre: CycleState,
    post: CycleState,
    name: Seq<char>,
    window: WindowHandle,
) -> bool {
    &&& post.wf()
    &&& post.active() == pre.active().insert(name, window)
    &&& post.order() == if pre.order().contains(name) {
        pre.order()
    } else {
        pre.order().push(name)
    }
    &&& post.index() == pre.index()
}

/// Everything `remove_window` promises.
pub open spec fn remove_window_post(pre: CycleState, post: CycleState, window: WindowHandle) -> bool {
    &&& post.wf()
    &&& post.order() == pre.order()
    &&& post.index() == pre.index()
    &&& ((exists|n: Seq<char>| pre.active().contains_key(n) && pre.active()[n] == window)
        ==> exists|n: Seq<char>|
        {
            &&& pre.active().contains_key(n)
            &&& pre.active()[n] == window
            &&& post.active() == pre.active().remove(n)
        })
    &&& (!(exists|n: Seq<char>| pre.active().contains_key(n) && pre.active()[n] == window)
        ==> post.active() == pre.active())
    &&& (post.order().len() > 0 ==> post.index() < post.order().len())
}

/// Everything `update_character` promises: the entry for this window is
/// dropped, then the new name is registered for it.
pub open spec fn update_character_post(
    pre: CycleState,
    post: CycleState,
    window: WindowHandle,
    name: Seq<char>,
) -> bool {
    &&& post.wf()
    &&& post.index() == pre.index()
    &&& ((exists|n: Seq<char>| pre.active().contains_key(n) && pre.active()[n] == window)
        ==> exists|n: Seq<char>|
        {
            &&& pre.active().contains_key(n)
            &&& pre.active()[n] == window
            &&& post.active() == pre.active().remove(n).insert(name, window)
        })
    &&& (!(exists|n: Seq<char>| pre.active().contains_key(n) && pre.active()[n] == window)
        ==> post.active() == pre.active().insert(name, window))
    &&& post.order() == if pre.order().contains(name) {
        pre.order()
    } else {
        pre.order().push(name)
    }
}

/// Everything `set_current` promises: the cursor moves to the name's first
/// position in the order exactly when the name is present.
pub open spec fn set_current_post(
    pre: CycleState,
    post: CycleState,
    name: Seq<char>,
    r: bool,
) -> bool {
    &&& post.wf()
    &&& post.order() == pre.order()
    &&& post.active() == pre.active()
    &&& r == pre.order().contains(name)
    &&& (r ==> {
        &&& 0 <= post.index() < pre.order().len()
        &&& pre.order()[post.index()] == name
        &&& forall|k: int| 0 <= k < post.index() ==> pre.order()[k] != name
    })
    &&& (!r ==> post.index() == pre.index())
}

/// Maps character names to their window handles and tracks the position in
/// the configured cycle order.
pub struct CycleState {
    /// Configured order, persisted across sessions; grows by auto-discovery,
    /// never shrinks during a session.
    config_order: Vec<String>,
    /// Current index into `config_order` (0-based).
    current_index: usize,
    /// Active windows: one (character name, window handle) entry per
    /// character that currently has a window.
    active_windows: Vec<(String, WindowHandle)>,
}

impl CycleState {
    /// The traversal order, as character-name sequences.
    pub closed spec fn order(&self) -> Seq<Seq<char>> {
        names_of(self.config_order@)
    }

    /// The map from active character names to their window handles.
    pub closed spec fn active(&self) -> Map<Seq<char>, WindowHandle> {
        assoc_map(self.active_windows@)
    }

    /// The current cursor into the order.
    pub closed spec fn index(&self) -> int {
        self.current_index as int
    }

    /// Structural well-formedness: unique active entries and a cursor that is
    /// in range whenever the order is non-empty.
    pub closed spec fn wf(&self) -> bool {
        &&& assoc_unique(self.active_windows@)
        &&& (self.config_order@.len() == 0 ==> self.current_index == 0)
        &&& (self.config_order@.len() > 0 ==> (self.current_index as int) < self.config_order@.len())
    }

    pub fn new(config_order: Vec<String>) -> (r: Self)
        ensures
            r.wf(),
            r.order() == names_of(config_order@),
            r.active() == Map::<Seq<char>, WindowHandle>::empty(),
            r.index() == 0,
    {
        Self { config_order, current_index: 0, active_windows: Vec::new() }
    }

    /// Look up the window handle an active character name maps to.
    fn find_active(&self, character_name: &String) -> (r: Option<WindowHandle>)
        requires
            assoc_unique(self.active_windows@),
        ensures
            match r {
                Some(w) => self.active().contains_key(character_name@)
                    && self.active()[character_name@] == w,
                None => !self.active().contains_key(character_name@),
            },
    {
        let n = self.active_windows.len();
        let mut i: usize = 0;
        while i < n
            invariant
                n == self.active_windows@.len(),
                i <= n,
                assoc_unique(self.active_windows@),
                forall|k: int| 0 <= k < i ==> self.active_windows@[k].0@ != character_name@,
            decreases n - i,
        {
            if self.active_windows[i].0 == *character_name {
                proof {
                    lemma_assoc_value(self.active_windows@, i as int);
                }
                return Some(self.active_windows[i].1);
            }
            i = i + 1;
        }
        proof {
            lemma_assoc_contains(self.active_windows@, character_name@);
        }
        None
    }

    /// Register a window for a character. Sets the character's active entry
    /// and appends the name to the configured order if it is absent
    /// (auto-discovery that preserves any manual order).
    pub fn add_window(&mut self, character_name: String, window: WindowHandle)
        requires
            old(self).wf(),
        ensures
            add_window_post(*old(self), *final(self), character_name@, window),
    {
        match position_of_entry(&self.active_windows, &character_name) {
            Some(i) => {
                proof {
                    let s = self.active_windows@;
                    lemma_assoc_update(s, i as int, (s[i as int].0, window));
                }
                self.active_windows[i].1 = window;
            },
            None => {
                proof {
                    lemma_assoc_push(self.active_windows@, (character_name, window));
                }
                self.active_windows.push((character_name.clone(), window));
            },
        }

        // Auto-discovery: append the name to the order if it is not present.
        match position_of_name(&self.config_order, &character_name) {
            Some(j) => {
                assert(old(self).order()[j as int] == character_name@);
                assert(old(self).order().contains(character_name@));
            },
            None => {
                assert(forall|k: int| 0 <= k < old(self).order().len() ==> old(self).order()[k]
                    != character_name@);
                assert(!old(self).order().contains(character_name@));
                proof {
                    assert(names_of(self.config_order@.push(character_name)) =~= old(
                        self,
                    ).order().push(character_name@));
                }
                self.config_order.push(character_name);
            },
        }
    }

    /// Remove the active entry whose window handle matches, if any; the name
    /// stays in the configured order for future reattachment. The cursor is
    /// clamped back into range, which leaves it unchanged because the order
    /// never shrinks.
    pub fn remove_window(&mut self, window: WindowHandle)
        requires
            old(self).wf(),
        ensures
            // In particular: removing the currently selected entry leaves the
            // cursor valid whenever the order is non-empty.
            remove_window_post(*old(self), *final(self), window),
    {
        let n = self.active_windows.len();
        let mut i: usize = 0;
        while i < n
            invariant
                n == self.active_windows@.len(),
                i <= n,
                *self == *old(self),
                old(self).wf(),
                forall|k: int| 0 <= k < i ==> self.active_windows@[k].1 != window,
            decreases n - i,
        {
            if self.active_windows[i].1 == window {
                proof {
                    let s = self.active_windows@;
                    lemma_assoc_value(s, i as int);
                    lemma_assoc_remove(s, i as int);
                }
                let ghost name = self.active_windows@[i as int].0@;
                let _ = self.active_windows.remove(i);
                self.clamp_index();
                proof {
                    assert(old(self).active().contains_key(name) && old(self).active()[name]
                        == window);
                }
                return ;
            }
            i = i + 1;
        }
        proof {
            lemma_assoc_contains_value(self.active_windows@, window);
        }
        self.clamp_index();
    }

    /// Update the character a window belongs to (login/logout): drop the old
    /// entry for this window, then register the new name.
    pub fn update_character(&mut self, window: WindowHandle, new_name: String)
        requires
            old(self).wf(),
        ensures
            update_character_post(*old(self), *final(self), window, new_name@),
    {
        self.remove_window(window);
        self.add_window(new_name, window);
    }

    /// Set the cursor to a character's position in the order. Returns true
    /// and moves the cursor exactly when the name is present; otherwise the
    /// state is unchanged.
    pub fn set_current(&mut self, character_name: &str) -> (r: bool)
        requires
            old(self).wf(),
        ensures
            set_current_post(*old(self), *final(self), character_name@, r),
    {
        let name = String::from_str(character_name);
        match position_of_name(&self.config_order, &name) {
            Some(j) => {
                assert(old(self).order()[j as int] == character_name@);
                self.current_index = j;
                true
            },
            None => {
                assert(forall|k: int| 0 <= k < old(self).order().len() ==> old(self).order()[k]
                    != character_name@);
                false
            },
        }
    }

    /// Advance the cursor to the next character in the order that has an
    /// active window, wrapping around, and report that character's window.
    /// Returns no target when the order or the active map is empty, or when a
    /// full wrap finds no active entry; the cursor is then left where it was.
    pub fn cycle_forward(&mut self) -> (r: Option<WindowHandle>)
        requires
            old(self).wf(),
        ensures
            // Cycling never yields a window of a name outside the active map.
            forward_post(*old(self), *final(self), r),
    {
        if self.active_windows.len() == 0 {
            proof {
                lemma_assoc_empty(self.active_windows@);
            }
            return None;
        }
        let n = self.config_order.len();
        if n == 0 {
            proof {
                lemma_assoc_nonempty(self.active_windows@);
            }
            return None;
        }
        proof {
            lemma_assoc_nonempty(self.active_windows@);
        }
        let start = self.current_index;
        let mut idx = start;
        let mut j: usize = 0;
        while j < n
            invariant
                old(self).wf(),
                *self == *old(self),
                n == self.config_order@.len(),
                n > 0,
                start == old(self).current_index,
                start < n,
                j <= n,
                idx < n,
                idx as int == fwd_pos(start as int, j as int, n as int),
                fwd_hit(old(self).order(), old(self).active(), start as int) == fwd_hit_from(
                    old(self).order(),
                    old(self).active(),
                    start as int,
                    j as int + 1,
                ),
            decreases n - j,
        {
            idx = if idx + 1 == n {
                0
            } else {
                idx + 1
            };
            j = j + 1;
            assert(idx as int == fwd_pos(start as int, j as int, n as int));
            match self.find_active(&self.config_order[idx]) {
                Some(w) => {
                    proof {
                        assert(old(self).active().contains_key(old(self).order()[idx as int]));
                        assert(fwd_hit_from(
                            old(self).order(),
                            old(self).active(),
                            start as int,
                            j as int,
                        ) == Some(idx as int));
                        assert(old(self).order().contains(old(self).order()[idx as int]));
                    }
                    self.current_index = idx;
                    return Some(w);
                },
                None => {
                    assert(fwd_hit_from(
                        old(self).order(),
                        old(self).active(),
                        start as int,
                        j as int,
                    ) == fwd_hit_from(
                        old(self).order(),
                        old(self).active(),
                        start as int,
                        j as int + 1,
                    ));
                },
            }
        }
        assert(fwd_hit(old(self).order(), old(self).active(), start as int) is None);
        None
    }

    /// Retreat the cursor to the previous character in the order that has an
    /// active window, wrapping around, and report that character's window.
    /// Returns no target when the order or the active map is empty, or when a
    /// full wrap finds no active entry; the cursor is then left where it was.
    pub fn cycle_backward(&mut self) -> (r: Option<WindowHandle>)
        requires
            old(self).wf(),
        ensures
            // Cycling never yields a window of a name outside the active map.
            backward_post(*old(self), *final(self), r),
    {
        if self.active_windows.len() == 0 {
            proof {
                lemma_assoc_empty(self.active_windows@);
            }
            return None;
        }
        let n = self.config_order.len();
        if n == 0 {
            proof {
                lemma_assoc_nonempty(self.active_windows@);
            }
            return None;
        }
        proof {
            lemma_assoc_nonempty(self.active_windows@);
        }
        let start = self.current_index;
        let mut idx = start;
        let mut j: usize = 0;
        while j < n
            invariant
                old(self).wf(),
                *self == *old(self),
                n == self.config_order@.len(),
                n > 0,
                start == old(self).current_index,
                start < n,
                j <= n,
                idx < n,
                idx as int == bwd_pos(start as int, j as int, n as int),
                bwd_hit(old(self).order(), old(self).active(), start as int) == bwd_hit_from(
                    old(self).order(),
                    old(self).active(),
                    start as int,
                    j as int + 1,
                ),
            decreases n - j,
        {
            idx = if idx == 0 {
                n - 1
            } else {
                idx - 1
            };
            j = j + 1;
            assert(idx as int == bwd_pos(start as int, j as int, n as int));
            match self.find_active(&self.config_order[idx]) {
                Some(w) => {
                    proof {
                        assert(old(self).active().contains_key(old(self).order()[idx as int]));
                        assert(bwd_hit_from(
                            old(self).order(),
                            old(self).active(),
                            start as int,
                            j as int,
                        ) == Some(idx as int));
                        assert(old(self).order().contains(old(self).order()[idx as int]));
                    }
                    self.current_index = idx;
                    return Some(w);
                },
                None => {
                    assert(bwd_hit_from(
                        old(self).order(),
                        old(self).active(),
                        start as int,
                        j as int,
                    ) == bwd_hit_from(
                        old(self).order(),
                        old(self).active(),
                        start as int,
                        j as int + 1,
                    ));
                },
            }
        }
        assert(bwd_hit(old(self).order(), old(self).active(), start as int) is None);
        None
    }

    /// The window handle a character name is actively mapped to, if any.
    pub fn active_window(&self, character_name: &str) -> (r: Option<WindowHandle>)
        requires
            self.wf(),
        ensures
            match r {
                Some(w) => self.active().contains_key(character_name@)
                    && self.active()[character_name@] == w,
                None => !self.active().contains_key(character_name@),
            },
    {
        let name = String::from_str(character_name);
        self.find_active(&name)
    }

    /// Clamp the cursor to the valid range after entries were removed.
    fn clamp_index(&mut self)
        ensures
            final(self).config_order == old(self).config_order,
            final(self).active_windows == old(self).active_windows,
            old(self).config_order@.len() > 0 && old(self).current_index >= old(
                self,
            ).config_order@.len() ==> final(self).current_index == 0,
            !(old(self).config_order@.len() > 0 && old(self).current_index >= old(
                self,
            ).config_order@.len()) ==> final(self).current_index == old(self).current_index,
    {
        if self.config_order.len() > 0 && self.current_index >= self.config_order.len() {
            self.current_index = 0;
        }
    }

    /// The configured order, for saving.
    pub fn config_order(&self) -> (r: &Vec<String>)
        ensures
            names_of(r@) == self.order(),
    {
        &self.config_order
    }
}

proof fn lemma_assoc_contains_value(s: Seq<(String, WindowHandle)>, window: WindowHandle)
    requires
        forall|k: int| 0 <= k < s.len() ==> s[k].1 != window,
    ensures
        forall|n: Seq<char>| #[trigger]
            assoc_map(s).contains_key(n) ==> assoc_map(s)[n] != window,
    decreases s.len(),
{
    if s.len() > 0 {
        lemma_assoc_contains_value(s.drop_last(), window);
        assert forall|n: Seq<char>| #[trigger]
            assoc_map(s).contains_key(n) implies assoc_map(s)[n] != window by {
            if n == s.last().0@ {
                assert(assoc_map(s)[n] == s.last().1);
            } else {
                assert(assoc_map(s)[n] == assoc_map(s.drop_last())[n]);
            }
        }
    }
}

} // verus!
