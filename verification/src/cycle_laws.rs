//! Laws of the cycle navigator, stated over the same spec-level model that
//! the navigator's contracts use: the scan functions `fwd_hit` / `bwd_hit`
//! and the active-window map.

use vstd::prelude::*;

use crate::cycle::bwd_hit;
use crate::cycle::bwd_hit_from;
use crate::cycle::bwd_pos;
use crate::cycle::fwd_hit;
use crate::cycle::fwd_hit_from;
use crate::cycle::fwd_pos;
use crate::cycle::WindowHandle;

verus! {

/// The cursor one forward cycle call leaves behind: the hit index, or the
/// starting cursor when nothing is active.
pub open spec fn fwd_step(
    order: Seq<Seq<char>>,
    active: Map<Seq<char>, WindowHandle>,
    start: int,
) -> int {
    match fwd_hit(order, active, start) {
        Some(i) => i,
        None => start,
    }
}

/// The cursor one backward cycle call leaves behind.
pub open spec fn bwd_step(
    order: Seq<Seq<char>>,
    active: Map<Seq<char>, WindowHandle>,
    start: int,
) -> int {
    match bwd_hit(order, active, start) {
        Some(i) => i,
        None => start,
    }
}

/// The cursor after `cnt` forward cycle calls.
pub open spec fn fwd_steps(
    order: Seq<Seq<char>>,
    active: Map<Seq<char>, WindowHandle>,
    start: int,
    cnt: nat,
) -> int
    decreases cnt,
{
    if cnt == 0 {
        start
    } else {
        fwd_steps(order, active, fwd_step(order, active, start), (cnt - 1) as nat)
    }
}

/// The cursor after `cnt` backward cycle calls.
pub open spec fn bwd_steps(
    order: Seq<Seq<char>>,
    active: Map<Seq<char>, WindowHandle>,
    start: int,
    cnt: nat,
) -> int
    decreases cnt,
{
    if cnt == 0 {
        start
    } else {
        bwd_step(order, active, bwd_steps(order, active, start, (cnt - 1) as nat))
    }
}

/// What a forward scan that starts at offset `k` finds: the first active
/// offset, with everything before it inactive; or nothing, with the whole
/// remaining wrap inactive.
proof fn lemma_fwd_hit_from_props(
    order: Seq<Seq<char>>,
    active: Map<Seq<char>, WindowHandle>,
    start: int,
    k: int,
)
    requires
        0 <= start < order.len(),
        1 <= k,
    ensures
        match fwd_hit_from(order, active, start, k) {
            Some(i) => exists|m: int|
                {
                    &&& k <= m <= order.len()
                    &&& i == fwd_pos(start, m, order.len() as int)
                    &&& #[trigger] active.contains_key(order[fwd_pos(start, m, order.len() as int)])
                    &&& forall|l: int|
                        k <= l < m ==> !active.contains_key(
                            order[fwd_pos(start, l, order.len() as int)],
                        )
                },
            None => forall|m: int|
                k <= m <= order.len() ==> !active.contains_key(
                    order[fwd_pos(start, m, order.len() as int)],
                ),
        },
    decreases order.len() + 1 - k,
{
    let n = order.len() as int;
    if k > n {
    } else if active.contains_key(order[fwd_pos(start, k, n)]) {
        assert(fwd_hit_from(order, active, start, k) == Some(fwd_pos(start, k, n)));
        assert(exists|m: int|
            {
                &&& k <= m <= n
                &&& fwd_pos(start, k, n) == fwd_pos(start, m, n)
                &&& #[trigger] active.contains_key(order[fwd_pos(start, m, n)])
                &&& forall|l: int| k <= l < m ==> !active.contains_key(order[fwd_pos(start, l, n)])
            }) by {
            assert(k <= k <= n && active.contains_key(order[fwd_pos(start, k, n)]));
        }
    } else {
        lemma_fwd_hit_from_props(order, active, start, k + 1);
        match fwd_hit_from(order, active, start, k + 1) {
            Some(i) => {
                let m = choose|m: int|
                    {
                        &&& k + 1 <= m <= n
                        &&& i == fwd_pos(start, m, n)
                        &&& #[trigger] active.contains_key(order[fwd_pos(start, m, n)])
                        &&& forall|l: int|
                            k + 1 <= l < m ==> !active.contains_key(order[fwd_pos(start, l, n)])
                    };
                assert(forall|l: int| k <= l < m ==> !active.contains_key(
                    order[fwd_pos(start, l, n)],
                ));
            },
            None => {},
        }
    }
}

/// What a backward scan that starts at offset `k` finds.
proof fn lemma_bwd_hit_from_props(
    order: Seq<Seq<char>>,
    active: Map<Seq<char>, WindowHandle>,
    start: int,
    k: int,
)
    requires
        0 <= start < order.len(),
        1 <= k,
    ensures
        match bwd_hit_from(order, active, start, k) {
            Some(i) => exists|m: int|
                {
                    &&& k <= m <= order.len()
                    &&& i == bwd_pos(start, m, order.len() as int)
                    &&& #[trigger] active.contains_key(order[bwd_pos(start, m, order.len() as int)])
                    &&& forall|l: int|
                        k <= l < m ==> !active.contains_key(
                            order[bwd_pos(start, l, order.len() as int)],
                        )
                },
            None => forall|m: int|
                k <= m <= order.len() ==> !active.contains_key(
                    order[bwd_pos(start, m, order.len() as int)],
                ),
        },
    decreases order.len() + 1 - k,
{
    let n = order.len() as int;
    if k > n {
    } else if active.contains_key(order[bwd_pos(start, k, n)]) {
        assert(bwd_hit_from(order, active, start, k) == Some(bwd_pos(start, k, n)));
        assert(exists|m: int|
            {
                &&& k <= m <= n
                &&& bwd_pos(start, k, n) == bwd_pos(start, m, n)
                &&& #[trigger] active.contains_key(order[bwd_pos(start, m, n)])
                &&& forall|l: int| k <= l < m ==> !active.contains_key(order[bwd_pos(start, l, n)])
            }) by {
            assert(k <= k <= n && active.contains_key(order[bwd_pos(start, k, n)]));
        }
    } else {
        lemma_bwd_hit_from_props(order, active, start, k + 1);
        match bwd_hit_from(order, active, start, k + 1) {
            Some(i) => {
                let m = choose|m: int|
                    {
                        &&& k + 1 <= m <= n
                        &&& i == bwd_pos(start, m, n)
                        &&& #[trigger] active.contains_key(order[bwd_pos(start, m, n)])
                        &&& forall|l: int|
                            k + 1 <= l < m ==> !active.contains_key(order[bwd_pos(start, l, n)])
                    };
                assert(forall|l: int| k <= l < m ==> !active.contains_key(
                    order[bwd_pos(start, l, n)],
                ));
            },
            None => {},
        }
    }
}

/// A backward scan stops at the first active offset.
proof fn lemma_bwd_hit_determined(
    order: Seq<Seq<char>>,
    active: Map<Seq<char>, WindowHandle>,
    start: int,
    k: int,
    m0: int,
)
    requires
        0 <= start < order.len(),
        1 <= k <= m0 <= order.len(),
        active.contains_key(order[bwd_pos(start, m0, order.len() as int)]),
        forall|l: int|
            k <= l < m0 ==> !active.contains_key(order[bwd_pos(start, l, order.len() as int)]),
    ensures
        bwd_hit_from(order, active, start, k) == Some(bwd_pos(start, m0, order.len() as int)),
    decreases m0 - k,
{
    let n = order.len() as int;
    if k == m0 {
    } else {
        assert(!active.contains_key(order[bwd_pos(start, k, n)]));
        lemma_bwd_hit_determined(order, active, start, k + 1, m0);
    }
}

/// One forward cycle call from an active cursor, then one backward call,
/// restores the cursor.
proof fn lemma_step_roundtrip(
    order: Seq<Seq<char>>,
    active: Map<Seq<char>, WindowHandle>,
    start: int,
)
    requires
        order.len() == 0 || (0 <= start < order.len() && (active.contains_key(order[start])
            || forall|i: int| 0 <= i < order.len() ==> !active.contains_key(order[i]))),
    ensures
        bwd_step(order, active, fwd_step(order, active, start)) == start,
        order.len() == 0 || (0 <= fwd_step(order, active, start) < order.len() && (
        active.contains_key(order[fwd_step(order, active, start)]) || forall|i: int|
            0 <= i < order.len() ==> !active.contains_key(order[i]))),
{
    let n = order.len() as int;
    if n == 0 {
        assert(fwd_hit(order, active, start) is None);
        assert(bwd_hit(order, active, start) is None);
    } else if active.contains_key(order[start]) {
        lemma_fwd_hit_from_props(order, active, start, 1);
        match fwd_hit(order, active, start) {
            Some(i) => {
                let m = choose|m: int|
                    {
                        &&& 1 <= m <= n
                        &&& i == fwd_pos(start, m, n)
                        &&& #[trigger] active.contains_key(order[fwd_pos(start, m, n)])
                        &&& forall|l: int|
                            1 <= l < m ==> !active.contains_key(order[fwd_pos(start, l, n)])
                    };
                assert(0 <= i < n);
                assert(bwd_pos(i, m, n) == start);
                assert(forall|l: int| 1 <= l < m ==> bwd_pos(i, l, n) == fwd_pos(
                    start,
                    m - l,
                    n,
                ));
                lemma_bwd_hit_determined(order, active, i, 1, m);
                assert(bwd_hit(order, active, i) == Some(start));
            },
            None => {
                // Impossible: the scan reaches offset n, which is `start`
                // itself, and `start` is active.
                assert(fwd_pos(start, n, n) == start);
                assert(!active.contains_key(order[fwd_pos(start, n, n)]));
                assert(false);
            },
        }
    } else {
        // Nothing in the order is active: both scans find nothing and the
        // cursor never moves.
        lemma_fwd_hit_from_props(order, active, start, 1);
        match fwd_hit(order, active, start) {
            Some(i) => {
                let m = choose|m: int|
                    {
                        &&& 1 <= m <= n
                        &&& i == fwd_pos(start, m, n)
                        &&& #[trigger] active.contains_key(order[fwd_pos(start, m, n)])
                        &&& forall|l: int|
                            1 <= l < m ==> !active.contains_key(order[fwd_pos(start, l, n)])
                    };
                assert(0 <= fwd_pos(start, m, n) < n);
                assert(false);
            },
            None => {},
        }
        lemma_bwd_hit_from_props(order, active, start, 1);
        match bwd_hit(order, active, start) {
            Some(i) => {
                let m = choose|m: int|
                    {
                        &&& 1 <= m <= n
                        &&& i == bwd_pos(start, m, n)
                        &&& #[trigger] active.contains_key(order[bwd_pos(start, m, n)])
                        &&& forall|l: int|
                            1 <= l < m ==> !active.contains_key(order[bwd_pos(start, l, n)])
                    };
                assert(0 <= bwd_pos(start, m, n) < n);
                assert(false);
            },
            None => {},
        }
    }
}

/// Law: cycling forward `cnt` times and then backward `cnt` times restores
/// the original cursor, absent intervening additions or removals. It holds
/// whenever the cursor's own entry is active (which every cycle call
/// establishes), and trivially when the order is empty or nothing in the
/// order is active; it can fail when the starting cursor rests on an
/// inactive entry.
pub proof fn lemma_cycle_roundtrip(
    order: Seq<Seq<char>>,
    active: Map<Seq<char>, WindowHandle>,
    start: int,
    cnt: nat,
)
    requires
        order.len() == 0 || (0 <= start < order.len() && (active.contains_key(order[start])
            || forall|i: int| 0 <= i < order.len() ==> !active.contains_key(order[i]))),
    ensures
        bwd_steps(order, active, fwd_steps(order, active, start, cnt), cnt) == start,
    decreases cnt,
{
    if cnt == 0 {
    } else {
        lemma_step_roundtrip(order, active, start);
        let s1 = fwd_step(order, active, start);
        lemma_cycle_roundtrip(order, active, s1, (cnt - 1) as nat);
        assert(fwd_steps(order, active, start, cnt) == fwd_steps(
            order,
            active,
            s1,
            (cnt - 1) as nat,
        ));
        assert(bwd_steps(order, active, fwd_steps(order, active, s1, (cnt - 1) as nat), cnt)
            == bwd_step(
            order,
            active,
            bwd_steps(order, active, fwd_steps(order, active, s1, (cnt - 1) as nat), (cnt - 1) as nat),
        ));
    }
}

/// One navigator operation on the active-window map, for stating laws over
/// whole call sequences.
pub enum CycleOp {
    /// `add_window(name, window)`.
    Add(Seq<char>, WindowHandle),
    /// `remove_window(window)`.
    Remove(WindowHandle),
}

/// Whether some name of the map is mapped to this window.
pub open spec fn map_has_window(m: Map<Seq<char>, WindowHandle>, w: WindowHandle) -> bool {
    exists|n: Seq<char>| #[trigger] m.contains_key(n) && m[n] == w
}

/// The effect of one operation on the active-window map, exactly as the
/// contracts of `add_window` and `remove_window` state it.
pub open spec fn apply_cycle_op(m: Map<Seq<char>, WindowHandle>, op: CycleOp) -> Map<
    Seq<char>,
    WindowHandle,
> {
    match op {
        CycleOp::Add(name, window) => m.insert(name, window),
        CycleOp::Remove(window) => if map_has_window(m, window) {
            m.remove(choose|n: Seq<char>| #[trigger] m.contains_key(n) && m[n] == window)
        } else {
            m
        },
    }
}

/// The active-window map after a sequence of operations.
pub open spec fn active_after(m: Map<Seq<char>, WindowHandle>, ops: Seq<CycleOp>) -> Map<
    Seq<char>,
    WindowHandle,
>
    decreases ops.len(),
{
    if ops.len() == 0 {
        m
    } else {
        apply_cycle_op(active_after(m, ops.drop_last()), ops.last())
    }
}

/// A sequence of operations is separated when every addition happens while
/// neither its name nor its window is present: windows are added once per
/// lifetime, and a rename removes the old entry before adding the new one.
pub open spec fn ops_separated(m: Map<Seq<char>, WindowHandle>, ops: Seq<CycleOp>) -> bool
    decreases ops.len(),
{
    if ops.len() == 0 {
        true
    } else {
        let before = active_after(m, ops.drop_last());
        &&& ops_separated(m, ops.drop_last())
        &&& (forall|n: Seq<char>, w: WindowHandle|
            ops.last() == CycleOp::Add(n, w) ==> !before.contains_key(n) && !map_has_window(
                before,
                w,
            ))
    }
}

/// The window was added at some point and not removed afterwards.
pub open spec fn added_and_not_removed(ops: Seq<CycleOp>, w: WindowHandle) -> bool {
    exists|i: int|
        #![trigger ops[i]]
        {
            &&& 0 <= i < ops.len()
            &&& (exists|n: Seq<char>| ops[i] == CycleOp::Add(n, w))
            &&& (forall|j: int| i < j < ops.len() ==> ops[j] != CycleOp::Remove(w))
        }
}

/// No two names map to the same window.
pub open spec fn map_injective(m: Map<Seq<char>, WindowHandle>) -> bool {
    forall|n1: Seq<char>, n2: Seq<char>|
        #![trigger m.contains_key(n1), m.contains_key(n2)]
        m.contains_key(n1) && m.contains_key(n2) && m[n1] == m[n2] ==> n1 == n2
}

/// Separated operations keep the active-window map injective.
proof fn lemma_active_after_injective(m: Map<Seq<char>, WindowHandle>, ops: Seq<CycleOp>)
    requires
        map_injective(m),
        ops_separated(m, ops),
    ensures
        map_injective(active_after(m, ops)),
    decreases ops.len(),
{
    if ops.len() > 0 {
        lemma_active_after_injective(m, ops.drop_last());
        let before = active_after(m, ops.drop_last());
        match ops.last() {
            CycleOp::Add(name, window) => {
                assert(ops.last() == CycleOp::Add(name, window));
                assert(!before.contains_key(name) && !map_has_window(before, window));
                assert forall|n1: Seq<char>, n2: Seq<char>|
                    #![trigger before.insert(name, window).contains_key(n1), before.insert(name, window).contains_key(n2)]
                    before.insert(name, window).contains_key(n1) && before.insert(
                        name,
                        window,
                    ).contains_key(n2) && before.insert(name, window)[n1] == before.insert(
                        name,
                        window,
                    )[n2] implies n1 == n2 by {
                    if n1 != name && n2 != name {
                        assert(before.contains_key(n1) && before.contains_key(n2));
                    } else if n1 == name && n2 != name {
                        assert(before.contains_key(n2) && before[n2] == window);
                    } else if n1 != name && n2 == name {
                        assert(before.contains_key(n1) && before[n1] == window);
                    }
                }
            },
            CycleOp::Remove(window) => {},
        }
    }
}

/// Law: after any separated sequence of `add_window` / `remove_window`
/// operations starting from no active windows, the active-window map holds a
/// window exactly when it was added and not removed afterwards.
pub proof fn lemma_active_map_exact(ops: Seq<CycleOp>, w: WindowHandle)
    requires
        ops_separated(Map::<Seq<char>, WindowHandle>::empty(), ops),
    ensures
        map_has_window(active_after(Map::<Seq<char>, WindowHandle>::empty(), ops), w)
            <==> added_and_not_removed(ops, w),
    decreases ops.len(),
{
    let empty = Map::<Seq<char>, WindowHandle>::empty();
    if ops.len() == 0 {
        assert(!map_has_window(empty, w));
    } else {
        let pre = ops.drop_last();
        let before = active_after(empty, pre);
        let after = active_after(empty, ops);
        lemma_active_map_exact(pre, w);
        lemma_active_after_injective(empty, pre);
        assert(forall|i: int| 0 <= i < pre.len() ==> pre[i] == ops[i]);
        match ops.last() {
            CycleOp::Add(name, window) => {
                assert(ops.last() == CycleOp::Add(name, window));
                assert(!before.contains_key(name) && !map_has_window(before, window));
                if window == w {
                    assert(after.contains_key(name) && after[name] == w);
                    assert(map_has_window(after, w));
                    assert(added_and_not_removed(ops, w)) by {
                        let i = ops.len() - 1;
                        assert(ops[i] == CycleOp::Add(name, w));
                    }
                } else {
                    // A different window: presence of `w` is untouched.
                    assert(map_has_window(after, w) <==> map_has_window(before, w)) by {
                        if map_has_window(before, w) {
                            let n0 = choose|n: Seq<char>| #[trigger]
                                before.contains_key(n) && before[n] == w;
                            assert(n0 != name);
                            assert(after.contains_key(n0) && after[n0] == w);
                        }
                        if map_has_window(after, w) {
                            let n0 = choose|n: Seq<char>| #[trigger]
                                after.contains_key(n) && after[n] == w;
                            assert(n0 != name);
                            assert(before.contains_key(n0) && before[n0] == w);
                        }
                    }
                    assert(added_and_not_removed(ops, w) <==> added_and_not_removed(pre, w)) by {
                        if added_and_not_removed(pre, w) {
                            let i = choose|i: int|
                                #![trigger pre[i]]
                                {
                                    &&& 0 <= i < pre.len()
                                    &&& (exists|n: Seq<char>| pre[i] == CycleOp::Add(n, w))
                                    &&& (forall|j: int|
                                        i < j < pre.len() ==> pre[j] != CycleOp::Remove(w))
                                };
                            assert(exists|n: Seq<char>| ops[i] == CycleOp::Add(n, w));
                            assert(forall|j: int| i < j < ops.len() ==> ops[j] != CycleOp::Remove(
                                w,
                            ));
                        }
                        if added_and_not_removed(ops, w) {
                            let i = choose|i: int|
                                #![trigger ops[i]]
                                {
                                    &&& 0 <= i < ops.len()
                                    &&& (exists|n: Seq<char>| ops[i] == CycleOp::Add(n, w))
                                    &&& (forall|j: int|
                                        i < j < ops.len() ==> ops[j] != CycleOp::Remove(w))
                                };
                            assert(i < pre.len());
                            assert(exists|n: Seq<char>| pre[i] == CycleOp::Add(n, w));
                        }
                    }
                }
            },
            CycleOp::Remove(window) => {
                if window == w {
                    // The last operation removes `w`: it is gone, and no
                    // witness index survives the final Remove.
                    assert(!map_has_window(after, w)) by {
                        if map_has_window(before, w) {
                            let n0 = choose|n: Seq<char>| #[trigger]
                                before.contains_key(n) && before[n] == w;
                            assert(after == before.remove(n0));
                            if map_has_window(after, w) {
                                let n1 = choose|n: Seq<char>| #[trigger]
                                    after.contains_key(n) && after[n] == w;
                                assert(before.contains_key(n1) && before[n1] == w);
                                assert(n1 == n0);
                                assert(false);
                            }
                        }
                    }
                    assert(!added_and_not_removed(ops, w)) by {
                        if added_and_not_removed(ops, w) {
                            let i = choose|i: int|
                                #![trigger ops[i]]
                                {
                                    &&& 0 <= i < ops.len()
                                    &&& (exists|n: Seq<char>| ops[i] == CycleOp::Add(n, w))
                                    &&& (forall|j: int|
                                        i < j < ops.len() ==> ops[j] != CycleOp::Remove(w))
                                };
                            assert(ops[ops.len() - 1] == CycleOp::Remove(w));
                            assert(i < ops.len() - 1);
                            assert(false);
                        }
                    }
                } else {
                    // Removing a different window leaves `w`'s presence as it
                    // was: only the (unique) name bound to `window` is dropped.
                    assert(map_has_window(after, w) <==> map_has_window(before, w)) by {
                        if map_has_window(before, window) {
                            let n0 = choose|n: Seq<char>| #[trigger]
                                before.contains_key(n) && before[n] == window;
                            assert(after == before.remove(n0));
                            if map_has_window(before, w) {
                                let n1 = choose|n: Seq<char>| #[trigger]
                                    before.contains_key(n) && before[n] == w;
                                assert(n1 != n0);
                                assert(after.contains_key(n1) && after[n1] == w);
                            }
                            if map_has_window(after, w) {
                                let n1 = choose|n: Seq<char>| #[trigger]
                                    after.contains_key(n) && after[n] == w;
                                assert(before.contains_key(n1) && before[n1] == w);
                            }
                        } else {
                            assert(after == before);
                        }
                    }
                    assert(added_and_not_removed(ops, w) <==> added_and_not_removed(pre, w)) by {
                        if added_and_not_removed(pre, w) {
                            let i = choose|i: int|
                                #![trigger pre[i]]
                                {
                                    &&& 0 <= i < pre.len()
                                    &&& (exists|n: Seq<char>| pre[i] == CycleOp::Add(n, w))
                                    &&& (forall|j: int|
                                        i < j < pre.len() ==> pre[j] != CycleOp::Remove(w))
                                };
                            assert(exists|n: Seq<char>| ops[i] == CycleOp::Add(n, w));
                            assert(ops[ops.len() - 1] != CycleOp::Remove(w));
                            assert(forall|j: int| i < j < ops.len() ==> ops[j] != CycleOp::Remove(
                                w,
                            ));
                        }
                        if added_and_not_removed(ops, w) {
                            let i = choose|i: int|
                                #![trigger ops[i]]
                                {
                                    &&& 0 <= i < ops.len()
                                    &&& (exists|n: Seq<char>| ops[i] == CycleOp::Add(n, w))
                                    &&& (forall|j: int|
                                        i < j < ops.len() ==> ops[j] != CycleOp::Remove(w))
                                };
                            assert(i < pre.len());
                            assert(exists|n: Seq<char>| pre[i] == CycleOp::Add(n, w));
                        }
                    }
                }
            },
        }
    }
}

} // verus!
