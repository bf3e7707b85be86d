//! Drag arithmetic and snapping: a dragged tile follows the pointer delta,
//! and each axis may snap to the nearest candidate edge within an inclusive
//! threshold. A threshold of 0 disables snapping.

use vstd::prelude::*;

verus! {

/// Distance between two integers.
pub open spec fn dist(a: int, b: int) -> int {
    if a >= b {
        a - b
    } else {
        b - a
    }
}

/// Saturate an unbounded coordinate into the i16 range.
pub open spec fn clamp_i16(v: int) -> i16 {
    if v < -0x8000 {
        (-0x8000) as i16
    } else if v > 0x7FFF {
        0x7FFF as i16
    } else {
        v as i16
    }
}

/// The raw drag target of one axis: window start plus pointer travel.
pub open spec fn drag_target(win_start: i16, pointer_start: i16, pointer: i16) -> int {
    win_start + pointer - pointer_start
}

/// One axis of the drag position, saturated to coordinate range.
pub fn drag_coordinate(win_start: i16, pointer_start: i16, pointer: i16) -> (r: i16)
    ensures
        r == clamp_i16(drag_target(win_start, pointer_start, pointer)),
{
    let target: i32 = win_start as i32 + pointer as i32 - pointer_start as i32;
    if target < -0x8000 {
        -0x8000i16
    } else if target > 0x7FFF {
        0x7FFFi16
    } else {
        target as i16
    }
}

/// The candidate an axis snaps to: the one nearest to `value` among those
/// within the (inclusive) threshold, the earliest winning a tie; or none.
pub open spec fn snap_choice(value: int, cands: Seq<int>, threshold: int) -> Option<int>
    decreases cands.len(),
{
    if cands.len() == 0 {
        None
    } else {
        let rest = snap_choice(value, cands.drop_last(), threshold);
        let c = cands.last();
        if dist(c, value) <= threshold && (rest is None || dist(c, value) < dist(
            rest->Some_0,
            value,
        )) {
            Some(c)
        } else {
            rest
        }
    }
}

/// The coordinate after snapping one axis: the chosen candidate, or the raw
/// value when no candidate lies within the threshold.
pub open spec fn snapped(value: int, cands: Seq<int>, threshold: int) -> int {
    match snap_choice(value, cands, threshold) {
        Some(c) => c,
        None => value,
    }
}

/// The snapped coordinate is the raw value or a candidate within the
/// inclusive threshold; it is never farther from the raw value than any
/// candidate inside the threshold; and a threshold of 0 can only reproduce
/// the raw value, so snapping is disabled.
pub proof fn lemma_snapped_props(value: int, cands: Seq<int>, threshold: int)
    requires
        threshold >= 0,
    ensures
        match snap_choice(value, cands, threshold) {
            Some(c) => cands.contains(c) && dist(c, value) <= threshold,
            None => snapped(value, cands, threshold) == value && forall|k: int|
                0 <= k < cands.len() ==> dist(#[trigger] cands[k], value) > threshold,
        },
        forall|k: int|
            0 <= k < cands.len() && dist(#[trigger] cands[k], value) <= threshold ==> dist(
                snapped(value, cands, threshold),
                value,
            ) <= dist(cands[k], value),
        threshold == 0 ==> snapped(value, cands, threshold) == value,
    decreases cands.len(),
{
    if cands.len() > 0 {
        lemma_snapped_props(value, cands.drop_last(), threshold);
        match snap_choice(value, cands.drop_last(), threshold) {
            Some(rest) => {
                let i = choose|i: int|
                    0 <= i < cands.drop_last().len() && cands.drop_last()[i] == rest;
                assert(cands[i] == rest);
            },
            None => {},
        }
        assert(forall|k: int| 0 <= k < cands.drop_last().len() ==> cands.drop_last()[k]
            == cands[k]);
    }
}

/// Snap one axis: the nearest candidate within the inclusive threshold, the
/// first winning a tie, or the value itself when none is near enough.
pub fn snap_coordinate(value: i16, candidates: &Vec<i32>, threshold: u16) -> (r: i32)
    ensures
        r == snapped(value as int, candidates@.map_values(|c: i32| c as int), threshold as int),
{
    let ghost cs = candidates@.map_values(|c: i32| c as int);
    let n = candidates.len();
    let mut best: i32 = 0;
    let mut found = false;
    let mut best_dist: i64 = threshold as i64 + 1;
    let mut i: usize = 0;
    while i < n
        invariant
            n == candidates@.len(),
            i <= n,
            cs == candidates@.map_values(|c: i32| c as int),
            cs.len() == n,
            forall|k: int| 0 <= k < n ==> cs[k] == candidates@[k] as int,
            match snap_choice(value as int, cs.take(i as int), threshold as int) {
                Some(b) => found && best == b && best_dist == dist(b as int, value as int),
                None => !found && best_dist == threshold as int + 1,
            },
        decreases n - i,
    {
        let c = candidates[i];
        let d: i64 = if c as i64 >= value as i64 {
            c as i64 - value as i64
        } else {
            value as i64 - c as i64
        };
        proof {
            assert(cs.take(i as int + 1).drop_last() =~= cs.take(i as int));
            assert(cs.take(i as int + 1).last() == cs[i as int]);
        }
        if d <= threshold as i64 && d < best_dist {
            best = c;
            best_dist = d;
            found = true;
        }
        i = i + 1;
    }
    proof {
        assert(cs.take(n as int) =~= cs);
    }
    if found {
        best
    } else {
        value as i32
    }
}

} // verus!
