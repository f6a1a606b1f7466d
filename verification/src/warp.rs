//! Interstellar warp: J jumps the ship to the next destination in the list,
//! cycling through it. Where the ship drops out is a position (floating
//! point); which destination comes next is decided here.

use vstd::prelude::*;

verus! {

/// The destination a press of J warps to, and the index of the one after it,
/// for a list of `count` destinations.
pub open spec fn warp_pick(current: usize, count: usize) -> (usize, usize)
    recommends
        count > 0,
{
    let idx = current % count;
    (idx, ((idx + 1) % (count as int)) as usize)
}

/// J with `count` destinations and `current` as the cursor: the destination to
/// warp to and the new cursor, or nothing when J is not pressed or there is
/// nowhere to go.
pub fn warp_step(pressed: bool, current: usize, count: usize) -> (r: Option<(usize, usize)>)
    ensures
        r == (if pressed && count > 0 {
            Some(warp_pick(current, count))
        } else {
            None::<(usize, usize)>
        }),
        r matches Some((idx, next)) ==> idx < count && next < count,
{
    if !pressed || count == 0 {
        return None;
    }
    let idx = current % count;
    let next = (idx + 1) % count;
    Some((idx, next))
}

/// The destination reached by the `k`th press of J (counting from 0), starting
/// with cursor `current`.
pub open spec fn kth_destination(current: usize, count: usize, k: nat) -> usize
    decreases k,
{
    if k == 0 {
        warp_pick(current, count).0
    } else {
        let prev = kth_destination(current, count, (k - 1) as nat);
        warp_pick(warp_pick(prev, count).1, count).0
    }
}

/// Successive presses of J visit the destinations in order, wrapping around:
/// the `k`th press goes to `(current + k) % count`, so every destination is
/// visited once in `count` presses.
pub proof fn lemma_warp_cycles(current: usize, count: usize, k: nat)
    requires
        count > 0,
    ensures
        kth_destination(current, count, k) == (current + k) % (count as int),
    decreases k,
{
    let n = count as int;
    if k > 0 {
        lemma_warp_cycles(current, count, (k - 1) as nat);
        let prev = (current + k - 1) % n;
        assert(0 <= prev < n);
        vstd::arithmetic::div_mod::lemma_small_mod(prev as nat, n as nat);
        assert(kth_destination(current, count, (k - 1) as nat) == prev);
        assert(warp_pick(prev as usize, count).1 == ((prev + 1) % n) as usize);
        vstd::arithmetic::div_mod::lemma_add_mod_noop(current + k - 1, 1, n);
        if n > 1 {
            vstd::arithmetic::div_mod::lemma_small_mod(1, n as nat);
        }
        assert((prev + 1) % n == (current + k) % n);
        vstd::arithmetic::div_mod::lemma_small_mod(((prev + 1) % n) as nat, n as nat);
    }
}

} // verus!
