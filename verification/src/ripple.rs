use std::collections::HashSet;
use vstd::prelude::*;

verus! {

/// What a zone shows in the ripple effect: the centre of a key press, a wave
/// travelling left or right, or nothing.
#[derive(Debug, Clone, Copy, PartialEq, Eq, Structural)]
pub enum RippleMove {
    Center,
    Left,
    Right,
    Off,
}

/// What zone `j` shows after one step of the waves in `zs`. A press at the right-hand
/// neighbour sends a wave left into the zone, and one at the left-hand neighbour a wave
/// right; otherwise a wave arriving from the right-hand neighbour travels on left, and
/// one arriving from the left-hand neighbour travels on right. The earlier rules win.
pub open spec fn stepped_move(zs: Seq<RippleMove>, j: int) -> RippleMove {
    if j + 1 < 4 && zs[j + 1] == RippleMove::Center {
        RippleMove::Left
    } else if j >= 1 && zs[j - 1] == RippleMove::Center {
        RippleMove::Right
    } else if j + 1 < 4 && zs[j + 1] == RippleMove::Left {
        RippleMove::Left
    } else if j >= 1 && zs[j - 1] == RippleMove::Right {
        RippleMove::Right
    } else {
        RippleMove::Off
    }
}

/// The four zones after one step of the waves.
pub open spec fn spec_step(zs: Seq<RippleMove>) -> Seq<RippleMove> {
    Seq::new(4, |j: int| stepped_move(zs, j))
}

/// Whether `elapsed_nanos` exceeds the step interval of 200 / `speed` milliseconds.
pub open spec fn step_due(elapsed_nanos: u128, speed: u8) -> bool {
    elapsed_nanos > (200int / (speed as int)) * 1_000_000
}

/// Moves every wave one zone further. Waves are moved first; then each press sends a
/// wave into both of its neighbours, overriding what the moves put there.
pub fn step_zone_state(zone_state: [RippleMove; 4]) -> (r: [RippleMove; 4])
    ensures
        r@ == spec_step(zone_state@),
{
    let mut new_state = [RippleMove::Off, RippleMove::Off, RippleMove::Off, RippleMove::Off];
    let mut i: usize = 0;
    while i < 4
        invariant
            0 <= i <= 4,
            forall|j: int| #![trigger new_state@[j]] 0 <= j < 4 ==> new_state@[j] == {
                if j + 1 < i && zone_state@[j + 1] == RippleMove::Left {
                    RippleMove::Left
                } else if j >= 1 && j - 1 < i && zone_state@[j - 1] == RippleMove::Right {
                    RippleMove::Right
                } else {
                    RippleMove::Off
                }
            },
        decreases 4 - i,
    {
        match zone_state[i] {
            RippleMove::Left => {
                if i != 0 {
                    new_state[i - 1] = RippleMove::Left;
                }
            },
            RippleMove::Right => {
                if i + 1 < 4 {
                    new_state[i + 1] = RippleMove::Right;
                }
            },
            _ => {},
        }
        i = i + 1;
    }
    let mut i: usize = 0;
    while i < 4
        invariant
            0 <= i <= 4,
            forall|j: int| #![trigger new_state@[j]] 0 <= j < 4 ==> new_state@[j] == {
                if j + 1 < i && zone_state@[j + 1] == RippleMove::Center {
                    RippleMove::Left
                } else if j >= 1 && j - 1 < i && zone_state@[j - 1] == RippleMove::Center {
                    RippleMove::Right
                } else if j + 1 < 4 && zone_state@[j + 1] == RippleMove::Left {
                    RippleMove::Left
                } else if j >= 1 && zone_state@[j - 1] == RippleMove::Right {
                    RippleMove::Right
                } else {
                    RippleMove::Off
                }
            },
        decreases 4 - i,
    {
        if zone_state[i] == RippleMove::Center {
            if i != 0 {
                new_state[i - 1] = RippleMove::Left;
            }
            if i + 1 < 4 {
                new_state[i + 1] = RippleMove::Right;
            }
        }
        i = i + 1;
    }
    assert(new_state@ =~= spec_step(zone_state@));
    new_state
}

/// Steps the waves when more than 200 / `speed` milliseconds have passed since the
/// last step, and tells whether it did; otherwise the zones stay as they are.
pub fn advance_zone_state(zone_state: [RippleMove; 4], elapsed_nanos: u128, speed: u8) -> (r: (
    [RippleMove; 4],
    bool,
))
    requires
        speed > 0,
    ensures
        r.1 == step_due(elapsed_nanos, speed),
        r.1 ==> r.0@ == spec_step(zone_state@),
        !r.1 ==> r.0 == zone_state,
{
    let interval_ms: u128 = (200u8 / speed) as u128;
    if elapsed_nanos > interval_ms * 1_000_000 {
        (step_zone_state(zone_state), true)
    } else {
        (zone_state, false)
    }
}

/// Whether `key` is in `keys`.
pub fn contains_key(keys: &Vec<u32>, key: u32) -> (r: bool)
    ensures
        r == keys@.contains(key),
{
    let mut i: usize = 0;
    while i < keys.len()
        invariant
            i <= keys@.len(),
            forall|k: int| 0 <= k < i ==> keys@[k] != key,
        decreases keys.len() - i,
    {
        if keys[i] == key {
            return true;
        }
        i = i + 1;
    }
    false
}

/// The keys held now that were not held at the previous poll, in the order of `keys`.
pub fn newly_pressed(keys: &Vec<u32>, last_keys: &Vec<u32>) -> (r: Vec<u32>)
    ensures
        r@ == keys@.filter(|k: u32| !last_keys@.contains(k)),
{
    let ghost pred = |k: u32| !last_keys@.contains(k);
    let mut r: Vec<u32> = Vec::new();
    let mut i: usize = 0;
    while i < keys.len()
        invariant
            i <= keys@.len(),
            pred == (|k: u32| !last_keys@.contains(k)),
            r@ == keys@.take(i as int).filter(pred),
        decreases keys.len() - i,
    {
        let ghost before = r@;
        let fresh = !contains_key(last_keys, keys[i]);
        if fresh {
            r.push(keys[i]);
        }
        proof {
            reveal_with_fuel(Seq::<_>::filter, 1);
            assert(keys@.take(i + 1).drop_last() =~= keys@.take(i as int));
            assert(keys@.take(i + 1).last() == keys@[i as int]);
            assert(pred(keys@[i as int]) == fresh);
            assert(keys@.take(i + 1).filter(pred) == if fresh { before.push(keys@[i as int]) } else { before });
        }
        i = i + 1;
    }
    assert(keys@.take(keys@.len() as int) =~= keys@);
    r
}

/// An element is in a sequence with one more element pushed iff it was in the sequence or is that element.
proof fn lemma_contains_push(s: Seq<u32>, x: u32, k: u32)
    ensures
        s.push(x).contains(k) <==> (s.contains(k) || k == x),
{
    if s.push(x).contains(k) && k != x {
        let w = choose|w: int| 0 <= w < s.push(x).len() && s.push(x)[w] == k;
        assert(s[w] == k);
    }
    if s.contains(k) {
        let w = choose|w: int| 0 <= w < s.len() && s[w] == k;
        assert(s.push(x)[w] == k);
    }
    if k == x {
        assert(s.push(x)[s.len() as int] == k);
    }
}

/// Whether `k` is a key of the zone that is held now and was not before.
pub open spec fn pressed_in_zone(k: u32, zone_keys: Seq<u32>, keys: Seq<u32>, last_keys: Seq<u32>) -> bool {
    zone_keys.contains(k) && keys.contains(k) && !last_keys.contains(k)
}

/// Whether `k` is a key of the zone that was held before and is not now.
pub open spec fn released_in_zone(k: u32, zone_keys: Seq<u32>, keys: Seq<u32>, last_keys: Seq<u32>) -> bool {
    zone_keys.contains(k) && last_keys.contains(k) && !keys.contains(k)
}

/// Takes one poll into account for the keys held in a zone: the keys of the zone newly
/// pressed are added, and those of the zone released are removed.
pub fn update_zone_pressed(pressed: &mut HashSet<u32>, zone_keys: &Vec<u32>, keys: &Vec<u32>, last_keys: &Vec<u32>)
    ensures
        forall|k: u32| #![trigger final(pressed)@.contains(k)] final(pressed)@.contains(k) <==> ((old(pressed)@.contains(k)
            && !released_in_zone(k, zone_keys@, keys@, last_keys@)) || pressed_in_zone(k, zone_keys@, keys@, last_keys@)),
{
    broadcast use vstd::std_specs::hash::group_hash_axioms;
    let ghost start = pressed@;
    let mut i: usize = 0;
    while i < keys.len()
        invariant
            i <= keys@.len(),
            forall|k: u32| #![trigger pressed@.contains(k)] pressed@.contains(k) <==> (start.contains(k) || (zone_keys@.contains(k)
                && keys@.take(i as int).contains(k) && !last_keys@.contains(k))),
        decreases keys.len() - i,
    {
        let key = keys[i];
        let ghost before = pressed@;
        let fresh = !contains_key(last_keys, key) && contains_key(zone_keys, key);
        if fresh {
            pressed.insert(key);
        }
        proof {
            assert(keys@.take(i + 1) =~= keys@.take(i as int).push(key));
            assert forall|k: u32| #![trigger pressed@.contains(k)] pressed@.contains(k) <==> (start.contains(k) || (zone_keys@.contains(k)
                && keys@.take(i + 1).contains(k) && !last_keys@.contains(k))) by {
                assert(before.contains(k) <==> (start.contains(k) || (zone_keys@.contains(k)
                    && keys@.take(i as int).contains(k) && !last_keys@.contains(k))));
                lemma_contains_push(keys@.take(i as int), key, k);
            }
        }
        i = i + 1;
    }
    assert(keys@.take(keys@.len() as int) =~= keys@);
    let ghost middle = pressed@;
    let mut j: usize = 0;
    while j < last_keys.len()
        invariant
            j <= last_keys@.len(),
            forall|k: u32| #![trigger middle.contains(k)] middle.contains(k) <==> (start.contains(k) || pressed_in_zone(k, zone_keys@, keys@, last_keys@)),
            forall|k: u32| #![trigger pressed@.contains(k)] pressed@.contains(k) <==> (middle.contains(k) && !(zone_keys@.contains(k)
                && last_keys@.take(j as int).contains(k) && !keys@.contains(k))),
        decreases last_keys.len() - j,
    {
        let key = last_keys[j];
        let ghost before = pressed@;
        let gone = !contains_key(keys, key) && contains_key(zone_keys, key);
        if gone {
            pressed.remove(&key);
        }
        proof {
            assert(last_keys@.take(j + 1) =~= last_keys@.take(j as int).push(key));
            assert forall|k: u32| #![trigger pressed@.contains(k)] pressed@.contains(k) <==> (middle.contains(k) && !(zone_keys@.contains(k)
                && last_keys@.take(j + 1).contains(k) && !keys@.contains(k))) by {
                assert(before.contains(k) <==> (middle.contains(k) && !(zone_keys@.contains(k)
                    && last_keys@.take(j as int).contains(k) && !keys@.contains(k))));
                lemma_contains_push(last_keys@.take(j as int), key, k);
            }
        }
        j = j + 1;
    }
    assert(last_keys@.take(last_keys@.len() as int) =~= last_keys@);
    assert forall|k: u32| #![trigger pressed@.contains(k)] pressed@.contains(k) <==> ((start.contains(k)
        && !released_in_zone(k, zone_keys@, keys@, last_keys@)) || pressed_in_zone(k, zone_keys@, keys@, last_keys@)) by {
        assert(middle.contains(k) <==> (start.contains(k) || pressed_in_zone(k, zone_keys@, keys@, last_keys@)));
    }
}

/// The four zones after the keys held in each zone are taken into account: a zone in
/// which some key is held becomes the centre of a ripple.
pub fn mark_pressed_zones(zone_state: [RippleMove; 4], pressed: &[HashSet<u32>; 4]) -> (r: [RippleMove; 4])
    ensures
        forall|z: int| #![trigger r@[z]] 0 <= z < 4 ==> r@[z] == if !pressed@[z]@.is_empty() {
            RippleMove::Center
        } else {
            zone_state@[z]
        },
{
    let mut r = zone_state;
    let mut i: usize = 0;
    while i < 4
        invariant
            0 <= i <= 4,
            forall|z: int| #![trigger r@[z]] 0 <= z < 4 ==> r@[z] == if z < i && !pressed@[z]@.is_empty() {
                RippleMove::Center
            } else {
                zone_state@[z]
            },
        decreases 4 - i,
    {
        if !pressed[i].is_empty() {
            r[i] = RippleMove::Center;
        }
        i = i + 1;
    }
    r
}

/// The colours shown by the ripple effect: a zone with a ripple shows its colour from
/// `rgb`, a zone without one is black.
pub open spec fn spec_ripple_frame(rgb: Seq<u8>, zs: Seq<RippleMove>) -> Seq<u8> {
    Seq::new(12, |i: int| if zs[i / 3] != RippleMove::Off { rgb[i] } else { 0u8 })
}

/// The twelve channel values that the ripple effect shows for the zones in `zone_state`.
pub fn ripple_frame(rgb: [u8; 12], zone_state: [RippleMove; 4]) -> (r: [u8; 12])
    ensures
        r@ == spec_ripple_frame(rgb@, zone_state@),
        forall|z: int, c: int| 0 <= z < 4 && 0 <= c < 3 ==> #[trigger] r@[3 * z + c] == if zone_state@[z] != RippleMove::Off {
            rgb@[3 * z + c]
        } else {
            0u8
        },
{
    let mut r: [u8; 12] = [0; 12];
    let mut i: usize = 0;
    while i < 4
        invariant
            0 <= i <= 4,
            forall|k: int| #![trigger r@[k]] 0 <= k < 12 ==> r@[k] == if k / 3 < i && zone_state@[k / 3] != RippleMove::Off {
                rgb@[k]
            } else {
                0u8
            },
        decreases 4 - i,
    {
        if zone_state[i] != RippleMove::Off {
            r[i * 3] = rgb[i * 3];
            r[i * 3 + 1] = rgb[i * 3 + 1];
            r[i * 3 + 2] = rgb[i * 3 + 2];
        }
        i = i + 1;
    }
    assert(r@ =~= spec_ripple_frame(rgb@, zone_state@));
    proof {
        lemma_ripple_frame_shows_rippled_zones(rgb@, zone_state@);
    }
    r
}

/// In the ripple frame each channel of a zone with a ripple is the zone's own colour,
/// and each channel of a zone without one is black.
pub proof fn lemma_ripple_frame_shows_rippled_zones(rgb: Seq<u8>, zs: Seq<RippleMove>)
    ensures
        forall|z: int, c: int| 0 <= z < 4 && 0 <= c < 3 ==> #[trigger] spec_ripple_frame(rgb, zs)[3 * z + c] == if zs[z] != RippleMove::Off {
            rgb[3 * z + c]
        } else {
            0u8
        },
{
    assert forall|z: int, c: int| 0 <= z < 4 && 0 <= c < 3 implies #[trigger] spec_ripple_frame(rgb, zs)[3 * z + c] == if zs[z] != RippleMove::Off {
        rgb[3 * z + c]
    } else {
        0u8
    } by {
        assert((3 * z + c) / 3 == z);
    }
}

/// Waves travel one zone per step: a wave moving right goes on into the next zone
/// unless a press or a left-moving wave there beside it takes that zone, and a wave
/// moving left goes on into the previous zone unless a press two zones to the left
/// takes it. A wave at the edge leaves the keyboard.
pub proof fn lemma_waves_travel(zs: Seq<RippleMove>)
    requires
        zs.len() == 4,
    ensures
        forall|j: int| 0 <= j < 3 && zs[j] == RippleMove::Right && !(j + 2 < 4 && (zs[j + 2] == RippleMove::Center
            || zs[j + 2] == RippleMove::Left)) ==> #[trigger] spec_step(zs)[j + 1] == RippleMove::Right,
        forall|j: int| 1 <= j < 4 && zs[j] == RippleMove::Left && !(j >= 2 && zs[j - 2] == RippleMove::Center)
            ==> #[trigger] spec_step(zs)[j - 1] == RippleMove::Left,
{
}

/// A press sends a wave left into the zone before it, and a wave right into the zone
/// after it unless a press two zones to the right takes that zone.
pub proof fn lemma_press_sends_waves(zs: Seq<RippleMove>)
    requires
        zs.len() == 4,
    ensures
        forall|j: int| 1 <= j < 4 && zs[j] == RippleMove::Center ==> #[trigger] spec_step(zs)[j - 1] == RippleMove::Left,
        forall|j: int| 0 <= j < 3 && zs[j] == RippleMove::Center && !(j + 2 < 4 && zs[j + 2] == RippleMove::Center)
            ==> #[trigger] spec_step(zs)[j + 1] == RippleMove::Right,
{
}

/// A zone shows something after a step only when a neighbour had a press or a wave
/// heading its way: nothing appears out of nowhere, and every zone keeps moving.
pub proof fn lemma_step_needs_a_source(zs: Seq<RippleMove>)
    requires
        zs.len() == 4,
    ensures
        forall|j: int| 0 <= j < 4 && #[trigger] spec_step(zs)[j] != RippleMove::Off ==> {
            ||| (j + 1 < 4 && (zs[j + 1] == RippleMove::Center || zs[j + 1] == RippleMove::Left))
            ||| (j >= 1 && (zs[j - 1] == RippleMove::Center || zs[j - 1] == RippleMove::Right))
        },
{
}

/// The zones after `n` steps of the waves.
pub open spec fn steps(zs: Seq<RippleMove>, n: nat) -> Seq<RippleMove>
    decreases n,
{
    if n == 0 {
        zs
    } else {
        spec_step(steps(zs, (n - 1) as nat))
    }
}

/// Every zone is off.
pub open spec fn all_off(zs: Seq<RippleMove>) -> bool {
    forall|j: int| 0 <= j < 4 ==> #[trigger] zs[j] == RippleMove::Off
}

/// No centre, waves travelling left only in zones below `left_bound`, and waves
/// travelling right only in zones at or above `right_bound`.
pub open spec fn waves_within(zs: Seq<RippleMove>, left_bound: int, right_bound: int) -> bool {
    forall|j: int| #![trigger zs[j]] 0 <= j < 4 ==> zs[j] != RippleMove::Center
        && (zs[j] == RippleMove::Left ==> j < left_bound)
        && (zs[j] == RippleMove::Right ==> j >= right_bound)
}

/// After a step no zone is the centre of a ripple: presses only last until the next step.
pub proof fn lemma_step_has_no_center(zs: Seq<RippleMove>)
    ensures
        forall|j: int| 0 <= j < 4 ==> #[trigger] spec_step(zs)[j] != RippleMove::Center,
        waves_within(spec_step(zs), 3, 1),
{
}

/// Each further step moves every wave one zone outward.
proof fn lemma_step_moves_waves_out(zs: Seq<RippleMove>, left_bound: int, right_bound: int)
    requires
        zs.len() == 4,
        waves_within(zs, left_bound, right_bound),
    ensures
        waves_within(spec_step(zs), left_bound - 1, right_bound + 1),
{
    assert forall|j: int| 0 <= j < 4 implies #[trigger] spec_step(zs)[j] == stepped_move(zs, j) by {}
    assert forall|j: int| #![trigger spec_step(zs)[j]] 0 <= j < 4 implies spec_step(zs)[j] != RippleMove::Center
        && (spec_step(zs)[j] == RippleMove::Left ==> j < left_bound - 1)
        && (spec_step(zs)[j] == RippleMove::Right ==> j >= right_bound + 1) by {
        if j + 1 < 4 {
            assert(zs[j + 1] != RippleMove::Center);
        }
        if j >= 1 {
            assert(zs[j - 1] != RippleMove::Center);
        }
    }
}

/// Without new presses, every ripple has left the keyboard after four steps.
pub proof fn lemma_ripples_die_out(zs: Seq<RippleMove>)
    requires
        zs.len() == 4,
    ensures
        all_off(steps(zs, 4)),
{
    reveal_with_fuel(steps, 5);
    lemma_step_has_no_center(zs);
    let s1 = spec_step(zs);
    lemma_step_moves_waves_out(s1, 3, 1);
    let s2 = spec_step(s1);
    lemma_step_moves_waves_out(s2, 2, 2);
    let s3 = spec_step(s2);
    lemma_step_moves_waves_out(s3, 1, 3);
    let s4 = spec_step(s3);
    assert(steps(zs, 4) == s4);
    assert forall|j: int| 0 <= j < 4 implies #[trigger] s4[j] == RippleMove::Off by {
        assert(waves_within(s4, 0, 4));
    }
}

/// A keyboard without ripples stays dark.
pub proof fn lemma_dark_is_stable(zs: Seq<RippleMove>)
    requires
        zs.len() == 4,
        all_off(zs),
    ensures
        all_off(spec_step(zs)),
{
    assert forall|j: int| 0 <= j < 4 implies #[trigger] spec_step(zs)[j] == RippleMove::Off by {
        if j + 1 < 4 {
            assert(zs[j + 1] == RippleMove::Off);
        }
        if j >= 1 {
            assert(zs[j - 1] == RippleMove::Off);
        }
    }
}

} // verus!
