use legion_kb_rgb::ripple::{
    advance_zone_state, contains_key, mark_pressed_zones, newly_pressed, ripple_frame, step_zone_state,
    update_zone_pressed, RippleMove,
};
use std::collections::HashSet;
use RippleMove::{Center, Left, Off, Right};

fn set(keys: &[u32]) -> HashSet<u32> {
    keys.iter().copied().collect()
}

#[test]
fn press_sends_waves_both_ways() {
    assert_eq!(step_zone_state([Off, Center, Off, Off]), [Left, Off, Right, Off]);
    assert_eq!(step_zone_state([Center, Off, Off, Off]), [Off, Right, Off, Off]);
    assert_eq!(step_zone_state([Off, Off, Off, Center]), [Off, Off, Left, Off]);
}

#[test]
fn waves_travel_and_leave() {
    assert_eq!(step_zone_state([Left, Off, Right, Off]), [Off, Off, Off, Right]);
    assert_eq!(step_zone_state([Off, Off, Off, Right]), [Off, Off, Off, Off]);
    assert_eq!(step_zone_state([Off, Left, Off, Off]), [Left, Off, Off, Off]);
}

#[test]
fn presses_win_over_waves() {
    // Zone 1 receives a right-moving wave from zone 0 and a left-moving one from a press at 2.
    assert_eq!(step_zone_state([Right, Off, Center, Off]), [Off, Left, Off, Right]);
    // A left-moving wave from 2 meets a right-moving one from 0: the left one wins.
    assert_eq!(step_zone_state([Right, Off, Left, Off]), [Off, Left, Off, Off]);
}

#[test]
fn ripples_die_out_in_four_steps() {
    let mut s = [Center, Left, Right, Center];
    for _ in 0..4 {
        s = step_zone_state(s);
    }
    assert_eq!(s, [Off, Off, Off, Off]);
}

#[test]
fn stepping_waits_for_the_interval() {
    let s = [Off, Center, Off, Off];
    // speed 1: 200 ms
    assert_eq!(advance_zone_state(s, 200_000_000, 1), (s, false));
    assert_eq!(advance_zone_state(s, 200_000_001, 1), ([Left, Off, Right, Off], true));
    // speed 3: 66 ms
    assert_eq!(advance_zone_state(s, 66_000_000, 3), (s, false));
    assert_eq!(advance_zone_state(s, 66_000_001, 3), ([Left, Off, Right, Off], true));
    // speed 255: 0 ms
    assert_eq!(advance_zone_state(s, 1, 255), ([Left, Off, Right, Off], true));
    assert_eq!(advance_zone_state(s, 0, 255), (s, false));
}

#[test]
fn frame_shows_rippled_zones_only() {
    let rgb = [1, 2, 3, 4, 5, 6, 7, 8, 9, 10, 11, 12];
    assert_eq!(ripple_frame(rgb, [Off, Left, Off, Center]), [0, 0, 0, 4, 5, 6, 0, 0, 0, 10, 11, 12]);
    assert_eq!(ripple_frame(rgb, [Off, Off, Off, Off]), [0; 12]);
    assert_eq!(ripple_frame(rgb, [Right, Left, Center, Right]), rgb);
}

#[test]
fn held_keys_make_centres() {
    let pressed = [set(&[]), set(&[7]), set(&[]), set(&[1, 2])];
    assert_eq!(mark_pressed_zones([Left, Off, Right, Off], &pressed), [Left, Center, Right, Center]);
}

#[test]
fn new_keys() {
    assert_eq!(newly_pressed(&vec![5, 1, 9, 2], &vec![1, 2, 3]), vec![5, 9]);
    assert_eq!(newly_pressed(&vec![], &vec![1]), Vec::<u32>::new());
    assert!(contains_key(&vec![3, 4], 4));
    assert!(!contains_key(&vec![3, 4], 5));
}

#[test]
fn zone_key_tracking() {
    let zone = vec![10, 11, 12];
    let mut held = HashSet::new();
    // 10 newly pressed, 20 is not in the zone.
    update_zone_pressed(&mut held, &zone, &vec![10, 20], &vec![]);
    assert_eq!(held, set(&[10]));
    // 11 newly pressed, 10 still held.
    update_zone_pressed(&mut held, &zone, &vec![10, 11], &vec![10, 20]);
    assert_eq!(held, set(&[10, 11]));
    // 10 released.
    update_zone_pressed(&mut held, &zone, &vec![11], &vec![10, 11]);
    assert_eq!(held, set(&[11]));
    // A key already tracked stays once.
    let mut again = set(&[12]);
    update_zone_pressed(&mut again, &zone, &vec![12], &vec![]);
    assert_eq!(again, set(&[12]));
    // Everything released.
    let mut all = set(&[11, 12]);
    update_zone_pressed(&mut all, &zone, &vec![], &vec![11, 12]);
    assert!(all.is_empty());
    // A held key outside this poll's changes stays.
    let mut other = set(&[99]);
    update_zone_pressed(&mut other, &zone, &vec![], &vec![99]);
    assert_eq!(other, set(&[99]));
}
