use legion_kb_rgb::enums::{Brightness, Direction, Effects};
use legion_kb_rgb::profile::{arr_to_zones, cycle_profiles, preset_palettes, repeat_color, same_name, KeyboardZone, Profile};

#[test]
fn zones_from_array() {
    let z = arr_to_zones([1, 2, 3, 4, 5, 6, 7, 8, 9, 10, 11, 12]);
    assert_eq!(z[0], KeyboardZone { rgb: [1, 2, 3], enabled: true });
    assert_eq!(z[1], KeyboardZone { rgb: [4, 5, 6], enabled: true });
    assert_eq!(z[2], KeyboardZone { rgb: [7, 8, 9], enabled: true });
    assert_eq!(z[3], KeyboardZone { rgb: [10, 11, 12], enabled: true });
}

#[test]
fn rgb_array_round_trip() {
    let arr = [255, 0, 0, 255, 185, 0, 179, 181, 237, 76, 0, 255];
    let mut p = Profile::default();
    p.rgb_zones = arr_to_zones(arr);
    assert_eq!(p.rgb_array(), arr);
}

#[test]
fn rgb_array_blacks_out_disabled_zones() {
    let mut p = Profile::default();
    p.rgb_zones = arr_to_zones([1, 2, 3, 4, 5, 6, 7, 8, 9, 10, 11, 12]);
    p.rgb_zones[1].enabled = false;
    p.rgb_zones[3].enabled = false;
    assert_eq!(p.rgb_array(), [1, 2, 3, 0, 0, 0, 7, 8, 9, 0, 0, 0]);
}

#[test]
fn default_profile() {
    let p = Profile::default();
    assert_eq!(p.name, None);
    assert_eq!(p.rgb_array(), [255, 0, 0, 255, 185, 0, 179, 181, 237, 76, 0, 255]);
    assert!(matches!(p.effect, Effects::Static));
    assert_eq!(p.direction, Direction::Left);
    assert_eq!(p.speed, 1);
    assert_eq!(p.brightness, Brightness::Low);
    assert_eq!(KeyboardZone::default(), KeyboardZone { rgb: [0, 0, 0], enabled: true });
}

#[test]
fn palettes() {
    let p = preset_palettes();
    let names: Vec<&str> = p.iter().map(|x| x.name).collect();
    assert_eq!(names, vec!["Default", "Cyberpunk", "Ice & Fire", "Aurora", "Pure White"]);
    assert_eq!(p[0].colors, [255, 0, 0, 255, 185, 0, 179, 181, 237, 76, 0, 255]);
    assert_eq!(p[1].colors, [255, 0, 128, 140, 0, 255, 0, 220, 255, 255, 0, 200]);
    assert_eq!(p[2].colors, [0, 150, 255, 0, 220, 255, 255, 120, 0, 255, 30, 0]);
    assert_eq!(p[3].colors, [0, 255, 150, 0, 200, 255, 120, 0, 255, 255, 0, 120]);
    assert_eq!(p[4].colors, [255; 12]);
}

#[test]
fn repeated_color() {
    assert_eq!(repeat_color([1, 2, 3]), [1, 2, 3, 1, 2, 3, 1, 2, 3, 1, 2, 3]);
    let mut p = Profile::default();
    p.rgb_zones = arr_to_zones(repeat_color([9, 8, 7]));
    assert_eq!(p.rgb_array(), [9, 8, 7, 9, 8, 7, 9, 8, 7, 9, 8, 7]);
}

#[test]
fn naming_before_save() {
    let mut p = Profile::default();
    p.ensure_named();
    assert_eq!(p.name, Some("Untitled".to_string()));
    let mut q = Profile::default();
    q.name = Some("Gaming".to_string());
    q.ensure_named();
    assert_eq!(q.name, Some("Gaming".to_string()));
}

#[test]
fn global_colour() {
    let mut p = Profile::default();
    p.rgb_zones[2].enabled = false;
    p.set_all_zone_colors([5, 6, 7]);
    for z in 0..4 {
        assert_eq!(p.rgb_zones[z].rgb, [5, 6, 7]);
    }
    assert!(!p.rgb_zones[2].enabled);
    assert!(p.rgb_zones[0].enabled);
}

fn named(n: Option<&str>) -> Profile {
    let mut p = Profile::default();
    p.name = n.map(|s| s.to_string());
    p
}

#[test]
fn cycling_profiles() {
    let saved = vec![named(Some("a")), named(Some("b")), named(Some("c"))];
    assert_eq!(cycle_profiles(&saved, &named(Some("a"))), Some(1));
    assert_eq!(cycle_profiles(&saved, &named(Some("b"))), Some(2));
    assert_eq!(cycle_profiles(&saved, &named(Some("c"))), Some(0));
    assert_eq!(cycle_profiles(&saved, &named(Some("z"))), None);
    assert_eq!(cycle_profiles(&saved, &named(None)), None);
    assert_eq!(cycle_profiles(&Vec::new(), &named(Some("a"))), None);
}

#[test]
fn cycling_uses_first_match_and_unnamed() {
    let saved = vec![named(None), named(Some("x")), named(None)];
    assert_eq!(cycle_profiles(&saved, &named(None)), Some(1));
    let single = vec![named(Some("only"))];
    assert_eq!(cycle_profiles(&single, &named(Some("only"))), Some(0));
}

#[test]
fn names_compare() {
    assert!(same_name(&None, &None));
    assert!(same_name(&Some("a".to_string()), &Some("a".to_string())));
    assert!(!same_name(&Some("a".to_string()), &None));
    assert!(!same_name(&Some("a".to_string()), &Some("b".to_string())));
}
