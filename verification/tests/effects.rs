use legion_kb_rgb::enums::{Brightness, Direction, Effects, SwipeMode};

fn all_effects() -> Vec<Effects> {
    vec![
        Effects::Static,
        Effects::Breath,
        Effects::Smooth,
        Effects::Wave,
        Effects::Lightning,
        Effects::AmbientLight { fps: 30, saturation_boost_bits: 0, smoothness: false },
        Effects::SmoothWave { mode: SwipeMode::Change, clean_with_black: false },
        Effects::Swipe { mode: SwipeMode::Fill, clean_with_black: true },
        Effects::Disco,
        Effects::Christmas,
        Effects::Fade,
        Effects::Temperature { use_accent: false, hot_color: [1, 2, 3], cool_color: [4, 5, 6] },
        Effects::Ripple,
        Effects::SystemLoad,
        Effects::AudioVisualizer { sensitivity_bits: 0 },
        Effects::SunMoon,
    ]
}

#[test]
fn color_array_effects() {
    let expected = [true, true, false, false, true, false, true, true, false, false, true, false, true, false, false, false];
    for (e, want) in all_effects().into_iter().zip(expected) {
        assert_eq!(e.takes_color_array(), want, "{:?}", e);
    }
}

#[test]
fn direction_effects() {
    let expected = [false, false, false, true, false, false, true, true, false, false, false, false, false, false, false, false];
    for (e, want) in all_effects().into_iter().zip(expected) {
        assert_eq!(e.takes_direction(), want, "{:?}", e);
    }
}

#[test]
fn speed_effects() {
    let expected = [false, true, true, true, true, false, true, true, true, false, true, false, true, false, false, false];
    for (e, want) in all_effects().into_iter().zip(expected) {
        assert_eq!(e.takes_speed(), want, "{:?}", e);
    }
}

#[test]
fn built_in_effects() {
    let expected = [true, true, true, true, false, false, false, false, false, false, false, false, false, false, false, false];
    for (e, want) in all_effects().into_iter().zip(expected) {
        assert_eq!(e.is_built_in(), want, "{:?}", e);
    }
}

#[test]
fn equality_ignores_parameters() {
    let a = Effects::AmbientLight { fps: 1, saturation_boost_bits: 7, smoothness: true };
    let b = Effects::AmbientLight { fps: 99, saturation_boost_bits: 0, smoothness: false };
    assert!(a == b);
    assert!(Effects::Static != Effects::Breath);
    let all = all_effects();
    for (i, x) in all.iter().enumerate() {
        for (j, y) in all.iter().enumerate() {
            assert_eq!(x == y, i == j);
        }
    }
}

#[test]
fn variant_positions_follow_declaration() {
    for (i, e) in all_effects().iter().enumerate() {
        assert_eq!(e.variant_position() as usize, i);
    }
}

#[test]
fn sensible_ambient_light() {
    let e = Effects::AmbientLight { fps: 0, saturation_boost_bits: 5, smoothness: false }.with_sensible_defaults();
    match e {
        Effects::AmbientLight { fps, saturation_boost_bits, smoothness } => {
            assert_eq!(fps, 60);
            assert_eq!(saturation_boost_bits, 5);
            assert!(smoothness);
        }
        _ => panic!("variant changed"),
    }
    match (Effects::AmbientLight { fps: 200, saturation_boost_bits: 0, smoothness: true }).with_sensible_defaults() {
        Effects::AmbientLight { fps, .. } => assert_eq!(fps, 144),
        _ => panic!("variant changed"),
    }
    match (Effects::AmbientLight { fps: 75, saturation_boost_bits: 0, smoothness: true }).with_sensible_defaults() {
        Effects::AmbientLight { fps, .. } => assert_eq!(fps, 75),
        _ => panic!("variant changed"),
    }
}

#[test]
fn sensible_temperature() {
    let e = Effects::Temperature { use_accent: true, hot_color: [0, 0, 0], cool_color: [0, 0, 0] }.with_sensible_defaults();
    match e {
        Effects::Temperature { use_accent, hot_color, cool_color } => {
            assert!(use_accent);
            assert_eq!(hot_color, [255, 0, 0]);
            assert_eq!(cool_color, [0, 100, 255]);
        }
        _ => panic!("variant changed"),
    }
    let e = Effects::Temperature { use_accent: false, hot_color: [9, 0, 0], cool_color: [0, 0, 0] }.with_sensible_defaults();
    match e {
        Effects::Temperature { hot_color, cool_color, .. } => {
            assert_eq!(hot_color, [9, 0, 0]);
            assert_eq!(cool_color, [0, 100, 255]);
        }
        _ => panic!("variant changed"),
    }
}

#[test]
fn sensible_leaves_others_alone() {
    match (Effects::Swipe { mode: SwipeMode::Fill, clean_with_black: true }).with_sensible_defaults() {
        Effects::Swipe { mode, clean_with_black } => {
            assert_eq!(mode, SwipeMode::Fill);
            assert!(clean_with_black);
        }
        _ => panic!("variant changed"),
    }
    match (Effects::AudioVisualizer { sensitivity_bits: 42 }).with_sensible_defaults() {
        Effects::AudioVisualizer { sensitivity_bits } => assert_eq!(sensitivity_bits, 42),
        _ => panic!("variant changed"),
    }
}

#[test]
fn sensible_twice_is_sensible_once() {
    for e in all_effects() {
        let once = e.with_sensible_defaults();
        let twice = once.with_sensible_defaults();
        assert_eq!(format!("{:?}", once), format!("{:?}", twice));
    }
}

#[test]
fn editing_defaults() {
    match (Effects::AmbientLight { fps: 0, saturation_boost_bits: 1, smoothness: false }).with_editing_defaults() {
        Effects::AmbientLight { fps, smoothness, .. } => {
            assert_eq!(fps, 60);
            assert!(!smoothness);
        }
        _ => panic!("variant changed"),
    }
    match (Effects::Temperature { use_accent: false, hot_color: [0, 0, 0], cool_color: [0, 0, 0] }).with_editing_defaults() {
        Effects::Temperature { hot_color, cool_color, .. } => {
            assert_eq!(hot_color, [255, 0, 0]);
            assert_eq!(cool_color, [0, 100, 255]);
        }
        _ => panic!("variant changed"),
    }
    // Only both black counts as unset.
    match (Effects::Temperature { use_accent: false, hot_color: [0, 0, 0], cool_color: [1, 1, 1] }).with_editing_defaults() {
        Effects::Temperature { hot_color, cool_color, .. } => {
            assert_eq!(hot_color, [0, 0, 0]);
            assert_eq!(cool_color, [1, 1, 1]);
        }
        _ => panic!("variant changed"),
    }
}

#[test]
fn defaults_of_enums() {
    assert_eq!(SwipeMode::default(), SwipeMode::Change);
    assert_eq!(Direction::default(), Direction::Left);
    assert_eq!(Brightness::default(), Brightness::Low);
    assert!(matches!(Effects::default(), Effects::Static));
}
