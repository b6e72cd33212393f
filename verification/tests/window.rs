use legion_kb_rgb::enums::Effects;
use legion_kb_rgb::gui::{
    can_tweak_colors, frame_plan, FramePlan, handle_close_request, hotkey_step, is_wake_message, select_effect, window_placement,
    CloseDecision, GuiMessage, LoadedEffect, ManagerAction, State,
};
use legion_kb_rgb::profile::Profile;

#[test]
fn loaded_effect_states() {
    let none: LoadedEffect<u32> = LoadedEffect::none();
    assert!(none.is_none() && !none.is_queued() && !none.is_playing());
    let d: LoadedEffect<u32> = LoadedEffect::default();
    assert!(d.is_none());
    let q = LoadedEffect::queued(7u32);
    assert!(q.is_queued() && !q.is_none() && !q.is_playing());
    assert_eq!(q.effect, 7);
    assert_eq!(State::default(), State::Idle);
    assert_ne!(GuiMessage::CycleProfiles, GuiMessage::Quit);
}

#[test]
fn queued_effect_plays_once() {
    let mut q = LoadedEffect::queued(3u32);
    assert_eq!(q.plan_update(false), ManagerAction::Nothing);
    assert!(q.is_queued());
    assert_eq!(q.plan_update(true), ManagerAction::PlayCustomEffect);
    assert!(q.is_playing());
    assert_eq!(q.plan_update(true), ManagerAction::Nothing);
    assert!(q.is_playing());
    q.stop();
    assert!(q.is_none());
    assert_eq!(q.effect, 3);
    assert_eq!(q.plan_update(true), ManagerAction::SetProfile);
}

#[test]
fn tweaking_colours() {
    let mut p = Profile::default();
    let none: LoadedEffect<u8> = LoadedEffect::none();
    assert!(can_tweak_colors(&p, &none));
    assert!(!can_tweak_colors(&p, &LoadedEffect::queued(1u8)));
    p.effect = Effects::Smooth;
    assert!(!can_tweak_colors(&p, &none));
}

#[test]
fn selecting_effects() {
    let mut p = Profile::default();
    let mut l = LoadedEffect::queued(1u8);
    assert!(!select_effect(&mut p, &mut l, Effects::Static));
    assert!(l.is_queued());
    assert!(select_effect(&mut p, &mut l, Effects::AmbientLight { fps: 0, saturation_boost_bits: 0, smoothness: false }));
    assert!(l.is_none());
    match p.effect {
        Effects::AmbientLight { fps, smoothness, .. } => {
            assert_eq!(fps, 60);
            assert!(smoothness);
        }
        _ => panic!("not selected"),
    }
    // Same variant with other parameters: nothing changes.
    assert!(!select_effect(&mut p, &mut l, Effects::AmbientLight { fps: 5, saturation_boost_bits: 0, smoothness: false }));
    match p.effect {
        Effects::AmbientLight { fps, .. } => assert_eq!(fps, 60),
        _ => panic!("changed"),
    }
}

#[test]
fn closing_and_minimising() {
    let mut was = false;
    assert_eq!(handle_close_request(true, false, &mut was, false, true), CloseDecision { cancel_close: true, hide: true });
    assert_eq!(handle_close_request(true, false, &mut was, false, false), CloseDecision { cancel_close: false, hide: false });
    assert_eq!(handle_close_request(true, false, &mut was, true, true), CloseDecision { cancel_close: false, hide: false });
    assert_eq!(handle_close_request(false, true, &mut was, false, true), CloseDecision { cancel_close: false, hide: true });
    assert!(was);
    assert_eq!(handle_close_request(false, true, &mut was, false, true), CloseDecision { cancel_close: false, hide: false });
    assert_eq!(handle_close_request(false, false, &mut was, false, true), CloseDecision { cancel_close: false, hide: false });
    assert!(!was);
}

#[test]
fn wake_messages() {
    assert!(is_wake_message(b"WAKE"));
    assert!(!is_wake_message(b"WAKE!"));
    assert!(!is_wake_message(b"wake"));
    assert!(!is_wake_message(b""));
}

#[test]
fn shortcut_sends_once_per_hold() {
    let (lock, send) = hotkey_step(false, true);
    assert!(lock && send);
    let (lock, send) = hotkey_step(lock, true);
    assert!(lock && !send);
    let (lock, send) = hotkey_step(lock, false);
    assert!(!lock && !send);
    let (_, send) = hotkey_step(lock, true);
    assert!(send);
}

#[test]
fn window_placement_centres() {
    assert_eq!(window_placement(0, 0, 800, 600, 1920, 1080), (560, 240, 800, 600));
    assert_eq!(window_placement(0, 0, 0, 5000, 1920, 1080), (700, 295, 520, 490));
    assert_eq!(window_placement(10, 10, 5, 5, 100, 100), (-210, -195, 520, 490));
    assert_eq!(window_placement(0, 0, 2000, 2000, 1001, 0), (-499, -1000, 2000, 2000));
}

#[test]
fn default_effect_is_the_types_default() {
    let d: LoadedEffect<u8> = LoadedEffect::default();
    assert_eq!(d.effect, 0);
    let n: LoadedEffect<String> = LoadedEffect::none();
    assert_eq!(n.effect, String::new());
}

#[test]
fn frame_plans() {
    assert_eq!(
        frame_plan(Some(GuiMessage::CycleProfiles), false, true, false),
        FramePlan { cycle_profiles: true, quit: false, force_visible: false, draw: true, update_without_drawing: false }
    );
    assert_eq!(
        frame_plan(None, false, false, true),
        FramePlan { cycle_profiles: false, quit: false, force_visible: false, draw: false, update_without_drawing: true }
    );
    assert_eq!(
        frame_plan(Some(GuiMessage::Quit), true, false, true),
        FramePlan { cycle_profiles: false, quit: true, force_visible: true, draw: true, update_without_drawing: false }
    );
    assert_eq!(
        frame_plan(None, true, true, false),
        FramePlan { cycle_profiles: false, quit: false, force_visible: false, draw: true, update_without_drawing: false }
    );
}

#[test]
fn one_request_per_hold() {
    let polls = [true, true, true, false, false, true, true, false, true];
    let mut lock = false;
    let mut sent = 0;
    for held in polls {
        let (l, s) = hotkey_step(lock, held);
        lock = l;
        if s {
            sent += 1;
        }
    }
    assert_eq!(sent, 3);
    assert!(lock);
}
