use vstd::prelude::*;

use crate::enums::{spec_sensible, spec_takes_color_array, variant_index, Effects};
use crate::profile::Profile;

verus! {

/// Where a loaded custom effect stands.
#[derive(Debug, Clone, Copy, PartialEq, Eq, Structural)]
pub enum State {
    Idle,
    Queued,
    Playing,
}

impl Default for State {
    fn default() -> (r: Self)
        ensures
            r == State::Idle,
    {
        State::Idle
    }
}

/// Messages that background listeners send to the window.
#[derive(Debug, Clone, Copy, PartialEq, Eq, Structural)]
pub enum GuiMessage {
    CycleProfiles,
    Quit,
}

/// A custom effect loaded from a file, and whether it waits to be played or plays.
pub struct LoadedEffect<E> {
    pub state: State,
    pub effect: E,
}

/// What the window asks of the effect manager after a change.
#[derive(Debug, Clone, Copy, PartialEq, Eq, Structural)]
pub enum ManagerAction {
    /// Show the current profile.
    SetProfile,
    /// Play the loaded custom effect.
    PlayCustomEffect,
    /// Leave the manager as it is.
    Nothing,
}

/// What the manager is asked to do, and the new state of the custom effect. Without a
/// manager nothing happens. With one, the current profile is shown when no custom effect
/// is loaded, and a queued custom effect starts playing and is from then on marked as
/// playing; a playing one is left alone.
pub open spec fn spec_plan(state: State, has_manager: bool) -> (ManagerAction, State) {
    if !has_manager {
        (ManagerAction::Nothing, state)
    } else {
        match state {
            State::Idle => (ManagerAction::SetProfile, State::Idle),
            State::Queued => (ManagerAction::PlayCustomEffect, State::Playing),
            State::Playing => (ManagerAction::Nothing, State::Playing),
        }
    }
}

/// A custom effect is handed to the manager exactly when it was queued, and the update
/// that follows never hands it over again.
pub proof fn lemma_custom_effect_starts_once(state: State)
    ensures
        (spec_plan(state, true).0 == ManagerAction::PlayCustomEffect) == (state == State::Queued),
        spec_plan(spec_plan(state, true).1, true).0 != ManagerAction::PlayCustomEffect,
{
}

/// Once no custom effect is active (it was stopped, or another effect was selected), an
/// update with a manager shows the profile, and the state stays idle.
pub proof fn lemma_idle_shows_profile(has_manager: bool)
    ensures
        spec_plan(State::Idle, has_manager) == (if has_manager { ManagerAction::SetProfile } else { ManagerAction::Nothing }, State::Idle),
{
}

/// Without a manager an update changes nothing, whatever the state.
pub proof fn lemma_no_manager_no_change(state: State)
    ensures
        spec_plan(state, false) == (ManagerAction::Nothing, state),
{
}

impl<E: Default> LoadedEffect<E> {
    /// No custom effect: the same as `none`.
    pub fn default() -> (r: Self)
        ensures
            r.state == State::Idle,
            call_ensures(E::default, (), r.effect),
    {
        Self::none()
    }

    /// No custom effect: the state is `Idle` and the effect is a value that `E::default` returns.
    pub fn none() -> (r: Self)
        ensures
            r.state == State::Idle,
            call_ensures(E::default, (), r.effect),
    {
        LoadedEffect { state: State::Idle, effect: E::default() }
    }
}

impl<E> LoadedEffect<E> {
    /// A custom effect that waits to be played.
    pub fn queued(effect: E) -> (r: Self)
        ensures
            r.state == State::Queued,
            r.effect == effect,
    {
        LoadedEffect { state: State::Queued, effect }
    }

    pub fn is_none(&self) -> (r: bool)
        ensures
            r == (self.state == State::Idle),
    {
        match self.state {
            State::Idle => true,
            _ => false,
        }
    }

    pub fn is_queued(&self) -> (r: bool)
        ensures
            r == (self.state == State::Queued),
    {
        match self.state {
            State::Queued => true,
            _ => false,
        }
    }

    pub fn is_playing(&self) -> (r: bool)
        ensures
            r == (self.state == State::Playing),
    {
        match self.state {
            State::Playing => true,
            _ => false,
        }
    }

    /// Stops the custom effect; the effect stays loaded.
    pub fn stop(&mut self)
        ensures
            final(self).state == State::Idle,
            final(self).effect == old(self).effect,
    {
        self.state = State::Idle;
    }

    /// Decides what the manager is asked to do when the state has changed (see `spec_plan`).
    pub fn plan_update(&mut self, has_manager: bool) -> (r: ManagerAction)
        ensures
            final(self).effect == old(self).effect,
            (r, final(self).state) == spec_plan(old(self).state, has_manager),
    {
        if !has_manager {
            ManagerAction::Nothing
        } else if self.is_none() {
            ManagerAction::SetProfile
        } else if self.is_queued() {
            self.state = State::Playing;
            ManagerAction::PlayCustomEffect
        } else {
            ManagerAction::Nothing
        }
    }
}

/// The zone colours can be edited when the effect draws from them and no custom effect is loaded.
pub fn can_tweak_colors<E>(profile: &Profile, loaded: &LoadedEffect<E>) -> (r: bool)
    ensures
        r == (spec_takes_color_array(profile.effect) && loaded.state == State::Idle),
{
    profile.effect.takes_color_array() && loaded.is_none()
}

/// The user picks `choice` from the list of effects. Picking the variant that is
/// already selected changes nothing; picking another one selects it with sensible
/// parameters and drops any custom effect. Returns whether anything changed. The
/// real-valued parameters (saturation boost, sensitivity) are passed through as they
/// are: making them sensible is left to the caller.
pub fn select_effect<E>(profile: &mut Profile, loaded: &mut LoadedEffect<E>, choice: Effects) -> (changed: bool)
    ensures
        changed == (variant_index(old(profile).effect) != variant_index(choice)),
        changed ==> final(profile).effect == spec_sensible(choice) && final(loaded).state == State::Idle,
        !changed ==> final(profile).effect == old(profile).effect && final(loaded).state == old(loaded).state,
        final(loaded).effect == old(loaded).effect,
        final(profile).name == old(profile).name,
        final(profile).rgb_zones == old(profile).rgb_zones,
        final(profile).direction == old(profile).direction,
        final(profile).speed == old(profile).speed,
        final(profile).brightness == old(profile).brightness,
{
    let is_selected = profile.effect == choice;
    if !is_selected {
        profile.effect = choice.with_sensible_defaults();
        loaded.state = State::Idle;
        true
    } else {
        false
    }
}

/// What the window does when it is asked to close or has been minimised.
#[derive(Debug, Clone, Copy, PartialEq, Eq, Structural)]
pub struct CloseDecision {
    /// Refuse the request to close.
    pub cancel_close: bool,
    /// Hide the window to the tray.
    pub hide: bool,
}

/// A request to close, or a minimisation that has just happened, hides the window to
/// the tray, refusing the close, when hiding is allowed and a tray icon exists.
pub open spec fn spec_close_decision(
    close_requested: bool,
    minimized: bool,
    was_minimized: bool,
    deny_hiding: bool,
    has_tray: bool,
) -> CloseDecision {
    let hide = (close_requested || (minimized && !was_minimized)) && !deny_hiding && has_tray;
    CloseDecision { cancel_close: hide && close_requested, hide }
}

/// Decides what happens on a frame in which the window may have been asked to close or
/// been minimised (see `spec_close_decision`); `was_minimized` is updated to the current
/// minimisation.
pub fn handle_close_request(
    close_requested: bool,
    minimized: bool,
    was_minimized: &mut bool,
    deny_hiding: bool,
    has_tray: bool,
) -> (r: CloseDecision)
    ensures
        *final(was_minimized) == minimized,
        r == spec_close_decision(close_requested, minimized, *old(was_minimized), deny_hiding, has_tray),
{
    let just_minimized = minimized && !*was_minimized;
    *was_minimized = minimized;
    if (close_requested || just_minimized) && !deny_hiding && has_tray {
        CloseDecision { cancel_close: close_requested, hide: true }
    } else {
        CloseDecision { cancel_close: false, hide: false }
    }
}

/// A window that stays minimised is hidden once: on the next frame, without a request
/// to close, nothing more happens.
pub proof fn lemma_minimize_hides_once(was_minimized: bool, deny_hiding: bool, has_tray: bool)
    ensures
        spec_close_decision(false, true, true, deny_hiding, has_tray) == (CloseDecision { cancel_close: false, hide: false }),
        spec_close_decision(false, true, was_minimized, deny_hiding, has_tray).hide == (!was_minimized && !deny_hiding && has_tray),
{
}

/// A close is refused only when the window is hidden instead.
pub proof fn lemma_close_refused_only_when_hidden(
    close_requested: bool,
    minimized: bool,
    was_minimized: bool,
    deny_hiding: bool,
    has_tray: bool,
)
    ensures
        spec_close_decision(close_requested, minimized, was_minimized, deny_hiding, has_tray).cancel_close
            ==> spec_close_decision(close_requested, minimized, was_minimized, deny_hiding, has_tray).hide,
        deny_hiding ==> !spec_close_decision(close_requested, minimized, was_minimized, deny_hiding, has_tray).hide,
{
}

/// Whether a datagram is the request of another instance to show this window: exactly the bytes of "WAKE".
pub fn is_wake_message(datagram: &[u8]) -> (r: bool)
    ensures
        r == (datagram@ == seq![0x57u8, 0x41u8, 0x4Bu8, 0x45u8]),
{
    let r = datagram.len() == 4 && datagram[0] == 0x57 && datagram[1] == 0x41 && datagram[2] == 0x4B && datagram[3] == 0x45;
    assert(r ==> datagram@ =~= seq![0x57u8, 0x41u8, 0x4Bu8, 0x45u8]);
    r
}

/// One poll of the profile-switching shortcut: while the combination is held, a single
/// request to cycle profiles is sent, and the next one only after it was released.
/// Returns the new lock and whether to send the request.
pub open spec fn spec_hotkey_step(locked: bool, combination_held: bool) -> (bool, bool) {
    if combination_held {
        (true, !locked)
    } else {
        (false, false)
    }
}

/// Processes one poll of the profile-switching shortcut (see `spec_hotkey_step`).
pub fn hotkey_step(locked: bool, combination_held: bool) -> (r: (bool, bool))
    ensures
        r == spec_hotkey_step(locked, combination_held),
{
    if combination_held {
        if !locked {
            (true, true)
        } else {
            (true, false)
        }
    } else {
        (false, false)
    }
}

/// The lock left and the number of requests sent after the polls `polls`, one poll per
/// element telling whether the combination is held, starting from `locked`.
pub open spec fn hotkey_run(locked: bool, polls: Seq<bool>) -> (bool, nat)
    decreases polls.len(),
{
    if polls.len() == 0 {
        (locked, 0)
    } else {
        let step = spec_hotkey_step(locked, polls[0]);
        let rest = hotkey_run(step.0, polls.drop_first());
        (rest.0, rest.1 + if step.1 { 1nat } else { 0nat })
    }
}

/// The number of holds that begin in `polls`: polls at which the combination is held
/// while it was not at the poll before (`held_before` for the first).
pub open spec fn holds_begun(held_before: bool, polls: Seq<bool>) -> nat
    decreases polls.len(),
{
    if polls.len() == 0 {
        0
    } else {
        holds_begun(polls[0], polls.drop_first()) + if polls[0] && !held_before { 1nat } else { 0nat }
    }
}

/// Over any run of polls, the shortcut sends one request per hold of the combination:
/// the requests sent are the holds that begin, counting the first poll as a beginning
/// unless the lock was set; and the lock ends set exactly when the combination was held
/// at the last poll.
pub proof fn lemma_hotkey_one_request_per_hold(locked: bool, polls: Seq<bool>)
    ensures
        hotkey_run(locked, polls).1 == holds_begun(locked, polls),
        polls.len() > 0 ==> hotkey_run(locked, polls).0 == polls.last(),
    decreases polls.len(),
{
    if polls.len() > 0 {
        lemma_hotkey_one_request_per_hold(polls[0], polls.drop_first());
        if polls.len() > 1 {
            assert(polls.drop_first().last() == polls.last());
        }
    }
}

/// A hold of any length that begins with the lock released sends exactly one request.
pub proof fn lemma_hotkey_hold_sends_once(n: nat)
    requires
        n > 0,
    ensures
        hotkey_run(false, Seq::new(n, |i: int| true)).1 == 1,
{
    lemma_hotkey_one_request_per_hold(false, Seq::new(n, |i: int| true));
    lemma_holds_begun_all_held(false, n);
}

proof fn lemma_holds_begun_all_held(held_before: bool, n: nat)
    ensures
        holds_begun(held_before, Seq::new(n, |i: int| true)) == if n > 0 && !held_before { 1nat } else { 0nat },
    decreases n,
{
    if n > 0 {
        assert(Seq::new(n, |i: int| true).drop_first() =~= Seq::new((n - 1) as nat, |i: int| true));
        lemma_holds_begun_all_held(true, (n - 1) as nat);
    }
}

/// What the window does on one frame, before and instead of drawing.
#[derive(Debug, Clone, Copy, PartialEq, Eq, Structural)]
pub struct FramePlan {
    /// Switch to the next saved profile.
    pub cycle_profiles: bool,
    /// Save and quit.
    pub quit: bool,
    /// Make the window visible again, warning that hiding is not supported.
    pub force_visible: bool,
    /// Draw the window's contents (after which a pending change is applied).
    pub draw: bool,
    /// Apply a pending change without drawing.
    pub update_without_drawing: bool,
}

/// The decisions of one frame: a message from the background listeners is obeyed;
/// where hiding is not supported a hidden window is made visible again; a visible
/// window is drawn, and a hidden one only applies a pending change.
pub open spec fn spec_frame_plan(message: Option<GuiMessage>, deny_hiding: bool, visible: bool, state_changed: bool) -> FramePlan {
    let force_visible = deny_hiding && !visible;
    let shown = visible || force_visible;
    FramePlan {
        cycle_profiles: message == Some(GuiMessage::CycleProfiles),
        quit: message == Some(GuiMessage::Quit),
        force_visible,
        draw: shown,
        update_without_drawing: !shown && state_changed,
    }
}

/// Decides what the window does on a frame (see `spec_frame_plan`).
pub fn frame_plan(message: Option<GuiMessage>, deny_hiding: bool, visible: bool, state_changed: bool) -> (r: FramePlan)
    ensures
        r == spec_frame_plan(message, deny_hiding, visible, state_changed),
{
    let force_visible = deny_hiding && !visible;
    let shown = visible || force_visible;
    let (cycle_profiles, quit) = match message {
        Some(GuiMessage::CycleProfiles) => (true, false),
        Some(GuiMessage::Quit) => (false, true),
        None => (false, false),
    };
    FramePlan { cycle_profiles, quit, force_visible, draw: shown, update_without_drawing: !shown && state_changed }
}

/// Where hiding is not supported the window is always drawn; a hidden window is never
/// drawn, yet a pending change is applied all the same; nothing is drawn and applied
/// in the same step before drawing.
pub proof fn lemma_frame_plan(message: Option<GuiMessage>, deny_hiding: bool, visible: bool, state_changed: bool)
    ensures
        deny_hiding ==> spec_frame_plan(message, deny_hiding, visible, state_changed).draw,
        !deny_hiding && !visible ==> !spec_frame_plan(message, deny_hiding, visible, state_changed).draw
            && spec_frame_plan(message, deny_hiding, visible, state_changed).update_without_drawing == state_changed,
        !(spec_frame_plan(message, deny_hiding, visible, state_changed).draw
            && spec_frame_plan(message, deny_hiding, visible, state_changed).update_without_drawing),
        !(spec_frame_plan(message, deny_hiding, visible, state_changed).cycle_profiles
            && spec_frame_plan(message, deny_hiding, visible, state_changed).quit),
{
}

/// A window extent is kept when it lies in 1..=2000, else it becomes `fallback`.
pub open spec fn sane_extent(extent: int, fallback: int) -> int {
    if extent <= 0 || extent > 2000 {
        fallback
    } else {
        extent
    }
}

/// Where a window that is brought back is placed: its size from its rectangle, with
/// 520 by 490 in place of a width or height outside 1..=2000, centred on the screen.
/// Returns x, y, width and height.
pub fn window_placement(left: i32, top: i32, right: i32, bottom: i32, screen_w: i32, screen_h: i32) -> (r: (
    i32,
    i32,
    i32,
    i32,
))
    requires
        i32::MIN <= right - left <= i32::MAX,
        i32::MIN <= bottom - top <= i32::MAX,
        screen_w - sane_extent(right - left, 520) >= i32::MIN,
        screen_h - sane_extent(bottom - top, 490) >= i32::MIN,
    ensures
        r.2 == sane_extent(right - left, 520),
        r.3 == sane_extent(bottom - top, 490),
        r.0 == trunc_half(screen_w - r.2),
        r.1 == trunc_half(screen_h - r.3),
{
    let mut width = right - left;
    let mut height = bottom - top;
    if width <= 0 || width > 2000 {
        width = 520;
    }
    if height <= 0 || height > 2000 {
        height = 490;
    }
    let pos_x = (screen_w - width) / 2;
    let pos_y = (screen_h - height) / 2;
    (pos_x, pos_y, width, height)
}

/// Half of `v`, rounded toward zero as integer division in Rust does.
pub open spec fn trunc_half(v: int) -> int {
    if v >= 0 {
        v / 2
    } else {
        -((-v) / 2)
    }
}

} // verus!
