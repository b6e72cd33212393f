use vstd::prelude::*;
use vstd::std_specs::cmp::PartialEqSpecImpl;

use crate::profile::Profile;

verus! {

/// How a swipe effect fills the zones.
#[derive(Debug, Clone, Copy, PartialEq, Eq, Structural)]
pub enum SwipeMode {
    Change,
    Fill,
}

impl Default for SwipeMode {
    fn default() -> (r: Self)
        ensures
            r == SwipeMode::Change,
    {
        SwipeMode::Change
    }
}

/// The direction in which a moving effect travels over the zones.
#[derive(Debug, Clone, Copy, PartialEq, Eq, Structural)]
pub enum Direction {
    Left,
    Right,
}

impl Default for Direction {
    fn default() -> (r: Self)
        ensures
            r == Direction::Left,
    {
        Direction::Left
    }
}

/// The two brightness levels of the keyboard backlight.
#[derive(Debug, Clone, Copy, PartialEq, Eq, Structural)]
pub enum Brightness {
    Low,
    High,
}

impl Default for Brightness {
    fn default() -> (r: Self)
        ensures
            r == Brightness::Low,
    {
        Brightness::Low
    }
}

/// A lighting effect together with its parameters.
///
/// The two real-valued parameters (the saturation boost of the ambient light and
/// the sensitivity of the audio visualizer) are carried as the bit pattern of an
/// IEEE-754 single-precision number; no logic of this crate reads them.
#[derive(Debug, Clone, Copy)]
pub enum Effects {
    Static,
    Breath,
    Smooth,
    Wave,
    Lightning,
    AmbientLight { fps: u8, saturation_boost_bits: u32, smoothness: bool },
    SmoothWave { mode: SwipeMode, clean_with_black: bool },
    Swipe { mode: SwipeMode, clean_with_black: bool },
    Disco,
    Christmas,
    Fade,
    Temperature { use_accent: bool, hot_color: [u8; 3], cool_color: [u8; 3] },
    Ripple,
    SystemLoad,
    AudioVisualizer { sensitivity_bits: u32 },
    SunMoon,
}

/// What the effect editor makes of an effect when it opens it: an ambient light with a
/// frame rate of zero gets 60, and a temperature effect whose two colours are both
/// black gets the default hot and cool colours.
pub open spec fn spec_editing(e: Effects) -> Effects {
    match e {
        Effects::AmbientLight { fps, saturation_boost_bits, smoothness } => Effects::AmbientLight {
            fps: if fps == 0 { 60u8 } else { fps },
            saturation_boost_bits,
            smoothness,
        },
        Effects::Temperature { use_accent, hot_color, cool_color } => if hot_color@ == seq![0u8, 0u8, 0u8]
            && cool_color@ == seq![0u8, 0u8, 0u8] {
            Effects::Temperature { use_accent, hot_color: [255u8, 0u8, 0u8], cool_color: [0u8, 100u8, 255u8] }
        } else {
            e
        },
        other => other,
    }
}

/// The position of an effect's variant in the declaration order, ignoring its parameters.
pub open spec fn variant_index(e: Effects) -> nat {
    match e {
        Effects::Static => 0,
        Effects::Breath => 1,
        Effects::Smooth => 2,
        Effects::Wave => 3,
        Effects::Lightning => 4,
        Effects::AmbientLight { .. } => 5,
        Effects::SmoothWave { .. } => 6,
        Effects::Swipe { .. } => 7,
        Effects::Disco => 8,
        Effects::Christmas => 9,
        Effects::Fade => 10,
        Effects::Temperature { .. } => 11,
        Effects::Ripple => 12,
        Effects::SystemLoad => 13,
        Effects::AudioVisualizer { .. } => 14,
        Effects::SunMoon => 15,
    }
}

/// Effects that are drawn from the four zone colours of the profile.
pub open spec fn spec_takes_color_array(e: Effects) -> bool {
    ||| e is Static
    ||| e is Breath
    ||| e is Lightning
    ||| e is SmoothWave
    ||| e is Swipe
    ||| e is Fade
    ||| e is Ripple
}

/// Effects that move in a direction.
pub open spec fn spec_takes_direction(e: Effects) -> bool {
    e is Wave || e is SmoothWave || e is Swipe
}

/// Effects whose pace is set by the speed of the profile.
pub open spec fn spec_takes_speed(e: Effects) -> bool {
    ||| e is Breath
    ||| e is Smooth
    ||| e is Wave
    ||| e is Lightning
    ||| e is SmoothWave
    ||| e is Swipe
    ||| e is Disco
    ||| e is Fade
    ||| e is Ripple
}

/// Effects that the keyboard firmware runs by itself.
pub open spec fn spec_is_built_in(e: Effects) -> bool {
    e is Static || e is Breath || e is Smooth || e is Wave
}

/// The zone colour used for the hot end of the temperature effect when none is set.
pub open spec fn default_hot_color() -> Seq<u8> {
    seq![255u8, 0u8, 0u8]
}

/// The zone colour used for the cool end of the temperature effect when none is set.
pub open spec fn default_cool_color() -> Seq<u8> {
    seq![0u8, 100u8, 255u8]
}

/// What `with_sensible_defaults` makes of an effect: a frame rate of zero becomes
/// 60 and any other is clamped into 1..=144, smooth transitions are switched on,
/// and a black temperature colour is replaced by the default for its end.
pub open spec fn spec_sensible(e: Effects) -> Effects {
    match e {
        Effects::AmbientLight { fps, saturation_boost_bits, smoothness } => Effects::AmbientLight {
            fps: if fps == 0 {
                60u8
            } else if fps > 144 {
                144u8
            } else {
                fps
            },
            saturation_boost_bits,
            smoothness: true,
        },
        Effects::Temperature { use_accent, hot_color, cool_color } => Effects::Temperature {
            use_accent,
            hot_color: if hot_color@ == seq![0u8, 0u8, 0u8] {
                [255u8, 0u8, 0u8]
            } else {
                hot_color
            },
            cool_color: if cool_color@ == seq![0u8, 0u8, 0u8] {
                [0u8, 100u8, 255u8]
            } else {
                cool_color
            },
        },
        other => other,
    }
}

fn is_black(c: [u8; 3]) -> (r: bool)
    ensures
        r == (c@ == seq![0u8, 0u8, 0u8]),
{
    let r = c[0] == 0 && c[1] == 0 && c[2] == 0;
    assert(r ==> c@ =~= seq![0u8, 0u8, 0u8]);
    r
}

impl Effects {
    /// Whether the effect uses the zone colours of the profile.
    pub fn takes_color_array(self) -> (r: bool)
        ensures
            r == spec_takes_color_array(self),
    {
        match self {
            Effects::Static | Effects::Breath | Effects::Lightning | Effects::SmoothWave { .. }
            | Effects::Swipe { .. } | Effects::Fade | Effects::Ripple => true,
            _ => false,
        }
    }

    /// Whether the effect has a direction.
    pub fn takes_direction(self) -> (r: bool)
        ensures
            r == spec_takes_direction(self),
    {
        match self {
            Effects::Wave | Effects::SmoothWave { .. } | Effects::Swipe { .. } => true,
            _ => false,
        }
    }

    /// Whether the effect uses the speed of the profile.
    pub fn takes_speed(self) -> (r: bool)
        ensures
            r == spec_takes_speed(self),
    {
        match self {
            Effects::Breath | Effects::Smooth | Effects::Wave | Effects::Lightning
            | Effects::SmoothWave { .. } | Effects::Swipe { .. } | Effects::Disco | Effects::Fade
            | Effects::Ripple => true,
            _ => false,
        }
    }

    /// Whether the keyboard runs the effect on its own.
    pub fn is_built_in(self) -> (r: bool)
        ensures
            r == spec_is_built_in(self),
    {
        match self {
            Effects::Static | Effects::Breath | Effects::Smooth | Effects::Wave => true,
            _ => false,
        }
    }

    /// The position of the variant in the declaration order.
    pub fn variant_position(&self) -> (r: u8)
        ensures
            r == variant_index(*self),
    {
        match self {
            Effects::Static => 0,
            Effects::Breath => 1,
            Effects::Smooth => 2,
            Effects::Wave => 3,
            Effects::Lightning => 4,
            Effects::AmbientLight { .. } => 5,
            Effects::SmoothWave { .. } => 6,
            Effects::Swipe { .. } => 7,
            Effects::Disco => 8,
            Effects::Christmas => 9,
            Effects::Fade => 10,
            Effects::Temperature { .. } => 11,
            Effects::Ripple => 12,
            Effects::SystemLoad => 13,
            Effects::AudioVisualizer { .. } => 14,
            Effects::SunMoon => 15,
        }
    }

    /// Replaces unusable parameters by working ones (see `spec_sensible`).
    /// The real-valued parameters are passed through unchanged.
    pub fn with_sensible_defaults(self) -> (r: Self)
        ensures
            r == spec_sensible(self),
    {
        match self {
            Effects::AmbientLight { fps, saturation_boost_bits, smoothness } => {
                let fps = if fps == 0 {
                    60
                } else if fps > 144 {
                    144
                } else {
                    fps
                };
                Effects::AmbientLight { fps, saturation_boost_bits, smoothness: true }
            },
            Effects::Temperature { use_accent, hot_color, cool_color } => {
                let hot_color = if is_black(hot_color) {
                    [255, 0, 0]
                } else {
                    hot_color
                };
                let cool_color = if is_black(cool_color) {
                    [0, 100, 255]
                } else {
                    cool_color
                };
                Effects::Temperature { use_accent, hot_color, cool_color }
            },
            other => other,
        }
    }
}

impl Effects {
    /// Fills in what the effect editor needs before it shows the effect (see `spec_editing`).
    /// The real-valued parameters are passed through unchanged.
    pub fn with_editing_defaults(self) -> (r: Self)
        ensures
            r == spec_editing(self),
    {
        match self {
            Effects::AmbientLight { fps, saturation_boost_bits, smoothness } => {
                let fps = if fps == 0 {
                    60
                } else {
                    fps
                };
                Effects::AmbientLight { fps, saturation_boost_bits, smoothness }
            },
            Effects::Temperature { use_accent, hot_color, cool_color } => {
                if is_black(hot_color) && is_black(cool_color) {
                    Effects::Temperature { use_accent, hot_color: [255, 0, 0], cool_color: [0, 100, 255] }
                } else {
                    self
                }
            },
            other => other,
        }
    }
}

/// The default hot and cool colours are not black.
proof fn lemma_default_temperature_colors_not_black()
    ensures
        [255u8, 0u8, 0u8]@ == seq![255u8, 0u8, 0u8],
        [0u8, 100u8, 255u8]@ == seq![0u8, 100u8, 255u8],
        seq![255u8, 0u8, 0u8] != seq![0u8, 0u8, 0u8],
        seq![0u8, 100u8, 255u8] != seq![0u8, 0u8, 0u8],
{
    assert([255u8, 0u8, 0u8]@ =~= seq![255u8, 0u8, 0u8]);
    assert([0u8, 100u8, 255u8]@ =~= seq![0u8, 100u8, 255u8]);
    assert(seq![255u8, 0u8, 0u8][0] != seq![0u8, 0u8, 0u8][0]);
    assert(seq![0u8, 100u8, 255u8][1] != seq![0u8, 0u8, 0u8][1]);
}

/// Making parameters sensible keeps the variant, so the result still equals the effect
/// and takes colours, a direction and a speed exactly when the effect did.
pub proof fn lemma_sensible_keeps_variant(e: Effects)
    ensures
        variant_index(spec_sensible(e)) == variant_index(e),
        spec_takes_color_array(spec_sensible(e)) == spec_takes_color_array(e),
        spec_takes_direction(spec_sensible(e)) == spec_takes_direction(e),
        spec_takes_speed(spec_sensible(e)) == spec_takes_speed(e),
        spec_is_built_in(spec_sensible(e)) == spec_is_built_in(e),
{
}

/// Making parameters sensible a second time changes nothing.
pub proof fn lemma_sensible_is_idempotent(e: Effects)
    ensures
        spec_sensible(spec_sensible(e)) == spec_sensible(e),
{
    match e {
        Effects::Temperature { use_accent, hot_color, cool_color } => {
            lemma_default_temperature_colors_not_black();
        },
        _ => {},
    }
}

/// Preparing an effect for the editor keeps its variant and, done twice, changes nothing more.
pub proof fn lemma_editing_keeps_variant_and_is_idempotent(e: Effects)
    ensures
        variant_index(spec_editing(e)) == variant_index(e),
        spec_editing(spec_editing(e)) == spec_editing(e),
{
    match e {
        Effects::Temperature { use_accent, hot_color, cool_color } => {
            lemma_default_temperature_colors_not_black();
        },
        _ => {},
    }
}

/// The sensible parameters are already what the editor asks for.
pub proof fn lemma_sensible_needs_no_editing(e: Effects)
    ensures
        spec_editing(spec_sensible(e)) == spec_sensible(e),
{
    match e {
        Effects::Temperature { use_accent, hot_color, cool_color } => {
            lemma_default_temperature_colors_not_black();
        },
        _ => {},
    }
}

/// The editor fills in only what is unset: an ambient light with a frame rate other
/// than zero and a temperature effect whose colours are not both black come back
/// unchanged; both black colours become red and light blue; a frame rate of zero
/// becomes 60, the rest of the ambient light kept; every other effect is unchanged.
pub proof fn lemma_editing_fills_only_what_is_unset(e: Effects)
    ensures
        e matches Effects::Temperature { use_accent, hot_color, cool_color } ==> if hot_color@ == seq![0u8, 0u8, 0u8]
            && cool_color@ == seq![0u8, 0u8, 0u8] {
            spec_editing(e) matches Effects::Temperature { use_accent: u, hot_color: h, cool_color: c } && u == use_accent
                && h@ == seq![255u8, 0u8, 0u8] && c@ == seq![0u8, 100u8, 255u8]
        } else {
            spec_editing(e) == e
        },
        e matches Effects::AmbientLight { fps, saturation_boost_bits, smoothness } ==> (spec_editing(e) matches Effects::AmbientLight {
            fps: f,
            saturation_boost_bits: b,
            smoothness: m,
        } && f == (if fps == 0 { 60u8 } else { fps }) && b == saturation_boost_bits && m == smoothness),
        !(e is Temperature) && !(e is AmbientLight) ==> spec_editing(e) == e,
{
    lemma_default_temperature_colors_not_black();
}

/// A newly selected ambient light always has smooth transitions and a frame rate in
/// 1..=144 (a non-zero rate in that range kept, zero made 60, more made 144); a
/// temperature effect keeps every colour that is not black and gets the default for a
/// black one; every other effect is unchanged.
pub proof fn lemma_sensible_parameters(e: Effects)
    ensures
        e matches Effects::AmbientLight { fps, saturation_boost_bits, smoothness } ==> (spec_sensible(e) matches Effects::AmbientLight {
            fps: f,
            saturation_boost_bits: b,
            smoothness: m,
        } && m && 1 <= f <= 144 && (1 <= fps <= 144 ==> f == fps) && (fps == 0 ==> f == 60) && (fps > 144 ==> f == 144)
            && b == saturation_boost_bits),
        e matches Effects::Temperature { use_accent, hot_color, cool_color } ==> (spec_sensible(e) matches Effects::Temperature {
            use_accent: u,
            hot_color: h,
            cool_color: c,
        } && u == use_accent && (hot_color@ != seq![0u8, 0u8, 0u8] ==> h == hot_color) && (hot_color@ == seq![0u8, 0u8, 0u8]
            ==> h@ == seq![255u8, 0u8, 0u8]) && (cool_color@ != seq![0u8, 0u8, 0u8] ==> c == cool_color) && (cool_color@
            == seq![0u8, 0u8, 0u8] ==> c@ == seq![0u8, 100u8, 255u8])),
        !(e is Temperature) && !(e is AmbientLight) ==> spec_sensible(e) == e,
{
    lemma_default_temperature_colors_not_black();
}

impl PartialEq for Effects {
    /// Two effects are equal when they are the same variant, whatever their parameters.
    fn eq(&self, other: &Self) -> (r: bool) {
        self.variant_position() == other.variant_position()
    }
}

impl PartialEqSpecImpl for Effects {
    open spec fn obeys_eq_spec() -> bool {
        true
    }

    open spec fn eq_spec(&self, other: &Self) -> bool {
        variant_index(*self) == variant_index(*other)
    }
}

impl Default for Effects {
    fn default() -> (r: Self)
        ensures
            r is Static,
    {
        Effects::Static
    }
}

/// A request handed to the effect manager.
pub enum Message<E> {
    CustomEffect { effect: E },
    Profile { profile: Profile },
    Exit,
}

} // verus!
