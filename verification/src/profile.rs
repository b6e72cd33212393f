use vstd::prelude::*;

use crate::enums::{Brightness, Direction, Effects};

verus! {

/// One of the four lighting zones of the keyboard.
#[derive(Debug, Clone, Copy, PartialEq, Eq)]
pub struct KeyboardZone {
    pub rgb: [u8; 3],
    pub enabled: bool,
}

impl Default for KeyboardZone {
    /// A black zone that is switched on.
    fn default() -> (r: Self)
        ensures
            r.rgb@ == seq![0u8, 0u8, 0u8],
            r.enabled,
    {
        KeyboardZone { rgb: [0, 0, 0], enabled: true }
    }
}

/// A named set of four zone colours offered to the user.
#[derive(Debug, Clone, Copy)]
pub struct PresetPalette {
    pub name: &'static str,
    pub colors: [u8; 12],
}

/// The colours of the default profile, zone after zone.
pub open spec fn default_colors() -> Seq<u8> {
    seq![255u8, 0u8, 0u8, 255u8, 185u8, 0u8, 179u8, 181u8, 237u8, 76u8, 0u8, 255u8]
}

/// The palettes offered to the user, in the order in which they are shown.
pub fn preset_palettes() -> (r: Vec<PresetPalette>)
    ensures
        r@.len() == 5,
        r@[0].name@ == "Default"@,
        r@[0].colors@ == default_colors(),
        r@[1].name@ == "Cyberpunk"@,
        r@[1].colors@ == seq![255u8, 0, 128, 140, 0, 255, 0, 220, 255, 255, 0, 200],
        r@[2].name@ == "Ice & Fire"@,
        r@[2].colors@ == seq![0u8, 150, 255, 0, 220, 255, 255, 120, 0, 255, 30, 0],
        r@[3].name@ == "Aurora"@,
        r@[3].colors@ == seq![0u8, 255, 150, 0, 200, 255, 120, 0, 255, 255, 0, 120],
        r@[4].name@ == "Pure White"@,
        r@[4].colors@ == Seq::new(12, |i: int| 255u8),
{
    let v = vec![
        PresetPalette { name: "Default", colors: [255, 0, 0, 255, 185, 0, 179, 181, 237, 76, 0, 255] },
        PresetPalette { name: "Cyberpunk", colors: [255, 0, 128, 140, 0, 255, 0, 220, 255, 255, 0, 200] },
        PresetPalette { name: "Ice & Fire", colors: [0, 150, 255, 0, 220, 255, 255, 120, 0, 255, 30, 0] },
        PresetPalette { name: "Aurora", colors: [0, 255, 150, 0, 200, 255, 120, 0, 255, 255, 0, 120] },
        PresetPalette { name: "Pure White", colors: [255, 255, 255, 255, 255, 255, 255, 255, 255, 255, 255, 255] },
    ];
    assert(v@[4].colors@ =~= Seq::new(12, |i: int| 255u8));
    v
}

/// The colour that a zone shows: its own when it is enabled, black otherwise.
pub open spec fn shown_color(zone: KeyboardZone) -> Seq<u8> {
    if zone.enabled {
        zone.rgb@
    } else {
        seq![0u8, 0u8, 0u8]
    }
}

/// The twelve channel values that the zones show, zone after zone.
pub open spec fn spec_rgb_array(zones: Seq<KeyboardZone>) -> Seq<u8> {
    Seq::new(12, |i: int| shown_color(zones[i / 3])[i % 3])
}

/// `zones` are the four enabled zones whose colours are read from `arr`, three channels each.
pub open spec fn zones_from(zones: Seq<KeyboardZone>, arr: Seq<u8>) -> bool {
    &&& zones.len() == 4
    &&& forall|z: int| #![trigger zones[z]] 0 <= z < 4 ==> zones[z].enabled && zones[z].rgb@ == arr.subrange(3 * z, 3 * z + 3)
}

/// The same colour for all four zones.
pub open spec fn spec_repeat_color(c: Seq<u8>) -> Seq<u8> {
    Seq::new(12, |i: int| c[i % 3])
}

/// Splits twelve channel values into four enabled zones.
pub fn arr_to_zones(arr: [u8; 12]) -> (r: [KeyboardZone; 4])
    ensures
        zones_from(r@, arr@),
{
    let r = [
        KeyboardZone { rgb: [arr[0], arr[1], arr[2]], enabled: true },
        KeyboardZone { rgb: [arr[3], arr[4], arr[5]], enabled: true },
        KeyboardZone { rgb: [arr[6], arr[7], arr[8]], enabled: true },
        KeyboardZone { rgb: [arr[9], arr[10], arr[11]], enabled: true },
    ];
    assert(r@[0].rgb@ =~= arr@.subrange(0, 3));
    assert(r@[1].rgb@ =~= arr@.subrange(3, 6));
    assert(r@[2].rgb@ =~= arr@.subrange(6, 9));
    assert(r@[3].rgb@ =~= arr@.subrange(9, 12));
    r
}

/// The same colour for all four zones, as twelve channel values.
pub fn repeat_color(c: [u8; 3]) -> (r: [u8; 12])
    ensures
        r@ == spec_repeat_color(c@),
{
    let r = [c[0], c[1], c[2], c[0], c[1], c[2], c[0], c[1], c[2], c[0], c[1], c[2]];
    assert(r@ =~= spec_repeat_color(c@));
    r
}

/// The name of a profile as a sequence of characters, if it has one.
pub open spec fn name_view(name: Option<String>) -> Option<Seq<char>> {
    match name {
        Some(s) => Some(s@),
        None => None,
    }
}

/// Everything that the keyboard shows: zone colours, effect and its settings.
#[derive(Debug, Clone, PartialEq)]
pub struct Profile {
    pub name: Option<String>,
    pub rgb_zones: [KeyboardZone; 4],
    pub effect: Effects,
    pub direction: Direction,
    pub speed: u8,
    pub brightness: Brightness,
}

impl Default for Profile {
    /// An unnamed, static profile in the default colours at speed 1 and low brightness.
    fn default() -> (r: Self)
        ensures
            r.name is None,
            zones_from(r.rgb_zones@, default_colors()),
            r.effect is Static,
            r.direction == Direction::Left,
            r.speed == 1,
            r.brightness == Brightness::Low,
    {
        let zones = arr_to_zones([255, 0, 0, 255, 185, 0, 179, 181, 237, 76, 0, 255]);
        proof {
            let a = seq![255u8, 0u8, 0u8, 255u8, 185u8, 0u8, 179u8, 181u8, 237u8, 76u8, 0u8, 255u8];
            assert(a =~= default_colors());
        }
        Profile {
            name: None,
            rgb_zones: zones,
            effect: Effects::Static,
            direction: Direction::Left,
            speed: 1,
            brightness: Brightness::Low,
        }
    }
}

impl Profile {
    /// The twelve channel values that the keyboard shows: the colour of each
    /// enabled zone, black for a disabled one.
    pub fn rgb_array(&self) -> (r: [u8; 12])
        ensures
            r@ == spec_rgb_array(self.rgb_zones@),
    {
        let z0 = self.rgb_zones[0];
        let z1 = self.rgb_zones[1];
        let z2 = self.rgb_zones[2];
        let z3 = self.rgb_zones[3];
        let c0 = if z0.enabled { z0.rgb } else { [0, 0, 0] };
        let c1 = if z1.enabled { z1.rgb } else { [0, 0, 0] };
        let c2 = if z2.enabled { z2.rgb } else { [0, 0, 0] };
        let c3 = if z3.enabled { z3.rgb } else { [0, 0, 0] };
        let r = [c0[0], c0[1], c0[2], c1[0], c1[1], c1[2], c2[0], c2[1], c2[2], c3[0], c3[1], c3[2]];
        proof {
            assert(c0@ =~= shown_color(z0));
            assert(c1@ =~= shown_color(z1));
            assert(c2@ =~= shown_color(z2));
            assert(c3@ =~= shown_color(z3));
            assert(r@ =~= spec_rgb_array(self.rgb_zones@));
        }
        r
    }

    /// Gives an unnamed profile the name "Untitled" before it is saved; a named one keeps its name.
    pub fn ensure_named(&mut self)
        ensures
            old(self).name is Some ==> final(self).name == old(self).name,
            old(self).name is None ==> (final(self).name matches Some(n) && n@ == "Untitled"@),
            final(self).rgb_zones == old(self).rgb_zones,
            final(self).effect == old(self).effect,
            final(self).direction == old(self).direction,
            final(self).speed == old(self).speed,
            final(self).brightness == old(self).brightness,
    {
        if self.name.is_none() {
            self.name = Some("Untitled".to_owned());
        }
    }

    /// Paints all four zones in one colour; whether each zone is on stays as it was.
    pub fn set_all_zone_colors(&mut self, rgb: [u8; 3])
        ensures
            forall|z: int| #![trigger final(self).rgb_zones@[z]] 0 <= z < 4 ==> final(self).rgb_zones@[z].rgb == rgb
                && final(self).rgb_zones@[z].enabled == old(self).rgb_zones@[z].enabled,
            final(self).name == old(self).name,
            final(self).effect == old(self).effect,
            final(self).direction == old(self).direction,
            final(self).speed == old(self).speed,
            final(self).brightness == old(self).brightness,
    {
        let z = self.rgb_zones;
        self.rgb_zones = [
            KeyboardZone { rgb, enabled: z[0].enabled },
            KeyboardZone { rgb, enabled: z[1].enabled },
            KeyboardZone { rgb, enabled: z[2].enabled },
            KeyboardZone { rgb, enabled: z[3].enabled },
        ];
    }
}

/// Whether two optional names are the same.
pub fn same_name(a: &Option<String>, b: &Option<String>) -> (r: bool)
    ensures
        r == (name_view(*a) == name_view(*b)),
{
    match (a, b) {
        (Some(x), Some(y)) => *x == *y,
        (None, None) => true,
        _ => false,
    }
}

/// `i` is the first position in `profiles` whose name is `name`.
pub open spec fn is_first_with_name(profiles: Seq<Profile>, name: Option<Seq<char>>, i: int) -> bool {
    &&& 0 <= i < profiles.len()
    &&& name_view(profiles[i].name) == name
    &&& forall|k: int| 0 <= k < i ==> name_view(#[trigger] profiles[k].name) != name
}

/// The position of the profile that follows the current one when the user cycles
/// through the saved profiles: the one after the first saved profile that bears the
/// current profile's name, wrapping round to the first after the last. `None` when
/// no saved profile bears that name.
pub fn cycle_profiles(profiles: &Vec<Profile>, current: &Profile) -> (r: Option<usize>)
    ensures
        r is None <==> forall|k: int| 0 <= k < profiles@.len() ==> name_view(#[trigger] profiles@[k].name) != name_view(current.name),
        r matches Some(j) ==> exists|i: int| is_first_with_name(profiles@, name_view(current.name), i)
            && j == (i + 1) % (profiles@.len() as int),
{
    let len = profiles.len();
    let mut i: usize = 0;
    while i < len
        invariant
            len == profiles@.len(),
            i <= len,
            forall|k: int| 0 <= k < i ==> name_view(#[trigger] profiles@[k].name) != name_view(current.name),
        decreases len - i,
    {
        if same_name(&profiles[i].name, &current.name) {
            assert(is_first_with_name(profiles@, name_view(current.name), i as int));
            if i == len - 1 {
                assert((i as int + 1) % (len as int) == 0) by (nonlinear_arith)
                    requires i as int + 1 == len as int, len > 0;
                return Some(0);
            } else {
                assert((i as int + 1) % (len as int) == i + 1) by (nonlinear_arith)
                    requires i as int + 1 < len as int;
                return Some(i + 1);
            }
        }
        i = i + 1;
    }
    None
}

/// Reading back the colours of zones made from twelve channel values gives those values.
pub proof fn lemma_rgb_array_of_zones_from(zones: Seq<KeyboardZone>, arr: Seq<u8>)
    requires
        arr.len() == 12,
        zones_from(zones, arr),
    ensures
        spec_rgb_array(zones) == arr,
{
    assert forall|i: int| 0 <= i < 12 implies #[trigger] spec_rgb_array(zones)[i] == arr[i] by {
        let z = i / 3;
        assert(zones[z].rgb@ == arr.subrange(3 * z, 3 * z + 3));
    }
    assert(spec_rgb_array(zones) =~= arr);
}

/// Each channel that the keyboard shows is the zone's own colour when the zone is
/// enabled, and black when it is not.
pub proof fn lemma_rgb_array_per_zone(zones: Seq<KeyboardZone>)
    requires
        zones.len() == 4,
        forall|z: int| 0 <= z < 4 ==> (#[trigger] zones[z]).rgb@.len() == 3,
    ensures
        forall|z: int, c: int| 0 <= z < 4 && 0 <= c < 3 ==> #[trigger] spec_rgb_array(zones)[3 * z + c] == if zones[z].enabled {
            zones[z].rgb[c]
        } else {
            0u8
        },
{
    assert forall|z: int, c: int| 0 <= z < 4 && 0 <= c < 3 implies #[trigger] spec_rgb_array(zones)[3 * z + c] == if zones[z].enabled {
        zones[z].rgb[c]
    } else {
        0u8
    } by {
        assert((3 * z + c) / 3 == z);
        assert((3 * z + c) % 3 == c);
    }
}

/// Splitting the colours that enabled zones show into zones gives back the same zones.
pub proof fn lemma_zones_from_rgb_array(zones: Seq<KeyboardZone>, split: Seq<KeyboardZone>)
    requires
        zones.len() == 4,
        forall|z: int| 0 <= z < 4 ==> (#[trigger] zones[z]).enabled,
        zones_from(split, spec_rgb_array(zones)),
    ensures
        forall|z: int| #![trigger split[z]] 0 <= z < 4 ==> split[z].rgb@ == zones[z].rgb@ && split[z].enabled == zones[z].enabled,
{
    assert forall|z: int| #![trigger split[z]] 0 <= z < 4 implies split[z].rgb@ == zones[z].rgb@ && split[z].enabled == zones[z].enabled by {
        assert(zones[z].enabled);
        assert(split[z].rgb@ =~= zones[z].rgb@);
    }
}

/// Reading back the colours of four zones painted in one colour gives that colour four times.
pub proof fn lemma_rgb_array_of_repeated_color(zones: Seq<KeyboardZone>, c: Seq<u8>)
    requires
        c.len() == 3,
        zones_from(zones, spec_repeat_color(c)),
    ensures
        spec_rgb_array(zones) == spec_repeat_color(c),
{
    lemma_rgb_array_of_zones_from(zones, spec_repeat_color(c));
}

/// Reading a profile from storage failed.
#[derive(Debug, Clone, Copy, PartialEq, Eq, Structural)]
pub struct LoadProfileError;

/// Writing a profile to storage failed.
#[derive(Debug, Clone, Copy, PartialEq, Eq, Structural)]
pub struct SaveProfileError;

} // verus!
