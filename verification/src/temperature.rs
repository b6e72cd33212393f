use vstd::prelude::*;

verus! {

/// The hot colour of the temperature effect: the system accent colour when the effect
/// is asked to use it and one could be read, else the configured hot colour.
pub fn temperature_hot_color(use_accent: bool, accent: Option<[u8; 3]>, hot_color: [u8; 3]) -> (r: [u8; 3])
    ensures
        r == (if use_accent && accent is Some { accent->0 } else { hot_color }),
{
    if use_accent {
        if let Some(c) = accent {
            return c;
        }
    }
    hot_color
}

} // verus!
