use vstd::prelude::*;

use crate::profile::Profile;

verus! {

/// Preferences of the application that outlive a session.
#[derive(Debug, Clone)]
pub struct Settings {
    pub start_with_windows: bool,
    pub start_minimized: bool,
    pub last_profile: Option<Profile>,
}

impl Default for Settings {
    /// Neither started with the system nor minimised, and no remembered profile.
    fn default() -> (r: Self)
        ensures
            !r.start_with_windows,
            !r.start_minimized,
            r.last_profile is None,
    {
        Settings { start_with_windows: false, start_minimized: false, last_profile: None }
    }
}

} // verus!
