//! The logical device classes a user can ask for.

use vstd::prelude::*;

verus! {

/// Closed enumeration of the two supported output targets. A value of this
/// type is resolved to a concrete sink identifier by textual matching against
/// the audio server's sink listing.
#[derive(Debug, Clone, Copy, PartialEq, Eq, Structural)]
pub enum Device {
    Headphones,
    Speakers,
}

impl Device {
    /// The user-facing name of this device class.
    pub open spec fn name_spec(self) -> Seq<char> {
        match self {
            Device::Headphones => "headphones"@,
            Device::Speakers => "speakers"@,
        }
    }

    /// Human-readable name, for diagnostics.
    pub fn name(&self) -> (r: String)
        ensures
            r@ == self.name_spec(),
    {
        match self {
            Device::Headphones => "headphones".to_owned(),
            Device::Speakers => "speakers".to_owned(),
        }
    }
}

} // verus!
