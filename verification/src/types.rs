//! Fixture identifiers and DMX addresses.
use vstd::prelude::*;

verus! {

/// Unique identifier for a patched fixture instance.
#[derive(Debug, Clone, Copy, PartialEq, Eq, Hash, Structural)]
pub struct FixtureId(pub u32);

/// A DMX address: universe + 1-based channel number (1–512).
#[derive(Debug, Clone, Copy, PartialEq, Eq, Hash, Structural)]
pub struct DmxAddress {
    pub universe: u16,
    pub channel: u16,
}

/// A channel number that addresses a slot of a universe.
pub open spec fn valid_channel(channel: int) -> bool {
    1 <= channel <= 512
}

impl DmxAddress {
    /// Builds an address; the channel must lie in 1–512.
    pub fn new(universe: u16, channel: u16) -> (a: Self)
        requires
            valid_channel(channel as int),
        ensures
            a.universe == universe,
            a.channel == channel,
    {
        Self { universe, channel }
    }
}

} // verus!
