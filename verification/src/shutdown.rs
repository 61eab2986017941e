//! Whether the process takes requests.

use vstd::prelude::*;

verus! {

/// The process's readiness: it starts, is ready, and drains before it ends. The type does not keep
/// this order; whoever starts and stops the process does.
#[derive(Debug)]
pub struct ReadyState(u8);

impl View for ReadyState {
    type V = u8;

    closed spec fn view(&self) -> u8 {
        self.0
    }
}

impl ReadyState {
    #[verifier::type_invariant]
    spec fn known(self) -> bool {
        self.0 == Self::STARTING || self.0 == Self::READY || self.0 == Self::DRAINING
    }

    /// Not ready yet.
    pub const STARTING: u8 = 0;

    /// Takes requests.
    pub const READY: u8 = 1;

    /// Takes no more requests.
    pub const DRAINING: u8 = 2;

    /// Starts.
    pub fn new() -> (r: Self)
        ensures
            r@ == Self::STARTING,
    {
        ReadyState(Self::STARTING)
    }

    /// The process is ready.
    pub fn set_ready(&mut self)
        ensures
            final(self)@ == Self::READY,
    {
        self.0 = Self::READY;
    }

    /// The process drains.
    pub fn set_draining(&mut self)
        ensures
            final(self)@ == Self::DRAINING,
    {
        self.0 = Self::DRAINING;
    }

    /// Whether the process is ready.
    pub fn is_ready(&self) -> (r: bool)
        ensures
            r == (self@ == Self::READY),
    {
        self.0 == Self::READY
    }

    /// Whether the process drains.
    pub fn is_draining(&self) -> (r: bool)
        ensures
            r == (self@ == Self::DRAINING),
    {
        self.0 == Self::DRAINING
    }

    /// One of [`Self::STARTING`], [`Self::READY`] and [`Self::DRAINING`].
    pub fn load(&self) -> (r: u8)
        ensures
            r == self@,
            r == Self::STARTING || r == Self::READY || r == Self::DRAINING,
    {
        proof {
            use_type_invariant(self);
        }
        self.0
    }
}

impl Default for ReadyState {
    fn default() -> (r: Self)
        ensures
            r@ == Self::STARTING,
    {
        ReadyState::new()
    }
}

} // verus!
