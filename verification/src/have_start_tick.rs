use vstd::prelude::*;

verus! {

/// Something placed at a base tick (before any trimming).
pub trait HaveBaseStartTick {
    spec fn base_start_tick_spec(&self) -> u32;

    fn base_start_tick(&self) -> (r: u32)
        ensures
            r == self.base_start_tick_spec(),
    ;
}

/// Something that starts at a tick.
pub trait HaveStartTick {
    spec fn start_tick_spec(&self) -> u32;

    fn start_tick(&self) -> (r: u32)
        ensures
            r == self.start_tick_spec(),
    ;
}

} // verus!
