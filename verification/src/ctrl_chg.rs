use vstd::prelude::*;
use crate::channel::Channel;
use crate::note::TickError;
use crate::velocity::Velocity;
use crate::have_start_tick::{HaveBaseStartTick, HaveStartTick};

verus! {

/// A control change (pedal) at a tick.
#[derive(Clone, Copy, PartialEq, Eq, Debug, Structural)]
pub struct CtrlChg {
    pub start_tick: u32,
    pub velocity: Velocity,
    pub channel: Channel,
}

impl CtrlChg {
    pub fn new(start_tick: u32, velocity: Velocity, channel: Channel) -> (r: CtrlChg)
        ensures
            r == (CtrlChg { start_tick, velocity, channel }),
    {
        CtrlChg { start_tick, velocity, channel }
    }

    /// This control change moved by `tick_delta` ticks, cut to 32 bits.
    pub fn drag(&self, tick_delta: i32) -> (r: CtrlChg)
        ensures
            r == (CtrlChg { start_tick: (self.start_tick + tick_delta) as u32, ..*self }),
    {
        CtrlChg { start_tick: (self.start_tick as i64 + tick_delta as i64) as u32, ..*self }
    }

    /// This control change moved by `tick_delta` ticks; fails when the tick would be negative.
    pub fn with_tick_added(&self, tick_delta: i32) -> (r: Result<CtrlChg, TickError>)
        ensures
            self.start_tick + tick_delta < 0 ==> r == Err::<CtrlChg, TickError>(TickError::Minus),
            self.start_tick + tick_delta >= 0 ==> r == Ok::<CtrlChg, TickError>(CtrlChg {
                start_tick: (self.start_tick + tick_delta) as u32, ..*self }),
    {
        let tick: i64 = self.start_tick as i64 + tick_delta as i64;
        if tick < 0 {
            Err(TickError::Minus)
        } else {
            Ok(CtrlChg { start_tick: tick as u32, ..*self })
        }
    }
}

impl HaveBaseStartTick for CtrlChg {
    open spec fn base_start_tick_spec(&self) -> u32 {
        self.start_tick
    }

    fn base_start_tick(&self) -> (r: u32) {
        self.start_tick
    }
}

impl HaveStartTick for CtrlChg {
    open spec fn start_tick_spec(&self) -> u32 {
        self.start_tick
    }

    fn start_tick(&self) -> (r: u32) {
        self.start_tick
    }
}

} // verus!
