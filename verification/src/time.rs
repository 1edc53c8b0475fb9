//! Sample positions, transport state and the shared transport clock.
use vstd::prelude::*;
use std::sync::atomic::{AtomicI64, AtomicU8};

verus! {

/// Absolute sample position on the timeline.
#[derive(Debug, Clone, Copy, PartialEq, Eq, Structural, Hash)]
pub struct SamplePos(pub i64);

/// `a + b` clamped to the `i64` range.
pub open spec fn spec_saturating_add_i64(a: i64, b: i64) -> i64 {
    if a + b > i64::MAX {
        i64::MAX
    } else if a + b < i64::MIN {
        i64::MIN
    } else {
        (a + b) as i64
    }
}

impl SamplePos {
    pub fn new(samples: i64) -> (p: SamplePos)
        ensures
            p.0 == samples,
    {
        SamplePos(samples)
    }

    pub fn samples(self) -> (r: i64)
        ensures
            r == self.0,
    {
        self.0
    }

    pub fn saturating_add(self, delta: i64) -> (p: SamplePos)
        ensures
            p.0 == spec_saturating_add_i64(self.0, delta),
    {
        match self.0.checked_add(delta) {
            Some(v) => SamplePos(v),
            None => if delta > 0 {
                SamplePos(i64::MAX)
            } else {
                SamplePos(i64::MIN)
            },
        }
    }
}

#[derive(Debug, Clone, Copy, PartialEq, Eq, Structural)]
pub enum TransportState {
    Stopped,
    Playing,
    Paused,
}

/// Code stored in the shared clock: 0 stopped, 1 playing, 2 paused.
pub open spec fn spec_transport_code(state: TransportState) -> u8 {
    match state {
        TransportState::Stopped => 0,
        TransportState::Playing => 1,
        TransportState::Paused => 2,
    }
}

/// State for a stored code; unknown codes read as stopped.
pub open spec fn spec_transport_from_code(code: u8) -> TransportState {
    if code == 1 {
        TransportState::Playing
    } else if code == 2 {
        TransportState::Paused
    } else {
        TransportState::Stopped
    }
}

pub fn transport_code(state: TransportState) -> (c: u8)
    ensures
        c == spec_transport_code(state),
{
    match state {
        TransportState::Stopped => 0,
        TransportState::Playing => 1,
        TransportState::Paused => 2,
    }
}

pub fn transport_from_code(code: u8) -> (s: TransportState)
    ensures
        s == spec_transport_from_code(code),
{
    match code {
        1 => TransportState::Playing,
        2 => TransportState::Paused,
        _ => TransportState::Stopped,
    }
}

pub proof fn law_transport_code_roundtrip(state: TransportState)
    ensures
        spec_transport_from_code(spec_transport_code(state)) == state,
{
}

/// Shared transport clock readable from the UI while the audio thread runs.
///
/// The values live in atomics that other threads write, and std's atomics
/// come with no specification of what they hold, so these methods state
/// nothing of the values; a stored state code is decoded by
/// `transport_from_code`.
pub struct SharedTransport {
    /// 0 stopped, 1 playing, 2 paused.
    pub playing: AtomicU8,
    pub position: AtomicI64,
    /// Unused placeholder; the real sample rate lives in the config.
    pub sample_rate: AtomicU8,
}

impl SharedTransport {
    pub fn new() -> (t: SharedTransport) {
        SharedTransport { playing: AtomicU8::new(0), position: AtomicI64::new(0), sample_rate: AtomicU8::new(0) }
    }

    pub fn state(&self) -> (s: TransportState) {
        let code = self.playing.load(std::sync::atomic::Ordering::Relaxed);
        transport_from_code(code)
    }

    pub fn set_state(&self, state: TransportState) {
        let v = transport_code(state);
        self.playing.store(v, std::sync::atomic::Ordering::Relaxed);
    }

    pub fn position(&self) -> (p: SamplePos) {
        SamplePos(self.position.load(std::sync::atomic::Ordering::Relaxed))
    }

    pub fn set_position(&self, pos: SamplePos) {
        self.position.store(pos.0, std::sync::atomic::Ordering::Relaxed);
    }
}

} // verus!
