//! Audio mapper: a pure function from the instantaneous motion speed to the
//! oscillator's frequency and gain. Speed is measured in milli-pixels of
//! remaining distance; frequency in milli-hertz; gain in milli-units
//! (1000 = unit gain).

use vstd::prelude::*;

verus! {

/// Oscillator frequency when the entity is at rest (200 Hz).
pub const BASE_FREQUENCY_MILLI_HZ: u64 = 200_000;
/// Added milli-hertz per milli-pixel of speed (800 Hz per pixel).
pub const FREQUENCY_GAIN: u64 = 800;
/// Gain milli-units per milli-pixel of speed (2.0 per pixel).
pub const GAIN_GAIN: u64 = 2;
/// Design ceiling on the gain: the cue stays a subtle texture (0.1).
pub const GAIN_CEILING_MILLI: u64 = 100;
/// Hard safety clamp on the gain (2.0).
pub const MAX_VOLUME_MILLI: u64 = 2_000;

/// Frequency and gain handed to the oscillator for one tick.
#[derive(Clone, Copy, PartialEq, Eq, Structural, Debug)]
pub struct AudioParams {
    pub frequency_milli_hz: u64,
    pub gain_milli: u64,
}

/// The gain law: speed scaled by `GAIN_GAIN`, capped at the design ceiling
/// and clamped into `[0, MAX_VOLUME_MILLI]`.
pub open spec fn spec_gain_milli(speed: nat) -> nat {
    let raw: nat = (GAIN_GAIN * speed) as nat;
    let capped: nat = if raw > GAIN_CEILING_MILLI { GAIN_CEILING_MILLI as nat } else { raw };
    if capped > MAX_VOLUME_MILLI {
        MAX_VOLUME_MILLI as nat
    } else {
        capped
    }
}

/// The frequency law: base plus speed times the frequency gain, saturating
/// at the top of the machine range.
pub open spec fn spec_frequency_milli_hz(speed: nat) -> nat {
    let raw: nat = (BASE_FREQUENCY_MILLI_HZ + FREQUENCY_GAIN * speed) as nat;
    if raw > u64::MAX {
        u64::MAX as nat
    } else {
        raw
    }
}

/// For every speed the computed gain lies within `[0, MAX_VOLUME_MILLI]`
/// and within the tighter design ceiling, however large the speed.
pub proof fn lemma_gain_always_clamped(speed: nat)
    ensures
        spec_gain_milli(speed) <= GAIN_CEILING_MILLI,
        spec_gain_milli(speed) <= MAX_VOLUME_MILLI,
{
}

/// Maps one tick's speed scalar to oscillator parameters.
pub fn map_speed_to_audio(speed_milli_px: u64) -> (r: AudioParams)
    ensures
        r.gain_milli == spec_gain_milli(speed_milli_px as nat),
        r.frequency_milli_hz == spec_frequency_milli_hz(speed_milli_px as nat),
        r.gain_milli <= GAIN_CEILING_MILLI,
        r.gain_milli <= MAX_VOLUME_MILLI,
{
    let gain_milli: u64 = match speed_milli_px.checked_mul(GAIN_GAIN) {
        Some(raw) => if raw > GAIN_CEILING_MILLI {
            GAIN_CEILING_MILLI
        } else {
            raw
        },
        None => GAIN_CEILING_MILLI,
    };
    let frequency_milli_hz: u64 = match speed_milli_px.checked_mul(FREQUENCY_GAIN) {
        Some(scaled) => match scaled.checked_add(BASE_FREQUENCY_MILLI_HZ) {
            Some(raw) => raw,
            None => u64::MAX,
        },
        None => u64::MAX,
    };
    AudioParams { frequency_milli_hz, gain_milli }
}

} // verus!
