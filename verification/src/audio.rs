//! Stream parameters and the byte counts of the capture and playback paths.

use crate::types::SampleFormat;
use vstd::prelude::*;

verus! {

/// What a capture stream was opened with; fixed for a session.
#[derive(Clone, Copy, Debug, PartialEq, Eq, Structural)]
pub struct AudioParams {
    pub sample_rate: u32,
    pub channels: u16,
    pub sample_format: SampleFormat,
}

/// The parameters frames are stamped with while none are negotiated:
/// 48 kHz, two channels, 32-bit float.
pub open spec fn spec_default_params() -> AudioParams {
    AudioParams { sample_rate: 48000, channels: 2, sample_format: SampleFormat::F32 }
}

/// Returns [`spec_default_params`].
pub fn default_params() -> (p: AudioParams)
    ensures
        p == spec_default_params(),
{
    AudioParams { sample_rate: 48000, channels: 2, sample_format: SampleFormat::F32 }
}

/// Bytes per sample of a wire format code; `None` for a code the protocol
/// does not know.
pub open spec fn spec_sample_width(format_code: u8) -> Option<nat> {
    if format_code == crate::types::FMT_F32 {
        Some(4)
    } else if format_code == crate::types::FMT_I16 || format_code == crate::types::FMT_U16 {
        Some(2)
    } else {
        None
    }
}

/// The number of mono frames that a payload of `payload_len` bytes decodes
/// to: whole samples, then whole groups of `channels` samples when there is
/// more than one channel. `None` for an unknown format code.
pub open spec fn spec_mono_frames(format_code: u8, channels: u8, payload_len: nat) -> Option<nat> {
    match spec_sample_width(format_code) {
        Some(width) => {
            let samples = payload_len / width;
            if channels > 1 {
                Some(samples / channels as nat)
            } else {
                Some(samples)
            }
        },
        None => None,
    }
}

/// Counts the mono frames that a payload decodes to.
pub fn mono_frames(format_code: u8, channels: u8, payload_len: usize) -> (frames: Option<usize>)
    ensures
        match frames {
            Some(n) => spec_mono_frames(format_code, channels, payload_len as nat) == Some(
                n as nat,
            ),
            None => spec_mono_frames(format_code, channels, payload_len as nat) is None,
        },
{
    let width: usize = if format_code == crate::types::FMT_F32 {
        4
    } else if format_code == crate::types::FMT_I16 || format_code == crate::types::FMT_U16 {
        2
    } else {
        return None;
    };
    let samples: usize = payload_len / width;
    if channels > 1 {
        Some(samples / channels as usize)
    } else {
        Some(samples)
    }
}

/// How many 4-byte frames the plain output path copies: as many as the
/// output holds and the received buffer has.
pub open spec fn spec_copy_frames(out_frames: nat, buf_len: nat) -> nat {
    if out_frames < buf_len / 4 {
        out_frames
    } else {
        buf_len / 4
    }
}

/// Computes [`spec_copy_frames`].
pub fn copy_frames(out_frames: usize, buf_len: usize) -> (frames: usize)
    ensures
        frames == spec_copy_frames(out_frames as nat, buf_len as nat),
        frames * 4 <= buf_len,
{
    let have: usize = buf_len / 4;
    if out_frames < have {
        out_frames
    } else {
        have
    }
}

} // verus!
