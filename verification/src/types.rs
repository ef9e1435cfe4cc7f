//! The byte-level vocabulary shared by sender and receiver.

use vstd::prelude::*;

verus! {

/// First two bytes of every audio datagram: the ASCII letters `R` and `M`.
pub const FRAME_MAGIC: [u8; 2] = [0x52, 0x4d];

/// Wire code of 32-bit float samples.
pub const FMT_F32: u8 = 1;

/// Wire code of signed 16-bit samples.
pub const FMT_I16: u8 = 2;

/// Wire code of unsigned 16-bit samples.
pub const FMT_U16: u8 = 3;

/// Sample format of a capture or playback stream.
///
/// `Other` stands for every format a device may report that the wire protocol
/// has no code for.
#[derive(Clone, Copy, Debug, PartialEq, Eq, Structural)]
pub enum SampleFormat {
    F32,
    I16,
    U16,
    Other,
}

/// The wire code of a sample format, as a mathematical function.
pub open spec fn spec_format_code(fmt: SampleFormat) -> u8 {
    match fmt {
        SampleFormat::F32 => FMT_F32,
        SampleFormat::I16 => FMT_I16,
        SampleFormat::U16 => FMT_U16,
        SampleFormat::Other => FMT_F32,
    }
}

/// The sample format that a wire code denotes, as a mathematical function.
pub open spec fn spec_code_format(code: u8) -> SampleFormat {
    if code == FMT_I16 {
        SampleFormat::I16
    } else if code == FMT_U16 {
        SampleFormat::U16
    } else {
        SampleFormat::F32
    }
}

/// Maps a sample format to its wire code; formats without a code travel as F32.
pub fn sample_format_code(fmt: SampleFormat) -> (code: u8)
    ensures
        code == spec_format_code(fmt),
        FMT_F32 <= code <= FMT_U16,
{
    match fmt {
        SampleFormat::F32 => FMT_F32,
        SampleFormat::I16 => FMT_I16,
        SampleFormat::U16 => FMT_U16,
        SampleFormat::Other => FMT_F32,
    }
}

/// Maps a wire code back to a sample format; unknown codes read as F32.
pub fn code_to_sample_format(code: u8) -> (fmt: SampleFormat)
    ensures
        fmt == spec_code_format(code),
        fmt != SampleFormat::Other,
{
    if code == FMT_I16 {
        SampleFormat::I16
    } else if code == FMT_U16 {
        SampleFormat::U16
    } else {
        SampleFormat::F32
    }
}

/// Every format the protocol has a code for survives the trip through its
/// code, and every valid code survives the trip through its format.
pub proof fn lemma_format_code_round_trip(fmt: SampleFormat, code: u8)
    ensures
        fmt != SampleFormat::Other ==> spec_code_format(spec_format_code(fmt)) == fmt,
        FMT_F32 <= code <= FMT_U16 ==> spec_format_code(spec_code_format(code)) == code,
        spec_format_code(spec_code_format(code)) == FMT_F32 || FMT_F32 <= code <= FMT_U16,
{
}

} // verus!
