//! Opus frame decoding: the decoder interface, the accepted decoder
//! parameters, and the checks applied to what the codec returns.
//!
//! Decoding yields mono (or interleaved stereo) 16-bit PCM. A missing frame
//! is concealed by the codec's packet-loss concealment (PLC).

use vstd::prelude::*;
use crate::text::{decimal, push_decimal};

verus! {

/// Errors that can arise from the Opus frame decoder.
#[derive(Debug, Clone, PartialEq, Eq)]
pub enum DecoderError {
    Opus(String),
    InvalidFrameSize { got: usize, expected: usize },
}

/// Sink-agnostic, frame-agnostic decoder.
pub trait FrameDecoder: Send {
    /// Decodes one Opus frame into PCM s16.
    fn decode(&mut self, opus_payload: &[u8]) -> Result<Vec<i16>, DecoderError>;

    /// PLC: synthesizes `samples` worth of extrapolation for a lost frame.
    fn decode_plc(&mut self, samples: usize) -> Vec<i16>;

    /// Resets internal state (on session reconnect).
    fn reset(&mut self);
}

/// Sample rates the Opus decoder supports.
#[derive(Debug, Clone, Copy, PartialEq, Eq, Structural)]
pub enum OpusSampleRate {
    Hz8000,
    Hz12000,
    Hz16000,
    Hz24000,
    Hz48000,
}

/// Channel layouts the Opus decoder supports.
#[derive(Debug, Clone, Copy, PartialEq, Eq, Structural)]
pub enum OpusChannels {
    Mono,
    Stereo,
}

impl OpusSampleRate {
    /// The rate in Hz.
    pub open spec fn hz(self) -> u32 {
        match self {
            OpusSampleRate::Hz8000 => 8000,
            OpusSampleRate::Hz12000 => 12000,
            OpusSampleRate::Hz16000 => 16000,
            OpusSampleRate::Hz24000 => 24000,
            OpusSampleRate::Hz48000 => 48000,
        }
    }
}

impl OpusChannels {
    /// The number of channels.
    pub open spec fn count(self) -> u16 {
        match self {
            OpusChannels::Mono => 1,
            OpusChannels::Stereo => 2,
        }
    }
}

impl DecoderError {
    /// The text of an `Opus` error.
    pub open spec fn opus_message(&self) -> Seq<char> {
        match self {
            DecoderError::Opus(s) => s@,
            _ => Seq::empty(),
        }
    }
}

impl DecoderError {
    /// The message printed for an error.
    pub open spec fn text(&self) -> Seq<char> {
        match self {
            DecoderError::Opus(s) => "opus decode failed: "@ + s@,
            DecoderError::InvalidFrameSize { got, expected } => "invalid frame size: got "@
                + decimal(*got as nat) + " samples, expected "@ + decimal(*expected as nat),
        }
    }

    /// The printed message, e.g. `invalid frame size: got 120 samples, expected 240`.
    pub fn to_string(&self) -> (m: String)
        ensures
            m@ == self.text(),
    {
        match self {
            DecoderError::Opus(s) => {
                proof {
                    reveal_strlit("opus decode failed: ");
                }
                let mut m = String::from_str("opus decode failed: ");
                m.append(s.as_str());
                m
            },
            DecoderError::InvalidFrameSize { got, expected } => {
                proof {
                    reveal_strlit("invalid frame size: got ");
                    reveal_strlit(" samples, expected ");
                }
                let mut m = String::from_str("invalid frame size: got ");
                push_decimal(&mut m, *got as u64);
                m.append(" samples, expected ");
                push_decimal(&mut m, *expected as u64);
                m
            },
        }
    }
}

/// Checks decoder parameters: the sample rate must be one of 8000, 12000,
/// 16000, 24000, 48000 and the channel count 1 (mono) or 2 (stereo). The
/// rate is checked first.
pub fn decoder_params(sample_rate: u32, channels: u16) -> (r: Result<
    (OpusSampleRate, OpusChannels),
    DecoderError,
>)
    ensures
        match r {
            Ok((sr, ch)) => sr.hz() == sample_rate && ch.count() == channels,
            Err(e) => {
                let rate_ok = sample_rate == 8000 || sample_rate == 12000 || sample_rate == 16000
                    || sample_rate == 24000 || sample_rate == 48000;
                &&& e is Opus
                &&& !rate_ok ==> e.opus_message() == "unsupported sample rate: "@ + decimal(
                    sample_rate as nat,
                )
                &&& rate_ok ==> channels != 1 && channels != 2 && e.opus_message()
                    == "unsupported channel count: "@ + decimal(channels as nat)
            },
        },
{
    let sr = match sample_rate {
        8_000 => OpusSampleRate::Hz8000,
        12_000 => OpusSampleRate::Hz12000,
        16_000 => OpusSampleRate::Hz16000,
        24_000 => OpusSampleRate::Hz24000,
        48_000 => OpusSampleRate::Hz48000,
        other => {
            proof {
                reveal_strlit("unsupported sample rate: ");
            }
            let mut msg = String::from_str("unsupported sample rate: ");
            push_decimal(&mut msg, other as u64);
            return Err(DecoderError::Opus(msg));
        },
    };
    let ch = match channels {
        1 => OpusChannels::Mono,
        2 => OpusChannels::Stereo,
        other => {
            proof {
                reveal_strlit("unsupported channel count: ");
            }
            let mut msg = String::from_str("unsupported channel count: ");
            push_decimal(&mut msg, other as u64);
            return Err(DecoderError::Opus(msg));
        },
    };
    Ok((sr, ch))
}

/// Checks a decoded frame: the codec must have produced exactly
/// `frame_samples` samples per channel (`decoded`); the buffer is then
/// cut to the decoded samples.
pub fn finish_decode(buf: Vec<i16>, decoded: usize, frame_samples: usize, channels: u16) -> (r:
    Result<Vec<i16>, DecoderError>)
    requires
        buf@.len() == frame_samples * channels,
    ensures
        decoded != frame_samples ==> r == Err::<Vec<i16>, DecoderError>(
            DecoderError::InvalidFrameSize { got: decoded, expected: frame_samples },
        ),
        decoded == frame_samples ==> (r matches Ok(v) && v@ == buf@),
{
    if decoded != frame_samples {
        return Err(DecoderError::InvalidFrameSize { got: decoded, expected: frame_samples });
    }
    let mut buf = buf;
    // The decoded samples fill the buffer exactly.
    let keep = buf.len();
    assert(keep == decoded * channels);
    buf.truncate(keep);
    Ok(buf)
}

/// The output of a PLC request: the first `n` samples per channel when the
/// codec synthesized `n`, the whole zero-filled buffer when it failed.
pub fn finish_plc(buf: Vec<i16>, decoded: Option<usize>, channels: u16) -> (v: Vec<i16>)
    requires
        decoded matches Some(n) ==> n * channels <= usize::MAX,
    ensures
        match decoded {
            Some(n) => v@ == (if n * channels <= buf@.len() {
                buf@.subrange(0, n * channels)
            } else {
                buf@
            }),
            None => v@ == buf@,
        },
{
    let mut buf = buf;
    match decoded {
        Some(n) => {
            buf.truncate(n * channels as usize);
        },
        None => {},
    }
    buf
}

} // verus!
