//! The server's per-tick playback decisions.
//!
//! Every 5 ms tick the server pops one output from the jitter buffer and
//! turns it into audio: a real frame is decoded, a missing frame or a stall
//! is concealed with the codec's PLC, and a lost session is reset and the
//! device drained with silence. After a concealed frame, the first
//! `CROSSFADE_SAMPLES` samples of the next real frame are blended with the
//! tail kept from the concealed one to mask the phase jump at the boundary.
//! This module decides what each tick does and keeps the state that spans
//! ticks; decoding, blending and writing to the device are the caller's.

use vstd::prelude::*;
use crate::jitter::{JitterOut, JitterOutView};

verus! {

/// Samples blended at a concealed-to-real boundary (2 ms at 48 kHz).
pub const CROSSFADE_SAMPLES: usize = 96;

/// Silence pushed to the device when a session is lost, in milliseconds.
pub const RESET_DRAIN_MS: u32 = 200;

/// What a tick does with the jitter buffer's output.
#[derive(Debug, PartialEq, Eq)]
pub enum TickAction {
    /// Decode this payload and write it.
    Decode { payload: Vec<u8> },
    /// Synthesize `samples` samples by PLC and write them; `stall` tells a
    /// stall from a single missing frame.
    Conceal { samples: u32, stall: bool },
    /// The session is lost: reset the jitter buffer and decoder, and push
    /// `drain_ms` of silence to the device.
    Reset { drain_ms: u32 },
}

/// State kept across ticks, and the tick counters.
pub struct Playback {
    prev_was_synthesized: bool,
    last_pcm_tail: Vec<i16>,
    frames_written: u64,
    plc_emitted: u64,
    stall_events: u64,
    decode_errors: u64,
}

/// The last `CROSSFADE_SAMPLES` samples of `pcm` when it has that many,
/// otherwise `tail` unchanged.
pub open spec fn next_tail(tail: Seq<i16>, pcm: Seq<i16>) -> Seq<i16> {
    if pcm.len() >= CROSSFADE_SAMPLES {
        pcm.subrange(pcm.len() - CROSSFADE_SAMPLES, pcm.len() as int)
    } else {
        tail
    }
}

impl Playback {
    /// Whether the previous tick's audio was synthesized.
    pub closed spec fn synthesized(&self) -> bool {
        self.prev_was_synthesized
    }

    /// The tail kept from the last frame written.
    pub closed spec fn tail(&self) -> Seq<i16> {
        self.last_pcm_tail@
    }

    /// Real frames written to the device.
    pub closed spec fn spec_frames_written(&self) -> u64 {
        self.frames_written
    }

    /// Concealed single frames.
    pub closed spec fn spec_plc_emitted(&self) -> u64 {
        self.plc_emitted
    }

    /// Concealed stall ticks.
    pub closed spec fn spec_stall_events(&self) -> u64 {
        self.stall_events
    }

    /// Frames the decoder rejected.
    pub closed spec fn spec_decode_errors(&self) -> u64 {
        self.decode_errors
    }

    /// The invariant: the tail always holds `CROSSFADE_SAMPLES` samples.
    pub closed spec fn wf(&self) -> bool {
        self.last_pcm_tail@.len() == CROSSFADE_SAMPLES
    }

    /// Fresh state: nothing synthesized, a silent tail, counters at zero.
    pub fn new() -> (p: Playback)
        ensures
            p.wf(),
            !p.synthesized(),
            p.tail() == Seq::new(CROSSFADE_SAMPLES as nat, |i: int| 0i16),
            p.spec_frames_written() == 0,
            p.spec_plc_emitted() == 0,
            p.spec_stall_events() == 0,
            p.spec_decode_errors() == 0,
    {
        let tail: Vec<i16> = vec![0i16; CROSSFADE_SAMPLES];
        let p = Playback {
            prev_was_synthesized: false,
            last_pcm_tail: tail,
            frames_written: 0,
            plc_emitted: 0,
            stall_events: 0,
            decode_errors: 0,
        };
        assert(p.tail() =~= Seq::new(CROSSFADE_SAMPLES as nat, |i: int| 0i16));
        p
    }

    /// Decides what a tick does with the jitter buffer's output: decode a
    /// frame; conceal a missing frame with PLC of its size; conceal a stall
    /// with PLC of one frame (`frame_samples`); on a lost session, reset and
    /// drain `RESET_DRAIN_MS` of silence, and forget that the last audio was
    /// synthesized.
    pub fn plan(&mut self, out: JitterOut, frame_samples: u32) -> (a: TickAction)
        requires
            old(self).wf(),
        ensures
            final(self).wf(),
            final(self).tail() == old(self).tail(),
            final(self).spec_frames_written() == old(self).spec_frames_written(),
            final(self).spec_plc_emitted() == old(self).spec_plc_emitted(),
            final(self).spec_stall_events() == old(self).spec_stall_events(),
            final(self).spec_decode_errors() == old(self).spec_decode_errors(),
            match out@ {
                JitterOutView::Frame { payload, .. } => (a matches TickAction::Decode { payload: p }
                    && p@ == payload) && final(self).synthesized() == old(self).synthesized(),
                JitterOutView::Plc { samples } => a == (TickAction::Conceal { samples, stall: false })
                    && final(self).synthesized() == old(self).synthesized(),
                JitterOutView::Stall => a == (TickAction::Conceal {
                    samples: frame_samples,
                    stall: true,
                }) && final(self).synthesized() == old(self).synthesized(),
                JitterOutView::Disconnected => a == (TickAction::Reset {
                    drain_ms: RESET_DRAIN_MS,
                }) && !final(self).synthesized(),
            },
    {
        match out {
            JitterOut::Frame { payload, .. } => TickAction::Decode { payload },
            JitterOut::Plc { samples } => TickAction::Conceal { samples, stall: false },
            JitterOut::Stall => TickAction::Conceal { samples: frame_samples, stall: true },
            JitterOut::Disconnected => {
                self.prev_was_synthesized = false;
                TickAction::Reset { drain_ms: RESET_DRAIN_MS }
            },
        }
    }

    /// Whether a decoded frame of `len` samples is to be blended with the
    /// kept tail: the previous audio was synthesized and the frame holds at
    /// least `CROSSFADE_SAMPLES` samples.
    pub fn needs_crossfade(&self, len: usize) -> (b: bool)
        ensures
            b == (self.synthesized() && len >= CROSSFADE_SAMPLES),
    {
        self.prev_was_synthesized && len >= CROSSFADE_SAMPLES
    }

    /// The kept tail, for blending.
    pub fn last_tail(&self) -> (t: &[i16])
        ensures
            t@ == self.tail(),
    {
        self.last_pcm_tail.as_slice()
    }

    fn keep_tail(&mut self, pcm: &[i16])
        requires
            old(self).wf(),
        ensures
            final(self).wf(),
            final(self).tail() == next_tail(old(self).tail(), pcm@),
            final(self).prev_was_synthesized == old(self).prev_was_synthesized,
            final(self).frames_written == old(self).frames_written,
            final(self).plc_emitted == old(self).plc_emitted,
            final(self).stall_events == old(self).stall_events,
            final(self).decode_errors == old(self).decode_errors,
    {
        let n = pcm.len();
        if n >= CROSSFADE_SAMPLES {
            let start = n - CROSSFADE_SAMPLES;
            let mut i: usize = 0;
            while i < CROSSFADE_SAMPLES
                invariant
                    self.last_pcm_tail@.len() == CROSSFADE_SAMPLES,
                    n == pcm@.len(),
                    start == n - CROSSFADE_SAMPLES,
                    i <= CROSSFADE_SAMPLES,
                    forall|j: int| 0 <= j < i ==> #[trigger] self.last_pcm_tail@[j] == pcm@[start + j],
                    self.prev_was_synthesized == old(self).prev_was_synthesized,
                    self.frames_written == old(self).frames_written,
                    self.plc_emitted == old(self).plc_emitted,
                    self.stall_events == old(self).stall_events,
                    self.decode_errors == old(self).decode_errors,
                decreases CROSSFADE_SAMPLES - i,
            {
                self.last_pcm_tail[i] = pcm[start + i];
                i = i + 1;
            }
            assert(self.last_pcm_tail@ =~= pcm@.subrange(start as int, n as int));
        }
    }

    /// Records a decoded (and possibly blended) real frame: its tail is
    /// kept, the audio is no longer synthesized, and it counts as written
    /// when the device took it.
    pub fn real_frame_done(&mut self, pcm: &[i16], written: bool)
        requires
            old(self).wf(),
            old(self).spec_frames_written() < u64::MAX,
        ensures
            final(self).wf(),
            final(self).tail() == next_tail(old(self).tail(), pcm@),
            !final(self).synthesized(),
            final(self).spec_frames_written() == old(self).spec_frames_written() + (if written {
                1int
            } else {
                0int
            }),
            final(self).spec_plc_emitted() == old(self).spec_plc_emitted(),
            final(self).spec_stall_events() == old(self).spec_stall_events(),
            final(self).spec_decode_errors() == old(self).spec_decode_errors(),
    {
        self.keep_tail(pcm);
        self.prev_was_synthesized = false;
        if written {
            self.frames_written = self.frames_written + 1;
        }
    }

    /// Records concealed audio: its tail is kept, the audio counts as
    /// synthesized, and a stall or a PLC event is counted.
    pub fn concealed_done(&mut self, pcm: &[i16], stall: bool)
        requires
            old(self).wf(),
            old(self).spec_plc_emitted() < u64::MAX,
            old(self).spec_stall_events() < u64::MAX,
        ensures
            final(self).wf(),
            final(self).tail() == next_tail(old(self).tail(), pcm@),
            final(self).synthesized(),
            final(self).spec_frames_written() == old(self).spec_frames_written(),
            final(self).spec_plc_emitted() == old(self).spec_plc_emitted() + (if stall {
                0int
            } else {
                1int
            }),
            final(self).spec_stall_events() == old(self).spec_stall_events() + (if stall {
                1int
            } else {
                0int
            }),
            final(self).spec_decode_errors() == old(self).spec_decode_errors(),
    {
        self.keep_tail(pcm);
        self.prev_was_synthesized = true;
        if stall {
            self.stall_events = self.stall_events + 1;
        } else {
            self.plc_emitted = self.plc_emitted + 1;
        }
    }

    /// Records a frame the decoder rejected.
    pub fn decode_failed(&mut self)
        requires
            old(self).spec_decode_errors() < u64::MAX,
        ensures
            final(self).spec_decode_errors() == old(self).spec_decode_errors() + 1,
            final(self).tail() == old(self).tail(),
            final(self).synthesized() == old(self).synthesized(),
            final(self).spec_frames_written() == old(self).spec_frames_written(),
            final(self).spec_plc_emitted() == old(self).spec_plc_emitted(),
            final(self).spec_stall_events() == old(self).spec_stall_events(),
            old(self).wf() ==> final(self).wf(),
    {
        self.decode_errors = self.decode_errors + 1;
    }

    /// Real frames written to the device.
    pub fn frames_written(&self) -> (n: u64)
        ensures
            n == self.spec_frames_written(),
    {
        self.frames_written
    }

    /// Concealed single frames.
    pub fn plc_emitted(&self) -> (n: u64)
        ensures
            n == self.spec_plc_emitted(),
    {
        self.plc_emitted
    }

    /// Concealed stall ticks.
    pub fn stall_events(&self) -> (n: u64)
        ensures
            n == self.spec_stall_events(),
    {
        self.stall_events
    }

    /// Frames the decoder rejected.
    pub fn decode_errors(&self) -> (n: u64)
        ensures
            n == self.spec_decode_errors(),
    {
        self.decode_errors
    }
}

} // verus!
