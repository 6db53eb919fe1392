//! Adaptive jitter buffer: the playback state machine.
//!
//! Incoming packets are stored in a `BTreeMap` keyed by timestamp. A
//! caller-driven clock ([`JitterBuffer::pop_due`]) advances one frame at a
//! time; the buffer decides whether to emit a real frame, a PLC placeholder,
//! a stall event, or a disconnected signal.
//!
//! Before the first playback the buffer warms up: it waits until
//! `target_depth` frames are buffered, and keeps its playback cursor on the
//! earliest buffered timestamp, compared wrap-aware, so that frames arriving
//! out of order are not skipped, also across a timestamp wrap.
//!
//! Every `ADAPT_EPOCH` played slots the target depth is due to be
//! re-derived from the jitter estimate ([`JitterBuffer::adapt_due`]); the
//! caller hands the raw depth that the estimate calls for to
//! [`JitterBuffer::recalculate_target`], which clamps it to
//! `[MIN_TARGET, MAX_TARGET]` and moves the target by at most one frame.

use vstd::prelude::*;
use std::collections::BTreeMap;
use crate::packet::{spec_ts_diff, ts_diff, RtpPacket};

verus! {

broadcast use vstd::std_specs::btree::group_btree_axioms;

/// How many played slots between target-depth recalculations.
pub const ADAPT_EPOCH: u32 = 200;

/// Consecutive missing pops after which `Stall` is reported (≈ 250 ms at
/// 5 ms/frame).
pub const STALL_THRESHOLD: u32 = 50;

/// Minimum target depth in frames (20 frames = 100 ms).
pub const MIN_TARGET: u8 = 20;

/// Maximum target depth in frames (32 frames = 160 ms).
pub const MAX_TARGET: u8 = 32;

// ─────────────────────────────── public types ───────────────────────────────

/// Output of a single [`JitterBuffer::pop_due`] call.
#[derive(Debug, PartialEq, Eq)]
pub enum JitterOut {
    /// A frame for the requested timestamp was buffered; emit it.
    Frame { seq: u16, timestamp: u32, payload: Vec<u8> },
    /// No frame for this timestamp; the caller should run PLC for `samples` samples.
    Plc { samples: u32 },
    /// Many consecutive frames were missing; stay silent.
    Stall,
    /// Prolonged absence of data; the session is treated as lost.
    Disconnected,
}

/// [`JitterOut`] as a mathematical value.
pub enum JitterOutView {
    Frame { seq: u16, timestamp: u32, payload: Seq<u8> },
    Plc { samples: u32 },
    Stall,
    Disconnected,
}

impl View for JitterOut {
    type V = JitterOutView;

    open spec fn view(&self) -> JitterOutView {
        match self {
            JitterOut::Frame { seq, timestamp, payload } => JitterOutView::Frame {
                seq: *seq,
                timestamp: *timestamp,
                payload: payload@,
            },
            JitterOut::Plc { samples } => JitterOutView::Plc { samples: *samples },
            JitterOut::Stall => JitterOutView::Stall,
            JitterOut::Disconnected => JitterOutView::Disconnected,
        }
    }
}

/// Snapshot statistics of a [`JitterBuffer`].
#[derive(Debug, Clone, Copy, PartialEq, Eq, Default)]
pub struct JitterStats {
    /// Total packets accepted via [`JitterBuffer::push`].
    pub received: u64,
    /// Packets dropped because they arrived after their timestamp was already popped.
    pub late_dropped: u64,
    /// Packets dropped because the same timestamp was already in the buffer.
    pub duplicates: u64,
    /// PLC events emitted.
    pub plc_emitted: u64,
    /// Stall events emitted.
    pub stall_events: u64,
    /// Number of frames currently waiting in the buffer (saturating at 255).
    pub current_depth: u8,
    /// Current adaptive target depth in frames.
    pub target_depth: u8,
}

/// A frame held in the buffer: its sequence number and payload.
#[verifier::ext_equal]
pub struct FrameView {
    pub seq: u16,
    pub payload: Seq<u8>,
}

/// The whole state of a [`JitterBuffer`] as mathematical values.
#[verifier::ext_equal]
pub struct JitterModel {
    /// Buffered frames, keyed by timestamp.
    pub frames: Map<u32, FrameView>,
    /// Duration of one frame in 48 kHz samples.
    pub frame_samples: u32,
    /// Consecutive empty pops after which the buffer reports `Disconnected`.
    pub max_stall_frames: u32,
    /// The timestamp popped next; `None` until a frame arrives.
    pub next_pop_ts: Option<u32>,
    /// The last timestamp popped (frame or PLC).
    pub last_popped_ts: Option<u32>,
    /// Consecutive pops that did not yield a frame.
    pub consecutive_no_frame: u32,
    /// True while collecting frames before the first playback.
    pub warming_up: bool,
    /// Adaptive target depth in frames.
    pub target_depth: u8,
    /// Played slots since the last recalculation point.
    pub epoch_counter: u32,
    /// True when an epoch has ended and the target is due to be recalculated.
    pub adapt_due: bool,
    pub received: u64,
    pub late_dropped: u64,
    pub duplicates: u64,
    pub plc_emitted: u64,
    pub stall_events: u64,
}

// ─────────────────────────────── the model's transitions ──────────────────

/// `k` is a timestamp of `s` and, compared wrap-aware, no timestamp of `s`
/// lies before it.
pub open spec fn is_earliest(s: Set<u32>, k: u32) -> bool {
    s.contains(k) && forall|j: u32| s.contains(j) ==> spec_ts_diff(j, k) >= 0
}

/// Every timestamp of `s` lies in the half of the timestamp range that
/// starts at `w`: `s` fits in a window where wrap-aware order is a total
/// order.
pub open spec fn in_window(s: Set<u32>, w: u32) -> bool {
    forall|x: u32| s.contains(x) ==> (x - w) % 0x1_0000_0000 < 0x8000_0000
}

/// `(a + b) mod 2^32`.
pub open spec fn wrap_add(a: u32, b: u32) -> u32 {
    ((a + b) % 0x1_0000_0000) as u32
}

impl JitterModel {
    /// The state invariant every buffer keeps.
    pub open spec fn inv(self) -> bool {
        &&& self.inv_shape()
        &&& self.consecutive_no_frame <= self.max_stall_frames
    }

    /// The invariant without the bound on the run of empty pops.
    pub open spec fn inv_shape(self) -> bool {
        &&& MIN_TARGET <= self.target_depth <= MAX_TARGET
        &&& self.epoch_counter < ADAPT_EPOCH
        &&& self.next_pop_ts is None ==> self.warming_up && self.frames.is_empty()
        &&& self.warming_up && self.frames.is_empty() ==> self.next_pop_ts is None
        &&& self.warming_up ==> self.last_popped_ts is None
        &&& self.warming_up && !self.frames.is_empty() ==> (self.next_pop_ts matches Some(
            t,
        ) && self.frames.contains_key(t))
    }

    /// Counters that a push may increment have room left.
    pub open spec fn push_headroom(self) -> bool {
        &&& self.received < u64::MAX
        &&& self.late_dropped < u64::MAX
        &&& self.duplicates < u64::MAX
    }

    /// Counters that a pop may increment have room left.
    pub open spec fn pop_headroom(self) -> bool {
        &&& self.consecutive_no_frame < u32::MAX
        &&& self.plc_emitted < u64::MAX
        &&& self.stall_events < u64::MAX
    }

    /// A packet at or before the last popped timestamp (wrap-aware) is late.
    pub open spec fn is_late(self, ts: u32) -> bool {
        self.last_popped_ts matches Some(last) && spec_ts_diff(ts, last) <= 0
    }

    /// The state after accepting a packet with timestamp `ts`.
    ///
    /// A late packet only increments `late_dropped`; a packet whose timestamp
    /// is already buffered only increments `duplicates` (the first copy is
    /// kept). Otherwise the frame is stored and counted; the first frame sets
    /// the playback cursor, and while warming up a frame whose timestamp lies
    /// before the cursor (wrap-aware) moves the cursor to it.
    pub open spec fn push(self, ts: u32, seq: u16, payload: Seq<u8>) -> JitterModel {
        if self.is_late(ts) {
            JitterModel { late_dropped: (self.late_dropped + 1) as u64, ..self }
        } else if self.frames.contains_key(ts) {
            JitterModel { duplicates: (self.duplicates + 1) as u64, ..self }
        } else {
            let frames = self.frames.insert(ts, FrameView { seq, payload });
            JitterModel {
                frames,
                received: (self.received + 1) as u64,
                next_pop_ts: match self.next_pop_ts {
                    None => Some(ts),
                    Some(cur) => if self.warming_up && spec_ts_diff(ts, cur) < 0 {
                        Some(ts)
                    } else {
                        Some(cur)
                    },
                },
                ..self
            }
        }
    }

    /// The playback state after a reset; counters and target are kept.
    pub open spec fn reset(self) -> JitterModel {
        JitterModel {
            frames: Map::empty(),
            next_pop_ts: None,
            last_popped_ts: None,
            consecutive_no_frame: 0,
            warming_up: true,
            epoch_counter: 0,
            ..self
        }
    }

    /// After a pop that yielded no frame (with `consecutive_no_frame` already
    /// counted): `Disconnected` and a reset past `max_stall_frames`, `Stall`
    /// past `STALL_THRESHOLD`, otherwise a PLC request for one frame.
    pub open spec fn escalate(self) -> (JitterModel, JitterOutView) {
        if self.consecutive_no_frame > self.max_stall_frames {
            (self.reset(), JitterOutView::Disconnected)
        } else if self.consecutive_no_frame > STALL_THRESHOLD {
            (
                JitterModel { stall_events: (self.stall_events + 1) as u64, ..self },
                JitterOutView::Stall,
            )
        } else {
            (self, JitterOutView::Plc { samples: self.frame_samples })
        }
    }

    /// Counts one played slot; at the end of an epoch the counter restarts
    /// and a target recalculation becomes due.
    pub open spec fn tick_epoch(self) -> JitterModel {
        if self.epoch_counter + 1 >= ADAPT_EPOCH {
            JitterModel { epoch_counter: 0, adapt_due: true, ..self }
        } else {
            JitterModel { epoch_counter: (self.epoch_counter + 1) as u32, ..self }
        }
    }

    /// The state and output of one playback tick.
    pub open spec fn pop(self) -> (JitterModel, JitterOutView) {
        match self.next_pop_ts {
            None => JitterModel {
                consecutive_no_frame: (self.consecutive_no_frame + 1) as u32,
                ..self
            }.escalate(),
            Some(t) => if self.warming_up && self.frames.len() < self.target_depth {
                JitterModel {
                    consecutive_no_frame: (self.consecutive_no_frame + 1) as u32,
                    plc_emitted: (self.plc_emitted + 1) as u64,
                    ..self
                }.escalate()
            } else if self.frames.contains_key(t) {
                (
                    JitterModel {
                        frames: self.frames.remove(t),
                        warming_up: false,
                        last_popped_ts: Some(t),
                        next_pop_ts: Some(wrap_add(t, self.frame_samples)),
                        consecutive_no_frame: 0,
                        ..self
                    }.tick_epoch(),
                    JitterOutView::Frame {
                        seq: self.frames[t].seq,
                        timestamp: t,
                        payload: self.frames[t].payload,
                    },
                )
            } else {
                let m = JitterModel {
                    warming_up: false,
                    last_popped_ts: Some(t),
                    next_pop_ts: Some(wrap_add(t, self.frame_samples)),
                    consecutive_no_frame: (self.consecutive_no_frame + 1) as u32,
                    ..self
                }.tick_epoch();
                JitterModel { plc_emitted: (m.plc_emitted + 1) as u64, ..m }.escalate()
            },
        }
    }

    /// The target depth moved toward `raw` clamped to `[MIN_TARGET,
    /// MAX_TARGET]`, by at most one frame.
    pub open spec fn next_target(self, raw: u8) -> u8 {
        let desired = if raw < MIN_TARGET {
            MIN_TARGET
        } else if raw > MAX_TARGET {
            MAX_TARGET
        } else {
            raw
        };
        if desired > self.target_depth {
            (self.target_depth + 1) as u8
        } else if desired < self.target_depth {
            (self.target_depth - 1) as u8
        } else {
            desired
        }
    }
}

// ─────────────────────────────── JitterBuffer ───────────────────────────────

/// A frame stored in the buffer (payload owned, header fields retained).
struct OwnedFrame {
    seq: u16,
    payload: Vec<u8>,
}

/// The view of a stored frame.
spec fn frame_view(f: OwnedFrame) -> FrameView {
    FrameView { seq: f.seq, payload: f.payload@ }
}

/// Adaptive jitter buffer. See the module documentation for the algorithm.
pub struct JitterBuffer {
    frames: BTreeMap<u32, OwnedFrame>,
    frame_samples: u32,
    max_stall_frames: u32,
    next_pop_ts: Option<u32>,
    last_popped_ts: Option<u32>,
    consecutive_no_frame: u32,
    warming_up: bool,
    target_depth: u8,
    epoch_counter: u32,
    adapt_due: bool,
    received: u64,
    late_dropped: u64,
    duplicates: u64,
    plc_emitted: u64,
    stall_events: u64,
}

impl View for JitterBuffer {
    type V = JitterModel;

    closed spec fn view(&self) -> JitterModel {
        JitterModel {
            frames: self.frames@.map_values(|f: OwnedFrame| frame_view(f)),
            frame_samples: self.frame_samples,
            max_stall_frames: self.max_stall_frames,
            next_pop_ts: self.next_pop_ts,
            last_popped_ts: self.last_popped_ts,
            consecutive_no_frame: self.consecutive_no_frame,
            warming_up: self.warming_up,
            target_depth: self.target_depth,
            epoch_counter: self.epoch_counter,
            adapt_due: self.adapt_due,
            received: self.received,
            late_dropped: self.late_dropped,
            duplicates: self.duplicates,
            plc_emitted: self.plc_emitted,
            stall_events: self.stall_events,
        }
    }
}

proof fn lemma_escalate_inv(m: JitterModel)
    requires
        m.inv_shape(),
    ensures
        m.escalate().0.inv(),
{
    assert(m.reset().frames.dom() =~= Set::<u32>::empty());
}

/// Every pop keeps the invariant.
pub proof fn lemma_pop_inv(m: JitterModel)
    requires
        m.inv(),
        m.pop_headroom(),
    ensures
        m.pop().0.inv(),
{
    match m.next_pop_ts {
        None => {
            lemma_escalate_inv(
                JitterModel { consecutive_no_frame: (m.consecutive_no_frame + 1) as u32, ..m },
            );
        },
        Some(t) => {
            if m.warming_up && m.frames.len() < m.target_depth {
                lemma_escalate_inv(
                    JitterModel {
                        consecutive_no_frame: (m.consecutive_no_frame + 1) as u32,
                        plc_emitted: (m.plc_emitted + 1) as u64,
                        ..m
                    },
                );
            } else if m.frames.contains_key(t) {
            } else {
                let m1 = JitterModel {
                    warming_up: false,
                    last_popped_ts: Some(t),
                    next_pop_ts: Some(wrap_add(t, m.frame_samples)),
                    consecutive_no_frame: (m.consecutive_no_frame + 1) as u32,
                    ..m
                }.tick_epoch();
                lemma_escalate_inv(JitterModel { plc_emitted: (m1.plc_emitted + 1) as u64, ..m1 });
            }
        },
    }
}

/// Every push keeps the invariant.
pub proof fn lemma_push_inv(m: JitterModel, ts: u32, seq: u16, payload: Seq<u8>)
    requires
        m.inv(),
    ensures
        m.push(ts, seq, payload).inv(),
{
    if !m.is_late(ts) && !m.frames.contains_key(ts) {
        let frames2 = m.frames.insert(ts, FrameView { seq, payload });
        assert(frames2.contains_key(ts));
        if m.frames.is_empty() && !m.warming_up {
            assert(m.frames.dom() =~= Set::<u32>::empty());
        }
    }
}

proof fn lemma_view_frames(b: &JitterBuffer)
    ensures
        b@.frames.dom() == b.frames@.dom(),
        b@.frames.dom().finite(),
        forall|k: u32| #[trigger] b@.frames.contains_key(k) ==> b@.frames[k] == frame_view(b.frames@[k]),
{
    assert(b@.frames.dom() =~= b.frames@.dom());
}

impl JitterBuffer {
    /// The buffer's invariant, stated over its view.
    pub open spec fn wf(&self) -> bool {
        self@.inv()
    }

    /// Creates an empty buffer.
    ///
    /// * `frame_samples` – 48 kHz samples per frame (e.g. 240 for 5 ms).
    /// * `max_stall_frames` – consecutive missing frames before `Disconnected`.
    pub fn new(frame_samples: u32, max_stall_frames: u32) -> (b: JitterBuffer)
        ensures
            b.wf(),
            b@ == (JitterModel {
                frames: Map::empty(),
                frame_samples,
                max_stall_frames,
                next_pop_ts: None,
                last_popped_ts: None,
                consecutive_no_frame: 0,
                warming_up: true,
                target_depth: MIN_TARGET,
                epoch_counter: 0,
                adapt_due: false,
                received: 0,
                late_dropped: 0,
                duplicates: 0,
                plc_emitted: 0,
                stall_events: 0,
            }),
    {
        let b = JitterBuffer {
            frames: BTreeMap::new(),
            frame_samples,
            max_stall_frames,
            next_pop_ts: None,
            last_popped_ts: None,
            consecutive_no_frame: 0,
            warming_up: true,
            target_depth: MIN_TARGET,
            epoch_counter: 0,
            adapt_due: false,
            received: 0,
            late_dropped: 0,
            duplicates: 0,
            plc_emitted: 0,
            stall_events: 0,
        };
        assert(b@.frames =~= Map::empty());
        b
    }

    /// Accepts an incoming packet.
    ///
    /// Packets that arrive too late or are duplicates are counted and
    /// discarded.
    pub fn push(&mut self, pkt: RtpPacket<'_>)
        requires
            old(self).wf(),
            old(self)@.push_headroom(),
        ensures
            final(self).wf(),
            final(self)@ == old(self)@.push(pkt.timestamp, pkt.seq, pkt.payload@),
    {
        let ts = pkt.timestamp;
        let ghost m = self@;
        proof {
            lemma_view_frames(self);
            lemma_push_inv(m, pkt.timestamp, pkt.seq, pkt.payload@);
        }
        // Late check: arrived at or before the last popped ts.
        if let Some(last) = self.last_popped_ts {
            if ts_diff(ts, last) <= 0 {
                self.late_dropped = self.late_dropped + 1;
                return;
            }
        }
        // Duplicate check: same timestamp already buffered.
        if self.frames.contains_key(&ts) {
            self.duplicates = self.duplicates + 1;
            return;
        }
        let seq = pkt.seq;
        let payload = pkt.payload.into_owned();
        let ghost fv = FrameView { seq, payload: payload@ };
        self.frames.insert(ts, OwnedFrame { seq, payload });
        self.received = self.received + 1;
        let ghost frames2 = m.frames.insert(ts, fv);
        assert(self@.frames =~= frames2);
        // The first frame sets the cursor; while warming up, a frame that lies
        // before it (wrap-aware) takes its place, so that frames arriving out
        // of order are not skipped.
        match self.next_pop_ts {
            None => {
                self.next_pop_ts = Some(ts);
            },
            Some(cur) => {
                if self.warming_up && ts_diff(ts, cur) < 0 {
                    self.next_pop_ts = Some(ts);
                }
            },
        }
        proof {
            lemma_push_inv(m, ts, seq, payload@);
        }
    }

    /// Advances the playback clock by one frame and returns what to emit.
    ///
    /// Call once per frame tick. `_now_samples` is available for external
    /// clock integration; the buffer manages its own cursor.
    pub fn pop_due(&mut self, _now_samples: u32) -> (out: JitterOut)
        requires
            old(self).wf(),
            old(self)@.pop_headroom(),
        ensures
            final(self).wf(),
            (final(self)@, out@) == old(self)@.pop(),
    {
        proof {
            lemma_view_frames(self);
            lemma_pop_inv(self@);
        }
        // Phase 0: no data ever arrived.
        if self.next_pop_ts.is_none() {
            self.consecutive_no_frame = self.consecutive_no_frame + 1;
            return self.check_stall_or_plc();
        }
        let next_ts = match self.next_pop_ts {
            Some(t) => t,
            None => 0,
        };
        // Phase 1: warmup, wait for target_depth frames.
        if self.warming_up {
            if self.frames.len() < self.target_depth as usize {
                self.plc_emitted = self.plc_emitted + 1;
                self.consecutive_no_frame = self.consecutive_no_frame + 1;
                return self.check_stall_or_plc();
            }
            self.warming_up = false;
        }
        let ghost m0 = self@;
        // Phase 2: try to pop the frame at next_ts.
        if let Some(frame) = self.frames.remove(&next_ts) {
            assert(self@.frames =~= m0.frames.remove(next_ts));
            assert(frame_view(frame) == m0.frames[next_ts]);
            let out = JitterOut::Frame { seq: frame.seq, timestamp: next_ts, payload: frame.payload };
            self.last_popped_ts = Some(next_ts);
            self.advance_pop_ts();
            self.consecutive_no_frame = 0;
            self.tick_epoch();
            return out;
        }
        // Phase 3: frame missing, emit PLC and advance.
        self.last_popped_ts = Some(next_ts);
        self.advance_pop_ts();
        self.consecutive_no_frame = self.consecutive_no_frame + 1;
        self.tick_epoch();
        self.plc_emitted = self.plc_emitted + 1;
        self.check_stall_or_plc()
    }

    /// Reports `Disconnected` (and resets) or `Stall` when the run of empty
    /// pops warrants it, a PLC request otherwise.
    fn check_stall_or_plc(&mut self) -> (out: JitterOut)
        requires
            old(self)@.stall_events < u64::MAX,
            MIN_TARGET <= old(self).target_depth <= MAX_TARGET,
        ensures
            (final(self)@, out@) == old(self)@.escalate(),
    {
        if self.consecutive_no_frame > self.max_stall_frames {
            self.reset();
            return JitterOut::Disconnected;
        }
        if self.consecutive_no_frame > STALL_THRESHOLD {
            self.stall_events = self.stall_events + 1;
            return JitterOut::Stall;
        }
        JitterOut::Plc { samples: self.frame_samples }
    }

    /// Advances `next_pop_ts` by one frame (wrapping).
    fn advance_pop_ts(&mut self)
        ensures
            final(self)@ == (JitterModel {
                next_pop_ts: match old(self).next_pop_ts {
                    Some(t) => Some(wrap_add(t, old(self).frame_samples)),
                    None => None,
                },
                ..old(self)@
            }),
            final(self).frames == old(self).frames,
    {
        if let Some(ts) = self.next_pop_ts {
            self.next_pop_ts = Some(ts.wrapping_add(self.frame_samples));
        }
    }

    /// Counts a played slot; ends the epoch every `ADAPT_EPOCH` slots.
    fn tick_epoch(&mut self)
        requires
            old(self).epoch_counter < ADAPT_EPOCH,
        ensures
            final(self)@ == old(self)@.tick_epoch(),
            final(self).frames == old(self).frames,
    {
        self.epoch_counter = self.epoch_counter + 1;
        if self.epoch_counter >= ADAPT_EPOCH {
            self.epoch_counter = 0;
            self.adapt_due = true;
        }
    }

    /// Resets playback state (done on `Disconnected`; also public).
    /// Counters, the target depth and a pending recalculation are kept.
    pub fn reset(&mut self)
        ensures
            final(self)@ == old(self)@.reset(),
            MIN_TARGET <= old(self)@.target_depth <= MAX_TARGET ==> final(self).wf(),
    {
        self.frames.clear();
        self.next_pop_ts = None;
        self.last_popped_ts = None;
        self.consecutive_no_frame = 0;
        self.warming_up = true;
        self.epoch_counter = 0;
        assert(self@.frames =~= Map::empty());
    }

    /// Whether an epoch has ended and the target depth is due to be
    /// recalculated with [`JitterBuffer::recalculate_target`].
    pub fn adapt_due(&self) -> (b: bool)
        ensures
            b == self@.adapt_due,
    {
        self.adapt_due
    }

    /// Recomputes the target depth from `raw`, the depth in frames that the
    /// current P95 jitter calls for: clamped to `[MIN_TARGET, MAX_TARGET]`,
    /// and moved by at most one frame from the current target to avoid
    /// oscillation. Clears the pending recalculation.
    pub fn recalculate_target(&mut self, raw: u8)
        requires
            old(self).wf(),
        ensures
            final(self).wf(),
            final(self)@ == (JitterModel {
                target_depth: old(self)@.next_target(raw),
                adapt_due: false,
                ..old(self)@
            }),
    {
        let desired = if raw < MIN_TARGET {
            MIN_TARGET
        } else if raw > MAX_TARGET {
            MAX_TARGET
        } else {
            raw
        };
        self.target_depth = if desired > self.target_depth {
            let up = self.target_depth + 1;
            if up < MAX_TARGET {
                up
            } else {
                MAX_TARGET
            }
        } else if desired < self.target_depth {
            let down = self.target_depth - 1;
            if down > MIN_TARGET {
                down
            } else {
                MIN_TARGET
            }
        } else {
            desired
        };
        self.adapt_due = false;
    }

    /// Current adaptive target depth.
    pub fn target_depth(&self) -> (d: u8)
        ensures
            d == self@.target_depth,
    {
        self.target_depth
    }

    /// The timestamp that will be popped next, if any frame has arrived.
    pub fn next_pop_ts(&self) -> (t: Option<u32>)
        ensures
            t == self@.next_pop_ts,
    {
        self.next_pop_ts
    }

    /// Whether the next push cannot overflow a counter.
    pub fn can_push(&self) -> (b: bool)
        ensures
            b == self@.push_headroom(),
    {
        self.received < u64::MAX && self.late_dropped < u64::MAX && self.duplicates < u64::MAX
    }

    /// Whether the next pop cannot overflow a counter.
    pub fn can_pop(&self) -> (b: bool)
        ensures
            b == self@.pop_headroom(),
    {
        self.consecutive_no_frame < u32::MAX && self.plc_emitted < u64::MAX && self.stall_events
            < u64::MAX
    }

    /// Snapshot of the current statistics.
    pub fn stats(&self) -> (s: JitterStats)
        requires
            self.wf(),
        ensures
            s.received == self@.received,
            s.late_dropped == self@.late_dropped,
            s.duplicates == self@.duplicates,
            s.plc_emitted == self@.plc_emitted,
            s.stall_events == self@.stall_events,
            s.target_depth == self@.target_depth,
            s.current_depth == (if self@.frames.len() < 255 {
                self@.frames.len()
            } else {
                255
            }),
    {
        let n = self.frames.len();
        assert(self@.frames.dom() =~= self.frames@.dom());
        let depth: u8 = if n < 255 {
            n as u8
        } else {
            255
        };
        JitterStats {
            received: self.received,
            late_dropped: self.late_dropped,
            duplicates: self.duplicates,
            plc_emitted: self.plc_emitted,
            stall_events: self.stall_events,
            current_depth: depth,
            target_depth: self.target_depth,
        }
    }
}


// ─────────────────────────────── laws ───────────────────────────────

/// Playback is contiguous: when two successive pops both emit a frame, the
/// second frame's timestamp is the first one's plus one frame duration
/// (modulo 2^32), so frames come out in timestamp order.
pub proof fn lemma_successive_frames_contiguous(m: JitterModel)
    requires
        m.inv(),
    ensures
        ({
            let (m1, o1) = m.pop();
            let (m2, o2) = m1.pop();
            o1 is Frame && o2 is Frame ==> o2->Frame_timestamp == wrap_add(
                o1->Frame_timestamp,
                m.frame_samples,
            )
        }),
{
}

/// Under a common window, wrap-aware difference is plain difference of the
/// offsets from the window's start.
proof fn lemma_window_diff(x: u32, y: u32, w: u32)
    requires
        (x - w) % 0x1_0000_0000 < 0x8000_0000,
        (y - w) % 0x1_0000_0000 < 0x8000_0000,
    ensures
        spec_ts_diff(x, y) == (x - w) % 0x1_0000_0000 - (y - w) % 0x1_0000_0000,
{
    vstd::arithmetic::div_mod::lemma_fundamental_div_mod(x - w, 0x1_0000_0000);
    vstd::arithmetic::div_mod::lemma_fundamental_div_mod(y - w, 0x1_0000_0000);
    let ux = (x - w) % 0x1_0000_0000;
    let uy = (y - w) % 0x1_0000_0000;
    let qx = (x - w) / 0x1_0000_0000;
    let qy = (y - w) / 0x1_0000_0000;
    let r = ux - uy;
    assert(x - y == (qx - qy) * 0x1_0000_0000 + r);
    if r >= 0 {
        vstd::arithmetic::div_mod::lemma_fundamental_div_mod_converse(
            x - y,
            0x1_0000_0000,
            qx - qy,
            r,
        );
    } else {
        vstd::arithmetic::div_mod::lemma_fundamental_div_mod_converse(
            x - y,
            0x1_0000_0000,
            qx - qy - 1,
            r + 0x1_0000_0000,
        );
    }
}

/// While warming up, a packet keeps the cursor on the earliest buffered
/// timestamp (compared wrap-aware), also across a timestamp wrap, provided
/// the cursor was on the earliest one before and the buffered timestamps
/// and the packet's fit in half the timestamp range.
pub proof fn lemma_warmup_anchor(m: JitterModel, ts: u32, seq: u16, payload: Seq<u8>, w: u32)
    requires
        m.inv(),
        m.warming_up,
        !m.frames.is_empty() ==> is_earliest(m.frames.dom(), m.next_pop_ts->0),
        in_window(m.frames.dom().insert(ts), w),
    ensures
        ({
            let m2 = m.push(ts, seq, payload);
            &&& m2.inv()
            &&& m2.warming_up
            &&& in_window(m2.frames.dom(), w)
            &&& !m2.frames.is_empty() ==> m2.next_pop_ts is Some && is_earliest(
                m2.frames.dom(),
                m2.next_pop_ts->0,
            )
        }),
{
    let m2 = m.push(ts, seq, payload);
    lemma_push_inv(m, ts, seq, payload);
    assert(m2.frames.dom().subset_of(m.frames.dom().insert(ts)));
    if !m.frames.contains_key(ts) {
        let d = m2.frames.dom();
        assert(d =~= m.frames.dom().insert(ts));
        if m.frames.is_empty() {
            assert(d =~= set![ts]);
        } else {
            lemma_earliest_insert(m.frames.dom(), m.next_pop_ts->0, ts, w);
        }
    }
}

/// Adding a timestamp to a set that fits a window: the earlier of the
/// previous earliest and the new one is the new earliest.
proof fn lemma_earliest_insert(s: Set<u32>, cur: u32, ts: u32, w: u32)
    requires
        is_earliest(s, cur),
        in_window(s.insert(ts), w),
    ensures
        is_earliest(s.insert(ts), if spec_ts_diff(ts, cur) < 0 { ts } else { cur }),
{
    let s2 = s.insert(ts);
    assert(s2.contains(ts) && s2.contains(cur));
    lemma_window_diff(ts, cur, w);
    let a = if spec_ts_diff(ts, cur) < 0 { ts } else { cur };
    assert forall|j: u32| s2.contains(j) implies spec_ts_diff(j, a) >= 0 by {
        lemma_window_diff(j, ts, w);
        lemma_window_diff(j, cur, w);
        if j != ts {
            assert(s.contains(j));
            assert(spec_ts_diff(j, cur) >= 0);
        }
    }
}

/// An operation on a jitter buffer: accepting a packet, or one playback tick.
pub enum JitterOp {
    Push { ts: u32, seq: u16, payload: Seq<u8> },
    Pop,
}

/// The state after applying `ops` to `m` in order, and the outputs of the
/// pops in order.
pub open spec fn run(m: JitterModel, ops: Seq<JitterOp>) -> (JitterModel, Seq<JitterOutView>)
    decreases ops.len(),
{
    if ops.len() == 0 {
        (m, Seq::empty())
    } else {
        let (m1, outs) = run(m, ops.drop_last());
        match ops.last() {
            JitterOp::Push { ts, seq, payload } => (m1.push(ts, seq, payload), outs),
            JitterOp::Pop => {
                let (m2, o) = m1.pop();
                (m2, outs.push(o))
            },
        }
    }
}

/// `op` is a push whose timestamp lies in the half range starting at `w`.
pub open spec fn push_in_window(op: JitterOp, w: u32) -> bool {
    op matches JitterOp::Push { ts, .. } && (ts - w) % 0x1_0000_0000 < 0x8000_0000
}

/// Warm-up plays the earliest frame: after any packets reach an empty
/// buffer that is warming up, as long as their timestamps fit in half the
/// timestamp range, the cursor is on the earliest buffered timestamp,
/// compared wrap-aware (so a frame just before a wrap comes before the
/// frames after it); once `target_depth` frames are buffered, the next tick
/// plays that frame.
pub proof fn lemma_warmup_plays_earliest(m: JitterModel, ops: Seq<JitterOp>, w: u32)
    requires
        m.inv(),
        m.warming_up,
        m.frames.is_empty(),
        forall|i: int| 0 <= i < ops.len() ==> push_in_window(#[trigger] ops[i], w),
    ensures
        ({
            let m2 = run(m, ops).0;
            let t = m2.next_pop_ts->0;
            &&& m2.inv()
            &&& m2.warming_up
            &&& in_window(m2.frames.dom(), w)
            &&& !m2.frames.is_empty() ==> m2.next_pop_ts is Some && is_earliest(m2.frames.dom(), t)
            &&& !m2.frames.is_empty() && m2.frames.len() >= m2.target_depth ==> m2.pop().1
                == (JitterOutView::Frame {
                seq: m2.frames[t].seq,
                timestamp: t,
                payload: m2.frames[t].payload,
            })
        }),
    decreases ops.len(),
{
    if ops.len() == 0 {
        assert(m.frames.dom() =~= Set::<u32>::empty());
    } else {
        let prefix = ops.drop_last();
        assert forall|i: int| 0 <= i < prefix.len() implies push_in_window(#[trigger] prefix[i], w) by {
            assert(prefix[i] == ops[i]);
        }
        lemma_warmup_plays_earliest(m, prefix, w);
        let m1 = run(m, prefix).0;
        assert(push_in_window(ops[ops.len() - 1], w));
        match ops.last() {
            JitterOp::Push { ts, seq, payload } => {
                assert(in_window(m1.frames.dom().insert(ts), w));
                lemma_warmup_anchor(m1, ts, seq, payload, w);
            },
            JitterOp::Pop => {},
        }
    }
}

/// `((a mod 2^32) + b) mod 2^32 == (a + b) mod 2^32` for a step `b` below 2^32.
proof fn lemma_mod_step(a: int, b: int)
    requires
        0 <= b < 0x1_0000_0000,
    ensures
        (a % 0x1_0000_0000 + b) % 0x1_0000_0000 == (a + b) % 0x1_0000_0000,
{
    vstd::arithmetic::div_mod::lemma_add_mod_noop(a, b, 0x1_0000_0000);
    vstd::arithmetic::div_mod::lemma_small_mod(b as nat, 0x1_0000_0000);
}

/// Between two `Disconnected` results, playback advances one frame duration
/// per tick: in the outputs of any run of pushes and pops that reports no
/// `Disconnected`, a frame played `k` ticks after another has the
/// timestamp `k` frame durations later (modulo 2^32); so frames come out
/// strictly increasing in wrap-aware order, a multiple of the frame
/// duration apart, and no timestamp is played twice while the run spans
/// less than the whole timestamp range. Every PLC request is for one frame.
pub proof fn lemma_run_playout(m: JitterModel, ops: Seq<JitterOp>)
    requires
        forall|i: int| 0 <= i < run(m, ops).1.len() ==> !(#[trigger] run(m, ops).1[i] is Disconnected),
    ensures
        ({
            let (m2, outs) = run(m, ops);
            let fs = m.frame_samples;
            &&& m2.frame_samples == fs
            &&& forall|i: int|
                0 <= i < outs.len() && #[trigger] outs[i] is Plc ==> outs[i]->Plc_samples == fs
            &&& forall|i: int, j: int|
                0 <= i < j < outs.len() && #[trigger] outs[i] is Frame && #[trigger] outs[j] is Frame
                    ==> outs[j]->Frame_timestamp == (outs[i]->Frame_timestamp + (j - i) * fs)
                    % 0x1_0000_0000
            &&& forall|i: int, j: int|
                0 <= i < j < outs.len() && #[trigger] outs[i] is Frame && #[trigger] outs[j] is Frame
                    && (j - i) * fs < 0x8000_0000 ==> spec_ts_diff(
                    outs[j]->Frame_timestamp,
                    outs[i]->Frame_timestamp,
                ) == (j - i) * fs
            &&& forall|i: int, j: int|
                0 <= i < j < outs.len() && #[trigger] outs[i] is Frame && #[trigger] outs[j] is Frame
                    && 0 < (j - i) * fs < 0x1_0000_0000 ==> outs[j]->Frame_timestamp
                    != outs[i]->Frame_timestamp
            &&& forall|i: int|
                0 <= i < outs.len() && #[trigger] outs[i] is Frame ==> !m2.warming_up
                    && m2.next_pop_ts == Some(
                    ((outs[i]->Frame_timestamp + (outs.len() - i) * fs) % 0x1_0000_0000) as u32,
                )
        }),
    decreases ops.len(),
{
    let (m2, outs) = run(m, ops);
    let fs = m.frame_samples;
    if ops.len() > 0 {
        let prefix = ops.drop_last();
        let (m1, outs1) = run(m, prefix);
        assert forall|i: int| 0 <= i < outs1.len() implies outs1[i] == outs[i] by {}
        assert forall|i: int| 0 <= i < outs1.len() implies !(#[trigger] run(m, prefix).1[i] is Disconnected) by {
            assert(outs1[i] == outs[i]);
        }
        lemma_run_playout(m, prefix);
        let n = outs1.len() as int;
        match ops.last() {
            JitterOp::Push { ts, seq, payload } => {
                assert(outs == outs1);
                assert(m2 == m1.push(ts, seq, payload));
                assert forall|i: int| 0 <= i < outs.len() && #[trigger] outs[i] is Frame implies !m2.warming_up
                    && m2.next_pop_ts == m1.next_pop_ts by {
                    assert(!m1.warming_up && m1.next_pop_ts is Some);
                }
            },
            JitterOp::Pop => {
                let (mp, o) = m1.pop();
                assert(outs == outs1.push(o));
                assert(m2 == mp);
                assert(outs[n] == o);
                assert(!(o is Disconnected));
                if o is Frame {
                    let t = o->Frame_timestamp;
                    assert(m1.next_pop_ts == Some(t));
                    assert(!m2.warming_up && m2.next_pop_ts == Some(wrap_add(t, fs)));
                    assert((outs.len() - n) * fs == fs) by (nonlinear_arith)
                        requires
                            outs.len() == n + 1,
                    ;
                }
                assert forall|i: int| 0 <= i < n && #[trigger] outs[i] is Frame implies !m2.warming_up
                    && m2.next_pop_ts == Some(
                    ((outs[i]->Frame_timestamp + (outs.len() - i) * fs) % 0x1_0000_0000) as u32,
                ) by {
                    assert(outs1[i] == outs[i]);
                    let ti = outs[i]->Frame_timestamp as int;
                    lemma_mod_step(ti + (n - i) * fs, fs as int);
                    assert((n - i) * fs + fs == (n + 1 - i) * fs) by (nonlinear_arith);
                }
                if o is Frame {
                    assert forall|i: int| 0 <= i < n && #[trigger] outs[i] is Frame implies
                        o->Frame_timestamp == (outs[i]->Frame_timestamp + (n - i) * fs)
                        % 0x1_0000_0000 by {
                        assert(outs1[i] == outs[i]);
                    }
                }
                assert forall|i: int, j: int|
                    0 <= i < j < outs.len() && #[trigger] outs[i] is Frame && #[trigger] outs[j] is Frame
                        implies outs[j]->Frame_timestamp == (outs[i]->Frame_timestamp + (j - i) * fs)
                        % 0x1_0000_0000 by {
                    assert(outs1[i] == outs[i]);
                    if j < n {
                        assert(outs1[j] == outs[j]);
                    }
                }
            },
        }
    }
    assert forall|i: int, j: int|
        0 <= i < j < outs.len() && #[trigger] outs[i] is Frame && #[trigger] outs[j] is Frame
            && (j - i) * fs < 0x1_0000_0000 implies ((j - i) * fs < 0x8000_0000 ==> spec_ts_diff(
            outs[j]->Frame_timestamp,
            outs[i]->Frame_timestamp,
        ) == (j - i) * fs) && (0 < (j - i) * fs ==> outs[j]->Frame_timestamp
            != outs[i]->Frame_timestamp) by {
        let k = (j - i) * fs;
        assert(k >= 0) by (nonlinear_arith)
            requires
                j - i > 0,
                fs >= 0,
                k == (j - i) * fs,
        ;
        lemma_advance_diff(outs[i]->Frame_timestamp, outs[j]->Frame_timestamp, k);
    }
}

/// A buffered frame keeps its first copy until it is played: after a run
/// of pushes and pops that reports no `Disconnected`, a frame buffered at
/// `t` is either still buffered there unchanged, or it came out as a
/// `Frame` at `t` with its own seq and payload. Packets arriving later with
/// the same timestamp never replace it.
pub proof fn lemma_run_first_copy_kept(m: JitterModel, ops: Seq<JitterOp>, t: u32)
    requires
        m.frames.contains_key(t),
        forall|i: int| 0 <= i < run(m, ops).1.len() ==> !(#[trigger] run(m, ops).1[i] is Disconnected),
    ensures
        ({
            let (m2, outs) = run(m, ops);
            ||| m2.frames.contains_key(t) && m2.frames[t] == m.frames[t]
            ||| exists|i: int|
                0 <= i < outs.len() && #[trigger] outs[i] == (JitterOutView::Frame {
                    seq: m.frames[t].seq,
                    timestamp: t,
                    payload: m.frames[t].payload,
                })
        }),
    decreases ops.len(),
{
    let (m2, outs) = run(m, ops);
    let played = JitterOutView::Frame {
        seq: m.frames[t].seq,
        timestamp: t,
        payload: m.frames[t].payload,
    };
    if ops.len() > 0 {
        let prefix = ops.drop_last();
        let (m1, outs1) = run(m, prefix);
        assert forall|i: int| 0 <= i < outs1.len() implies !(#[trigger] run(m, prefix).1[i] is Disconnected) by {
            match ops.last() {
                JitterOp::Push { .. } => {},
                JitterOp::Pop => {
                    assert(outs == outs1.push(m1.pop().1));
                    assert(outs[i] == outs1[i]);
                },
            }
        }
        lemma_run_first_copy_kept(m, prefix, t);
        match ops.last() {
            JitterOp::Push { ts, seq, payload } => {
                assert(outs == outs1);
                if m1.frames.contains_key(t) && m1.frames[t] == m.frames[t] {
                    if !m1.is_late(ts) && !m1.frames.contains_key(ts) {
                        assert(ts != t);
                    }
                } else {
                    let i = choose|i: int| 0 <= i < outs1.len() && #[trigger] outs1[i] == played;
                    assert(outs[i] == played);
                }
            },
            JitterOp::Pop => {
                let (mp, o) = m1.pop();
                assert(outs == outs1.push(o));
                assert(m2 == mp);
                assert(!(outs[outs1.len() as int] is Disconnected));
                if m1.frames.contains_key(t) && m1.frames[t] == m.frames[t] {
                    if o == played {
                        assert(outs[outs1.len() as int] == played);
                    }
                } else {
                    let i = choose|i: int| 0 <= i < outs1.len() && #[trigger] outs1[i] == played;
                    assert(outs[i] == played);
                }
            },
        }
    }
}

/// A timestamp `k` samples after `ti` (modulo 2^32, `k` below 2^32) differs
/// from it by `k` wrap-aware when `k` is below half the range, and is
/// another timestamp when `k` is not zero.
proof fn lemma_advance_diff(ti: u32, tj: u32, k: int)
    requires
        0 <= k < 0x1_0000_0000,
        tj == (ti + k) % 0x1_0000_0000,
    ensures
        k < 0x8000_0000 ==> spec_ts_diff(tj, ti) == k,
        0 < k ==> tj != ti,
{
    vstd::arithmetic::div_mod::lemma_fundamental_div_mod(ti + k, 0x1_0000_0000);
    let q = (ti + k) / 0x1_0000_0000;
    vstd::arithmetic::div_mod::lemma_fundamental_div_mod_converse(tj - ti, 0x1_0000_0000, -q, k);
}

/// A packet whose timestamp is already buffered is counted as a duplicate
/// and the first copy is kept; a late packet is counted and dropped.
/// Neither changes the buffered frames nor the playback cursor.
pub proof fn lemma_duplicate_or_late_kept_out(m: JitterModel, ts: u32, seq: u16, payload: Seq<u8>)
    requires
        m.push_headroom(),
        m.is_late(ts) || m.frames.contains_key(ts),
    ensures
        ({
            let m2 = m.push(ts, seq, payload);
            &&& m2.frames == m.frames
            &&& m2.next_pop_ts == m.next_pop_ts
            &&& m2.received == m.received
            &&& m.is_late(ts) ==> m2.late_dropped == m.late_dropped + 1 && m2.duplicates
                == m.duplicates
            &&& !m.is_late(ts) ==> m2.duplicates == m.duplicates + 1 && m2.late_dropped
                == m.late_dropped
        }),
{
}

/// A packet that is neither late nor a duplicate is stored and counted.
pub proof fn lemma_fresh_packet_stored(m: JitterModel, ts: u32, seq: u16, payload: Seq<u8>)
    requires
        m.push_headroom(),
        !m.is_late(ts),
        !m.frames.contains_key(ts),
    ensures
        ({
            let m2 = m.push(ts, seq, payload);
            &&& m2.frames == m.frames.insert(ts, FrameView { seq, payload })
            &&& m2.received == m.received + 1
        }),
{
}

/// A push raises exactly one counter by one: `late_dropped` when the packet
/// is late (at or before, wrap-aware, the last slot played since the last
/// reset), otherwise `duplicates` when its timestamp is already buffered,
/// otherwise `received`. Only an accepted packet changes the buffered
/// frames, by adding its timestamp. (A counter already at `u64::MAX` is
/// left out: it cannot rise.)
pub proof fn lemma_push_one_counter(m: JitterModel, ts: u32, seq: u16, payload: Seq<u8>)
    requires
        m.push_headroom(),
    ensures
        ({
            let m2 = m.push(ts, seq, payload);
            &&& m2.late_dropped + m2.duplicates + m2.received == m.late_dropped + m.duplicates
                + m.received + 1
            &&& m2.late_dropped == m.late_dropped + (if m.is_late(ts) { 1int } else { 0int })
            &&& m2.duplicates == m.duplicates + (if !m.is_late(ts) && m.frames.contains_key(ts) {
                1int
            } else {
                0int
            })
            &&& m2.received == m.received + (if !m.is_late(ts) && !m.frames.contains_key(ts) {
                1int
            } else {
                0int
            })
            &&& m2.frames == (if !m.is_late(ts) && !m.frames.contains_key(ts) {
                m.frames.insert(ts, FrameView { seq, payload })
            } else {
                m.frames
            })
        }),
{
}

/// A played frame ends a run of misses: after a pop that yields a frame the
/// count of consecutive misses is zero, so a missing slot right after a
/// played frame is concealed with a one-frame PLC request, never `Stall`
/// or `Disconnected`; those need `STALL_THRESHOLD` or `max_stall_frames`
/// misses in a row with no frame between.
pub proof fn lemma_isolated_miss_is_plc(m: JitterModel)
    requires
        m.inv(),
        m.pop_headroom(),
        m.max_stall_frames >= 1,
    ensures
        ({
            let (m1, o1) = m.pop();
            o1 is Frame ==> {
                &&& m1.consecutive_no_frame == 0
                &&& !m1.warming_up
                &&& m1.next_pop_ts is Some
                &&& !m1.frames.contains_key(m1.next_pop_ts->0) ==> m1.pop().1
                    == (JitterOutView::Plc { samples: m.frame_samples })
            }
        }),
{
    lemma_pop_inv(m);
}

/// Lateness is wrap-aware: once a slot `l` has been played, a packet whose
/// timestamp lies after `l` (wrap-aware difference above zero) is never
/// counted late, and is stored when its timestamp is not buffered yet; a
/// packet at or before `l` is always counted late and changes no frame.
pub proof fn lemma_late_is_wrap_aware(m: JitterModel, ts: u32, seq: u16, payload: Seq<u8>)
    requires
        m.push_headroom(),
        m.last_popped_ts is Some,
    ensures
        ({
            let m2 = m.push(ts, seq, payload);
            let l = m.last_popped_ts->0;
            &&& spec_ts_diff(ts, l) > 0 ==> m2.late_dropped == m.late_dropped
            &&& spec_ts_diff(ts, l) > 0 && !m.frames.contains_key(ts) ==> m2.received == m.received
                + 1 && m2.frames == m.frames.insert(ts, FrameView { seq, payload })
            &&& spec_ts_diff(ts, l) <= 0 ==> m2.late_dropped == m.late_dropped + 1 && m2.frames
                == m.frames && m2.received == m.received
        }),
{
}

/// Warm-up waits for the adapted target depth: while warming up with
/// fewer than `target_depth` frames buffered, a tick plays no frame,
/// consumes none, and the buffer keeps warming up (unless the session is
/// dropped, which empties it).
pub proof fn lemma_warmup_waits_for_target(m: JitterModel)
    requires
        m.inv(),
        m.warming_up,
        m.frames.len() < m.target_depth,
    ensures
        ({
            let (m1, o) = m.pop();
            &&& !(o is Frame)
            &&& m1.warming_up
            &&& !(o is Disconnected) ==> m1.frames == m.frames
            &&& o is Disconnected ==> m1.frames.is_empty()
        }),
{
    assert(m.reset().frames =~= Map::empty());
}

/// A recalculation moves the target one frame toward the depth called for,
/// `raw` clamped to `[MIN_TARGET, MAX_TARGET]`: up by one when that depth is
/// deeper, down by one when it is shallower, unchanged when equal.
pub proof fn lemma_target_steps_toward(m: JitterModel, raw: u8)
    requires
        m.inv(),
    ensures
        ({
            let d: int = if raw < MIN_TARGET {
                MIN_TARGET as int
            } else if raw > MAX_TARGET {
                MAX_TARGET as int
            } else {
                raw as int
            };
            let t = m.target_depth as int;
            &&& d > t ==> m.next_target(raw) == t + 1
            &&& d < t ==> m.next_target(raw) == t - 1
            &&& d == t ==> m.next_target(raw) == t
        }),
{
}

/// During playback, a missing frame yields a PLC request for one frame (or
/// `Stall` once the run of misses passes `STALL_THRESHOLD`, or
/// `Disconnected` past `max_stall_frames`), never a frame; unless the
/// session is dropped, the cursor moves on by one frame.
pub proof fn lemma_missing_frame_concealed(m: JitterModel)
    requires
        m.inv(),
        m.pop_headroom(),
        !m.warming_up,
        m.next_pop_ts is Some,
        !m.frames.contains_key(m.next_pop_ts->0),
    ensures
        ({
            let (m2, o) = m.pop();
            let c = m.consecutive_no_frame + 1;
            &&& c <= STALL_THRESHOLD && c <= m.max_stall_frames ==> o == JitterOutView::Plc {
                samples: m.frame_samples,
            }
            &&& STALL_THRESHOLD < c <= m.max_stall_frames ==> o == JitterOutView::Stall
            &&& c > m.max_stall_frames ==> o == JitterOutView::Disconnected
            &&& c <= m.max_stall_frames ==> m2.next_pop_ts == Some(
                wrap_add(m.next_pop_ts->0, m.frame_samples),
            ) && m2.plc_emitted == m.plc_emitted + 1
        }),
{
}

/// `Disconnected` drops the session: no frame stays buffered, the cursor is
/// cleared and the buffer warms up again, as a new one would.
pub proof fn lemma_disconnect_resets(m: JitterModel)
    requires
        m.inv(),
    ensures
        ({
            let (m2, o) = m.pop();
            o is Disconnected ==> {
                &&& m2.frames.is_empty()
                &&& m2.next_pop_ts is None
                &&& m2.last_popped_ts is None
                &&& m2.warming_up
                &&& m2.consecutive_no_frame == 0
            }
        }),
{
}

/// The target depth stays within `[MIN_TARGET, MAX_TARGET]` and a
/// recalculation moves it by at most one frame.
pub proof fn lemma_target_bounded_and_smooth(m: JitterModel, raw: u8)
    requires
        m.inv(),
    ensures
        MIN_TARGET <= m.next_target(raw) <= MAX_TARGET,
        m.target_depth - 1 <= m.next_target(raw) <= m.target_depth + 1,
{
}

} // verus!
