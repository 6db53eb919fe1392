use anymic::jitter::{JitterBuffer, JitterOut, MAX_TARGET, MIN_TARGET};
use anymic::packet::{Flags, Payload, PayloadType, RtpPacket};

const FRAME_SAMPLES: u32 = 240; // 5 ms @ 48 kHz
const MAX_STALL: u32 = 500;
const STALL_THRESHOLD: u32 = 50;

fn make_pkt(seq: u16, ts: u32, payload: &[u8]) -> RtpPacket<'static> {
    RtpPacket {
        version_minor: 0,
        flags: Flags::default(),
        payload_type: PayloadType::Opus48kMono,
        seq,
        timestamp: ts,
        ssrc16: 1,
        payload: Payload::Owned(payload.to_vec()),
    }
}

fn new_buf() -> JitterBuffer {
    JitterBuffer::new(FRAME_SAMPLES, MAX_STALL)
}

/// Drains frames out of the buffer, returning only `Frame` outputs.
fn pop_frames(buf: &mut JitterBuffer, count: usize) -> Vec<(u16, u32, Vec<u8>)> {
    let mut results = Vec::new();
    let mut iters = 0usize;
    let max_iters = count * 20 + 100; // safety ceiling
    while results.len() < count && iters < max_iters {
        match buf.pop_due(0) {
            JitterOut::Frame {
                seq,
                timestamp,
                payload,
            } => {
                results.push((seq, timestamp, payload));
            }
            JitterOut::Plc { .. } => {}
            JitterOut::Stall => {}
            JitterOut::Disconnected => break,
        }
        iters += 1;
    }
    results
}

#[test]
fn target_depth_clamped_min() {
    let buf = JitterBuffer::new(FRAME_SAMPLES, 500);
    assert_eq!(buf.target_depth(), MIN_TARGET);
}

#[test]
fn push_sets_next_pop_ts_to_first_frame() {
    let mut buf = JitterBuffer::new(FRAME_SAMPLES, 500);
    buf.push(make_pkt(1, 0, &[1]));
    // next_pop_ts should be 0 (the first frame's ts)
    assert_eq!(buf.next_pop_ts(), Some(0));
}

#[test]
fn warmup_anchors_to_earliest_ts() {
    let mut buf = JitterBuffer::new(FRAME_SAMPLES, 500);
    // Push out-of-order: ts=480 first, then ts=0, ts=240.
    buf.push(make_pkt(3, 480, &[3]));
    buf.push(make_pkt(1, 0, &[1]));
    buf.push(make_pkt(2, 240, &[2]));
    // During warmup the anchor re-evaluates on each push → should be 0.
    assert_eq!(buf.next_pop_ts(), Some(0));
}

/// After pushing one frame and then starving the buffer for STALL_THRESHOLD+1 pops,
/// the next pop should return `Stall`.
#[test]
fn t07_stall() {
    let mut buf = new_buf();
    buf.push(make_pkt(1, 0, &[1]));

    // Drain the single frame.
    pop_frames(&mut buf, 1);

    // Now pop without adding more frames — should eventually hit Stall.
    let mut stall_seen = false;
    for _ in 0..=STALL_THRESHOLD + 5 {
        if matches!(buf.pop_due(0), JitterOut::Stall) {
            stall_seen = true;
            break;
        }
    }
    assert!(stall_seen, "expected Stall after many empty pops");
    assert!(buf.stats().stall_events >= 1);
}

// ── further cases (warm-up needs MIN_TARGET = 20 frames) ───────────────────

fn push_range(buf: &mut JitterBuffer, idx: impl Iterator<Item = u32>) {
    for i in idx {
        buf.push(make_pkt(i as u16, i * FRAME_SAMPLES, &[i as u8]));
    }
}

#[test]
fn warmup_waits_for_target_depth_then_plays_in_order() {
    let mut buf = new_buf();
    push_range(&mut buf, 0..19);
    // 19 < 20 frames: still warming up, PLC requested, nothing consumed.
    assert_eq!(buf.pop_due(0), JitterOut::Plc { samples: FRAME_SAMPLES });
    assert_eq!(buf.stats().current_depth, 19);
    push_range(&mut buf, 19..20);
    let frames = pop_frames(&mut buf, 20);
    assert_eq!(frames.len(), 20);
    for (i, (seq, ts, payload)) in frames.iter().enumerate() {
        assert_eq!(*seq, i as u16);
        assert_eq!(*ts, i as u32 * FRAME_SAMPLES);
        assert_eq!(payload, &vec![i as u8]);
    }
    let st = buf.stats();
    assert_eq!(st.received, 20);
    assert_eq!(st.plc_emitted, 1);
    assert_eq!(st.current_depth, 0);
}

#[test]
fn missing_frame_gives_plc_and_playback_goes_on() {
    let mut buf = new_buf();
    push_range(&mut buf, (0..25).filter(|i| *i != 21));
    let first = pop_frames(&mut buf, 21); // ts 0..=20
    assert_eq!(first.last().unwrap().1, 20 * FRAME_SAMPLES);
    assert_eq!(buf.pop_due(0), JitterOut::Plc { samples: FRAME_SAMPLES });
    match buf.pop_due(0) {
        JitterOut::Frame { timestamp, .. } => assert_eq!(timestamp, 22 * FRAME_SAMPLES),
        other => panic!("expected frame 22, got {other:?}"),
    }
}

#[test]
fn no_data_escalates_to_stall_then_disconnected() {
    let mut buf = JitterBuffer::new(FRAME_SAMPLES, 60);
    for _ in 0..50 {
        assert_eq!(buf.pop_due(0), JitterOut::Plc { samples: FRAME_SAMPLES });
    }
    for _ in 50..60 {
        assert_eq!(buf.pop_due(0), JitterOut::Stall);
    }
    assert_eq!(buf.pop_due(0), JitterOut::Disconnected);
    assert_eq!(buf.stats().stall_events, 10);
    // Pops before any data are not counted as PLC.
    assert_eq!(buf.stats().plc_emitted, 0);
}

#[test]
fn target_recalculation_is_clamped_and_smooth() {
    let mut buf = new_buf();
    assert!(!buf.adapt_due());
    buf.recalculate_target(255);
    assert_eq!(buf.target_depth(), MIN_TARGET + 1);
    buf.recalculate_target(0);
    assert_eq!(buf.target_depth(), MIN_TARGET);
    buf.recalculate_target(0);
    assert_eq!(buf.target_depth(), MIN_TARGET);
    for _ in 0..40 {
        buf.recalculate_target(200);
    }
    assert_eq!(buf.target_depth(), MAX_TARGET);
    buf.recalculate_target(MAX_TARGET);
    assert_eq!(buf.target_depth(), MAX_TARGET);
}

#[test]
fn epoch_makes_recalculation_due() {
    let mut buf = new_buf();
    push_range(&mut buf, 0..220);
    for _ in 0..199 {
        assert!(matches!(buf.pop_due(0), JitterOut::Frame { .. }));
        assert!(!buf.adapt_due());
    }
    assert!(matches!(buf.pop_due(0), JitterOut::Frame { .. }));
    assert!(buf.adapt_due());
    buf.recalculate_target(25);
    assert!(!buf.adapt_due());
    assert_eq!(buf.target_depth(), MIN_TARGET + 1);
}

#[test]
fn reset_keeps_counters_and_target() {
    let mut buf = new_buf();
    push_range(&mut buf, 0..5);
    buf.push(make_pkt(0, 0, &[0]));
    buf.recalculate_target(30);
    buf.reset();
    let st = buf.stats();
    assert_eq!(st.received, 5);
    assert_eq!(st.duplicates, 1);
    assert_eq!(st.current_depth, 0);
    assert_eq!(st.target_depth, MIN_TARGET + 1);
    assert_eq!(buf.next_pop_ts(), None);
    assert!(buf.can_push() && buf.can_pop());
}

// ── the sequential scenarios, with at least MIN_TARGET frames so that
//    warm-up completes ───────────────────────────────────────────────────

/// Push `n` sequential frames starting at timestamp `base_ts` and sequence `base_seq`.
fn push_sequential(buf: &mut JitterBuffer, n: u16, base_seq: u16, base_ts: u32) -> (u16, u32) {
    for i in 0..n {
        let seq = base_seq.wrapping_add(i);
        let ts = base_ts.wrapping_add(i as u32 * FRAME_SAMPLES);
        buf.push(make_pkt(seq, ts, &[i as u8]));
    }
    (base_seq.wrapping_add(n), base_ts.wrapping_add(n as u32 * FRAME_SAMPLES))
}

#[test]
fn t01_sequential_play() {
    let mut buf = new_buf();
    push_sequential(&mut buf, MIN_TARGET as u16, 1, 0);

    let frames = pop_frames(&mut buf, 10);
    assert_eq!(frames.len(), 10, "expected 10 frames, got {}", frames.len());
    for (i, (_, ts, _)) in frames.iter().enumerate() {
        let expected_ts = i as u32 * FRAME_SAMPLES;
        assert_eq!(*ts, expected_ts, "frame {i}: expected ts={expected_ts}, got ts={ts}");
    }
    assert_eq!(buf.stats().received, MIN_TARGET as u64);
}

#[test]
fn t02_out_of_order() {
    let mut buf = new_buf();
    let ts = |n: u32| n.wrapping_mul(FRAME_SAMPLES);
    for &i in &[4u32, 3, 1, 2, 5] {
        buf.push(make_pkt(i as u16, ts(i - 1), &[i as u8]));
    }
    for i in 6..=MIN_TARGET as u32 {
        buf.push(make_pkt(i as u16, ts(i - 1), &[i as u8]));
    }

    let frames = pop_frames(&mut buf, 5);
    assert_eq!(frames.len(), 5);
    let timestamps: Vec<u32> = frames.iter().map(|(_, ts, _)| *ts).collect();
    for w in timestamps.windows(2) {
        assert!(w[1] > w[0], "timestamps not ascending: {:?}", timestamps);
    }
    let payloads: Vec<u8> = frames.iter().map(|(_, _, p)| p[0]).collect();
    assert_eq!(payloads, vec![1, 2, 3, 4, 5]);
}

#[test]
fn t03_duplicate_packet() {
    let mut buf = new_buf();
    buf.push(make_pkt(1, 0, &[0xAA]));
    buf.push(make_pkt(1, 0, &[0xBB])); // duplicate

    assert_eq!(buf.stats().duplicates, 1);

    push_sequential(&mut buf, MIN_TARGET as u16 - 1, 2, FRAME_SAMPLES);
    let frames = pop_frames(&mut buf, 1);
    assert_eq!(frames.len(), 1);
    // The original payload (0xAA) is kept.
    assert_eq!(frames[0].2, vec![0xAA]);
}

#[test]
fn t04_missing_frame_plc() {
    let mut buf = new_buf();
    let ts = |n: u32| n.wrapping_mul(FRAME_SAMPLES);
    // Frames 1, 2, 3, 5, 6, ... (4 omitted), MIN_TARGET of them.
    for i in (1..=MIN_TARGET as u32 + 1).filter(|i| *i != 4) {
        buf.push(make_pkt(i as u16, ts(i - 1), &[i as u8]));
    }

    let mut got_frames: Vec<u32> = Vec::new();
    let mut got_plc = 0u32;
    let mut iters = 0;
    while (got_frames.len() < 5 || got_plc == 0) && iters < 200 {
        match buf.pop_due(0) {
            JitterOut::Frame { timestamp, .. } => got_frames.push(timestamp),
            JitterOut::Plc { .. } => got_plc += 1,
            _ => {}
        }
        iters += 1;
    }

    assert!(got_plc >= 1, "expected at least one PLC event");
    let frame5_ts = ts(4);
    assert!(
        got_frames.contains(&frame5_ts),
        "expected frame5 (ts={frame5_ts}) among frames: {got_frames:?}"
    );
    assert!(!got_frames.contains(&ts(3)));
}

#[test]
fn t05_late_arrival() {
    let mut buf = new_buf();
    let ts = |n: u32| n.wrapping_mul(FRAME_SAMPLES);
    push_sequential(&mut buf, MIN_TARGET as u16, 1, ts(0));

    pop_frames(&mut buf, 3);

    // A packet with a timestamp that was already popped (ts(1)).
    buf.push(make_pkt(2, ts(1), &[99]));

    assert_eq!(buf.stats().late_dropped, 1, "late_dropped should be 1");
}

#[test]
fn t06_timestamp_wrap_around() {
    let mut buf = new_buf();
    let ts0: u32 = u32::MAX.wrapping_sub(FRAME_SAMPLES).wrapping_sub(FRAME_SAMPLES);
    // ts0, ts1, ts2 right before the wrap, then frames after it (small
    // timestamps), MIN_TARGET frames in all.
    for i in 0..MIN_TARGET as u32 {
        let t = ts0.wrapping_add(i * FRAME_SAMPLES);
        buf.push(make_pkt(i as u16 + 1, t, &[(10 * (i + 1)) as u8]));
    }

    let frames = pop_frames(&mut buf, 3);
    assert_eq!(frames.len(), 3, "expected 3 frames across wrap");
    let payloads: Vec<u8> = frames.iter().map(|(_, _, p)| p[0]).collect();
    assert_eq!(payloads, vec![10, 20, 30]);
}

#[test]
fn warmup_across_wrap_plays_in_push_order() {
    let mut buf = JitterBuffer::new(240, 500);
    for k in 0..20u32 {
        buf.push(make_pkt(k as u16, 4_294_967_056u32.wrapping_add(240 * k), &[k as u8]));
    }
    assert_eq!(buf.next_pop_ts(), Some(4_294_967_056));
    for k in 0..20u32 {
        assert_eq!(
            buf.pop_due(0),
            JitterOut::Frame {
                seq: k as u16,
                timestamp: 4_294_967_056u32.wrapping_add(240 * k),
                payload: vec![k as u8],
            }
        );
    }
}

#[test]
fn t08_disconnected_and_recover() {
    let max_stall: u32 = 10;
    let mut buf = JitterBuffer::new(FRAME_SAMPLES, max_stall);
    buf.push(make_pkt(1, 0, &[1]));

    pop_frames(&mut buf, 1);

    let mut disconnected = false;
    for _ in 0..max_stall + 20 {
        if matches!(buf.pop_due(0), JitterOut::Disconnected) {
            disconnected = true;
            break;
        }
    }
    assert!(disconnected, "expected Disconnected");
    assert_eq!(buf.next_pop_ts(), None);

    // Recovery: a new session, warmed up again.
    let ts_new: u32 = 100 * FRAME_SAMPLES;
    buf.push(make_pkt(100, ts_new, &[42]));
    push_sequential(&mut buf, MIN_TARGET as u16 - 1, 101, ts_new + FRAME_SAMPLES);
    let frames = pop_frames(&mut buf, 1);
    assert_eq!(frames.len(), 1, "should recover and emit one frame");
    assert_eq!(frames[0].2, vec![42]);
}
