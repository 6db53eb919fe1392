use anymic::jitter::JitterOut;
use anymic::playback::{Playback, TickAction, CROSSFADE_SAMPLES, RESET_DRAIN_MS};

#[test]
fn fresh_playback_state() {
    let p = Playback::new();
    assert_eq!(p.last_tail(), &[0i16; CROSSFADE_SAMPLES][..]);
    assert!(!p.needs_crossfade(240));
    assert_eq!(p.frames_written(), 0);
    assert_eq!(p.plc_emitted(), 0);
    assert_eq!(p.stall_events(), 0);
    assert_eq!(p.decode_errors(), 0);
}

#[test]
fn plan_maps_each_jitter_output() {
    let mut p = Playback::new();
    let a = p.plan(
        JitterOut::Frame { seq: 7, timestamp: 960, payload: vec![1, 2, 3] },
        240,
    );
    assert_eq!(a, TickAction::Decode { payload: vec![1, 2, 3] });
    assert_eq!(
        p.plan(JitterOut::Plc { samples: 480 }, 240),
        TickAction::Conceal { samples: 480, stall: false }
    );
    assert_eq!(
        p.plan(JitterOut::Stall, 240),
        TickAction::Conceal { samples: 240, stall: true }
    );
    assert_eq!(
        p.plan(JitterOut::Disconnected, 240),
        TickAction::Reset { drain_ms: RESET_DRAIN_MS }
    );
    assert_eq!(RESET_DRAIN_MS, 200);
}

#[test]
fn crossfade_only_after_concealment() {
    let mut p = Playback::new();
    let plc: Vec<i16> = (0..240).map(|i| i as i16).collect();
    p.concealed_done(&plc, false);
    // A concealed frame leaves the audio synthesized; a long enough real frame blends.
    assert!(p.needs_crossfade(240));
    assert!(p.needs_crossfade(CROSSFADE_SAMPLES));
    assert!(!p.needs_crossfade(CROSSFADE_SAMPLES - 1));
    // The kept tail is the last 96 samples of the concealed frame.
    let expected: Vec<i16> = (144..240).map(|i| i as i16).collect();
    assert_eq!(p.last_tail(), &expected[..]);
    assert_eq!(p.plc_emitted(), 1);
    assert_eq!(p.stall_events(), 0);

    let real = vec![5i16; 240];
    p.real_frame_done(&real, true);
    assert!(!p.needs_crossfade(240));
    assert_eq!(p.last_tail(), &[5i16; CROSSFADE_SAMPLES][..]);
    assert_eq!(p.frames_written(), 1);
}

#[test]
fn short_frames_keep_the_old_tail() {
    let mut p = Playback::new();
    p.real_frame_done(&[9i16; 240], false);
    assert_eq!(p.frames_written(), 0);
    p.concealed_done(&[1i16; 10], true);
    // Ten samples are fewer than the blend length: the tail stays as it was.
    assert_eq!(p.last_tail(), &[9i16; CROSSFADE_SAMPLES][..]);
    assert_eq!(p.stall_events(), 1);
    assert_eq!(p.plc_emitted(), 0);
    assert!(p.needs_crossfade(240));
}

#[test]
fn disconnect_clears_synthesized_flag() {
    let mut p = Playback::new();
    p.concealed_done(&[3i16; 240], true);
    assert!(p.needs_crossfade(240));
    let _ = p.plan(JitterOut::Disconnected, 240);
    assert!(!p.needs_crossfade(240));
    // The tail itself is kept.
    assert_eq!(p.last_tail(), &[3i16; CROSSFADE_SAMPLES][..]);
}

#[test]
fn decode_failures_are_counted() {
    let mut p = Playback::new();
    p.decode_failed();
    p.decode_failed();
    assert_eq!(p.decode_errors(), 2);
    assert_eq!(p.frames_written(), 0);
}
