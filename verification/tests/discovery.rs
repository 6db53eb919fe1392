use anymic::jitter::JitterBuffer;
use anymic::packet::{Flags, Payload, PayloadType, RtpPacket};
use std::hash::{DefaultHasher, Hash, Hasher};
use anymic::discovery::{compute_fingerprint, prepare_start, DiscoveryError, ServiceConfig, TxtRecords};

fn make_cfg() -> ServiceConfig {
    let fp = compute_fingerprint("test-host:uid-1234");
    ServiceConfig::for_macos_default("test-host".into(), fp)
}

#[test]
fn txt_records_contain_required_keys() {
    let cfg = make_cfg();
    let txt = cfg.to_txt_records();

    for key in ["v", "name", "os", "codec", "fid", "ctl"] {
        assert!(txt.contains_key(key), "TXT record missing required key '{key}'");
    }

    assert_eq!(txt.get("v").unwrap(), "1");
    assert_eq!(txt.get("os").unwrap(), "mac");
    assert_eq!(txt.get("codec").unwrap(), "opus48");
    assert_eq!(txt.get("ctl").unwrap(), "50128");
}

#[test]
fn fingerprint_is_stable() {
    let seed = "MacBook-Pro:cafebabe";
    let a = compute_fingerprint(seed);
    let b = compute_fingerprint(seed);
    assert_eq!(a, b, "fingerprint must be deterministic for the same seed");
}

#[test]
fn fingerprint_length_and_charset() {
    let fp = compute_fingerprint("any-seed");
    assert_eq!(fp.len(), 8, "fingerprint must be exactly 8 chars");
    assert!(
        fp.chars().all(|c| matches!(c, '0'..='9' | 'a'..='f')),
        "fingerprint must be lowercase hex [0-9a-f], got: {fp}"
    );
}

// ── further cases ──────────────────────────────────────────────────────────

#[test]
fn fingerprint_is_low_32_bits_of_default_hash() {
    let mut h = DefaultHasher::new();
    "seed-x".hash(&mut h);
    let expected = format!("{:08x}", h.finish() as u32);
    assert_eq!(compute_fingerprint("seed-x"), expected);
}

#[test]
fn macos_defaults() {
    let cfg = ServiceConfig::for_macos_default("Mac".to_string(), "0123abcd".to_string());
    assert_eq!(cfg.instance_name, "anyMic-Mac");
    assert_eq!(cfg.data_port, 50127);
    assert_eq!(cfg.control_port, 50128);
    assert_eq!(cfg.host_name, "Mac");
    assert_eq!(cfg.os, "mac");
    assert_eq!(cfg.codec, "opus48");
    assert_eq!(cfg.fingerprint, "0123abcd");
    assert_eq!(cfg.extra_txt.len(), 0);
}

#[test]
fn txt_exact_contents_and_extra_do_not_shadow() {
    let mut cfg = ServiceConfig::for_macos_default("Mac".to_string(), "0123abcd".to_string());
    cfg.control_port = 7;
    cfg.extra_txt.insert("max".to_string(), "4".to_string());
    cfg.extra_txt.insert("os".to_string(), "plan9".to_string());
    let txt = cfg.to_txt_records();
    assert_eq!(txt.len(), 7);
    assert_eq!(txt.get("name").unwrap(), "Mac");
    assert_eq!(txt.get("fid").unwrap(), "0123abcd");
    assert_eq!(txt.get("ctl").unwrap(), "7");
    assert_eq!(txt.get("max").unwrap(), "4");
    assert_eq!(txt.get("os").unwrap(), "mac");
    assert!(txt.get("missing").is_none());
}

#[test]
fn txt_records_insert_replaces() {
    let mut t = TxtRecords::new();
    t.insert("k".to_string(), "1".to_string());
    t.insert("k".to_string(), "2".to_string());
    assert_eq!(t.len(), 1);
    assert_eq!(t.get("k").unwrap(), "2");
    assert!(!t.insert_if_absent("k".to_string(), "3".to_string()));
    assert!(t.insert_if_absent("j".to_string(), "3".to_string()));
    assert_eq!(t.pairs().len(), 2);
}

#[test]
fn validate_reports_each_failure() {
    let good = ServiceConfig::for_macos_default("Mac".to_string(), "0123abcd".to_string());
    assert_eq!(good.validate(), Ok(()));

    let mut c = good.clone();
    c.instance_name = String::new();
    assert_eq!(
        c.validate(),
        Err(DiscoveryError::InvalidConfig("instance_name must not be empty".to_string()))
    );

    let mut c = good.clone();
    c.fingerprint = "abc".to_string();
    assert_eq!(
        c.validate(),
        Err(DiscoveryError::InvalidConfig("fingerprint must be 8 hex chars, got 3 chars".to_string()))
    );

    let mut c = good.clone();
    c.fingerprint = "0123abcg".to_string();
    assert_eq!(
        c.validate(),
        Err(DiscoveryError::InvalidConfig("fingerprint must be lowercase hex [0-9a-f]".to_string()))
    );

    // Only lowercase hex digits are accepted.
    let mut c = good.clone();
    c.fingerprint = "ABCDEF12".to_string();
    assert_eq!(
        c.validate(),
        Err(DiscoveryError::InvalidConfig("fingerprint must be lowercase hex [0-9a-f]".to_string()))
    );

    // Length is counted in bytes: four two-byte characters make eight.
    let mut c = good.clone();
    c.fingerprint = "éééé".to_string();
    assert_eq!(
        c.validate(),
        Err(DiscoveryError::InvalidConfig("fingerprint must be lowercase hex [0-9a-f]".to_string()))
    );
}

#[test]
fn prepare_start_refuses_when_running_or_invalid() {
    let cfg = make_cfg();
    assert_eq!(
        prepare_start(true, &cfg).err(),
        Some(DiscoveryError::Daemon("responder is already running; call stop() first".to_string()))
    );
    let mut bad = cfg.clone();
    bad.instance_name = String::new();
    assert!(matches!(prepare_start(false, &bad), Err(DiscoveryError::InvalidConfig(_))));
    assert!(prepare_start(false, &cfg).is_ok());
    let mut eq = cfg.clone();
    eq.extra_txt.insert("a=b".to_string(), "x".to_string());
    assert!(matches!(prepare_start(false, &eq), Err(DiscoveryError::InvalidConfig(_))));
}

#[test]
fn registration_announces_the_data_port_and_txt() {
    let mut cfg = make_cfg();
    cfg.data_port = 50127;
    cfg.control_port = 50128;
    let reg = cfg.registration();
    assert_eq!(reg.service_type, "_anymic._udp.local.");
    assert_eq!(reg.instance_name, cfg.instance_name);
    assert_eq!(reg.host, format!("{}.local.", cfg.host_name));
    assert_eq!(reg.port, 50127);
    assert_eq!(reg.txt.get("ctl").unwrap(), "50128");

    let prepared = prepare_start(false, &cfg).unwrap();
    assert_eq!(prepared.registration().port, 50127);
    let info = prepared.into_info();
    // Built with no fixed address, the description lets the daemon fill them in.
    assert!(info.is_addr_auto());
    assert_eq!(info.get_type(), "_anymic._udp.local.");
    assert_eq!(info.get_port(), 50127);
    assert_eq!(info.get_hostname(), format!("{}.local.", cfg.host_name));
    assert_eq!(info.get_property_val_str("ctl"), Some("50128"));
    assert_eq!(info.get_property_val_str("v"), Some("1"));
    assert_eq!(info.get_property_val_str("fid"), Some(cfg.fingerprint.as_str()));
}

#[test]
fn double_start_returns_err() {
    let cfg = make_cfg();
    // First start: nothing is registered yet.
    let first = prepare_start(false, &cfg);
    assert!(first.is_ok(), "first start should succeed");
    let running = first.is_ok();

    // Second start while the first registration is running.
    let result = prepare_start(running, &cfg);
    assert!(result.is_err(), "second start while running must return Err");
    match result.err().unwrap() {
        DiscoveryError::Daemon(m) => {
            assert_eq!(m, "responder is already running; call stop() first")
        }
        e => panic!("expected DiscoveryError::Daemon, got {e:?}"),
    }
}

#[test]
fn push_raises_exactly_one_counter() {
    let pkt = |seq: u16, ts: u32| RtpPacket {
        version_minor: 0,
        flags: Flags::default(),
        payload_type: PayloadType::Opus48kMono,
        seq,
        timestamp: ts,
        ssrc16: 1,
        payload: Payload::Owned(vec![seq as u8]),
    };
    let mut b = JitterBuffer::new(240, 500);
    let total = |b: &JitterBuffer| {
        let s = b.stats();
        s.received + s.duplicates + s.late_dropped
    };
    for i in 0..20u32 {
        b.push(pkt(i as u16, i * 240));
    }
    assert_eq!(total(&b), 20);
    b.push(pkt(0, 0)); // duplicate
    assert_eq!((b.stats().received, b.stats().duplicates, b.stats().late_dropped), (20, 1, 0));
    let _ = b.pop_due(0); // plays ts 0
    b.push(pkt(0, 0)); // late now
    assert_eq!((b.stats().received, b.stats().duplicates, b.stats().late_dropped), (20, 1, 1));
    assert_eq!(b.stats().current_depth, 19);
    b.push(pkt(20, 20 * 240)); // fresh
    assert_eq!((b.stats().received, b.stats().duplicates, b.stats().late_dropped), (21, 1, 1));
    assert_eq!(b.stats().current_depth, 20);
}
