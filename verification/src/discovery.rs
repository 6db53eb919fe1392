//! mDNS / DNS-SD service description for anyMic.
//!
//! The desktop server registers itself as `_anymic._udp.local.` so that
//! clients can discover it with a standard DNS-SD browse. This module holds
//! the service configuration, the TXT record it advertises, its validation,
//! the host fingerprint, and the preparation of a registration.

use vstd::prelude::*;
use vstd::string::StrSliceExecFns;
use vstd::utf8::encode_utf8;
use vstd::utf8::is_ascii_chars;
use crate::text::{decimal, hex_fixed, lemma_hex_fixed_shape, push_decimal, push_hex_fixed, is_lower_hex_char};
use std::hash::{DefaultHasher, Hash, Hasher};
use mdns_sd::ServiceInfo;

verus! {

/// DNS-SD service type advertised on the LAN.
pub const SERVICE_TYPE: &'static str = "_anymic._udp.local.";

/// Errors of service discovery.
#[derive(Debug, Clone, PartialEq, Eq)]
pub enum DiscoveryError {
    Daemon(String),
    InvalidConfig(String),
}

impl DiscoveryError {
    /// The text an error carries.
    pub open spec fn message(&self) -> Seq<char> {
        match self {
            DiscoveryError::Daemon(s) => s@,
            DiscoveryError::InvalidConfig(s) => s@,
        }
    }

    /// The message printed for an error.
    pub open spec fn text(&self) -> Seq<char> {
        match self {
            DiscoveryError::Daemon(s) => "mdns daemon error: "@ + s@,
            DiscoveryError::InvalidConfig(s) => "invalid service config: "@ + s@,
        }
    }

    /// The printed message, e.g. `invalid service config: instance_name must not be empty`.
    pub fn to_string(&self) -> (m: String)
        ensures
            m@ == self.text(),
    {
        match self {
            DiscoveryError::Daemon(s) => {
                proof {
                    reveal_strlit("mdns daemon error: ");
                }
                let mut m = String::from_str("mdns daemon error: ");
                m.append(s.as_str());
                m
            },
            DiscoveryError::InvalidConfig(s) => {
                proof {
                    reveal_strlit("invalid service config: ");
                }
                let mut m = String::from_str("invalid service config: ");
                m.append(s.as_str());
                m
            },
        }
    }
}

// ─────────────────────────────── TXT records ───────────────────────────────

/// A set of TXT key/value pairs, each key present at most once.
#[derive(Debug, Clone)]
pub struct TxtRecords {
    entries: Vec<(String, String)>,
}

/// The key/value pairs as character sequences.
pub open spec fn pairs_view(entries: Seq<(String, String)>) -> Seq<(Seq<char>, Seq<char>)> {
    entries.map_values(|e: (String, String)| (e.0@, e.1@))
}

/// No key occurs twice.
pub open spec fn keys_unique(p: Seq<(Seq<char>, Seq<char>)>) -> bool {
    forall|i: int, j: int| 0 <= i < j < p.len() ==> #[trigger] p[i].0 != #[trigger] p[j].0
}

/// The map of a list of pairs with unique keys.
pub open spec fn pairs_map(p: Seq<(Seq<char>, Seq<char>)>) -> Map<Seq<char>, Seq<char>> {
    Map::new(
        |k: Seq<char>| exists|i: int| 0 <= i < p.len() && p[i].0 == k,
        |k: Seq<char>| p[choose|i: int| 0 <= i < p.len() && p[i].0 == k].1,
    )
}

proof fn lemma_pairs_map_index(p: Seq<(Seq<char>, Seq<char>)>, i: int)
    requires
        keys_unique(p),
        0 <= i < p.len(),
    ensures
        pairs_map(p).contains_key(p[i].0),
        pairs_map(p)[p[i].0] == p[i].1,
{
    let k = p[i].0;
    assert(exists|j: int| 0 <= j < p.len() && p[j].0 == k);
    let c = choose|j: int| 0 <= j < p.len() && p[j].0 == k;
    if c != i {
        if c < i {
            assert(p[c].0 != p[i].0);
        } else {
            assert(p[i].0 != p[c].0);
        }
    }
}

proof fn lemma_pairs_map_push(p: Seq<(Seq<char>, Seq<char>)>, k: Seq<char>, v: Seq<char>)
    requires
        keys_unique(p),
        !pairs_map(p).contains_key(k),
    ensures
        keys_unique(p.push((k, v))),
        pairs_map(p.push((k, v))) == pairs_map(p).insert(k, v),
{
    let q = p.push((k, v));
    assert forall|i: int, j: int| 0 <= i < j < q.len() implies #[trigger] q[i].0 != #[trigger] q[j].0 by {
        if j == p.len() {
            if q[i].0 == k {
                assert(p[i].0 == k);
            }
        } else {
            assert(p[i].0 != p[j].0);
        }
    }
    assert forall|x: Seq<char>| #[trigger] pairs_map(q).contains_key(x) <==> pairs_map(p).insert(k, v).contains_key(x) by {
        if pairs_map(p).contains_key(x) {
            let i = choose|i: int| 0 <= i < p.len() && p[i].0 == x;
            assert(q[i].0 == x);
        }
        if x == k {
            assert(q[p.len() as int].0 == x);
        }
        if pairs_map(q).contains_key(x) && x != k {
            let i = choose|i: int| 0 <= i < q.len() && q[i].0 == x;
            assert(p[i].0 == x);
        }
    }
    assert forall|x: Seq<char>| #[trigger] pairs_map(q).contains_key(x) implies pairs_map(q)[x] == pairs_map(p).insert(k, v)[x] by {
        let i = choose|i: int| 0 <= i < q.len() && q[i].0 == x;
        lemma_pairs_map_index(q, i);
        if i < p.len() {
            lemma_pairs_map_index(p, i);
        }
    }
    assert(pairs_map(q) =~= pairs_map(p).insert(k, v));
}

impl View for TxtRecords {
    type V = Map<Seq<char>, Seq<char>>;

    closed spec fn view(&self) -> Map<Seq<char>, Seq<char>> {
        pairs_map(pairs_view(self.entries@))
    }
}

impl TxtRecords {
    /// The records' invariant: no key occurs twice.
    pub closed spec fn wf(&self) -> bool {
        keys_unique(pairs_view(self.entries@))
    }

    /// An empty record set.
    pub fn new() -> (t: TxtRecords)
        ensures
            t.wf(),
            t@ == Map::<Seq<char>, Seq<char>>::empty(),
    {
        let t = TxtRecords { entries: Vec::new() };
        assert(t@ =~= Map::<Seq<char>, Seq<char>>::empty());
        t
    }

    /// Number of keys.
    pub fn len(&self) -> (n: usize)
        requires
            self.wf(),
        ensures
            n == self@.len(),
    {
        proof {
            self.lemma_dom_len();
        }
        self.entries.len()
    }

    proof fn lemma_dom_len(&self)
        requires
            self.wf(),
        ensures
            self@.dom().finite(),
            self@.len() == self.entries@.len(),
        decreases self.entries@.len(),
    {
        let p = pairs_view(self.entries@);
        let f = |i: int| p[i].0;
        assert forall|k: Seq<char>| #[trigger] self@.dom().contains(k) <==> Set::new(
            |i: int| 0 <= i < p.len(),
        ).map(f).contains(k) by {
            if self@.dom().contains(k) {
                let i = choose|i: int| 0 <= i < p.len() && p[i].0 == k;
                assert(Set::new(|i: int| 0 <= i < p.len()).contains(i));
            }
        }
        assert(self@.dom() =~= Set::new(|i: int| 0 <= i < p.len()).map(f));
        let idx = Set::new(|i: int| 0 <= i < p.len());
        assert(idx =~= vstd::set_lib::set_int_range(0, p.len() as int));
        vstd::set_lib::lemma_int_range(0, p.len() as int);
        assert forall|i: int, j: int| idx.contains(i) && idx.contains(j) && f(i) == f(j) implies i
            == j by {
            if i < j {
                assert(p[i].0 != p[j].0);
            } else if j < i {
                assert(p[j].0 != p[i].0);
            }
        }
        vstd::set_lib::lemma_map_size(idx, idx.map(f), f);
    }

    /// Index of the entry for `key`, if any.
    fn find(&self, key: &str) -> (r: Option<usize>)
        requires
            self.wf(),
        ensures
            match r {
                Some(i) => i < self.entries@.len() && self.entries@[i as int].0@ == key@,
                None => !self@.contains_key(key@),
            },
    {
        let k = String::from_str(key);
        let mut i: usize = 0;
        while i < self.entries.len()
            invariant
                self.wf(),
                k@ == key@,
                i <= self.entries@.len(),
                forall|j: int| 0 <= j < i ==> self.entries@[j].0@ != key@,
            decreases self.entries@.len() - i,
        {
            if self.entries[i].0 == k {
                return Some(i);
            }
            i = i + 1;
        }
        proof {
            let p = pairs_view(self.entries@);
            if self@.contains_key(key@) {
                let j = choose|j: int| 0 <= j < p.len() && p[j].0 == key@;
                assert(self.entries@[j].0@ == key@);
            }
        }
        None
    }

    /// Whether `key` is present.
    pub fn contains_key(&self, key: &str) -> (b: bool)
        requires
            self.wf(),
        ensures
            b == self@.contains_key(key@),
    {
        match self.find(key) {
            Some(i) => {
                proof {
                    lemma_pairs_map_index(pairs_view(self.entries@), i as int);
                }
                true
            },
            None => false,
        }
    }

    /// The value of `key`, if present.
    pub fn get(&self, key: &str) -> (v: Option<&String>)
        requires
            self.wf(),
        ensures
            match v {
                Some(s) => self@.contains_key(key@) && self@[key@] == s@,
                None => !self@.contains_key(key@),
            },
    {
        match self.find(key) {
            Some(i) => {
                proof {
                    lemma_pairs_map_index(pairs_view(self.entries@), i as int);
                }
                Some(&self.entries[i].1)
            },
            None => None,
        }
    }

    /// Adds `key` with `value` if `key` is not present yet; otherwise leaves
    /// the records unchanged. Returns whether it was added.
    pub fn insert_if_absent(&mut self, key: String, value: String) -> (added: bool)
        requires
            old(self).wf(),
        ensures
            final(self).wf(),
            added == !old(self)@.contains_key(key@),
            final(self)@ == (if added {
                old(self)@.insert(key@, value@)
            } else {
                old(self)@
            }),
    {
        if self.contains_key(key.as_str()) {
            return false;
        }
        let ghost p = pairs_view(self.entries@);
        proof {
            lemma_pairs_map_push(p, key@, value@);
        }
        let ghost kv = key@;
        let ghost vv = value@;
        self.entries.push((key, value));
        assert(pairs_view(self.entries@) =~= p.push((kv, vv)));
        true
    }

    /// Sets `key` to `value`, replacing a previous value.
    pub fn insert(&mut self, key: String, value: String)
        requires
            old(self).wf(),
        ensures
            final(self).wf(),
            final(self)@ == old(self)@.insert(key@, value@),
    {
        match self.find(key.as_str()) {
            Some(i) => {
                let ghost p = pairs_view(self.entries@);
                let ghost kv = key@;
                let ghost vv = value@;
                self.entries.set(i, (key, value));
                let ghost q = pairs_view(self.entries@);
                assert(q =~= p.update(i as int, (kv, vv)));
                assert(keys_unique(q)) by {
                    assert forall|a: int, b: int| 0 <= a < b < q.len() implies #[trigger] q[a].0
                        != #[trigger] q[b].0 by {
                        assert(p[a].0 != p[b].0);
                    }
                }
                assert forall|x: Seq<char>| #[trigger] pairs_map(q).contains_key(x)
                    <==> pairs_map(p).insert(kv, vv).contains_key(x) by {
                    if pairs_map(p).contains_key(x) {
                        let j = choose|j: int| 0 <= j < p.len() && p[j].0 == x;
                        assert(q[j].0 == x);
                    }
                    if x == kv {
                        assert(q[i as int].0 == x);
                    }
                    if pairs_map(q).contains_key(x) {
                        let j = choose|j: int| 0 <= j < q.len() && q[j].0 == x;
                        assert(p[j].0 == x);
                    }
                }
                assert forall|x: Seq<char>| #[trigger] pairs_map(q).contains_key(x) implies
                    pairs_map(q)[x] == pairs_map(p).insert(kv, vv)[x] by {
                    let j = choose|j: int| 0 <= j < q.len() && q[j].0 == x;
                    lemma_pairs_map_index(q, j);
                    lemma_pairs_map_index(p, j);
                    if j < i {
                        assert(q[j].0 != q[i as int].0);
                    } else if j > i {
                        assert(q[i as int].0 != q[j].0);
                    }
                }
                assert(pairs_map(q) =~= pairs_map(p).insert(kv, vv));
            },
            None => {
                let _ = self.insert_if_absent(key, value);
            },
        }
    }

    /// The key/value pairs, in insertion order.
    pub fn pairs(&self) -> (s: &[(String, String)])
        requires
            self.wf(),
        ensures
            keys_unique(pairs_view(s@)),
            pairs_map(pairs_view(s@)) == self@,
    {
        self.entries.as_slice()
    }
}

// ─────────────────────────────── ServiceConfig ───────────────────────────────

/// All parameters required to advertise an anyMic server over mDNS.
#[derive(Debug, Clone)]
pub struct ServiceConfig {
    /// Instance name shown in Bonjour browsers (e.g. "anyMic-MacBook").
    pub instance_name: String,
    /// UDP audio-data port (protocol default 50127).
    pub data_port: u16,
    /// TCP control port carried in TXT `ctl=` (protocol default 50128).
    pub control_port: u16,
    /// Human-readable hostname (e.g. "MacBook").
    pub host_name: String,
    /// Operating-system tag: `"mac"`, `"win"`, or `"linux"`.
    pub os: &'static str,
    /// Codec string: `"opus48"`.
    pub codec: &'static str,
    /// 8-char lowercase hex fingerprint (see [`compute_fingerprint`]).
    pub fingerprint: String,
    /// Extra TXT key/value pairs beyond the required six.
    pub extra_txt: TxtRecords,
}

impl ServiceConfig {
    /// The six TXT pairs every registration carries (protocol §4.3).
    pub open spec fn required_txt(&self) -> Map<Seq<char>, Seq<char>> {
        map![
            "v"@ => "1"@,
            "name"@ => self.host_name@,
            "os"@ => self.os@,
            "codec"@ => self.codec@,
            "fid"@ => self.fingerprint@,
            "ctl"@ => decimal(self.control_port as nat),
        ]
    }

    /// Configuration with the macOS defaults: data port 50127, control port
    /// 50128, os `"mac"`, codec `"opus48"`, instance name
    /// `"anyMic-<host_name>"`, no extra TXT pairs.
    pub fn for_macos_default(host_name: String, fingerprint: String) -> (c: ServiceConfig)
        ensures
            c.instance_name@ == "anyMic-"@ + host_name@,
            c.data_port == 50127,
            c.control_port == 50128,
            c.host_name@ == host_name@,
            c.os@ == "mac"@,
            c.codec@ == "opus48"@,
            c.fingerprint@ == fingerprint@,
            c.extra_txt.wf(),
            c.extra_txt@ == Map::<Seq<char>, Seq<char>>::empty(),
    {
        let mut instance_name = String::from_str("anyMic-");
        instance_name.append(host_name.as_str());
        ServiceConfig {
            instance_name,
            data_port: 50127,
            control_port: 50128,
            host_name,
            os: "mac",
            codec: "opus48",
            fingerprint,
            extra_txt: TxtRecords::new(),
        }
    }

    /// The full TXT record: the six required pairs `v`, `name`, `os`,
    /// `codec`, `fid`, `ctl`, then the extra pairs whose keys are not
    /// among them.
    pub fn to_txt_records(&self) -> (t: TxtRecords)
        requires
            self.extra_txt.wf(),
        ensures
            t.wf(),
            t@ == self.extra_txt@.union_prefer_right(self.required_txt()),
    {
        proof {
            reveal_strlit("v");
            reveal_strlit("1");
            reveal_strlit("name");
            reveal_strlit("os");
            reveal_strlit("codec");
            reveal_strlit("fid");
            reveal_strlit("ctl");
        }
        let mut t = TxtRecords::new();
        t.insert(String::from_str("v"), String::from_str("1"));
        t.insert(String::from_str("name"), self.host_name.clone());
        t.insert(String::from_str("os"), String::from_str(self.os));
        t.insert(String::from_str("codec"), String::from_str(self.codec));
        t.insert(String::from_str("fid"), self.fingerprint.clone());
        let mut ctl = String::new();
        push_decimal(&mut ctl, self.control_port as u64);
        t.insert(String::from_str("ctl"), ctl);
        assert(t@ =~= self.required_txt());
        // Merge the extra pairs; they do not shadow required keys.
        let extra = self.extra_txt.pairs();
        let mut i: usize = 0;
        while i < extra.len()
            invariant
                t.wf(),
                i <= extra@.len(),
                keys_unique(pairs_view(extra@)),
                pairs_map(pairs_view(extra@)) == self.extra_txt@,
                t@ == pairs_map(pairs_view(extra@.subrange(0, i as int))).union_prefer_right(
                    self.required_txt(),
                ),
            decreases extra@.len() - i,
        {
            let ghost before = t@;
            let k = extra[i].0.clone();
            let v = extra[i].1.clone();
            let _ = t.insert_if_absent(k, v);
            proof {
                let p = pairs_view(extra@.subrange(0, i as int));
                let q = pairs_view(extra@.subrange(0, i + 1));
                assert(q =~= p.push((extra@[i as int].0@, extra@[i as int].1@)));
                assert(keys_unique(p)) by {
                    assert forall|a: int, b: int| 0 <= a < b < p.len() implies #[trigger] p[a].0
                        != #[trigger] p[b].0 by {
                        assert(pairs_view(extra@)[a].0 != pairs_view(extra@)[b].0);
                    }
                }
                assert(!pairs_map(p).contains_key(extra@[i as int].0@)) by {
                    if pairs_map(p).contains_key(extra@[i as int].0@) {
                        let j = choose|j: int| 0 <= j < p.len() && p[j].0 == extra@[i as int].0@;
                        assert(pairs_view(extra@)[j].0 != pairs_view(extra@)[i as int].0);
                    }
                }
                lemma_pairs_map_push(p, extra@[i as int].0@, extra@[i as int].1@);
                assert(t@ =~= pairs_map(q).union_prefer_right(self.required_txt()));
            }
            i = i + 1;
        }
        assert(extra@.subrange(0, extra@.len() as int) =~= extra@);
        t
    }

    /// Checks the config before registration: the instance name must not be
    /// empty, and the fingerprint must be exactly 8 bytes, all lowercase hex
    /// digits `0-9a-f`.
    pub fn validate(&self) -> (r: Result<(), DiscoveryError>)
        ensures
            match r {
                Ok(()) => self.validation_failure() is None,
                Err(e) => e is InvalidConfig && self.validation_failure() == Some(e.message()),
            },
    {
        if self.instance_name.as_str().is_empty() {
            proof {
                reveal_strlit("instance_name must not be empty");
            }
            return Err(
                DiscoveryError::InvalidConfig(String::from_str("instance_name must not be empty")),
            );
        }
        let fp_len = self.fingerprint.as_str().len();
        if fp_len != 8 {
            proof {
                reveal_strlit("fingerprint must be 8 hex chars, got ");
                reveal_strlit(" chars");
            }
            let mut msg = String::from_str("fingerprint must be 8 hex chars, got ");
            push_decimal(&mut msg, fp_len as u64);
            msg.append(" chars");
            return Err(DiscoveryError::InvalidConfig(msg));
        }
        let fp = self.fingerprint.as_str();
        let n = fp.unicode_len();
        let mut i: usize = 0;
        while i < n
            invariant
                n == fp@.len(),
                fp@ == self.fingerprint@,
                self.instance_name@.len() != 0,
                byte_len(self.fingerprint@) == 8,
                i <= n,
                forall|j: int| 0 <= j < i ==> is_lower_hex_char(#[trigger] fp@[j]),
            decreases n - i,
        {
            let c = fp.get_char(i);
            if !(('0' <= c && c <= '9') || ('a' <= c && c <= 'f')) {
                assert(!is_lower_hex_char(self.fingerprint@[i as int]));
                proof {
                    reveal_strlit("fingerprint must be lowercase hex [0-9a-f]");
                }
                return Err(
                    DiscoveryError::InvalidConfig(
                        String::from_str("fingerprint must be lowercase hex [0-9a-f]"),
                    ),
                );
            }
            i = i + 1;
        }
        Ok(())
    }

    /// The message of the first failed check, if any.
    pub open spec fn validation_failure(&self) -> Option<Seq<char>> {
        if self.instance_name@.len() == 0 {
            Some("instance_name must not be empty"@)
        } else if byte_len(self.fingerprint@) != 8 {
            Some(
                "fingerprint must be 8 hex chars, got "@ + decimal(byte_len(self.fingerprint@))
                    + " chars"@,
            )
        } else if exists|j: int|
            0 <= j < self.fingerprint@.len() && !is_lower_hex_char(
                #[trigger] self.fingerprint@[j],
            ) {
            Some("fingerprint must be lowercase hex [0-9a-f]"@)
        } else {
            None
        }
    }
}

/// The length in bytes (UTF-8) of a string, as a `usize` counts it.
pub open spec fn byte_len(s: Seq<char>) -> nat {
    (encode_utf8(s).len() as usize) as nat
}


// ─────────────────────────────── fingerprint ───────────────────────────────

/// The value `std`'s `DefaultHasher::new()` gives after hashing the string
/// `s` (the same for every hasher made by `new` in a given build).
pub uninterp spec fn default_str_hash(s: Seq<char>) -> u64;

/// Hashes a string with `std::hash::DefaultHasher::new()` (`str::hash`, then
/// `finish`). The result is named, not stated: it depends on the string alone.
#[verifier::external_body]
fn hash_str(seed: &str) -> (h: u64)
    ensures
        h == default_str_hash(seed@),
{
    let mut hasher = DefaultHasher::new();
    seed.hash(&mut hasher);
    hasher.finish()
}

/// Computes an 8-char lowercase hex fingerprint from `seed`: the low 32
/// bits of the default hash of `seed`, zero padded.
///
/// The fingerprint only disambiguates hosts sharing a hostname; it is
/// deterministic for a given seed and Rust release.
pub fn compute_fingerprint(seed: &str) -> (fp: String)
    ensures
        fp@ == hex_fixed((default_str_hash(seed@) % 0x1_0000_0000) as nat, 8),
        fp@.len() == 8,
        forall|i: int| 0 <= i < 8 ==> is_lower_hex_char(#[trigger] fp@[i]),
{
    let v = hash_str(seed);
    let low = v % 0x1_0000_0000;
    let mut fp = String::new();
    push_hex_fixed(&mut fp, low, 8);
    proof {
        lemma_hex_fixed_shape(low as nat, 8);
        assert(fp@ =~= hex_fixed(low as nat, 8));
    }
    fp
}

// ─────────────────────────────── registration ───────────────────────────────

#[verifier::external_type_specification]
#[verifier::external_body]
pub struct ExServiceInfo(ServiceInfo);

/// A TXT pair that `mdns_sd` accepts: the key is ASCII without `=`, and the
/// record string `key=value` fits in 255 bytes.
pub open spec fn txt_pair_ok(k: Seq<char>, v: Seq<char>) -> bool {
    &&& is_ascii_chars(k)
    &&& !k.contains('=')
    &&& encode_utf8(k).len() + 1 + encode_utf8(v).len() <= 255
}

/// What a registration announces: the DNS-SD service type, the instance
/// name, the host label, the port and the TXT record.
#[derive(Debug, Clone)]
pub struct Registration {
    pub service_type: String,
    pub instance_name: String,
    pub host: String,
    pub port: u16,
    pub txt: TxtRecords,
}

impl ServiceConfig {
    /// `r` is the registration of this config: [`SERVICE_TYPE`], the
    /// instance name, the host label `<host_name>.local.`, the data port,
    /// and the TXT record of [`ServiceConfig::to_txt_records`].
    pub open spec fn is_registration(&self, r: Registration) -> bool {
        &&& r.service_type@ == SERVICE_TYPE@
        &&& r.instance_name@ == self.instance_name@
        &&& r.host@ == self.host_name@ + ".local."@
        &&& r.port == self.data_port
        &&& r.txt.wf()
        &&& r.txt@ == self.extra_txt@.union_prefer_right(self.required_txt())
    }

    /// The registration of this config.
    pub fn registration(&self) -> (r: Registration)
        requires
            self.extra_txt.wf(),
        ensures
            self.is_registration(r),
    {
        let mut host = self.host_name.clone();
        host.append(".local.");
        Registration {
            service_type: String::from_str(SERVICE_TYPE),
            instance_name: self.instance_name.clone(),
            host,
            port: self.data_port,
            txt: self.to_txt_records(),
        }
    }
}

/// A registration together with the `mdns_sd` service description built
/// from it.
pub struct ServiceRegistration {
    registration: Registration,
    info: ServiceInfo,
    /// Whether the description has the daemon fill in the host's addresses.
    auto: Ghost<bool>,
}

impl ServiceRegistration {
    /// The registration the description was built from.
    pub closed spec fn announced(&self) -> Registration {
        self.registration
    }

    /// The registration the description was built from.
    pub fn registration(&self) -> (r: &Registration)
        ensures
            *r == self.announced(),
    {
        &self.registration
    }

    /// Whether the description has the daemon fill in and follow the host's
    /// addresses itself (it is built with no fixed address).
    pub closed spec fn addr_auto(&self) -> bool {
        self.auto@
    }

    /// The same registration, with the description set to have the daemon
    /// fill in and follow the host's addresses itself.
    pub fn with_addr_auto(self) -> (s: ServiceRegistration)
        ensures
            s.announced() == self.announced(),
            s.addr_auto(),
    {
        enable_addr_auto(self)
    }

    /// The service description, to hand to the daemon.
    pub fn into_info(self) -> ServiceInfo {
        self.info
    }
}

/// `mdns_sd::ServiceInfo::new(ty, name, host, "", port, pairs)` on the
/// fields of `reg`, in that order, with the TXT pairs in their stored order:
/// builds the service description with no fixed address, and returns it
/// with `reg` moved in unchanged. Its source rejects only TXT pairs that
/// break RFC 6763 (key not ASCII, key holding `=`, record longer than 255
/// bytes), checking the first pair of each key up to case; so it succeeds
/// when every pair is acceptable, and when it fails some pair is not. The
/// error is handed back as its text. Nothing else is stated of the
/// description.
#[verifier::external_body]
fn new_service_info(reg: Registration) -> (r: Result<ServiceRegistration, String>)
    ensures
        (forall|i: int|
            0 <= i < reg.txt.entries@.len() ==> txt_pair_ok(
                #[trigger] reg.txt.entries@[i].0@,
                reg.txt.entries@[i].1@,
            )) ==> r is Ok,
        r is Err ==> exists|i: int|
            0 <= i < reg.txt.entries@.len() && !txt_pair_ok(
                #[trigger] reg.txt.entries@[i].0@,
                reg.txt.entries@[i].1@,
            ),
        r matches Ok(s) ==> s.announced() == reg && !s.addr_auto(),
{
    let props: Vec<(&str, &str)> =
        reg.txt.entries.iter().map(|(k, v)| (k.as_str(), v.as_str())).collect();
    let built =
        ServiceInfo::new(&reg.service_type, &reg.instance_name, &reg.host, "", reg.port, props.as_slice());
    drop(props);
    match built {
        Ok(info) => Ok(ServiceRegistration { registration: reg, info, auto: Ghost(false) }),
        Err(e) => Err(e.to_string()),
    }
}

/// `mdns_sd::ServiceInfo::enable_addr_auto` on the description of `s`:
/// sets its `addr_auto` flag, so that the daemon fills in and updates the
/// host's addresses itself; the registration is moved over unchanged.
#[verifier::external_body]
fn enable_addr_auto(s: ServiceRegistration) -> (r: ServiceRegistration)
    ensures
        r.announced() == s.announced(),
        r.addr_auto(),
{
    ServiceRegistration {
        registration: s.registration,
        info: s.info.enable_addr_auto(),
        auto: Ghost(true),
    }
}

/// Prepares the registration of `cfg`: refused with `Daemon` while a
/// registration is `running`; then the config is validated; then the
/// service description is built from [`ServiceConfig::registration`]
/// ([`SERVICE_TYPE`], the instance name, the host label
/// `<host_name>.local.`, the data port and the TXT record of
/// [`ServiceConfig::to_txt_records`]), with automatic addresses. A TXT pair
/// that mDNS rejects gives `InvalidConfig` with the library's message.
pub fn prepare_start(running: bool, cfg: &ServiceConfig) -> (r: Result<
    ServiceRegistration,
    DiscoveryError,
>)
    requires
        cfg.extra_txt.wf(),
    ensures
        running ==> (r matches Err(e) && e is Daemon && e.message()
            == "responder is already running; call stop() first"@),
        !running && cfg.validation_failure() is Some ==> (r matches Err(e) && e is InvalidConfig
            && Some(e.message()) == cfg.validation_failure()),
        !running && cfg.validation_failure() is None && (forall|k: Seq<char>| #[trigger]
            cfg.extra_txt@.union_prefer_right(cfg.required_txt()).contains_key(k) ==> txt_pair_ok(
            k,
            cfg.extra_txt@.union_prefer_right(cfg.required_txt())[k],
        )) ==> r is Ok,
        r is Ok ==> !running && cfg.validation_failure() is None,
        r matches Ok(s) ==> cfg.is_registration(s.announced()) && s.addr_auto(),
{
    if running {
        proof {
            reveal_strlit("responder is already running; call stop() first");
        }
        return Err(
            DiscoveryError::Daemon(
                String::from_str("responder is already running; call stop() first"),
            ),
        );
    }
    match cfg.validate() {
        Ok(()) => {},
        Err(e) => return Err(e),
    }
    let reg = cfg.registration();
    proof {
        let m = cfg.extra_txt@.union_prefer_right(cfg.required_txt());
        let pairs = reg.txt.entries@;
        if forall|k: Seq<char>| #[trigger] m.contains_key(k) ==> txt_pair_ok(k, m[k]) {
            assert forall|i: int| 0 <= i < pairs.len() implies txt_pair_ok(
                #[trigger] pairs[i].0@,
                pairs[i].1@,
            ) by {
                lemma_pairs_map_index(pairs_view(pairs), i);
                assert(pairs_view(pairs)[i] == (pairs[i].0@, pairs[i].1@));
            }
        }
    }
    match new_service_info(reg) {
        Ok(s) => Ok(s.with_addr_auto()),
        Err(msg) => Err(DiscoveryError::InvalidConfig(msg)),
    }
}

/// Interface for mDNS responders.
pub trait DiscoveryResponder: Send {
    /// Registers the service described by `cfg` on the local network;
    /// `Err` if already running or if `cfg` is invalid.
    fn start(&mut self, cfg: ServiceConfig) -> Result<(), DiscoveryError>;

    /// Unregisters the service; calling it when stopped does nothing.
    fn stop(&mut self);

    /// Whether the service is currently registered.
    fn is_running(&self) -> bool;
}

} // verus!
