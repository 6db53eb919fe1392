//! anyMic v1 wire packet codec.
//!
//! # Wire format (12-byte header, big-endian)
//!
//! ```text
//! +--------+--------+--------+--------+--------+--------+
//! | magic  |version | flags  |  pt    |  seq (u16 BE)   |
//! +--------+--------+--------+--------+--------+--------+
//! |       timestamp (u32 BE)          |  ssrc16 (u16 BE)|
//! +--------+--------+--------+--------+--------+--------+
//! |  ... payload bytes ...
//! ```
//!
//! The reserved flag bits (2-7) are checked strictly: a packet with any of
//! them set is rejected with [`PacketError::ReservedFlagsSet`].

use vstd::prelude::*;
use vstd::slice::slice_subrange;
use vstd::slice::slice_to_vec;
use crate::text::{decimal, hex2_upper, push_char, push_decimal, push_hex2_upper};

verus! {

pub const MAGIC: u8 = 0xA1;

pub const VERSION_MAJOR: u8 = 1;

pub const VERSION_MINOR: u8 = 0;

pub const HEADER_LEN: usize = 12;

pub const MAX_PACKET_LEN: usize = 1500;

/// Mask selecting bits 2-7 of the flags byte (reserved, must be zero).
const FLAGS_RESERVED_MASK: u8 = 0xFC;

// ───────────────────────────── PayloadType ─────────────────────────────

/// Known payload types carried in the anyMic header.
#[derive(Debug, Clone, Copy, PartialEq, Eq, Structural)]
pub enum PayloadType {
    /// Opus codec, 48 kHz, mono (wire code 1).
    Opus48kMono,
    /// Raw 16-bit PCM, for debugging only (wire code 2).
    Pcm16Raw,
}

impl PayloadType {
    /// The wire code of a payload type.
    pub open spec fn spec_code(self) -> u8 {
        match self {
            PayloadType::Opus48kMono => 1,
            PayloadType::Pcm16Raw => 2,
        }
    }

    /// The payload type a wire code names, if any.
    pub open spec fn spec_from_code(v: u8) -> Option<PayloadType> {
        if v == 1 {
            Some(PayloadType::Opus48kMono)
        } else if v == 2 {
            Some(PayloadType::Pcm16Raw)
        } else {
            None
        }
    }

    /// The name printed for a payload type.
    pub open spec fn spec_name(self) -> Seq<char> {
        match self {
            PayloadType::Opus48kMono => "Opus48kMono"@,
            PayloadType::Pcm16Raw => "Pcm16Raw"@,
        }
    }

    /// The wire code of this payload type.
    pub fn code(self) -> (c: u8)
        ensures
            c == self.spec_code(),
    {
        match self {
            PayloadType::Opus48kMono => 1,
            PayloadType::Pcm16Raw => 2,
        }
    }

    /// Decodes the payload-type byte; unknown codes are rejected.
    pub fn from_u8(v: u8) -> (r: Result<PayloadType, PacketError>)
        ensures
            match r {
                Ok(pt) => PayloadType::spec_from_code(v) == Some(pt),
                Err(e) => PayloadType::spec_from_code(v) is None && e
                    == PacketError::UnknownPayloadType(v),
            },
    {
        match v {
            1 => Ok(PayloadType::Opus48kMono),
            2 => Ok(PayloadType::Pcm16Raw),
            other => Err(PacketError::UnknownPayloadType(other)),
        }
    }

    /// The printed name of this payload type (`Opus48kMono` or `Pcm16Raw`).
    pub fn to_string(&self) -> (s: String)
        ensures
            s@ == self.spec_name(),
    {
        match self {
            PayloadType::Opus48kMono => {
                proof {
                    reveal_strlit("Opus48kMono");
                }
                String::from_str("Opus48kMono")
            },
            PayloadType::Pcm16Raw => {
                proof {
                    reveal_strlit("Pcm16Raw");
                }
                String::from_str("Pcm16Raw")
            },
        }
    }
}

// ───────────────────────────── Flags ─────────────────────────────

/// Bit-field flags from byte 2 of the header.
///
/// `marker` (bit 0): set on the first packet of a speech burst.
/// `dtx`    (bit 1): discontinuous transmission, the sender suppresses silence.
#[derive(Debug, Default, Clone, Copy, PartialEq, Eq, Structural)]
pub struct Flags {
    pub marker: bool,
    pub dtx: bool,
}

impl Flags {
    /// The wire byte of a flag pair (reserved bits are always 0).
    pub open spec fn spec_byte(self) -> u8 {
        ((if self.marker {
            1int
        } else {
            0int
        }) + (if self.dtx {
            2int
        } else {
            0int
        })) as u8
    }

    /// The flags a wire byte without reserved bits stands for.
    pub open spec fn spec_from_byte(v: u8) -> Flags {
        Flags { marker: v % 2 == 1, dtx: (v / 2) % 2 == 1 }
    }

    /// Encodes to the wire byte (reserved bits always 0).
    pub fn to_u8(self) -> (b: u8)
        ensures
            b == self.spec_byte(),
            b < 4,
    {
        let m: u8 = if self.marker {
            1
        } else {
            0
        };
        let d: u8 = if self.dtx {
            1
        } else {
            0
        };
        let b = m | (d << 1);
        assert(m <= 1 && d <= 1 ==> (m | (d << 1)) == m + 2 * d) by (bit_vector);
        b
    }

    /// Decodes from the wire byte; a byte with any reserved bit set is rejected.
    pub fn from_u8(v: u8) -> (r: Result<Flags, PacketError>)
        ensures
            match r {
                Ok(f) => v < 4 && f == Flags::spec_from_byte(v) && f.spec_byte() == v,
                Err(e) => v >= 4 && e == PacketError::ReservedFlagsSet(v),
            },
    {
        assert((v & 0xFC) != 0 <==> v >= 4) by (bit_vector);
        if v & FLAGS_RESERVED_MASK != 0 {
            return Err(PacketError::ReservedFlagsSet(v));
        }
        assert((v & 0x01) != 0 <==> v % 2 == 1) by (bit_vector);
        assert((v & 0x02) != 0 <==> (v / 2) % 2 == 1) by (bit_vector);
        Ok(Flags { marker: v & 0x01 != 0, dtx: v & 0x02 != 0 })
    }
}

// ───────────────────────────── errors ─────────────────────────────

/// Errors returned by the packet codec.
#[derive(Debug, Clone, Copy, PartialEq, Eq, Structural)]
pub enum PacketError {
    /// Buffer shorter than the 12-byte header.
    Truncated(usize),
    /// Byte 0 was not `0xA1`.
    InvalidMagic(u8),
    /// The major version in the high nibble of byte 1 is not 1.
    UnsupportedMajor(u8),
    /// Reserved flag bits (2-7) are non-zero.
    ReservedFlagsSet(u8),
    /// The payload-type byte is not in the known set.
    UnknownPayloadType(u8),
    /// Total packet length exceeds [`MAX_PACKET_LEN`].
    TooLarge(usize),
}

impl PacketError {
    /// The message printed for an error.
    pub open spec fn text(&self) -> Seq<char> {
        match *self {
            PacketError::Truncated(n) => "buffer too short: "@ + decimal(n as nat) + " bytes"@,
            PacketError::InvalidMagic(b) => "invalid magic: 0x"@ + hex2_upper(b),
            PacketError::UnsupportedMajor(v) => "unsupported major version: "@ + decimal(v as nat),
            PacketError::ReservedFlagsSet(b) => "reserved flag bits set: 0x"@ + hex2_upper(b),
            PacketError::UnknownPayloadType(v) => "unknown payload type: "@ + decimal(v as nat),
            PacketError::TooLarge(n) => "packet too large: "@ + decimal(n as nat)
                + " bytes (max 1500)"@,
        }
    }

    /// The printed message, e.g. `invalid magic: 0xFF`.
    pub fn to_string(&self) -> (s: String)
        ensures
            s@ == self.text(),
    {
        match *self {
            PacketError::Truncated(n) => {
                proof {
                    reveal_strlit("buffer too short: ");
                    reveal_strlit(" bytes");
                }
                let mut s = String::from_str("buffer too short: ");
                push_decimal(&mut s, n as u64);
                s.append(" bytes");
                s
            },
            PacketError::InvalidMagic(b) => {
                proof {
                    reveal_strlit("invalid magic: 0x");
                }
                let mut s = String::from_str("invalid magic: 0x");
                push_hex2_upper(&mut s, b);
                s
            },
            PacketError::UnsupportedMajor(v) => {
                proof {
                    reveal_strlit("unsupported major version: ");
                }
                let mut s = String::from_str("unsupported major version: ");
                push_decimal(&mut s, v as u64);
                s
            },
            PacketError::ReservedFlagsSet(b) => {
                proof {
                    reveal_strlit("reserved flag bits set: 0x");
                }
                let mut s = String::from_str("reserved flag bits set: 0x");
                push_hex2_upper(&mut s, b);
                s
            },
            PacketError::UnknownPayloadType(v) => {
                proof {
                    reveal_strlit("unknown payload type: ");
                }
                let mut s = String::from_str("unknown payload type: ");
                push_decimal(&mut s, v as u64);
                s
            },
            PacketError::TooLarge(n) => {
                proof {
                    reveal_strlit("packet too large: ");
                    reveal_strlit(" bytes (max 1500)");
                }
                let mut s = String::from_str("packet too large: ");
                push_decimal(&mut s, n as u64);
                s.append(" bytes (max 1500)");
                s
            },
        }
    }
}

// ───────────────────────────── payload ─────────────────────────────

/// Payload bytes of a packet: borrowed from the decoded buffer (zero-copy)
/// or owned.
#[derive(Debug, Clone, PartialEq, Eq)]
pub enum Payload<'a> {
    Borrowed(&'a [u8]),
    Owned(Vec<u8>),
}

impl<'a> View for Payload<'a> {
    type V = Seq<u8>;

    open spec fn view(&self) -> Seq<u8> {
        match self {
            Payload::Borrowed(s) => s@,
            Payload::Owned(v) => v@,
        }
    }
}

impl<'a> Payload<'a> {
    /// The bytes as a slice.
    pub fn as_slice(&self) -> (s: &[u8])
        ensures
            s@ == self@,
    {
        match self {
            Payload::Borrowed(s) => s,
            Payload::Owned(v) => v.as_slice(),
        }
    }

    /// Number of payload bytes.
    pub fn len(&self) -> (n: usize)
        ensures
            n == self@.len(),
    {
        match self {
            Payload::Borrowed(s) => s.len(),
            Payload::Owned(v) => v.len(),
        }
    }

    /// The bytes as an owned vector (copied when borrowed).
    pub fn into_owned(self) -> (v: Vec<u8>)
        ensures
            v@ == self@,
    {
        match self {
            Payload::Borrowed(s) => slice_to_vec(s),
            Payload::Owned(v) => v,
        }
    }
}

// ───────────────────────────── RtpPacket ─────────────────────────────

/// Big-endian bytes of a 16-bit value.
pub open spec fn be16(x: u16) -> Seq<u8> {
    seq![(x / 256) as u8, (x % 256) as u8]
}

/// Big-endian bytes of a 32-bit value.
pub open spec fn be32(x: u32) -> Seq<u8> {
    seq![
        (x / 0x100_0000) as u8,
        ((x / 0x1_0000) % 256) as u8,
        ((x / 256) % 256) as u8,
        (x % 256) as u8,
    ]
}

/// The 16-bit value of two big-endian bytes.
pub open spec fn from_be16(b0: u8, b1: u8) -> u16 {
    (b0 * 256 + b1) as u16
}

/// The 32-bit value of four big-endian bytes.
pub open spec fn from_be32(b0: u8, b1: u8, b2: u8, b3: u8) -> u32 {
    (b0 * 0x100_0000 + b1 * 0x1_0000 + b2 * 256 + b3) as u32
}

/// The fields of a packet as mathematical values.
pub struct PacketView {
    pub version_minor: u8,
    pub flags: Flags,
    pub payload_type: PayloadType,
    pub seq: u16,
    pub timestamp: u32,
    pub ssrc16: u16,
    pub payload: Seq<u8>,
}

impl PacketView {
    /// The 12 header bytes written for these fields.
    pub open spec fn header(self) -> Seq<u8> {
        seq![
            MAGIC,
            (16 + self.version_minor % 16) as u8,
            self.flags.spec_byte(),
            self.payload_type.spec_code(),
        ] + be16(self.seq) + be32(self.timestamp) + be16(self.ssrc16)
    }

    /// The wire bytes of a packet: header followed by payload.
    pub open spec fn encoding(self) -> Seq<u8> {
        self.header() + self.payload
    }
}

/// What decoding a byte string gives: the packet fields, or the first
/// protocol violation in the order length, size, magic, major version,
/// reserved flags, payload type.
pub open spec fn spec_decode(b: Seq<u8>) -> Result<PacketView, PacketError> {
    if b.len() < HEADER_LEN {
        Err(PacketError::Truncated(b.len() as usize))
    } else if b.len() > MAX_PACKET_LEN {
        Err(PacketError::TooLarge(b.len() as usize))
    } else if b[0] != MAGIC {
        Err(PacketError::InvalidMagic(b[0]))
    } else if b[1] / 16 != VERSION_MAJOR {
        Err(PacketError::UnsupportedMajor(b[1] / 16))
    } else if b[2] >= 4 {
        Err(PacketError::ReservedFlagsSet(b[2]))
    } else if PayloadType::spec_from_code(b[3]) is None {
        Err(PacketError::UnknownPayloadType(b[3]))
    } else {
        Ok(
            PacketView {
                version_minor: b[1] % 16,
                flags: Flags::spec_from_byte(b[2]),
                payload_type: PayloadType::spec_from_code(b[3])->0,
                seq: from_be16(b[4], b[5]),
                timestamp: from_be32(b[6], b[7], b[8], b[9]),
                ssrc16: from_be16(b[10], b[11]),
                payload: b.subrange(HEADER_LEN as int, b.len() as int),
            },
        )
    }
}

/// An anyMic packet with its header fields and payload.
///
/// [`RtpPacket::decode`] borrows the payload from the input buffer, while
/// [`RtpPacket::decode_owned`] (or a packet built by the caller) owns it.
#[derive(Debug, Clone, PartialEq, Eq)]
pub struct RtpPacket<'a> {
    /// Minor version from the low 4 bits of byte 1.
    pub version_minor: u8,
    /// Parsed flag bits.
    pub flags: Flags,
    /// Payload type identifier.
    pub payload_type: PayloadType,
    /// Sequence number (wraps at 2^16).
    pub seq: u16,
    /// Timestamp in 48 kHz samples (wraps at 2^32).
    pub timestamp: u32,
    /// 16-bit synchronisation source identifier.
    pub ssrc16: u16,
    /// Raw codec bytes following the 12-byte header.
    pub payload: Payload<'a>,
}

impl<'a> View for RtpPacket<'a> {
    type V = PacketView;

    open spec fn view(&self) -> PacketView {
        PacketView {
            version_minor: self.version_minor,
            flags: self.flags,
            payload_type: self.payload_type,
            seq: self.seq,
            timestamp: self.timestamp,
            ssrc16: self.ssrc16,
            payload: self.payload@,
        }
    }
}

/// The header fields of a validated buffer.
struct Header {
    version_minor: u8,
    flags: Flags,
    payload_type: PayloadType,
    seq: u16,
    timestamp: u32,
    ssrc16: u16,
}

/// Checks the header of `bytes` and reads its fields.
fn decode_header(bytes: &[u8]) -> (r: Result<Header, PacketError>)
    ensures
        match r {
            Ok(h) => spec_decode(bytes@) matches Ok(p) && p.version_minor == h.version_minor
                && p.flags == h.flags && p.payload_type == h.payload_type && p.seq == h.seq
                && p.timestamp == h.timestamp && p.ssrc16 == h.ssrc16,
            Err(e) => spec_decode(bytes@) == Err::<PacketView, PacketError>(e),
        },
{
    let total = bytes.len();
    if total < HEADER_LEN {
        return Err(PacketError::Truncated(total));
    }
    if total > MAX_PACKET_LEN {
        return Err(PacketError::TooLarge(total));
    }
    // byte 0 – magic
    if bytes[0] != MAGIC {
        return Err(PacketError::InvalidMagic(bytes[0]));
    }
    // byte 1 – version (major in high nibble, minor in low nibble)
    let b1 = bytes[1];
    let major = b1 >> 4;
    let minor = b1 & 0x0F;
    assert(b1 >> 4 == b1 / 16 && b1 & 0x0F == b1 % 16) by (bit_vector);
    if major != VERSION_MAJOR {
        return Err(PacketError::UnsupportedMajor(major));
    }
    // byte 2 – flags (strict: reserved bits must be 0)
    let flags = match Flags::from_u8(bytes[2]) {
        Ok(f) => f,
        Err(e) => return Err(e),
    };
    // byte 3 – payload type
    let payload_type = match PayloadType::from_u8(bytes[3]) {
        Ok(pt) => pt,
        Err(e) => return Err(e),
    };
    // bytes 4-5 seq, 6-9 timestamp, 10-11 ssrc16 (all big-endian)
    let seq = (bytes[4] as u16) * 256 + bytes[5] as u16;
    let timestamp = (bytes[6] as u32) * 0x100_0000 + (bytes[7] as u32) * 0x1_0000 + (
    bytes[8] as u32) * 256 + bytes[9] as u32;
    let ssrc16 = (bytes[10] as u16) * 256 + bytes[11] as u16;
    Ok(Header { version_minor: minor, flags, payload_type, seq, timestamp, ssrc16 })
}

impl<'a> RtpPacket<'a> {
    /// Decodes a packet, borrowing the payload slice from `bytes` (zero-copy).
    pub fn decode(bytes: &'a [u8]) -> (r: Result<RtpPacket<'a>, PacketError>)
        ensures
            match r {
                Ok(p) => spec_decode(bytes@) == Ok::<PacketView, PacketError>(p@)
                    && p.payload is Borrowed,
                Err(e) => spec_decode(bytes@) == Err::<PacketView, PacketError>(e),
            },
    {
        let h = match decode_header(bytes) {
            Ok(h) => h,
            Err(e) => return Err(e),
        };
        let payload = slice_subrange(bytes, HEADER_LEN, bytes.len());
        let p = RtpPacket {
            version_minor: h.version_minor,
            flags: h.flags,
            payload_type: h.payload_type,
            seq: h.seq,
            timestamp: h.timestamp,
            ssrc16: h.ssrc16,
            payload: Payload::Borrowed(payload),
        };
        assert(spec_decode(bytes@) == Ok::<PacketView, PacketError>(p@));
        Ok(p)
    }

    /// Decodes a packet, copying the payload into an owned buffer.
    pub fn decode_owned(bytes: &[u8]) -> (r: Result<RtpPacket<'static>, PacketError>)
        ensures
            match r {
                Ok(p) => spec_decode(bytes@) == Ok::<PacketView, PacketError>(p@)
                    && p.payload is Owned,
                Err(e) => spec_decode(bytes@) == Err::<PacketView, PacketError>(e),
            },
    {
        let h = match decode_header(bytes) {
            Ok(h) => h,
            Err(e) => return Err(e),
        };
        let payload = slice_to_vec(slice_subrange(bytes, HEADER_LEN, bytes.len()));
        let p = RtpPacket {
            version_minor: h.version_minor,
            flags: h.flags,
            payload_type: h.payload_type,
            seq: h.seq,
            timestamp: h.timestamp,
            ssrc16: h.ssrc16,
            payload: Payload::Owned(payload),
        };
        assert(spec_decode(bytes@) == Ok::<PacketView, PacketError>(p@));
        Ok(p)
    }

    /// Number of bytes this packet occupies on the wire.
    pub fn encoded_len(&self) -> (n: usize)
        requires
            self.payload@.len() + HEADER_LEN <= usize::MAX,
        ensures
            n == self@.encoding().len(),
            n == HEADER_LEN + self.payload@.len(),
    {
        HEADER_LEN + self.payload.len()
    }

    /// Encodes the header and payload into `out`, appending to whatever is
    /// already there.
    pub fn encode_into(&self, out: &mut Vec<u8>)
        ensures
            final(out)@ == old(out)@ + self@.encoding(),
    {
        let minor = self.version_minor;
        let vbyte = (VERSION_MAJOR << 4) | (minor & 0x0F);
        assert((1u8 << 4) | (minor & 0x0F) == 16 + minor % 16) by (bit_vector);
        // bytes 0-3: magic, version, flags, payload type
        out.push(MAGIC);
        out.push(vbyte);
        out.push(self.flags.to_u8());
        out.push(self.payload_type.code());
        // bytes 4-5: seq BE
        out.push((self.seq / 256) as u8);
        out.push((self.seq % 256) as u8);
        // bytes 6-9: timestamp BE
        out.push((self.timestamp / 0x100_0000) as u8);
        out.push(((self.timestamp / 0x1_0000) % 256) as u8);
        out.push(((self.timestamp / 256) % 256) as u8);
        out.push((self.timestamp % 256) as u8);
        // bytes 10-11: ssrc16 BE
        out.push((self.ssrc16 / 256) as u8);
        out.push((self.ssrc16 % 256) as u8);
        let ghost before_payload = out@;
        assert(before_payload =~= old(out)@ + self@.header());
        // payload
        out.extend_from_slice(self.payload.as_slice());
        assert(out@ =~= old(out)@ + self@.encoding());
    }

    /// The one-line summary printed for a packet:
    /// `v1 seq=<seq> ts=<ts> ssrc=<ssrc> pt=<type> flags=<M?><D ?>len=<n>`.
    pub fn to_string(&self) -> (s: String)
        ensures
            s@ == self@.summary(),
    {
        proof {
            reveal_strlit("v1 seq=");
            reveal_strlit(" ts=");
            reveal_strlit(" ssrc=");
            reveal_strlit(" pt=");
            reveal_strlit(" flags=");
            reveal_strlit("len=");
        }
        let mut s = String::from_str("v1 seq=");
        push_decimal(&mut s, self.seq as u64);
        s.append(" ts=");
        push_decimal(&mut s, self.timestamp as u64);
        s.append(" ssrc=");
        push_decimal(&mut s, self.ssrc16 as u64);
        s.append(" pt=");
        let name = self.payload_type.to_string();
        s.append(name.as_str());
        s.append(" flags=");
        if self.flags.marker {
            push_char(&mut s, 'M');
        }
        if self.flags.dtx {
            push_char(&mut s, 'D');
        }
        push_char(&mut s, ' ');
        s.append("len=");
        push_decimal(&mut s, self.payload.len() as u64);
        assert(s@ =~= self@.summary());
        s
    }
}

impl PacketView {
    /// The one-line summary of a packet.
    pub open spec fn summary(self) -> Seq<char> {
        "v1 seq="@ + decimal(self.seq as nat) + " ts="@ + decimal(self.timestamp as nat)
            + " ssrc="@ + decimal(self.ssrc16 as nat) + " pt="@ + self.payload_type.spec_name()
            + " flags="@ + (if self.flags.marker {
            seq!['M']
        } else {
            Seq::empty()
        }) + (if self.flags.dtx {
            seq!['D', ' ']
        } else {
            seq![' ']
        }) + "len="@ + decimal(self.payload.len())
    }
}

// ───────────────────────────── seq/ts arithmetic ─────────────────────────────

/// Serial-number difference of two 16-bit values: `a - b` taken modulo 2^16
/// and read in `[-32768, 32767]`.
pub open spec fn spec_seq_diff(a: u16, b: u16) -> int {
    let d = (a - b) % 0x1_0000;
    if d >= 0x8000 {
        d - 0x1_0000
    } else {
        d
    }
}

/// Serial-number difference of two 32-bit values: `a - b` taken modulo 2^32
/// and read in `[-2^31, 2^31 - 1]`.
pub open spec fn spec_ts_diff(a: u32, b: u32) -> int {
    let d = (a - b) % 0x1_0000_0000;
    if d >= 0x8000_0000 {
        d - 0x1_0000_0000
    } else {
        d
    }
}

/// Signed difference between two 16-bit sequence numbers, handling
/// wrap-around (RFC 1982 serial number arithmetic).
pub fn seq_diff(a: u16, b: u16) -> (r: i32)
    ensures
        r == spec_seq_diff(a, b),
        -0x8000 <= r < 0x8000,
{
    let w = a.wrapping_sub(b);
    let diff = w as i16;
    assert(w == (a - b) % 0x1_0000);
    assert(diff == (if w >= 0x8000 { w - 0x1_0000 } else { w as int })) by (bit_vector)
        requires
            diff == w as i16,
    ;
    diff as i32
}

/// Signed difference between two 32-bit timestamps, handling wrap-around.
pub fn ts_diff(a: u32, b: u32) -> (r: i64)
    ensures
        r == spec_ts_diff(a, b),
        -0x8000_0000 <= r < 0x8000_0000,
{
    let w = a.wrapping_sub(b);
    let diff = w as i32;
    assert(w == (a - b) % 0x1_0000_0000);
    assert(diff == (if w >= 0x8000_0000 { w - 0x1_0000_0000 } else { w as int })) by (bit_vector)
        requires
            diff == w as i32,
    ;
    diff as i64
}


// ───────────────────────────── laws ─────────────────────────────

proof fn lemma_be16_roundtrip(x: u16)
    ensures
        from_be16(be16(x)[0], be16(x)[1]) == x,
{
    assert(((x / 256) as u8) * 256 + ((x % 256) as u8) == x) by (nonlinear_arith);
}

proof fn lemma_be16_of_bytes(b0: u8, b1: u8)
    ensures
        be16(from_be16(b0, b1)) == seq![b0, b1],
{
    let x = from_be16(b0, b1);
    assert(b0 * 256 + b1 < 0x1_0000) by (nonlinear_arith)
        requires
            b0 < 256,
            b1 < 256,
    ;
    assert(x / 256 == b0 && x % 256 == b1) by (nonlinear_arith)
        requires
            x == b0 * 256 + b1,
            b1 < 256,
            b0 < 256,
    ;
    assert(be16(x) =~= seq![b0, b1]);
}

proof fn lemma_be32_roundtrip(x: u32)
    ensures
        from_be32(be32(x)[0], be32(x)[1], be32(x)[2], be32(x)[3]) == x,
{
    let b0 = x / 0x100_0000;
    let b1 = (x / 0x1_0000) % 256;
    let b2 = (x / 256) % 256;
    let b3 = x % 256;
    assert(b0 * 0x100_0000 + b1 * 0x1_0000 + b2 * 256 + b3 == x) by (nonlinear_arith)
        requires
            b0 == x / 0x100_0000,
            b1 == (x / 0x1_0000) % 256,
            b2 == (x / 256) % 256,
            b3 == x % 256,
            x < 0x1_0000_0000,
    ;
    assert(b0 < 256) by (nonlinear_arith)
        requires
            b0 == x / 0x100_0000,
            x < 0x1_0000_0000,
    ;
}

proof fn lemma_be32_of_bytes(b0: u8, b1: u8, b2: u8, b3: u8)
    ensures
        be32(from_be32(b0, b1, b2, b3)) == seq![b0, b1, b2, b3],
{
    let v = b0 * 0x100_0000 + b1 * 0x1_0000 + b2 * 256 + b3;
    assert(v < 0x1_0000_0000 && v / 0x100_0000 == b0 && (v / 0x1_0000) % 256 == b1 && (v / 256)
        % 256 == b2 && v % 256 == b3) by (nonlinear_arith)
        requires
            v == b0 * 0x100_0000 + b1 * 0x1_0000 + b2 * 256 + b3,
            b0 < 256,
            b1 < 256,
            b2 < 256,
            b3 < 256,
    ;
    assert(be32(from_be32(b0, b1, b2, b3)) =~= seq![b0, b1, b2, b3]);
}

/// Decoding an encoded packet gives its fields back (the minor version
/// being kept to its low 4 bits, as the wire holds only those), for every
/// packet whose encoding fits in [`MAX_PACKET_LEN`] bytes.
pub proof fn lemma_decode_encode(p: PacketView)
    requires
        p.payload.len() + HEADER_LEN <= MAX_PACKET_LEN,
    ensures
        spec_decode(p.encoding()) == Ok::<PacketView, PacketError>(
            PacketView { version_minor: p.version_minor % 16, ..p },
        ),
{
    let b = p.encoding();
    assert(b.len() == HEADER_LEN + p.payload.len());
    assert(b[0] == MAGIC);
    assert(b[1] == 16 + p.version_minor % 16);
    assert(b[2] == p.flags.spec_byte());
    assert(b[3] == p.payload_type.spec_code());
    lemma_be16_roundtrip(p.seq);
    lemma_be32_roundtrip(p.timestamp);
    lemma_be16_roundtrip(p.ssrc16);
    assert(b[4] == be16(p.seq)[0] && b[5] == be16(p.seq)[1]);
    assert(b[6] == be32(p.timestamp)[0] && b[7] == be32(p.timestamp)[1]);
    assert(b[8] == be32(p.timestamp)[2] && b[9] == be32(p.timestamp)[3]);
    assert(b[10] == be16(p.ssrc16)[0] && b[11] == be16(p.ssrc16)[1]);
    assert(b.subrange(HEADER_LEN as int, b.len() as int) =~= p.payload);
    assert(Flags::spec_from_byte(p.flags.spec_byte()) == p.flags);
}

/// Re-encoding the fields of a buffer that decodes gives back exactly that
/// buffer: the codec keeps every bit of an accepted packet.
pub proof fn lemma_encode_decode(b: Seq<u8>)
    requires
        spec_decode(b) is Ok,
    ensures
        spec_decode(b)->Ok_0.encoding() == b,
{
    let p = spec_decode(b)->Ok_0;
    lemma_be16_of_bytes(b[4], b[5]);
    lemma_be32_of_bytes(b[6], b[7], b[8], b[9]);
    lemma_be16_of_bytes(b[10], b[11]);
    assert(16 + (b[1] % 16) == b[1]);
    assert(p.flags.spec_byte() == b[2]);
    assert(p.encoding() =~= b);
}

/// `seq_diff` is antisymmetric, except at the half-range point where both
/// directions read as `-32768`.
pub proof fn lemma_seq_diff_antisymmetric(a: u16, b: u16)
    requires
        spec_seq_diff(a, b) != -0x8000,
    ensures
        spec_seq_diff(b, a) == -spec_seq_diff(a, b),
{
}

/// `ts_diff` is antisymmetric, except at the half-range point.
pub proof fn lemma_ts_diff_antisymmetric(a: u32, b: u32)
    requires
        spec_ts_diff(a, b) != -0x8000_0000,
    ensures
        spec_ts_diff(b, a) == -spec_ts_diff(a, b),
{
}

/// A value differs from itself by zero.
pub proof fn lemma_diff_self(s: u16, t: u32)
    ensures
        spec_seq_diff(s, s) == 0,
        spec_ts_diff(t, t) == 0,
{
}

/// Adding the difference back to `b` (modulo the number range) gives `a`.
pub proof fn lemma_diff_adds_back(a: u16, b: u16, x: u32, y: u32)
    ensures
        (b + spec_seq_diff(a, b)) % 0x1_0000 == a,
        (y + spec_ts_diff(x, y)) % 0x1_0000_0000 == x,
{
}

} // verus!
