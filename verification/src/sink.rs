//! Platform-agnostic audio sink interface, and the sample ring the virtual
//! device sinks feed their render callbacks from.
//!
//! The ring holds interleaved stereo 16-bit samples. The caller side expands
//! each mono frame to stereo and pushes it; the device callback pops what it
//! needs and, when the ring runs dry, holds the last left/right pair instead
//! of dropping to zero (a jump to silence clicks).

use vstd::prelude::*;

verus! {

/// Errors reported by an audio sink.
#[derive(Debug, Clone, PartialEq, Eq)]
pub enum SinkError {
    DeviceNotFound(String),
    Unavailable(String),
    Os(String),
    Underrun,
}

impl SinkError {
    /// The message printed for an error.
    pub open spec fn text(&self) -> Seq<char> {
        match self {
            SinkError::DeviceNotFound(s) => "device not found: "@ + s@,
            SinkError::Unavailable(s) => "device unavailable: "@ + s@,
            SinkError::Os(s) => "os error: "@ + s@,
            SinkError::Underrun => "buffer underrun"@,
        }
    }

    /// The printed message, e.g. `device not found: BlackHole 2ch`.
    pub fn to_string(&self) -> (m: String)
        ensures
            m@ == self.text(),
    {
        match self {
            SinkError::DeviceNotFound(s) => {
                proof {
                    reveal_strlit("device not found: ");
                }
                let mut m = String::from_str("device not found: ");
                m.append(s.as_str());
                m
            },
            SinkError::Unavailable(s) => {
                proof {
                    reveal_strlit("device unavailable: ");
                }
                let mut m = String::from_str("device unavailable: ");
                m.append(s.as_str());
                m
            },
            SinkError::Os(s) => {
                proof {
                    reveal_strlit("os error: ");
                }
                let mut m = String::from_str("os error: ");
                m.append(s.as_str());
                m
            },
            SinkError::Underrun => {
                proof {
                    reveal_strlit("buffer underrun");
                }
                String::from_str("buffer underrun")
            },
        }
    }
}

/// Description of the device a sink writes to.
#[derive(Debug, Clone)]
pub struct SinkInfo {
    /// Display name, e.g. "BlackHole 2ch".
    pub name: String,
    /// Platform-stable device ID.
    pub uid: String,
    /// Should be 48000.
    pub sample_rate: u32,
    /// 1 or 2 (a 2ch device gets the mono signal on both channels).
    pub channels: u16,
}

/// A device that the server pipeline writes decoded PCM into.
pub trait AudioSink: Send {
    /// Writes one frame of mono s16 PCM at 48 kHz (duplicated to stereo on
    /// a 2ch device).
    fn write_mono_s16(&mut self, pcm: &[i16]) -> Result<(), SinkError>;

    /// The device this sink writes to.
    fn info(&self) -> &SinkInfo;

    /// At session end, pushes silence so the device does not repeat the last frame.
    fn drain_silence(&mut self, duration_ms: u32);

    /// Number of buffer underruns observed by the sink (0 if not tracked).
    fn underrun_count(&self) -> (n: u64)
        default_ensures
            n == 0,
    {
        0
    }
}

/// `n` is a power of two.
pub open spec fn is_power_of_two(n: nat) -> bool
    decreases n,
{
    if n == 1 {
        true
    } else if n == 0 || n % 2 == 1 {
        false
    } else {
        is_power_of_two(n / 2)
    }
}

/// A bounded FIFO of 16-bit samples.
///
/// Capacity is in samples and is a power of two.
pub struct Ring {
    buf: Vec<i16>,
    /// Index of the oldest sample.
    head: usize,
    /// Number of samples held.
    len: usize,
}

impl Ring {
    /// The number of samples the ring can hold.
    pub closed spec fn capacity(&self) -> nat {
        self.buf@.len()
    }

    /// The samples held, oldest first.
    pub closed spec fn contents(&self) -> Seq<i16> {
        Seq::new(self.len as nat, |i: int| self.buf@[(self.head + i) % (self.buf@.len() as int)])
    }

    /// The ring's invariant.
    pub closed spec fn wf(&self) -> bool {
        &&& self.buf@.len() > 0
        &&& is_power_of_two(self.buf@.len())
        &&& self.buf@.len() <= isize::MAX / 2
        &&& self.head < self.buf@.len()
        &&& self.len <= self.buf@.len()
    }

    /// Creates an empty ring holding up to `capacity` samples.
    pub fn new(capacity: usize) -> (r: Ring)
        requires
            is_power_of_two(capacity as nat),
            capacity <= isize::MAX / 2,
        ensures
            r.wf(),
            r.capacity() == capacity,
            r.contents() == Seq::<i16>::empty(),
    {
        let buf: Vec<i16> = vec![0i16; capacity];
        let r = Ring { buf, head: 0, len: 0 };
        assert(r.contents() =~= Seq::<i16>::empty());
        r
    }

    /// Free space, in samples.
    pub fn available_write(&self) -> (n: usize)
        requires
            self.wf(),
        ensures
            n == self.capacity() - self.contents().len(),
    {
        self.buf.len() - self.len
    }

    /// Samples ready to read.
    pub fn available_read(&self) -> (n: usize)
        requires
            self.wf(),
        ensures
            n == self.contents().len(),
    {
        self.len
    }

    /// Appends as many samples of `data` as fit; returns how many were written.
    pub fn push(&mut self, data: &[i16]) -> (n: usize)
        requires
            old(self).wf(),
        ensures
            final(self).wf(),
            final(self).capacity() == old(self).capacity(),
            n == (if data@.len() < old(self).capacity() - old(self).contents().len() {
                data@.len()
            } else {
                (old(self).capacity() - old(self).contents().len()) as nat
            }),
            final(self).contents() == old(self).contents() + data@.subrange(0, n as int),
    {
        let cap = self.buf.len();
        let space = cap - self.len;
        let n = if data.len() < space {
            data.len()
        } else {
            space
        };
        let ghost old_contents = self.contents();
        let ghost capi = cap as int;
        let start = (self.head + self.len) % cap;
        let mut i: usize = 0;
        while i < n
            invariant
                self.wf(),
                self.buf@.len() == cap,
                cap == capi,
                space == cap - self.len,
                n <= space,
                n <= data@.len(),
                i <= n,
                start == (self.head + self.len) % capi,
                self.head == old(self).head,
                self.len == old(self).len,
                forall|j: int|
                    0 <= j < self.len ==> #[trigger] self.buf@[(self.head + j) % capi]
                        == old_contents[j],
                forall|j: int|
                    0 <= j < i ==> #[trigger] self.buf@[(self.head + self.len + j) % capi]
                        == data@[j],
            decreases n - i,
        {
            let idx = if start + i < cap {
                start + i
            } else {
                start + i - cap
            };
            proof {
                lemma_mod_small(self.head + self.len, capi);
                lemma_mod_small(self.head + self.len + i, capi);
            }
            assert(idx == (self.head + self.len + i) % capi);
            let ghost prev = self.buf@;
            self.buf[idx] = data[i];
            proof {
                assert forall|j: int| 0 <= j < self.len implies #[trigger] self.buf@[(self.head
                    + j) % capi] == old_contents[j] by {
                    lemma_mod_distinct(self.head as int, j, self.len + i, capi);
                }
                assert forall|j: int| 0 <= j < i + 1 implies #[trigger] self.buf@[(self.head
                    + self.len + j) % capi] == data@[j] by {
                    if j < i {
                        lemma_mod_distinct(self.head as int, self.len + j, self.len + i, capi);
                    }
                }
            }
            i = i + 1;
        }
        self.len = self.len + n;
        assert(self.contents() =~= old_contents + data@.subrange(0, n as int)) by {
            assert forall|j: int| 0 <= j < self.len implies #[trigger] self.contents()[j] == (
            old_contents + data@.subrange(0, n as int))[j] by {
                if j >= old(self).len {
                    let k = j - old(self).len;
                    assert(self.buf@[(self.head + old(self).len + k) % capi] == data@[k]);
                }
            }
        }
        n
    }

    /// Moves up to `out.len()` of the oldest samples into the front of
    /// `out`; returns how many were read. The rest of `out` is untouched.
    pub fn pop(&mut self, out: &mut [i16]) -> (n: usize)
        requires
            old(self).wf(),
        ensures
            final(self).wf(),
            final(self).capacity() == old(self).capacity(),
            n == (if old(out)@.len() < old(self).contents().len() {
                old(out)@.len()
            } else {
                old(self).contents().len()
            }),
            final(out)@ == old(self).contents().subrange(0, n as int) + old(out)@.subrange(
                n as int,
                old(out)@.len() as int,
            ),
            final(self).contents() == old(self).contents().subrange(
                n as int,
                old(self).contents().len() as int,
            ),
    {
        let cap = self.buf.len();
        let n = if out.len() < self.len {
            out.len()
        } else {
            self.len
        };
        let ghost capi = cap as int;
        let ghost contents = self.contents();
        let mut i: usize = 0;
        while i < n
            invariant
                self.wf(),
                self.buf@.len() == cap,
                cap == capi,
                contents == self.contents(),
                n <= self.len,
                n <= out@.len(),
                out@.len() == old(out)@.len(),
                i <= n,
                forall|j: int| 0 <= j < i ==> #[trigger] out@[j] == contents[j],
                forall|j: int| i <= j < out@.len() ==> #[trigger] out@[j] == old(out)@[j],
            decreases n - i,
        {
            let idx = if self.head + i < cap {
                self.head + i
            } else {
                self.head + i - cap
            };
            proof {
                lemma_mod_small(self.head + i, capi);
            }
            assert(idx == (self.head + i) % capi);
            out[i] = self.buf[idx];
            i = i + 1;
        }
        let ghost old_head = self.head;
        self.head = if self.head + n < cap {
            self.head + n
        } else {
            self.head + n - cap
        };
        self.len = self.len - n;
        proof {
            lemma_mod_small(old_head + n, capi);
            assert(out@ =~= contents.subrange(0, n as int) + old(out)@.subrange(
                n as int,
                old(out)@.len() as int,
            ));
            assert forall|j: int| 0 <= j < self.len implies #[trigger] self.contents()[j]
                == contents[n + j] by {
                lemma_mod_small(self.head + j, capi);
                lemma_mod_small(old_head + n + j, capi);
            }
            assert(self.contents() =~= contents.subrange(n as int, contents.len() as int));
        }
        n
    }
}

/// Samples held in the ring below which a write tops the ring up
/// (30 ms of stereo audio at 48 kHz).
pub const TOPUP_TARGET_SAMPLES: usize = 2880;

/// Most repetitions of the last frame one write adds when topping up.
pub const MAX_TOPUPS: u32 = 10;

/// A mono signal with every sample duplicated to left and right.
pub open spec fn stereo_of(pcm: Seq<i16>) -> Seq<i16> {
    Seq::new(2 * pcm.len(), |i: int| pcm[i / 2])
}

/// What pushing `data` into a ring holding `contents` with room for `cap`
/// samples leaves in it.
pub open spec fn after_push(contents: Seq<i16>, data: Seq<i16>, cap: nat) -> Seq<i16> {
    let room = cap - contents.len();
    if data.len() < room {
        contents + data
    } else {
        contents + data.subrange(0, room)
    }
}

/// The ring contents after topping up: while fewer than
/// `TOPUP_TARGET_SAMPLES` samples are held and fewer than `k` repetitions
/// were made, push `frame` again.
pub open spec fn topped_up(contents: Seq<i16>, frame: Seq<i16>, cap: nat, k: nat) -> Seq<i16>
    decreases k,
{
    if k == 0 || contents.len() >= TOPUP_TARGET_SAMPLES {
        contents
    } else {
        topped_up(after_push(contents, frame, cap), frame, cap, (k - 1) as nat)
    }
}

/// Topping up never loses samples already held, and leaves the ring holding
/// at least `TOPUP_TARGET_SAMPLES` (30 ms), or full, or holding the frame
/// `k` more times when that is less.
pub proof fn lemma_topup_level(contents: Seq<i16>, frame: Seq<i16>, cap: nat, k: nat)
    requires
        contents.len() <= cap,
    ensures
        topped_up(contents, frame, cap, k).len() <= cap,
        topped_up(contents, frame, cap, k).subrange(0, contents.len() as int) == contents,
        topped_up(contents, frame, cap, k).len() >= TOPUP_TARGET_SAMPLES
            || topped_up(contents, frame, cap, k).len() == cap
            || topped_up(contents, frame, cap, k).len() == contents.len() + k * frame.len(),
    decreases k,
{
    let r = topped_up(contents, frame, cap, k);
    if k == 0 || contents.len() >= TOPUP_TARGET_SAMPLES {
        assert(r.subrange(0, contents.len() as int) =~= contents);
    } else {
        let next = after_push(contents, frame, cap);
        assert(next.subrange(0, contents.len() as int) =~= contents);
        lemma_topup_level(next, frame, cap, (k - 1) as nat);
        assert(r.subrange(0, contents.len() as int) =~= next.subrange(0, next.len() as int).subrange(
            0,
            contents.len() as int,
        ));
        assert(r.subrange(0, next.len() as int).subrange(0, contents.len() as int)
            =~= r.subrange(0, contents.len() as int));
        if next.len() < cap {
            assert(next.len() == contents.len() + frame.len());
            assert((k - 1) * frame.len() + frame.len() == k * frame.len()) by (nonlinear_arith)
                requires
                    k >= 1,
            ;
        }
    }
}

/// Topping up adds only copies of the frame: every sample after the ones
/// held before is the frame repeated from its start, so no silence or
/// other audio enters the ring.
pub proof fn lemma_topup_repeats_frame(contents: Seq<i16>, frame: Seq<i16>, cap: nat, k: nat)
    requires
        contents.len() <= cap,
        frame.len() > 0,
    ensures
        forall|i: int|
            contents.len() <= i < topped_up(contents, frame, cap, k).len() ==> #[trigger] topped_up(
                contents,
                frame,
                cap,
                k,
            )[i] == frame[(i - contents.len()) % (frame.len() as int)],
    decreases k,
{
    let r = topped_up(contents, frame, cap, k);
    if !(k == 0 || contents.len() >= TOPUP_TARGET_SAMPLES) {
        let next = after_push(contents, frame, cap);
        let cl = contents.len() as int;
        let f = frame.len() as int;
        lemma_topup_repeats_frame(next, frame, cap, (k - 1) as nat);
        lemma_topup_level(next, frame, cap, (k - 1) as nat);
        assert(r == topped_up(next, frame, cap, (k - 1) as nat));
        assert forall|i: int| cl <= i < r.len() implies #[trigger] r[i] == frame[(i - cl) % f] by {
            if i < next.len() {
                assert(r.subrange(0, next.len() as int)[i] == r[i]);
                assert(next[i] == frame[i - cl]);
                vstd::arithmetic::div_mod::lemma_small_mod((i - cl) as nat, f as nat);
            } else {
                assert(next.len() == cl + f);
                let x = i - cl;
                vstd::arithmetic::div_mod::lemma_fundamental_div_mod(x - f, f);
                let q = (x - f) / f;
                let rem = (x - f) % f;
                assert(x == (q + 1) * f + rem) by (nonlinear_arith)
                    requires
                        x - f == f * q + rem,
                ;
                vstd::arithmetic::div_mod::lemma_mod_bound(x - f, f);
                vstd::arithmetic::div_mod::lemma_fundamental_div_mod_converse(x, f, q + 1, rem);
            }
        }
    }
}

/// What a device callback reads into a buffer of `len` samples from a ring
/// holding `contents` (interleaved stereo): the held samples, then, if they
/// ran out, the last left/right pair (or silence) repeated.
pub open spec fn held_fill(contents: Seq<i16>, len: nat) -> Seq<i16> {
    let got = if len < contents.len() {
        len
    } else {
        contents.len()
    };
    let l = if got >= 2 {
        contents[got - 2]
    } else {
        0i16
    };
    let r = if got >= 2 {
        contents[got - 1]
    } else {
        0i16
    };
    Seq::new(
        len,
        |i: int|
            if i < got {
                contents[i]
            } else if (i - got) % 2 == 0 {
                l
            } else {
                r
            },
    )
}

/// What a mono device callback reads into a buffer of `len` samples: the
/// left channel of up to `2 * len` held stereo samples, then the last left
/// sample read (or silence) repeated.
pub open spec fn mono_fill(contents: Seq<i16>, len: nat) -> Seq<i16> {
    let got = if 2 * len < contents.len() {
        2 * len
    } else {
        contents.len()
    };
    let last = if got >= 2 {
        contents[got - 2]
    } else {
        0i16
    };
    Seq::new(len, |i: int| if 2 * i < got { contents[2 * i] } else { last })
}

/// Writes one mono frame: expands it to stereo into `stereo` (kept for the
/// next top-up), pushes it, and fails with `Underrun` when the ring cannot
/// take all of it. Otherwise, while the ring holds fewer than 30 ms of
/// audio, pushes the same frame again, at most `MAX_TOPUPS` times, so that
/// the device callback does not run dry between writes.
pub fn write_mono_frame(ring: &mut Ring, stereo: &mut Vec<i16>, pcm: &[i16]) -> (r: Result<
    (),
    SinkError,
>)
    requires
        old(ring).wf(),
        pcm@.len() <= isize::MAX / 2,
    ensures
        final(ring).wf(),
        final(ring).capacity() == old(ring).capacity(),
        final(stereo)@ == stereo_of(pcm@),
        ({
            let first = after_push(old(ring).contents(), stereo_of(pcm@), old(ring).capacity());
            let fits = 2 * pcm@.len() <= old(ring).capacity() - old(ring).contents().len();
            &&& !fits ==> r == Err::<(), SinkError>(SinkError::Underrun) && final(ring).contents()
                == first
            &&& fits ==> r is Ok && final(ring).contents() == topped_up(
                first,
                stereo_of(pcm@),
                old(ring).capacity(),
                MAX_TOPUPS as nat,
            )
        }),
{
    stereo.clear();
    let mut i: usize = 0;
    while i < pcm.len()
        invariant
            i <= pcm@.len(),
            pcm@.len() <= isize::MAX / 2,
            stereo@ == stereo_of(pcm@.subrange(0, i as int)),
        decreases pcm@.len() - i,
    {
        let s = pcm[i];
        stereo.push(s);
        stereo.push(s);
        i = i + 1;
        assert(stereo@ =~= stereo_of(pcm@.subrange(0, i as int)));
    }
    assert(pcm@.subrange(0, pcm@.len() as int) =~= pcm@);
    let ghost frame = stereo@;
    let ghost cap = ring.capacity();
    let written = ring.push(stereo.as_slice());
    assert(ring.contents() =~= after_push(old(ring).contents(), frame, cap));
    if written < stereo.len() {
        return Err(SinkError::Underrun);
    }
    let ghost first = ring.contents();
    let mut topups: u32 = 0;
    while ring.available_read() < TOPUP_TARGET_SAMPLES && topups < MAX_TOPUPS
        invariant
            ring.wf(),
            ring.capacity() == cap,
            stereo@ == frame,
            topups <= MAX_TOPUPS,
            topped_up(first, frame, cap, MAX_TOPUPS as nat) == topped_up(
                ring.contents(),
                frame,
                cap,
                (MAX_TOPUPS - topups) as nat,
            ),
        decreases MAX_TOPUPS - topups,
    {
        let ghost before = ring.contents();
        let _ = ring.push(stereo.as_slice());
        assert(ring.contents() =~= after_push(before, frame, cap));
        topups = topups + 1;
    }
    Ok(())
}

/// Fills a device buffer of interleaved stereo samples from the ring. When
/// the ring holds too few samples, the rest of the buffer repeats the last
/// left/right pair read (silence if fewer than two were read) instead of
/// dropping to zero; returns `true` for such an underrun.
pub fn fill_held(ring: &mut Ring, out: &mut [i16]) -> (underrun: bool)
    requires
        old(ring).wf(),
        old(out)@.len() <= isize::MAX,
    ensures
        final(ring).wf(),
        final(ring).capacity() == old(ring).capacity(),
        final(out)@ == held_fill(old(ring).contents(), old(out)@.len()),
        underrun <==> old(out)@.len() > old(ring).contents().len(),
        final(ring).contents() == old(ring).contents().subrange(
            (if old(out)@.len() < old(ring).contents().len() {
                old(out)@.len()
            } else {
                old(ring).contents().len()
            }) as int,
            old(ring).contents().len() as int,
        ),
{
    let ghost contents = ring.contents();
    let len = out.len();
    let got = ring.pop(out);
    if got < len {
        let (last_l, last_r) = if got >= 2 {
            (out[got - 2], out[got - 1])
        } else {
            (0i16, 0i16)
        };
        let mut i = got;
        while i < len
            invariant
                got <= i <= len + 1,
                len <= isize::MAX,
                got < len,
                out@.len() == len,
                got == contents.len(),
                (i - got) % 2 == 0,
                last_l == (if got >= 2 { contents[got - 2] } else { 0i16 }),
                last_r == (if got >= 2 { contents[got - 1] } else { 0i16 }),
                forall|j: int| 0 <= j < got ==> #[trigger] out@[j] == contents[j],
                forall|j: int|
                    got <= j < i && j < len ==> #[trigger] out@[j] == held_fill(contents, len as nat)[j],
            decreases len + 1 - i,
        {
            out[i] = last_l;
            if i + 1 < len {
                out[i + 1] = last_r;
            }
            i = i + 2;
        }
        assert(out@ =~= held_fill(contents, len as nat));
        return true;
    }
    assert(out@ =~= held_fill(contents, len as nat));
    false
}

/// Fills a mono device buffer from the ring: takes up to twice its length
/// of stereo samples and keeps the left channel; where they run out, the
/// last left sample read (silence if none) is repeated. Returns `true` when
/// fewer stereo samples than needed were held.
pub fn fill_mono(ring: &mut Ring, out: &mut [i16]) -> (underrun: bool)
    requires
        old(ring).wf(),
        old(out)@.len() <= isize::MAX / 4,
    ensures
        final(ring).wf(),
        final(ring).capacity() == old(ring).capacity(),
        final(out)@ == mono_fill(old(ring).contents(), old(out)@.len()),
        underrun <==> 2 * old(out)@.len() > old(ring).contents().len(),
        final(ring).contents() == old(ring).contents().subrange(
            (if 2 * old(out)@.len() < old(ring).contents().len() {
                2 * old(out)@.len()
            } else {
                old(ring).contents().len()
            }) as int,
            old(ring).contents().len() as int,
        ),
{
    let ghost contents = ring.contents();
    let needed = out.len();
    let mut tmp: Vec<i16> = vec![0i16; needed * 2];
    let got = ring.pop(tmp.as_mut_slice());
    let last = if got >= 2 {
        tmp[got - 2]
    } else {
        0i16
    };
    let mut i: usize = 0;
    while i < needed
        invariant
            i <= needed,
            needed <= isize::MAX / 4,
            needed == out@.len(),
            tmp@.len() == 2 * needed,
            got <= 2 * needed,
            got <= contents.len(),
            got == (if 2 * needed < contents.len() { 2 * needed } else { contents.len() as int }),
            forall|j: int| 0 <= j < got ==> #[trigger] tmp@[j] == contents[j],
            last == (if got >= 2 { contents[got - 2] } else { 0i16 }),
            forall|j: int| 0 <= j < i ==> #[trigger] out@[j] == mono_fill(contents, needed as nat)[j],
        decreases needed - i,
    {
        out[i] = if i * 2 < got {
            tmp[i * 2]
        } else {
            last
        };
        i = i + 1;
    }
    assert(out@ =~= mono_fill(contents, needed as nat));
    got < needed * 2
}

/// Number of stereo samples in `duration_ms` of audio at 48 kHz.
pub open spec fn silence_samples(duration_ms: u32) -> nat {
    ((48_000 * duration_ms / 1000) * 2) as nat
}

/// Pushes `duration_ms` of stereo silence into the ring (as much as fits).
pub fn push_silence(ring: &mut Ring, duration_ms: u32)
    requires
        old(ring).wf(),
        48_000 * duration_ms <= u32::MAX,
    ensures
        final(ring).wf(),
        final(ring).capacity() == old(ring).capacity(),
        final(ring).contents() == after_push(
            old(ring).contents(),
            Seq::new(silence_samples(duration_ms), |i: int| 0i16),
            old(ring).capacity(),
        ),
{
    let samples_mono = (48_000u32 * duration_ms / 1_000) as usize;
    let stereo_samples = samples_mono * 2;
    let silence: Vec<i16> = vec![0i16; stereo_samples];
    assert(silence@ =~= Seq::new(silence_samples(duration_ms), |i: int| 0i16));
    let ghost cap = ring.capacity();
    let _ = ring.push(silence.as_slice());
    assert(ring.contents() =~= after_push(
        old(ring).contents(),
        Seq::new(silence_samples(duration_ms), |i: int| 0i16),
        cap,
    ));
}

/// Reduction of a value below three times the modulus.
proof fn lemma_mod_small(x: int, m: int)
    requires
        0 < m,
        0 <= x < 3 * m,
    ensures
        x % m == (if x < m {
            x
        } else if x < 2 * m {
            x - m
        } else {
            x - 2 * m
        }),
{
    if x < m {
        vstd::arithmetic::div_mod::lemma_fundamental_div_mod_converse(x, m, 0, x);
    } else if x < 2 * m {
        vstd::arithmetic::div_mod::lemma_fundamental_div_mod_converse(x, m, 1, x - m);
    } else {
        vstd::arithmetic::div_mod::lemma_fundamental_div_mod_converse(x, m, 2, x - 2 * m);
    }
}

/// Offsets below the capacity land on distinct slots.
proof fn lemma_mod_distinct(h: int, a: int, b: int, cap: int)
    requires
        0 <= h < cap,
        0 <= a < b < cap,
    ensures
        (h + a) % cap != (h + b) % cap,
{
    lemma_mod_small(h + a, cap);
    lemma_mod_small(h + b, cap);
}

} // verus!
