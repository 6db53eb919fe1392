//! Text building blocks: decimal and hexadecimal rendering of integers.

use vstd::prelude::*;
use vstd::string::StrSliceExecFns;

verus! {

/// The ASCII character for a digit value below 16 (lowercase for 10..15).
pub open spec fn digit_char(d: nat) -> char {
    if d < 10 {
        ((d + 48) as u8) as char
    } else {
        ((d - 10 + 97) as u8) as char
    }
}

/// Decimal rendering of `n`, most significant digit first, no leading zeros.
pub open spec fn decimal(n: nat) -> Seq<char>
    decreases n,
{
    if n < 10 {
        seq![digit_char(n)]
    } else {
        decimal(n / 10).push(digit_char(n % 10))
    }
}

/// The `k` low hexadecimal digits of `v` (lowercase), zero padded, most
/// significant first.
pub open spec fn hex_fixed(v: nat, k: nat) -> Seq<char>
    decreases k,
{
    if k == 0 {
        Seq::empty()
    } else {
        hex_fixed(v / 16, (k - 1) as nat).push(digit_char(v % 16))
    }
}

/// `std`'s `String::push`: appends one character.
#[verifier::external_body]
pub(crate) fn push_char(s: &mut String, c: char)
    ensures
        final(s)@ == old(s)@.push(c),
{
    s.push(c);
}

/// The character of a digit value below 16.
pub fn digit_to_char(d: u8) -> (c: char)
    requires
        d < 16,
    ensures
        c == digit_char(d as nat),
{
    if d < 10 {
        (d + 48) as char
    } else {
        (d - 10 + 97) as char
    }
}

/// Appends the decimal rendering of `n` to `s`.
pub fn push_decimal(s: &mut String, n: u64)
    ensures
        final(s)@ == old(s)@ + decimal(n as nat),
    decreases n,
{
    if n >= 10 {
        push_decimal(s, n / 10);
    }
    let d = (n % 10) as u8;
    let c = digit_to_char(d);
    push_char(s, c);
    proof {
        if n < 10 {
            assert(old(s)@ + decimal(n as nat) =~= old(s)@.push(c));
        } else {
            assert(old(s)@ + decimal(n as nat) =~= (old(s)@ + decimal((n / 10) as nat)).push(c));
        }
    }
}

/// Appends the `k` low hexadecimal digits of `v` to `s`.
pub fn push_hex_fixed(s: &mut String, v: u64, k: u32)
    ensures
        final(s)@ == old(s)@ + hex_fixed(v as nat, k as nat),
    decreases k,
{
    if k == 0 {
        assert(old(s)@ + hex_fixed(v as nat, 0) =~= old(s)@);
        return;
    }
    push_hex_fixed(s, v / 16, k - 1);
    let c = digit_to_char((v % 16) as u8);
    push_char(s, c);
    assert(old(s)@ + hex_fixed(v as nat, k as nat) =~= (old(s)@ + hex_fixed(
        (v / 16) as nat,
        (k - 1) as nat,
    )).push(c));
}

/// A fixed-width hexadecimal rendering has exactly `k` characters, each a
/// lowercase hexadecimal digit.
pub proof fn lemma_hex_fixed_shape(v: nat, k: nat)
    ensures
        hex_fixed(v, k).len() == k,
        forall|i: int|
            0 <= i < k ==> is_lower_hex_char(#[trigger] hex_fixed(v, k)[i]),
    decreases k,
{
    if k > 0 {
        lemma_hex_fixed_shape(v / 16, (k - 1) as nat);
        assert(is_lower_hex_char(digit_char(v % 16)));
    }
}

/// `c` is one of `0-9a-f`.
pub open spec fn is_lower_hex_char(c: char) -> bool {
    ('0' <= c && c <= '9') || ('a' <= c && c <= 'f')
}

/// The ASCII character for a digit value below 16 (uppercase for 10..15).
pub open spec fn upper_digit_char(d: nat) -> char {
    if d < 10 {
        ((d + 48) as u8) as char
    } else {
        ((d - 10 + 65) as u8) as char
    }
}

/// A byte as two uppercase hexadecimal digits, as `{:02X}` prints it.
pub open spec fn hex2_upper(b: u8) -> Seq<char> {
    seq![upper_digit_char((b / 16) as nat), upper_digit_char((b % 16) as nat)]
}

/// Appends the byte `b` as two uppercase hexadecimal digits.
pub fn push_hex2_upper(s: &mut String, b: u8)
    ensures
        final(s)@ == old(s)@ + hex2_upper(b),
{
    let hi = b / 16;
    let lo = b % 16;
    let c_hi = if hi < 10 {
        (hi + 48) as char
    } else {
        (hi - 10 + 65) as char
    };
    let c_lo = if lo < 10 {
        (lo + 48) as char
    } else {
        (lo - 10 + 65) as char
    };
    push_char(s, c_hi);
    push_char(s, c_lo);
    assert(old(s)@ + hex2_upper(b) =~= old(s)@.push(c_hi).push(c_lo));
}

/// `pat` occurs in `s` starting at position `i`.
pub open spec fn occurs_at(s: Seq<char>, pat: Seq<char>, i: int) -> bool {
    0 <= i && i + pat.len() <= s.len() && s.subrange(i, i + pat.len()) == pat
}

/// `pat` occurs somewhere in `s`, as `str::contains` tests it.
pub open spec fn contains_text(s: Seq<char>, pat: Seq<char>) -> bool {
    exists|i: int| occurs_at(s, pat, i)
}

/// Whether `pat` occurs in `s`.
pub fn str_contains(s: &str, pat: &str) -> (b: bool)
    ensures
        b == contains_text(s@, pat@),
{
    let n = s.unicode_len();
    let m = pat.unicode_len();
    if m > n {
        assert forall|i: int| !occurs_at(s@, pat@, i) by {}
        return false;
    }
    if m == 0 {
        assert(occurs_at(s@, pat@, 0)) by {
            assert(s@.subrange(0, 0) =~= pat@);
        }
        return true;
    }
    let last = n - m;
    let mut i: usize = 0;
    while i <= last
        invariant
            n == s@.len(),
            m == pat@.len(),
            1 <= m <= n,
            last == n - m,
            i <= last + 1,
            forall|j: int| 0 <= j < i ==> !occurs_at(s@, pat@, j),
        decreases last + 1 - i,
    {
        let mut k: usize = 0;
        let mut same = true;
        while same && k < m
            invariant
                n == s@.len(),
                m == pat@.len(),
                i <= last,
                last == n - m,
                k <= m,
                same ==> forall|t: int| 0 <= t < k ==> s@[i + t] == pat@[t],
                !same ==> !occurs_at(s@, pat@, i as int),
            decreases m - k + (if same { 1int } else { 0int }),
        {
            let a = s.get_char(i + k);
            let c = pat.get_char(k);
            if a != c {
                same = false;
                assert(s@.subrange(i as int, i + m)[k as int] == a);
            } else {
                k = k + 1;
            }
        }
        if same {
            assert(s@.subrange(i as int, i + m) =~= pat@);
            assert(occurs_at(s@, pat@, i as int));
            return true;
        }
        i = i + 1;
    }
    assert forall|j: int| !occurs_at(s@, pat@, j) by {
        if 0 <= j && j + pat@.len() <= s@.len() {
            assert(j < i);
        }
    }
    false
}

} // verus!
