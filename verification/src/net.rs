//! Recognition of private LAN IPv4 addresses.

use vstd::prelude::*;
use vstd::string::StrSliceExecFns;

verus! {

/// The fields of `s` between `.` separators (`n` dots give `n + 1`
/// fields, possibly empty), built left to right.
pub open spec fn dot_fields(s: Seq<char>) -> Seq<Seq<char>>
    decreases s.len(),
{
    if s.len() == 0 {
        seq![Seq::empty()]
    } else {
        let f = dot_fields(s.drop_last());
        if s.last() == '.' {
            f.push(Seq::empty())
        } else {
            f.update(f.len() - 1, f.last().push(s.last()))
        }
    }
}

/// `c` is one of `0-9`.
pub open spec fn is_digit(c: char) -> bool {
    '0' <= c && c <= '9'
}

/// The value of a string of decimal digits.
pub open spec fn digits_value(d: Seq<char>) -> nat
    decreases d.len(),
{
    if d.len() == 0 {
        0
    } else {
        digits_value(d.drop_last()) * 10 + ((d.last() as nat) - 48) as nat
    }
}

/// `s` without one leading `+`, if it has one.
pub open spec fn unsigned_digits(s: Seq<char>) -> Seq<char> {
    if s.len() > 0 && s[0] == '+' {
        s.drop_first()
    } else {
        s
    }
}

/// Every character of `d` is a decimal digit.
pub open spec fn all_digits(d: Seq<char>) -> bool {
    forall|i: int| 0 <= i < d.len() ==> is_digit(#[trigger] d[i])
}

/// What `u8::from_str` gives for `s`: an optional `+`, then one or more
/// decimal digits whose value is at most 255.
pub open spec fn parse_u8(s: Seq<char>) -> Option<u8> {
    let d = unsigned_digits(s);
    if d.len() >= 1 && all_digits(d) && digits_value(d) <= 255 {
        Some(digits_value(d) as u8)
    } else {
        None
    }
}

/// `ip` is a dotted IPv4 address in one of the RFC 1918 private ranges:
/// 10.0.0.0/8, 172.16.0.0/12 or 192.168.0.0/16.
pub open spec fn usable_lan_ip(ip: Seq<char>) -> bool {
    let f = dot_fields(ip);
    &&& f.len() == 4
    &&& forall|i: int| 0 <= i < 4 ==> (#[trigger] parse_u8(f[i])) is Some
    &&& {
        let a = parse_u8(f[0])->0;
        let b = parse_u8(f[1])->0;
        ||| a == 10
        ||| (a == 172 && 16 <= b < 32)
        ||| (a == 192 && b == 168)
    }
}

/// Parses one field the way `u8::from_str` does.
fn parse_field(f: &Vec<char>) -> (r: Option<u8>)
    ensures
        r == parse_u8(f@),
{
    let n = f.len();
    let start: usize = if n > 0 && f[0] == '+' {
        1
    } else {
        0
    };
    let ghost d = unsigned_digits(f@);
    assert(d =~= f@.subrange(start as int, n as int));
    if start >= n {
        return None;
    }
    // Saturated running value: min(value of the digits so far, 256).
    let mut acc: u32 = 0;
    let mut i = start;
    while i < n
        invariant
            start <= i <= n,
            n == f@.len(),
            d == f@.subrange(start as int, n as int),
            d == unsigned_digits(f@),
            forall|j: int| start <= j < i ==> is_digit(#[trigger] f@[j]),
            acc as nat == (if digits_value(f@.subrange(start as int, i as int)) < 256 {
                digits_value(f@.subrange(start as int, i as int))
            } else {
                256
            }),
        decreases n - i,
    {
        let c = f[i];
        if !('0' <= c && c <= '9') {
            // The field holds a character that is not a digit.
            assert(!is_digit(d[i - start]));
            return None;
        }
        let digit = (c as u32) - 48;
        let next = acc * 10 + digit;
        acc = if next < 256 {
            next
        } else {
            256
        };
        proof {
            let p = f@.subrange(start as int, i as int);
            let q = f@.subrange(start as int, i + 1);
            assert(q.drop_last() =~= p);
            assert(q.last() == c);
        }
        i = i + 1;
    }
    assert forall|j: int| 0 <= j < d.len() implies is_digit(#[trigger] d[j]) by {
        assert(d[j] == f@[j + start]);
    }
    assert(f@.subrange(start as int, n as int) =~= d);
    if acc <= 255 {
        Some(acc as u8)
    } else {
        None
    }
}

/// Accepts only RFC 1918 private IPv4 addresses (10/8, 172.16/12,
/// 192.168/16); rejects anything else, including loopback, link-local,
/// benchmarking and public addresses (which would mean a VPN or proxy
/// interface picked up the route).
pub fn is_usable_lan_ip(ip: &str) -> (b: bool)
    ensures
        b == usable_lan_ip(ip@),
{
    // Split into the dot-separated fields.
    let n = ip.unicode_len();
    let mut fields: Vec<Vec<char>> = Vec::new();
    fields.push(Vec::new());
    let mut i: usize = 0;
    while i < n
        invariant
            n == ip@.len(),
            i <= n,
            fields@.len() >= 1,
            fields@.len() == dot_fields(ip@.subrange(0, i as int)).len(),
            forall|j: int|
                0 <= j < fields@.len() ==> #[trigger] fields@[j]@ == dot_fields(
                    ip@.subrange(0, i as int),
                )[j],
        decreases n - i,
    {
        let c = ip.get_char(i);
        let ghost prev = ip@.subrange(0, i as int);
        let ghost next = ip@.subrange(0, i + 1);
        assert(next.drop_last() =~= prev);
        assert(next.last() == c);
        if c == '.' {
            fields.push(Vec::new());
        } else {
            let last = fields.len() - 1;
            let mut cur = fields.remove(last);
            cur.push(c);
            fields.push(cur);
        }
        i = i + 1;
        proof {
            assert forall|j: int| 0 <= j < fields@.len() implies #[trigger] fields@[j]@
                == dot_fields(next)[j] by {
            }
        }
    }
    assert(ip@.subrange(0, n as int) =~= ip@);
    if fields.len() != 4 {
        return false;
    }
    let a = match parse_field(&fields[0]) {
        Some(v) => v,
        None => return false,
    };
    let b = match parse_field(&fields[1]) {
        Some(v) => v,
        None => return false,
    };
    match parse_field(&fields[2]) {
        Some(_) => {},
        None => return false,
    }
    match parse_field(&fields[3]) {
        Some(_) => {},
        None => return false,
    }
    proof {
        let f = dot_fields(ip@);
        assert(forall|i: int| 0 <= i < 4 ==> (#[trigger] parse_u8(f[i])) is Some) by {
            assert(parse_u8(f[0]) is Some);
            assert(parse_u8(f[1]) is Some);
            assert(parse_u8(f[2]) is Some);
            assert(parse_u8(f[3]) is Some);
        }
    }
    // 10.0.0.0/8
    if a == 10 {
        return true;
    }
    // 172.16.0.0/12
    if a == 172 && 16 <= b && b < 32 {
        return true;
    }
    // 192.168.0.0/16
    if a == 192 && b == 168 {
        return true;
    }
    false
}

} // verus!
