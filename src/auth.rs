//! The authentication header of a request: `<address>:<signature>`, each part
//! hex-encoded with an optional `0x` prefix.
use vstd::prelude::*;
use crate::error::{CommitmentError, ParamError};
use crate::signing::{Address, SignatureBytes};

verus! {

/// The value of one hex digit.
pub open spec fn hex_val(c: u8) -> Option<u8> {
    if 48 <= c <= 57 {
        Some((c - 48) as u8)
    } else if 97 <= c <= 102 {
        Some((c - 87) as u8)
    } else if 65 <= c <= 70 {
        Some((c - 55) as u8)
    } else {
        None
    }
}

/// Every byte of `s` is a hex digit.
pub open spec fn all_hex(s: Seq<u8>) -> bool {
    forall|i: int| 0 <= i < s.len() ==> (#[trigger] hex_val(s[i])) is Some
}

/// The bytes that a string of hex digits spells, two digits per byte.
pub open spec fn hex_decoded(s: Seq<u8>) -> Seq<u8> {
    Seq::new(s.len() / 2, |i: int| (hex_val(s[2 * i]).unwrap() * 16 + hex_val(s[2 * i + 1]).unwrap()) as u8)
}

/// `s` without a leading `0x` or `0X`.
pub open spec fn strip_0x(s: Seq<u8>) -> Seq<u8> {
    if s.len() >= 2 && s[0] == 48 && (s[1] == 120 || s[1] == 88) {
        s.subrange(2, s.len() as int)
    } else {
        s
    }
}

/// The position of the first `:` in `s` from `k` on.
pub open spec fn first_colon(s: Seq<u8>, k: int) -> Option<int>
    decreases s.len() - k,
{
    if k < 0 || k >= s.len() {
        None
    } else if s[k] == 58 {
        Some(k)
    } else {
        first_colon(s, k + 1)
    }
}

/// The hex digits of `part` decode to exactly `n` bytes.
pub open spec fn hex_of_len(part: Seq<u8>, n: nat) -> bool {
    strip_0x(part).len() == 2 * n && all_hex(strip_0x(part))
}

/// The address and signature bytes that a header spells, if it is well formed:
/// 20 bytes before the first `:` and 65 after it.
pub open spec fn auth_fields(h: Seq<u8>) -> Option<(Seq<u8>, Seq<u8>)> {
    match first_colon(h, 0) {
        Some(c) => {
            let a = h.subrange(0, c);
            let s = h.subrange(c + 1, h.len() as int);
            if hex_of_len(a, 20) && hex_of_len(s, 65) {
                Some((hex_decoded(strip_0x(a)), hex_decoded(strip_0x(s))))
            } else {
                None
            }
        },
        None => None,
    }
}

/// The value of a hex digit.
fn hex_digit(c: u8) -> (r: Option<u8>)
    ensures
        r == hex_val(c),
{
    if 48 <= c && c <= 57 {
        Some(c - 48)
    } else if 97 <= c && c <= 102 {
        Some(c - 87)
    } else if 65 <= c && c <= 70 {
        Some(c - 55)
    } else {
        None
    }
}

/// Where the digits of `h[start..end]` begin, past an optional `0x`.
fn digits_start(h: &[u8], start: usize, end: usize) -> (r: usize)
    requires
        start <= end <= h@.len(),
    ensures
        start <= r <= end,
        h@.subrange(r as int, end as int) == strip_0x(h@.subrange(start as int, end as int)),
{
    if end - start >= 2 && h[start] == 48 && (h[start + 1] == 120 || h[start + 1] == 88) {
        assert(h@.subrange(start + 2, end as int) =~= h@.subrange(start as int, end as int).subrange(2, end - start));
        start + 2
    } else {
        start
    }
}

/// Decodes the `2 * N` hex digits of `h` from `start` on.
fn decode_hex_at<const N: usize>(h: &[u8], start: usize) -> (r: Option<[u8; N]>)
    requires
        start + 2 * N <= h@.len(),
    ensures
        match r {
            Some(a) => all_hex(h@.subrange(start as int, start + 2 * N)) && a@ == hex_decoded(
                h@.subrange(start as int, start + 2 * N),
            ),
            None => !all_hex(h@.subrange(start as int, start + 2 * N)),
        },
{
    let ghost part = h@.subrange(start as int, start + 2 * N);
    let mut out: [u8; N] = [0u8; N];
    let len = h.len();
    let mut i: usize = 0;
    while i < N
        invariant
            len == h@.len(),
            start + 2 * N <= h@.len(),
            part == h@.subrange(start as int, start + 2 * N),
            i <= N,
            out@.len() == N,
            forall|j: int| 0 <= j < 2 * i ==> (#[trigger] hex_val(part[j])) is Some,
            forall|j: int| 0 <= j < i ==> out@[j] == #[trigger] hex_decoded(part)[j],
        decreases N - i,
    {
        assert(start + 2 * i + 1 < start + 2 * N);
        let hi = match hex_digit(h[start + 2 * i]) {
            Some(v) => v,
            None => {
                assert(hex_val(part[2 * i as int]) is None);
                return None;
            },
        };
        let lo = match hex_digit(h[start + 2 * i + 1]) {
            Some(v) => v,
            None => {
                assert(hex_val(part[2 * i + 1]) is None);
                return None;
            },
        };
        assert(part[2 * i as int] == h@[start + 2 * i]);
        assert(part[2 * i + 1] == h@[start + 2 * i + 1]);
        out[i] = hi * 16 + lo;
        i = i + 1;
    }
    assert(out@ =~= hex_decoded(part));
    Some(out)
}

/// Parses an authentication header into the claimed signer and the signature.
pub fn parse_auth_header(h: &[u8]) -> (r: Result<(Address, SignatureBytes), CommitmentError>)
    ensures
        match r {
            Ok((a, s)) => auth_fields(h@) == Some((a@, s@)),
            Err(e) => auth_fields(h@) is None && e == CommitmentError::InvalidParams(ParamError::MalformedAuthHeader),
        },
{
    let malformed = CommitmentError::InvalidParams(ParamError::MalformedAuthHeader);
    let mut c: usize = 0;
    while c < h.len() && h[c] != 58
        invariant
            c <= h@.len(),
            first_colon(h@, 0) == first_colon(h@, c as int),
        decreases h@.len() - c,
    {
        c = c + 1;
    }
    if c >= h.len() {
        return Err(malformed);
    }
    let a_start = digits_start(h, 0, c);
    let s_start = digits_start(h, c + 1, h.len());
    if c - a_start != 40 || h.len() - s_start != 130 {
        return Err(malformed);
    }
    let addr = match decode_hex_at::<20>(h, a_start) {
        Some(a) => a,
        None => return Err(malformed),
    };
    let sig = match decode_hex_at::<65>(h, s_start) {
        Some(s) => s,
        None => return Err(malformed),
    };
    Ok((addr, sig))
}

} // verus!
