//! Byte-level codecs used across the pipeline: the `0x`-prefixed hex framing
//! of transport payloads, big-endian integer reads, and ASCII checks.

use vstd::prelude::*;
use vstd::arithmetic::power::{pow, lemma_pow_increases, lemma_pow0};

verus! {

/// Every byte of `s` is an ASCII code point.
pub open spec fn is_ascii_seq(s: Seq<u8>) -> bool {
    forall|i: int| 0 <= i < s.len() ==> s[i] < 128
}

/// The lowercase hex digit for a value below sixteen.
pub open spec fn hex_digit(v: u8) -> u8
    recommends
        v < 16,
{
    if v < 10 {
        (0x30 + v) as u8
    } else {
        (0x57 + v) as u8
    }
}

/// Lowercase hex encoding of a byte string: two digits per byte.
pub open spec fn hex_of(data: Seq<u8>) -> Seq<u8>
    decreases data.len(),
{
    if data.len() == 0 {
        Seq::empty()
    } else {
        hex_of(data.drop_last()) + seq![
            hex_digit((data.last() / 16) as u8),
            hex_digit((data.last() % 16) as u8),
        ]
    }
}

/// The transport form of a binary payload: `0x` followed by its hex encoding.
pub open spec fn hex_framed(data: Seq<u8>) -> Seq<u8> {
    seq![0x30u8, 0x78u8] + hex_of(data)
}

/// The value of one hex digit byte, upper or lower case; `None` for any
/// other byte.
pub open spec fn hex_val(c: u8) -> Option<u8> {
    if 0x30 <= c && c <= 0x39 {
        Some((c - 0x30) as u8)
    } else if 0x61 <= c && c <= 0x66 {
        Some((c - 0x57) as u8)
    } else if 0x41 <= c && c <= 0x46 {
        Some((c - 0x37) as u8)
    } else {
        None
    }
}

/// `s` is an even-length run of hex digit bytes.
pub open spec fn is_hex_seq(s: Seq<u8>) -> bool {
    s.len() % 2 == 0 && forall|i: int| 0 <= i < s.len() ==> hex_val(s[i]) is Some
}

/// The byte string a run of hex digits decodes to.
pub open spec fn hex_decoded(s: Seq<u8>) -> Seq<u8>
    recommends
        is_hex_seq(s),
    decreases s.len(),
{
    if s.len() < 2 {
        Seq::empty()
    } else {
        hex_decoded(s.subrange(0, s.len() - 2)).push(
            match (hex_val(s[s.len() - 2]), hex_val(s[s.len() - 1])) {
                (Some(hi), Some(lo)) => (hi * 16 + lo) as u8,
                _ => 0u8,
            },
        )
    }
}

/// The big-endian value of a byte string.
pub open spec fn be_val(s: Seq<u8>) -> nat
    decreases s.len(),
{
    if s.len() == 0 {
        0
    } else {
        (be_val(s.drop_last()) * 256 + s.last()) as nat
    }
}

/// A byte string of length `n` denotes a value below `256^n`.
pub proof fn lemma_be_val_bound(s: Seq<u8>)
    ensures
        be_val(s) < pow(256, s.len() as nat),
    decreases s.len(),
{
    if s.len() == 0 {
        lemma_pow0(256);
    } else {
        let dl = s.drop_last();
        lemma_be_val_bound(dl);
        assert(be_val(s) == be_val(dl) * 256 + s.last());
        assert(pow(256, s.len() as nat) == 256 * pow(256, dl.len() as nat)) by {
            reveal_with_fuel(pow, 2);
        }
        assert(be_val(dl) * 256 <= (pow(256, dl.len() as nat) - 1) * 256) by (nonlinear_arith)
            requires
                be_val(dl) <= pow(256, dl.len() as nat) - 1,
        ;
        assert(be_val(s) < 256 * pow(256, dl.len() as nat));
    }
}

/// Reports whether every byte of `v` is ASCII.
pub fn check_ascii(v: &Vec<u8>) -> (r: bool)
    ensures
        r == is_ascii_seq(v@),
{
    let n = v.len();
    let mut i: usize = 0;
    while i < n
        invariant
            i <= n,
            n == v@.len(),
            forall|j: int| 0 <= j < i ==> v@[j] < 128,
        decreases n - i,
    {
        if v[i] >= 128 {
            return false;
        }
        i = i + 1;
    }
    true
}

/// Hex digit value of one byte, `None` if it is not a hex digit.
fn hex_val_of(c: u8) -> (r: Option<u8>)
    ensures
        r == hex_val(c),
{
    if 0x30 <= c && c <= 0x39 {
        Some(c - 0x30)
    } else if 0x61 <= c && c <= 0x66 {
        Some(c - 0x57)
    } else if 0x41 <= c && c <= 0x46 {
        Some(c - 0x37)
    } else {
        None
    }
}

/// Frames a binary payload for transport: `0x` followed by lowercase hex.
/// Fails exactly when the framed length does not fit in a machine word.
pub fn hex_frame(data: &Vec<u8>) -> (r: Option<Vec<u8>>)
    ensures
        r is Some <==> 2 * data@.len() + 2 <= usize::MAX,
        r matches Some(v) ==> v@ == hex_framed(data@),
{
    let n = data.len();
    let framed_len = match n.checked_mul(2) {
        Some(d) => match d.checked_add(2) {
            Some(t) => t,
            None => {
                return None;
            },
        },
        None => {
            return None;
        },
    };
    let mut out: Vec<u8> = Vec::with_capacity(framed_len);
    out.push(0x30);
    out.push(0x78);
    let mut i: usize = 0;
    while i < n
        invariant
            i <= n,
            n == data@.len(),
            out@ == hex_framed(data@.take(i as int)),
        decreases n - i,
    {
        let b = data[i];
        out.push(if b / 16 < 10 { 0x30 + b / 16 } else { 0x57 + b / 16 });
        out.push(if b % 16 < 10 { 0x30 + b % 16 } else { 0x57 + b % 16 });
        proof {
            assert(data@.take(i + 1).drop_last() =~= data@.take(i as int));
            assert(data@.take(i + 1).last() == data@[i as int]);
            assert(out@ =~= hex_framed(data@.take(i + 1)));
        }
        i = i + 1;
    }
    proof {
        assert(data@.take(n as int) =~= data@);
    }
    Some(out)
}

/// Decodes an even-length run of hex digits; `None` exactly when the input
/// is not one.
pub fn hex_decode(s: &Vec<u8>) -> (r: Option<Vec<u8>>)
    ensures
        match r {
            Some(v) => is_hex_seq(s@) && v@ == hex_decoded(s@),
            None => !is_hex_seq(s@),
        },
{
    let n = s.len();
    if n % 2 != 0 {
        return None;
    }
    let mut out: Vec<u8> = Vec::with_capacity(n / 2);
    let mut i: usize = 0;
    while i < n
        invariant
            i <= n,
            i % 2 == 0,
            n % 2 == 0,
            n == s@.len(),
            forall|j: int| 0 <= j < i ==> hex_val(s@[j]) is Some,
            out@ == hex_decoded(s@.take(i as int)),
        decreases n - i,
    {
        let hi = match hex_val_of(s[i]) {
            Some(v) => v,
            None => {
                return None;
            },
        };
        let lo = match hex_val_of(s[i + 1]) {
            Some(v) => v,
            None => {
                return None;
            },
        };
        out.push(hi * 16 + lo);
        proof {
            assert(s@.take(i + 2).subrange(0, i as int) =~= s@.take(i as int));
            assert(out@ =~= hex_decoded(s@.take(i + 2)));
        }
        i = i + 2;
    }
    proof {
        assert(s@.take(n as int) =~= s@);
    }
    Some(out)
}

/// Reads eight bytes of `h` starting at `start` as a big-endian integer.
pub fn read_be_u64(h: &Vec<u8>, start: usize) -> (r: u64)
    requires
        start + 8 <= h@.len(),
    ensures
        r == be_val(h@.subrange(start as int, start as int + 8)),
{
    let n = h.len();
    let mut acc: u64 = 0;
    let mut i: usize = 0;
    while i < 8
        invariant
            i <= 8,
            start + 8 <= n,
            n == h@.len(),
            acc == be_val(h@.subrange(start as int, start as int + i)),
        decreases 8 - i,
    {
        proof {
            lemma_be_val_bound(h@.subrange(start as int, start as int + i));
            lemma_pow_increases(256, i as nat, 7);
            assert(pow(256, 7) == 0x100000000000000) by {
                reveal_with_fuel(pow, 8);
            }
        }
        acc = acc * 256 + (h[start + i] as u64);
        proof {
            let ext = h@.subrange(start as int, start as int + i + 1);
            assert(ext.drop_last() =~= h@.subrange(start as int, start as int + i));
            assert(ext.last() == h@[start as int + i]);
        }
        i = i + 1;
    }
    acc
}

/// Copies `b[start..end]` into a fresh vector.
pub fn copy_range(b: &Vec<u8>, start: usize, end: usize) -> (r: Vec<u8>)
    requires
        start <= end <= b@.len(),
    ensures
        r@ == b@.subrange(start as int, end as int),
{
    let mut out: Vec<u8> = Vec::with_capacity(end - start);
    let mut i: usize = start;
    while i < end
        invariant
            start <= i <= end <= b@.len(),
            out@ == b@.subrange(start as int, i as int),
        decreases end - i,
    {
        out.push(b[i]);
        proof {
            assert(out@ =~= b@.subrange(start as int, i + 1));
        }
        i = i + 1;
    }
    out
}

} // verus!
