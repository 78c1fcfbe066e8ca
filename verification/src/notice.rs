//! The outer notice layer: a fixed-schema binary encoding of the metadata
//! address together with the manifest digest, laid out for smart-contract
//! ABI decoding (a dynamic string and a 32-byte word), and its verified
//! decoder.

use vstd::prelude::*;
use vstd::arithmetic::power::{pow, lemma_pow0};
use vstd::arithmetic::div_mod::{lemma_fundamental_div_mod, lemma_multiply_divide_lt};
use crate::encoding::{be_val, is_ascii_seq};

verus! {

/// The `width` big-endian bytes of `n` (low bytes rightmost).
pub open spec fn be_bytes(n: nat, width: nat) -> Seq<u8>
    decreases width,
{
    if width == 0 {
        Seq::empty()
    } else {
        be_bytes(n / 256, (width - 1) as nat).push((n % 256) as u8)
    }
}

/// One 32-byte ABI word holding `n` right-aligned.
pub open spec fn abi_word(n: nat) -> Seq<u8> {
    be_bytes(n, 32)
}

/// Zero bytes that pad a tail of length `n` to a word boundary.
pub open spec fn pad_len(n: nat) -> nat {
    (((n + 31) / 32) * 32 - n) as nat
}

/// `k` zero bytes.
pub open spec fn zero_pad(k: nat) -> Seq<u8> {
    Seq::new(k, |i: int| 0u8)
}

/// The ABI head-and-tail encoding of `(string, bytes32)`: the offset word
/// of the string tail, the digest word, then the string's length word, its
/// bytes, and zero padding to a word boundary.
pub open spec fn abi_notice_encoding(addr: Seq<u8>, digest: Seq<u8>) -> Seq<u8>
    recommends
        digest.len() == 32,
{
    abi_word(64) + digest + abi_word(addr.len()) + addr + zero_pad(pad_len(addr.len()))
}

/// `be_bytes` always yields exactly `width` bytes.
pub proof fn lemma_be_bytes_len(n: nat, width: nat)
    ensures
        be_bytes(n, width).len() == width,
    decreases width,
{
    if width > 0 {
        lemma_be_bytes_len(n / 256, (width - 1) as nat);
    }
}

/// Reading the big-endian bytes of `n` back gives `n`, whenever `n` fits
/// the width.
pub proof fn lemma_be_bytes_val(n: nat, width: nat)
    requires
        n < pow(256, width),
    ensures
        be_val(be_bytes(n, width)) == n,
    decreases width,
{
    if width == 0 {
        lemma_pow0(256);
    } else {
        let w1 = (width - 1) as nat;
        assert(pow(256, width) == 256 * pow(256, w1)) by {
            reveal_with_fuel(pow, 2);
        }
        lemma_multiply_divide_lt(n as int, 256, pow(256, w1));
        lemma_be_bytes_val(n / 256, w1);
        let b = be_bytes(n, width);
        lemma_be_bytes_len(n / 256, w1);
        assert(b.drop_last() =~= be_bytes(n / 256, w1));
        assert(be_val(b) == be_val(be_bytes(n / 256, w1)) * 256 + (n % 256));
        lemma_fundamental_div_mod(n as int, 256);
    }
}

/// When `n` fits in `k` bytes, its `width`-byte form is `width - k` zero
/// bytes followed by its `k`-byte form.
pub proof fn lemma_be_bytes_split(n: nat, width: nat, k: nat)
    requires
        n < pow(256, k),
        k <= width,
    ensures
        be_bytes(n, width) == zero_pad((width - k) as nat) + be_bytes(n, k),
    decreases k,
{
    if k == 0 {
        lemma_pow0(256);
        assert(n == 0);
        lemma_be_bytes_zero(width);
        assert(be_bytes(n, width) =~= zero_pad((width - k) as nat) + be_bytes(n, k));
    } else {
        let w1 = (width - 1) as nat;
        let k1 = (k - 1) as nat;
        assert(pow(256, k) == 256 * pow(256, k1)) by {
            reveal_with_fuel(pow, 2);
        }
        lemma_multiply_divide_lt(n as int, 256, pow(256, k1));
        lemma_be_bytes_split(n / 256, w1, k1);
        assert(be_bytes(n, width) =~= zero_pad((width - k) as nat) + be_bytes(n, k)) by {
            lemma_be_bytes_len(n / 256, w1);
            lemma_be_bytes_len(n / 256, k1);
            assert(be_bytes(n, width) == (zero_pad((w1 - k1) as nat) + be_bytes(n / 256, k1)).push(
                (n % 256) as u8,
            ));
        }
    }
}

/// All bytes of the zero value are zero.
pub proof fn lemma_be_bytes_zero(width: nat)
    ensures
        be_bytes(0, width) == zero_pad(width),
    decreases width,
{
    if width == 0 {
        assert(be_bytes(0, width) =~= zero_pad(width));
    } else {
        lemma_be_bytes_zero((width - 1) as nat);
        assert(be_bytes(0, width) =~= zero_pad(width));
    }
}

/// The offset word is 31 zero bytes followed by the byte 64.
proof fn lemma_offset_word_shape()
    ensures
        abi_word(64).len() == 32,
        forall|i: int| 0 <= i < 31 ==> abi_word(64)[i] == 0,
        abi_word(64)[31] == 64,
{
    assert(pow(256, 1) == 256) by {
        reveal_with_fuel(pow, 2);
    }
    lemma_be_bytes_split(64, 32, 1);
    lemma_be_bytes_len(64, 32);
    assert(be_bytes(64nat, 1nat) =~= seq![64u8]);
    assert forall|i: int| 0 <= i < 31 implies abi_word(64)[i] == 0 by {
        assert(abi_word(64)[i] == zero_pad(31)[i]);
    }
    assert(abi_word(64)[31] == seq![64u8][0]);
}

/// The strict decoder of the notice layout. It accepts a byte string whose
/// offset word is 64, whose length word fits eight bytes, and whose total
/// length matches the padded tail, and returns the address bytes and the
/// digest word.
pub open spec fn abi_decode_notice(b: Seq<u8>) -> Option<(Seq<u8>, Seq<u8>)> {
    if b.len() < 96 {
        None
    } else if b.subrange(0, 32) != abi_word(64) {
        None
    } else if exists|i: int| 64 <= i < 88 && b[i] != 0 {
        None
    } else {
        let n = be_val(b.subrange(88, 96));
        if b.len() == 96 + n + pad_len(n) {
            Some((b.subrange(96, 96 + n as int), b.subrange(32, 64)))
        } else {
            None
        }
    }
}

/// Decoding the notice encoding gives back exactly the address and digest
/// it was built from.
pub proof fn lemma_notice_round_trip(addr: Seq<u8>, digest: Seq<u8>)
    requires
        digest.len() == 32,
        addr.len() <= u64::MAX,
    ensures
        abi_decode_notice(abi_notice_encoding(addr, digest)) == Some((addr, digest)),
{
    let n = addr.len();
    let e = abi_notice_encoding(addr, digest);
    lemma_be_bytes_len(64, 32);
    lemma_be_bytes_len(n, 32);
    assert(e.len() == 96 + n + pad_len(n));
    assert(e.subrange(0, 32) =~= abi_word(64));
    assert(pow(256, 8) == 0x10000000000000000) by {
        reveal_with_fuel(pow, 9);
    }
    lemma_be_bytes_split(n, 32, 8);
    lemma_be_bytes_len(n, 8);
    assert forall|i: int| 64 <= i < 88 implies e[i] == 0 by {
        assert(e[i] == abi_word(n)[i - 64]);
        assert(abi_word(n)[i - 64] == zero_pad(24)[i - 64]);
    }
    assert(e.subrange(88, 96) =~= be_bytes(n, 8));
    lemma_be_bytes_val(n, 8);
    assert(e.subrange(96, 96 + n as int) =~= addr);
    assert(e.subrange(32, 64) =~= digest);
}

/// Relies on `ethabi::encode` over `[Token::String, Token::FixedBytes]`:
/// the standard ABI head-and-tail layout stated by `abi_notice_encoding`.
/// The address must be ASCII (the string token is built from its bytes)
/// and short enough for ethabi's 32-bit length arithmetic: its padded word
/// count, the length word it feeds, and the head-plus-tail sum must all
/// stay inside `u32`, which the bound below ensures with room to spare.
#[verifier::external_body]
pub(crate) fn abi_encode_notice(addr: &Vec<u8>, digest: &Vec<u8>) -> (r: Vec<u8>)
    requires
        is_ascii_seq(addr@),
        addr@.len() <= 0xFFFFFF00,
        digest@.len() == 32,
    ensures
        r@ == abi_notice_encoding(addr@, digest@),
{
    let s = std::string::String::from_utf8(addr.clone()).unwrap();
    let tokens = vec![
        ethabi::Token::String(s),
        ethabi::Token::FixedBytes(digest.clone()),
    ];
    ethabi::encode(&tokens)
}

/// Decodes a notice payload back into `(metadata_address, manifest_digest)`;
/// `None` exactly when the bytes are not a notice encoding.
pub fn decode_notice(b: &Vec<u8>) -> (r: Option<(Vec<u8>, Vec<u8>)>)
    ensures
        match (r, abi_decode_notice(b@)) {
            (Some(p), Some(q)) => p.0@ == q.0 && p.1@ == q.1,
            (None, None) => true,
            _ => false,
        },
{
    let len = b.len();
    if len < 96 {
        return None;
    }
    // The offset word must hold exactly 64.
    let mut i: usize = 0;
    while i < 31
        invariant
            i <= 31,
            len == b@.len(),
            96 <= len,
            forall|j: int| 0 <= j < i ==> b@[j] == 0,
        decreases 31 - i,
    {
        if b[i] != 0 {
            proof {
                lemma_offset_word_shape();
                assert(abi_word(64)[i as int] == 0);
                assert(b@.subrange(0, 32)[i as int] == b@[i as int]);
            }
            return None;
        }
        i = i + 1;
    }
    if b[31] != 64 {
        proof {
            lemma_offset_word_shape();
            assert(abi_word(64)[31] == 64);
            assert(b@.subrange(0, 32)[31] == b@[31]);
        }
        return None;
    }
    proof {
        lemma_offset_word_shape();
        assert(b@.subrange(0, 32) =~= abi_word(64));
    }
    // The upper 24 bytes of the length word must be zero.
    let mut j: usize = 64;
    while j < 88
        invariant
            64 <= j <= 88,
            len == b@.len(),
            96 <= len,
            forall|k: int| 64 <= k < j ==> b@[k] == 0,
        decreases 88 - j,
    {
        if b[j] != 0 {
            return None;
        }
        j = j + 1;
    }
    let n = crate::encoding::read_be_u64(b, 88);
    // The total length must match the padded tail exactly.
    let fits = if n > (usize::MAX - 31) as u64 {
        false
    } else {
        let padded = ((n as usize + 31) / 32) * 32;
        match padded.checked_add(96) {
            Some(total) => total == len,
            None => false,
        }
    };
    proof {
        let nv = be_val(b@.subrange(88, 96));
        crate::encoding::lemma_be_val_bound(b@.subrange(88, 96));
        assert(pow(256, 8) == 0x10000000000000000) by {
            reveal_with_fuel(pow, 9);
        }
        if !fits {
            assert(b@.len() != 96 + nv + pad_len(nv));
        }
    }
    if !fits {
        return None;
    }
    let n_us = n as usize;
    let addr = crate::encoding::copy_range(b, 96, 96 + n_us);
    let digest = crate::encoding::copy_range(b, 32, 64);
    Some((addr, digest))
}

} // verus!
