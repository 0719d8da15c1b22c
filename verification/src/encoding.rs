//! Canonical byte encodings: little-endian integers and UTF-8 strings,
//! concatenated into the byte strings that digests and signature prehashes
//! are computed over.

use vstd::prelude::*;

verus! {

/// `count` little-endian bytes of `n` (low byte first); bytes beyond the
/// magnitude of `n` are zero.
pub open spec fn le_bytes(n: nat, count: nat) -> Seq<u8>
    decreases count,
{
    if count == 0 {
        Seq::empty()
    } else {
        seq![(n % 256) as u8] + le_bytes(n / 256, (count - 1) as nat)
    }
}

pub proof fn lemma_le_bytes_len(n: nat, count: nat)
    ensures
        le_bytes(n, count).len() == count,
    decreases count,
{
    if count > 0 {
        lemma_le_bytes_len(n / 256, (count - 1) as nat);
    }
}

/// The eight little-endian bytes of a 64-bit integer.
pub fn u64_to_le_bytes(x: u64) -> (r: Vec<u8>)
    ensures
        r@ == le_bytes(x as nat, 8),
{
    let mut out: Vec<u8> = Vec::new();
    let mut rest: u64 = x;
    let mut produced: usize = 0;
    while produced < 8
        invariant
            produced <= 8,
            out@.len() == produced,
            le_bytes(x as nat, 8) == out@ + le_bytes(rest as nat, (8 - produced) as nat),
        decreases 8 - produced,
    {
        let byte: u8 = (rest % 256) as u8;
        proof {
            assert(le_bytes(rest as nat, (8 - produced) as nat) == seq![byte] + le_bytes(
                rest as nat / 256,
                (8 - produced - 1) as nat,
            ));
            assert(out@ + le_bytes(rest as nat, (8 - produced) as nat) == (out@ + seq![byte])
                + le_bytes(rest as nat / 256, (8 - produced - 1) as nat));
        }
        out.push(byte);
        rest = rest / 256;
        produced = produced + 1;
    }
    proof {
        lemma_le_bytes_len(rest as nat, 0);
        assert(out@ + le_bytes(rest as nat, 0) =~= out@);
    }
    out
}

/// The four little-endian bytes of a 32-bit integer.
pub fn u32_to_le_bytes(x: u32) -> (r: Vec<u8>)
    ensures
        r@ == le_bytes(x as nat, 4),
{
    let mut out: Vec<u8> = Vec::new();
    let mut rest: u32 = x;
    let mut produced: usize = 0;
    while produced < 4
        invariant
            produced <= 4,
            out@.len() == produced,
            le_bytes(x as nat, 4) == out@ + le_bytes(rest as nat, (4 - produced) as nat),
        decreases 4 - produced,
    {
        let byte: u8 = (rest % 256) as u8;
        proof {
            assert(le_bytes(rest as nat, (4 - produced) as nat) == seq![byte] + le_bytes(
                rest as nat / 256,
                (4 - produced - 1) as nat,
            ));
            assert(out@ + le_bytes(rest as nat, (4 - produced) as nat) == (out@ + seq![byte])
                + le_bytes(rest as nat / 256, (4 - produced - 1) as nat));
        }
        out.push(byte);
        rest = rest / 256;
        produced = produced + 1;
    }
    proof {
        lemma_le_bytes_len(rest as nat, 0);
        assert(out@ + le_bytes(rest as nat, 0) =~= out@);
    }
    out
}

/// Append the contents of `src` to `dst`.
pub fn push_bytes(dst: &mut Vec<u8>, src: &[u8])
    ensures
        final(dst)@ == old(dst)@ + src@,
{
    let mut i: usize = 0;
    while i < src.len()
        invariant
            i <= src@.len(),
            dst@ == old(dst)@ + src@.subrange(0, i as int),
        decreases src@.len() - i,
    {
        let byte: u8 = src[i];
        dst.push(byte);
        proof {
            assert(old(dst)@ + src@.subrange(0, i + 1) =~= (old(dst)@ + src@.subrange(0, i as int)).push(byte));
        }
        i = i + 1;
    }
    proof {
        assert(src@.subrange(0, src@.len() as int) =~= src@);
    }
}

/// Append the eight little-endian bytes of `x` to `dst`.
pub fn push_u64_le(dst: &mut Vec<u8>, x: u64)
    ensures
        final(dst)@ == old(dst)@ + le_bytes(x as nat, 8),
{
    let bytes = u64_to_le_bytes(x);
    push_bytes(dst, bytes.as_slice());
}

/// Append the UTF-8 bytes of `s` to `dst`.
pub fn push_str_bytes(dst: &mut Vec<u8>, s: &str)
    ensures
        final(dst)@ == old(dst)@ + vstd::utf8::encode_utf8(s@),
{
    push_bytes(dst, s.as_bytes());
}

} // verus!
