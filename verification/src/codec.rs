//! Canonical byte encoding.
//!
//! Every record and the persisted node state are mapped to a deterministic
//! byte string: integers as fixed-width little-endian words, options as a tag
//! byte followed by the payload, sequences as a length word followed by the
//! items. Hashes and signatures are computed over these strings, and the
//! data-sync payloads travel as them, so the encoding doubles as the wire
//! format. Decoding is proved to invert encoding.

use vstd::prelude::*;

verus! {

/// The 8 little-endian bytes of a 64-bit word.
pub open spec fn spec_u64_bytes(x: u64) -> Seq<u8> {
    seq![
        (x & 0xff) as u8,
        ((x >> 8) & 0xff) as u8,
        ((x >> 16) & 0xff) as u8,
        ((x >> 24) & 0xff) as u8,
        ((x >> 32) & 0xff) as u8,
        ((x >> 40) & 0xff) as u8,
        ((x >> 48) & 0xff) as u8,
        ((x >> 56) & 0xff) as u8,
    ]
}

/// Rebuild a 64-bit word from its 8 little-endian bytes.
pub open spec fn spec_u64_of_bytes(s: Seq<u8>) -> u64
    recommends
        s.len() == 8,
{
    (s[0] as u64) | ((s[1] as u64) << 8) | ((s[2] as u64) << 16) | ((s[3] as u64) << 24) | ((
    s[4] as u64) << 32) | ((s[5] as u64) << 40) | ((s[6] as u64) << 48) | ((s[7] as u64) << 56)
}

/// Reading back the 8 bytes of a word yields the word.
pub proof fn lemma_u64_bytes_roundtrip(x: u64)
    ensures
        spec_u64_of_bytes(spec_u64_bytes(x)) == x,
{
    let s = spec_u64_bytes(x);
    let b0 = s[0];
    let b1 = s[1];
    let b2 = s[2];
    let b3 = s[3];
    let b4 = s[4];
    let b5 = s[5];
    let b6 = s[6];
    let b7 = s[7];
    let lo = (b0 as u64) | ((b1 as u64) << 8) | ((b2 as u64) << 16) | ((b3 as u64) << 24);
    let hi = ((b4 as u64) << 32) | ((b5 as u64) << 40) | ((b6 as u64) << 48) | ((b7 as u64) << 56);
    assert(lo | hi == x) by (bit_vector)
        requires
            b0 == (x & 0xff) as u8,
            b1 == ((x >> 8) & 0xff) as u8,
            b2 == ((x >> 16) & 0xff) as u8,
            b3 == ((x >> 24) & 0xff) as u8,
            b4 == ((x >> 32) & 0xff) as u8,
            b5 == ((x >> 40) & 0xff) as u8,
            b6 == ((x >> 48) & 0xff) as u8,
            b7 == ((x >> 56) & 0xff) as u8,
            lo == (b0 as u64) | ((b1 as u64) << 8) | ((b2 as u64) << 16) | ((b3 as u64) << 24),
            hi == ((b4 as u64) << 32) | ((b5 as u64) << 40) | ((b6 as u64) << 48) | ((b7 as u64)
                << 56),
    ;
    let y = spec_u64_of_bytes(s);
    assert(y == lo | hi) by (bit_vector)
        requires
            y == (b0 as u64) | ((b1 as u64) << 8) | ((b2 as u64) << 16) | ((b3 as u64) << 24) | ((
            b4 as u64) << 32) | ((b5 as u64) << 40) | ((b6 as u64) << 48) | ((b7 as u64) << 56),
            lo == (b0 as u64) | ((b1 as u64) << 8) | ((b2 as u64) << 16) | ((b3 as u64) << 24),
            hi == ((b4 as u64) << 32) | ((b5 as u64) << 40) | ((b6 as u64) << 48) | ((b7 as u64)
                << 56),
    ;
}

/// Append the 8 little-endian bytes of `x` to `out`.
pub fn encode_u64(out: &mut Vec<u8>, x: u64)
    ensures
        final(out)@ == old(out)@ + spec_u64_bytes(x),
{
    let b0: u8 = (x & 0xff) as u8;
    let b1: u8 = ((x >> 8) & 0xff) as u8;
    let b2: u8 = ((x >> 16) & 0xff) as u8;
    let b3: u8 = ((x >> 24) & 0xff) as u8;
    let b4: u8 = ((x >> 32) & 0xff) as u8;
    let b5: u8 = ((x >> 40) & 0xff) as u8;
    let b6: u8 = ((x >> 48) & 0xff) as u8;
    let b7: u8 = ((x >> 56) & 0xff) as u8;
    out.push(b0);
    out.push(b1);
    out.push(b2);
    out.push(b3);
    out.push(b4);
    out.push(b5);
    out.push(b6);
    out.push(b7);
    proof {
        assert(final(out)@ =~= old(out)@ + spec_u64_bytes(x));
    }
}

/// Read a 64-bit word from `bytes` at position `pos`; on success return the
/// word and the position after it.
pub fn decode_u64(bytes: &Vec<u8>, pos: usize) -> (r: Option<(u64, usize)>)
    ensures
        match r {
            Some((x, next)) => {
                &&& pos + 8 <= bytes@.len()
                &&& next == pos + 8
                &&& x == spec_u64_of_bytes(bytes@.subrange(pos as int, pos + 8))
            },
            None => pos + 8 > bytes@.len(),
        },
{
    if bytes.len() < 8 || pos > bytes.len() - 8 {
        return None;
    }
    let x: u64 = (bytes[pos] as u64) | ((bytes[pos + 1] as u64) << 8) | ((bytes[pos + 2] as u64)
        << 16) | ((bytes[pos + 3] as u64) << 24) | ((bytes[pos + 4] as u64) << 32) | ((bytes[pos
        + 5] as u64) << 40) | ((bytes[pos + 6] as u64) << 48) | ((bytes[pos + 7] as u64) << 56);
    proof {
        let s = bytes@.subrange(pos as int, pos + 8);
        assert(s[0] == bytes@[pos as int]);
        assert(s[1] == bytes@[pos + 1]);
        assert(s[2] == bytes@[pos + 2]);
        assert(s[3] == bytes@[pos + 3]);
        assert(s[4] == bytes@[pos + 4]);
        assert(s[5] == bytes@[pos + 5]);
        assert(s[6] == bytes@[pos + 6]);
        assert(s[7] == bytes@[pos + 7]);
    }
    Some((x, pos + 8))
}

/// Two's-complement view of a signed word, used to encode times.
pub open spec fn spec_i64_as_u64(x: i64) -> u64 {
    x as u64
}

/// Append a signed word as its two's-complement bytes.
pub fn encode_i64(out: &mut Vec<u8>, x: i64)
    ensures
        final(out)@ == old(out)@ + spec_u64_bytes(spec_i64_as_u64(x)),
{
    encode_u64(out, x as u64);
}

/// Read back a signed word.
pub fn decode_i64(bytes: &Vec<u8>, pos: usize) -> (r: Option<(i64, usize)>)
    ensures
        match r {
            Some((x, next)) => {
                &&& pos + 8 <= bytes@.len()
                &&& next == pos + 8
                &&& spec_i64_as_u64(x) == spec_u64_of_bytes(bytes@.subrange(pos as int, pos + 8))
            },
            None => pos + 8 > bytes@.len(),
        },
{
    match decode_u64(bytes, pos) {
        Some((x, next)) => {
            let v: i64 = #[verifier::truncate] (x as i64);
            proof {
                assert(v as u64 == x) by (bit_vector)
                    requires
                        v == x as i64,
                ;
            }
            Some((v, next))
        },
        None => None,
    }
}

/// Signed words survive the detour through their unsigned view.
pub proof fn lemma_i64_bytes_roundtrip(x: i64)
    ensures
        spec_u64_of_bytes(spec_u64_bytes(spec_i64_as_u64(x))) as i64 == x,
{
    lemma_u64_bytes_roundtrip(spec_i64_as_u64(x));
    assert((x as u64) as i64 == x) by (bit_vector);
}

/// Append a usize as a 64-bit word.
pub fn encode_usize(out: &mut Vec<u8>, x: usize)
    ensures
        final(out)@ == old(out)@ + spec_u64_bytes(x as u64),
{
    encode_u64(out, x as u64);
}

/// Read back a usize; fails when the stored word does not fit.
pub fn decode_usize(bytes: &Vec<u8>, pos: usize) -> (r: Option<(usize, usize)>)
    ensures
        match r {
            Some((x, next)) => {
                &&& pos + 8 <= bytes@.len()
                &&& next == pos + 8
                &&& x as u64 == spec_u64_of_bytes(bytes@.subrange(pos as int, pos + 8))
            },
            None => pos + 8 > bytes@.len() || spec_u64_of_bytes(
                bytes@.subrange(pos as int, pos + 8),
            ) > usize::MAX,
        },
{
    match decode_u64(bytes, pos) {
        Some((x, next)) => {
            if x <= usize::MAX as u64 {
                Some((x as usize, next))
            } else {
                None
            }
        },
        None => None,
    }
}

} // verus!
