//! The persisted layout of a counter record: 56 bytes in all — an 8-byte
//! implementation-reserved header, the 32-byte authority, the count and the
//! stamp as little-endian 64-bit values. The data model maps 1:1 onto these
//! bytes, so a record can be written and read back verbatim by the host's
//! storage.

use vstd::prelude::*;
use crate::counter::{Counter, CounterView};
use crate::identity::Pubkey;

verus! {

/// The size of the reserved header that opens a persisted record.
pub const HEADER_LEN: usize = 8;

/// The size of a whole persisted record.
pub const RECORD_LEN: usize = 56;

/// The little-endian bytes of a 64-bit value.
pub open spec fn u64_le(x: u64) -> Seq<u8> {
    seq![
        (x & 0xff) as u8,
        ((x >> 8) & 0xff) as u8,
        ((x >> 16) & 0xff) as u8,
        ((x >> 24) & 0xff) as u8,
        ((x >> 32) & 0xff) as u8,
        ((x >> 40) & 0xff) as u8,
        ((x >> 48) & 0xff) as u8,
        ((x >> 56) & 0xff) as u8,
    ]
}

/// The 64-bit value held by 8 little-endian bytes.
pub open spec fn le_u64(s: Seq<u8>) -> u64
    recommends
        s.len() == 8,
{
    (s[0] as u64) | ((s[1] as u64) << 8) | ((s[2] as u64) << 16) | ((s[3] as u64) << 24)
        | ((s[4] as u64) << 32) | ((s[5] as u64) << 40) | ((s[6] as u64) << 48)
        | ((s[7] as u64) << 56)
}

/// The whole persisted record: header, authority, count, stamp.
pub open spec fn counter_bytes(header: Seq<u8>, c: CounterView) -> Seq<u8> {
    header + c.authority + u64_le(c.count) + u64_le(c.last_updated as u64)
}

/// A byte masked to its low 8 bits fits in a byte.
proof fn lemma_mask_byte(y: u64)
    ensures
        (y & 0xff) < 256,
{
    assert((y & 0xff) < 256) by (bit_vector);
}

/// Reading back the written little-endian bytes gives the value back.
pub proof fn lemma_u64_le_round_trip(x: u64)
    ensures
        le_u64(u64_le(x)) == x,
{
    assert(((x & 0xff) as u8 as u64) | ((((x >> 8) & 0xff) as u8 as u64) << 8)
        | ((((x >> 16) & 0xff) as u8 as u64) << 16) | ((((x >> 24) & 0xff) as u8 as u64) << 24)
        | ((((x >> 32) & 0xff) as u8 as u64) << 32) | ((((x >> 40) & 0xff) as u8 as u64) << 40)
        | ((((x >> 48) & 0xff) as u8 as u64) << 48) | ((((x >> 56) & 0xff) as u8 as u64) << 56)
        == x) by (bit_vector);
}

/// Writing the value read from 8 bytes gives the bytes back.
pub proof fn lemma_le_u64_round_trip(s: Seq<u8>)
    requires
        s.len() == 8,
    ensures
        u64_le(le_u64(s)) == s,
{
    let b0 = s[0];
    let b1 = s[1];
    let b2 = s[2];
    let b3 = s[3];
    let b4 = s[4];
    let b5 = s[5];
    let b6 = s[6];
    let b7 = s[7];
    let x = le_u64(s);
    assert(x == (b0 as u64) | ((b1 as u64) << 8) | ((b2 as u64) << 16) | ((b3 as u64) << 24)
        | ((b4 as u64) << 32) | ((b5 as u64) << 40) | ((b6 as u64) << 48) | ((b7 as u64) << 56));
    assert({
        let y = (b0 as u64) | ((b1 as u64) << 8) | ((b2 as u64) << 16) | ((b3 as u64) << 24)
            | ((b4 as u64) << 32) | ((b5 as u64) << 40) | ((b6 as u64) << 48) | ((b7 as u64) << 56);
        &&& (y & 0xff) as u8 == b0
        &&& ((y >> 8) & 0xff) as u8 == b1
        &&& ((y >> 16) & 0xff) as u8 == b2
        &&& ((y >> 24) & 0xff) as u8 == b3
        &&& ((y >> 32) & 0xff) as u8 == b4
        &&& ((y >> 40) & 0xff) as u8 == b5
        &&& ((y >> 48) & 0xff) as u8 == b6
        &&& ((y >> 56) & 0xff) as u8 == b7
    }) by (bit_vector);
    assert(u64_le(x) =~= s);
}

/// Appends `src` to `out`, byte for byte.
fn push_bytes(out: &mut Vec<u8>, src: &Vec<u8>)
    ensures
        final(out)@ == old(out)@ + src@,
{
    proof {
        assert(old(out)@ + src@.subrange(0, 0) =~= old(out)@);
    }
    let n = src.len();
    let mut i: usize = 0;
    while i < n
        invariant
            n == src@.len(),
            i <= n,
            out@ == old(out)@ + src@.subrange(0, i as int),
        decreases n - i,
    {
        out.push(src[i]);
        proof {
            assert(out@ =~= old(out)@ + src@.subrange(0, i as int + 1));
        }
        i += 1;
    }
    proof {
        assert(src@.subrange(0, n as int) =~= src@);
    }
}

/// Appends the little-endian bytes of `x` to `out`.
fn push_u64_le(out: &mut Vec<u8>, x: u64)
    ensures
        final(out)@ == old(out)@ + u64_le(x),
{
    proof {
        lemma_mask_byte(x);
        lemma_mask_byte(x >> 8);
        lemma_mask_byte(x >> 16);
        lemma_mask_byte(x >> 24);
        lemma_mask_byte(x >> 32);
        lemma_mask_byte(x >> 40);
        lemma_mask_byte(x >> 48);
        lemma_mask_byte(x >> 56);
    }
    out.push((x & 0xff) as u8);
    out.push(((x >> 8) & 0xff) as u8);
    out.push(((x >> 16) & 0xff) as u8);
    out.push(((x >> 24) & 0xff) as u8);
    out.push(((x >> 32) & 0xff) as u8);
    out.push(((x >> 40) & 0xff) as u8);
    out.push(((x >> 48) & 0xff) as u8);
    out.push(((x >> 56) & 0xff) as u8);
    proof {
        assert(out@ =~= old(out)@ + u64_le(x));
    }
}

/// Reads the 64-bit little-endian value at `offset`.
fn read_u64_le(bytes: &Vec<u8>, offset: usize) -> (r: u64)
    requires
        offset + 8 <= bytes@.len(),
    ensures
        r == le_u64(bytes@.subrange(offset as int, offset as int + 8)),
{
    // A vector's length fits in usize; reading it makes that bound
    // available for the index arithmetic below.
    let _len: usize = bytes.len();
    let b0 = bytes[offset];
    let b1 = bytes[offset + 1];
    let b2 = bytes[offset + 2];
    let b3 = bytes[offset + 3];
    let b4 = bytes[offset + 4];
    let b5 = bytes[offset + 5];
    let b6 = bytes[offset + 6];
    let b7 = bytes[offset + 7];
    let r = (b0 as u64) | ((b1 as u64) << 8) | ((b2 as u64) << 16) | ((b3 as u64) << 24)
        | ((b4 as u64) << 32) | ((b5 as u64) << 40) | ((b6 as u64) << 48) | ((b7 as u64) << 56);
    proof {
        let s = bytes@.subrange(offset as int, offset as int + 8);
        assert(s[0] == b0 && s[1] == b1 && s[2] == b2 && s[3] == b3 && s[4] == b4 && s[5] == b5
            && s[6] == b6 && s[7] == b7);
    }
    r
}

/// Writes a record in its persisted layout, under the given header.
pub fn encode_counter(header: &Vec<u8>, c: &Counter) -> (r: Vec<u8>)
    requires
        header@.len() == HEADER_LEN,
        c.wf(),
    ensures
        r@ == counter_bytes(header@, c@),
        r@.len() == RECORD_LEN,
{
    let mut out: Vec<u8> = Vec::new();
    push_bytes(&mut out, header);
    push_bytes(&mut out, &c.authority.bytes);
    push_u64_le(&mut out, c.count);
    let stamp_bits: u64 = #[verifier::truncate] (c.last_updated as u64);
    push_u64_le(&mut out, stamp_bits);
    proof {
        assert(out@ =~= counter_bytes(header@, c@));
    }
    out
}

/// Reads a record back from its persisted layout. Succeeds exactly on 56
/// bytes that open with the expected header; the fields are read verbatim.
pub fn decode_counter(bytes: &Vec<u8>, header: &Vec<u8>) -> (r: Option<Counter>)
    requires
        header@.len() == HEADER_LEN,
    ensures
        match r {
            Some(c) => {
                &&& bytes@.len() == RECORD_LEN
                &&& bytes@.subrange(0, 8) == header@
                &&& c.wf()
                &&& c@.authority == bytes@.subrange(8, 40)
                &&& c@.count == le_u64(bytes@.subrange(40, 48))
                &&& c@.last_updated == le_u64(bytes@.subrange(48, 56)) as i64
            },
            None => !(bytes@.len() == RECORD_LEN && bytes@.subrange(0, 8) == header@),
        },
{
    if bytes.len() != RECORD_LEN {
        return None;
    }
    let mut i: usize = 0;
    while i < HEADER_LEN
        invariant
            bytes@.len() == RECORD_LEN,
            header@.len() == HEADER_LEN,
            i <= HEADER_LEN,
            forall|j: int| 0 <= j < i ==> bytes@[j] == header@[j],
        decreases HEADER_LEN - i,
    {
        if bytes[i] != header[i] {
            proof {
                assert(bytes@.subrange(0, 8)[i as int] != header@[i as int]);
            }
            return None;
        }
        i += 1;
    }
    proof {
        assert(bytes@.subrange(0, 8) =~= header@);
    }
    let mut authority_bytes: Vec<u8> = Vec::new();
    let mut k: usize = 8;
    while k < 40
        invariant
            bytes@.len() == RECORD_LEN,
            8 <= k <= 40,
            authority_bytes@ == bytes@.subrange(8, k as int),
        decreases 40 - k,
    {
        authority_bytes.push(bytes[k]);
        proof {
            assert(authority_bytes@ =~= bytes@.subrange(8, k as int + 1));
        }
        k += 1;
    }
    let authority = Pubkey::new(authority_bytes);
    let count = read_u64_le(bytes, 40);
    let stamp_bits = read_u64_le(bytes, 48);
    let last_updated: i64 = #[verifier::truncate] (stamp_bits as i64);
    Some(Counter { authority, count, last_updated })
}

/// The persisted bytes of a record parse back to exactly its fields: the
/// layout loses nothing, so decoding what was encoded gives the record back.
pub proof fn lemma_counter_bytes_parse(header: Seq<u8>, c: CounterView)
    requires
        header.len() == HEADER_LEN,
        c.wf(),
    ensures
        counter_bytes(header, c).len() == RECORD_LEN,
        counter_bytes(header, c).subrange(0, 8) == header,
        counter_bytes(header, c).subrange(8, 40) == c.authority,
        le_u64(counter_bytes(header, c).subrange(40, 48)) == c.count,
        le_u64(counter_bytes(header, c).subrange(48, 56)) as i64 == c.last_updated,
{
    let whole = counter_bytes(header, c);
    assert(whole.subrange(0, 8) =~= header);
    assert(whole.subrange(8, 40) =~= c.authority);
    assert(whole.subrange(40, 48) =~= u64_le(c.count));
    assert(whole.subrange(48, 56) =~= u64_le(c.last_updated as u64));
    lemma_u64_le_round_trip(c.count);
    lemma_u64_le_round_trip(c.last_updated as u64);
    let t = c.last_updated;
    assert((t as u64) as i64 == t) by (bit_vector);
}

} // verus!
