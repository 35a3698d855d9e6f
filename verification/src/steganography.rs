use vstd::prelude::*;
use vstd::arithmetic::div_mod::{
    lemma_fundamental_div_mod, lemma_fundamental_div_mod_converse, lemma_mod_bound,
};
use crate::buffer::PixelBuffer;

verus! {

/// Failures of the steganographic channel.
#[derive(Clone, Copy, PartialEq, Eq, Structural, Debug)]
pub enum StegError {
    /// The carrier has fewer least-significant bits than the payload
    /// needs; both figures are reported.
    InsufficientCapacity { needed: usize, available: usize },
    /// The embedded length header is zero or larger than the carrier
    /// could hold.
    InvalidLength,
    /// The extracted payload could not be decoded into metadata.
    MalformedMetadata,
}

/// The 4-byte big-endian header declaring a payload of `len` bytes.
pub open spec fn header_bytes(len: u32) -> Seq<u8> {
    seq![
        ((len >> 24u32) & 0xff) as u8,
        ((len >> 16u32) & 0xff) as u8,
        ((len >> 8u32) & 0xff) as u8,
        (len & 0xff) as u8,
    ]
}

/// The full bit-stream source: length header followed by the payload.
pub open spec fn full_payload(p: Seq<u8>) -> Seq<u8> {
    header_bytes(p.len() as u32) + p
}

/// Bit `i` of a byte stream, most significant bit of each byte first:
/// position 0 is the header's highest-order bit.
pub open spec fn stream_bit(bytes: Seq<u8>, i: int) -> u8 {
    (bytes[i / 8] >> ((7 - (i % 8)) as u8)) & 1
}

/// The carrier after embedding payload `p`: the first `(4 + |p|) * 8`
/// bytes carry the stream bits in their least-significant bit, in raster
/// order; every other byte is unchanged.
pub open spec fn embed_spec(s: Seq<u8>, p: Seq<u8>) -> Seq<u8> {
    Seq::new(
        s.len(),
        |i: int|
            if i < (4 + p.len()) * 8 {
                (s[i] & 0xfe) | stream_bit(full_payload(p), i)
            } else {
                s[i]
            },
    )
}

/// The byte assembled from the eight least-significant bits of
/// `s[start .. start + 8]`, most significant first.
pub open spec fn extracted_byte(s: Seq<u8>, start: int) -> u8 {
    (((s[start] & 1) << 7u8) | ((s[start + 1] & 1) << 6u8) | ((s[start + 2] & 1) << 5u8)
        | ((s[start + 3] & 1) << 4u8) | ((s[start + 4] & 1) << 3u8)
        | ((s[start + 5] & 1) << 2u8) | ((s[start + 6] & 1) << 1u8) | (s[start + 7] & 1))
}

/// The payload length declared by the first 32 least-significant bits of
/// the carrier, big-endian.
pub open spec fn declared_len(s: Seq<u8>) -> u32 {
    ((extracted_byte(s, 0) as u32) << 24u32) | ((extracted_byte(s, 8) as u32) << 16u32)
        | ((extracted_byte(s, 16) as u32) << 8u32) | (extracted_byte(s, 24) as u32)
}

/// The `len` payload bytes read back from the carrier, skipping the 32
/// header bits.
pub open spec fn extracted_payload(s: Seq<u8>, len: int) -> Seq<u8> {
    Seq::new(len as nat, |j: int| extracted_byte(s, 32 + 8 * j))
}

/// A stream bit is 0 or 1.
proof fn lemma_stream_bit_le_1(bytes: Seq<u8>, i: int)
    ensures
        stream_bit(bytes, i) <= 1,
{
    let b = bytes[i / 8];
    let sh = (7 - (i % 8)) as u8;
    assert((b >> sh) & 1 <= 1) by (bit_vector);
}

/// Reading back the least-significant bit of an embedded byte returns
/// the embedded bit.
proof fn lemma_lsb_of_embedded(x: u8, b: u8)
    requires
        b <= 1,
    ensures
        ((x & 0xfe) | b) & 1 == b,
{
    assert(((x & 0xfe) | b) & 1 == b) by (bit_vector)
        requires
            b <= 1,
    ;
}

/// If the eight least-significant bits starting at position `8 * k`
/// carry the stream bits of byte `k`, that byte reads back exactly.
proof fn lemma_byte_recovered(e: Seq<u8>, full: Seq<u8>, k: int)
    requires
        0 <= k,
        8 * k + 8 <= e.len(),
        forall|i: int| 8 * k <= i < 8 * k + 8 ==> (#[trigger] e[i]) & 1 == stream_bit(full, i),
    ensures
        extracted_byte(e, 8 * k) == full[k],
{
    let v = full[k];
    lemma_fundamental_div_mod_converse(8 * k + 0, 8, k, 0);
    lemma_fundamental_div_mod_converse(8 * k + 1, 8, k, 1);
    lemma_fundamental_div_mod_converse(8 * k + 2, 8, k, 2);
    lemma_fundamental_div_mod_converse(8 * k + 3, 8, k, 3);
    lemma_fundamental_div_mod_converse(8 * k + 4, 8, k, 4);
    lemma_fundamental_div_mod_converse(8 * k + 5, 8, k, 5);
    lemma_fundamental_div_mod_converse(8 * k + 6, 8, k, 6);
    lemma_fundamental_div_mod_converse(8 * k + 7, 8, k, 7);
    assert(e[8 * k] & 1 == (v >> 7u8) & 1);
    assert(e[8 * k + 1] & 1 == (v >> 6u8) & 1);
    assert(e[8 * k + 2] & 1 == (v >> 5u8) & 1);
    assert(e[8 * k + 3] & 1 == (v >> 4u8) & 1);
    assert(e[8 * k + 4] & 1 == (v >> 3u8) & 1);
    assert(e[8 * k + 5] & 1 == (v >> 2u8) & 1);
    assert(e[8 * k + 6] & 1 == (v >> 1u8) & 1);
    assert(e[8 * k + 7] & 1 == (v >> 0u8) & 1);
    assert(((((v >> 7u8) & 1) << 7u8) | (((v >> 6u8) & 1) << 6u8) | (((v >> 5u8) & 1) << 5u8)
        | (((v >> 4u8) & 1) << 4u8) | (((v >> 3u8) & 1) << 3u8) | (((v >> 2u8) & 1) << 2u8)
        | (((v >> 1u8) & 1) << 1u8) | ((v >> 0u8) & 1)) == v) by (bit_vector);
}

/// Reassembling a 32-bit big-endian length from its four bytes returns
/// the length.
pub proof fn lemma_len_reassemble(len: u32)
    ensures
        ((((((len >> 24u32) & 0xff) as u8) as u32) << 24u32)
            | (((((len >> 16u32) & 0xff) as u8) as u32) << 16u32)
            | (((((len >> 8u32) & 0xff) as u8) as u32) << 8u32)
            | (((len & 0xff) as u8) as u32)) == len,
{
    assert(((((((len >> 24u32) & 0xff) as u8) as u32) << 24u32)
        | (((((len >> 16u32) & 0xff) as u8) as u32) << 16u32)
        | (((((len >> 8u32) & 0xff) as u8) as u32) << 8u32)
        | (((len & 0xff) as u8) as u32)) == len) by (bit_vector);
}

/// The round-trip law of the steganographic channel: extracting from a
/// carrier that [`embed_spec`] produced recovers the declared length and
/// the payload exactly, for every carrier with sufficient capacity and
/// every non-empty payload.
pub proof fn lemma_steg_round_trip(s: Seq<u8>, p: Seq<u8>)
    requires
        1 <= p.len(),
        p.len() <= 0xffff_ffff,
        (4 + p.len()) * 8 <= s.len(),
    ensures
        embed_spec(s, p).len() == s.len(),
        declared_len(embed_spec(s, p)) == p.len(),
        32 + declared_len(embed_spec(s, p)) * 8 <= embed_spec(s, p).len(),
        extracted_payload(embed_spec(s, p), p.len() as int) == p,
{
    let e = embed_spec(s, p);
    let full = full_payload(p);
    let bits = (4 + p.len()) * 8;
    assert forall|i: int| 0 <= i < bits implies (#[trigger] e[i]) & 1 == stream_bit(full, i) by {
        lemma_stream_bit_le_1(full, i);
        lemma_lsb_of_embedded(s[i], stream_bit(full, i));
    };
    assert forall|k: int| 0 <= k < 4 + p.len() implies #[trigger] extracted_byte(e, 8 * k)
        == full[k] by {
        lemma_byte_recovered(e, full, k);
    };
    let len32 = p.len() as u32;
    assert(full[0] == ((len32 >> 24u32) & 0xff) as u8);
    assert(full[1] == ((len32 >> 16u32) & 0xff) as u8);
    assert(full[2] == ((len32 >> 8u32) & 0xff) as u8);
    assert(full[3] == (len32 & 0xff) as u8);
    lemma_byte_recovered(e, full, 0);
    lemma_byte_recovered(e, full, 1);
    lemma_byte_recovered(e, full, 2);
    lemma_byte_recovered(e, full, 3);
    assert(extracted_byte(e, 0) == full[0]);
    assert(extracted_byte(e, 8) == full[1]);
    assert(extracted_byte(e, 16) == full[2]);
    assert(extracted_byte(e, 24) == full[3]);
    lemma_len_reassemble(len32);
    assert(declared_len(e) == len32);
    assert forall|j: int| 0 <= j < p.len() implies #[trigger] extracted_byte(e, 32 + 8 * j)
        == p[j] by {
        assert(32 + 8 * j == 8 * (4 + j));
        assert(extracted_byte(e, 8 * (4 + j)) == full[4 + j]);
        assert(full[4 + j] == p[j]);
    };
    assert(extracted_payload(e, p.len() as int) =~= p);
}

/// Embedding only ever touches a byte's least-significant bit, so no
/// carrier byte changes by more than one in either direction.
pub proof fn lemma_embed_changes_lsb_only(s: Seq<u8>, p: Seq<u8>)
    ensures
        embed_spec(s, p).len() == s.len(),
        forall|i: int|
            0 <= i < s.len()
                ==> (#[trigger] embed_spec(s, p)[i] <= s[i] + 1 && s[i] <= embed_spec(s, p)[i]
                    + 1),
        forall|i: int|
            0 <= i < s.len() ==> (#[trigger] embed_spec(s, p)[i]) & 0xfe == s[i] & 0xfe,
{
    let e = embed_spec(s, p);
    let full = full_payload(p);
    assert forall|i: int| 0 <= i < s.len() implies (e[i] <= s[i] + 1 && s[i] <= e[i] + 1
        && e[i] & 0xfe == s[i] & 0xfe) by {
        if i < (4 + p.len()) * 8 {
            lemma_stream_bit_le_1(full, i);
            let x = s[i];
            let b = stream_bit(full, i);
            assert(((x & 0xfe) | b) <= x + 1 && x <= ((x & 0xfe) | b) + 1
                && ((x & 0xfe) | b) & 0xfe == x & 0xfe) by (bit_vector)
                requires
                    b <= 1,
            ;
        }
    };
}

/// Embed a serialized metadata payload: prepend the 4-byte big-endian
/// length header, then write the resulting bit sequence into the
/// least-significant bit of every carrier byte in raster order. Fails,
/// naming both figures, when the carrier has too few bits.
pub fn embed_metadata(img: &PixelBuffer, payload: &Vec<u8>) -> (r: Result<PixelBuffer, StegError>)
    requires
        img.wf(),
        payload@.len() <= 0xffff_ffff,
        (4 + payload@.len()) * 8 <= usize::MAX,
    ensures
        (4 + payload@.len()) * 8 > img.data@.len()
            ==> r == Err::<PixelBuffer, StegError>((StegError::InsufficientCapacity {
                needed: ((4 + payload@.len()) * 8) as usize,
                available: img.data@.len() as usize,
            })),
        (4 + payload@.len()) * 8 <= img.data@.len()
            ==> (r matches Ok(out) && out.wf() && out.width == img.width
                && out.height == img.height && out.channels == img.channels
                && out.data@ == embed_spec(img.data@, payload@)),
{
    let needed_bits: usize = (4 + payload.len()) * 8;
    let available: usize = img.data.len();
    if needed_bits > available {
        return Err(StegError::InsufficientCapacity { needed: needed_bits, available });
    }
    let len32: u32 = payload.len() as u32;
    let mut full: Vec<u8> = Vec::new();
    full.push(((len32 >> 24u32) & 0xff) as u8);
    full.push(((len32 >> 16u32) & 0xff) as u8);
    full.push(((len32 >> 8u32) & 0xff) as u8);
    full.push((len32 & 0xff) as u8);
    full.extend_from_slice(payload.as_slice());
    proof {
        assert(full@ =~= full_payload(payload@));
    }
    let mut out = img.clone();
    let mut i: usize = 0;
    while i < needed_bits
        invariant
            out.width == img.width,
            out.height == img.height,
            out.channels == img.channels,
            out.data@.len() == img.data@.len(),
            full@ == full_payload(payload@),
            full@.len() == 4 + payload@.len(),
            needed_bits == (4 + payload@.len()) * 8,
            needed_bits <= img.data@.len(),
            i <= needed_bits,
            forall|j: int|
                0 <= j < i as int
                    ==> #[trigger] out.data@[j] == ((img.data@[j] & 0xfe) | stream_bit(full@, j)),
            forall|j: int|
                i as int <= j < img.data@.len() ==> #[trigger] out.data@[j] == img.data@[j],
        decreases needed_bits - i,
    {
        proof {
            lemma_fundamental_div_mod(i as int, 8);
            lemma_mod_bound(i as int, 8);
        }
        let byte_index: usize = i / 8;
        let bit_in: usize = i % 8;
        let sh: u8 = (7 - bit_in) as u8;
        let bit: u8 = (full[byte_index] >> sh) & 1;
        let ob: u8 = out.data[i];
        out.data[i] = (ob & 0xfe) | bit;
        i = i + 1;
    }
    proof {
        assert(out.data@ =~= embed_spec(img.data@, payload@));
    }
    Ok(out)
}

/// Read a byte back from the least-significant bits of
/// `data[start .. start + 8]`, most significant bit first.
fn read_lsb_byte(data: &Vec<u8>, start: usize) -> (r: u8)
    requires
        start + 8 <= data@.len(),
    ensures
        r == extracted_byte(data@, start as int),
{
    let len: usize = data.len();
    proof {
        assert(start + 8 <= len);
    }
    ((data[start] & 1) << 7u8) | ((data[start + 1] & 1) << 6u8) | ((data[start + 2] & 1) << 5u8)
        | ((data[start + 3] & 1) << 4u8) | ((data[start + 4] & 1) << 3u8)
        | ((data[start + 5] & 1) << 2u8) | ((data[start + 6] & 1) << 1u8)
        | (data[start + 7] & 1)
}

/// Extract an embedded payload in two passes: read the first 32
/// least-significant bits as a big-endian length, reject a zero or
/// oversized declaration before touching the payload region, then read
/// the declared number of bytes from the bits that follow.
pub fn extract_metadata(img: &PixelBuffer) -> (r: Result<Vec<u8>, StegError>)
    requires
        img.wf(),
    ensures
        img.data@.len() < 32
            ==> r == Err::<Vec<u8>, StegError>((StegError::InsufficientCapacity {
                needed: 32,
                available: img.data@.len() as usize,
            })),
        img.data@.len() >= 32 && (declared_len(img.data@) == 0 || 32 + declared_len(img.data@)
            * 8 > img.data@.len())
            ==> r == Err::<Vec<u8>, StegError>(StegError::InvalidLength),
        img.data@.len() >= 32 && declared_len(img.data@) != 0 && 32 + declared_len(img.data@) * 8
            <= img.data@.len()
            ==> (r matches Ok(p) && p@ == extracted_payload(img.data@, declared_len(
                img.data@) as int)),
{
    let total: usize = img.data.len();
    if total < 32 {
        return Err(StegError::InsufficientCapacity { needed: 32, available: total });
    }
    let b0 = read_lsb_byte(&img.data, 0);
    let b1 = read_lsb_byte(&img.data, 8);
    let b2 = read_lsb_byte(&img.data, 16);
    let b3 = read_lsb_byte(&img.data, 24);
    let metadata_length: u32 = ((b0 as u32) << 24u32) | ((b1 as u32) << 16u32)
        | ((b2 as u32) << 8u32) | (b3 as u32);
    proof {
        assert(metadata_length == declared_len(img.data@));
    }
    if metadata_length == 0 {
        return Err(StegError::InvalidLength);
    }
    let needed: u64 = 32 + (metadata_length as u64) * 8;
    if needed > total as u64 {
        return Err(StegError::InvalidLength);
    }
    let len_usize: usize = metadata_length as usize;
    let mut p: Vec<u8> = Vec::new();
    let mut j: usize = 0;
    while j < len_usize
        invariant
            img.wf(),
            total == img.data@.len(),
            metadata_length == declared_len(img.data@),
            len_usize == metadata_length as usize,
            32 + metadata_length * 8 <= total,
            j <= len_usize,
            p@.len() == j as int,
            forall|jj: int|
                0 <= jj < j as int ==> #[trigger] p@[jj] == extracted_byte(img.data@, 32 + 8 * jj),
        decreases len_usize - j,
    {
        let start: usize = 32 + 8 * j;
        let byte = read_lsb_byte(&img.data, start);
        p.push(byte);
        j = j + 1;
    }
    proof {
        assert(p@ =~= extracted_payload(img.data@, declared_len(img.data@) as int));
    }
    Ok(p)
}

} // verus!
