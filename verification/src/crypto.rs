use vstd::prelude::*;
use sha2::Digest;
use crate::buffer::PixelBuffer;

verus! {

/// What SHA-256 returns for a byte sequence; a function of the input
/// bytes alone, 32 bytes long.
pub uninterp spec fn sha256_of(data: Seq<u8>) -> Seq<u8>;

/// Relies on sha2's Sha256 (`update` then `finalize`): the digest is a
/// function of the input bytes alone and is always 32 bytes.
#[verifier::external_body]
pub fn calculate_sha256(data: &[u8]) -> (r: Vec<u8>)
    ensures
        r@ == sha256_of(data@),
        r@.len() == 32,
{
    let mut hasher = sha2::Sha256::new();
    hasher.update(data);
    hasher.finalize().to_vec()
}

/// The sixteen lowercase hexadecimal digits, in order of value.
pub open spec fn hex_digits() -> Seq<char> {
    seq!['0', '1', '2', '3', '4', '5', '6', '7', '8', '9', 'a', 'b', 'c', 'd', 'e', 'f']
}

/// Lowercase hexadecimal encoding of a byte sequence: two digits per
/// byte, most significant nibble first.
pub open spec fn hex_of_bytes(data: Seq<u8>) -> Seq<char>
    decreases data.len(),
{
    if data.len() == 0 {
        Seq::empty()
    } else {
        seq![
            hex_digits()[(data[0] >> 4u8) as int],
            hex_digits()[(data[0] & 0x0f) as int],
        ] + hex_of_bytes(data.drop_first())
    }
}

/// Relies on hex::encode: lowercase hexadecimal, two digits per input
/// byte, most significant nibble first.
#[verifier::external_body]
pub fn hex_encode(data: &[u8]) -> (r: String)
    ensures
        r@ == hex_of_bytes(data@),
{
    hex::encode(data)
}

/// Compare the SHA-256 digest of `data`, in lowercase hexadecimal,
/// against an expected digest string.
pub fn verify_sha256(data: &[u8], expected_hash_hex: &str) -> (r: bool)
    ensures
        r == (hex_of_bytes(sha256_of(data@)) == expected_hash_hex@),
{
    let calculated_hash = calculate_sha256(data);
    let calculated_hash_hex = hex_encode(calculated_hash.as_slice());
    let expected = expected_hash_hex.to_owned();
    calculated_hash_hex == expected
}

/// A buffer XORed byte-wise against a keystream of equal length.
pub open spec fn xor_spec(s: Seq<u8>, k: Seq<u8>) -> Seq<u8> {
    Seq::new(s.len(), |i: int| s[i] ^ k[i])
}

/// XOR is self-inverse: applying the identical keystream a second time
/// reproduces the original buffer, which makes the same routine serve
/// both encryption and decryption.
pub proof fn lemma_xor_involution(s: Seq<u8>, k: Seq<u8>)
    requires
        k.len() == s.len(),
    ensures
        xor_spec(xor_spec(s, k), k) == s,
{
    assert forall|i: int| 0 <= i < s.len() implies xor_spec(xor_spec(s, k), k)[i] == s[i] by {
        let a = s[i];
        let b = k[i];
        assert((a ^ b) ^ b == a) by (bit_vector);
    }
    assert(xor_spec(xor_spec(s, k), k) =~= s);
}

/// XOR the keystream into the buffer's raw bytes, in place. The
/// keystream is generated outside the core from the chaotic-map seed and
/// growth parameter, one byte per buffer byte; here it is a plain byte
/// sequence of matching length.
pub fn logistic_map_xor(img: PixelBuffer, keystream: &Vec<u8>) -> (r: PixelBuffer)
    requires
        keystream@.len() == img.data@.len(),
    ensures
        r.width == img.width,
        r.height == img.height,
        r.channels == img.channels,
        r.data@ == xor_spec(img.data@, keystream@),
{
    let ghost orig = img;
    let mut img = img;
    let n = img.data.len();
    let mut i: usize = 0;
    while i < n
        invariant
            img.width == orig.width,
            img.height == orig.height,
            img.channels == orig.channels,
            n == orig.data@.len(),
            img.data@.len() == n as int,
            keystream@.len() == n as int,
            i <= n,
            forall|j: int| 0 <= j < i as int ==> img.data@[j] == (orig.data@[j] ^ keystream@[j]),
            forall|j: int| i as int <= j && j < n as int ==> img.data@[j] == orig.data@[j],
        decreases n - i,
    {
        let b = img.data[i];
        img.data[i] = b ^ keystream[i];
        i = i + 1;
    }
    proof {
        assert(img.data@ =~= xor_spec(orig.data@, keystream@));
    }
    img
}

} // verus!
