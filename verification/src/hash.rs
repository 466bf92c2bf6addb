//! Content digests: BLAKE2b-based 32-byte and 20-byte hashes.

use vstd::prelude::*;

verus! {

/// What the BLAKE2b hash with the given output length returns for the given
/// input; the digest is a function of the input bytes and the length alone.
pub uninterp spec fn blake2b_of(src: Seq<u8>, out_len: nat) -> Seq<u8>;

/// What hex encoding of a byte string returns: two lower-case digits per byte.
pub uninterp spec fn hex_of(src: Seq<u8>) -> Seq<char>;

/// Relies on blake2b_simd::Params: `hash_length` sets the digest length
/// (it panics outside 1..=64), and `finalize` returns the BLAKE2b digest of
/// all bytes fed to `update`, a function of the input and the length alone.
#[verifier::external_body]
fn blake2b_hash(src: &[u8], out_len: usize) -> (r: Vec<u8>)
    requires
        1 <= out_len <= 64,
    ensures
        r@ == blake2b_of(src@, out_len as nat),
        r@.len() == out_len,
{
    blake2b_simd::Params::new().hash_length(out_len).to_state().update(src).finalize().as_bytes().to_vec()
}

/// Relies on hex::encode: two lower-case hex digits for each input byte, a
/// function of the input bytes alone.
#[verifier::external_body]
fn hex_encode(src: &[u8]) -> (r: String)
    ensures
        r@ == hex_of(src@),
        r@.len() == 2 * src@.len(),
{
    hex::encode(src)
}

/// Relies on rand::Rng::fill on rand::thread_rng: fills the buffer with
/// random bytes; nothing is promised of the contents.
#[verifier::external_body]
fn random_buffer() -> (r: Vec<u8>)
    ensures
        r@.len() == 4096,
{
    let mut bytes: Vec<u8> = vec![0u8; 4096];
    rand::Rng::fill(&mut rand::thread_rng(), &mut bytes[..]);
    bytes
}

/// BLAKE2b hashing with the two digest widths the ledger uses.
pub struct Blake;

impl Blake {
    /// Digest of `src` with the full 32-byte width.
    pub fn long(src: &[u8]) -> (r: Vec<u8>)
        ensures
            r@ == blake2b_of(src@, 32),
            r@.len() == 32,
    {
        blake2b_hash(src, 32)
    }

    /// Digest of `src` with the short 20-byte width.
    pub fn short(src: &[u8]) -> (r: Vec<u8>)
        ensures
            r@ == blake2b_of(src@, 20),
            r@.len() == 20,
    {
        blake2b_hash(src, 20)
    }

    /// Digest of `src` with a caller-chosen width.
    pub fn get_hash_by_len(src: &[u8], hash_len: usize) -> (r: Vec<u8>)
        requires
            1 <= hash_len <= 64,
        ensures
            r@ == blake2b_of(src@, hash_len as nat),
            r@.len() == hash_len,
    {
        blake2b_hash(src, hash_len)
    }
}

/// A 32-byte content digest. Equality and use as a key go by byte content;
/// the all-zero value is the default and doubles as a sentinel.
#[derive(Debug)]
pub struct Hash(pub [u8; 32]);

impl View for Hash {
    type V = Seq<u8>;

    open spec fn view(&self) -> Seq<u8> {
        self.0@
    }
}

impl Clone for Hash {
    fn clone(&self) -> (r: Self)
        ensures
            r@ == self@,
    {
        Hash(self.0)
    }
}

impl Copy for Hash {

}

impl PartialEq for Hash {
    fn eq(&self, other: &Self) -> (r: bool) {
        let mut i: usize = 0;
        while i < 32
            invariant
                0 <= i <= 32,
                forall|j: int| 0 <= j < i ==> self.0@[j] == other.0@[j],
            decreases 32 - i,
        {
            if self.0[i] != other.0[i] {
                return false;
            }
            i += 1;
        }
        proof {
            assert(self.0@ =~= other.0@);
        }
        true
    }
}

impl Eq for Hash {

}

impl vstd::std_specs::cmp::PartialEqSpecImpl for Hash {
    open spec fn obeys_eq_spec() -> bool {
        true
    }

    open spec fn eq_spec(&self, other: &Self) -> bool {
        self@ == other@
    }
}

impl Hash {
    /// A `Hash` whose content is the 32-byte BLAKE2b digest of `data`.
    pub fn new(data: &[u8]) -> (r: Self)
        ensures
            r@ == blake2b_of(data@, 32),
    {
        let digest = Blake::long(data);
        Hash(vec32_to_array(&digest))
    }

    /// A `Hash` holding the given 32 bytes as they are.
    pub fn from_bytes(bytes: [u8; 32]) -> (r: Self)
        ensures
            r@ == bytes@,
    {
        Hash(bytes)
    }

    /// The all-zero digest.
    pub fn zero() -> (r: Self)
        ensures
            r@ == Seq::<u8>::new(32, |i: int| 0u8),
    {
        let a = [0u8; 32];
        proof {
            assert(a@ =~= Seq::<u8>::new(32, |i: int| 0u8));
        }
        Hash(a)
    }

    /// A `Hash` of a fresh 4096-byte random buffer; no two calls are related.
    pub fn generate_random() -> Hash {
        let buf = random_buffer();
        Hash::new(buf.as_slice())
    }

    /// The digest as lower-case hex, two digits per byte.
    pub fn to_hex(&self) -> (r: String)
        ensures
            r@ == hex_of(self@),
    {
        hex_encode(self.0.as_slice())
    }

    /// The digest of the concatenation of the given byte arrays.
    pub fn bytes_arrays_to_hash(bytes_arrays: Vec<Vec<u8>>) -> (r: Self)
        ensures
            r@ == blake2b_of(concat_of(bytes_arrays@.map_values(|b: Vec<u8>| b@)), 32),
    {
        let mut buf: Vec<u8> = Vec::new();
        let mut i: usize = 0;
        let ghost parts = bytes_arrays@.map_values(|b: Vec<u8>| b@);
        while i < bytes_arrays.len()
            invariant
                0 <= i <= bytes_arrays.len(),
                parts == bytes_arrays@.map_values(|b: Vec<u8>| b@),
                buf@ == concat_of(parts.take(i as int)),
            decreases bytes_arrays.len() - i,
        {
            let part = &bytes_arrays[i];
            let mut j: usize = 0;
            while j < part.len()
                invariant
                    0 <= j <= part.len(),
                    part == &bytes_arrays@[i as int],
                    0 <= i < bytes_arrays.len(),
                    parts == bytes_arrays@.map_values(|b: Vec<u8>| b@),
                    buf@ == concat_of(parts.take(i as int)) + part@.take(j as int),
                decreases part.len() - j,
            {
                buf.push(part[j]);
                proof {
                    assert(part@.take(j + 1) =~= part@.take(j as int).push(part@[j as int]));
                    assert(buf@ =~= concat_of(parts.take(i as int)) + part@.take(j + 1));
                }
                j += 1;
            }
            proof {
                assert(parts.take(i + 1).drop_last() =~= parts.take(i as int));
                assert(parts.take(i + 1).last() =~= part@);
                assert(part@.take(part@.len() as int) =~= part@);
                assert(concat_of(parts.take(i + 1)) == concat_of(parts.take(i as int)) + part@);
            }
            i += 1;
        }
        proof {
            assert(parts.take(parts.len() as int) =~= parts);
        }
        Hash::new(buf.as_slice())
    }
}

/// The concatenation of a sequence of byte strings, in order.
pub open spec fn concat_of(parts: Seq<Seq<u8>>) -> Seq<u8>
    decreases parts.len(),
{
    if parts.len() == 0 {
        Seq::empty()
    } else {
        concat_of(parts.drop_last()) + parts.last()
    }
}

/// Copies a 32-byte vector into an array.
fn vec32_to_array(v: &Vec<u8>) -> (r: [u8; 32])
    requires
        v@.len() == 32,
    ensures
        r@ == v@,
{
    let mut a = [0u8; 32];
    let mut i: usize = 0;
    while i < 32
        invariant
            0 <= i <= 32,
            v@.len() == 32,
            forall|j: int| 0 <= j < i ==> a@[j] == v@[j],
        decreases 32 - i,
    {
        a[i] = v[i];
        i += 1;
    }
    proof {
        assert(a@ =~= v@);
    }
    a
}

/// A 20-byte content digest.
#[derive(Debug)]
pub struct ShortHash(pub [u8; 20]);

impl View for ShortHash {
    type V = Seq<u8>;

    open spec fn view(&self) -> Seq<u8> {
        self.0@
    }
}

impl Clone for ShortHash {
    fn clone(&self) -> (r: Self)
        ensures
            r@ == self@,
    {
        ShortHash(self.0)
    }
}

impl Copy for ShortHash {

}

impl ShortHash {
    /// A `ShortHash` whose content is the 20-byte BLAKE2b digest of `data`.
    pub fn new(data: &[u8]) -> (r: Self)
        ensures
            r@ == blake2b_of(data@, 20),
    {
        let digest = Blake::short(data);
        let mut a = [0u8; 20];
        let mut i: usize = 0;
        while i < 20
            invariant
                0 <= i <= 20,
                digest@.len() == 20,
                digest@ == blake2b_of(data@, 20),
                forall|j: int| 0 <= j < i ==> a@[j] == digest@[j],
            decreases 20 - i,
        {
            a[i] = digest[i];
            i += 1;
        }
        proof {
            assert(a@ =~= digest@);
        }
        ShortHash(a)
    }

    /// A `ShortHash` of a fresh 4096-byte random buffer.
    pub fn generate_random() -> ShortHash {
        let buf = random_buffer();
        ShortHash::new(buf.as_slice())
    }

    /// The digest as lower-case hex, two digits per byte.
    pub fn to_hex(&self) -> (r: String)
        ensures
            r@ == hex_of(self@),
    {
        hex_encode(self.0.as_slice())
    }

    /// The short digest of the concatenation of the given byte arrays.
    pub fn bytes_arrays_to_hash(bytes_arrays: Vec<Vec<u8>>) -> (r: Self)
        ensures
            r@ == blake2b_of(concat_of(bytes_arrays@.map_values(|b: Vec<u8>| b@)), 20),
    {
        let mut buf: Vec<u8> = Vec::new();
        let mut i: usize = 0;
        let ghost parts = bytes_arrays@.map_values(|b: Vec<u8>| b@);
        while i < bytes_arrays.len()
            invariant
                0 <= i <= bytes_arrays.len(),
                parts == bytes_arrays@.map_values(|b: Vec<u8>| b@),
                buf@ == concat_of(parts.take(i as int)),
            decreases bytes_arrays.len() - i,
        {
            let part = &bytes_arrays[i];
            let mut j: usize = 0;
            while j < part.len()
                invariant
                    0 <= j <= part.len(),
                    part == &bytes_arrays@[i as int],
                    0 <= i < bytes_arrays.len(),
                    parts == bytes_arrays@.map_values(|b: Vec<u8>| b@),
                    buf@ == concat_of(parts.take(i as int)) + part@.take(j as int),
                decreases part.len() - j,
            {
                buf.push(part[j]);
                proof {
                    assert(part@.take(j + 1) =~= part@.take(j as int).push(part@[j as int]));
                    assert(buf@ =~= concat_of(parts.take(i as int)) + part@.take(j + 1));
                }
                j += 1;
            }
            proof {
                assert(parts.take(i + 1).drop_last() =~= parts.take(i as int));
                assert(parts.take(i + 1).last() =~= part@);
                assert(part@.take(part@.len() as int) =~= part@);
                assert(concat_of(parts.take(i + 1)) == concat_of(parts.take(i as int)) + part@);
            }
            i += 1;
        }
        proof {
            assert(parts.take(parts.len() as int) =~= parts);
        }
        ShortHash::new(buf.as_slice())
    }
}

} // verus!
