use blake2::{Blake2s256, Digest};
use crate::encoding::hex_of;
use vstd::prelude::*;
use vstd::string::{StringExecFns, StringSliceAdditionalSpecFns};

verus! {

/// What BLAKE2s-256 yields for the given input bytes.
pub uninterp spec fn blake2s256_of(data: Seq<u8>) -> Seq<u8>;

/// Relies on blake2's `Blake2s256::digest`: the 32-byte BLAKE2s digest of the
/// input, which depends on the input bytes alone.
#[verifier::external_body]
fn blake2s256(data: &[u8]) -> (r: [u8; 32])
    ensures
        r@ == blake2s256_of(data@),
{
    Blake2s256::digest(data).into()
}

/// Relies on hex's `encode`: two lowercase digits per byte, high half first.
#[verifier::external_body]
fn hex_encode(b: &[u8]) -> (r: String)
    ensures
        r@ == hex_of(b@),
{
    hex::encode(b)
}

/// `0x` followed by the lowercase hexadecimal form of the bytes.
pub(crate) fn prefixed_hex(b: &[u8]) -> (r: String)
    ensures
        r@ == "0x"@ + hex_of(b@),
{
    let digits = hex_encode(b);
    let mut r = String::from_str("0x");
    r.append(digits.as_str());
    r
}

/// A 32-byte content hash.
#[derive(Clone, Copy, Debug, Hash)]
pub struct Hash(pub [u8; 32]);

impl View for Hash {
    type V = Seq<u8>;

    open spec fn view(&self) -> Seq<u8> {
        self.0@
    }
}

/// Byte-wise equality of two 32-byte arrays.
pub fn bytes32_eq(a: &[u8; 32], b: &[u8; 32]) -> (r: bool)
    ensures
        r == (a@ == b@),
{
    let mut i: usize = 0;
    while i < 32
        invariant
            0 <= i <= 32,
            a@.len() == 32,
            b@.len() == 32,
            forall|k: int| 0 <= k < i ==> a@[k] == b@[k],
        decreases 32 - i,
    {
        if a[i] != b[i] {
            return false;
        }
        i = i + 1;
    }
    assert(a@ =~= b@);
    true
}

impl PartialEq for Hash {
    fn eq(&self, o: &Hash) -> (r: bool) {
        bytes32_eq(&self.0, &o.0)
    }
}

impl vstd::std_specs::cmp::PartialEqSpecImpl for Hash {
    open spec fn obeys_eq_spec() -> bool {
        true
    }

    open spec fn eq_spec(&self, o: &Hash) -> bool {
        self@ == o@
    }
}

impl Eq for Hash {
}

impl Hash {
    /// The all-zero hash, the parent of the genesis block.
    pub fn zero() -> (r: Hash)
        ensures
            r@ == Seq::new(32, |i: int| 0u8),
    {
        let r = Hash([0u8; 32]);
        assert(r@ =~= Seq::new(32, |i: int| 0u8));
        r
    }

    /// The digest of the UTF-8 bytes of `s`. This is a convenience for naming
    /// things by text; block and transaction hashes are derived otherwise.
    pub fn from_text(s: &str) -> (r: Hash)
        ensures
            r@ == blake2s256_of(s.spec_bytes()),
    {
        let mut builder = HashBuilder::new();
        builder.update(s.as_bytes());
        builder.finalize()
    }

    /// `0x` followed by the lowercase hexadecimal form of the bytes.
    pub fn to_hex_string(&self) -> (r: String)
        ensures
            r@ == "0x"@ + hex_of(self@),
    {
        prefixed_hex(self.0.as_slice())
    }
}

/// An accumulator of digest input: bytes are appended in order, and the
/// digest of all of them is taken once at the end.
pub struct HashBuilder {
    input: Vec<u8>,
}

impl View for HashBuilder {
    type V = Seq<u8>;

    closed spec fn view(&self) -> Seq<u8> {
        self.input@
    }
}

impl HashBuilder {
    pub fn new() -> (r: HashBuilder)
        ensures
            r@ == Seq::<u8>::empty(),
    {
        HashBuilder { input: Vec::new() }
    }

    /// Appends `data` to the pending input.
    pub fn update(&mut self, data: &[u8])
        ensures
            final(self)@ == old(self)@ + data@,
    {
        let mut i: usize = 0;
        while i < data.len()
            invariant
                0 <= i <= data@.len(),
                self@ == old(self)@ + data@.subrange(0, i as int),
            decreases data@.len() - i,
        {
            self.input.push(data[i]);
            assert(data@.subrange(0, i + 1) =~= data@.subrange(0, i as int).push(data@[i as int]));
            i = i + 1;
        }
        assert(data@.subrange(0, data@.len() as int) =~= data@);
    }

    /// The digest of everything appended so far.
    pub fn finalize(self) -> (r: Hash)
        ensures
            r@ == blake2s256_of(self@),
    {
        Hash(blake2s256(self.input.as_slice()))
    }
}

} // verus!
