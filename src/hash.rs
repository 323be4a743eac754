//! The three kinds of hash that the sync engine keeps, and how bytes are fed
//! to the hasher.
use std::collections::hash_map::DefaultHasher;
use std::hash::Hasher;
use vstd::prelude::*;
use vstd::std_specs::hash::DefaultHasherAdditionalSpecFns;

verus! {

/// Merkle hash of a directory: it covers the hashes of everything below it.
#[derive(Debug, Clone, Copy, PartialEq, Eq, Structural, Hash)]
pub struct MerkleHash(pub u64);

/// Hash of the identities of a directory's direct children, in order.
#[derive(Debug, Clone, Copy, PartialEq, Eq, Structural, Hash)]
pub struct DirChildrenHash(pub u64);

/// Hash of the contents of one source document.
#[derive(Debug, Clone, Copy, PartialEq, Eq, Structural, Hash)]
pub struct SourceContentsHash(pub u64);

impl Default for MerkleHash {
    fn default() -> (r: Self)
        ensures
            r.0 == 0,
    {
        MerkleHash(0)
    }
}

impl Default for DirChildrenHash {
    fn default() -> (r: Self)
        ensures
            r.0 == 0,
    {
        DirChildrenHash(0)
    }
}

impl Default for SourceContentsHash {
    fn default() -> (r: Self)
        ensures
            r.0 == 0,
    {
        SourceContentsHash(0)
    }
}

impl From<u64> for MerkleHash {
    fn from(hash: u64) -> Self {
        MerkleHash(hash)
    }
}

impl vstd::std_specs::convert::FromSpecImpl<u64> for MerkleHash {
    open spec fn obeys_from_spec() -> bool {
        true
    }

    open spec fn from_spec(v: u64) -> Self {
        MerkleHash(v)
    }
}

impl From<MerkleHash> for u64 {
    fn from(hash: MerkleHash) -> Self {
        hash.0
    }
}

impl vstd::std_specs::convert::FromSpecImpl<MerkleHash> for u64 {
    open spec fn obeys_from_spec() -> bool {
        true
    }

    open spec fn from_spec(v: MerkleHash) -> Self {
        v.0
    }
}

impl From<u64> for DirChildrenHash {
    fn from(hash: u64) -> Self {
        DirChildrenHash(hash)
    }
}

impl vstd::std_specs::convert::FromSpecImpl<u64> for DirChildrenHash {
    open spec fn obeys_from_spec() -> bool {
        true
    }

    open spec fn from_spec(v: u64) -> Self {
        DirChildrenHash(v)
    }
}

impl From<DirChildrenHash> for u64 {
    fn from(hash: DirChildrenHash) -> Self {
        hash.0
    }
}

impl vstd::std_specs::convert::FromSpecImpl<DirChildrenHash> for u64 {
    open spec fn obeys_from_spec() -> bool {
        true
    }

    open spec fn from_spec(v: DirChildrenHash) -> Self {
        v.0
    }
}

impl From<u64> for SourceContentsHash {
    fn from(hash: u64) -> Self {
        SourceContentsHash(hash)
    }
}

impl vstd::std_specs::convert::FromSpecImpl<u64> for SourceContentsHash {
    open spec fn obeys_from_spec() -> bool {
        true
    }

    open spec fn from_spec(v: u64) -> Self {
        SourceContentsHash(v)
    }
}

impl From<SourceContentsHash> for u64 {
    fn from(hash: SourceContentsHash) -> Self {
        hash.0
    }
}

impl vstd::std_specs::convert::FromSpecImpl<SourceContentsHash> for u64 {
    open spec fn obeys_from_spec() -> bool {
        true
    }

    open spec fn from_spec(v: SourceContentsHash) -> Self {
        v.0
    }
}

/// The digest of a sequence of writes to a fresh `DefaultHasher`.
pub open spec fn digest(writes: Seq<Seq<u8>>) -> u64 {
    DefaultHasher::spec_finish(writes)
}

/// The eight little-endian bytes of a word.
pub open spec fn word_bytes(x: u64) -> Seq<u8> {
    seq![
        x as u8,
        (x >> 8u64) as u8,
        (x >> 16u64) as u8,
        (x >> 24u64) as u8,
        (x >> 32u64) as u8,
        (x >> 40u64) as u8,
        (x >> 48u64) as u8,
        (x >> 56u64) as u8,
    ]
}

/// Marks the end of a string written to the hasher, so that adjacent strings
/// cannot run together. It never occurs in UTF-8 text.
pub const STRING_END: u8 = 0xff;

/// The writes that hash a document's raw content: the bytes, then the end mark.
pub open spec fn content_writes(content: Seq<u8>) -> Seq<Seq<u8>> {
    seq![content, seq![STRING_END]]
}

/// The eight little-endian bytes of a word.
pub fn word_to_bytes(x: u64) -> (r: Vec<u8>)
    ensures
        r@ == word_bytes(x),
{
    let mut r: Vec<u8> = Vec::new();
    r.push(x as u8);
    r.push((x >> 8u64) as u8);
    r.push((x >> 16u64) as u8);
    r.push((x >> 24u64) as u8);
    r.push((x >> 32u64) as u8);
    r.push((x >> 40u64) as u8);
    r.push((x >> 48u64) as u8);
    r.push((x >> 56u64) as u8);
    assert(r@ =~= word_bytes(x));
    r
}

/// Words with the same bytes are the same word.
pub proof fn lemma_word_bytes_injective(x: u64, y: u64)
    requires
        word_bytes(x) == word_bytes(y),
    ensures
        x == y,
{
    assert(word_bytes(x)[0] == word_bytes(y)[0]);
    assert(word_bytes(x)[1] == word_bytes(y)[1]);
    assert(word_bytes(x)[2] == word_bytes(y)[2]);
    assert(word_bytes(x)[3] == word_bytes(y)[3]);
    assert(word_bytes(x)[4] == word_bytes(y)[4]);
    assert(word_bytes(x)[5] == word_bytes(y)[5]);
    assert(word_bytes(x)[6] == word_bytes(y)[6]);
    assert(word_bytes(x)[7] == word_bytes(y)[7]);
    assert(x == y) by (bit_vector)
        requires
            x as u8 == y as u8,
            (x >> 8u64) as u8 == (y >> 8u64) as u8,
            (x >> 16u64) as u8 == (y >> 16u64) as u8,
            (x >> 24u64) as u8 == (y >> 24u64) as u8,
            (x >> 32u64) as u8 == (y >> 32u64) as u8,
            (x >> 40u64) as u8 == (y >> 40u64) as u8,
            (x >> 48u64) as u8 == (y >> 48u64) as u8,
            (x >> 56u64) as u8 == (y >> 56u64) as u8,
    ;
}

/// Hash of a document's raw content.
pub fn hash_content(content: &[u8]) -> (r: SourceContentsHash)
    ensures
        r.0 == digest(content_writes(content@)),
{
    let mut hasher = DefaultHasher::new();
    hasher.write(content);
    let mut end: Vec<u8> = Vec::new();
    end.push(STRING_END);
    assert(end@ =~= seq![STRING_END]);
    hasher.write(end.as_slice());
    assert(hasher@ =~= content_writes(content@));
    SourceContentsHash(hasher.finish())
}

} // verus!
