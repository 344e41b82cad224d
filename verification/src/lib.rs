//! Merkle path verification over fixed 32-byte Keccak-256 digests.
//!
//! A leaf digest is folded together with a list of sibling digests, one per
//! tree level, each paired with a direction bit that says on which side the
//! current digest stands. The fold reproduces the root exactly when the path
//! is valid.

use vstd::prelude::*;

use sha3::Digest;
use sha3::Keccak256;

verus! {

/// The 32-byte Keccak-256 digest of a byte sequence. The hash itself is not
/// modelled; the name only records that the digest is a function of the input
/// bytes alone.
pub uninterp spec fn keccak256(data: Seq<u8>) -> Seq<u8>;

/// The digest of an internal tree node: Keccak-256 of the left child's bytes
/// followed by the right child's bytes, with no separator.
pub open spec fn pair_digest(left: Seq<u8>, right: Seq<u8>) -> Seq<u8> {
    keccak256(left + right)
}

/// Relies on sha3::Keccak256 (new, update, finalize): one pass of Keccak-256
/// over `data`, producing a 32-byte digest determined by `data` alone.
#[verifier::external_body]
fn keccak(data: &[u8]) -> (digest: [u8; 32])
    ensures
        digest@ == keccak256(data@),
{
    let mut hasher = Keccak256::new();
    hasher.update(data);
    hasher.finalize().into()
}

/// Compute the Keccak-256 hash of two 32-byte values concatenated together,
/// `left` first, with no separator. Order-sensitive by construction: the two
/// operands enter the hash in the stated order.
pub fn hash_pair(left: [u8; 32], right: [u8; 32]) -> (digest: [u8; 32])
    ensures
        digest@ == pair_digest(left@, right@),
{
    let mut buffer: Vec<u8> = Vec::new();
    let mut i: usize = 0;
    while i < 32
        invariant
            i <= 32,
            buffer@ == left@.take(i as int),
        decreases 32 - i,
    {
        buffer.push(left[i]);
        proof {
            assert(left@.take(i as int).push(left@[i as int]) =~= left@.take(i as int + 1));
        }
        i = i + 1;
    }
    proof {
        assert(left@.take(32) =~= left@);
        assert(left@ + right@.take(0) =~= left@);
    }
    let mut j: usize = 0;
    while j < 32
        invariant
            j <= 32,
            buffer@ == left@ + right@.take(j as int),
        decreases 32 - j,
    {
        buffer.push(right[j]);
        proof {
            assert((left@ + right@.take(j as int)).push(right@[j as int]) =~= left@ + right@.take(
                j as int + 1,
            ));
        }
        j = j + 1;
    }
    proof {
        assert(left@ + right@.take(32) =~= left@ + right@);
    }
    keccak(buffer.as_slice())
}

/// Byte-for-byte equality of two 32-byte digests.
fn digest_eq(a: &[u8; 32], b: &[u8; 32]) -> (equal: bool)
    ensures
        equal == (a@ == b@),
{
    let mut i: usize = 0;
    while i < 32
        invariant
            i <= 32,
            forall|k: int| 0 <= k < i ==> a@[k] == b@[k],
        decreases 32 - i,
    {
        if a[i] != b[i] {
            proof {
                assert(a@[i as int] != b@[i as int]);
            }
            return false;
        }
        i = i + 1;
    }
    proof {
        assert(a@ =~= b@);
    }
    true
}

/// Compute the hash of arbitrary data to create a leaf node.
///
/// The same hash function is used for leaves and for internal nodes, with no
/// domain-separation tag: a 64-byte payload equal to two concatenated digests
/// collides with the corresponding internal node. This is a deliberate
/// property of the scheme, kept for compatibility with external verifiers.
pub fn compute_leaf_hash(data: &[u8]) -> (digest: [u8; 32])
    ensures
        digest@ == keccak256(data@),
{
    keccak(data)
}

/// The byte sequences of a list of 32-byte digests.
pub open spec fn digest_seq(digests: Seq<[u8; 32]>) -> Seq<Seq<u8>> {
    digests.map_values(|d: [u8; 32]| d@)
}

/// One level of the fold: when the direction bit is set, the current digest
/// is the right operand and the sibling the left one; otherwise the opposite.
pub open spec fn merkle_step(current: Seq<u8>, sibling: Seq<u8>, goes_right: bool) -> Seq<u8> {
    if goes_right {
        pair_digest(sibling, current)
    } else {
        pair_digest(current, sibling)
    }
}

/// The digest obtained by folding every sibling onto the leaf, first level
/// (closest to the leaf) first.
pub open spec fn merkle_fold(leaf: Seq<u8>, siblings: Seq<Seq<u8>>, directions: Seq<bool>) -> Seq<
    u8,
>
    recommends
        siblings.len() == directions.len(),
    decreases siblings.len(),
{
    if siblings.len() == 0 {
        leaf
    } else {
        merkle_step(
            merkle_fold(leaf, siblings.drop_last(), directions.drop_last()),
            siblings.last(),
            directions.last(),
        )
    }
}

/// Verify a Merkle tree path.
///
/// `proof` holds the sibling hashes from the leaf to the root; `indices[i]`
/// says whether the digest under verification is the right operand at level
/// `i`. Returns true exactly when the two lists have the same length and the
/// fold of the siblings onto the leaf reproduces `root`; every other outcome,
/// a length mismatch included, is the single answer false.
pub fn verify_merkle_path(
    leaf: [u8; 32],
    root: [u8; 32],
    proof: &[[u8; 32]],
    indices: &[bool],
) -> (valid: bool)
    ensures
        valid == (proof@.len() == indices@.len() && merkle_fold(
            leaf@,
            digest_seq(proof@),
            indices@,
        ) == root@),
{
    if proof.len() != indices.len() {
        return false;
    }
    let mut current: [u8; 32] = leaf;
    let mut i: usize = 0;
    proof {
        assert(digest_seq(proof@).take(0) =~= Seq::<Seq<u8>>::empty());
        assert(indices@.take(0) =~= Seq::<bool>::empty());
    }
    while i < proof.len()
        invariant
            i <= proof@.len(),
            proof@.len() == indices@.len(),
            current@ == merkle_fold(leaf@, digest_seq(proof@).take(i as int), indices@.take(i as int)),
        decreases proof@.len() - i,
    {
        let sibling: [u8; 32] = proof[i];
        proof {
            let levels = digest_seq(proof@);
            assert(levels.take(i as int + 1).drop_last() =~= levels.take(i as int));
            assert(indices@.take(i as int + 1).drop_last() =~= indices@.take(i as int));
            assert(levels.take(i as int + 1).last() == proof@[i as int]@);
        }
        if indices[i] {
            current = hash_pair(sibling, current);
        } else {
            current = hash_pair(current, sibling);
        }
        i = i + 1;
    }
    proof {
        assert(digest_seq(proof@).take(proof@.len() as int) =~= digest_seq(proof@));
        assert(indices@.take(indices@.len() as int) =~= indices@);
    }
    digest_eq(&current, &root)
}

/// Determinism: the digest of a pair is a function of the two operands alone,
/// so two combinations of the same operands are one and the same digest.
pub proof fn lemma_hash_pair_deterministic(
    left: Seq<u8>,
    right: Seq<u8>,
    first: Seq<u8>,
    second: Seq<u8>,
)
    requires
        first == pair_digest(left, right),
        second == pair_digest(left, right),
    ensures
        first == second,
{
}

/// Zero-depth validity: a path with no levels folds to the leaf itself, so
/// verification against an empty path succeeds exactly when the leaf equals
/// the claimed root.
pub proof fn lemma_empty_path(leaf: Seq<u8>)
    ensures
        merkle_fold(leaf, Seq::<Seq<u8>>::empty(), Seq::<bool>::empty()) == leaf,
{
}

/// Round-trip construction: combining two leaves yields a root against which
/// each leaf verifies with the one-level path made of the other leaf and the
/// matching direction bit.
pub proof fn lemma_single_level_round_trip(first: Seq<u8>, second: Seq<u8>)
    ensures
        merkle_fold(first, seq![second], seq![false]) == pair_digest(first, second),
        merkle_fold(second, seq![first], seq![true]) == pair_digest(first, second),
{
    assert(seq![second].drop_last() =~= Seq::<Seq<u8>>::empty());
    assert(seq![first].drop_last() =~= Seq::<Seq<u8>>::empty());
    assert(seq![false].drop_last() =~= Seq::<bool>::empty());
    assert(seq![true].drop_last() =~= Seq::<bool>::empty());
    lemma_empty_path(first);
    lemma_empty_path(second);
    assert(merkle_fold(first, seq![second], seq![false]) == merkle_step(
        merkle_fold(first, seq![second].drop_last(), seq![false].drop_last()),
        second,
        false,
    ));
    assert(merkle_fold(second, seq![first], seq![true]) == merkle_step(
        merkle_fold(second, seq![first].drop_last(), seq![true].drop_last()),
        first,
        true,
    ));
}

} // verus!
