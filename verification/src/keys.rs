//! The seed from which the node derives its keys.

use rand::Rng;
use vstd::prelude::*;

verus! {

/// What came of reading the stored seed.
#[derive(Clone, Debug, PartialEq, Eq)]
pub enum StoredSeed {
    /// No seed is stored.
    Missing,
    /// A seed is stored and could not be read.
    Unreadable,
    /// The bytes that are stored.
    Bytes(Vec<u8>),
}

/// Why the stored seed cannot be used.
#[derive(Clone, Copy, Debug, PartialEq, Eq)]
pub enum SeedError {
    /// The stored seed has `found` bytes, not thirty-two.
    WrongLength { found: usize },
    /// A seed is stored and could not be read.
    Unreadable,
}

/// The seed of a node, and whether it was made anew and is still to be stored.
#[derive(Clone, Copy, Debug, PartialEq, Eq)]
pub struct KeysSeed {
    pub seed: [u8; 32],
    pub fresh: bool,
}

/// Calls `Rng::fill_bytes` of `rand` on the thread's generator, for thirty-two bytes.
/// Nothing is said of the bytes.
#[verifier::external_body]
fn random_seed() -> (seed: [u8; 32]) {
    let mut seed = [0u8; 32];
    rand::thread_rng().fill_bytes(&mut seed);
    seed
}

/// Reads a stored seed: it has thirty-two bytes.
pub fn seed_from_bytes(bytes: &[u8]) -> (seed: Result<[u8; 32], SeedError>)
    ensures
        bytes@.len() == 32 ==> (seed matches Ok(s) && s@ == bytes@),
        bytes@.len() != 32 ==> seed == Err::<[u8; 32], SeedError>(
            SeedError::WrongLength { found: bytes@.len() as usize },
        ),
{
    if bytes.len() != 32 {
        return Err(SeedError::WrongLength { found: bytes.len() });
    }
    let mut seed: [u8; 32] = [0u8; 32];
    let mut i: usize = 0;
    while i < 32
        invariant
            i <= 32,
            bytes@.len() == 32,
            forall|k: int| 0 <= k < i ==> seed@[k] == bytes@[k],
        decreases 32 - i,
    {
        seed[i] = bytes[i];
        i = i + 1;
    }
    assert(seed@ =~= bytes@);
    Ok(seed)
}

/// Whether `seed` is what comes of the stored seed: the stored bytes where they are
/// thirty-two, an error where they are not or could not be read, and a new seed, of which
/// nothing more is said, where none is stored.
pub open spec fn is_seed_of(stored: StoredSeed, seed: Result<KeysSeed, SeedError>) -> bool {
    match stored {
        StoredSeed::Bytes(bytes) => if bytes@.len() == 32 {
            seed matches Ok(k) && k.seed@ == bytes@ && !k.fresh
        } else {
            seed == Err::<KeysSeed, SeedError>(
                SeedError::WrongLength { found: bytes@.len() as usize },
            )
        },
        StoredSeed::Unreadable => seed == Err::<KeysSeed, SeedError>(SeedError::Unreadable),
        StoredSeed::Missing => seed matches Ok(k) && k.fresh,
    }
}

/// The seed of the node.
///
/// A stored seed of thirty-two bytes is taken as it is. Where none is stored a new one
/// is made, which is still to be stored. A stored seed that cannot be read, or that has
/// another length, is an error: no new seed is made in its place.
pub fn keys_seed(stored: StoredSeed) -> (seed: Result<KeysSeed, SeedError>)
    ensures
        is_seed_of(stored, seed),
{
    match stored {
        StoredSeed::Bytes(bytes) => match seed_from_bytes(bytes.as_slice()) {
            Ok(seed) => Ok(KeysSeed { seed, fresh: false }),
            Err(fault) => Err(fault),
        },
        StoredSeed::Unreadable => Err(SeedError::Unreadable),
        StoredSeed::Missing => Ok(KeysSeed { seed: random_seed(), fresh: true }),
    }
}

/// A new seed is made only where none is stored: whenever there is something to write,
/// nothing was there to be overwritten.
pub proof fn lemma_fresh_seed_only_when_missing(stored: StoredSeed, seed: Result<KeysSeed, SeedError>)
    requires
        is_seed_of(stored, seed),
    ensures
        (seed matches Ok(k) && k.fresh) <==> stored is Missing,
{
}

} // verus!
