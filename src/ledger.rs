//! The ledger primitives that records and addresses are built on: SHA-256 and
//! program-derived addresses, both computed by `solana_program`.
use vstd::prelude::*;
use solana_program::hash::hash;
use solana_program::pubkey::Pubkey;

verus! {

/// The SHA-256 digest of `data`.
pub uninterp spec fn sha256_of(data: Seq<u8>) -> Seq<u8>;

/// The program-derived address of `program_id` for `seeds` and its bump seed,
/// when one exists.
pub uninterp spec fn program_address_of(seeds: Seq<Seq<u8>>, program_id: Seq<u8>) -> Option<(Seq<u8>, u8)>;

/// Relies on `solana_program::hash::hash`: the SHA-256 digest of its input,
/// which depends on the bytes alone.
#[verifier::external_body]
pub(crate) fn sha256(data: &[u8]) -> (r: [u8; 32])
    ensures
        r@ == sha256_of(data@),
{
    hash(data).to_bytes()
}

/// Relies on `Pubkey::try_find_program_address`: the first off-curve address
/// found for the seeds and the program id, with its bump seed, or `None` when
/// there is none or the seeds exceed the ledger's limits. It depends on its
/// arguments alone and does not panic.
#[verifier::external_body]
pub(crate) fn find_program_address(seeds: &Vec<Vec<u8>>, program_id: &[u8; 32]) -> (r: Option<([u8; 32], u8)>)
    ensures
        match r {
            Some((k, b)) => program_address_of(seeds@.map_values(|s: Vec<u8>| s@), program_id@)
                == Some((k@, b)),
            None => program_address_of(seeds@.map_values(|s: Vec<u8>| s@), program_id@) is None,
        },
{
    let refs: Vec<&[u8]> = seeds.iter().map(|s| s.as_slice()).collect();
    Pubkey::try_find_program_address(&refs, &Pubkey::new_from_array(*program_id))
        .map(|(k, b)| (k.to_bytes(), b))
}

} // verus!
