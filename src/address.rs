//! Content-derived addresses: an agent's record lives at an address derived
//! from a fixed tag and the owning wallet, each trace at one derived from a
//! fixed tag, the wallet and the trace's sequence number.
use vstd::prelude::*;
use vstd::bytes::*;
use crate::ledger::{find_program_address, program_address_of};

verus! {

/// "agent" in ASCII.
pub open spec fn agent_seed_tag() -> Seq<u8> {
    seq![97u8, 103, 101, 110, 116]
}

/// "trace" in ASCII.
pub open spec fn trace_seed_tag() -> Seq<u8> {
    seq![116u8, 114, 97, 99, 101]
}

/// The seeds of the address of `wallet`'s Agent record.
pub open spec fn agent_seeds_of(wallet: [u8; 32]) -> Seq<Seq<u8>> {
    seq![agent_seed_tag(), wallet@]
}

/// The seeds of the address of `wallet`'s trace number `index`.
pub open spec fn trace_seeds_of(wallet: [u8; 32], index: u64) -> Seq<Seq<u8>> {
    seq![trace_seed_tag(), wallet@, spec_u64_to_le_bytes(index)]
}

/// The views of a list of byte vectors.
pub open spec fn seeds_view(seeds: Seq<Vec<u8>>) -> Seq<Seq<u8>> {
    seeds.map_values(|s: Vec<u8>| s@)
}

/// The seeds of the address of `wallet`'s Agent record.
pub fn agent_seeds(wallet: &[u8; 32]) -> (r: Vec<Vec<u8>>)
    ensures
        seeds_view(r@) == agent_seeds_of(*wallet),
{
    let tag: Vec<u8> = vec![97u8, 103, 101, 110, 116];
    let key = vstd::slice::slice_to_vec(wallet.as_slice());
    let r: Vec<Vec<u8>> = vec![tag, key];
    assert(seeds_view(r@) =~= agent_seeds_of(*wallet));
    r
}

/// The seeds of the address of `wallet`'s trace number `index`.
pub fn trace_seeds(wallet: &[u8; 32], index: u64) -> (r: Vec<Vec<u8>>)
    ensures
        seeds_view(r@) == trace_seeds_of(*wallet, index),
{
    let tag: Vec<u8> = vec![116u8, 114, 97, 99, 101];
    let key = vstd::slice::slice_to_vec(wallet.as_slice());
    let number = u64_to_le_bytes(index);
    let r: Vec<Vec<u8>> = vec![tag, key, number];
    assert(seeds_view(r@) =~= trace_seeds_of(*wallet, index));
    r
}

/// The address, and its bump seed, of `wallet`'s Agent record under
/// `program_id`; `None` when the ledger finds no address for these seeds.
pub fn agent_address(program_id: &[u8; 32], wallet: &[u8; 32]) -> (r: Option<([u8; 32], u8)>)
    ensures
        match r {
            Some((k, b)) => program_address_of(agent_seeds_of(*wallet), program_id@) == Some((k@, b)),
            None => program_address_of(agent_seeds_of(*wallet), program_id@) is None,
        },
{
    let seeds = agent_seeds(wallet);
    find_program_address(&seeds, program_id)
}

/// The address, and its bump seed, of `wallet`'s trace number `index` under
/// `program_id`; `None` when the ledger finds no address for these seeds.
pub fn trace_address(program_id: &[u8; 32], wallet: &[u8; 32], index: u64) -> (r: Option<([u8; 32], u8)>)
    ensures
        match r {
            Some((k, b)) => program_address_of(trace_seeds_of(*wallet, index), program_id@) == Some(
                (k@, b),
            ),
            None => program_address_of(trace_seeds_of(*wallet, index), program_id@) is None,
        },
{
    let seeds = trace_seeds(wallet, index);
    find_program_address(&seeds, program_id)
}

/// Distinct sequence numbers of one wallet give distinct trace seeds, so each
/// (agent, index) pair has its own address.
pub proof fn lemma_trace_seeds_distinct(wallet: [u8; 32], i: u64, j: u64)
    requires
        i != j,
    ensures
        trace_seeds_of(wallet, i) != trace_seeds_of(wallet, j),
{
    lemma_auto_spec_u64_to_from_le_bytes();
    assert(trace_seeds_of(wallet, i)[2] == spec_u64_to_le_bytes(i));
    assert(trace_seeds_of(wallet, j)[2] == spec_u64_to_le_bytes(j));
}

} // verus!
