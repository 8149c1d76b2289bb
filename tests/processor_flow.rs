use verifiagent::address::{agent_address, agent_seeds, trace_address, trace_seeds};
use verifiagent::codec::{
    decode_agent, encode_agent, encode_instruction, encode_trace, ActivityTrace, Agent,
    VerifiAgentInstruction, AGENT_ACCOUNT_SPACE, TRACE_ACCOUNT_SPACE,
};
use verifiagent::error::VerifiAgentError;
use verifiagent::processor::{
    initialize_agent, log_activity, process_instruction, verify_trace, AccountSlot,
    InitializeAgent, LogActivity, VerifyTrace,
};
use verifiagent::tier::TrustLevel;

const WALLET: [u8; 32] = [11u8; 32];
const AGENT_KEY: [u8; 32] = [22u8; 32];
const PROGRAM: [u8; 32] = [33u8; 32];
const T0: i64 = 1_700_000_000;
const DAY: i64 = 86_400;

fn slot(key: [u8; 32], is_signer: bool, size: usize) -> AccountSlot {
    AccountSlot { key, is_signer, data: vec![0u8; size] }
}

fn registered_agent(now: i64) -> AccountSlot {
    let mut ctx = InitializeAgent {
        agent: slot(AGENT_KEY, false, AGENT_ACCOUNT_SPACE),
        wallet: slot(WALLET, true, 0),
    };
    assert_eq!(initialize_agent(&mut ctx, now), Ok(()));
    ctx.agent
}

/// Logs one activity; returns the result, the agent slot and the trace slot.
fn log_once(agent: AccountSlot, hash: [u8; 32], label: &str, now: i64) -> (Result<(), VerifiAgentError>, AccountSlot, AccountSlot) {
    let mut ctx = LogActivity {
        agent,
        trace: slot([0u8; 32], false, TRACE_ACCOUNT_SPACE),
        wallet: slot(WALLET, true, 0),
    };
    let r = log_activity(&mut ctx, hash, label.to_string(), now);
    (r, ctx.agent, ctx.trace)
}

fn agent_of(s: &AccountSlot) -> Agent {
    decode_agent(&s.data).unwrap()
}

fn trace_of(s: &AccountSlot) -> ActivityTrace {
    verify_trace(&VerifyTrace { trace: AccountSlot { key: s.key, is_signer: false, data: s.data.clone() } }).unwrap()
}

#[test]
fn initialize_writes_registered_agent() {
    let agent = registered_agent(T0);
    let a = agent_of(&agent);
    assert_eq!(a.wallet, WALLET);
    assert_eq!(a.trust_level, TrustLevel::L0Registered);
    assert_eq!(a.total_activities, 0);
    assert_eq!(a.created_at, T0);
    assert_eq!(a.last_activity, T0);
}

#[test]
fn initialize_twice_fails_and_keeps_bytes() {
    let agent = registered_agent(T0);
    let before = agent.data.clone();
    let mut ctx = InitializeAgent { agent, wallet: slot(WALLET, true, 0) };
    assert_eq!(initialize_agent(&mut ctx, T0 + 50), Err(VerifiAgentError::AlreadyInitialized));
    assert_eq!(ctx.agent.data, before);
}

#[test]
fn initialize_checks_signature_size_and_content() {
    let mut unsigned = InitializeAgent { agent: slot(AGENT_KEY, false, AGENT_ACCOUNT_SPACE), wallet: slot(WALLET, false, 0) };
    assert_eq!(initialize_agent(&mut unsigned, T0), Err(VerifiAgentError::MissingSignature));
    assert_eq!(unsigned.agent.data, vec![0u8; AGENT_ACCOUNT_SPACE]);

    let mut small = InitializeAgent { agent: slot(AGENT_KEY, false, 64), wallet: slot(WALLET, true, 0) };
    assert_eq!(initialize_agent(&mut small, T0), Err(VerifiAgentError::StorageSizeMismatch));

    let mut corrupt = InitializeAgent { agent: slot(AGENT_KEY, false, AGENT_ACCOUNT_SPACE), wallet: slot(WALLET, true, 0) };
    corrupt.agent.data[10] = 5;
    assert_eq!(initialize_agent(&mut corrupt, T0), Err(VerifiAgentError::InvalidAccountData));
}

#[test]
fn first_log_writes_trace_zero() {
    let agent = registered_agent(T0);
    let (r, agent, trace) = log_once(agent, [1u8; 32], "login", T0 + 1);
    assert_eq!(r, Ok(()));
    let t = trace_of(&trace);
    assert_eq!(t.index, 0);
    assert_eq!(t.agent, AGENT_KEY);
    assert_eq!(t.action_hash, [1u8; 32]);
    assert_eq!(t.action_type, "login");
    assert_eq!(t.timestamp, T0 + 1);
    assert!(t.verified);
    let a = agent_of(&agent);
    assert_eq!(a.total_activities, 1);
    assert_eq!(a.trust_level, TrustLevel::L1Confirmed);
    assert_eq!(a.last_activity, T0 + 1);
    assert_eq!(a.created_at, T0);
}

#[test]
fn end_to_end_tiers() {
    let mut agent = registered_agent(T0);
    assert_eq!(agent_of(&agent).trust_level, TrustLevel::L0Registered);
    let (r, next, trace) = log_once(agent, [1u8; 32], "h1", T0 + 1);
    assert_eq!(r, Ok(()));
    assert_eq!(trace_of(&trace).index, 0);
    agent = next;
    assert_eq!(agent_of(&agent).total_activities, 1);
    assert_eq!(agent_of(&agent).trust_level, TrustLevel::L1Confirmed);
    for i in 1..20u64 {
        let (r, next, trace) = log_once(agent, [2u8; 32], "work", T0 + 8 * DAY);
        assert_eq!(r, Ok(()));
        assert_eq!(trace_of(&trace).index, i);
        agent = next;
    }
    assert_eq!(agent_of(&agent).total_activities, 20);
    assert_eq!(agent_of(&agent).trust_level, TrustLevel::L2Active);
    for i in 20..100u64 {
        let (r, next, trace) = log_once(agent, [3u8; 32], "work", T0 + 31 * DAY);
        assert_eq!(r, Ok(()));
        assert_eq!(trace_of(&trace).index, i);
        agent = next;
    }
    assert_eq!(agent_of(&agent).total_activities, 100);
    assert_eq!(agent_of(&agent).trust_level, TrustLevel::L3Trusted);
}

#[test]
fn indexes_are_dense() {
    let mut agent = registered_agent(T0);
    let mut seen = Vec::new();
    for k in 0..7i64 {
        let (r, next, trace) = log_once(agent, [k as u8; 32], "step", T0 + k);
        assert_eq!(r, Ok(()));
        seen.push(trace_of(&trace).index);
        agent = next;
    }
    assert_eq!(seen, vec![0, 1, 2, 3, 4, 5, 6]);
    assert_eq!(agent_of(&agent).total_activities, 7);
}

#[test]
fn log_without_signature_writes_nothing() {
    let agent = registered_agent(T0);
    let before = agent.data.clone();
    let mut ctx = LogActivity { agent, trace: slot([0u8; 32], false, TRACE_ACCOUNT_SPACE), wallet: slot(WALLET, false, 0) };
    assert_eq!(log_activity(&mut ctx, [1u8; 32], "x".to_string(), T0 + 1), Err(VerifiAgentError::MissingSignature));
    assert_eq!(ctx.agent.data, before);
    assert_eq!(ctx.trace.data, vec![0u8; TRACE_ACCOUNT_SPACE]);
}

#[test]
fn log_by_other_wallet_is_refused() {
    let agent = registered_agent(T0);
    let mut ctx = LogActivity { agent, trace: slot([0u8; 32], false, TRACE_ACCOUNT_SPACE), wallet: slot([99u8; 32], true, 0) };
    assert_eq!(log_activity(&mut ctx, [1u8; 32], "x".to_string(), T0 + 1), Err(VerifiAgentError::MissingSignature));
}

#[test]
fn log_counter_overflow_writes_nothing() {
    let full = Agent { wallet: WALLET, trust_level: TrustLevel::L3Trusted, total_activities: u64::MAX, created_at: T0, last_activity: T0 };
    let data = encode_agent(&full);
    let agent = AccountSlot { key: AGENT_KEY, is_signer: false, data: data.clone() };
    let (r, agent, trace) = log_once(agent, [1u8; 32], "one more", T0 + DAY);
    assert_eq!(r, Err(VerifiAgentError::CounterOverflow));
    assert_eq!(agent.data, data);
    assert_eq!(trace.data, vec![0u8; TRACE_ACCOUNT_SPACE]);
}

#[test]
fn log_checks_slots_and_label() {
    let agent = registered_agent(T0);
    let (r, agent, _) = log_once(agent, [1u8; 32], &"z".repeat(97), T0 + 1);
    assert_eq!(r, Err(VerifiAgentError::MalformedData));
    let (r, agent, _) = log_once(agent, [1u8; 32], &"z".repeat(96), T0 + 1);
    assert_eq!(r, Ok(()));

    let bad_agent = AccountSlot { key: AGENT_KEY, is_signer: false, data: vec![0u8; AGENT_ACCOUNT_SPACE] };
    let (r, _, _) = log_once(bad_agent, [1u8; 32], "x", T0 + 1);
    assert_eq!(r, Err(VerifiAgentError::InvalidAccountData));

    let mut small = LogActivity { agent: AccountSlot { key: AGENT_KEY, is_signer: false, data: agent.data.clone() }, trace: slot([0u8; 32], false, 100), wallet: slot(WALLET, true, 0) };
    assert_eq!(log_activity(&mut small, [1u8; 32], "x".to_string(), T0 + 2), Err(VerifiAgentError::StorageSizeMismatch));

    let used = encode_trace(&ActivityTrace { agent: AGENT_KEY, action_hash: [0u8; 32], action_type: String::new(), timestamp: 0, verified: true, index: 0 }).unwrap();
    let mut taken = LogActivity { agent: AccountSlot { key: AGENT_KEY, is_signer: false, data: agent.data.clone() }, trace: AccountSlot { key: [0u8; 32], is_signer: false, data: used }, wallet: slot(WALLET, true, 0) };
    assert_eq!(log_activity(&mut taken, [1u8; 32], "x".to_string(), T0 + 2), Err(VerifiAgentError::AlreadyInitialized));

    let mut dirty = LogActivity { agent: AccountSlot { key: AGENT_KEY, is_signer: false, data: agent.data.clone() }, trace: slot([0u8; 32], false, TRACE_ACCOUNT_SPACE), wallet: slot(WALLET, true, 0) };
    dirty.trace.data[100] = 1;
    assert_eq!(log_activity(&mut dirty, [1u8; 32], "x".to_string(), T0 + 2), Err(VerifiAgentError::InvalidAccountData));
}

#[test]
fn verify_trace_rejects_empty_slot() {
    let r = verify_trace(&VerifyTrace { trace: slot([0u8; 32], false, TRACE_ACCOUNT_SPACE) });
    assert_eq!(r, Err(VerifiAgentError::InvalidAccountData));
}

#[test]
fn process_instruction_dispatches() {
    let mut accounts = vec![slot(AGENT_KEY, false, AGENT_ACCOUNT_SPACE), slot(WALLET, true, 0)];
    let init = encode_instruction(&VerifiAgentInstruction::InitializeAgent).unwrap();
    assert_eq!(process_instruction(&PROGRAM, &mut accounts, &init, T0), Ok(()));
    assert_eq!(agent_of(&accounts[0]).wallet, WALLET);
    assert_eq!(process_instruction(&PROGRAM, &mut accounts, &init, T0), Err(VerifiAgentError::AlreadyInitialized));

    let log = encode_instruction(&VerifiAgentInstruction::LogActivity { action_hash: [5u8; 32], action_type: "call".to_string() }).unwrap();
    let mut triple = vec![slot([44u8; 32], false, TRACE_ACCOUNT_SPACE), AccountSlot { key: AGENT_KEY, is_signer: false, data: accounts[0].data.clone() }, slot(WALLET, true, 0)];
    assert_eq!(process_instruction(&PROGRAM, &mut triple, &log, T0 + 5), Ok(()));
    assert_eq!(trace_of(&triple[0]).action_type, "call");
    assert_eq!(agent_of(&triple[1]).total_activities, 1);

    let mut short = vec![slot(AGENT_KEY, false, AGENT_ACCOUNT_SPACE)];
    assert_eq!(process_instruction(&PROGRAM, &mut short, &init, T0), Err(VerifiAgentError::NotEnoughAccountKeys));
    assert_eq!(process_instruction(&PROGRAM, &mut short, &[7u8], T0), Err(VerifiAgentError::MalformedData));
}

#[test]
fn addresses_follow_the_seeds() {
    let program = solana_program::pubkey::Pubkey::new_from_array(PROGRAM);
    let (expected, bump) = solana_program::pubkey::Pubkey::find_program_address(&[b"agent", &WALLET], &program);
    assert_eq!(agent_address(&PROGRAM, &WALLET), Some((expected.to_bytes(), bump)));
    assert_ne!(expected.to_bytes(), WALLET);

    let (t3, b3) = solana_program::pubkey::Pubkey::find_program_address(&[b"trace", &WALLET, &3u64.to_le_bytes()], &program);
    assert_eq!(trace_address(&PROGRAM, &WALLET, 3), Some((t3.to_bytes(), b3)));
    assert_ne!(trace_address(&PROGRAM, &WALLET, 3), trace_address(&PROGRAM, &WALLET, 4));
    assert_eq!(agent_seeds(&WALLET), vec![b"agent".to_vec(), WALLET.to_vec()]);
    assert_eq!(trace_seeds(&WALLET, 258), vec![b"trace".to_vec(), WALLET.to_vec(), vec![2u8, 1, 0, 0, 0, 0, 0, 0]]);
}
