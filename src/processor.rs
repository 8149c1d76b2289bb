//! The instruction processor: validates a request against the storage slots it
//! names and, when every precondition holds, writes the new records.
//!
//! A slot is read as one of three states: it holds a valid record, it is
//! empty (every byte zero), or it is corrupt. All checks and encodings happen
//! before the first write, so a failed request leaves every slot unchanged.
use vstd::prelude::*;
use crate::codec::{
    decode_instruction, instruction_decoded, InstructionView, VerifiAgentInstruction,
    agent_decoded, agent_layout, all_zero, bytes_match, decode_agent, decode_trace, encode_agent,
    encode_trace, label_bytes, label_fits, trace_decoded, trace_layout, zeros, ActivityTrace, Agent,
    lemma_agent_round_trip, lemma_trace_round_trip, TraceView, AGENT_ACCOUNT_SPACE, MAX_ACTION_TYPE_LEN, TRACE_ACCOUNT_SPACE,
};
use crate::error::VerifiAgentError;
use crate::tier::{calculate_trust_level, days_active, days_between, tier, TrustLevel};

verus! {

/// A storage slot handed to the processor by the host: its address, whether
/// the transaction carries that address's signature, and its bytes.
pub struct AccountSlot {
    pub key: [u8; 32],
    pub is_signer: bool,
    pub data: Vec<u8>,
}

/// A slot as a mathematical value.
pub struct SlotView {
    pub key: [u8; 32],
    pub is_signer: bool,
    pub data: Seq<u8>,
}

impl SlotView {
    /// The same slot holding `data`.
    pub open spec fn with_data(self, data: Seq<u8>) -> SlotView {
        SlotView { key: self.key, is_signer: self.is_signer, data }
    }
}

impl View for AccountSlot {
    type V = SlotView;

    open spec fn view(&self) -> SlotView {
        SlotView { key: self.key, is_signer: self.is_signer, data: self.data@ }
    }
}

impl AccountSlot {
    /// A copy of the slot.
    pub fn duplicate(&self) -> (r: AccountSlot)
        ensures
            r@ == self@,
    {
        AccountSlot {
            key: self.key,
            is_signer: self.is_signer,
            data: vstd::slice::slice_to_vec(self.data.as_slice()),
        }
    }
}

/// The slots of an InitializeAgent request.
pub struct InitializeAgent {
    /// The empty slot that receives the Agent record.
    pub agent: AccountSlot,
    /// The wallet that owns the new agent and signs the request.
    pub wallet: AccountSlot,
}

/// The slots of a LogActivity request.
pub struct LogActivity {
    /// The slot holding the agent's record.
    pub agent: AccountSlot,
    /// The empty slot that receives the new trace.
    pub trace: AccountSlot,
    /// The agent's wallet, which signs the request.
    pub wallet: AccountSlot,
}

/// The slot of a VerifyTrace request.
pub struct VerifyTrace {
    pub trace: AccountSlot,
}

/// Whether a slot's bytes are all zero, as freshly allocated storage is.
pub open spec fn is_blank(b: Seq<u8>) -> bool {
    b == zeros(b.len() as int)
}

/// The Agent record that `wallet` gets when it registers at time `now`.
pub open spec fn new_agent(wallet: [u8; 32], now: i64) -> Agent {
    Agent {
        wallet,
        trust_level: TrustLevel::L0Registered,
        total_activities: 0,
        created_at: now,
        last_activity: now,
    }
}

/// Agent `a` after one more activity logged at time `now`.
pub open spec fn logged_agent(a: Agent, now: i64) -> Agent {
    Agent {
        wallet: a.wallet,
        trust_level: tier((a.total_activities + 1) as u64, days_between(a.created_at, now) as i64),
        total_activities: (a.total_activities + 1) as u64,
        created_at: a.created_at,
        last_activity: now,
    }
}

/// The trace of an activity logged at time `now` as number `index` of the
/// agent whose record lives at `agent_key`.
pub open spec fn new_trace(
    agent_key: [u8; 32],
    action_hash: [u8; 32],
    action_type: Seq<char>,
    now: i64,
    index: u64,
) -> TraceView {
    TraceView { agent: agent_key, action_hash, action_type, timestamp: now, verified: true, index }
}

/// What InitializeAgent does: the new bytes of the agent slot, or the first
/// precondition that fails.
pub open spec fn initialize_outcome(agent: SlotView, wallet: SlotView, now: i64) -> Result<
    Seq<u8>,
    VerifiAgentError,
> {
    if !wallet.is_signer {
        Err(VerifiAgentError::MissingSignature)
    } else if agent.data.len() != AGENT_ACCOUNT_SPACE {
        Err(VerifiAgentError::StorageSizeMismatch)
    } else if agent_decoded(agent.data) is Some {
        Err(VerifiAgentError::AlreadyInitialized)
    } else if !is_blank(agent.data) {
        Err(VerifiAgentError::InvalidAccountData)
    } else {
        Ok(agent_layout(new_agent(wallet.key, now)))
    }
}

/// What LogActivity does: the new bytes of the agent slot and of the trace
/// slot, or the first precondition that fails.
pub open spec fn log_outcome(
    agent: SlotView,
    trace: SlotView,
    wallet: SlotView,
    action_hash: [u8; 32],
    action_type: Seq<char>,
    now: i64,
) -> Result<(Seq<u8>, Seq<u8>), VerifiAgentError> {
    if !wallet.is_signer {
        Err(VerifiAgentError::MissingSignature)
    } else if agent_decoded(agent.data) is None {
        Err(VerifiAgentError::InvalidAccountData)
    } else if (agent_decoded(agent.data)->0).wallet@ != wallet.key@ {
        Err(VerifiAgentError::MissingSignature)
    } else if trace.data.len() != TRACE_ACCOUNT_SPACE {
        Err(VerifiAgentError::StorageSizeMismatch)
    } else if trace_decoded(trace.data) is Some {
        Err(VerifiAgentError::AlreadyInitialized)
    } else if !is_blank(trace.data) {
        Err(VerifiAgentError::InvalidAccountData)
    } else if !label_fits(action_type) {
        Err(VerifiAgentError::MalformedData)
    } else if (agent_decoded(agent.data)->0).total_activities == u64::MAX {
        Err(VerifiAgentError::CounterOverflow)
    } else {
        let a = agent_decoded(agent.data)->0;
        Ok(
            (
                agent_layout(logged_agent(a, now)),
                trace_layout(
                    new_trace(agent.key, action_hash, action_type, now, a.total_activities),
                ),
            ),
        )
    }
}

/// Whether two keys are equal.
fn keys_equal(a: &[u8; 32], b: &[u8; 32]) -> (r: bool)
    ensures
        r == (a@ == b@),
{
    let r = bytes_match(a.as_slice(), 0, b.as_slice());
    assert(a@.subrange(0, 32) =~= a@);
    r
}

/// Registers the signing wallet's agent in the empty agent slot, at time `now`.
pub fn initialize_agent(ctx: &mut InitializeAgent, now: i64) -> (r: Result<(), VerifiAgentError>)
    ensures
        final(ctx).wallet@ == old(ctx).wallet@,
        match initialize_outcome(old(ctx).agent@, old(ctx).wallet@, now) {
            Ok(data) => r is Ok && final(ctx).agent@ == old(ctx).agent@.with_data(data),
            Err(e) => r == Err::<(), VerifiAgentError>(e) && final(ctx).agent@ == old(ctx).agent@,
        },
{
    if !ctx.wallet.is_signer {
        return Err(VerifiAgentError::MissingSignature);
    }
    if ctx.agent.data.len() != AGENT_ACCOUNT_SPACE {
        return Err(VerifiAgentError::StorageSizeMismatch);
    }
    if decode_agent(ctx.agent.data.as_slice()).is_ok() {
        return Err(VerifiAgentError::AlreadyInitialized);
    }
    if !all_zero(ctx.agent.data.as_slice(), 0, AGENT_ACCOUNT_SPACE) {
        proof {
            assert(ctx.agent.data@.subrange(0, 65) =~= ctx.agent.data@);
        }
        return Err(VerifiAgentError::InvalidAccountData);
    }
    proof {
        assert(ctx.agent.data@.subrange(0, 65) =~= ctx.agent.data@);
    }
    let agent = Agent {
        wallet: ctx.wallet.key,
        trust_level: TrustLevel::L0Registered,
        total_activities: 0,
        created_at: now,
        last_activity: now,
    };
    ctx.agent.data = encode_agent(&agent);
    Ok(())
}

/// Records one activity of the agent: writes its trace, numbered by the
/// agent's count before the call, into the empty trace slot, and counts the
/// activity in the agent's record, at time `now`.
pub fn log_activity(
    ctx: &mut LogActivity,
    action_hash: [u8; 32],
    action_type: String,
    now: i64,
) -> (r: Result<(), VerifiAgentError>)
    ensures
        final(ctx).wallet@ == old(ctx).wallet@,
        match log_outcome(
            old(ctx).agent@,
            old(ctx).trace@,
            old(ctx).wallet@,
            action_hash,
            action_type@,
            now,
        ) {
            Ok((agent_data, trace_data)) => r is Ok && final(ctx).agent@ == old(ctx).agent@.with_data(
                agent_data,
            ) && final(ctx).trace@ == old(ctx).trace@.with_data(trace_data),
            Err(e) => r == Err::<(), VerifiAgentError>(e) && final(ctx).agent@ == old(ctx).agent@
                && final(ctx).trace@ == old(ctx).trace@,
        },
{
    if !ctx.wallet.is_signer {
        return Err(VerifiAgentError::MissingSignature);
    }
    let agent = match decode_agent(ctx.agent.data.as_slice()) {
        Ok(a) => a,
        Err(_) => {
            return Err(VerifiAgentError::InvalidAccountData);
        },
    };
    if !keys_equal(&agent.wallet, &ctx.wallet.key) {
        return Err(VerifiAgentError::MissingSignature);
    }
    if ctx.trace.data.len() != TRACE_ACCOUNT_SPACE {
        return Err(VerifiAgentError::StorageSizeMismatch);
    }
    if decode_trace(ctx.trace.data.as_slice()).is_ok() {
        return Err(VerifiAgentError::AlreadyInitialized);
    }
    let blank = all_zero(ctx.trace.data.as_slice(), 0, TRACE_ACCOUNT_SPACE);
    proof {
        assert(ctx.trace.data@.subrange(0, 189) =~= ctx.trace.data@);
    }
    if !blank {
        return Err(VerifiAgentError::InvalidAccountData);
    }
    let fits = label_bytes(&action_type).len() <= MAX_ACTION_TYPE_LEN;
    if !fits {
        return Err(VerifiAgentError::MalformedData);
    }
    if agent.total_activities == u64::MAX {
        return Err(VerifiAgentError::CounterOverflow);
    }
    let trace = ActivityTrace {
        agent: ctx.agent.key,
        action_hash,
        action_type,
        timestamp: now,
        verified: true,
        index: agent.total_activities,
    };
    let total = agent.total_activities + 1;
    let updated = Agent {
        wallet: agent.wallet,
        trust_level: calculate_trust_level(total, days_active(agent.created_at, now)),
        total_activities: total,
        created_at: agent.created_at,
        last_activity: now,
    };
    let trace_data = match encode_trace(&trace) {
        Ok(d) => d,
        Err(e) => {
            return Err(e);
        },
    };
    let agent_data = encode_agent(&updated);
    ctx.trace.data = trace_data;
    ctx.agent.data = agent_data;
    Ok(())
}

/// Reads the trace stored in the slot; `InvalidAccountData` when the slot does
/// not hold one.
pub fn verify_trace(ctx: &VerifyTrace) -> (r: Result<ActivityTrace, VerifiAgentError>)
    ensures
        match trace_decoded(ctx.trace.data@) {
            Some(t) => r matches Ok(v) && v@ == t,
            None => r == Err::<ActivityTrace, VerifiAgentError>(
                VerifiAgentError::InvalidAccountData,
            ),
        },
{
    match decode_trace(ctx.trace.data.as_slice()) {
        Ok(t) => Ok(t),
        Err(_) => Err(VerifiAgentError::InvalidAccountData),
    }
}

/// The views of a list of slots.
pub open spec fn slots_view(slots: Seq<AccountSlot>) -> Seq<SlotView> {
    slots.map_values(|s: AccountSlot| s@)
}

/// What a request does to the list of slots it names: the new list, or the
/// first precondition that fails. InitializeAgent takes the agent slot and the
/// wallet; LogActivity takes the trace slot, the agent slot and the wallet.
pub open spec fn instruction_outcome(slots: Seq<SlotView>, data: Seq<u8>, now: i64) -> Result<
    Seq<SlotView>,
    VerifiAgentError,
> {
    match instruction_decoded(data) {
        None => Err(VerifiAgentError::MalformedData),
        Some(InstructionView::InitializeAgent) => {
            if slots.len() < 2 {
                Err(VerifiAgentError::NotEnoughAccountKeys)
            } else {
                match initialize_outcome(slots[0], slots[1], now) {
                    Ok(d) => Ok(slots.update(0, slots[0].with_data(d))),
                    Err(e) => Err(e),
                }
            }
        },
        Some(InstructionView::LogActivity { action_hash, action_type }) => {
            if slots.len() < 3 {
                Err(VerifiAgentError::NotEnoughAccountKeys)
            } else {
                match log_outcome(slots[1], slots[0], slots[2], action_hash, action_type, now) {
                    Ok((ad, td)) => Ok(
                        slots.update(0, slots[0].with_data(td)).update(1, slots[1].with_data(ad)),
                    ),
                    Err(e) => Err(e),
                }
            }
        },
    }
}

/// Decodes `instruction_data` and carries out the request on `accounts` at
/// time `now`. On failure no slot changes. The program id is part of the
/// host's calling convention; the slots' addresses are the host's to check.
pub fn process_instruction(
    _program_id: &[u8; 32],
    accounts: &mut Vec<AccountSlot>,
    instruction_data: &[u8],
    now: i64,
) -> (r: Result<(), VerifiAgentError>)
    ensures
        match instruction_outcome(slots_view(old(accounts)@), instruction_data@, now) {
            Ok(slots) => r is Ok && slots_view(final(accounts)@) == slots,
            Err(e) => r == Err::<(), VerifiAgentError>(e) && slots_view(final(accounts)@)
                == slots_view(old(accounts)@),
        },
{
    let ghost before = slots_view(accounts@);
    let instruction = match decode_instruction(instruction_data) {
        Ok(i) => i,
        Err(e) => {
            return Err(e);
        },
    };
    match instruction {
        VerifiAgentInstruction::InitializeAgent => {
            if accounts.len() < 2 {
                return Err(VerifiAgentError::NotEnoughAccountKeys);
            }
            let mut ctx = InitializeAgent {
                agent: accounts[0].duplicate(),
                wallet: accounts[1].duplicate(),
            };
            let r = initialize_agent(&mut ctx, now);
            if r.is_ok() {
                accounts[0] = ctx.agent;
                proof {
                    assert(slots_view(accounts@) =~= before.update(0, before[0].with_data(ctx.agent.data@)));
                }
            }
            r
        },
        VerifiAgentInstruction::LogActivity { action_hash, action_type } => {
            if accounts.len() < 3 {
                return Err(VerifiAgentError::NotEnoughAccountKeys);
            }
            let mut ctx = LogActivity {
                agent: accounts[1].duplicate(),
                trace: accounts[0].duplicate(),
                wallet: accounts[2].duplicate(),
            };
            let r = log_activity(&mut ctx, action_hash, action_type, now);
            if r.is_ok() {
                let ghost agent_data = ctx.agent.data@;
                let ghost trace_data = ctx.trace.data@;
                accounts[0] = ctx.trace;
                accounts[1] = ctx.agent;
                proof {
                    assert(slots_view(accounts@) =~= before.update(0, before[0].with_data(trace_data)).update(
                        1,
                        before[1].with_data(agent_data),
                    ));
                }
            }
            r
        },
    }
}

/// Whether a trace slot is in the empty state: of the trace size, holding no
/// valid trace, and all zero.
pub open spec fn empty_trace_slot(trace: SlotView) -> bool {
    &&& trace.data.len() == TRACE_ACCOUNT_SPACE
    &&& trace_decoded(trace.data) is None
    &&& is_blank(trace.data)
}

/// A second InitializeAgent on the slot that a first one filled fails with
/// `AlreadyInitialized`; by the contract of `initialize_agent` it then leaves
/// the record as it was.
pub proof fn lemma_initialize_twice_fails(
    agent: SlotView,
    wallet: SlotView,
    now: i64,
    second_wallet: SlotView,
    later: i64,
)
    requires
        initialize_outcome(agent, wallet, now) is Ok,
        second_wallet.is_signer,
    ensures
        initialize_outcome(
            agent.with_data(initialize_outcome(agent, wallet, now)->Ok_0),
            second_wallet,
            later,
        ) == Err::<Seq<u8>, VerifiAgentError>(VerifiAgentError::AlreadyInitialized),
{
    lemma_agent_round_trip(new_agent(wallet.key, now));
}

/// A request whose wallet did not sign fails with `MissingSignature`; by the
/// contracts of the operations it then writes nothing.
pub proof fn lemma_unsigned_requests_fail(
    agent: SlotView,
    trace: SlotView,
    wallet: SlotView,
    action_hash: [u8; 32],
    action_type: Seq<char>,
    now: i64,
)
    requires
        !wallet.is_signer,
    ensures
        initialize_outcome(agent, wallet, now) == Err::<Seq<u8>, VerifiAgentError>(
            VerifiAgentError::MissingSignature,
        ),
        log_outcome(agent, trace, wallet, action_hash, action_type, now) == Err::<
            (Seq<u8>, Seq<u8>),
            VerifiAgentError,
        >(VerifiAgentError::MissingSignature),
{
}

/// Logging one more activity for an agent whose counter is at its largest
/// value fails with `CounterOverflow`, when every earlier precondition holds;
/// by the contract of `log_activity` neither slot is then written.
pub proof fn lemma_counter_overflow_fails(
    agent: SlotView,
    trace: SlotView,
    wallet: SlotView,
    action_hash: [u8; 32],
    action_type: Seq<char>,
    now: i64,
)
    requires
        wallet.is_signer,
        agent_decoded(agent.data) matches Some(a) && a.wallet@ == wallet.key@
            && a.total_activities == u64::MAX,
        empty_trace_slot(trace),
        label_fits(action_type),
    ensures
        log_outcome(agent, trace, wallet, action_hash, action_type, now) == Err::<
            (Seq<u8>, Seq<u8>),
            VerifiAgentError,
        >(VerifiAgentError::CounterOverflow),
{
}

/// The arguments of one LogActivity call against a fixed agent and wallet.
pub struct LogCall {
    pub trace: SlotView,
    pub action_hash: [u8; 32],
    pub action_type: Seq<char>,
    pub now: i64,
}

/// Whether `agents` and `traces` are the records written by the successful
/// LogActivity calls `calls`, made in turn against the agent slot `agent`
/// starting from `agents[0]`.
pub open spec fn successful_logs(
    agent: SlotView,
    wallet: SlotView,
    calls: Seq<LogCall>,
    agents: Seq<Seq<u8>>,
    traces: Seq<Seq<u8>>,
) -> bool {
    &&& agents.len() == calls.len() + 1
    &&& traces.len() == calls.len()
    &&& forall|k: int|
        0 <= k < calls.len() ==> #[trigger] log_outcome(
            agent.with_data(agents[k]),
            calls[k].trace,
            wallet,
            calls[k].action_hash,
            calls[k].action_type,
            calls[k].now,
        ) == Ok::<(Seq<u8>, Seq<u8>), VerifiAgentError>((agents[k + 1], traces[k]))
}

proof fn lemma_logs_count(
    agent: SlotView,
    wallet: SlotView,
    calls: Seq<LogCall>,
    agents: Seq<Seq<u8>>,
    traces: Seq<Seq<u8>>,
    n: int,
)
    requires
        successful_logs(agent, wallet, calls, agents, traces),
        agent_decoded(agents[0]) matches Some(a) && a.total_activities == 0,
        0 <= n <= calls.len(),
    ensures
        agent_decoded(agents[n]) matches Some(a) && a.total_activities == n,
        forall|k: int|
            0 <= k < n ==> (#[trigger] trace_decoded(traces[k]) matches Some(t) && t.index == k),
    decreases n,
{
    if n > 0 {
        lemma_logs_count(agent, wallet, calls, agents, traces, n - 1);
        let k = n - 1;
        let c = calls[k];
        assert(log_outcome(agent.with_data(agents[k]), c.trace, wallet, c.action_hash, c.action_type, c.now)
            == Ok::<(Seq<u8>, Seq<u8>), VerifiAgentError>((agents[k + 1], traces[k])));
        let a = agent_decoded(agents[k])->0;
        lemma_agent_round_trip(logged_agent(a, c.now));
        lemma_trace_round_trip(new_trace(agent.key, c.action_hash, c.action_type, c.now, a.total_activities));
    }
}

/// After N successful LogActivity calls against a freshly registered agent,
/// the traces carry the numbers 0, 1, ..., N-1, one each and in the order of
/// the calls, and the agent counts N activities.
pub proof fn lemma_trace_indexes_dense(
    agent: SlotView,
    wallet: SlotView,
    created_at: i64,
    calls: Seq<LogCall>,
    agents: Seq<Seq<u8>>,
    traces: Seq<Seq<u8>>,
)
    requires
        successful_logs(agent, wallet, calls, agents, traces),
        agents[0] == agent_layout(new_agent(wallet.key, created_at)),
    ensures
        agent_decoded(agents[calls.len() as int]) matches Some(a) && a.total_activities
            == calls.len(),
        forall|k: int|
            0 <= k < calls.len() ==> (#[trigger] trace_decoded(traces[k]) matches Some(t)
                && t.index == k),
        Set::new(
            |i: int|
                exists|k: int|
                    0 <= k < calls.len() && (#[trigger] trace_decoded(traces[k])->0).index == i,
        ) == Set::new(|i: int| 0 <= i < calls.len()),
{
    lemma_agent_round_trip(new_agent(wallet.key, created_at));
    lemma_logs_count(agent, wallet, calls, agents, traces, calls.len() as int);
    let produced = Set::new(
        |i: int|
            exists|k: int| 0 <= k < calls.len() && (#[trigger] trace_decoded(traces[k])->0).index == i,
    );
    assert forall|i: int| 0 <= i < calls.len() implies produced.contains(i) by {
        assert(trace_decoded(traces[i]) is Some);
    }
    assert(produced =~= Set::new(|i: int| 0 <= i < calls.len()));
}

} // verus!
