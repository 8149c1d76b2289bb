//! Fixed binary layout of the stored records and of the instruction envelope.
//!
//! Integers are little-endian, a string is a 4-byte length followed by its
//! UTF-8 bytes, a stored record starts with an 8-byte discriminator (the first
//! bytes of SHA-256 over "account:" and the record's name) and fills its slot,
//! the unused tail being zero.
use vstd::prelude::*;
use vstd::bytes::*;
use vstd::string::*;
use vstd::utf8::*;
use crate::error::VerifiAgentError;
use crate::ledger::{sha256, sha256_of};
use crate::tier::TrustLevel;

verus! {

/// Bytes of an Agent record: 32-byte key, tier, counter and two timestamps.
pub const AGENT_LEN: usize = 57;

/// Bytes of the discriminator in front of every stored record.
pub const DISCRIMINATOR_LEN: usize = 8;

/// Size of a slot that holds an Agent record.
pub const AGENT_ACCOUNT_SPACE: usize = 65;

/// The agent identity record.
#[derive(Clone, Copy, Debug, PartialEq, Eq)]
pub struct Agent {
    pub wallet: [u8; 32],
    pub trust_level: TrustLevel,
    pub total_activities: u64,
    pub created_at: i64,
    pub last_activity: i64,
}

/// The eight bytes of a signed integer, two's complement, little-endian.
pub open spec fn i64_bytes(v: i64) -> Seq<u8> {
    spec_u64_to_le_bytes(v as u64)
}

/// "account:Agent" in ASCII.
pub open spec fn agent_tag() -> Seq<u8> {
    seq![97u8, 99, 99, 111, 117, 110, 116, 58, 65, 103, 101, 110, 116]
}

/// The first eight bytes of a digest.
pub open spec fn discriminator_of(tag: Seq<u8>) -> Seq<u8> {
    Seq::new(8, |i: int| sha256_of(tag)[i])
}

/// The stored form of an Agent.
pub open spec fn agent_layout(a: Agent) -> Seq<u8> {
    discriminator_of(agent_tag()) + a.wallet@ + seq![a.trust_level.rank() as u8]
        + spec_u64_to_le_bytes(a.total_activities) + i64_bytes(a.created_at) + i64_bytes(
        a.last_activity,
    )
}

/// The Agent that `b` stores, if it is the stored form of one.
pub open spec fn agent_decoded(b: Seq<u8>) -> Option<Agent> {
    if exists|a: Agent| agent_layout(a) == b {
        Some(choose|a: Agent| agent_layout(a) == b)
    } else {
        None
    }
}

proof fn lemma_i64_u64_cast(v: i64)
    ensures
        (v as u64) as i64 == v,
{
    assert((v as u64) as i64 == v) by (bit_vector);
}

proof fn lemma_agent_layout_parts(a: Agent)
    ensures
        agent_layout(a).len() == AGENT_ACCOUNT_SPACE,
        agent_layout(a).subrange(0, 8) == discriminator_of(agent_tag()),
        agent_layout(a).subrange(8, 40) == a.wallet@,
        agent_layout(a)[40] == a.trust_level.rank() as u8,
        agent_layout(a).subrange(41, 49) == spec_u64_to_le_bytes(a.total_activities),
        agent_layout(a).subrange(49, 57) == i64_bytes(a.created_at),
        agent_layout(a).subrange(57, 65) == i64_bytes(a.last_activity),
{
    lemma_auto_spec_u64_to_from_le_bytes();
    let l = agent_layout(a);
    assert(l.subrange(0, 8) =~= discriminator_of(agent_tag()));
    assert(l.subrange(8, 40) =~= a.wallet@);
    assert(l.subrange(41, 49) =~= spec_u64_to_le_bytes(a.total_activities));
    assert(l.subrange(49, 57) =~= i64_bytes(a.created_at));
    assert(l.subrange(57, 65) =~= i64_bytes(a.last_activity));
}

/// Two Agents with the same stored form are the same Agent.
pub proof fn lemma_agent_layout_injective(a: Agent, b: Agent)
    requires
        agent_layout(a) == agent_layout(b),
    ensures
        a == b,
{
    lemma_agent_layout_parts(a);
    lemma_agent_layout_parts(b);
    lemma_auto_spec_u64_to_from_le_bytes();
    assert(a.wallet =~= b.wallet);
    crate::tier::lemma_rank_injective(a.trust_level, b.trust_level);
    lemma_i64_u64_cast(a.created_at);
    lemma_i64_u64_cast(b.created_at);
    lemma_i64_u64_cast(a.last_activity);
    lemma_i64_u64_cast(b.last_activity);
}

/// Decoding the stored form of an Agent gives back that Agent, and the stored
/// form fills exactly a slot of the Agent size.
pub proof fn lemma_agent_round_trip(a: Agent)
    ensures
        agent_decoded(agent_layout(a)) == Some(a),
        agent_layout(a).len() == AGENT_ACCOUNT_SPACE,
{
    lemma_agent_layout_parts(a);
    let b = choose|b: Agent| agent_layout(b) == agent_layout(a);
    lemma_agent_layout_injective(a, b);
}

/// Bytes that decode as an Agent are exactly that Agent's stored form.
pub proof fn lemma_agent_bytes_round_trip(bytes: Seq<u8>)
    requires
        agent_decoded(bytes) is Some,
    ensures
        agent_layout(agent_decoded(bytes)->0) == bytes,
{
}

/// Appends `src` to `out`.
fn push_bytes(out: &mut Vec<u8>, src: &[u8])
    ensures
        final(out)@ == old(out)@ + src@,
{
    let mut i: usize = 0;
    while i < src.len()
        invariant
            i <= src@.len(),
            out@ == old(out)@ + src@.subrange(0, i as int),
        decreases src@.len() - i,
    {
        out.push(src[i]);
        i += 1;
        assert(out@ =~= old(out)@ + src@.subrange(0, i as int));
    }
    assert(src@.subrange(0, src@.len() as int) =~= src@);
}

/// The 32 bytes of `data` from `at`.
fn read_key(data: &[u8], at: usize) -> (r: [u8; 32])
    requires
        at + 32 <= data@.len(),
    ensures
        r@ == data@.subrange(at as int, at + 32),
{
    let n = data.len();
    let mut k: [u8; 32] = [0u8; 32];
    let mut i: usize = 0;
    while i < 32
        invariant
            n == data@.len(),
            at + 32 <= data@.len(),
            i <= 32,
            forall|j: int| 0 <= j < i ==> k@[j] == data@[at + j],
        decreases 32 - i,
    {
        k[i] = data[at + i];
        i += 1;
    }
    assert(k@ =~= data@.subrange(at as int, at + 32));
    k
}

/// The little-endian integer in the 8 bytes of `data` from `at`.
fn read_u64(data: &[u8], at: usize) -> (r: u64)
    requires
        at + 8 <= data@.len(),
    ensures
        r == spec_u64_from_le_bytes(data@.subrange(at as int, at + 8)),
{
    let n = data.len();
    u64_from_le_bytes(vstd::slice::slice_subrange(data, at, at + 8))
}

/// Whether the bytes of `data` from `at` equal `expected`.
pub(crate) fn bytes_match(data: &[u8], at: usize, expected: &[u8]) -> (r: bool)
    requires
        at + expected@.len() <= data@.len(),
    ensures
        r == (data@.subrange(at as int, at + expected@.len()) == expected@),
{
    let n = data.len();
    let mut i: usize = 0;
    while i < expected.len()
        invariant
            n == data@.len(),
            at + expected@.len() <= data@.len(),
            i <= expected@.len(),
            forall|j: int| 0 <= j < i ==> data@[at + j] == expected@[j],
        decreases expected@.len() - i,
    {
        if data[at + i] != expected[i] {
            assert(data@.subrange(at as int, at + expected@.len())[i as int] != expected@[i as int]);
            return false;
        }
        i += 1;
    }
    assert(data@.subrange(at as int, at + expected@.len()) =~= expected@);
    true
}

/// The discriminator of records whose tag is `tag`.
fn discriminator(tag: &[u8]) -> (r: Vec<u8>)
    ensures
        r@ == discriminator_of(tag@),
{
    let digest = sha256(tag);
    let mut r: Vec<u8> = Vec::new();
    let mut i: usize = 0;
    while i < 8
        invariant
            i <= 8,
            digest@ == sha256_of(tag@),
            r@ == discriminator_of(tag@).subrange(0, i as int),
        decreases 8 - i,
    {
        r.push(digest[i]);
        i += 1;
        assert(r@ =~= discriminator_of(tag@).subrange(0, i as int));
    }
    assert(r@ =~= discriminator_of(tag@));
    r
}

fn agent_discriminator() -> (r: Vec<u8>)
    ensures
        r@ == discriminator_of(agent_tag()),
{
    let tag: [u8; 13] = [97, 99, 99, 111, 117, 110, 116, 58, 65, 103, 101, 110, 116];
    assert(tag@ =~= agent_tag());
    discriminator(&tag)
}

/// The stored form of `a`, which fills an Agent slot exactly.
pub fn encode_agent(a: &Agent) -> (r: Vec<u8>)
    ensures
        r@ == agent_layout(*a),
        r@.len() == AGENT_ACCOUNT_SPACE,
{
    let mut out = agent_discriminator();
    push_bytes(&mut out, &a.wallet);
    out.push(a.trust_level.to_byte());
    let total = u64_to_le_bytes(a.total_activities);
    push_bytes(&mut out, total.as_slice());
    let created = u64_to_le_bytes(a.created_at as u64);
    push_bytes(&mut out, created.as_slice());
    let last = u64_to_le_bytes(a.last_activity as u64);
    push_bytes(&mut out, last.as_slice());
    proof {
        lemma_agent_layout_parts(*a);
        assert(out@ =~= agent_layout(*a));
    }
    out
}

/// The Agent stored in `data`; `MalformedData` when `data` is not the stored
/// form of any Agent.
pub fn decode_agent(data: &[u8]) -> (r: Result<Agent, VerifiAgentError>)
    ensures
        match agent_decoded(data@) {
            Some(a) => r == Ok::<Agent, VerifiAgentError>(a),
            None => r == Err::<Agent, VerifiAgentError>(VerifiAgentError::MalformedData),
        },
{
    if data.len() != AGENT_ACCOUNT_SPACE {
        proof {
            if exists|a: Agent| agent_layout(a) == data@ {
                let a = choose|a: Agent| agent_layout(a) == data@;
                lemma_agent_layout_parts(a);
            }
        }
        return Err(VerifiAgentError::MalformedData);
    }
    let disc = agent_discriminator();
    let disc_ok = bytes_match(data, 0, disc.as_slice());
    let level = TrustLevel::from_byte(data[40]);
    if !disc_ok || level.is_none() {
        proof {
            if exists|a: Agent| agent_layout(a) == data@ {
                let a = choose|a: Agent| agent_layout(a) == data@;
                lemma_agent_layout_parts(a);
            }
        }
        return Err(VerifiAgentError::MalformedData);
    }
    let a = Agent {
        wallet: read_key(data, 8),
        trust_level: level.unwrap(),
        total_activities: read_u64(data, 41),
        created_at: read_u64(data, 49) as i64,
        last_activity: read_u64(data, 57) as i64,
    };
    proof {
        lemma_agent_layout_parts(a);
        lemma_auto_spec_u64_to_from_le_bytes();
        let s = data@;
        assert(spec_u64_to_le_bytes(spec_u64_from_le_bytes(s.subrange(49, 57))) == s.subrange(49, 57));
        assert(spec_u64_to_le_bytes(spec_u64_from_le_bytes(s.subrange(57, 65))) == s.subrange(57, 65));
        lemma_u64_i64_cast(spec_u64_from_le_bytes(s.subrange(49, 57)));
        lemma_u64_i64_cast(spec_u64_from_le_bytes(s.subrange(57, 65)));
        assert(agent_layout(a) =~= s);
        lemma_agent_round_trip(a);
    }
    Ok(a)
}

proof fn lemma_u64_i64_cast(v: u64)
    ensures
        (v as i64) as u64 == v,
{
    assert((v as i64) as u64 == v) by (bit_vector);
}

/// Largest number of UTF-8 bytes of an action label: its 4-byte length
/// prefix and text share a 100-byte field.
pub const MAX_ACTION_TYPE_LEN: usize = 96;

/// Size of a slot that holds an ActivityTrace record.
pub const TRACE_ACCOUNT_SPACE: usize = 189;

/// One logged activity of an agent.
#[derive(Clone, Debug, PartialEq, Eq)]
pub struct ActivityTrace {
    pub agent: [u8; 32],
    pub action_hash: [u8; 32],
    pub action_type: String,
    pub timestamp: i64,
    pub verified: bool,
    pub index: u64,
}

/// An ActivityTrace as a mathematical value.
pub struct TraceView {
    pub agent: [u8; 32],
    pub action_hash: [u8; 32],
    pub action_type: Seq<char>,
    pub timestamp: i64,
    pub verified: bool,
    pub index: u64,
}

impl View for ActivityTrace {
    type V = TraceView;

    open spec fn view(&self) -> TraceView {
        TraceView {
            agent: self.agent,
            action_hash: self.action_hash,
            action_type: self.action_type@,
            timestamp: self.timestamp,
            verified: self.verified,
            index: self.index,
        }
    }
}

/// Whether a label fits the action label field.
pub open spec fn label_fits(label: Seq<char>) -> bool {
    encode_utf8(label).len() <= MAX_ACTION_TYPE_LEN
}

/// A label as stored: its UTF-8 length as four little-endian bytes, then its
/// UTF-8 bytes.
pub open spec fn text_layout(label: Seq<char>) -> Seq<u8> {
    spec_u32_to_le_bytes(encode_utf8(label).len() as u32) + encode_utf8(label)
}

/// "account:ActivityTrace" in ASCII.
pub open spec fn trace_tag() -> Seq<u8> {
    seq![
        97u8, 99, 99, 111, 117, 110, 116, 58, 65, 99, 116, 105, 118, 105, 116, 121, 84, 114, 97,
        99, 101,
    ]
}

/// `n` zero bytes.
pub open spec fn zeros(n: int) -> Seq<u8> {
    Seq::new(n as nat, |i: int| 0u8)
}

/// The stored form of a trace whose label fits, padded with zeros to the slot size.
pub open spec fn trace_layout(t: TraceView) -> Seq<u8> {
    discriminator_of(trace_tag()) + t.agent@ + t.action_hash@ + text_layout(t.action_type)
        + i64_bytes(t.timestamp) + seq![if t.verified { 1u8 } else { 0u8 }]
        + spec_u64_to_le_bytes(t.index) + zeros(
        MAX_ACTION_TYPE_LEN - encode_utf8(t.action_type).len(),
    )
}

/// The trace that `b` stores, if it is the stored form of one whose label fits.
pub open spec fn trace_decoded(b: Seq<u8>) -> Option<TraceView> {
    if exists|t: TraceView| label_fits(t.action_type) && trace_layout(t) == b {
        Some(choose|t: TraceView| label_fits(t.action_type) && trace_layout(t) == b)
    } else {
        None
    }
}

proof fn lemma_text_layout_parts(label: Seq<char>)
    requires
        label_fits(label),
    ensures
        text_layout(label).len() == 4 + encode_utf8(label).len(),
        text_layout(label).subrange(0, 4) == spec_u32_to_le_bytes(encode_utf8(label).len() as u32),
        text_layout(label).subrange(4, text_layout(label).len() as int) == encode_utf8(label),
        spec_u32_from_le_bytes(text_layout(label).subrange(0, 4)) == encode_utf8(label).len(),
{
    lemma_auto_spec_u32_to_from_le_bytes();
    let t = text_layout(label);
    assert(t.subrange(0, 4) =~= spec_u32_to_le_bytes(encode_utf8(label).len() as u32));
    assert(t.subrange(4, t.len() as int) =~= encode_utf8(label));
}

proof fn lemma_trace_layout_parts(t: TraceView)
    requires
        label_fits(t.action_type),
    ensures
        ({
            let l = trace_layout(t);
            let n = encode_utf8(t.action_type).len() as int;
            &&& l.len() == TRACE_ACCOUNT_SPACE
            &&& l.subrange(0, 8) == discriminator_of(trace_tag())
            &&& l.subrange(8, 40) == t.agent@
            &&& l.subrange(40, 72) == t.action_hash@
            &&& spec_u32_from_le_bytes(l.subrange(72, 76)) == n
            &&& l.subrange(76, 76 + n) == encode_utf8(t.action_type)
            &&& l.subrange(76 + n, 84 + n) == i64_bytes(t.timestamp)
            &&& l[84 + n] == (if t.verified { 1u8 } else { 0u8 })
            &&& l.subrange(85 + n, 93 + n) == spec_u64_to_le_bytes(t.index)
            &&& l.subrange(93 + n, 189) == zeros(96 - n)
        }),
{
    lemma_auto_spec_u64_to_from_le_bytes();
    lemma_text_layout_parts(t.action_type);
    let l = trace_layout(t);
    let n = encode_utf8(t.action_type).len() as int;
    let tl = text_layout(t.action_type);
    assert(l.subrange(0, 8) =~= discriminator_of(trace_tag()));
    assert(l.subrange(8, 40) =~= t.agent@);
    assert(l.subrange(40, 72) =~= t.action_hash@);
    assert(l.subrange(72, 76) =~= tl.subrange(0, 4));
    assert(l.subrange(76, 76 + n) =~= tl.subrange(4, tl.len() as int));
    assert(l.subrange(76 + n, 84 + n) =~= i64_bytes(t.timestamp));
    assert(l.subrange(85 + n, 93 + n) =~= spec_u64_to_le_bytes(t.index));
    assert(l.subrange(93 + n, 189) =~= zeros(96 - n));
}

/// Two traces whose labels fit and whose stored forms agree are the same trace.
pub proof fn lemma_trace_layout_injective(a: TraceView, b: TraceView)
    requires
        label_fits(a.action_type),
        label_fits(b.action_type),
        trace_layout(a) == trace_layout(b),
    ensures
        a == b,
{
    lemma_trace_layout_parts(a);
    lemma_trace_layout_parts(b);
    lemma_auto_spec_u64_to_from_le_bytes();
    assert(a.agent =~= b.agent);
    assert(a.action_hash =~= b.action_hash);
    encode_utf8_decode_utf8(a.action_type);
    encode_utf8_decode_utf8(b.action_type);
    lemma_i64_u64_cast(a.timestamp);
    lemma_i64_u64_cast(b.timestamp);
}

/// Decoding the stored form of a trace whose label fits gives back that trace,
/// and the stored form fills exactly a slot of the trace size.
pub proof fn lemma_trace_round_trip(t: TraceView)
    requires
        label_fits(t.action_type),
    ensures
        trace_decoded(trace_layout(t)) == Some(t),
        trace_layout(t).len() == TRACE_ACCOUNT_SPACE,
{
    lemma_trace_layout_parts(t);
    let b = choose|b: TraceView| label_fits(b.action_type) && trace_layout(b) == trace_layout(t);
    lemma_trace_layout_injective(t, b);
}

/// Bytes that decode as a trace are exactly that trace's stored form.
pub proof fn lemma_trace_bytes_round_trip(bytes: Seq<u8>)
    requires
        trace_decoded(bytes) is Some,
    ensures
        trace_layout(trace_decoded(bytes)->0) == bytes,
        label_fits((trace_decoded(bytes)->0).action_type),
{
}

/// Relies on `String::from_utf8`: the string whose UTF-8 encoding is `bytes`,
/// or an error when `bytes` is not valid UTF-8.
#[verifier::external_body]
fn string_from_utf8(bytes: Vec<u8>) -> (r: Option<String>)
    ensures
        match r {
            Some(s) => valid_utf8(bytes@) && s@ == decode_utf8(bytes@),
            None => !valid_utf8(bytes@),
        },
{
    String::from_utf8(bytes).ok()
}

/// The UTF-8 bytes of `s`.
pub fn label_bytes(s: &String) -> (r: Vec<u8>)
    ensures
        r@ == encode_utf8(s@),
{
    s.as_str().as_bytes_vec()
}

/// The label stored at `at`: its length prefix, then that many bytes of UTF-8.
/// `None` when the length exceeds the label field or the data, or the bytes are
/// not UTF-8.
fn read_label(data: &[u8], at: usize) -> (r: Option<String>)
    requires
        at + 4 <= data@.len(),
    ensures
        ({
            let n = spec_u32_from_le_bytes(data@.subrange(at as int, at + 4)) as int;
            let text = data@.subrange(at + 4, at + 4 + n);
            match r {
                Some(s) => n <= MAX_ACTION_TYPE_LEN && at + 4 + n <= data@.len() && valid_utf8(text)
                    && s@ == decode_utf8(text) && encode_utf8(s@) == text,
                None => !(n <= MAX_ACTION_TYPE_LEN && at + 4 + n <= data@.len() && valid_utf8(text)),
            }
        }),
{
    let len = data.len();
    let n = u32_from_le_bytes(vstd::slice::slice_subrange(data, at, at + 4)) as usize;
    if n > MAX_ACTION_TYPE_LEN || n > len - at - 4 {
        return None;
    }
    let text = vstd::slice::slice_to_vec(vstd::slice::slice_subrange(data, at + 4, at + 4 + n));
    let r = string_from_utf8(text);
    proof {
        if r is Some {
            decode_utf8_encode_utf8(text@);
        }
    }
    r
}

/// Whether every byte of `data` from `from` to `to` is zero.
pub(crate) fn all_zero(data: &[u8], from: usize, to: usize) -> (r: bool)
    requires
        from <= to <= data@.len(),
    ensures
        r == (data@.subrange(from as int, to as int) == zeros(to - from)),
{
    let mut i: usize = from;
    while i < to
        invariant
            from <= i <= to <= data@.len(),
            forall|j: int| from <= j < i ==> data@[j] == 0,
        decreases to - i,
    {
        if data[i] != 0 {
            assert(data@.subrange(from as int, to as int)[i - from] != zeros(to - from)[i - from]);
            return false;
        }
        i += 1;
    }
    assert(data@.subrange(from as int, to as int) =~= zeros(to - from));
    true
}

fn trace_discriminator() -> (r: Vec<u8>)
    ensures
        r@ == discriminator_of(trace_tag()),
{
    let tag: [u8; 21] = [
        97, 99, 99, 111, 117, 110, 116, 58, 65, 99, 116, 105, 118, 105, 116, 121, 84, 114, 97, 99,
        101,
    ];
    assert(tag@ =~= trace_tag());
    discriminator(&tag)
}

/// The stored form of `t`, which fills a trace slot exactly; `MalformedData`
/// when its label does not fit the label field.
pub fn encode_trace(t: &ActivityTrace) -> (r: Result<Vec<u8>, VerifiAgentError>)
    ensures
        label_fits(t.action_type@) ==> (r matches Ok(v) && v@ == trace_layout(t@) && v@.len()
            == TRACE_ACCOUNT_SPACE),
        !label_fits(t.action_type@) ==> r == Err::<Vec<u8>, VerifiAgentError>(
            VerifiAgentError::MalformedData,
        ),
{
    let text = label_bytes(&t.action_type);
    if text.len() > MAX_ACTION_TYPE_LEN {
        return Err(VerifiAgentError::MalformedData);
    }
    let mut out = trace_discriminator();
    push_bytes(&mut out, &t.agent);
    push_bytes(&mut out, &t.action_hash);
    let n = u32_to_le_bytes(text.len() as u32);
    push_bytes(&mut out, n.as_slice());
    push_bytes(&mut out, text.as_slice());
    let ts = u64_to_le_bytes(t.timestamp as u64);
    push_bytes(&mut out, ts.as_slice());
    out.push(if t.verified { 1u8 } else { 0u8 });
    let index = u64_to_le_bytes(t.index);
    push_bytes(&mut out, index.as_slice());
    let mut i: usize = text.len();
    while i < MAX_ACTION_TYPE_LEN
        invariant
            text@.len() <= i <= MAX_ACTION_TYPE_LEN,
            out@ == discriminator_of(trace_tag()) + t.agent@ + t.action_hash@ + text_layout(
                t.action_type@,
            ) + i64_bytes(t.timestamp) + seq![if t.verified { 1u8 } else { 0u8 }]
                + spec_u64_to_le_bytes(t.index) + zeros(i - text@.len()),
        decreases MAX_ACTION_TYPE_LEN - i,
    {
        out.push(0u8);
        i += 1;
        assert(zeros(i - text@.len()) =~= zeros(i - 1 - text@.len()).push(0u8));
    }
    proof {
        lemma_trace_layout_parts(t@);
    }
    Ok(out)
}

/// The trace stored in `data`; `MalformedData` when `data` is not the stored
/// form of any trace whose label fits.
pub fn decode_trace(data: &[u8]) -> (r: Result<ActivityTrace, VerifiAgentError>)
    ensures
        match trace_decoded(data@) {
            Some(t) => r matches Ok(v) && v@ == t,
            None => r == Err::<ActivityTrace, VerifiAgentError>(VerifiAgentError::MalformedData),
        },
{
    let ghost s = data@;
    if data.len() != TRACE_ACCOUNT_SPACE {
        proof {
            if exists|t: TraceView| label_fits(t.action_type) && trace_layout(t) == s {
                let t = choose|t: TraceView| label_fits(t.action_type) && trace_layout(t) == s;
                lemma_trace_layout_parts(t);
            }
        }
        return Err(VerifiAgentError::MalformedData);
    }
    let disc = trace_discriminator();
    let disc_ok = bytes_match(data, 0, disc.as_slice());
    let label = read_label(data, 72);
    if !disc_ok || label.is_none() {
        proof {
            if exists|t: TraceView| label_fits(t.action_type) && trace_layout(t) == s {
                let t = choose|t: TraceView| label_fits(t.action_type) && trace_layout(t) == s;
                lemma_trace_layout_parts(t);
                encode_utf8_valid_utf8(t.action_type);
            }
        }
        return Err(VerifiAgentError::MalformedData);
    }
    let action_type = label.unwrap();
    let n = label_bytes(&action_type).len();
    let verified_byte = data[84 + n];
    let pad_ok = all_zero(data, 93 + n, TRACE_ACCOUNT_SPACE);
    if verified_byte > 1 || !pad_ok {
        proof {
            if exists|t: TraceView| label_fits(t.action_type) && trace_layout(t) == s {
                let t = choose|t: TraceView| label_fits(t.action_type) && trace_layout(t) == s;
                lemma_trace_layout_parts(t);
                encode_utf8_decode_utf8(t.action_type);
            }
        }
        return Err(VerifiAgentError::MalformedData);
    }
    let t = ActivityTrace {
        agent: read_key(data, 8),
        action_hash: read_key(data, 40),
        action_type,
        timestamp: read_u64(data, 76 + n) as i64,
        verified: verified_byte == 1,
        index: read_u64(data, 85 + n),
    };
    proof {
        let ni = n as int;
        lemma_trace_layout_parts(t@);
        lemma_auto_spec_u64_to_from_le_bytes();
        lemma_auto_spec_u32_to_from_le_bytes();
        assert(spec_u64_to_le_bytes(spec_u64_from_le_bytes(s.subrange(76 + ni, 84 + ni)))
            == s.subrange(76 + ni, 84 + ni));
        assert(spec_u64_to_le_bytes(spec_u64_from_le_bytes(s.subrange(85 + ni, 93 + ni)))
            == s.subrange(85 + ni, 93 + ni));
        assert(spec_u32_to_le_bytes(spec_u32_from_le_bytes(s.subrange(72, 76))) == s.subrange(72, 76));
        lemma_u64_i64_cast(spec_u64_from_le_bytes(s.subrange(76 + ni, 84 + ni)));
        let l = trace_layout(t@);
        assert(l.subrange(72, 76) =~= spec_u32_to_le_bytes(ni as u32));
        assert forall|j: int| 0 <= j < 189 implies l[j] == s[j] by {
            if j < 8 {
                assert(l[j] == l.subrange(0, 8)[j] && s[j] == s.subrange(0, 8)[j]);
            } else if j < 40 {
                assert(l[j] == l.subrange(8, 40)[j - 8] && s[j] == s.subrange(8, 40)[j - 8]);
            } else if j < 72 {
                assert(l[j] == l.subrange(40, 72)[j - 40] && s[j] == s.subrange(40, 72)[j - 40]);
            } else if j < 76 {
                assert(l[j] == l.subrange(72, 76)[j - 72] && s[j] == s.subrange(72, 76)[j - 72]);
            } else if j < 76 + ni {
                assert(l[j] == l.subrange(76, 76 + ni)[j - 76] && s[j] == s.subrange(76, 76 + ni)[j - 76]);
            } else if j < 84 + ni {
                assert(l[j] == l.subrange(76 + ni, 84 + ni)[j - 76 - ni] && s[j] == s.subrange(76 + ni, 84 + ni)[j - 76 - ni]);
            } else if j == 84 + ni {
            } else if j < 93 + ni {
                assert(l[j] == l.subrange(85 + ni, 93 + ni)[j - 85 - ni] && s[j] == s.subrange(85 + ni, 93 + ni)[j - 85 - ni]);
            } else {
                assert(l[j] == l.subrange(93 + ni, 189)[j - 93 - ni] && s[j] == s.subrange(93 + ni, 189)[j - 93 - ni]);
            }
        }
        assert(l =~= s);
        lemma_trace_round_trip(t@);
    }
    Ok(t)
}

/// A request to the processor.
#[derive(Clone, Debug, PartialEq, Eq)]
pub enum VerifiAgentInstruction {
    /// Create the Agent record of the signing wallet.
    InitializeAgent,
    /// Record one activity of the signing wallet's agent.
    LogActivity { action_hash: [u8; 32], action_type: String },
}

/// A request as a mathematical value.
pub enum InstructionView {
    InitializeAgent,
    LogActivity { action_hash: [u8; 32], action_type: Seq<char> },
}

impl View for VerifiAgentInstruction {
    type V = InstructionView;

    open spec fn view(&self) -> InstructionView {
        match self {
            VerifiAgentInstruction::InitializeAgent => InstructionView::InitializeAgent,
            VerifiAgentInstruction::LogActivity { action_hash, action_type } => {
                InstructionView::LogActivity { action_hash: *action_hash, action_type: action_type@ }
            },
        }
    }
}

/// Whether a request can be encoded: its label, if any, fits.
pub open spec fn instruction_valid(i: InstructionView) -> bool {
    match i {
        InstructionView::InitializeAgent => true,
        InstructionView::LogActivity { action_type, .. } => label_fits(action_type),
    }
}

/// The wire form of a request: a tag byte, then the arguments of LogActivity.
pub open spec fn instruction_layout(i: InstructionView) -> Seq<u8> {
    match i {
        InstructionView::InitializeAgent => seq![0u8],
        InstructionView::LogActivity { action_hash, action_type } => seq![1u8] + action_hash@
            + text_layout(action_type),
    }
}

/// The valid request whose wire form is `b`, if there is one.
pub open spec fn instruction_decoded(b: Seq<u8>) -> Option<InstructionView> {
    if exists|i: InstructionView| instruction_valid(i) && instruction_layout(i) == b {
        Some(choose|i: InstructionView| instruction_valid(i) && instruction_layout(i) == b)
    } else {
        None
    }
}

proof fn lemma_instruction_layout_parts(i: InstructionView)
    requires
        instruction_valid(i),
    ensures
        match i {
            InstructionView::InitializeAgent => instruction_layout(i) == seq![0u8],
            InstructionView::LogActivity { action_hash, action_type } => {
                let l = instruction_layout(i);
                let n = encode_utf8(action_type).len() as int;
                &&& l.len() == 37 + n
                &&& l[0] == 1u8
                &&& l.subrange(1, 33) == action_hash@
                &&& spec_u32_from_le_bytes(l.subrange(33, 37)) == n
                &&& l.subrange(37, 37 + n) == encode_utf8(action_type)
            },
        },
{
    if let InstructionView::LogActivity { action_hash, action_type } = i {
        lemma_text_layout_parts(action_type);
        let l = instruction_layout(i);
        let tl = text_layout(action_type);
        assert(l.subrange(1, 33) =~= action_hash@);
        assert(l.subrange(33, 37) =~= tl.subrange(0, 4));
        assert(l.subrange(37, l.len() as int) =~= tl.subrange(4, tl.len() as int));
    }
}

/// Two valid requests with the same wire form are the same request.
pub proof fn lemma_instruction_layout_injective(a: InstructionView, b: InstructionView)
    requires
        instruction_valid(a),
        instruction_valid(b),
        instruction_layout(a) == instruction_layout(b),
    ensures
        a == b,
{
    lemma_instruction_layout_parts(a);
    lemma_instruction_layout_parts(b);
    if let InstructionView::LogActivity { action_hash: ha, action_type: ta } = a {
        if let InstructionView::LogActivity { action_hash: hb, action_type: tb } = b {
            assert(ha =~= hb);
            encode_utf8_decode_utf8(ta);
            encode_utf8_decode_utf8(tb);
        }
    }
}

/// Bytes that decode as a request are exactly that request's wire form.
pub proof fn lemma_instruction_bytes_round_trip(bytes: Seq<u8>)
    requires
        instruction_decoded(bytes) is Some,
    ensures
        instruction_layout(instruction_decoded(bytes)->0) == bytes,
        instruction_valid(instruction_decoded(bytes)->0),
{
}

/// Decoding the wire form of a valid request gives back that request.
pub proof fn lemma_instruction_round_trip(i: InstructionView)
    requires
        instruction_valid(i),
    ensures
        instruction_decoded(instruction_layout(i)) == Some(i),
{
    let b = choose|b: InstructionView| instruction_valid(b) && instruction_layout(b) == instruction_layout(i);
    lemma_instruction_layout_injective(i, b);
}

/// The wire form of `i`; `MalformedData` when its label does not fit.
pub fn encode_instruction(i: &VerifiAgentInstruction) -> (r: Result<Vec<u8>, VerifiAgentError>)
    ensures
        instruction_valid(i@) ==> (r matches Ok(v) && v@ == instruction_layout(i@)),
        !instruction_valid(i@) ==> r == Err::<Vec<u8>, VerifiAgentError>(
            VerifiAgentError::MalformedData,
        ),
{
    match i {
        VerifiAgentInstruction::InitializeAgent => {
            let out: Vec<u8> = vec![0u8];
            assert(out@ =~= seq![0u8]);
            Ok(out)
        },
        VerifiAgentInstruction::LogActivity { action_hash, action_type } => {
            let text = label_bytes(action_type);
            if text.len() > MAX_ACTION_TYPE_LEN {
                return Err(VerifiAgentError::MalformedData);
            }
            let mut out: Vec<u8> = vec![1u8];
            push_bytes(&mut out, action_hash);
            let n = u32_to_le_bytes(text.len() as u32);
            push_bytes(&mut out, n.as_slice());
            push_bytes(&mut out, text.as_slice());
            assert(out@ =~= instruction_layout(i@));
            Ok(out)
        },
    }
}

/// The request whose wire form is `data`; `MalformedData` when `data` is not
/// the wire form of a valid request.
pub fn decode_instruction(data: &[u8]) -> (r: Result<VerifiAgentInstruction, VerifiAgentError>)
    ensures
        match instruction_decoded(data@) {
            Some(i) => r matches Ok(v) && v@ == i,
            None => r == Err::<VerifiAgentInstruction, VerifiAgentError>(
                VerifiAgentError::MalformedData,
            ),
        },
{
    let ghost s = data@;
    if data.len() == 1 && data[0] == 0 {
        let r = VerifiAgentInstruction::InitializeAgent;
        proof {
            assert(instruction_layout(r@) =~= s);
            lemma_instruction_round_trip(r@);
        }
        return Ok(r);
    }
    if data.len() < 37 || data[0] != 1 {
        proof {
            if exists|i: InstructionView| instruction_valid(i) && instruction_layout(i) == s {
                let i = choose|i: InstructionView| instruction_valid(i) && instruction_layout(i) == s;
                lemma_instruction_layout_parts(i);
            }
        }
        return Err(VerifiAgentError::MalformedData);
    }
    let label = read_label(data, 33);
    let ok = match &label {
        Some(t) => label_bytes(t).len() == data.len() - 37,
        None => false,
    };
    if !ok {
        proof {
            if exists|i: InstructionView| instruction_valid(i) && instruction_layout(i) == s {
                let i = choose|i: InstructionView| instruction_valid(i) && instruction_layout(i) == s;
                lemma_instruction_layout_parts(i);
                if let InstructionView::LogActivity { action_type, .. } = i {
                    encode_utf8_valid_utf8(action_type);
                    encode_utf8_decode_utf8(action_type);
                }
            }
        }
        return Err(VerifiAgentError::MalformedData);
    }
    let r = VerifiAgentInstruction::LogActivity {
        action_hash: read_key(data, 1),
        action_type: label.unwrap(),
    };
    proof {
        lemma_instruction_layout_parts(r@);
        lemma_auto_spec_u32_to_from_le_bytes();
        assert(spec_u32_to_le_bytes(spec_u32_from_le_bytes(s.subrange(33, 37))) == s.subrange(33, 37));
        let l = instruction_layout(r@);
        let n = s.len() - 37;
        assert(l.subrange(33, 37) == spec_u32_to_le_bytes(n as u32));
        assert forall|j: int| 0 <= j < s.len() implies l[j] == s[j] by {
            if j == 0 {
            } else if j < 33 {
                assert(l[j] == l.subrange(1, 33)[j - 1] && s[j] == s.subrange(1, 33)[j - 1]);
            } else if j < 37 {
                assert(l[j] == l.subrange(33, 37)[j - 33] && s[j] == s.subrange(33, 37)[j - 33]);
            } else {
                assert(l[j] == l.subrange(37, 37 + n)[j - 37] && s[j] == s.subrange(37, 37 + n)[j - 37]);
            }
        }
        assert(l =~= s);
        lemma_instruction_round_trip(r@);
    }
    Ok(r)
}

} // verus!
