use verifiagent::codec::{
    decode_agent, decode_instruction, decode_trace, encode_agent, encode_instruction,
    encode_trace, label_bytes, ActivityTrace, Agent, VerifiAgentInstruction, AGENT_ACCOUNT_SPACE,
    TRACE_ACCOUNT_SPACE,
};
use verifiagent::error::VerifiAgentError;
use verifiagent::tier::TrustLevel;

fn sample_agent() -> Agent {
    Agent {
        wallet: [7u8; 32],
        trust_level: TrustLevel::L2Active,
        total_activities: 0x0102_0304_0506_0708,
        created_at: -5,
        last_activity: 1_700_000_000,
    }
}

fn sample_trace(label: &str) -> ActivityTrace {
    ActivityTrace {
        agent: [3u8; 32],
        action_hash: [0xabu8; 32],
        action_type: label.to_string(),
        timestamp: 1_700_000_123,
        verified: true,
        index: 42,
    }
}

fn discriminator(name: &str) -> Vec<u8> {
    let digest = solana_program::hash::hash(format!("account:{}", name).as_bytes());
    digest.to_bytes()[..8].to_vec()
}

#[test]
fn agent_round_trip_and_size() {
    let a = sample_agent();
    let bytes = encode_agent(&a);
    assert_eq!(bytes.len(), AGENT_ACCOUNT_SPACE);
    assert_eq!(bytes.len(), 8 + 57);
    assert_eq!(decode_agent(&bytes), Ok(a));
    assert_eq!(encode_agent(&decode_agent(&bytes).unwrap()), bytes);
}

#[test]
fn agent_layout_matches_borsh_and_discriminator() {
    let a = sample_agent();
    let bytes = encode_agent(&a);
    assert_eq!(bytes[..8].to_vec(), discriminator("Agent"));
    let payload = borsh::to_vec(&(a.wallet, 2u8, a.total_activities, a.created_at, a.last_activity)).unwrap();
    assert_eq!(bytes[8..].to_vec(), payload);
}

#[test]
fn agent_decode_rejects_bad_input() {
    let bytes = encode_agent(&sample_agent());
    assert_eq!(decode_agent(&bytes[..64]), Err(VerifiAgentError::MalformedData));
    assert_eq!(decode_agent(&[]), Err(VerifiAgentError::MalformedData));
    let mut bad_tier = bytes.clone();
    bad_tier[40] = 4;
    assert_eq!(decode_agent(&bad_tier), Err(VerifiAgentError::MalformedData));
    let mut bad_disc = bytes.clone();
    bad_disc[0] ^= 1;
    assert_eq!(decode_agent(&bad_disc), Err(VerifiAgentError::MalformedData));
    assert_eq!(decode_agent(&vec![0u8; AGENT_ACCOUNT_SPACE]), Err(VerifiAgentError::MalformedData));
}

#[test]
fn trace_round_trip_and_size() {
    let longest = "x".repeat(96);
    for label in ["", "swap", "héllo wörld ✓", longest.as_str()] {
        let t = sample_trace(label);
        let bytes = encode_trace(&t).unwrap();
        assert_eq!(bytes.len(), TRACE_ACCOUNT_SPACE);
        assert_eq!(bytes.len(), 8 + 181);
        assert_eq!(decode_trace(&bytes), Ok(t));
        assert_eq!(encode_trace(&decode_trace(&bytes).unwrap()).unwrap(), bytes);
    }
}

#[test]
fn trace_layout_matches_borsh_and_discriminator() {
    let t = sample_trace("transfer");
    let bytes = encode_trace(&t).unwrap();
    assert_eq!(bytes[..8].to_vec(), discriminator("ActivityTrace"));
    let payload = borsh::to_vec(&(t.agent, t.action_hash, t.action_type.clone(), t.timestamp, t.verified, t.index)).unwrap();
    assert_eq!(bytes[8..8 + payload.len()].to_vec(), payload);
    assert!(bytes[8 + payload.len()..].iter().all(|&b| b == 0));
}

#[test]
fn trace_decode_rejects_bad_input() {
    let bytes = encode_trace(&sample_trace("ab")).unwrap();
    assert_eq!(decode_trace(&bytes[..188]), Err(VerifiAgentError::MalformedData));
    let mut bad_bool = bytes.clone();
    bad_bool[8 + 32 + 32 + 4 + 2 + 8] = 2;
    assert_eq!(decode_trace(&bad_bool), Err(VerifiAgentError::MalformedData));
    let mut bad_pad = bytes.clone();
    bad_pad[188] = 1;
    assert_eq!(decode_trace(&bad_pad), Err(VerifiAgentError::MalformedData));
    let mut long_len = bytes.clone();
    long_len[72] = 97;
    assert_eq!(decode_trace(&long_len), Err(VerifiAgentError::MalformedData));
    let mut bad_utf8 = bytes.clone();
    bad_utf8[76] = 0xff;
    assert_eq!(decode_trace(&bad_utf8), Err(VerifiAgentError::MalformedData));
    assert_eq!(decode_trace(&vec![0u8; TRACE_ACCOUNT_SPACE]), Err(VerifiAgentError::MalformedData));
}

#[test]
fn instruction_round_trip_and_wire_form() {
    let init = VerifiAgentInstruction::InitializeAgent;
    assert_eq!(encode_instruction(&init).unwrap(), vec![0u8]);
    assert_eq!(decode_instruction(&[0u8]), Ok(init));

    let log = VerifiAgentInstruction::LogActivity { action_hash: [9u8; 32], action_type: "mint".to_string() };
    let bytes = encode_instruction(&log).unwrap();
    let mut expected = vec![1u8];
    expected.extend(borsh::to_vec(&([9u8; 32], "mint".to_string())).unwrap());
    assert_eq!(bytes, expected);
    assert_eq!(decode_instruction(&bytes), Ok(log));
}

#[test]
fn instruction_decode_rejects_bad_input() {
    assert_eq!(decode_instruction(&[]), Err(VerifiAgentError::MalformedData));
    assert_eq!(decode_instruction(&[2u8]), Err(VerifiAgentError::MalformedData));
    assert_eq!(decode_instruction(&[0u8, 0]), Err(VerifiAgentError::MalformedData));
    let log = VerifiAgentInstruction::LogActivity { action_hash: [1u8; 32], action_type: "abc".to_string() };
    let bytes = encode_instruction(&log).unwrap();
    assert_eq!(decode_instruction(&bytes[..bytes.len() - 1]), Err(VerifiAgentError::MalformedData));
    let mut longer = bytes.clone();
    longer.push(b'd');
    assert_eq!(decode_instruction(&longer), Err(VerifiAgentError::MalformedData));
    let mut claims_more = bytes.clone();
    claims_more[33] = 200;
    assert_eq!(decode_instruction(&claims_more), Err(VerifiAgentError::MalformedData));
    let mut too_long = vec![1u8];
    too_long.extend(borsh::to_vec(&([1u8; 32], "y".repeat(97))).unwrap());
    assert_eq!(decode_instruction(&too_long), Err(VerifiAgentError::MalformedData));
    let mut not_utf8 = vec![1u8];
    not_utf8.extend([1u8; 32]);
    not_utf8.extend([2u8, 0, 0, 0, 0xc3, 0x28]);
    assert_eq!(decode_instruction(&not_utf8), Err(VerifiAgentError::MalformedData));
}

#[test]
fn label_bytes_are_utf8() {
    assert_eq!(label_bytes(&"é".to_string()), vec![0xc3u8, 0xa9]);
}

#[test]
fn encoders_reject_long_labels() {
    let long = "q".repeat(97);
    assert_eq!(encode_trace(&sample_trace(&long)), Err(VerifiAgentError::MalformedData));
    let log = VerifiAgentInstruction::LogActivity { action_hash: [0u8; 32], action_type: long };
    assert_eq!(encode_instruction(&log), Err(VerifiAgentError::MalformedData));
    let wide = "é".repeat(49);
    assert_eq!(encode_trace(&sample_trace(&wide)), Err(VerifiAgentError::MalformedData));
    let fits = "é".repeat(48);
    assert_eq!(encode_trace(&sample_trace(&fits)).unwrap().len(), TRACE_ACCOUNT_SPACE);
}
