use gov_decoder::codec::DecodeError;
use gov_decoder::json::{array_text, object_text, push_quoted_result, quoted_text};
use gov_decoder::model::{Address, Entry, ProposalVote, Vote};
use gov_decoder::output::vote_output;
use gov_decoder::parse::{
    address_parse, commission_pair_parse, decode_message, proposal_parse, proposal_result_parse,
    votes_parse, ParseError,
};

fn text_bytes(text: &str) -> Vec<u8> {
    borsh::to_vec(text).unwrap()
}

fn entry(key: &str, value: &str) -> Entry {
    Entry { key: key.to_string(), value: value.to_string() }
}

fn sample_proposal() -> Vec<u8> {
    let mut out = Vec::new();
    out.extend_from_slice(&7u64.to_le_bytes());
    out.push(1);
    out.extend_from_slice(&2u32.to_le_bytes());
    out.push(0);
    out.extend_from_slice(&text_bytes("A1"));
    out.push(1);
    out.extend_from_slice(&text_bytes("A2"));
    out.extend_from_slice(&text_bytes("tnam1author"));
    out.extend_from_slice(&2u32.to_le_bytes());
    out.extend_from_slice(&text_bytes("title"));
    out.extend_from_slice(&text_bytes("A \"quoted\" title"));
    out.extend_from_slice(&text_bytes("abstract"));
    out.extend_from_slice(&text_bytes("line\nbreak"));
    out.extend_from_slice(&10u64.to_le_bytes());
    out.extend_from_slice(&20u64.to_le_bytes());
    out.extend_from_slice(&25u64.to_le_bytes());
    out
}

#[test]
fn a_proposal_is_written_in_declared_order() {
    let expected = "{\"id\":7,\"proposal_type\":\"PGF steward\",\"author\":\"tnam1author\",\
\"content\":{\"abstract\":\"line\\nbreak\",\"title\":\"A \\\"quoted\\\" title\"},\
\"voting_start_epoch\":10,\"voting_end_epoch\":20,\"grace_epoch\":25,\
\"status\":\"on-going\",\"data\":\"Add(A1), Remove(A2)\"}";
    assert_eq!(proposal_parse(&sample_proposal(), 15), Ok(expected.to_string()));
}

#[test]
fn a_proposal_is_valid_json() {
    let text = proposal_parse(&sample_proposal(), 5).unwrap();
    let value: serde_json::Value = serde_json::from_str(&text).unwrap();
    assert_eq!(value["id"].as_u64(), Some(7));
    assert_eq!(value["status"].as_str(), Some("pending"));
    assert_eq!(value["content"]["title"].as_str(), Some("A \"quoted\" title"));
    assert_eq!(value["content"]["abstract"].as_str(), Some("line\nbreak"));
    assert_eq!(value["grace_epoch"].as_u64(), Some(25));
}

#[test]
fn the_status_of_a_proposal_depends_on_the_epoch() {
    let at = |epoch: u64| {
        let text = proposal_parse(&sample_proposal(), epoch).unwrap();
        let value: serde_json::Value = serde_json::from_str(&text).unwrap();
        value["status"].as_str().unwrap().to_string()
    };
    assert_eq!(at(5), "pending");
    assert_eq!(at(15), "on-going");
    assert_eq!(at(30), "ended");
}

#[test]
fn a_default_proposal_is_written_with_empty_content() {
    let mut bytes = Vec::new();
    bytes.extend_from_slice(&u64::MAX.to_le_bytes());
    bytes.extend_from_slice(&[0, 0]);
    bytes.extend_from_slice(&text_bytes(""));
    bytes.extend_from_slice(&0u32.to_le_bytes());
    bytes.extend_from_slice(&0u64.to_le_bytes());
    bytes.extend_from_slice(&0u64.to_le_bytes());
    bytes.extend_from_slice(&0u64.to_le_bytes());
    let expected = "{\"id\":18446744073709551615,\"proposal_type\":\"Default\",\"author\":\"\",\
\"content\":{},\"voting_start_epoch\":0,\"voting_end_epoch\":0,\"grace_epoch\":0,\
\"status\":\"ended\",\"data\":\"\"}";
    assert_eq!(proposal_parse(&bytes, 0), Ok(expected.to_string()));
}

#[test]
fn votes_are_written_in_their_order() {
    let mut bytes = Vec::new();
    bytes.extend_from_slice(&2u32.to_le_bytes());
    bytes.extend_from_slice(&text_bytes("val1"));
    bytes.extend_from_slice(&text_bytes("del1"));
    bytes.push(1);
    bytes.extend_from_slice(&text_bytes("val0"));
    bytes.extend_from_slice(&text_bytes("del0"));
    bytes.push(0);
    let expected = "[{\"data\":\"Nay\",\"delegator\":\"del1\",\"validator\":\"val1\"},\
{\"data\":\"Yay\",\"delegator\":\"del0\",\"validator\":\"val0\"}]";
    assert_eq!(votes_parse(&bytes), Ok(expected.to_string()));
}

#[test]
fn no_votes_are_written_as_an_empty_array() {
    assert_eq!(votes_parse(&[0, 0, 0, 0]), Ok("[]".to_string()));
}

#[test]
fn a_vote_is_shown_by_choice_delegator_and_validator() {
    let vote = Vote {
        validator: Address { text: "v".to_string() },
        delegator: Address { text: "d".to_string() },
        data: ProposalVote::Abstain,
    };
    assert_eq!(
        vote_output(&vote),
        vec![entry("data", "Abstain"), entry("delegator", "d"), entry("validator", "v")]
    );
}

#[test]
fn a_tally_result_is_written_with_decimal_powers() {
    let mut bytes = vec![1u8, 2u8];
    for words in [[0u64, 1, 0, 0], [600, 0, 0, 0], [300, 0, 0, 0], [0, 0, 0, 0]] {
        for w in words {
            bytes.extend_from_slice(&w.to_le_bytes());
        }
    }
    let expected = "{\"result\":\"Rejected\",\"tally_type\":\"LessOneHalfOverOneThirdNay\",\
\"total_abstain_power\":\"0\",\"total_nay_power\":\"300\",\
\"total_voting_power\":\"18446744073709551616\",\"total_yay_power\":\"600\"}";
    assert_eq!(proposal_result_parse(&bytes), Ok(expected.to_string()));
}

#[test]
fn a_commission_pair_is_written_in_decimal() {
    let mut bytes = Vec::new();
    for words in [[50_000_000_000u64, 0, 0, 0], [10_000_000_000, 0, 0, 0]] {
        for w in words {
            bytes.extend_from_slice(&w.to_le_bytes());
        }
    }
    let expected = "{\"commission_rate\":\"0.05\",\"max_commission_change_per_epoch\":\"0.01\"}";
    assert_eq!(commission_pair_parse(&bytes), Ok(expected.to_string()));
}

#[test]
fn an_address_is_written_as_plain_text() {
    assert_eq!(address_parse(&text_bytes("tnam1q\"x")), Ok("tnam1q\"x".to_string()));
}

#[test]
fn each_operation_rejects_an_empty_buffer() {
    let expected = ParseError::Decode(DecodeError::UnexpectedEnd);
    assert_eq!(proposal_parse(&[], 0), Err(expected.clone()));
    assert_eq!(votes_parse(&[]), Err(expected.clone()));
    assert_eq!(proposal_result_parse(&[]), Err(expected.clone()));
    assert_eq!(commission_pair_parse(&[]), Err(expected.clone()));
    assert_eq!(address_parse(&[]), Err(expected));
}

#[test]
fn each_operation_reports_why_decoding_failed() {
    assert_eq!(
        proposal_result_parse(&[9]),
        Err(ParseError::Decode(DecodeError::InvalidTag))
    );
    assert_eq!(
        address_parse(&[0, 0, 0, 0, 1]),
        Err(ParseError::Decode(DecodeError::TrailingBytes))
    );
    assert_eq!(
        address_parse(&[1, 0, 0, 0, 0xff]),
        Err(ParseError::Decode(DecodeError::InvalidText))
    );
}

#[test]
fn errors_have_messages() {
    assert_eq!(decode_message(DecodeError::UnexpectedEnd), "Unexpected length of input");
    assert_eq!(decode_message(DecodeError::InvalidTag), "Unexpected variant tag");
    assert_eq!(decode_message(DecodeError::InvalidText), "Invalid UTF-8 in text");
    assert_eq!(decode_message(DecodeError::TrailingBytes), "Not all bytes read");
    assert_eq!(
        ParseError::Decode(DecodeError::TrailingBytes).message(),
        "Decoding failed: Not all bytes read"
    );
    let failed = ParseError::Serialization(gov_decoder::json::SerializationError {
        message: "why".to_string(),
    });
    assert_eq!(failed.message(), "Serialization failed: why");
}

#[test]
fn strings_are_quoted_and_escaped() {
    let written = quoted_text("a\"b\\c\n\u{1}é").unwrap();
    assert_eq!(written, "\"a\\\"b\\\\c\\n\\u0001é\"");
    assert_eq!(quoted_text("").unwrap(), "\"\"");
}

#[test]
fn a_failed_quoting_is_reported_and_writes_nothing() {
    let error = serde_json::from_str::<u32>("x").unwrap_err();
    let mut out = String::from("kept");
    let result = push_quoted_result(&mut out, Err(error));
    assert!(result.is_err());
    assert!(!result.unwrap_err().message.is_empty());
    assert_eq!(out, "kept");
    assert!(push_quoted_result(&mut out, Ok("+".to_string())).is_ok());
    assert_eq!(out, "kept+");
}

#[test]
fn objects_and_arrays_are_written_compactly() {
    assert_eq!(object_text(&vec![]).unwrap(), "{}");
    assert_eq!(
        object_text(&vec![entry("a", "1"), entry("b", "2")]).unwrap(),
        "{\"a\":\"1\",\"b\":\"2\"}"
    );
    assert_eq!(array_text(&vec![]).unwrap(), "[]");
    assert_eq!(
        array_text(&vec![vec![entry("a", "1")], vec![], vec![entry("b", "2")]]).unwrap(),
        "[{\"a\":\"1\"},{},{\"b\":\"2\"}]"
    );
}

#[test]
fn a_power_of_256_bits_is_written_in_full() {
    let mut bytes = vec![0u8, 0u8];
    let mut power = [0u8; 32];
    power[31] = 1;
    bytes.extend_from_slice(&power);
    let mut small = [0u8; 32];
    small[0] = 1;
    small[1] = 2;
    bytes.extend_from_slice(&small);
    bytes.extend_from_slice(&[0xffu8; 32]);
    bytes.extend_from_slice(&[0u8; 32]);
    let expected = "{\"result\":\"Passed\",\"tally_type\":\"TwoThirds\",\
\"total_abstain_power\":\"0\",\
\"total_nay_power\":\"115792089237316195423570985008687907853269984665640564039457584007913129639935\",\
\"total_voting_power\":\"452312848583266388373324160190187140051835877600158453279131187530910662656\",\
\"total_yay_power\":\"513\"}";
    assert_eq!(proposal_result_parse(&bytes), Ok(expected.to_string()));
}
