use gov_decoder::codec::{read_bytes32, read_string, read_u32, read_u64, read_u8, DecodeError};
use gov_decoder::content::{canonicalize, put_entry};
use gov_decoder::decoder::{
    decode_address, decode_commission_pair, decode_proposal, decode_proposal_result, decode_votes,
};
use gov_decoder::records::read_words;
use gov_decoder::wire::{parse_optional, parse_sequence, Record};
use gov_decoder::model::{
    AddRemove, Address, Amount, CommissionPair, Dec, Entry, PGFAction, PaymentTarget, Proposal,
    ProposalResult, ProposalType, ProposalVote, TallyResult, TallyType, Vote,
};

fn text_bytes(text: &str) -> Vec<u8> {
    borsh::to_vec(text).unwrap()
}

fn address(text: &str) -> Address {
    Address { text: text.to_string() }
}

fn entry(key: &str, value: &str) -> Entry {
    Entry { key: key.to_string(), value: value.to_string() }
}

fn amount_bytes(words: [u64; 4]) -> Vec<u8> {
    let mut out = Vec::new();
    for w in words {
        out.extend_from_slice(&w.to_le_bytes());
    }
    out
}

fn proposal_bytes(type_bytes: &[u8], content: &[(&str, &str)]) -> Vec<u8> {
    let mut out = Vec::new();
    out.extend_from_slice(&7u64.to_le_bytes());
    out.extend_from_slice(type_bytes);
    out.extend_from_slice(&text_bytes("tnam1author"));
    out.extend_from_slice(&(content.len() as u32).to_le_bytes());
    for (k, v) in content {
        out.extend_from_slice(&text_bytes(k));
        out.extend_from_slice(&text_bytes(v));
    }
    out.extend_from_slice(&10u64.to_le_bytes());
    out.extend_from_slice(&20u64.to_le_bytes());
    out.extend_from_slice(&25u64.to_le_bytes());
    out
}

fn steward_type_bytes() -> Vec<u8> {
    let mut out = vec![1u8];
    out.extend_from_slice(&2u32.to_le_bytes());
    out.push(0);
    out.extend_from_slice(&text_bytes("A1"));
    out.push(1);
    out.extend_from_slice(&text_bytes("A2"));
    out
}

fn payment_type_bytes() -> Vec<u8> {
    let mut out = vec![2u8];
    out.extend_from_slice(&3u32.to_le_bytes());
    out.extend_from_slice(&[0, 0]);
    out.extend_from_slice(&text_bytes("T1"));
    out.extend_from_slice(&[0, 1]);
    out.extend_from_slice(&text_bytes("T2"));
    out.push(1);
    out.extend_from_slice(&text_bytes("T3"));
    out
}

fn votes_bytes() -> Vec<u8> {
    let mut out = Vec::new();
    out.extend_from_slice(&2u32.to_le_bytes());
    out.extend_from_slice(&text_bytes("val1"));
    out.extend_from_slice(&text_bytes("del1"));
    out.push(0);
    out.extend_from_slice(&text_bytes("val2"));
    out.extend_from_slice(&text_bytes("del2"));
    out.push(2);
    out
}

fn result_bytes() -> Vec<u8> {
    let mut out = vec![0u8, 1u8];
    out.extend_from_slice(&amount_bytes([1000, 0, 0, 0]));
    out.extend_from_slice(&amount_bytes([600, 0, 0, 0]));
    out.extend_from_slice(&amount_bytes([300, 0, 0, 0]));
    out.extend_from_slice(&amount_bytes([100, 0, 0, 0]));
    out
}

fn pair_bytes() -> Vec<u8> {
    let mut out = amount_bytes([50_000_000_000, 0, 0, 0]);
    out.extend_from_slice(&amount_bytes([10_000_000_000, 0, 0, 0]));
    out
}

#[test]
fn reads_a_byte() {
    assert_eq!(read_u8(&[9, 8, 7], 1), Ok((8, 2)));
    assert_eq!(read_u8(&[9, 8, 7], 3), Err(DecodeError::UnexpectedEnd));
    assert_eq!(read_u8(&[9, 8, 7], 40), Err(DecodeError::UnexpectedEnd));
}

#[test]
fn reads_little_endian_u32() {
    assert_eq!(read_u32(&[0xff, 0x78, 0x56, 0x34, 0x12], 1), Ok((0x12345678, 5)));
    assert_eq!(read_u32(&[0x78, 0x56, 0x34], 0), Err(DecodeError::UnexpectedEnd));
    assert_eq!(read_u32(&[1, 2, 3, 4], 9), Err(DecodeError::UnexpectedEnd));
}

#[test]
fn reads_little_endian_u64() {
    let bytes = [8u8, 7, 6, 5, 4, 3, 2, 1];
    assert_eq!(read_u64(&bytes, 0), Ok((0x0102030405060708, 8)));
    assert_eq!(read_u64(&bytes, 1), Err(DecodeError::UnexpectedEnd));
    assert_eq!(read_u64(&u64::MAX.to_le_bytes(), 0), Ok((u64::MAX, 8)));
}

#[test]
fn reads_thirty_two_bytes() {
    let mut bytes = vec![0xaau8];
    for i in 0..32u8 {
        bytes.push(i);
    }
    let (value, next) = read_bytes32(&bytes, 1).unwrap();
    assert_eq!(next, 33);
    for i in 0..32usize {
        assert_eq!(value[i], i as u8);
    }
    assert_eq!(read_bytes32(&bytes, 2), Err(DecodeError::UnexpectedEnd));
}

#[test]
fn reads_a_string() {
    let mut bytes = vec![0u8];
    bytes.extend_from_slice(&text_bytes("héllo"));
    bytes.push(0xff);
    assert_eq!(read_string(&bytes, 1), Ok(("héllo".to_string(), 11)));
    assert_eq!(read_string(&[0, 0, 0, 0], 0), Ok((String::new(), 4)));
}

#[test]
fn rejects_a_string_that_is_cut_or_not_utf8() {
    assert_eq!(read_string(&[3, 0, 0], 0), Err(DecodeError::UnexpectedEnd));
    assert_eq!(read_string(&[3, 0, 0, 0, b'a', b'b'], 0), Err(DecodeError::UnexpectedEnd));
    assert_eq!(read_string(&[2, 0, 0, 0, 0xc3, 0x28], 0), Err(DecodeError::InvalidText));
    assert_eq!(
        read_string(&[0xff, 0xff, 0xff, 0xff, b'a'], 0),
        Err(DecodeError::UnexpectedEnd)
    );
}

#[test]
fn decodes_an_address() {
    assert_eq!(decode_address(&text_bytes("tnam1qxyz")), Ok(address("tnam1qxyz")));
}

#[test]
fn rejects_bytes_after_an_address() {
    let mut bytes = text_bytes("tnam1qxyz");
    bytes.push(0);
    assert_eq!(decode_address(&bytes), Err(DecodeError::TrailingBytes));
}

#[test]
fn decodes_a_default_proposal_without_a_digest() {
    let bytes = proposal_bytes(&[0, 0], &[("title", "t"), ("abstract", "a")]);
    let expected = Proposal {
        id: 7,
        content: vec![entry("abstract", "a"), entry("title", "t")],
        author: address("tnam1author"),
        proposal_type: ProposalType::Default(None),
        voting_start_epoch: 10,
        voting_end_epoch: 20,
        grace_epoch: 25,
    };
    assert_eq!(decode_proposal(&bytes), Ok(expected));
}

#[test]
fn decodes_a_default_proposal_with_a_digest() {
    let mut type_bytes = vec![0u8, 1u8];
    let mut digest = [0u8; 32];
    for i in 0..32usize {
        digest[i] = (i as u8) * 3;
    }
    type_bytes.extend_from_slice(&digest);
    let bytes = proposal_bytes(&type_bytes, &[]);
    let proposal = decode_proposal(&bytes).unwrap();
    assert_eq!(
        proposal.proposal_type,
        ProposalType::Default(Some(gov_decoder::model::Hash { bytes: digest }))
    );
    assert_eq!(proposal.content, Vec::<Entry>::new());
}

#[test]
fn decodes_steward_changes_in_their_order() {
    let bytes = proposal_bytes(&steward_type_bytes(), &[]);
    let proposal = decode_proposal(&bytes).unwrap();
    assert_eq!(
        proposal.proposal_type,
        ProposalType::PGFSteward(vec![
            AddRemove::Add(address("A1")),
            AddRemove::Remove(address("A2")),
        ])
    );
}

#[test]
fn decodes_payment_changes_in_their_order() {
    let bytes = proposal_bytes(&payment_type_bytes(), &[]);
    let proposal = decode_proposal(&bytes).unwrap();
    assert_eq!(
        proposal.proposal_type,
        ProposalType::PGFPayment(vec![
            PGFAction::Continuous(AddRemove::Add(PaymentTarget { target: address("T1") })),
            PGFAction::Continuous(AddRemove::Remove(PaymentTarget { target: address("T2") })),
            PGFAction::Retro(PaymentTarget { target: address("T3") }),
        ])
    );
}

#[test]
fn content_holds_each_key_once_in_ascending_order() {
    let bytes = proposal_bytes(
        &[0, 0],
        &[("b", "1"), ("a", "2"), ("c", "3"), ("a", "4"), ("ab", "5"), ("", "6")],
    );
    let proposal = decode_proposal(&bytes).unwrap();
    assert_eq!(
        proposal.content,
        vec![entry("", "6"), entry("a", "4"), entry("ab", "5"), entry("b", "1"), entry("c", "3")]
    );
}

#[test]
fn decodes_votes_in_their_order() {
    assert_eq!(
        decode_votes(&votes_bytes()),
        Ok(vec![
            Vote { validator: address("val1"), delegator: address("del1"), data: ProposalVote::Yay },
            Vote {
                validator: address("val2"),
                delegator: address("del2"),
                data: ProposalVote::Abstain,
            },
        ])
    );
}

#[test]
fn an_empty_vote_sequence_decodes_to_no_votes() {
    assert_eq!(decode_votes(&[0, 0, 0, 0]), Ok(Vec::<Vote>::new()));
}

#[test]
fn decodes_a_tally_result() {
    let expected = ProposalResult {
        result: TallyResult::Passed,
        tally_type: TallyType::OneHalfOverOneThird,
        total_voting_power: Amount { w0: 1000, w1: 0, w2: 0, w3: 0 },
        total_yay_power: Amount { w0: 600, w1: 0, w2: 0, w3: 0 },
        total_nay_power: Amount { w0: 300, w1: 0, w2: 0, w3: 0 },
        total_abstain_power: Amount { w0: 100, w1: 0, w2: 0, w3: 0 },
    };
    assert_eq!(decode_proposal_result(&result_bytes()), Ok(expected));
}

#[test]
fn decodes_each_tally_label() {
    let mut bytes = result_bytes();
    bytes[0] = 1;
    bytes[1] = 0;
    let result = decode_proposal_result(&bytes).unwrap();
    assert_eq!(result.result, TallyResult::Rejected);
    assert_eq!(result.tally_type, TallyType::TwoThirds);
    bytes[1] = 2;
    assert_eq!(
        decode_proposal_result(&bytes).unwrap().tally_type,
        TallyType::LessOneHalfOverOneThirdNay
    );
}

#[test]
fn decodes_the_words_of_a_large_amount() {
    let mut bytes = vec![0u8, 0u8];
    bytes.extend_from_slice(&amount_bytes([1, 2, 3, 4]));
    bytes.extend_from_slice(&amount_bytes([u64::MAX, u64::MAX, u64::MAX, u64::MAX]));
    bytes.extend_from_slice(&amount_bytes([0, 0, 0, 0]));
    bytes.extend_from_slice(&amount_bytes([0, 0, 0, 1]));
    let result = decode_proposal_result(&bytes).unwrap();
    assert_eq!(result.total_voting_power, Amount { w0: 1, w1: 2, w2: 3, w3: 4 });
    assert_eq!(
        result.total_yay_power,
        Amount { w0: u64::MAX, w1: u64::MAX, w2: u64::MAX, w3: u64::MAX }
    );
    assert_eq!(result.total_abstain_power, Amount { w0: 0, w1: 0, w2: 0, w3: 1 });
}

#[test]
fn decodes_a_commission_pair() {
    let expected = CommissionPair {
        commission_rate: Dec { raw: Amount { w0: 50_000_000_000, w1: 0, w2: 0, w3: 0 } },
        max_commission_change_per_epoch: Dec {
            raw: Amount { w0: 10_000_000_000, w1: 0, w2: 0, w3: 0 },
        },
    };
    assert_eq!(decode_commission_pair(&pair_bytes()), Ok(expected));
}

#[test]
fn no_record_has_an_empty_encoding() {
    assert_eq!(decode_proposal(&[]), Err(DecodeError::UnexpectedEnd));
    assert_eq!(decode_votes(&[]), Err(DecodeError::UnexpectedEnd));
    assert_eq!(decode_proposal_result(&[]), Err(DecodeError::UnexpectedEnd));
    assert_eq!(decode_commission_pair(&[]), Err(DecodeError::UnexpectedEnd));
    assert_eq!(decode_address(&[]), Err(DecodeError::UnexpectedEnd));
}

#[test]
fn a_cut_proposal_is_rejected() {
    for type_bytes in [vec![0u8, 0u8], steward_type_bytes(), payment_type_bytes()] {
        let bytes = proposal_bytes(&type_bytes, &[("k", "v")]);
        assert!(decode_proposal(&bytes).is_ok());
        for keep in 0..bytes.len() {
            assert_eq!(decode_proposal(&bytes[..keep]), Err(DecodeError::UnexpectedEnd));
        }
    }
}

#[test]
fn cut_votes_are_rejected() {
    let bytes = votes_bytes();
    assert!(decode_votes(&bytes).is_ok());
    for keep in 0..bytes.len() {
        assert_eq!(decode_votes(&bytes[..keep]), Err(DecodeError::UnexpectedEnd));
    }
}

#[test]
fn a_cut_tally_result_is_rejected() {
    let bytes = result_bytes();
    for keep in 0..bytes.len() {
        assert_eq!(decode_proposal_result(&bytes[..keep]), Err(DecodeError::UnexpectedEnd));
    }
}

#[test]
fn a_cut_commission_pair_is_rejected() {
    let bytes = pair_bytes();
    for keep in 0..bytes.len() {
        assert_eq!(decode_commission_pair(&bytes[..keep]), Err(DecodeError::UnexpectedEnd));
    }
}

#[test]
fn a_cut_address_is_rejected() {
    let bytes = text_bytes("tnam1qxyz");
    for keep in 0..bytes.len() {
        assert_eq!(decode_address(&bytes[..keep]), Err(DecodeError::UnexpectedEnd));
    }
}

#[test]
fn an_unknown_proposal_type_is_rejected() {
    let mut bytes = proposal_bytes(&[0, 0], &[]);
    bytes[8] = 3;
    assert_eq!(decode_proposal(&bytes), Err(DecodeError::InvalidTag));
    bytes[8] = 255;
    assert_eq!(decode_proposal(&bytes), Err(DecodeError::InvalidTag));
}

#[test]
fn an_unknown_presence_flag_is_rejected() {
    let mut bytes = proposal_bytes(&[0, 0], &[]);
    bytes[9] = 2;
    assert_eq!(decode_proposal(&bytes), Err(DecodeError::InvalidTag));
}

#[test]
fn an_unknown_change_is_rejected() {
    let mut bytes = proposal_bytes(&steward_type_bytes(), &[]);
    bytes[13] = 2;
    assert_eq!(decode_proposal(&bytes), Err(DecodeError::InvalidTag));
    let mut bytes = proposal_bytes(&payment_type_bytes(), &[]);
    bytes[13] = 2;
    assert_eq!(decode_proposal(&bytes), Err(DecodeError::InvalidTag));
    let mut bytes = proposal_bytes(&payment_type_bytes(), &[]);
    bytes[14] = 2;
    assert_eq!(decode_proposal(&bytes), Err(DecodeError::InvalidTag));
}

#[test]
fn an_unknown_vote_is_rejected() {
    let mut bytes = votes_bytes();
    let last = bytes.len() - 1;
    bytes[last] = 3;
    assert_eq!(decode_votes(&bytes), Err(DecodeError::InvalidTag));
}

#[test]
fn an_unknown_tally_label_is_rejected() {
    let mut bytes = result_bytes();
    bytes[0] = 2;
    assert_eq!(decode_proposal_result(&bytes), Err(DecodeError::InvalidTag));
    let mut bytes = result_bytes();
    bytes[1] = 3;
    assert_eq!(decode_proposal_result(&bytes), Err(DecodeError::InvalidTag));
}

#[test]
fn bytes_after_a_record_are_rejected() {
    let mut bytes = proposal_bytes(&[0, 0], &[]);
    bytes.push(0);
    assert_eq!(decode_proposal(&bytes), Err(DecodeError::TrailingBytes));
    let mut bytes = votes_bytes();
    bytes.push(0);
    assert_eq!(decode_votes(&bytes), Err(DecodeError::TrailingBytes));
    let mut bytes = result_bytes();
    bytes.push(0);
    assert_eq!(decode_proposal_result(&bytes), Err(DecodeError::TrailingBytes));
    let mut bytes = pair_bytes();
    bytes.push(0);
    assert_eq!(decode_commission_pair(&bytes), Err(DecodeError::TrailingBytes));
}

#[test]
fn decoding_twice_gives_the_same_value() {
    let bytes = proposal_bytes(&payment_type_bytes(), &[("k", "v")]);
    assert_eq!(decode_proposal(&bytes), decode_proposal(&bytes));
    assert_eq!(decode_votes(&votes_bytes()), decode_votes(&votes_bytes()));
}

#[test]
fn an_address_that_is_not_utf8_is_rejected() {
    assert_eq!(decode_address(&[1, 0, 0, 0, 0x80]), Err(DecodeError::InvalidText));
}

#[test]
fn a_record_is_read_where_it_stands() {
    let mut bytes = vec![0xeeu8, 0xee, 0xee];
    bytes.extend_from_slice(&text_bytes("here"));
    bytes.push(0xee);
    assert_eq!(Address::parse(&bytes, 3), Ok((address("here"), 11)));
    assert_eq!(ProposalVote::parse(&[9, 9, 1], 2), Ok((ProposalVote::Nay, 3)));
    assert_eq!(ProposalVote::parse(&[9, 9, 1], 3), Err(DecodeError::UnexpectedEnd));
    assert_eq!(ProposalVote::parse(&[9, 9, 1], 300), Err(DecodeError::UnexpectedEnd));
    assert_eq!(
        AddRemove::<Address>::parse(&bytes, 2),
        Err(DecodeError::InvalidTag)
    );
}

#[test]
fn an_optional_value_has_a_flag() {
    assert_eq!(parse_optional::<ProposalVote>(&[0, 7], 0), Ok((None, 1)));
    assert_eq!(parse_optional::<ProposalVote>(&[1, 2], 0), Ok((Some(ProposalVote::Abstain), 2)));
    assert_eq!(parse_optional::<ProposalVote>(&[1], 0), Err(DecodeError::UnexpectedEnd));
    assert_eq!(parse_optional::<ProposalVote>(&[2, 0], 0), Err(DecodeError::InvalidTag));
    assert_eq!(parse_optional::<ProposalVote>(&[1, 3], 0), Err(DecodeError::InvalidTag));
    assert_eq!(parse_optional::<ProposalVote>(&[], 0), Err(DecodeError::UnexpectedEnd));
}

#[test]
fn a_sequence_has_a_count() {
    assert_eq!(
        parse_sequence::<ProposalVote>(&[3, 0, 0, 0, 2, 1, 0, 9], 0),
        Ok((vec![ProposalVote::Abstain, ProposalVote::Nay, ProposalVote::Yay], 7))
    );
    assert_eq!(parse_sequence::<ProposalVote>(&[0, 0, 0, 0, 9], 0), Ok((Vec::new(), 4)));
    assert_eq!(
        parse_sequence::<ProposalVote>(&[3, 0, 0, 0, 2, 1], 0),
        Err(DecodeError::UnexpectedEnd)
    );
    assert_eq!(
        parse_sequence::<ProposalVote>(&[0xff, 0xff, 0xff, 0xff, 0, 1, 2], 0),
        Err(DecodeError::UnexpectedEnd)
    );
    assert_eq!(
        parse_sequence::<ProposalVote>(&[2, 0, 0, 0, 0, 5], 0),
        Err(DecodeError::InvalidTag)
    );
}

#[test]
fn four_words_are_thirty_two_little_endian_bytes() {
    let mut bytes = [0u8; 32];
    bytes[0] = 0x01;
    bytes[1] = 0x02;
    bytes[8] = 0x03;
    bytes[23] = 0x04;
    bytes[31] = 0x80;
    assert_eq!(
        read_words(&bytes, 0),
        Ok((
            Amount { w0: 0x0201, w1: 0x03, w2: 0x0400_0000_0000_0000, w3: 0x8000_0000_0000_0000 },
            32
        ))
    );
    assert_eq!(read_words(&bytes, 1), Err(DecodeError::UnexpectedEnd));
}

#[test]
fn an_entry_replaces_the_one_with_its_key() {
    let mut entries = vec![entry("a", "1"), entry("c", "3")];
    put_entry(&mut entries, entry("b", "2"));
    assert_eq!(entries, vec![entry("a", "1"), entry("b", "2"), entry("c", "3")]);
    put_entry(&mut entries, entry("c", "4"));
    assert_eq!(entries, vec![entry("a", "1"), entry("b", "2"), entry("c", "4")]);
    put_entry(&mut entries, entry("", "0"));
    put_entry(&mut entries, entry("d", "5"));
    assert_eq!(
        entries,
        vec![entry("", "0"), entry("a", "1"), entry("b", "2"), entry("c", "4"), entry("d", "5")]
    );
    let mut none: Vec<Entry> = Vec::new();
    put_entry(&mut none, entry("k", "v"));
    assert_eq!(none, vec![entry("k", "v")]);
}

#[test]
fn the_order_of_the_entries_given_does_not_matter() {
    let one = canonicalize(&vec![entry("x", "1"), entry("y", "2"), entry("z", "3")]);
    let other = canonicalize(&vec![entry("z", "3"), entry("x", "1"), entry("y", "2")]);
    assert_eq!(one, other);
    assert_eq!(one, vec![entry("x", "1"), entry("y", "2"), entry("z", "3")]);
    assert_eq!(canonicalize(&Vec::new()), Vec::<Entry>::new());
}

#[test]
fn text_must_be_well_formed_utf8() {
    let framed = |payload: &[u8]| {
        let mut bytes = (payload.len() as u32).to_le_bytes().to_vec();
        bytes.extend_from_slice(payload);
        bytes
    };
    assert_eq!(
        read_string(&framed(&[0xf4, 0x8f, 0xbf, 0xbf]), 0),
        Ok(("\u{10ffff}".to_string(), 8))
    );
    assert_eq!(read_string(&framed(&[0xe2, 0x82, 0xac]), 0), Ok(("€".to_string(), 7)));
    assert_eq!(read_string(&framed(&[0xc0, 0x80]), 0), Err(DecodeError::InvalidText));
    assert_eq!(read_string(&framed(&[0xed, 0xa0, 0x80]), 0), Err(DecodeError::InvalidText));
    assert_eq!(read_string(&framed(&[0xf4, 0x90, 0x80, 0x80]), 0), Err(DecodeError::InvalidText));
    assert_eq!(read_string(&framed(&[0xe2, 0x82]), 0), Err(DecodeError::InvalidText));
    assert_eq!(read_string(&framed(&[0x80]), 0), Err(DecodeError::InvalidText));
}
