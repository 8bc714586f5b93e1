use gov_decoder::content::precedes;
use gov_decoder::model::{
    AddRemove, Address, Amount, Dec, PGFAction, PaymentTarget, Proposal, ProposalStatus,
    ProposalType, ProposalVote, TallyResult, TallyType,
};
use gov_decoder::numbers::{amount_text, dec_to_text};
use gov_decoder::output::{
    proposal_status, status_label, tally_result_label, tally_type_label, vote_label,
};
use gov_decoder::render::{format_proposal_data, proposal_type_label};

fn address(text: &str) -> Address {
    Address { text: text.to_string() }
}

fn target(text: &str) -> PaymentTarget {
    PaymentTarget { target: address(text) }
}

fn dec(units: i128) -> Dec {
    let low = units as u128;
    let high = if units < 0 { u64::MAX } else { 0 };
    Dec { raw: Amount { w0: low as u64, w1: (low >> 64) as u64, w2: high, w3: high } }
}

fn proposal_with_epochs(start: u64, end: u64, grace: u64) -> Proposal {
    Proposal {
        id: 1,
        content: Vec::new(),
        author: address("a"),
        proposal_type: ProposalType::Default(None),
        voting_start_epoch: start,
        voting_end_epoch: end,
        grace_epoch: grace,
    }
}

#[test]
fn steward_changes_are_joined_in_order() {
    let proposal_type = ProposalType::PGFSteward(vec![
        AddRemove::Add(address("A1")),
        AddRemove::Remove(address("A2")),
    ]);
    assert_eq!(format_proposal_data(&proposal_type), "Add(A1), Remove(A2)");
}

#[test]
fn a_default_proposal_without_a_digest_has_no_data() {
    assert_eq!(format_proposal_data(&ProposalType::Default(None)), "");
}

#[test]
fn a_digest_is_shown_in_upper_case_hexadecimal() {
    let mut bytes = [0u8; 32];
    bytes[0] = 0x01;
    bytes[1] = 0xab;
    bytes[31] = 0xf0;
    let proposal_type = ProposalType::Default(Some(gov_decoder::model::Hash { bytes }));
    assert_eq!(
        format_proposal_data(&proposal_type),
        "Hash: 01AB0000000000000000000000000000000000000000000000000000000000F0"
    );
}

#[test]
fn payment_changes_are_joined_in_order() {
    let proposal_type = ProposalType::PGFPayment(vec![
        PGFAction::Continuous(AddRemove::Add(target("T1"))),
        PGFAction::Retro(target("T2")),
        PGFAction::Continuous(AddRemove::Remove(target("T3"))),
    ]);
    assert_eq!(format_proposal_data(&proposal_type), "Add(T1), Retro(T2), Remove(T3)");
}

#[test]
fn an_empty_list_of_changes_has_no_data() {
    assert_eq!(format_proposal_data(&ProposalType::PGFSteward(Vec::new())), "");
    assert_eq!(format_proposal_data(&ProposalType::PGFPayment(Vec::new())), "");
}

#[test]
fn a_single_change_has_no_separator() {
    let proposal_type = ProposalType::PGFSteward(vec![AddRemove::Remove(address("only"))]);
    assert_eq!(format_proposal_data(&proposal_type), "Remove(only)");
}

#[test]
fn proposal_types_have_their_labels() {
    assert_eq!(proposal_type_label(&ProposalType::Default(None)), "Default");
    assert_eq!(proposal_type_label(&ProposalType::PGFSteward(Vec::new())), "PGF steward");
    assert_eq!(proposal_type_label(&ProposalType::PGFPayment(Vec::new())), "PGF funding");
}

#[test]
fn status_follows_the_epochs() {
    let proposal = proposal_with_epochs(10, 20, 25);
    assert_eq!(proposal_status(&proposal, 5), ProposalStatus::Pending);
    assert_eq!(proposal_status(&proposal, 15), ProposalStatus::OnGoing);
    assert_eq!(proposal_status(&proposal, 30), ProposalStatus::Ended);
}

#[test]
fn status_at_the_boundaries() {
    let proposal = proposal_with_epochs(10, 20, 25);
    assert_eq!(proposal_status(&proposal, 9), ProposalStatus::Pending);
    assert_eq!(proposal_status(&proposal, 10), ProposalStatus::OnGoing);
    assert_eq!(proposal_status(&proposal, 19), ProposalStatus::OnGoing);
    assert_eq!(proposal_status(&proposal, 20), ProposalStatus::Ended);
    assert_eq!(proposal_status(&proposal, 25), ProposalStatus::Ended);
    assert_eq!(proposal_status(&proposal, u64::MAX), ProposalStatus::Ended);
}

#[test]
fn labels_are_spelled_exactly() {
    assert_eq!(status_label(ProposalStatus::Pending), "pending");
    assert_eq!(status_label(ProposalStatus::OnGoing), "on-going");
    assert_eq!(status_label(ProposalStatus::Ended), "ended");
    assert_eq!(vote_label(ProposalVote::Yay), "Yay");
    assert_eq!(vote_label(ProposalVote::Nay), "Nay");
    assert_eq!(vote_label(ProposalVote::Abstain), "Abstain");
    assert_eq!(tally_result_label(TallyResult::Passed), "Passed");
    assert_eq!(tally_result_label(TallyResult::Rejected), "Rejected");
    assert_eq!(tally_type_label(TallyType::TwoThirds), "TwoThirds");
    assert_eq!(tally_type_label(TallyType::OneHalfOverOneThird), "OneHalfOverOneThird");
    assert_eq!(
        tally_type_label(TallyType::LessOneHalfOverOneThirdNay),
        "LessOneHalfOverOneThirdNay"
    );
}

#[test]
fn small_amounts_in_decimal() {
    assert_eq!(amount_text(&Amount { w0: 0, w1: 0, w2: 0, w3: 0 }), "0");
    assert_eq!(amount_text(&Amount { w0: 9, w1: 0, w2: 0, w3: 0 }), "9");
    assert_eq!(amount_text(&Amount { w0: 10, w1: 0, w2: 0, w3: 0 }), "10");
    assert_eq!(amount_text(&Amount { w0: 1_000_000, w1: 0, w2: 0, w3: 0 }), "1000000");
    assert_eq!(
        amount_text(&Amount { w0: u64::MAX, w1: 0, w2: 0, w3: 0 }),
        "18446744073709551615"
    );
}

#[test]
fn large_amounts_in_decimal_without_truncation() {
    assert_eq!(amount_text(&Amount { w0: 0, w1: 1, w2: 0, w3: 0 }), "18446744073709551616");
    assert_eq!(
        amount_text(&Amount { w0: 0, w1: 0, w2: 1, w3: 0 }),
        "340282366920938463463374607431768211456"
    );
    assert_eq!(
        amount_text(&Amount { w0: 0, w1: 0, w2: 0, w3: 1 }),
        "6277101735386680763835789423207666416102355444464034512896"
    );
    assert_eq!(
        amount_text(&Amount { w0: u64::MAX, w1: u64::MAX, w2: u64::MAX, w3: u64::MAX }),
        "115792089237316195423570985008687907853269984665640564039457584007913129639935"
    );
}

#[test]
fn fixed_point_numbers_in_decimal() {
    assert_eq!(dec_to_text(&dec(0)), "0");
    assert_eq!(dec_to_text(&dec(50_000_000_000)), "0.05");
    assert_eq!(dec_to_text(&dec(1_000_000_000_000)), "1");
    assert_eq!(dec_to_text(&dec(100_000_000_000_000)), "100");
    assert_eq!(dec_to_text(&dec(1_000_000_000_001)), "1.000000000001");
    assert_eq!(dec_to_text(&dec(1)), "0.000000000001");
    assert_eq!(dec_to_text(&dec(123_456_789_012_345)), "123.456789012345");
    assert_eq!(dec_to_text(&dec(1_500_000_000_000)), "1.5");
    assert_eq!(dec_to_text(&dec(10_100_000_000_000)), "10.1");
}

#[test]
fn negative_fixed_point_numbers_in_decimal() {
    assert_eq!(dec_to_text(&dec(-500_000_000_000)), "-0.5");
    assert_eq!(dec_to_text(&dec(-1)), "-0.000000000001");
    assert_eq!(dec_to_text(&dec(-2_000_000_000_000)), "-2");
    let least = Dec { raw: Amount { w0: 0, w1: 0, w2: 0, w3: 0x8000_0000_0000_0000 } };
    assert_eq!(
        dec_to_text(&least),
        "-57896044618658097711785492504343953926634992332820282019728792003.956564819968"
    );
    let greatest = Dec {
        raw: Amount { w0: u64::MAX, w1: u64::MAX, w2: u64::MAX, w3: 0x7fff_ffff_ffff_ffff },
    };
    assert_eq!(
        dec_to_text(&greatest),
        "57896044618658097711785492504343953926634992332820282019728792003.956564819967"
    );
}

#[test]
fn keys_order_by_their_bytes() {
    assert!(precedes("a", "b"));
    assert!(!precedes("b", "a"));
    assert!(!precedes("a", "a"));
    assert!(precedes("", "a"));
    assert!(!precedes("a", ""));
    assert!(precedes("a", "ab"));
    assert!(precedes("Z", "a"));
    assert!(precedes("z", "é"));
}
