//! The canonical output of each record: the labels, the derived status, and
//! the mapping from keys to texts that a record is shown as.

use crate::model::{
    views, CommissionPair, CommissionPairModel, Entry, Epoch, Proposal, ProposalModel,
    ProposalResult, ProposalResultModel, ProposalStatus, ProposalVote, TallyResult, TallyType,
    Vote, VoteModel,
};
use crate::numbers::{amount_text, dec_text, dec_to_text, decimal};
use crate::render::{
    format_proposal_data, proposal_type_label, spec_proposal_data, spec_proposal_type_label,
};
use vstd::prelude::*;
use vstd::string::*;

verus! {

/// Where a proposal stands at `current_epoch`: pending before the epoch at
/// which voting starts, on-going from that epoch until the epoch at which
/// voting ends, and ended from then on.
pub open spec fn spec_status(
    current_epoch: Epoch,
    voting_start_epoch: Epoch,
    voting_end_epoch: Epoch,
) -> ProposalStatus {
    if current_epoch < voting_start_epoch {
        ProposalStatus::Pending
    } else if current_epoch < voting_end_epoch {
        ProposalStatus::OnGoing
    } else {
        ProposalStatus::Ended
    }
}

/// The label of a status.
pub open spec fn spec_status_label(status: ProposalStatus) -> Seq<char> {
    match status {
        ProposalStatus::Pending => "pending"@,
        ProposalStatus::OnGoing => "on-going"@,
        ProposalStatus::Ended => "ended"@,
    }
}

/// The label of a vote's choice.
pub open spec fn spec_vote_label(vote: ProposalVote) -> Seq<char> {
    match vote {
        ProposalVote::Yay => "Yay"@,
        ProposalVote::Nay => "Nay"@,
        ProposalVote::Abstain => "Abstain"@,
    }
}

/// The label of a tally's outcome.
pub open spec fn spec_tally_result_label(result: TallyResult) -> Seq<char> {
    match result {
        TallyResult::Passed => "Passed"@,
        TallyResult::Rejected => "Rejected"@,
    }
}

/// The label of a tally's rule.
pub open spec fn spec_tally_type_label(tally_type: TallyType) -> Seq<char> {
    match tally_type {
        TallyType::TwoThirds => "TwoThirds"@,
        TallyType::OneHalfOverOneThird => "OneHalfOverOneThird"@,
        TallyType::LessOneHalfOverOneThirdNay => "LessOneHalfOverOneThirdNay"@,
    }
}

/// Where `proposal` stands at `current_epoch`.
pub fn proposal_status(proposal: &Proposal, current_epoch: Epoch) -> (status: ProposalStatus)
    ensures
        status == spec_status(
            current_epoch,
            proposal.voting_start_epoch,
            proposal.voting_end_epoch,
        ),
{
    if current_epoch < proposal.voting_start_epoch {
        ProposalStatus::Pending
    } else if current_epoch < proposal.voting_end_epoch {
        ProposalStatus::OnGoing
    } else {
        ProposalStatus::Ended
    }
}

/// The status of a proposal whose epochs are in order, at the three stages
/// of its life: pending before voting starts, on-going from the start of
/// voting until its end, and ended from the grace epoch on.
pub proof fn lemma_status_stages(
    current_epoch: Epoch,
    voting_start_epoch: Epoch,
    voting_end_epoch: Epoch,
    grace_epoch: Epoch,
)
    requires
        voting_start_epoch <= voting_end_epoch <= grace_epoch,
    ensures
        current_epoch < voting_start_epoch ==> spec_status(
            current_epoch,
            voting_start_epoch,
            voting_end_epoch,
        ) == ProposalStatus::Pending,
        voting_start_epoch <= current_epoch < voting_end_epoch ==> spec_status(
            current_epoch,
            voting_start_epoch,
            voting_end_epoch,
        ) == ProposalStatus::OnGoing,
        current_epoch >= grace_epoch ==> spec_status(
            current_epoch,
            voting_start_epoch,
            voting_end_epoch,
        ) == ProposalStatus::Ended,
{
}

/// The label of a status.
pub fn status_label(status: ProposalStatus) -> (label: String)
    ensures
        label@ == spec_status_label(status),
{
    match status {
        ProposalStatus::Pending => "pending".to_owned(),
        ProposalStatus::OnGoing => "on-going".to_owned(),
        ProposalStatus::Ended => "ended".to_owned(),
    }
}

/// The label of a vote's choice.
pub fn vote_label(vote: ProposalVote) -> (label: String)
    ensures
        label@ == spec_vote_label(vote),
{
    match vote {
        ProposalVote::Yay => "Yay".to_owned(),
        ProposalVote::Nay => "Nay".to_owned(),
        ProposalVote::Abstain => "Abstain".to_owned(),
    }
}

/// The label of a tally's outcome.
pub fn tally_result_label(result: TallyResult) -> (label: String)
    ensures
        label@ == spec_tally_result_label(result),
{
    match result {
        TallyResult::Passed => "Passed".to_owned(),
        TallyResult::Rejected => "Rejected".to_owned(),
    }
}

/// The label of a tally's rule.
pub fn tally_type_label(tally_type: TallyType) -> (label: String)
    ensures
        label@ == spec_tally_type_label(tally_type),
{
    match tally_type {
        TallyType::TwoThirds => "TwoThirds".to_owned(),
        TallyType::OneHalfOverOneThird => "OneHalfOverOneThird".to_owned(),
        TallyType::LessOneHalfOverOneThirdNay => "LessOneHalfOverOneThirdNay".to_owned(),
    }
}

/// A proposal as it is shown.
#[derive(Clone, Debug, PartialEq, Eq)]
pub struct ProposalOutput {
    pub id: u64,
    pub proposal_type: String,
    pub author: String,
    pub content: Vec<Entry>,
    pub voting_start_epoch: u64,
    pub voting_end_epoch: u64,
    pub grace_epoch: u64,
    pub status: String,
    pub data: String,
}

/// The value of a `ProposalOutput`.
pub struct ProposalOutputModel {
    pub id: u64,
    pub proposal_type: Seq<char>,
    pub author: Seq<char>,
    pub content: Seq<(Seq<char>, Seq<char>)>,
    pub voting_start_epoch: u64,
    pub voting_end_epoch: u64,
    pub grace_epoch: u64,
    pub status: Seq<char>,
    pub data: Seq<char>,
}

impl View for ProposalOutput {
    type V = ProposalOutputModel;

    open spec fn view(&self) -> ProposalOutputModel {
        ProposalOutputModel {
            id: self.id,
            proposal_type: self.proposal_type@,
            author: self.author@,
            content: views(self.content@),
            voting_start_epoch: self.voting_start_epoch,
            voting_end_epoch: self.voting_end_epoch,
            grace_epoch: self.grace_epoch,
            status: self.status@,
            data: self.data@,
        }
    }
}

/// A proposal as it is shown at `current_epoch`: its fields, the label of
/// its type, its status at that epoch and the text of its payload.
pub open spec fn spec_proposal_output(
    proposal: ProposalModel,
    current_epoch: Epoch,
) -> ProposalOutputModel {
    ProposalOutputModel {
        id: proposal.id,
        proposal_type: spec_proposal_type_label(proposal.proposal_type),
        author: proposal.author,
        content: proposal.content,
        voting_start_epoch: proposal.voting_start_epoch,
        voting_end_epoch: proposal.voting_end_epoch,
        grace_epoch: proposal.grace_epoch,
        status: spec_status_label(
            spec_status(current_epoch, proposal.voting_start_epoch, proposal.voting_end_epoch),
        ),
        data: spec_proposal_data(proposal.proposal_type),
    }
}

/// A vote as it is shown: the choice, the delegator and the validator.
pub open spec fn spec_vote_output(vote: VoteModel) -> Seq<(Seq<char>, Seq<char>)> {
    seq![
        ("data"@, spec_vote_label(vote.data)),
        ("delegator"@, vote.delegator),
        ("validator"@, vote.validator),
    ]
}

/// A tally result as it is shown: the two labels and the four powers as
/// decimal numbers.
pub open spec fn spec_proposal_result_output(result: ProposalResultModel) -> Seq<
    (Seq<char>, Seq<char>),
> {
    seq![
        ("result"@, spec_tally_result_label(result.result)),
        ("tally_type"@, spec_tally_type_label(result.tally_type)),
        ("total_abstain_power"@, decimal(result.total_abstain_power)),
        ("total_nay_power"@, decimal(result.total_nay_power)),
        ("total_voting_power"@, decimal(result.total_voting_power)),
        ("total_yay_power"@, decimal(result.total_yay_power)),
    ]
}

/// A commission pair as it is shown: the two numbers in decimal.
pub open spec fn spec_commission_pair_output(pair: CommissionPairModel) -> Seq<
    (Seq<char>, Seq<char>),
> {
    seq![
        ("commission_rate"@, dec_text(pair.commission_rate)),
        ("max_commission_change_per_epoch"@, dec_text(pair.max_commission_change_per_epoch)),
    ]
}

/// An entry with the given key and text.
fn entry(key: &str, value: String) -> (e: Entry)
    ensures
        e@ == (key@, value@),
{
    Entry { key: key.to_owned(), value }
}

/// Copies a list of entries.
pub fn copy_entries(entries: &Vec<Entry>) -> (copy: Vec<Entry>)
    ensures
        views(copy@) == views(entries@),
{
    let mut copy: Vec<Entry> = Vec::new();
    let mut i: usize = 0;
    while i < entries.len()
        invariant
            i <= entries.len(),
            views(copy@) == views(entries@).take(i as int),
        decreases entries.len() - i,
    {
        let e = Entry { key: entries[i].key.clone(), value: entries[i].value.clone() };
        copy.push(e);
        assert(views(copy@) == views(entries@).take(i as int).push(entries@[i as int]@));
        i = i + 1;
    }
    assert(views(entries@).take(i as int) == views(entries@));
    copy
}

/// The proposal as it is shown at `current_epoch`.
pub fn proposal_output(proposal: &Proposal, current_epoch: Epoch) -> (output: ProposalOutput)
    ensures
        output@ == spec_proposal_output(proposal@, current_epoch),
{
    ProposalOutput {
        id: proposal.id,
        proposal_type: proposal_type_label(&proposal.proposal_type),
        author: proposal.author.text.clone(),
        content: copy_entries(&proposal.content),
        voting_start_epoch: proposal.voting_start_epoch,
        voting_end_epoch: proposal.voting_end_epoch,
        grace_epoch: proposal.grace_epoch,
        status: status_label(proposal_status(proposal, current_epoch)),
        data: format_proposal_data(&proposal.proposal_type),
    }
}

/// The vote as it is shown.
pub fn vote_output(vote: &Vote) -> (output: Vec<Entry>)
    ensures
        views(output@) == spec_vote_output(vote@),
{
    let mut output: Vec<Entry> = Vec::new();
    output.push(entry("data", vote_label(vote.data)));
    output.push(entry("delegator", vote.delegator.text.clone()));
    output.push(entry("validator", vote.validator.text.clone()));
    assert(views(output@) == spec_vote_output(vote@));
    output
}

/// The tally result as it is shown.
pub fn proposal_result_output(result: &ProposalResult) -> (output: Vec<Entry>)
    ensures
        views(output@) == spec_proposal_result_output(result@),
{
    let mut output: Vec<Entry> = Vec::new();
    output.push(entry("result", tally_result_label(result.result)));
    output.push(entry("tally_type", tally_type_label(result.tally_type)));
    output.push(entry("total_abstain_power", amount_text(&result.total_abstain_power)));
    output.push(entry("total_nay_power", amount_text(&result.total_nay_power)));
    output.push(entry("total_voting_power", amount_text(&result.total_voting_power)));
    output.push(entry("total_yay_power", amount_text(&result.total_yay_power)));
    assert(views(output@) == spec_proposal_result_output(result@));
    output
}

/// The commission pair as it is shown.
pub fn commission_pair_output(pair: &CommissionPair) -> (output: Vec<Entry>)
    ensures
        views(output@) == spec_commission_pair_output(pair@),
{
    let mut output: Vec<Entry> = Vec::new();
    output.push(entry("commission_rate", dec_to_text(&pair.commission_rate)));
    output.push(
        entry(
            "max_commission_change_per_epoch",
            dec_to_text(&pair.max_commission_change_per_epoch),
        ),
    );
    assert(views(output@) == spec_commission_pair_output(pair@));
    output
}

} // verus!
