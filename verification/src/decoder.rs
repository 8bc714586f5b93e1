//! The five decode operations. Each reads a whole buffer as one record: the
//! record must begin at the first byte and end at the last.

use crate::codec::{cut_short, is_prefix, DecodeError};
use crate::content::{ascending, lemma_canonical_ascending};
use crate::wire::{lemma_sequence, parse_sequence, spec_optional, spec_sequence, Record};
use crate::model::{
    views, AddRemove, Address, CommissionPair, CommissionPairModel, PGFAction, Proposal,
    ProposalModel, ProposalResult, ProposalResultModel, ProposalType, ProposalVote, TallyResult,
    TallyType, Vote, VoteModel,
};
use vstd::prelude::*;

verus! {

/// What a whole buffer decodes to, given what reading at its start gives: the
/// value if it ends where the buffer ends.
pub open spec fn whole<V>(parsed: Result<(V, int), DecodeError>, len: int) -> Result<
    V,
    DecodeError,
> {
    match parsed {
        Err(e) => Err(e),
        Ok((value, next)) => if next == len {
            Ok(value)
        } else {
            Err(DecodeError::TrailingBytes)
        },
    }
}

/// The proposal that `bytes` encode.
pub open spec fn spec_decode_proposal(bytes: Seq<u8>) -> Result<ProposalModel, DecodeError> {
    whole(Proposal::spec_parse(bytes, 0), bytes.len() as int)
}

/// The votes that `bytes` encode: a sequence, in its order.
pub open spec fn spec_decode_votes(bytes: Seq<u8>) -> Result<Seq<VoteModel>, DecodeError> {
    whole(spec_sequence::<Vote>(bytes, 0), bytes.len() as int)
}

/// The tally result that `bytes` encode.
pub open spec fn spec_decode_proposal_result(bytes: Seq<u8>) -> Result<
    ProposalResultModel,
    DecodeError,
> {
    whole(ProposalResult::spec_parse(bytes, 0), bytes.len() as int)
}

/// The commission pair that `bytes` encode.
pub open spec fn spec_decode_commission_pair(bytes: Seq<u8>) -> Result<
    CommissionPairModel,
    DecodeError,
> {
    whole(CommissionPair::spec_parse(bytes, 0), bytes.len() as int)
}

/// The address that `bytes` encode, as its canonical text.
pub open spec fn spec_decode_address(bytes: Seq<u8>) -> Result<Seq<char>, DecodeError> {
    whole(Address::spec_parse(bytes, 0), bytes.len() as int)
}

/// Decodes a buffer that holds one record and nothing else.
pub fn decode_record<T: Record>(bytes: &[u8]) -> (r: Result<T, DecodeError>)
    ensures
        match whole(T::spec_parse(bytes@, 0), bytes@.len() as int) {
            Ok(value) => r is Ok && r->Ok_0@ == value,
            Err(e) => r is Err && r->Err_0 == e,
        },
{
    match T::parse(bytes, 0) {
        Err(e) => Err(e),
        Ok((value, next)) => if next == bytes.len() {
            Ok(value)
        } else {
            Err(DecodeError::TrailingBytes)
        },
    }
}

/// Decodes a stored proposal. Its content holds each key once, in ascending
/// order of the keys.
pub fn decode_proposal(bytes: &[u8]) -> (r: Result<Proposal, DecodeError>)
    ensures
        match spec_decode_proposal(bytes@) {
            Ok(value) => r is Ok && r->Ok_0@ == value,
            Err(e) => r is Err && r->Err_0 == e,
        },
        r matches Ok(proposal) ==> proposal.well_formed(),
{
    proof {
        lemma_decoded_content_ascending(bytes@);
    }
    decode_record::<Proposal>(bytes)
}

/// The content of a decoded proposal has ascending keys.
pub proof fn lemma_decoded_content_ascending(bytes: Seq<u8>)
    ensures
        spec_decode_proposal(bytes) matches Ok(proposal) ==> ascending(proposal.content),
{
    if spec_decode_proposal(bytes) is Ok {
        let at1 = crate::codec::spec_u64(bytes, 0)->Ok_0.1;
        let at2 = ProposalType::spec_parse(bytes, at1)->Ok_0.1;
        let at3 = Address::spec_parse(bytes, at2)->Ok_0.1;
        let wire = spec_sequence::<crate::model::Entry>(bytes, at3)->Ok_0.0;
        lemma_canonical_ascending(wire);
    }
}

/// Decodes a sequence of votes, keeping their order.
pub fn decode_votes(bytes: &[u8]) -> (r: Result<Vec<Vote>, DecodeError>)
    ensures
        match spec_decode_votes(bytes@) {
            Ok(value) => r is Ok && views(r->Ok_0@) == value && r->Ok_0@.len() == value.len(),
            Err(e) => r is Err && r->Err_0 == e,
        },
{
    match parse_sequence::<Vote>(bytes, 0) {
        Err(e) => Err(e),
        Ok((votes, next)) => if next == bytes.len() {
            Ok(votes)
        } else {
            Err(DecodeError::TrailingBytes)
        },
    }
}

/// Decodes a tally result.
pub fn decode_proposal_result(bytes: &[u8]) -> (r: Result<ProposalResult, DecodeError>)
    ensures
        match spec_decode_proposal_result(bytes@) {
            Ok(value) => r is Ok && r->Ok_0@ == value,
            Err(e) => r is Err && r->Err_0 == e,
        },
{
    decode_record::<ProposalResult>(bytes)
}

/// Decodes a commission pair.
pub fn decode_commission_pair(bytes: &[u8]) -> (r: Result<CommissionPair, DecodeError>)
    ensures
        match spec_decode_commission_pair(bytes@) {
            Ok(value) => r is Ok && r->Ok_0@ == value,
            Err(e) => r is Err && r->Err_0 == e,
        },
{
    decode_record::<CommissionPair>(bytes)
}

/// Decodes an address.
pub fn decode_address(bytes: &[u8]) -> (r: Result<Address, DecodeError>)
    ensures
        match spec_decode_address(bytes@) {
            Ok(value) => r is Ok && r->Ok_0@ == value,
            Err(e) => r is Err && r->Err_0 == e,
        },
{
    decode_record::<Address>(bytes)
}

/// A buffer that decodes no longer does once bytes are cut from its end: what
/// is left is too short. Stated for what reading at the start gives.
pub proof fn lemma_cut_whole<V>(
    parsed: Result<(V, int), DecodeError>,
    parsed_cut: Result<(V, int), DecodeError>,
    len: int,
    cut_len: int,
)
    requires
        whole(parsed, len) is Ok,
        cut_len < len,
        parsed_cut == cut_short(parsed, cut_len),
    ensures
        whole(parsed_cut, cut_len) == Err::<V, DecodeError>(DecodeError::UnexpectedEnd),
{
}

/// Cutting one byte or more from the end of an encoded proposal leaves a
/// buffer that is rejected as too short.
pub proof fn lemma_truncated_proposal(bytes: Seq<u8>, keep: int)
    requires
        spec_decode_proposal(bytes) is Ok,
        0 <= keep < bytes.len(),
    ensures
        spec_decode_proposal(bytes.take(keep)) == Err::<ProposalModel, DecodeError>(
            DecodeError::UnexpectedEnd,
        ),
{
    Proposal::lemma_parse(bytes, 0);
    assert(is_prefix(bytes.take(keep), bytes));
    lemma_cut_whole(
        Proposal::spec_parse(bytes, 0),
        Proposal::spec_parse(bytes.take(keep), 0),
        bytes.len() as int,
        keep,
    );
}

/// Cutting one byte or more from the end of an encoded sequence of votes
/// leaves a buffer that is rejected as too short.
pub proof fn lemma_truncated_votes(bytes: Seq<u8>, keep: int)
    requires
        spec_decode_votes(bytes) is Ok,
        0 <= keep < bytes.len(),
    ensures
        spec_decode_votes(bytes.take(keep)) == Err::<Seq<VoteModel>, DecodeError>(
            DecodeError::UnexpectedEnd,
        ),
{
    lemma_sequence::<Vote>(bytes, 0);
    assert(is_prefix(bytes.take(keep), bytes));
    lemma_cut_whole(
        spec_sequence::<Vote>(bytes, 0),
        spec_sequence::<Vote>(bytes.take(keep), 0),
        bytes.len() as int,
        keep,
    );
}

/// Cutting one byte or more from the end of an encoded tally result leaves a
/// buffer that is rejected as too short.
pub proof fn lemma_truncated_proposal_result(bytes: Seq<u8>, keep: int)
    requires
        spec_decode_proposal_result(bytes) is Ok,
        0 <= keep < bytes.len(),
    ensures
        spec_decode_proposal_result(bytes.take(keep)) == Err::<ProposalResultModel, DecodeError>(
            DecodeError::UnexpectedEnd,
        ),
{
    ProposalResult::lemma_parse(bytes, 0);
    assert(is_prefix(bytes.take(keep), bytes));
    lemma_cut_whole(
        ProposalResult::spec_parse(bytes, 0),
        ProposalResult::spec_parse(bytes.take(keep), 0),
        bytes.len() as int,
        keep,
    );
}

/// Cutting one byte or more from the end of an encoded commission pair
/// leaves a buffer that is rejected as too short.
pub proof fn lemma_truncated_commission_pair(bytes: Seq<u8>, keep: int)
    requires
        spec_decode_commission_pair(bytes) is Ok,
        0 <= keep < bytes.len(),
    ensures
        spec_decode_commission_pair(bytes.take(keep)) == Err::<CommissionPairModel, DecodeError>(
            DecodeError::UnexpectedEnd,
        ),
{
    CommissionPair::lemma_parse(bytes, 0);
    assert(is_prefix(bytes.take(keep), bytes));
    lemma_cut_whole(
        CommissionPair::spec_parse(bytes, 0),
        CommissionPair::spec_parse(bytes.take(keep), 0),
        bytes.len() as int,
        keep,
    );
}

/// Cutting one byte or more from the end of an encoded address leaves a
/// buffer that is rejected as too short.
pub proof fn lemma_truncated_address(bytes: Seq<u8>, keep: int)
    requires
        spec_decode_address(bytes) is Ok,
        0 <= keep < bytes.len(),
    ensures
        spec_decode_address(bytes.take(keep)) == Err::<Seq<char>, DecodeError>(
            DecodeError::UnexpectedEnd,
        ),
{
    Address::lemma_parse(bytes, 0);
    assert(is_prefix(bytes.take(keep), bytes));
    lemma_cut_whole(
        Address::spec_parse(bytes, 0),
        Address::spec_parse(bytes.take(keep), 0),
        bytes.len() as int,
        keep,
    );
}

/// No record has an encoding of no bytes: the empty buffer is rejected by
/// each of the five operations.
pub proof fn lemma_empty_rejected()
    ensures
        spec_decode_proposal(Seq::empty()) is Err,
        spec_decode_votes(Seq::empty()) is Err,
        spec_decode_proposal_result(Seq::empty()) is Err,
        spec_decode_commission_pair(Seq::empty()) is Err,
        spec_decode_address(Seq::empty()) is Err,
{
    reveal(crate::records::spec_words);
}

/// A union is rejected wherever it stands when its discriminant is out of
/// range: two and more for a tally result or a payment change, three and
/// more for a proposal type, a vote or a tally type.
pub proof fn lemma_unknown_discriminant(s: Seq<u8>, pos: int)
    requires
        0 <= pos < s.len(),
    ensures
        s[pos] >= 3 ==> ProposalType::spec_parse(s, pos) is Err && ProposalType::spec_parse(
            s,
            pos,
        )->Err_0 == DecodeError::InvalidTag,
        s[pos] >= 2 ==> PGFAction::spec_parse(s, pos) is Err && PGFAction::spec_parse(
            s,
            pos,
        )->Err_0 == DecodeError::InvalidTag,
        s[pos] >= 3 ==> ProposalVote::spec_parse(s, pos) is Err && ProposalVote::spec_parse(
            s,
            pos,
        )->Err_0 == DecodeError::InvalidTag,
        s[pos] >= 2 ==> TallyResult::spec_parse(s, pos) is Err && TallyResult::spec_parse(
            s,
            pos,
        )->Err_0 == DecodeError::InvalidTag,
        s[pos] >= 3 ==> TallyType::spec_parse(s, pos) is Err && TallyType::spec_parse(
            s,
            pos,
        )->Err_0 == DecodeError::InvalidTag,
{
}

/// An addition or removal, and an optional value, are rejected wherever
/// they stand when the discriminant or the presence flag is two or more.
pub proof fn lemma_unknown_flag<T: Record>(s: Seq<u8>, pos: int)
    requires
        0 <= pos < s.len(),
        s[pos] >= 2,
    ensures
        AddRemove::<T>::spec_parse(s, pos) is Err,
        AddRemove::<T>::spec_parse(s, pos)->Err_0 == DecodeError::InvalidTag,
        spec_optional::<T>(s, pos) is Err,
        spec_optional::<T>(s, pos)->Err_0 == DecodeError::InvalidTag,
{
}

/// A buffer whose proposal type, the byte after the id, is out of range is
/// no proposal.
pub proof fn lemma_unknown_proposal_type(bytes: Seq<u8>)
    requires
        bytes.len() > 8,
        bytes[8] >= 3,
    ensures
        spec_decode_proposal(bytes) == Err::<ProposalModel, DecodeError>(DecodeError::InvalidTag),
{
}

/// A buffer whose first byte is no tally result, or whose second byte is no
/// tally type after a first byte that is a tally result, is no tally result.
pub proof fn lemma_unknown_tally(bytes: Seq<u8>)
    requires
        bytes.len() >= 1 && bytes[0] >= 2 || bytes.len() >= 2 && bytes[1] >= 3,
    ensures
        spec_decode_proposal_result(bytes) == Err::<ProposalResultModel, DecodeError>(
            DecodeError::InvalidTag,
        ),
{
}

/// The sequence of no votes, a count of zero, decodes to no votes.
pub proof fn lemma_no_votes()
    ensures
        spec_decode_votes(seq![0u8, 0u8, 0u8, 0u8]) == Ok::<Seq<VoteModel>, DecodeError>(
            Seq::empty(),
        ),
{
    let bytes = seq![0u8, 0u8, 0u8, 0u8];
    assert(bytes.subrange(0, 4) == bytes);
    reveal_with_fuel(crate::codec::le_value, 5);
}

} // verus!
