//! From bytes to output text: each operation decodes one record and writes
//! its canonical output.

use crate::codec::DecodeError;
use crate::decoder::{
    decode_address, decode_commission_pair, decode_proposal, decode_proposal_result,
    decode_votes, spec_decode_address, spec_decode_commission_pair, spec_decode_proposal,
    spec_decode_proposal_result, spec_decode_votes,
};
use crate::json::{
    array_text, entries_quotable, json_array, json_object, json_proposal, mappings_quotable,
    object_text, proposal_quotable, proposal_text, SerializationError,
};
use crate::model::{views, Entry, Vote, VoteModel};
use crate::output::{
    commission_pair_output, proposal_output, proposal_result_output, spec_commission_pair_output,
    spec_proposal_output, spec_proposal_result_output, spec_vote_output, vote_output,
};
use vstd::prelude::*;
use vstd::string::*;

verus! {

/// Why an operation gave no output.
#[derive(Clone, Debug, PartialEq, Eq)]
pub enum ParseError {
    /// The bytes are not an encoding of the record.
    Decode(DecodeError),
    /// The output could not be written as text.
    Serialization(SerializationError),
}

/// What is said of a decode error.
pub open spec fn spec_decode_message(error: DecodeError) -> Seq<char> {
    match error {
        DecodeError::UnexpectedEnd => "Unexpected length of input"@,
        DecodeError::InvalidTag => "Unexpected variant tag"@,
        DecodeError::InvalidText => "Invalid UTF-8 in text"@,
        DecodeError::TrailingBytes => "Not all bytes read"@,
    }
}

/// What is said of a decode error.
pub fn decode_message(error: DecodeError) -> (message: String)
    ensures
        message@ == spec_decode_message(error),
{
    match error {
        DecodeError::UnexpectedEnd => "Unexpected length of input".to_owned(),
        DecodeError::InvalidTag => "Unexpected variant tag".to_owned(),
        DecodeError::InvalidText => "Invalid UTF-8 in text".to_owned(),
        DecodeError::TrailingBytes => "Not all bytes read".to_owned(),
    }
}

impl ParseError {
    /// What is said of the error: which step failed, and why.
    pub fn message(&self) -> (message: String)
        ensures
            message@ == match *self {
                ParseError::Decode(e) => "Decoding failed: "@ + spec_decode_message(e),
                ParseError::Serialization(e) => "Serialization failed: "@ + e.message@,
            },
    {
        match self {
            ParseError::Decode(e) => {
                let mut message = "Decoding failed: ".to_owned();
                message.append(decode_message(*e).as_str());
                message
            },
            ParseError::Serialization(e) => {
                let mut message = "Serialization failed: ".to_owned();
                message.append(e.message.as_str());
                message
            },
        }
    }
}

/// The votes as they are shown, in their order.
pub open spec fn spec_votes_output(votes: Seq<VoteModel>) -> Seq<Seq<(Seq<char>, Seq<char>)>> {
    Seq::new(votes.len(), |i: int| spec_vote_output(votes[i]))
}

/// The votes as they are shown, in their order.
pub fn votes_output(votes: &Vec<Vote>) -> (output: Vec<Vec<Entry>>)
    ensures
        output@.len() == votes@.len(),
        Seq::new(output@.len(), |i: int| views(output@[i]@)) == spec_votes_output(views(votes@)),
{
    let mut output: Vec<Vec<Entry>> = Vec::new();
    let mut i: usize = 0;
    while i < votes.len()
        invariant
            i <= votes.len(),
            output@.len() == i,
            forall|j: int| 0 <= j < i ==> views(#[trigger] output@[j]@) == spec_vote_output(votes@[j]@),
        decreases votes.len() - i,
    {
        output.push(vote_output(&votes[i]));
        i = i + 1;
    }
    assert(Seq::new(output@.len(), |i: int| views(output@[i]@)) == spec_votes_output(
        views(votes@),
    ));
    output
}

/// Decodes a stored proposal and writes it as it is shown at
/// `current_epoch`. Writing fails where a key or a text of the output cannot
/// be written, and only there.
pub fn proposal_parse(data: &[u8], current_epoch: u64) -> (r: Result<String, ParseError>)
    ensures
        match spec_decode_proposal(data@) {
            Err(e) => r is Err && r->Err_0 == ParseError::Decode(e),
            Ok(proposal) => match r {
                Ok(text) => proposal_quotable(spec_proposal_output(proposal, current_epoch))
                    && text@ == json_proposal(spec_proposal_output(proposal, current_epoch)),
                Err(e) => e is Serialization && !proposal_quotable(
                    spec_proposal_output(proposal, current_epoch),
                ),
            },
        },
{
    let proposal = match decode_proposal(data) {
        Ok(p) => p,
        Err(e) => { return Err(ParseError::Decode(e)); },
    };
    let output = proposal_output(&proposal, current_epoch);
    match proposal_text(&output) {
        Ok(text) => Ok(text),
        Err(e) => Err(ParseError::Serialization(e)),
    }
}

/// Decodes a sequence of votes and writes them, in their order. Writing
/// fails where a key or a text of a vote cannot be written, and only there;
/// so not where there is no vote.
pub fn votes_parse(data: &[u8]) -> (r: Result<String, ParseError>)
    ensures
        match spec_decode_votes(data@) {
            Err(e) => r is Err && r->Err_0 == ParseError::Decode(e),
            Ok(votes) => match r {
                Ok(text) => mappings_quotable(spec_votes_output(votes)) && text@ == json_array(
                    spec_votes_output(votes),
                ),
                Err(e) => e is Serialization && !mappings_quotable(spec_votes_output(votes))
                    && votes.len() > 0,
            },
        },
{
    let votes = match decode_votes(data) {
        Ok(v) => v,
        Err(e) => { return Err(ParseError::Decode(e)); },
    };
    let output = votes_output(&votes);
    match array_text(&output) {
        Ok(text) => Ok(text),
        Err(e) => Err(ParseError::Serialization(e)),
    }
}

/// Decodes a tally result and writes it. Writing fails where a key or a
/// text of the output cannot be written, and only there.
pub fn proposal_result_parse(data: &[u8]) -> (r: Result<String, ParseError>)
    ensures
        match spec_decode_proposal_result(data@) {
            Err(e) => r is Err && r->Err_0 == ParseError::Decode(e),
            Ok(result) => match r {
                Ok(text) => entries_quotable(spec_proposal_result_output(result)) && text@
                    == json_object(spec_proposal_result_output(result)),
                Err(e) => e is Serialization && !entries_quotable(
                    spec_proposal_result_output(result),
                ),
            },
        },
{
    let result = match decode_proposal_result(data) {
        Ok(v) => v,
        Err(e) => { return Err(ParseError::Decode(e)); },
    };
    let output = proposal_result_output(&result);
    match object_text(&output) {
        Ok(text) => Ok(text),
        Err(e) => Err(ParseError::Serialization(e)),
    }
}

/// Decodes a commission pair and writes it. Writing fails where a key or a
/// text of the output cannot be written, and only there.
pub fn commission_pair_parse(data: &[u8]) -> (r: Result<String, ParseError>)
    ensures
        match spec_decode_commission_pair(data@) {
            Err(e) => r is Err && r->Err_0 == ParseError::Decode(e),
            Ok(pair) => match r {
                Ok(text) => entries_quotable(spec_commission_pair_output(pair)) && text@
                    == json_object(spec_commission_pair_output(pair)),
                Err(e) => e is Serialization && !entries_quotable(
                    spec_commission_pair_output(pair),
                ),
            },
        },
{
    let pair = match decode_commission_pair(data) {
        Ok(v) => v,
        Err(e) => { return Err(ParseError::Decode(e)); },
    };
    let output = commission_pair_output(&pair);
    match object_text(&output) {
        Ok(text) => Ok(text),
        Err(e) => Err(ParseError::Serialization(e)),
    }
}

/// Decodes an address and gives its canonical text.
pub fn address_parse(data: &[u8]) -> (r: Result<String, ParseError>)
    ensures
        match spec_decode_address(data@) {
            Err(e) => r is Err && r->Err_0 == ParseError::Decode(e),
            Ok(text) => r is Ok && r->Ok_0@ == text,
        },
{
    match decode_address(data) {
        Ok(address) => Ok(address.text),
        Err(e) => Err(ParseError::Decode(e)),
    }
}

} // verus!
