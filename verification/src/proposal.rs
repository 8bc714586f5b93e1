//! The encoding of a stored proposal.

use crate::codec::{cut_short, is_prefix, lemma_u64, read_u64, spec_u64, DecodeError};
use crate::content::{canonical_content, canonicalize};
use crate::wire::{lemma_sequence, parse_sequence, spec_sequence, Record};
use crate::model::{Address, Entry, Proposal, ProposalModel, ProposalType};
use vstd::prelude::*;

verus! {

impl Record for Proposal {
    /// The id in eight bytes, the type, the author's address, the content as
    /// a sequence of entries, then the epochs at which voting starts and
    /// ends and the grace epoch, in eight bytes each. The content is the
    /// mapping that the entries give.
    open spec fn spec_parse(s: Seq<u8>, pos: int) -> Result<(ProposalModel, int), DecodeError> {
        match spec_u64(s, pos) {
            Err(e) => Err(e),
            Ok((id, at1)) => match ProposalType::spec_parse(s, at1) {
                Err(e) => Err(e),
                Ok((proposal_type, at2)) => match Address::spec_parse(s, at2) {
                    Err(e) => Err(e),
                    Ok((author, at3)) => match spec_sequence::<Entry>(s, at3) {
                        Err(e) => Err(e),
                        Ok((entries, at4)) => match spec_u64(s, at4) {
                            Err(e) => Err(e),
                            Ok((voting_start_epoch, at5)) => match spec_u64(s, at5) {
                                Err(e) => Err(e),
                                Ok((voting_end_epoch, at6)) => match spec_u64(s, at6) {
                                    Err(e) => Err(e),
                                    Ok((grace_epoch, end)) => Ok(
                                        (
                                            ProposalModel {
                                                id,
                                                content: canonical_content(entries),
                                                author,
                                                proposal_type,
                                                voting_start_epoch,
                                                voting_end_epoch,
                                                grace_epoch,
                                            },
                                            end,
                                        ),
                                    ),
                                },
                            },
                        },
                    },
                },
            },
        }
    }

    fn parse(input: &[u8], pos: usize) -> (r: Result<(Self, usize), DecodeError>) {
        let (id, at1) = match read_u64(input, pos) {
            Ok(x) => x,
            Err(e) => { return Err(e); },
        };
        let (proposal_type, at2) = match ProposalType::parse(input, at1) {
            Ok(x) => x,
            Err(e) => { return Err(e); },
        };
        let (author, at3) = match Address::parse(input, at2) {
            Ok(x) => x,
            Err(e) => { return Err(e); },
        };
        let (entries, at4) = match parse_sequence::<Entry>(input, at3) {
            Ok(x) => x,
            Err(e) => { return Err(e); },
        };
        let (voting_start_epoch, at5) = match read_u64(input, at4) {
            Ok(x) => x,
            Err(e) => { return Err(e); },
        };
        let (voting_end_epoch, at6) = match read_u64(input, at5) {
            Ok(x) => x,
            Err(e) => { return Err(e); },
        };
        match read_u64(input, at6) {
            Err(e) => Err(e),
            Ok((grace_epoch, end)) => Ok(
                (
                    Proposal {
                        id,
                        content: canonicalize(&entries),
                        author,
                        proposal_type,
                        voting_start_epoch,
                        voting_end_epoch,
                        grace_epoch,
                    },
                    end,
                ),
            ),
        }
    }

    proof fn lemma_parse(s: Seq<u8>, pos: int) {
        if Self::spec_parse(s, pos) is Ok {
            lemma_u64(s, pos);
            let at1 = spec_u64(s, pos)->Ok_0.1;
            ProposalType::lemma_parse(s, at1);
            let at2 = ProposalType::spec_parse(s, at1)->Ok_0.1;
            Address::lemma_parse(s, at2);
            let at3 = Address::spec_parse(s, at2)->Ok_0.1;
            lemma_sequence::<Entry>(s, at3);
            let at4 = spec_sequence::<Entry>(s, at3)->Ok_0.1;
            lemma_u64(s, at4);
            let at5 = spec_u64(s, at4)->Ok_0.1;
            lemma_u64(s, at5);
            let at6 = spec_u64(s, at5)->Ok_0.1;
            lemma_u64(s, at6);
            assert forall|t: Seq<u8>|
                #![trigger Self::spec_parse(t, pos)]
                Self::spec_parse(s, pos) is Ok && is_prefix(t, s) implies Self::spec_parse(t, pos)
                == cut_short(Self::spec_parse(s, pos), t.len() as int) by {
                let _ = spec_u64(t, pos);
                let _ = ProposalType::spec_parse(t, at1);
                let _ = Address::spec_parse(t, at2);
                let _ = spec_sequence::<Entry>(t, at3);
                let _ = spec_u64(t, at4);
                let _ = spec_u64(t, at5);
                let _ = spec_u64(t, at6);
            }
        }
    }
}

} // verus!
