//! The encodings of votes, tally results and commission pairs.

use crate::codec::{
    cut_short, is_prefix, le_value, lemma_le_value_bound, lemma_le_value_split, lemma_string,
    lemma_u64, lemma_u8, pow256, read_string, read_u64, read_u8, spec_string, spec_u64, spec_u8,
    DecodeError,
};
use crate::wire::Record;
use crate::model::{
    Address, Amount, CommissionPair, CommissionPairModel, Entry, Dec,
    ProposalResult, ProposalResultModel, ProposalVote, TallyResult, TallyType, Vote, VoteModel,
};
use vstd::prelude::*;

verus! {

impl Record for Entry {
    /// Two strings: the key, then the text under it.
    open spec fn spec_parse(s: Seq<u8>, pos: int) -> Result<
        ((Seq<char>, Seq<char>), int),
        DecodeError,
    > {
        match spec_string(s, pos) {
            Err(e) => Err(e),
            Ok((key, next)) => match spec_string(s, next) {
                Err(e) => Err(e),
                Ok((value, end)) => Ok(((key, value), end)),
            },
        }
    }

    fn parse(input: &[u8], pos: usize) -> (r: Result<(Self, usize), DecodeError>) {
        let (key, next) = match read_string(input, pos) {
            Ok(x) => x,
            Err(e) => { return Err(e); },
        };
        match read_string(input, next) {
            Err(e) => Err(e),
            Ok((value, end)) => Ok((Entry { key, value }, end)),
        }
    }

    proof fn lemma_parse(s: Seq<u8>, pos: int) {
        lemma_string(s, pos);
        if spec_string(s, pos) is Ok {
            let next = spec_string(s, pos)->Ok_0.1;
            lemma_string(s, next);
            assert forall|t: Seq<u8>|
                #![trigger Self::spec_parse(t, pos)]
                Self::spec_parse(s, pos) is Ok && is_prefix(t, s) implies Self::spec_parse(t, pos)
                == cut_short(Self::spec_parse(s, pos), t.len() as int) by {
                let _ = spec_string(t, pos);
                let _ = spec_string(t, next);
            }
        }
    }
}

impl Record for ProposalVote {
    /// A discriminant in one byte: 0 for yay, 1 for nay, 2 for abstain.
    open spec fn spec_parse(s: Seq<u8>, pos: int) -> Result<(ProposalVote, int), DecodeError> {
        match spec_u8(s, pos) {
            Err(e) => Err(e),
            Ok((tag, next)) => if tag == 0 {
                Ok((ProposalVote::Yay, next))
            } else if tag == 1 {
                Ok((ProposalVote::Nay, next))
            } else if tag == 2 {
                Ok((ProposalVote::Abstain, next))
            } else {
                Err(DecodeError::InvalidTag)
            },
        }
    }

    fn parse(input: &[u8], pos: usize) -> (r: Result<(Self, usize), DecodeError>) {
        let (tag, next) = match read_u8(input, pos) {
            Ok(x) => x,
            Err(e) => { return Err(e); },
        };
        if tag == 0 {
            Ok((ProposalVote::Yay, next))
        } else if tag == 1 {
            Ok((ProposalVote::Nay, next))
        } else if tag == 2 {
            Ok((ProposalVote::Abstain, next))
        } else {
            Err(DecodeError::InvalidTag)
        }
    }

    proof fn lemma_parse(s: Seq<u8>, pos: int) {
        lemma_u8(s, pos);
        assert forall|t: Seq<u8>|
            #![trigger Self::spec_parse(t, pos)]
            Self::spec_parse(s, pos) is Ok && is_prefix(t, s) implies Self::spec_parse(t, pos)
            == cut_short(Self::spec_parse(s, pos), t.len() as int) by {
            let _ = spec_u8(t, pos);
        }
    }
}

impl Record for Vote {
    /// The validator's address, the delegator's address, then the choice.
    open spec fn spec_parse(s: Seq<u8>, pos: int) -> Result<(VoteModel, int), DecodeError> {
        match Address::spec_parse(s, pos) {
            Err(e) => Err(e),
            Ok((validator, at1)) => match Address::spec_parse(s, at1) {
                Err(e) => Err(e),
                Ok((delegator, at2)) => match ProposalVote::spec_parse(s, at2) {
                    Err(e) => Err(e),
                    Ok((data, end)) => Ok((VoteModel { validator, delegator, data }, end)),
                },
            },
        }
    }

    fn parse(input: &[u8], pos: usize) -> (r: Result<(Self, usize), DecodeError>) {
        let (validator, at1) = match Address::parse(input, pos) {
            Ok(x) => x,
            Err(e) => { return Err(e); },
        };
        let (delegator, at2) = match Address::parse(input, at1) {
            Ok(x) => x,
            Err(e) => { return Err(e); },
        };
        match ProposalVote::parse(input, at2) {
            Err(e) => Err(e),
            Ok((data, end)) => Ok((Vote { validator, delegator, data }, end)),
        }
    }

    proof fn lemma_parse(s: Seq<u8>, pos: int) {
        Address::lemma_parse(s, pos);
        if Address::spec_parse(s, pos) is Ok {
            let at1 = Address::spec_parse(s, pos)->Ok_0.1;
            Address::lemma_parse(s, at1);
            if Address::spec_parse(s, at1) is Ok {
                let at2 = Address::spec_parse(s, at1)->Ok_0.1;
                ProposalVote::lemma_parse(s, at2);
                assert forall|t: Seq<u8>|
                    #![trigger Self::spec_parse(t, pos)]
                    Self::spec_parse(s, pos) is Ok && is_prefix(t, s) implies Self::spec_parse(
                    t,
                    pos,
                ) == cut_short(Self::spec_parse(s, pos), t.len() as int) by {
                    let _ = Address::spec_parse(t, pos);
                    let _ = Address::spec_parse(t, at1);
                    let _ = ProposalVote::spec_parse(t, at2);
                }
            }
        }
    }
}

impl View for TallyResult {
    type V = TallyResult;

    open spec fn view(&self) -> TallyResult {
        *self
    }
}

impl Record for TallyResult {
    /// A discriminant in one byte: 0 for passed, 1 for rejected.
    open spec fn spec_parse(s: Seq<u8>, pos: int) -> Result<(TallyResult, int), DecodeError> {
        match spec_u8(s, pos) {
            Err(e) => Err(e),
            Ok((tag, next)) => if tag == 0 {
                Ok((TallyResult::Passed, next))
            } else if tag == 1 {
                Ok((TallyResult::Rejected, next))
            } else {
                Err(DecodeError::InvalidTag)
            },
        }
    }

    fn parse(input: &[u8], pos: usize) -> (r: Result<(Self, usize), DecodeError>) {
        let (tag, next) = match read_u8(input, pos) {
            Ok(x) => x,
            Err(e) => { return Err(e); },
        };
        if tag == 0 {
            Ok((TallyResult::Passed, next))
        } else if tag == 1 {
            Ok((TallyResult::Rejected, next))
        } else {
            Err(DecodeError::InvalidTag)
        }
    }

    proof fn lemma_parse(s: Seq<u8>, pos: int) {
        lemma_u8(s, pos);
        assert forall|t: Seq<u8>|
            #![trigger Self::spec_parse(t, pos)]
            Self::spec_parse(s, pos) is Ok && is_prefix(t, s) implies Self::spec_parse(t, pos)
            == cut_short(Self::spec_parse(s, pos), t.len() as int) by {
            let _ = spec_u8(t, pos);
        }
    }
}

impl View for TallyType {
    type V = TallyType;

    open spec fn view(&self) -> TallyType {
        *self
    }
}

impl Record for TallyType {
    /// A discriminant in one byte: 0 for two thirds, 1 for one half over one
    /// third, 2 for less than one half over one third nay.
    open spec fn spec_parse(s: Seq<u8>, pos: int) -> Result<(TallyType, int), DecodeError> {
        match spec_u8(s, pos) {
            Err(e) => Err(e),
            Ok((tag, next)) => if tag == 0 {
                Ok((TallyType::TwoThirds, next))
            } else if tag == 1 {
                Ok((TallyType::OneHalfOverOneThird, next))
            } else if tag == 2 {
                Ok((TallyType::LessOneHalfOverOneThirdNay, next))
            } else {
                Err(DecodeError::InvalidTag)
            },
        }
    }

    fn parse(input: &[u8], pos: usize) -> (r: Result<(Self, usize), DecodeError>) {
        let (tag, next) = match read_u8(input, pos) {
            Ok(x) => x,
            Err(e) => { return Err(e); },
        };
        if tag == 0 {
            Ok((TallyType::TwoThirds, next))
        } else if tag == 1 {
            Ok((TallyType::OneHalfOverOneThird, next))
        } else if tag == 2 {
            Ok((TallyType::LessOneHalfOverOneThirdNay, next))
        } else {
            Err(DecodeError::InvalidTag)
        }
    }

    proof fn lemma_parse(s: Seq<u8>, pos: int) {
        lemma_u8(s, pos);
        assert forall|t: Seq<u8>|
            #![trigger Self::spec_parse(t, pos)]
            Self::spec_parse(s, pos) is Ok && is_prefix(t, s) implies Self::spec_parse(t, pos)
            == cut_short(Self::spec_parse(s, pos), t.len() as int) by {
            let _ = spec_u8(t, pos);
        }
    }
}

/// Four words of 64 bits at `pos`, each little-endian, the least significant
/// word first.
#[verifier::opaque]
pub open spec fn spec_words(s: Seq<u8>, pos: int) -> Result<(Amount, int), DecodeError> {
    match spec_u64(s, pos) {
        Err(e) => Err(e),
        Ok((w0, at1)) => match spec_u64(s, at1) {
            Err(e) => Err(e),
            Ok((w1, at2)) => match spec_u64(s, at2) {
                Err(e) => Err(e),
                Ok((w2, at3)) => match spec_u64(s, at3) {
                    Err(e) => Err(e),
                    Ok((w3, end)) => Ok((Amount { w0, w1, w2, w3 }, end)),
                },
            },
        }
    }
}

/// Reads four words of 64 bits at `pos`.
pub fn read_words(input: &[u8], pos: usize) -> (r: Result<(Amount, usize), DecodeError>)
    ensures
        match spec_words(input@, pos as int) {
            Ok((value, next)) => r is Ok && r->Ok_0.0 == value && r->Ok_0.1 == next,
            Err(e) => r is Err && r->Err_0 == e,
        },
{
    reveal(spec_words);
    let (w0, at1) = match read_u64(input, pos) {
        Ok(x) => x,
        Err(e) => { return Err(e); },
    };
    let (w1, at2) = match read_u64(input, at1) {
        Ok(x) => x,
        Err(e) => { return Err(e); },
    };
    let (w2, at3) = match read_u64(input, at2) {
        Ok(x) => x,
        Err(e) => { return Err(e); },
    };
    match read_u64(input, at3) {
        Err(e) => Err(e),
        Ok((w3, end)) => Ok((Amount { w0, w1, w2, w3 }, end)),
    }
}

/// Four words are read alike from a buffer and from a beginning of it that
/// still holds them.
pub proof fn lemma_words(s: Seq<u8>, pos: int)
    ensures
        spec_words(s, pos) matches Ok((_, next)) ==> 0 <= pos <= next <= s.len(),
        forall|t: Seq<u8>|
            #![trigger spec_words(t, pos)]
            spec_words(s, pos) is Ok && is_prefix(t, s) ==> spec_words(t, pos) == cut_short(
                spec_words(s, pos),
                t.len() as int,
            ),
{
    reveal(spec_words);
    lemma_u64(s, pos);
    lemma_u64(s, pos + 8);
    lemma_u64(s, pos + 16);
    lemma_u64(s, pos + 24);
    assert forall|t: Seq<u8>|
        #![trigger spec_words(t, pos)]
        spec_words(s, pos) is Ok && is_prefix(t, s) implies spec_words(t, pos) == cut_short(
        spec_words(s, pos),
        t.len() as int,
    ) by {
        let _ = spec_u64(t, pos);
        let _ = spec_u64(t, pos + 8);
        let _ = spec_u64(t, pos + 16);
        let _ = spec_u64(t, pos + 24);
    }
}

/// The four words make the number that their thirty-two bytes encode in
/// little-endian order.
pub proof fn lemma_words_little_endian(s: Seq<u8>, pos: int)
    ensures
        spec_words(s, pos) matches Ok((words, next)) ==> next == pos + 32 && words@ == le_value(
            s.subrange(pos, pos + 32),
        ),
{
    reveal(spec_words);
    if spec_words(s, pos) is Ok {
        let all = s.subrange(pos, pos + 32);
        let b0 = s.subrange(pos, pos + 8);
        let b1 = s.subrange(pos + 8, pos + 16);
        let b2 = s.subrange(pos + 16, pos + 24);
        let b3 = s.subrange(pos + 24, pos + 32);
        let r1 = all.skip(8);
        let r2 = r1.skip(8);
        assert(all.take(8) == b0);
        assert(r1.take(8) == b1);
        assert(r2.take(8) == b2);
        assert(r2.skip(8) == b3);
        lemma_le_value_split(all, 8);
        lemma_le_value_split(r1, 8);
        lemma_le_value_split(r2, 8);
        lemma_le_value_bound(b0);
        lemma_le_value_bound(b1);
        lemma_le_value_bound(b2);
        lemma_le_value_bound(b3);
        assert(pow256(8) == 0x1_0000_0000_0000_0000) by {
            reveal_with_fuel(pow256, 9);
        }
        let v0 = le_value(b0);
        let v1 = le_value(b1);
        let v2 = le_value(b2);
        let v3 = le_value(b3);
        assert(le_value(r2) == v2 + 0x1_0000_0000_0000_0000 * v3);
        assert(le_value(r1) == v1 + 0x1_0000_0000_0000_0000 * le_value(r2));
        assert(le_value(all) == v0 + 0x1_0000_0000_0000_0000 * le_value(r1));
        let words = spec_words(s, pos)->Ok_0.0;
        assert(words.w0 == v0 && words.w1 == v1 && words.w2 == v2 && words.w3 == v3);
    }
}

/// What `spec_words` gives, with the number in place of the words.
pub open spec fn spec_number(s: Seq<u8>, pos: int) -> Result<(nat, int), DecodeError> {
    match spec_words(s, pos) {
        Err(e) => Err(e),
        Ok((words, next)) => Ok((words@, next)),
    }
}

impl Record for Amount {
    /// An unsigned number of 256 bits, little-endian.
    open spec fn spec_parse(s: Seq<u8>, pos: int) -> Result<(nat, int), DecodeError> {
        spec_number(s, pos)
    }

    fn parse(input: &[u8], pos: usize) -> (r: Result<(Self, usize), DecodeError>) {
        read_words(input, pos)
    }

    proof fn lemma_parse(s: Seq<u8>, pos: int) {
        lemma_words(s, pos);
        assert forall|t: Seq<u8>|
            #![trigger Self::spec_parse(t, pos)]
            Self::spec_parse(s, pos) is Ok && is_prefix(t, s) implies Self::spec_parse(t, pos)
            == cut_short(Self::spec_parse(s, pos), t.len() as int) by {
            let _ = spec_words(t, pos);
        }
    }
}

impl Record for Dec {
    /// A signed number of 256 bits in two's complement, little-endian.
    open spec fn spec_parse(s: Seq<u8>, pos: int) -> Result<(int, int), DecodeError> {
        match spec_words(s, pos) {
            Err(e) => Err(e),
            Ok((raw, next)) => Ok((Dec { raw }@, next)),
        }
    }

    fn parse(input: &[u8], pos: usize) -> (r: Result<(Self, usize), DecodeError>) {
        match read_words(input, pos) {
            Err(e) => Err(e),
            Ok((raw, next)) => Ok((Dec { raw }, next)),
        }
    }

    proof fn lemma_parse(s: Seq<u8>, pos: int) {
        lemma_words(s, pos);
        assert forall|t: Seq<u8>|
            #![trigger Self::spec_parse(t, pos)]
            Self::spec_parse(s, pos) is Ok && is_prefix(t, s) implies Self::spec_parse(t, pos)
            == cut_short(Self::spec_parse(s, pos), t.len() as int) by {
            let _ = spec_words(t, pos);
        }
    }
}

impl Record for ProposalResult {
    /// The result, the tally type, then the total voting power and the power
    /// behind yay, nay and abstain.
    open spec fn spec_parse(s: Seq<u8>, pos: int) -> Result<
        (ProposalResultModel, int),
        DecodeError,
    > {
        match TallyResult::spec_parse(s, pos) {
            Err(e) => Err(e),
            Ok((result, at1)) => match TallyType::spec_parse(s, at1) {
                Err(e) => Err(e),
                Ok((tally_type, at2)) => match Amount::spec_parse(s, at2) {
                    Err(e) => Err(e),
                    Ok((total_voting_power, at3)) => match Amount::spec_parse(s, at3) {
                        Err(e) => Err(e),
                        Ok((total_yay_power, at4)) => match Amount::spec_parse(s, at4) {
                            Err(e) => Err(e),
                            Ok((total_nay_power, at5)) => match Amount::spec_parse(s, at5) {
                                Err(e) => Err(e),
                                Ok((total_abstain_power, end)) => Ok(
                                    (
                                        ProposalResultModel {
                                            result,
                                            tally_type,
                                            total_voting_power,
                                            total_yay_power,
                                            total_nay_power,
                                            total_abstain_power,
                                        },
                                        end,
                                    ),
                                ),
                            },
                        },
                    },
                },
            },
        }
    }

    fn parse(input: &[u8], pos: usize) -> (r: Result<(Self, usize), DecodeError>) {
        let (result, at1) = match TallyResult::parse(input, pos) {
            Ok(x) => x,
            Err(e) => { return Err(e); },
        };
        let (tally_type, at2) = match TallyType::parse(input, at1) {
            Ok(x) => x,
            Err(e) => { return Err(e); },
        };
        let (total_voting_power, at3) = match Amount::parse(input, at2) {
            Ok(x) => x,
            Err(e) => { return Err(e); },
        };
        let (total_yay_power, at4) = match Amount::parse(input, at3) {
            Ok(x) => x,
            Err(e) => { return Err(e); },
        };
        let (total_nay_power, at5) = match Amount::parse(input, at4) {
            Ok(x) => x,
            Err(e) => { return Err(e); },
        };
        match Amount::parse(input, at5) {
            Err(e) => Err(e),
            Ok((total_abstain_power, end)) => Ok(
                (
                    ProposalResult {
                        result,
                        tally_type,
                        total_voting_power,
                        total_yay_power,
                        total_nay_power,
                        total_abstain_power,
                    },
                    end,
                ),
            ),
        }
    }

    proof fn lemma_parse(s: Seq<u8>, pos: int) {
        if Self::spec_parse(s, pos) is Ok {
            TallyResult::lemma_parse(s, pos);
            let at1 = TallyResult::spec_parse(s, pos)->Ok_0.1;
            TallyType::lemma_parse(s, at1);
            let at2 = TallyType::spec_parse(s, at1)->Ok_0.1;
            Amount::lemma_parse(s, at2);
            let at3 = Amount::spec_parse(s, at2)->Ok_0.1;
            Amount::lemma_parse(s, at3);
            let at4 = Amount::spec_parse(s, at3)->Ok_0.1;
            Amount::lemma_parse(s, at4);
            let at5 = Amount::spec_parse(s, at4)->Ok_0.1;
            Amount::lemma_parse(s, at5);
            assert forall|t: Seq<u8>|
                #![trigger Self::spec_parse(t, pos)]
                Self::spec_parse(s, pos) is Ok && is_prefix(t, s) implies Self::spec_parse(t, pos)
                == cut_short(Self::spec_parse(s, pos), t.len() as int) by {
                let _ = TallyResult::spec_parse(t, pos);
                let _ = TallyType::spec_parse(t, at1);
                let _ = Amount::spec_parse(t, at2);
                let _ = Amount::spec_parse(t, at3);
                let _ = Amount::spec_parse(t, at4);
                let _ = Amount::spec_parse(t, at5);
            }
        }
    }
}

impl Record for CommissionPair {
    /// The commission rate, then the most it may change in one epoch.
    open spec fn spec_parse(s: Seq<u8>, pos: int) -> Result<
        (CommissionPairModel, int),
        DecodeError,
    > {
        match Dec::spec_parse(s, pos) {
            Err(e) => Err(e),
            Ok((commission_rate, next)) => match Dec::spec_parse(s, next) {
                Err(e) => Err(e),
                Ok((max_commission_change_per_epoch, end)) => Ok(
                    (CommissionPairModel { commission_rate, max_commission_change_per_epoch }, end),
                ),
            },
        }
    }

    fn parse(input: &[u8], pos: usize) -> (r: Result<(Self, usize), DecodeError>) {
        let (commission_rate, next) = match Dec::parse(input, pos) {
            Ok(x) => x,
            Err(e) => { return Err(e); },
        };
        match Dec::parse(input, next) {
            Err(e) => Err(e),
            Ok((max_commission_change_per_epoch, end)) => Ok(
                (CommissionPair { commission_rate, max_commission_change_per_epoch }, end),
            ),
        }
    }

    proof fn lemma_parse(s: Seq<u8>, pos: int) {
        Dec::lemma_parse(s, pos);
        if Dec::spec_parse(s, pos) is Ok {
            let next = Dec::spec_parse(s, pos)->Ok_0.1;
            Dec::lemma_parse(s, next);
            assert forall|t: Seq<u8>|
                #![trigger Self::spec_parse(t, pos)]
                Self::spec_parse(s, pos) is Ok && is_prefix(t, s) implies Self::spec_parse(t, pos)
                == cut_short(Self::spec_parse(s, pos), t.len() as int) by {
                assert(Dec::spec_parse(t, pos) == cut_short(
                    Dec::spec_parse(s, pos),
                    t.len() as int,
                ));
                assert(Dec::spec_parse(t, next) == cut_short(
                    Dec::spec_parse(s, next),
                    t.len() as int,
                ));
            }
        }
    }
}

} // verus!
