//! The binary format of the records: what each encoding means, and the
//! parsers that read it.

use crate::codec::{
    cut_short, is_prefix, lemma_bytes32, lemma_string, lemma_u32, parse_matches, read_bytes32,
    read_string, read_u32, read_u8, spec_bytes32, spec_string, spec_u32, spec_u8, DecodeError,
};
use crate::model::{
    views, AddRemove, Address, PGFAction, PGFActionModel, PaymentTarget, ProposalType,
    ProposalTypeModel,
};
use vstd::prelude::*;

verus! {

/// A value with an encoding in the binary format.
pub trait Record: Sized + View {
    /// The value encoded at `pos` and the position after it, or why there is
    /// none.
    spec fn spec_parse(s: Seq<u8>, pos: int) -> Result<(Self::V, int), DecodeError>;

    /// Reads the value encoded at `pos`.
    fn parse(input: &[u8], pos: usize) -> (r: Result<(Self, usize), DecodeError>)
        ensures
            parse_matches(r, Self::spec_parse(input@, pos as int)),
    ;

    /// An encoding ends within the buffer and after its start, and it is read
    /// the same from every buffer that holds it whole; a buffer that is cut
    /// before its end is too short.
    proof fn lemma_parse(s: Seq<u8>, pos: int)
        ensures
            Self::spec_parse(s, pos) matches Ok((_, next)) ==> 0 <= pos <= next <= s.len(),
            forall|t: Seq<u8>|
                #![trigger Self::spec_parse(t, pos)]
                Self::spec_parse(s, pos) is Ok && is_prefix(t, s) ==> Self::spec_parse(t, pos)
                    == cut_short(Self::spec_parse(s, pos), t.len() as int),
    ;
}

/// The first `n` values encoded from `pos` on, one after the other.
pub open spec fn spec_items<T: Record>(s: Seq<u8>, pos: int, n: nat) -> Result<
    (Seq<T::V>, int),
    DecodeError,
>
    decreases n,
{
    if n == 0 {
        if 0 <= pos <= s.len() { Ok((Seq::empty(), pos)) } else { Err(DecodeError::UnexpectedEnd) }
    } else {
        match T::spec_parse(s, pos) {
            Err(e) => Err(e),
            Ok((first, next)) => match spec_items::<T>(s, next, (n - 1) as nat) {
                Err(e) => Err(e),
                Ok((rest, end)) => Ok((seq![first] + rest, end)),
            },
        }
    }
}

/// A sequence: a count in four bytes, then that many values.
pub open spec fn spec_sequence<T: Record>(s: Seq<u8>, pos: int) -> Result<
    (Seq<T::V>, int),
    DecodeError,
> {
    match spec_u32(s, pos) {
        Err(e) => Err(e),
        Ok((n, next)) => spec_items::<T>(s, next, n as nat),
    }
}

/// Reads a sequence at `pos`.
pub fn parse_sequence<T: Record>(input: &[u8], pos: usize) -> (r: Result<
    (Vec<T>, usize),
    DecodeError,
>)
    ensures
        match spec_sequence::<T>(input@, pos as int) {
            Ok((values, next)) => r is Ok && views(r->Ok_0.0@) == values && r->Ok_0.0@.len()
                == values.len() && r->Ok_0.1 == next,
            Err(e) => r is Err && r->Err_0 == e,
        },
{
    let (n, start) = match read_u32(input, pos) {
        Ok(x) => x,
        Err(e) => { return Err(e); },
    };
    let mut items: Vec<T> = Vec::new();
    let mut cur: usize = start;
    let mut i: u32 = 0;
    while i < n
        invariant
            i <= n,
            cur <= input@.len(),
            spec_u32(input@, pos as int) == Ok::<(u32, int), DecodeError>((n, start as int)),
            spec_items::<T>(input@, start as int, n as nat) == match spec_items::<T>(
                input@,
                cur as int,
                (n - i) as nat,
            ) {
                Ok((rest, end)) => Ok::<(Seq<T::V>, int), DecodeError>((views(items@) + rest, end)),
                Err(e) => Err(e),
            },
        decreases n - i,
    {
        proof {
            T::lemma_parse(input@, cur as int);
        }
        match T::parse(input, cur) {
            Err(e) => { return Err(e); },
            Ok((item, next)) => {
                proof {
                    let rest_r = spec_items::<T>(input@, next as int, (n - i - 1) as nat);
                    if rest_r is Ok {
                        let rest = rest_r->Ok_0.0;
                        assert(views(items@.push(item)) + rest == views(items@) + (seq![item@]
                            + rest));
                    }
                }
                items.push(item);
                cur = next;
                i = i + 1;
            },
        }
    }
    assert(views(items@) + Seq::<T::V>::empty() == views(items@));
    Ok((items, cur))
}

impl<T: Record> Record for AddRemove<T> {
    /// A discriminant in one byte, 0 for an addition and 1 for a removal,
    /// then the value.
    open spec fn spec_parse(s: Seq<u8>, pos: int) -> Result<(AddRemove<T::V>, int), DecodeError> {
        match spec_u8(s, pos) {
            Err(e) => Err(e),
            Ok((tag, next)) => if tag == 0 {
                match T::spec_parse(s, next) {
                    Err(e) => Err(e),
                    Ok((value, end)) => Ok((AddRemove::Add(value), end)),
                }
            } else if tag == 1 {
                match T::spec_parse(s, next) {
                    Err(e) => Err(e),
                    Ok((value, end)) => Ok((AddRemove::Remove(value), end)),
                }
            } else {
                Err(DecodeError::InvalidTag)
            },
        }
    }

    fn parse(input: &[u8], pos: usize) -> (r: Result<(Self, usize), DecodeError>) {
        let (tag, next) = match read_u8(input, pos) {
            Ok(x) => x,
            Err(e) => { return Err(e); },
        };
        if tag == 0 {
            match T::parse(input, next) {
                Err(e) => Err(e),
                Ok((value, end)) => Ok((AddRemove::Add(value), end)),
            }
        } else if tag == 1 {
            match T::parse(input, next) {
                Err(e) => Err(e),
                Ok((value, end)) => Ok((AddRemove::Remove(value), end)),
            }
        } else {
            Err(DecodeError::InvalidTag)
        }
    }

    proof fn lemma_parse(s: Seq<u8>, pos: int) {
        if 0 <= pos && pos + 1 <= s.len() {
            T::lemma_parse(s, pos + 1);
            assert forall|t: Seq<u8>|
                #![trigger Self::spec_parse(t, pos)]
                Self::spec_parse(s, pos) is Ok && is_prefix(t, s) implies Self::spec_parse(t, pos)
                == cut_short(Self::spec_parse(s, pos), t.len() as int) by {
                if pos + 1 <= t.len() {
                    assert(t[pos] == s[pos]);
                    let _ = T::spec_parse(t, pos + 1);
                }
            }
        }
    }
}

/// The items of a sequence are read alike from a buffer and from a beginning
/// of it that still holds them.
pub proof fn lemma_items<T: Record>(s: Seq<u8>, pos: int, n: nat)
    ensures
        spec_items::<T>(s, pos, n) matches Ok((_, next)) ==> 0 <= pos <= next <= s.len(),
        forall|t: Seq<u8>|
            #![trigger spec_items::<T>(t, pos, n)]
            spec_items::<T>(s, pos, n) is Ok && is_prefix(t, s) ==> spec_items::<T>(t, pos, n)
                == cut_short(spec_items::<T>(s, pos, n), t.len() as int),
    decreases n,
{
    if n > 0 && T::spec_parse(s, pos) is Ok {
        T::lemma_parse(s, pos);
        let next = T::spec_parse(s, pos)->Ok_0.1;
        lemma_items::<T>(s, next, (n - 1) as nat);
        assert forall|t: Seq<u8>|
            #![trigger spec_items::<T>(t, pos, n)]
            spec_items::<T>(s, pos, n) is Ok && is_prefix(t, s) implies spec_items::<T>(t, pos, n)
            == cut_short(spec_items::<T>(s, pos, n), t.len() as int) by {
            let _ = T::spec_parse(t, pos);
            let _ = spec_items::<T>(t, next, (n - 1) as nat);
        }
    }
}

/// A sequence is read alike from a buffer and from a beginning of it that
/// still holds the sequence.
pub proof fn lemma_sequence<T: Record>(s: Seq<u8>, pos: int)
    ensures
        spec_sequence::<T>(s, pos) matches Ok((_, next)) ==> 0 <= pos <= next <= s.len(),
        forall|t: Seq<u8>|
            #![trigger spec_sequence::<T>(t, pos)]
            spec_sequence::<T>(s, pos) is Ok && is_prefix(t, s) ==> spec_sequence::<T>(t, pos)
                == cut_short(spec_sequence::<T>(s, pos), t.len() as int),
{
    lemma_u32(s, pos);
    if spec_u32(s, pos) is Ok {
        let n = spec_u32(s, pos)->Ok_0.0;
        lemma_items::<T>(s, pos + 4, n as nat);
        assert forall|t: Seq<u8>|
            #![trigger spec_sequence::<T>(t, pos)]
            spec_sequence::<T>(s, pos) is Ok && is_prefix(t, s) implies spec_sequence::<T>(t, pos)
            == cut_short(spec_sequence::<T>(s, pos), t.len() as int) by {
            let _ = spec_u32(t, pos);
            let _ = spec_items::<T>(t, pos + 4, n as nat);
        }
    }
}

/// An optional value: a presence flag in one byte, 0 or 1, then the value if
/// the flag is 1.
pub open spec fn spec_optional<T: Record>(s: Seq<u8>, pos: int) -> Result<
    (Option<T::V>, int),
    DecodeError,
> {
    match spec_u8(s, pos) {
        Err(e) => Err(e),
        Ok((flag, next)) => if flag == 0 {
            Ok((None, next))
        } else if flag == 1 {
            match T::spec_parse(s, next) {
                Err(e) => Err(e),
                Ok((value, end)) => Ok((Some(value), end)),
            }
        } else {
            Err(DecodeError::InvalidTag)
        },
    }
}

/// The value of an optional value.
pub open spec fn optional_view<T: View>(value: Option<T>) -> Option<T::V> {
    match value {
        None => None,
        Some(v) => Some(v@),
    }
}

/// Reads an optional value at `pos`.
pub fn parse_optional<T: Record>(input: &[u8], pos: usize) -> (r: Result<
    (Option<T>, usize),
    DecodeError,
>)
    ensures
        match spec_optional::<T>(input@, pos as int) {
            Ok((value, next)) => r is Ok && optional_view(r->Ok_0.0) == value && r->Ok_0.1
                == next,
            Err(e) => r is Err && r->Err_0 == e,
        },
{
    let (flag, next) = match read_u8(input, pos) {
        Ok(x) => x,
        Err(e) => { return Err(e); },
    };
    if flag == 0 {
        Ok((None, next))
    } else if flag == 1 {
        match T::parse(input, next) {
            Err(e) => Err(e),
            Ok((value, end)) => Ok((Some(value), end)),
        }
    } else {
        Err(DecodeError::InvalidTag)
    }
}

/// An optional value is read alike from a buffer and from a beginning of it
/// that still holds the value.
pub proof fn lemma_optional<T: Record>(s: Seq<u8>, pos: int)
    ensures
        spec_optional::<T>(s, pos) matches Ok((_, next)) ==> 0 <= pos <= next <= s.len(),
        forall|t: Seq<u8>|
            #![trigger spec_optional::<T>(t, pos)]
            spec_optional::<T>(s, pos) is Ok && is_prefix(t, s) ==> spec_optional::<T>(t, pos)
                == cut_short(spec_optional::<T>(s, pos), t.len() as int),
{
    if 0 <= pos && pos + 1 <= s.len() {
        T::lemma_parse(s, pos + 1);
        assert forall|t: Seq<u8>|
            #![trigger spec_optional::<T>(t, pos)]
            spec_optional::<T>(s, pos) is Ok && is_prefix(t, s) implies spec_optional::<T>(t, pos)
            == cut_short(spec_optional::<T>(s, pos), t.len() as int) by {
            if pos + 1 <= t.len() {
                assert(t[pos] == s[pos]);
                let _ = T::spec_parse(t, pos + 1);
            }
        }
    }
}

impl Record for Address {
    /// An address is a string: its canonical text.
    open spec fn spec_parse(s: Seq<u8>, pos: int) -> Result<(Seq<char>, int), DecodeError> {
        spec_string(s, pos)
    }

    fn parse(input: &[u8], pos: usize) -> (r: Result<(Self, usize), DecodeError>) {
        match read_string(input, pos) {
            Err(e) => Err(e),
            Ok((text, next)) => Ok((Address { text }, next)),
        }
    }

    proof fn lemma_parse(s: Seq<u8>, pos: int) {
        lemma_string(s, pos);
    }
}

impl Record for crate::model::Hash {
    /// A digest is its thirty-two bytes.
    open spec fn spec_parse(s: Seq<u8>, pos: int) -> Result<(Seq<u8>, int), DecodeError> {
        spec_bytes32(s, pos)
    }

    fn parse(input: &[u8], pos: usize) -> (r: Result<(Self, usize), DecodeError>) {
        match read_bytes32(input, pos) {
            Err(e) => Err(e),
            Ok((bytes, next)) => Ok((crate::model::Hash { bytes }, next)),
        }
    }

    proof fn lemma_parse(s: Seq<u8>, pos: int) {
        lemma_bytes32(s, pos);
    }
}

impl Record for PaymentTarget {
    /// A payment target is the address that it names.
    open spec fn spec_parse(s: Seq<u8>, pos: int) -> Result<(Seq<char>, int), DecodeError> {
        Address::spec_parse(s, pos)
    }

    fn parse(input: &[u8], pos: usize) -> (r: Result<(Self, usize), DecodeError>) {
        match Address::parse(input, pos) {
            Err(e) => Err(e),
            Ok((target, next)) => Ok((PaymentTarget { target }, next)),
        }
    }

    proof fn lemma_parse(s: Seq<u8>, pos: int) {
        Address::lemma_parse(s, pos);
    }
}

impl Record for PGFAction {
    /// A discriminant in one byte: 0 for a continuous payment, added or
    /// removed; 1 for a retroactive one.
    open spec fn spec_parse(s: Seq<u8>, pos: int) -> Result<(PGFActionModel, int), DecodeError> {
        match spec_u8(s, pos) {
            Err(e) => Err(e),
            Ok((tag, next)) => if tag == 0 {
                match AddRemove::<PaymentTarget>::spec_parse(s, next) {
                    Err(e) => Err(e),
                    Ok((change, end)) => Ok((PGFActionModel::Continuous(change), end)),
                }
            } else if tag == 1 {
                match PaymentTarget::spec_parse(s, next) {
                    Err(e) => Err(e),
                    Ok((target, end)) => Ok((PGFActionModel::Retro(target), end)),
                }
            } else {
                Err(DecodeError::InvalidTag)
            },
        }
    }

    fn parse(input: &[u8], pos: usize) -> (r: Result<(Self, usize), DecodeError>) {
        let (tag, next) = match read_u8(input, pos) {
            Ok(x) => x,
            Err(e) => { return Err(e); },
        };
        if tag == 0 {
            match AddRemove::<PaymentTarget>::parse(input, next) {
                Err(e) => Err(e),
                Ok((change, end)) => Ok((PGFAction::Continuous(change), end)),
            }
        } else if tag == 1 {
            match PaymentTarget::parse(input, next) {
                Err(e) => Err(e),
                Ok((target, end)) => Ok((PGFAction::Retro(target), end)),
            }
        } else {
            Err(DecodeError::InvalidTag)
        }
    }

    proof fn lemma_parse(s: Seq<u8>, pos: int) {
        if 0 <= pos && pos + 1 <= s.len() {
            AddRemove::<PaymentTarget>::lemma_parse(s, pos + 1);
            PaymentTarget::lemma_parse(s, pos + 1);
            assert forall|t: Seq<u8>|
                #![trigger Self::spec_parse(t, pos)]
                Self::spec_parse(s, pos) is Ok && is_prefix(t, s) implies Self::spec_parse(t, pos)
                == cut_short(Self::spec_parse(s, pos), t.len() as int) by {
                if pos + 1 <= t.len() {
                    assert(t[pos] == s[pos]);
                    let _ = AddRemove::<PaymentTarget>::spec_parse(t, pos + 1);
                    let _ = PaymentTarget::spec_parse(t, pos + 1);
                }
            }
        }
    }
}

impl Record for ProposalType {
    /// A discriminant in one byte: 0 for a default proposal with an optional
    /// digest, 1 for a sequence of steward changes, 2 for a sequence of
    /// payment changes.
    open spec fn spec_parse(s: Seq<u8>, pos: int) -> Result<(ProposalTypeModel, int), DecodeError> {
        match spec_u8(s, pos) {
            Err(e) => Err(e),
            Ok((tag, next)) => if tag == 0 {
                match spec_optional::<crate::model::Hash>(s, next) {
                    Err(e) => Err(e),
                    Ok((hash, end)) => Ok((ProposalTypeModel::Default(hash), end)),
                }
            } else if tag == 1 {
                match spec_sequence::<AddRemove<Address>>(s, next) {
                    Err(e) => Err(e),
                    Ok((list, end)) => Ok((ProposalTypeModel::PGFSteward(list), end)),
                }
            } else if tag == 2 {
                match spec_sequence::<PGFAction>(s, next) {
                    Err(e) => Err(e),
                    Ok((list, end)) => Ok((ProposalTypeModel::PGFPayment(list), end)),
                }
            } else {
                Err(DecodeError::InvalidTag)
            },
        }
    }

    fn parse(input: &[u8], pos: usize) -> (r: Result<(Self, usize), DecodeError>) {
        let (tag, next) = match read_u8(input, pos) {
            Ok(x) => x,
            Err(e) => { return Err(e); },
        };
        if tag == 0 {
            match parse_optional::<crate::model::Hash>(input, next) {
                Err(e) => Err(e),
                Ok((hash, end)) => Ok((ProposalType::Default(hash), end)),
            }
        } else if tag == 1 {
            match parse_sequence::<AddRemove<Address>>(input, next) {
                Err(e) => Err(e),
                Ok((list, end)) => Ok((ProposalType::PGFSteward(list), end)),
            }
        } else if tag == 2 {
            match parse_sequence::<PGFAction>(input, next) {
                Err(e) => Err(e),
                Ok((list, end)) => Ok((ProposalType::PGFPayment(list), end)),
            }
        } else {
            Err(DecodeError::InvalidTag)
        }
    }

    proof fn lemma_parse(s: Seq<u8>, pos: int) {
        if 0 <= pos && pos + 1 <= s.len() {
            lemma_optional::<crate::model::Hash>(s, pos + 1);
            lemma_sequence::<AddRemove<Address>>(s, pos + 1);
            lemma_sequence::<PGFAction>(s, pos + 1);
            assert forall|t: Seq<u8>|
                #![trigger Self::spec_parse(t, pos)]
                Self::spec_parse(s, pos) is Ok && is_prefix(t, s) implies Self::spec_parse(t, pos)
                == cut_short(Self::spec_parse(s, pos), t.len() as int) by {
                if pos + 1 <= t.len() {
                    assert(t[pos] == s[pos]);
                    let _ = spec_optional::<crate::model::Hash>(t, pos + 1);
                    let _ = spec_sequence::<AddRemove<Address>>(t, pos + 1);
                    let _ = spec_sequence::<PGFAction>(t, pos + 1);
                }
            }
        }
    }
}

} // verus!
