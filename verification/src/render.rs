//! The display text of a proposal's type and of its payload.

use crate::model::{
    views, AddRemove, Address, PGFAction, PGFActionModel, ProposalType, ProposalTypeModel,
};
use crate::text::{hex_upper, join_with, lemma_join_push, push_hex};
use vstd::prelude::*;
use vstd::string::*;

verus! {

/// `"Add(x)"` or `"Remove(x)"`, where `x` is the text held.
pub open spec fn spec_add_remove_text(change: AddRemove<Seq<char>>) -> Seq<char> {
    match change {
        AddRemove::Add(x) => "Add("@ + x + ")"@,
        AddRemove::Remove(x) => "Remove("@ + x + ")"@,
    }
}

/// The text of one payment change: `"Add(x)"` or `"Remove(x)"` for a
/// continuous payment, `"Retro(x)"` for a retroactive one.
pub open spec fn spec_action_text(action: PGFActionModel) -> Seq<char> {
    match action {
        PGFActionModel::Continuous(change) => spec_add_remove_text(change),
        PGFActionModel::Retro(x) => "Retro("@ + x + ")"@,
    }
}

/// The texts of the steward changes, in order.
pub open spec fn steward_texts(list: Seq<AddRemove<Seq<char>>>) -> Seq<Seq<char>> {
    Seq::new(list.len(), |i: int| spec_add_remove_text(list[i]))
}

/// The texts of the payment changes, in order.
pub open spec fn action_texts(list: Seq<PGFActionModel>) -> Seq<Seq<char>> {
    Seq::new(list.len(), |i: int| spec_action_text(list[i]))
}

/// The display text of a proposal's payload: `"Hash: "` and the digest in
/// hexadecimal, nothing for a default proposal without one, and the changes
/// joined by `", "` in the order of the list otherwise.
pub open spec fn spec_proposal_data(proposal_type: ProposalTypeModel) -> Seq<char> {
    match proposal_type {
        ProposalTypeModel::Default(Some(hash)) => "Hash: "@ + hex_upper(hash),
        ProposalTypeModel::Default(None) => Seq::empty(),
        ProposalTypeModel::PGFSteward(list) => join_with(steward_texts(list), ", "@),
        ProposalTypeModel::PGFPayment(list) => join_with(action_texts(list), ", "@),
    }
}

/// The label of a proposal's type.
pub open spec fn spec_proposal_type_label(proposal_type: ProposalTypeModel) -> Seq<char> {
    match proposal_type {
        ProposalTypeModel::Default(_) => "Default"@,
        ProposalTypeModel::PGFSteward(_) => "PGF steward"@,
        ProposalTypeModel::PGFPayment(_) => "PGF funding"@,
    }
}

/// Appends `open`, the text and `")"` to `out`.
fn push_wrapped(out: &mut String, open: &str, inner: &str)
    ensures
        final(out)@ == old(out)@ + (open@ + inner@ + ")"@),
{
    out.append(open);
    out.append(inner);
    out.append(")");
}

/// Appends the text of an addition or removal of `address`.
fn push_add_remove(out: &mut String, add: bool, inner: &str)
    ensures
        final(out)@ == old(out)@ + spec_add_remove_text(
            if add {
                AddRemove::Add(inner@)
            } else {
                AddRemove::Remove(inner@)
            },
        ),
{
    if add {
        push_wrapped(out, "Add(", inner);
    } else {
        push_wrapped(out, "Remove(", inner);
    }
}

/// Appends the text of one steward change.
fn push_steward_change(out: &mut String, change: &AddRemove<Address>)
    ensures
        final(out)@ == old(out)@ + spec_add_remove_text(change@),
{
    match change {
        AddRemove::Add(address) => push_add_remove(out, true, address.text.as_str()),
        AddRemove::Remove(address) => push_add_remove(out, false, address.text.as_str()),
    }
}

/// Appends the text of one payment change.
fn push_action(out: &mut String, action: &PGFAction)
    ensures
        final(out)@ == old(out)@ + spec_action_text(action@),
{
    match action {
        PGFAction::Continuous(AddRemove::Add(target)) => push_add_remove(
            out,
            true,
            target.target().text.as_str(),
        ),
        PGFAction::Continuous(AddRemove::Remove(target)) => push_add_remove(
            out,
            false,
            target.target().text.as_str(),
        ),
        PGFAction::Retro(target) => push_wrapped(out, "Retro(", target.target().text.as_str()),
    }
}

/// The display text of a proposal's payload.
pub fn format_proposal_data(proposal_type: &ProposalType) -> (data: String)
    ensures
        data@ == spec_proposal_data(proposal_type@),
{
    let mut out = String::new();
    match proposal_type {
        ProposalType::Default(Some(hash)) => {
            out.append("Hash: ");
            push_hex(&mut out, hash.bytes.as_slice());
        },
        ProposalType::Default(None) => {},
        ProposalType::PGFSteward(list) => {
            let ghost texts = steward_texts(views(list@));
            let mut i: usize = 0;
            while i < list.len()
                invariant
                    i <= list.len(),
                    texts == steward_texts(views(list@)),
                    out@ == join_with(texts.take(i as int), ", "@),
                decreases list.len() - i,
            {
                if i > 0 {
                    out.append(", ");
                }
                push_steward_change(&mut out, &list[i]);
                proof {
                    lemma_join_push(texts.take(i as int), texts[i as int], ", "@);
                    assert(texts.take(i as int).push(texts[i as int]) == texts.take(i + 1));
                }
                i = i + 1;
            }
            assert(texts.take(i as int) == texts);
        },
        ProposalType::PGFPayment(list) => {
            let ghost texts = action_texts(views(list@));
            let mut i: usize = 0;
            while i < list.len()
                invariant
                    i <= list.len(),
                    texts == action_texts(views(list@)),
                    out@ == join_with(texts.take(i as int), ", "@),
                decreases list.len() - i,
            {
                if i > 0 {
                    out.append(", ");
                }
                push_action(&mut out, &list[i]);
                proof {
                    lemma_join_push(texts.take(i as int), texts[i as int], ", "@);
                    assert(texts.take(i as int).push(texts[i as int]) == texts.take(i + 1));
                }
                i = i + 1;
            }
            assert(texts.take(i as int) == texts);
        },
    }
    out
}

/// The label of a proposal's type.
pub fn proposal_type_label(proposal_type: &ProposalType) -> (label: String)
    ensures
        label@ == spec_proposal_type_label(proposal_type@),
{
    match proposal_type {
        ProposalType::Default(_) => "Default".to_owned(),
        ProposalType::PGFSteward(_) => "PGF steward".to_owned(),
        ProposalType::PGFPayment(_) => "PGF funding".to_owned(),
    }
}

} // verus!
