//! The output text: JSON objects and arrays, written in a fixed order, with
//! strings quoted by `serde_json`.

use crate::model::{views, Entry};
use crate::numbers::{decimal, push_decimal_u64};
use crate::output::{ProposalOutput, ProposalOutputModel};
use crate::text::{join_with, lemma_join_push};
use vstd::prelude::*;
use vstd::string::*;

verus! {

/// `serde_json::Error`, declared as an opaque type.
#[verifier::external_type_specification]
#[verifier::external_body]
pub struct ExJsonError(serde_json::Error);

/// What `serde_json::to_string` gives for a string slice with this text:
/// the JSON string literal, quotes included, or nothing where it fails.
pub uninterp spec fn json_quote(text: Seq<char>) -> Option<Seq<char>>;

/// Calls `serde_json::to_string` on a string slice. The contract claims that
/// whether it succeeds, and what it then returns, depends on the text alone.
#[verifier::external_body]
fn quote(text: &str) -> (r: Result<String, serde_json::Error>)
    ensures
        r matches Ok(quoted) ==> json_quote(text@) == Some(quoted@),
        r is Err ==> json_quote(text@) is None,
{
    serde_json::to_string(text)
}

/// Formats a `serde_json::Error` with `{:?}`.
#[verifier::external_body]
fn describe(error: &serde_json::Error) -> String {
    format!("{:?}", error)
}

/// Whether the text can be written as a JSON string literal.
pub open spec fn quotable(text: Seq<char>) -> bool {
    json_quote(text) is Some
}

/// The JSON string literal for `text`, quotes included; no text where there
/// is none.
pub open spec fn json_quoted(text: Seq<char>) -> Seq<char> {
    match json_quote(text) {
        Some(quoted) => quoted,
        None => Seq::empty(),
    }
}

/// Whether the key and the text of an entry can both be written.
pub open spec fn entry_quotable(entry: (Seq<char>, Seq<char>)) -> bool {
    quotable(entry.0) && quotable(entry.1)
}

/// Whether every entry of a mapping can be written.
pub open spec fn entries_quotable(entries: Seq<(Seq<char>, Seq<char>)>) -> bool {
    forall|i: int| 0 <= i < entries.len() ==> entry_quotable(#[trigger] entries[i])
}

/// Whether every mapping of a list can be written.
pub open spec fn mappings_quotable(items: Seq<Seq<(Seq<char>, Seq<char>)>>) -> bool {
    forall|i: int| 0 <= i < items.len() ==> entries_quotable(#[trigger] items[i])
}

/// Whether the keys of the three epochs of a proposal can be written.
pub open spec fn epochs_quotable() -> bool {
    &&& quotable("voting_start_epoch"@)
    &&& quotable("voting_end_epoch"@)
    &&& quotable("grace_epoch"@)
}

/// Whether a proposal can be written: each of its keys and each of its
/// texts.
pub open spec fn proposal_quotable(output: ProposalOutputModel) -> bool {
    &&& quotable("id"@)
    &&& entry_quotable(("proposal_type"@, output.proposal_type))
    &&& entry_quotable(("author"@, output.author))
    &&& quotable("content"@)
    &&& entries_quotable(output.content)
    &&& epochs_quotable()
    &&& entry_quotable(("status"@, output.status))
    &&& entry_quotable(("data"@, output.data))
}

/// The output could not be written as text.
#[derive(Clone, Debug, PartialEq, Eq)]
pub struct SerializationError {
    pub message: String,
}

/// One member of an object whose value is a string.
pub open spec fn json_member(entry: (Seq<char>, Seq<char>)) -> Seq<char> {
    json_quoted(entry.0) + ":"@ + json_quoted(entry.1)
}

/// The members of an object, in the order of the entries.
pub open spec fn json_members(entries: Seq<(Seq<char>, Seq<char>)>) -> Seq<Seq<char>> {
    Seq::new(entries.len(), |i: int| json_member(entries[i]))
}

/// An object whose values are strings: the members in the order of the
/// entries, separated by commas, in braces.
pub open spec fn json_object(entries: Seq<(Seq<char>, Seq<char>)>) -> Seq<char> {
    "{"@ + join_with(json_members(entries), ","@) + "}"@
}

/// The objects for a list of mappings, in its order.
pub open spec fn json_objects(items: Seq<Seq<(Seq<char>, Seq<char>)>>) -> Seq<Seq<char>> {
    Seq::new(items.len(), |i: int| json_object(items[i]))
}

/// An array of objects: the objects in the order of the list, separated by
/// commas, in square brackets.
pub open spec fn json_array(items: Seq<Seq<(Seq<char>, Seq<char>)>>) -> Seq<char> {
    "["@ + join_with(json_objects(items), ","@) + "]"@
}

/// One member of an object whose value is a number, in decimal.
pub open spec fn json_number_member(key: Seq<char>, value: u64) -> Seq<char> {
    json_quoted(key) + ":"@ + decimal(value as nat)
}

/// The three members for the epochs of a proposal.
pub open spec fn json_epochs(output: ProposalOutputModel) -> Seq<char> {
    json_number_member("voting_start_epoch"@, output.voting_start_epoch) + ","@
        + json_number_member("voting_end_epoch"@, output.voting_end_epoch) + ","@
        + json_number_member("grace_epoch"@, output.grace_epoch)
}

/// The object for a proposal: its members in the order in which
/// `ProposalOutput` declares them, the content as an object of its own.
pub open spec fn json_proposal(output: ProposalOutputModel) -> Seq<char> {
    "{"@ + json_quoted("id"@) + ":"@ + decimal(output.id as nat) + ","@ + json_member(
        ("proposal_type"@, output.proposal_type),
    ) + ","@ + json_member(("author"@, output.author)) + ","@ + json_quoted("content"@) + ":"@
        + json_object(output.content) + ","@ + json_epochs(output) + ","@ + json_member(
        ("status"@, output.status),
    ) + ","@ + json_member(("data"@, output.data)) + "}"@
}

/// Appends a quoted string to `out`, given what quoting it gave: the quoted
/// text if there is one, else nothing, and the failure is reported.
pub fn push_quoted_result(out: &mut String, quoted: Result<String, serde_json::Error>) -> (r:
    Result<(), SerializationError>)
    ensures
        match quoted {
            Ok(text) => r is Ok && final(out)@ == old(out)@ + text@,
            Err(_) => r is Err && final(out)@ == old(out)@,
        },
{
    match quoted {
        Ok(text) => {
            out.append(text.as_str());
            Ok(())
        },
        Err(error) => Err(SerializationError { message: describe(&error) }),
    }
}

/// Appends `text` to `out` as a JSON string literal, where it can be
/// written; else `out` stays as it is and the failure is reported.
fn push_quoted(out: &mut String, text: &str) -> (r: Result<(), SerializationError>)
    ensures
        r is Ok <==> quotable(text@),
        r is Ok ==> final(out)@ == old(out)@ + json_quoted(text@),
        r is Err ==> final(out)@ == old(out)@,
{
    push_quoted_result(out, quote(text))
}

/// Appends a member whose value is a string, where the key and the value can
/// be written; else `out` stays as it is.
fn push_member(out: &mut String, key: &str, value: &str) -> (r: Result<
    (),
    SerializationError,
>)
    ensures
        r is Ok <==> entry_quotable((key@, value@)),
        r is Ok ==> final(out)@ == old(out)@ + json_member((key@, value@)),
        r is Err ==> final(out)@ == old(out)@,
{
    let quoted_key = match quoted_text(key) {
        Ok(quoted) => quoted,
        Err(e) => { return Err(e); },
    };
    let quoted_value = match quoted_text(value) {
        Ok(quoted) => quoted,
        Err(e) => { return Err(e); },
    };
    out.append(quoted_key.as_str());
    out.append(":");
    out.append(quoted_value.as_str());
    assert(out@ == old(out)@ + (json_quoted(key@) + ":"@ + json_quoted(value@)));
    Ok(())
}

/// Appends a member whose value is a number, where the key can be written;
/// else `out` stays as it is.
fn push_number_member(out: &mut String, key: &str, value: u64) -> (r: Result<
    (),
    SerializationError,
>)
    ensures
        r is Ok <==> quotable(key@),
        r is Ok ==> final(out)@ == old(out)@ + json_number_member(key@, value),
        r is Err ==> final(out)@ == old(out)@,
{
    match push_quoted(out, key) {
        Err(e) => { return Err(e); },
        Ok(_) => {},
    }
    out.append(":");
    push_decimal_u64(out, value);
    assert(out@ == old(out)@ + (json_quoted(key@) + ":"@ + decimal(value as nat)));
    Ok(())
}

/// Appends an object whose values are strings, where every entry can be
/// written; else `out` stays as it is.
fn push_object(out: &mut String, entries: &Vec<Entry>) -> (r: Result<(), SerializationError>)
    ensures
        r is Ok <==> entries_quotable(views(entries@)),
        r is Ok ==> final(out)@ == old(out)@ + json_object(views(entries@)),
        r is Err ==> final(out)@ == old(out)@,
{
    let mut piece = String::new();
    piece.append("{");
    let ghost members = json_members(views(entries@));
    let ghost start = piece@;
    let mut i: usize = 0;
    assert(start == "{"@);
    assert(piece@ == start + join_with(members.take(0), ","@));
    while i < entries.len()
        invariant
            i <= entries.len(),
            members == json_members(views(entries@)),
            piece@ == start + join_with(members.take(i as int), ","@),
            forall|j: int| 0 <= j < i ==> entry_quotable(#[trigger] views(entries@)[j]),
            out@ == old(out)@,
        decreases entries.len() - i,
    {
        if i > 0 {
            piece.append(",");
        }
        assert(views(entries@)[i as int] == (entries@[i as int].key@, entries@[i as int].value@));
        match push_member(&mut piece, entries[i].key.as_str(), entries[i].value.as_str()) {
            Err(e) => {
                assert(!entry_quotable(views(entries@)[i as int]));
                return Err(e);
            },
            Ok(_) => {},
        }
        proof {
            lemma_join_push(members.take(i as int), members[i as int], ","@);
            assert(members.take(i as int).push(members[i as int]) == members.take(i + 1));
            if i > 0 {
                assert(piece@ == start + (join_with(members.take(i as int), ","@) + ","@
                    + members[i as int]));
            }
        }
        i = i + 1;
    }
    assert(members.take(i as int) == members);
    piece.append("}");
    assert(piece@ == "{"@ + join_with(members, ","@) + "}"@);
    out.append(piece.as_str());
    Ok(())
}

/// Appends an array of objects, where every mapping can be written; else
/// `out` stays as it is.
fn push_array(out: &mut String, items: &Vec<Vec<Entry>>) -> (r: Result<
    (),
    SerializationError,
>)
    ensures
        r is Ok <==> mappings_quotable(Seq::new(items@.len(), |i: int| views(items@[i]@))),
        r is Ok ==> final(out)@ == old(out)@ + json_array(
            Seq::new(items@.len(), |i: int| views(items@[i]@)),
        ),
        r is Err ==> final(out)@ == old(out)@,
{
    let mut piece = String::new();
    piece.append("[");
    let ghost mappings = Seq::new(items@.len(), |i: int| views(items@[i]@));
    let ghost objects = json_objects(mappings);
    let ghost start = piece@;
    let mut i: usize = 0;
    assert(start == "["@);
    assert(piece@ == start + join_with(objects.take(0), ","@));
    while i < items.len()
        invariant
            i <= items.len(),
            mappings == Seq::new(items@.len(), |i: int| views(items@[i]@)),
            objects == json_objects(mappings),
            piece@ == start + join_with(objects.take(i as int), ","@),
            forall|j: int| 0 <= j < i ==> entries_quotable(#[trigger] mappings[j]),
            out@ == old(out)@,
        decreases items.len() - i,
    {
        if i > 0 {
            piece.append(",");
        }
        assert(mappings[i as int] == views(items@[i as int]@));
        match push_object(&mut piece, &items[i]) {
            Err(e) => {
                assert(!entries_quotable(mappings[i as int]));
                return Err(e);
            },
            Ok(_) => {},
        }
        proof {
            lemma_join_push(objects.take(i as int), objects[i as int], ","@);
            assert(objects.take(i as int).push(objects[i as int]) == objects.take(i + 1));
            if i > 0 {
                assert(piece@ == start + (join_with(objects.take(i as int), ","@) + ","@
                    + objects[i as int]));
            }
        }
        i = i + 1;
    }
    assert(objects.take(i as int) == objects);
    piece.append("]");
    assert(piece@ == "["@ + join_with(objects, ","@) + "]"@);
    out.append(piece.as_str());
    Ok(())
}

/// Appending to a text that was itself appended to a base.
proof fn lemma_appended(base: Seq<char>, so_far: Seq<char>, piece: Seq<char>)
    ensures
        (base + so_far) + piece == base + (so_far + piece),
{
    assert((base + so_far) + piece =~= base + (so_far + piece));
}

/// Appends the object for a proposal, where each of its keys and texts can
/// be written; else `out` stays as it is.
fn push_proposal(out: &mut String, output: &ProposalOutput) -> (r: Result<
    (),
    SerializationError,
>)
    ensures
        r is Ok <==> proposal_quotable(output@),
        r is Ok ==> final(out)@ == old(out)@ + json_proposal(output@),
        r is Err ==> final(out)@ == old(out)@,
{
    let mut piece = String::new();
    let ghost base = piece@;
    let ghost model = output@;
    piece.append("{");
    let ghost mut text = "{"@;
    match push_quoted(&mut piece, "id") {
        Err(e) => { return Err(e); },
        Ok(_) => {},
    }
    proof {
        lemma_appended(base, text, json_quoted("id"@));
        text = text + json_quoted("id"@);
    }
    piece.append(":");
    proof {
        lemma_appended(base, text, ":"@);
        text = text + ":"@;
    }
    push_decimal_u64(&mut piece, output.id);
    proof {
        lemma_appended(base, text, decimal(model.id as nat));
        text = text + decimal(model.id as nat);
    }
    piece.append(",");
    proof {
        lemma_appended(base, text, ","@);
        text = text + ","@;
    }
    match push_member(&mut piece, "proposal_type", output.proposal_type.as_str()) {
        Err(e) => { return Err(e); },
        Ok(_) => {},
    }
    proof {
        lemma_appended(base, text, json_member(("proposal_type"@, model.proposal_type)));
        text = text + json_member(("proposal_type"@, model.proposal_type));
    }
    piece.append(",");
    proof {
        lemma_appended(base, text, ","@);
        text = text + ","@;
    }
    match push_member(&mut piece, "author", output.author.as_str()) {
        Err(e) => { return Err(e); },
        Ok(_) => {},
    }
    proof {
        lemma_appended(base, text, json_member(("author"@, model.author)));
        text = text + json_member(("author"@, model.author));
    }
    piece.append(",");
    proof {
        lemma_appended(base, text, ","@);
        text = text + ","@;
    }
    match push_quoted(&mut piece, "content") {
        Err(e) => { return Err(e); },
        Ok(_) => {},
    }
    proof {
        lemma_appended(base, text, json_quoted("content"@));
        text = text + json_quoted("content"@);
    }
    piece.append(":");
    proof {
        lemma_appended(base, text, ":"@);
        text = text + ":"@;
    }
    match push_object(&mut piece, &output.content) {
        Err(e) => { return Err(e); },
        Ok(_) => {},
    }
    proof {
        lemma_appended(base, text, json_object(model.content));
        text = text + json_object(model.content);
    }
    piece.append(",");
    proof {
        lemma_appended(base, text, ","@);
        text = text + ","@;
    }
    assert(piece@ == base + text);
    match push_epochs(&mut piece, output) {
        Err(e) => { return Err(e); },
        Ok(_) => {},
    }
    proof {
        lemma_appended(base, text, json_epochs(model));
        text = text + json_epochs(model);
    }
    piece.append(",");
    proof {
        lemma_appended(base, text, ","@);
        text = text + ","@;
    }
    match push_member(&mut piece, "status", output.status.as_str()) {
        Err(e) => { return Err(e); },
        Ok(_) => {},
    }
    proof {
        lemma_appended(base, text, json_member(("status"@, model.status)));
        text = text + json_member(("status"@, model.status));
    }
    piece.append(",");
    proof {
        lemma_appended(base, text, ","@);
        text = text + ","@;
    }
    match push_member(&mut piece, "data", output.data.as_str()) {
        Err(e) => { return Err(e); },
        Ok(_) => {},
    }
    proof {
        lemma_appended(base, text, json_member(("data"@, model.data)));
        text = text + json_member(("data"@, model.data));
    }
    piece.append("}");
    proof {
        lemma_appended(base, text, "}"@);
        text = text + "}"@;
    }
    assert(piece@ == base + text);
    assert(text == json_proposal(model));
    assert(piece@ == json_proposal(model));
    out.append(piece.as_str());
    Ok(())
}

/// Appends the three members for the epochs of a proposal, where their keys
/// can be written; else `out` stays as it is.
fn push_epochs(out: &mut String, output: &ProposalOutput) -> (r: Result<(), SerializationError>)
    ensures
        r is Ok <==> epochs_quotable(),
        r is Ok ==> final(out)@ == old(out)@ + json_epochs(output@),
        r is Err ==> final(out)@ == old(out)@,
{
    let mut piece = String::new();
    let ghost model = output@;
    match push_number_member(&mut piece, "voting_start_epoch", output.voting_start_epoch) {
        Err(e) => { return Err(e); },
        Ok(_) => {},
    }
    let ghost first = json_number_member("voting_start_epoch"@, model.voting_start_epoch);
    assert(piece@ == first);
    piece.append(",");
    match push_number_member(&mut piece, "voting_end_epoch", output.voting_end_epoch) {
        Err(e) => { return Err(e); },
        Ok(_) => {},
    }
    let ghost second = json_number_member("voting_end_epoch"@, model.voting_end_epoch);
    assert(piece@ == first + ","@ + second);
    piece.append(",");
    match push_number_member(&mut piece, "grace_epoch", output.grace_epoch) {
        Err(e) => { return Err(e); },
        Ok(_) => {},
    }
    let ghost third = json_number_member("grace_epoch"@, model.grace_epoch);
    assert(piece@ == first + ","@ + second + ","@ + third);
    out.append(piece.as_str());
    Ok(())
}

/// `text` as a JSON string literal, where it can be written.
pub fn quoted_text(text: &str) -> (r: Result<String, SerializationError>)
    ensures
        r is Ok <==> quotable(text@),
        r matches Ok(written) ==> written@ == json_quoted(text@),
{
    let mut out = String::new();
    match push_quoted(&mut out, text) {
        Ok(_) => Ok(out),
        Err(e) => Err(e),
    }
}

/// The object for a mapping from keys to texts, where every entry can be
/// written. The empty mapping is always written.
pub fn object_text(entries: &Vec<Entry>) -> (r: Result<String, SerializationError>)
    ensures
        r is Ok <==> entries_quotable(views(entries@)),
        r matches Ok(written) ==> written@ == json_object(views(entries@)),
        entries@.len() == 0 ==> r is Ok,
{
    let mut out = String::new();
    match push_object(&mut out, entries) {
        Ok(_) => Ok(out),
        Err(e) => Err(e),
    }
}

/// The array of objects for a list of mappings, where every mapping can be
/// written. The empty list is always written.
pub fn array_text(items: &Vec<Vec<Entry>>) -> (r: Result<String, SerializationError>)
    ensures
        r is Ok <==> mappings_quotable(Seq::new(items@.len(), |i: int| views(items@[i]@))),
        r matches Ok(written) ==> written@ == json_array(
            Seq::new(items@.len(), |i: int| views(items@[i]@)),
        ),
        items@.len() == 0 ==> r is Ok,
{
    let mut out = String::new();
    match push_array(&mut out, items) {
        Ok(_) => Ok(out),
        Err(e) => Err(e),
    }
}

/// The object for a proposal, where each of its keys and texts can be
/// written.
pub fn proposal_text(output: &ProposalOutput) -> (r: Result<String, SerializationError>)
    ensures
        r is Ok <==> proposal_quotable(output@),
        r matches Ok(written) ==> written@ == json_proposal(output@),
{
    let mut out = String::new();
    match push_proposal(&mut out, output) {
        Ok(_) => Ok(out),
        Err(e) => Err(e),
    }
}

} // verus!
