//! The content of a proposal: a mapping from keys to texts, kept as a list
//! that holds each key once, in ascending order of the keys.

use crate::model::{views, Entry};
use vstd::prelude::*;
use vstd::string::*;
use vstd::utf8::{encode_utf8, encode_utf8_decode_utf8};

verus! {

/// Whether `a` comes before `b` in lexicographic order, looking at the bytes
/// from index `from` on, where the bytes before `from` are equal.
pub open spec fn bytes_precede_from(a: Seq<u8>, b: Seq<u8>, from: int) -> bool
    decreases b.len() - from,
{
    if from >= b.len() {
        false
    } else if from >= a.len() {
        true
    } else if a[from] != b[from] {
        a[from] < b[from]
    } else {
        bytes_precede_from(a, b, from + 1)
    }
}

/// Whether the key `a` orders before the key `b`: by the bytes of their
/// UTF-8 encodings, lexicographically.
pub open spec fn key_precedes(a: Seq<char>, b: Seq<char>) -> bool {
    bytes_precede_from(encode_utf8(a), encode_utf8(b), 0)
}

/// Whether the key `a` orders before the key `b`.
pub fn precedes(a: &str, b: &str) -> (r: bool)
    ensures
        r == key_precedes(a@, b@),
{
    let x = a.as_bytes();
    let y = b.as_bytes();
    let mut i: usize = 0;
    while i < x.len() && i < y.len()
        invariant
            i <= x@.len(),
            i <= y@.len(),
            x@ == encode_utf8(a@),
            y@ == encode_utf8(b@),
            key_precedes(a@, b@) == bytes_precede_from(x@, y@, i as int),
        decreases x.len() - i,
    {
        if x[i] != y[i] {
            return x[i] < y[i];
        }
        i = i + 1;
    }
    i < y.len()
}

/// The mapping with `entry` put in: in place of the entry with the same key
/// if there is one, else before the first entry whose key comes after.
pub open spec fn with_entry(
    entries: Seq<(Seq<char>, Seq<char>)>,
    entry: (Seq<char>, Seq<char>),
) -> Seq<(Seq<char>, Seq<char>)>
    decreases entries.len(),
{
    if entries.len() == 0 {
        seq![entry]
    } else if entries[0].0 == entry.0 {
        entries.update(0, entry)
    } else if key_precedes(entry.0, entries[0].0) {
        seq![entry] + entries
    } else {
        seq![entries[0]] + with_entry(entries.drop_first(), entry)
    }
}

/// The mapping that a list of entries gives when they are put in one after
/// the other: a later entry replaces an earlier one with the same key.
pub open spec fn canonical_content(wire: Seq<(Seq<char>, Seq<char>)>) -> Seq<
    (Seq<char>, Seq<char>),
>
    decreases wire.len(),
{
    if wire.len() == 0 {
        Seq::empty()
    } else {
        with_entry(canonical_content(wire.drop_last()), wire.last())
    }
}

/// Puts `entry` into `entries`.
pub fn put_entry(entries: &mut Vec<Entry>, entry: Entry)
    ensures
        views(final(entries)@) == with_entry(views(old(entries)@), entry@),
{
    let ghost before = views(entries@);
    let mut i: usize = 0;
    proof {
        assert(before.skip(0) == before);
        assert(before.take(0) + with_entry(before, entry@) == with_entry(before, entry@));
    }
    while i < entries.len()
        invariant
            i <= entries.len(),
            before == views(old(entries)@),
            views(entries@) == before,
            with_entry(before, entry@) == before.take(i as int) + with_entry(
                before.skip(i as int),
                entry@,
            ),
        decreases entries.len() - i,
    {
        let ghost rest = before.skip(i as int);
        assert(rest[0] == before[i as int]);
        assert(before[i as int] == entries@[i as int]@);
        if entries[i].key == entry.key {
            let ghost e = entry@;
            entries.set(i, entry);
            assert(views(entries@) == before.take(i as int) + rest.update(0, e));
            return ;
        }
        if precedes(entry.key.as_str(), entries[i].key.as_str()) {
            let ghost e = entry@;
            entries.insert(i, entry);
            assert(views(entries@) == before.take(i as int) + (seq![e] + rest));
            return ;
        }
        assert(rest.drop_first() == before.skip(i + 1));
        assert(before.take(i as int) + (seq![rest[0]] + with_entry(rest.drop_first(), entry@))
            == before.take(i + 1) + with_entry(before.skip(i + 1), entry@));
        i = i + 1;
    }
    assert(before.skip(i as int).len() == 0);
    let ghost e = entry@;
    entries.push(entry);
    assert(views(entries@) == before.take(i as int) + seq![e]);
}

/// The mapping that the entries give, put in one after the other.
pub fn canonicalize(wire: &Vec<Entry>) -> (content: Vec<Entry>)
    ensures
        views(content@) == canonical_content(views(wire@)),
{
    let mut content: Vec<Entry> = Vec::new();
    let mut k: usize = 0;
    assert(views(content@) == canonical_content(views(wire@).take(0)));
    while k < wire.len()
        invariant
            k <= wire.len(),
            views(content@) == canonical_content(views(wire@).take(k as int)),
        decreases wire.len() - k,
    {
        let entry = Entry { key: wire[k].key.clone(), value: wire[k].value.clone() };
        assert(views(wire@).take(k + 1).drop_last() == views(wire@).take(k as int));
        assert(views(wire@).take(k + 1).last() == entry@);
        put_entry(&mut content, entry);
        k = k + 1;
    }
    assert(views(wire@).take(k as int) == views(wire@));
    content
}

/// Whether the keys ascend strictly from each entry to the next.
pub open spec fn ascending(entries: Seq<(Seq<char>, Seq<char>)>) -> bool {
    forall|i: int|
        0 <= i < entries.len() - 1 ==> key_precedes(#[trigger] entries[i].0, entries[i + 1].0)
}

/// Of two byte strings that agree before `from`, one comes before the other
/// unless they are equal.
proof fn lemma_bytes_comparable(a: Seq<u8>, b: Seq<u8>, from: int)
    requires
        0 <= from <= a.len(),
        from <= b.len(),
        forall|j: int| 0 <= j < from ==> a[j] == b[j],
    ensures
        a == b || bytes_precede_from(a, b, from) || bytes_precede_from(b, a, from),
    decreases a.len() - from,
{
    if from == a.len() && from == b.len() {
        assert(a =~= b);
    } else if from < a.len() && from < b.len() && a[from] == b[from] {
        lemma_bytes_comparable(a, b, from + 1);
    }
}

/// Coming before is transitive, among byte strings that agree before `from`.
proof fn lemma_bytes_transitive(a: Seq<u8>, b: Seq<u8>, c: Seq<u8>, from: int)
    requires
        0 <= from,
        bytes_precede_from(a, b, from),
        bytes_precede_from(b, c, from),
    ensures
        bytes_precede_from(a, c, from),
    decreases c.len() - from,
{
    if from < a.len() && from < b.len() && from < c.len() && a[from] == b[from] && b[from]
        == c[from] {
        lemma_bytes_transitive(a, b, c, from + 1);
    }
}

/// No byte string comes before itself.
proof fn lemma_bytes_irreflexive(a: Seq<u8>, from: int)
    requires
        0 <= from,
    ensures
        !bytes_precede_from(a, a, from),
    decreases a.len() - from,
{
    if from < a.len() {
        lemma_bytes_irreflexive(a, from + 1);
    }
}

/// The order of the keys is a strict total order: no key comes before
/// itself, of two different keys one comes before the other, and coming
/// before is transitive.
pub proof fn lemma_key_order(a: Seq<char>, b: Seq<char>, c: Seq<char>)
    ensures
        !key_precedes(a, a),
        a == b || key_precedes(a, b) || key_precedes(b, a),
        key_precedes(a, b) && key_precedes(b, c) ==> key_precedes(a, c),
{
    lemma_bytes_irreflexive(encode_utf8(a), 0);
    lemma_bytes_comparable(encode_utf8(a), encode_utf8(b), 0);
    if encode_utf8(a) == encode_utf8(b) {
        encode_utf8_decode_utf8(a);
        encode_utf8_decode_utf8(b);
    }
    if key_precedes(a, b) && key_precedes(b, c) {
        lemma_bytes_transitive(encode_utf8(a), encode_utf8(b), encode_utf8(c), 0);
    }
}

/// Putting an entry into a mapping whose keys ascend gives one whose keys
/// ascend; its first key is the new key or the old first key.
pub proof fn lemma_with_entry_ascending(
    entries: Seq<(Seq<char>, Seq<char>)>,
    entry: (Seq<char>, Seq<char>),
)
    requires
        ascending(entries),
    ensures
        ascending(with_entry(entries, entry)),
        with_entry(entries, entry).len() > 0,
        with_entry(entries, entry)[0].0 == entry.0 || (entries.len() > 0 && with_entry(
            entries,
            entry,
        )[0].0 == entries[0].0 && key_precedes(entries[0].0, entry.0)),
    decreases entries.len(),
{
    let result = with_entry(entries, entry);
    if entries.len() == 0 {
    } else if entries[0].0 == entry.0 {
        assert forall|i: int| 0 <= i < result.len() - 1 implies key_precedes(
            #[trigger] result[i].0,
            result[i + 1].0,
        ) by {
            assert(key_precedes(entries[i].0, entries[i + 1].0));
        }
    } else if key_precedes(entry.0, entries[0].0) {
        assert forall|i: int| 0 <= i < result.len() - 1 implies key_precedes(
            #[trigger] result[i].0,
            result[i + 1].0,
        ) by {
            if i > 0 {
                assert(key_precedes(entries[i - 1].0, entries[i].0));
            }
        }
    } else {
        let rest = entries.drop_first();
        let inner = with_entry(rest, entry);
        assert forall|i: int| 0 <= i < rest.len() - 1 implies key_precedes(
            #[trigger] rest[i].0,
            rest[i + 1].0,
        ) by {
            assert(key_precedes(entries[i + 1].0, entries[i + 2].0));
        }
        lemma_with_entry_ascending(rest, entry);
        lemma_key_order(entries[0].0, entry.0, entry.0);
        if rest.len() > 0 {
            assert(key_precedes(entries[0].0, entries[1].0));
        }
        assert forall|i: int| 0 <= i < result.len() - 1 implies key_precedes(
            #[trigger] result[i].0,
            result[i + 1].0,
        ) by {
            if i > 0 {
                assert(key_precedes(inner[i - 1].0, inner[i].0));
            }
        }
    }
}

/// The mapping that a list of entries gives has ascending keys.
pub proof fn lemma_canonical_ascending(wire: Seq<(Seq<char>, Seq<char>)>)
    ensures
        ascending(canonical_content(wire)),
    decreases wire.len(),
{
    if wire.len() > 0 {
        lemma_canonical_ascending(wire.drop_last());
        lemma_with_entry_ascending(canonical_content(wire.drop_last()), wire.last());
    }
}

/// In a mapping whose keys ascend, an earlier key comes before a later one;
/// so no key occurs twice.
pub proof fn lemma_ascending_unique(entries: Seq<(Seq<char>, Seq<char>)>, i: int, j: int)
    requires
        ascending(entries),
        0 <= i < j < entries.len(),
    ensures
        key_precedes(entries[i].0, entries[j].0),
        entries[i].0 != entries[j].0,
    decreases j - i,
{
    if j == i + 1 {
        assert(key_precedes(entries[i].0, entries[i + 1].0));
    } else {
        lemma_ascending_unique(entries, i, j - 1);
        assert(key_precedes(entries[j - 1].0, entries[j].0));
        lemma_key_order(entries[i].0, entries[j - 1].0, entries[j].0);
    }
    lemma_key_order(entries[i].0, entries[j].0, entries[j].0);
}

/// The text under `key` in a list of entries as they were given: that of
/// the last entry with the key.
pub open spec fn last_value(wire: Seq<(Seq<char>, Seq<char>)>, key: Seq<char>) -> Option<
    Seq<char>,
>
    decreases wire.len(),
{
    if wire.len() == 0 {
        None
    } else if wire.last().0 == key {
        Some(wire.last().1)
    } else {
        last_value(wire.drop_last(), key)
    }
}

/// The text under `key` in a mapping: that of the first entry with the key.
pub open spec fn value_of(entries: Seq<(Seq<char>, Seq<char>)>, key: Seq<char>) -> Option<
    Seq<char>,
>
    decreases entries.len(),
{
    if entries.len() == 0 {
        None
    } else if entries[0].0 == key {
        Some(entries[0].1)
    } else {
        value_of(entries.drop_first(), key)
    }
}

/// After an entry is put in, its key leads to its text, and every other key
/// leads to what it led to before.
pub proof fn lemma_with_entry_value(
    entries: Seq<(Seq<char>, Seq<char>)>,
    entry: (Seq<char>, Seq<char>),
    key: Seq<char>,
)
    ensures
        value_of(with_entry(entries, entry), key) == if key == entry.0 {
            Some(entry.1)
        } else {
            value_of(entries, key)
        },
    decreases entries.len(),
{
    let result = with_entry(entries, entry);
    if entries.len() == 0 {
        assert(result[0] == entry);
        assert(value_of(result.drop_first(), key) == None::<Seq<char>>);
    } else if entries[0].0 == entry.0 {
        assert(result[0] == entry);
        assert(result.drop_first() == entries.drop_first());
    } else if key_precedes(entry.0, entries[0].0) {
        assert(result[0] == entry);
        assert(result.drop_first() == entries);
    } else {
        lemma_with_entry_value(entries.drop_first(), entry, key);
        assert(result[0] == entries[0]);
        assert(result.drop_first() == with_entry(entries.drop_first(), entry));
    }
}

/// In the mapping that a list of entries gives, each key leads to the text
/// of the last entry given with that key.
pub proof fn lemma_canonical_value(wire: Seq<(Seq<char>, Seq<char>)>, key: Seq<char>)
    ensures
        value_of(canonical_content(wire), key) == last_value(wire, key),
    decreases wire.len(),
{
    if wire.len() > 0 {
        lemma_canonical_value(wire.drop_last(), key);
        lemma_with_entry_value(canonical_content(wire.drop_last()), wire.last(), key);
    }
}

} // verus!
