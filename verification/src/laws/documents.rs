//! What a document holds under a key, told by its members.

use crate::json::{
    bool_of, inserted, lemma_position, lemma_u64_value, member, position, str_of, u64_of, Doc,
};
use crate::text::decimal;
use vstd::prelude::*;

verus! {

/// Are these members whose first one with the key has this value?
pub open spec fn has(members: Seq<(Seq<char>, Doc)>, key: Seq<char>, value: Doc) -> bool {
    exists|i: int|
        0 <= i < members.len() && #[trigger] members[i] == (key, value) && forall|j: int|
            0 <= j < i ==> (#[trigger] members[j]).0 != key
}

/// Has none of the members this key?
pub open spec fn misses(members: Seq<(Seq<char>, Doc)>, key: Seq<char>) -> bool {
    forall|j: int| 0 <= j < members.len() ==> (#[trigger] members[j]).0 != key
}

/// Is the document an object that has this value under the key?
pub open spec fn holds(doc: Doc, key: Seq<char>, value: Doc) -> bool {
    doc matches Doc::Object(members) && has(members, key, value)
}

/// Has the document nothing under the key?
pub open spec fn lacks(doc: Doc, key: Seq<char>) -> bool {
    doc matches Doc::Object(members) ==> misses(members, key)
}

/// Looking a key up in members finds the value of the first one with it.
pub proof fn members_are_found(members: Seq<(Seq<char>, Doc)>, key: Seq<char>)
    ensures
        forall|value: Doc| #[trigger]
            has(members, key, value) <==> member(members, key) == Some(value),
        misses(members, key) <==> member(members, key) is None,
{
    lemma_position(members, key);
    let p = position(members, key);
    assert forall|value: Doc| #[trigger] has(members, key, value) <==> member(members, key) == Some(
        value,
    ) by {
        if has(members, key, value) {
            let i = choose|i: int|
                0 <= i < members.len() && #[trigger] members[i] == (key, value) && forall|j: int|
                    0 <= j < i ==> (#[trigger] members[j]).0 != key;
            if p < i {
                assert(members[p].0 != key);
            } else if i < p {
                assert(members[i].0 != key);
            }
        }
        if member(members, key) == Some(value) {
            assert(members[p] == (key, value));
        }
    }
    if misses(members, key) && p < members.len() {
        assert(members[p].0 != key);
    }
}

/// Looking a key up in a document finds what it holds there.
pub proof fn keys_are_found(doc: Doc, key: Seq<char>)
    ensures
        forall|value: Doc| #[trigger] holds(doc, key, value) <==> doc.get(key) == Some(value),
        lacks(doc, key) <==> doc.get(key) is None,
{
    if let Doc::Object(members) = doc {
        members_are_found(members, key);
        assert forall|value: Doc| #[trigger] holds(doc, key, value) <==> doc.get(key) == Some(
            value,
        ) by {
            assert(has(members, key, value) <==> member(members, key) == Some(value));
        }
    }
}

/// What was inserted under a key is found there, and what other keys have
/// stays.
pub proof fn inserting_touches_one_key(
    members: Seq<(Seq<char>, Doc)>,
    key: Seq<char>,
    value: Doc,
    other: Seq<char>,
)
    ensures
        member(inserted(members, key, value), key) == Some(value),
        other != key ==> member(inserted(members, key, value), other) == member(members, other),
        misses(members, key) ==> inserted(members, key, value) == members.push((key, value)),
{
    let after = inserted(members, key, value);
    lemma_position(members, key);
    lemma_position(after, key);
    lemma_position(members, other);
    lemma_position(after, other);
    let p = position(members, key);
    let q = position(after, key);
    assert(after[p] == (key, value));
    if q < p {
        assert(after[q].0 == members[q].0);
    } else if p < q {
        assert(after[p].0 != key);
    }
    if other != key {
        let a = position(members, other);
        let b = position(after, other);
        if a < b {
            if a < members.len() {
                assert(after[a].0 != other);
                assert(members[a].0 == other);
            }
        } else if b < a {
            assert(members[b].0 != other);
            assert(after[b].0 == other);
        }
    }
    if misses(members, key) && p < members.len() {
        assert(members[p].0 != key);
    }
}

/// An element is found at its index, and nothing beyond the last one or in what
/// is no list.
pub proof fn elements_are_found(items: Seq<Doc>, doc: Doc, i: int)
    ensures
        0 <= i < items.len() ==> Doc::Array(items).at(i) == Some(items[i]),
        !(0 <= i < items.len()) ==> Doc::Array(items).at(i) is None,
        !(doc is Array) ==> doc.at(i) is None,
{
}

/// Strings, truth values and integers are read as what they are, and nothing
/// else is read as one of them.
pub proof fn values_are_read(s: Seq<char>, b: bool, u: u64, doc: Doc)
    ensures
        str_of(Some(Doc::Str(s))) == Some(s),
        !(doc is Str) ==> str_of(Some(doc)) is None,
        bool_of(Some(Doc::Bool(b))) == Some(b),
        !(doc is Bool) ==> bool_of(Some(doc)) is None,
        u64_of(Some(Doc::Number(decimal(u as nat)))) == Some(u),
        !(doc is Number) ==> u64_of(Some(doc)) is None,
        str_of(None) is None && bool_of(None) is None && u64_of(None) is None,
{
    lemma_u64_value(u);
}

} // verus!
