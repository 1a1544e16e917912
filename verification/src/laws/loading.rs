//! What the description of a tokenizer describes.

use crate::json::{lemma_u64_value, Doc};
use crate::laws::documents::{holds, keys_are_found, lacks};
use crate::spec_file::{described, fault_in, first_fault, listed, score_text, Fault};
use crate::text::decimal;
use crate::vocab::{byte_of, has_hex_slice};
use vstd::prelude::*;

verus! {

/// Every listed piece has the text and the type that it is given, in the lowest
/// eight bits of an integer; without an integer for its type it is a normal
/// one, and without a score it has that of zero.
pub proof fn pieces_are_read(
    doc: Doc,
    items: Seq<Doc>,
    scores: Seq<u32>,
    i: int,
    parts: Seq<Doc>,
    text: Seq<char>,
    kind: u64,
)
    requires
        holds(doc, "pieces"@, Doc::Array(items)),
        0 <= i < items.len(),
        items[i] == Doc::Array(parts),
        parts.len() > 0,
        parts[0] == Doc::Str(text),
    ensures
        ({
            let v = described(doc, scores);
            &&& listed(doc) == Some(items)
            &&& v.pieces.len() == items.len()
            &&& v.types.len() == items.len()
            &&& v.scores.len() == items.len()
            &&& v.pieces[i] == text
            &&& parts.len() > 2 && parts[2] == Doc::Number(decimal(kind as nat)) ==> v.types[i]
                == kind as u8
            &&& parts.len() <= 2 || !(parts[2] is Number) ==> v.types[i] == 1
            &&& parts.len() > 2 && (forall|u: u64|
                parts[2] != Doc::Number(#[trigger] decimal(u as nat))) ==> v.types[i] == 1
            &&& i < scores.len() ==> v.scores[i] == scores[i]
            &&& i >= scores.len() ==> v.scores[i] == 0
        }),
{
    keys_are_found(doc, "pieces"@);
    assert(holds(doc, "pieces"@, Doc::Array(items)));
    lemma_u64_value(kind);
}

/// The score of a piece is the number in its second place.
pub proof fn scores_stand_second(parts: Seq<Doc>, t: Seq<char>)
    ensures
        parts.len() > 1 && parts[1] == Doc::Number(t) ==> score_text(Doc::Array(parts)) == Some(t),
        parts.len() <= 1 || !(parts[1] is Number) ==> score_text(Doc::Array(parts)) is None,
{
}

/// The two switches are as they are set, and on where they are not set to a
/// truth value.
pub proof fn switches_are_on_unless_turned_off(doc: Doc, scores: Seq<u32>, b: bool, d: Doc)
    ensures
        holds(doc, "add_dummy_prefix"@, d) && !(d is Bool) ==> described(
            doc,
            scores,
        ).add_dummy_prefix,
        holds(doc, "remove_extra_whitespaces"@, d) && !(d is Bool) ==> described(
            doc,
            scores,
        ).remove_extra_whitespaces,
        holds(doc, "add_dummy_prefix"@, Doc::Bool(b)) ==> described(doc, scores).add_dummy_prefix
            == b,
        lacks(doc, "add_dummy_prefix"@) ==> described(doc, scores).add_dummy_prefix,
        holds(doc, "remove_extra_whitespaces"@, Doc::Bool(b)) ==> described(
            doc,
            scores,
        ).remove_extra_whitespaces == b,
        lacks(doc, "remove_extra_whitespaces"@) ==> described(doc, scores).remove_extra_whitespaces,
{
    keys_are_found(doc, "add_dummy_prefix"@);
    keys_are_found(doc, "remove_extra_whitespaces"@);
}

/// A piece is at fault where it has no text, and where it is one for a byte and
/// its text names none; no other is.
pub proof fn pieces_need_a_text_and_byte_pieces_a_byte(
    parts: Seq<Doc>,
    text: Seq<char>,
    other: Doc,
)
    ensures
        !(other is Array) ==> fault_in(other) == Some(Fault::NoText),
        parts.len() == 0 || !(parts[0] is Str) ==> fault_in(Doc::Array(parts)) == Some(
            Fault::NoText,
        ),
        parts.len() > 2 && parts[0] == Doc::Str(text) && parts[2] == Doc::Number(decimal(6)) ==> {
            &&& !has_hex_slice(text) ==> fault_in(Doc::Array(parts)) == Some(Fault::ByteText)
            &&& has_hex_slice(text) && byte_of(text) is None ==> fault_in(Doc::Array(parts)) == Some(
                Fault::BadHex,
            )
            &&& has_hex_slice(text) && byte_of(text) is Some ==> fault_in(Doc::Array(parts)) is None
        },
        parts.len() > 0 && parts[0] == Doc::Str(text) && (parts.len() <= 2 || !(
        parts[2] is Number)) ==> fault_in(Doc::Array(parts)) is None,
        parts.len() > 2 && parts[0] == Doc::Str(text) && (exists|kind: u8|
            kind != 6 && parts[2] == Doc::Number(#[trigger] decimal(kind as nat))) ==> fault_in(
            Doc::Array(parts),
        ) is None,
{
    lemma_u64_value(6);
    if exists|kind: u8| kind != 6 && parts[2] == Doc::Number(#[trigger] decimal(kind as nat)) {
        let kind = choose|kind: u8|
            kind != 6 && parts[2] == Doc::Number(#[trigger] decimal(kind as nat));
        lemma_u64_value(kind as u64);
    }
}

/// The fault that is told is that of the first piece at fault, and one is told
/// wherever a piece is at fault.
pub proof fn the_first_fault_is_told(items: Seq<Doc>, i: int)
    requires
        0 <= i <= items.len(),
    ensures
        match first_fault(items, i) {
            Some((k, f)) => i <= k < items.len() && fault_in(items[k]) == Some(f) && forall|j: int|
                i <= j < k ==> fault_in(#[trigger] items[j]) is None,
            None => forall|j: int| i <= j < items.len() ==> fault_in(#[trigger] items[j]) is None,
        },
    decreases items.len() - i,
{
    if i < items.len() {
        the_first_fault_is_told(items, i + 1);
    }
}

} // verus!
