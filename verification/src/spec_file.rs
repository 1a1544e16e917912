//! Reading a tokenizer from its exported JSON description.
//!
//! The description is an object with the list `pieces`, each of them a list of
//! text, score and type, and the two switches of the normalizer.

use crate::json::{
    bool_of, get_bool, get_str, get_u64, number_text, parse, parsed, str_of, u64_of, Doc, Json,
};
use crate::tokenizer::{Piece, Tokenizer};
use crate::vocab::{byte_of, has_hex_slice, hex_digit, Vocab, BYTE};
use vstd::prelude::*;
use vstd::utf8::*;

verus! {

/// Why a description was refused. Indices are those of the piece at fault.
#[derive(Debug)]
pub enum SpecError {
    /// The text is not JSON.
    Json(serde_json::Error),
    /// There is no list of pieces.
    NoPieces,
    /// A piece has no text.
    NoText(usize),
    /// The text of a byte piece is too short to hold two digits, or they
    /// cannot be cut out of it.
    ByteText(usize),
    /// The two digits of a byte piece are not hexadecimal.
    BadHex(usize),
}

/// What can be wrong with a piece.
pub enum Fault {
    NoText,
    ByteText,
    BadHex,
}

/// The list of pieces.
pub open spec fn listed(doc: Doc) -> Option<Seq<Doc>> {
    match doc.get("pieces"@) {
        Some(Doc::Array(items)) => Some(items),
        _ => None,
    }
}

/// The type of a piece: the third element, in its lowest eight bits, or that
/// of a normal piece.
pub open spec fn type_in(item: Doc) -> u8 {
    match u64_of(item.at(2)) {
        Some(u) => u as u8,
        None => 1,
    }
}

/// What is wrong with a piece, if anything is.
pub open spec fn fault_in(item: Doc) -> Option<Fault> {
    match str_of(item.at(0)) {
        None => Some(Fault::NoText),
        Some(text) => if type_in(item) != BYTE {
            None
        } else if !has_hex_slice(text) {
            Some(Fault::ByteText)
        } else if byte_of(text) is None {
            Some(Fault::BadHex)
        } else {
            None
        },
    }
}

/// The first piece with a fault, from index `i` on, and the fault.
pub open spec fn first_fault(items: Seq<Doc>, i: int) -> Option<(int, Fault)>
    decreases items.len() - i,
{
    if i < 0 || i >= items.len() {
        None
    } else {
        match fault_in(items[i]) {
            Some(f) => Some((i, f)),
            None => first_fault(items, i + 1),
        }
    }
}

/// The first fault of a description with a list of pieces.
pub open spec fn fault_of(doc: Doc) -> Option<(int, Fault)> {
    match listed(doc) {
        Some(items) => first_fault(items, 0),
        None => None,
    }
}

/// A switch of the description; it is on unless it is turned off.
pub open spec fn switch(doc: Doc, key: Seq<char>) -> bool {
    match bool_of(doc.get(key)) {
        Some(b) => b,
        None => true,
    }
}

/// The vocabulary that a description without faults describes, given the
/// scores of its pieces as single-precision patterns. A missing score is zero.
pub open spec fn described(doc: Doc, scores: Seq<u32>) -> Vocab {
    let items = listed(doc)->0;
    Vocab {
        pieces: Seq::new(items.len(), |i: int| str_of(items[i].at(0))->0),
        types: Seq::new(items.len(), |i: int| type_in(items[i])),
        scores: Seq::new(
            items.len(),
            |i: int|
                if i < scores.len() {
                    scores[i]
                } else {
                    0u32
                },
        ),
        add_dummy_prefix: switch(doc, "add_dummy_prefix"@),
        remove_extra_whitespaces: switch(doc, "remove_extra_whitespaces"@),
    }
}

fn hex_value(b: u8) -> (r: Option<u8>)
    ensures
        r == hex_digit(b),
{
    if 48 <= b && b <= 57 {
        Some(b - 48)
    } else if 65 <= b && b <= 70 {
        Some(b - 55)
    } else if 97 <= b && b <= 102 {
        Some(b - 87)
    } else {
        None
    }
}

/// The byte that the text of a byte piece names.
fn parse_byte(text: &String) -> (r: Option<u8>)
    requires
        has_hex_slice(text@),
    ensures
        r == byte_of(text@),
{
    let bytes = text.as_str().as_bytes();
    let a = bytes[3];
    let b = bytes[4];
    if a == 43 {
        hex_value(b)
    } else {
        match (hex_value(a), hex_value(b)) {
            (Some(x), Some(y)) => Some(16 * x + y),
            _ => None,
        }
    }
}

fn type_of(item: &Json) -> (r: u8)
    ensures
        r == type_in(item@),
{
    match get_u64(item.at(2)) {
        Some(u) => u as u8,
        None => 1,
    }
}

/// What is wrong with a piece, if anything is.
fn check_piece(item: &Json) -> (r: Option<Fault>)
    ensures
        r == fault_in(item@),
{
    match get_str(item.at(0)) {
        None => Some(Fault::NoText),
        Some(text) => {
            if type_of(item) != BYTE {
                return None;
            }
            let s = text.as_str();
            let bytes = s.as_bytes();
            if bytes.len() < 5 || !s.is_char_boundary(3) || !s.is_char_boundary(5) {
                Some(Fault::ByteText)
            } else if parse_byte(text).is_none() {
                Some(Fault::BadHex)
            } else {
                None
            }
        },
    }
}

/// A piece without a fault.
fn read_piece(item: &Json, score: u32) -> (r: Piece)
    requires
        fault_in(item@) is None,
    ensures
        str_of(item@.at(0)) == Some(r.text@),
        r.kind == type_in(item@),
        r.score == score,
        r.kind == BYTE ==> byte_of(r.text@) == Some(r.byte),
{
    let text = match get_str(item.at(0)) {
        Some(s) => s.clone(),
        None => String::new(),
    };
    let kind = type_of(item);
    let byte = if kind == BYTE {
        match parse_byte(&text) {
            Some(b) => b,
            None => 0,
        }
    } else {
        0
    };
    Piece { text, kind, score, byte }
}

/// Finds the first piece with a fault.
fn find_fault(items: &Vec<Json>) -> (r: Option<(usize, Fault)>)
    ensures
        match r {
            Some((i, f)) => first_fault(items_of(items@), 0) == Some((i as int, f)),
            None => first_fault(items_of(items@), 0) is None,
        },
{
    let ghost all = items_of(items@);
    for i in 0..items.len()
        invariant
            all == items_of(items@),
            first_fault(all, 0) == first_fault(all, i as int),
    {
        assert(all[i as int] == items@[i as int]@);
        if let Some(f) = check_piece(&items[i]) {
            return Some((i, f));
        }
    }
    None
}

/// The documents of a list.
pub open spec fn items_of(v: Seq<Json>) -> Seq<Doc> {
    v.map_values(|j: Json| j@)
}

/// Where the first fault is after `i`, there is none before.
proof fn lemma_no_fault(items: Seq<Doc>, i: int)
    requires
        0 <= i,
        first_fault(items, i) is None,
    ensures
        forall|j: int| i <= j < items.len() ==> fault_in(#[trigger] items[j]) is None,
    decreases items.len() - i,
{
    if i < items.len() {
        lemma_no_fault(items, i + 1);
    }
}

fn read_switch(spec: &Json, key: &str) -> (r: bool)
    ensures
        r == switch(spec@, key@),
{
    match get_bool(spec.get(key)) {
        Some(b) => b,
        None => true,
    }
}

/// The text of the number that a piece has as its score, where it has one.
pub open spec fn score_text(item: Doc) -> Option<Seq<char>> {
    match item.at(1) {
        Some(Doc::Number(t)) => Some(t),
        _ => None,
    }
}

/// The scores of the pieces, as the numbers that the description holds. A
/// caller turns each into a single-precision pattern, and a missing one into
/// that of zero.
pub fn score_numbers(spec: &Json) -> (r: Vec<Option<serde_json::Number>>)
    ensures
        match listed(spec@) {
            Some(items) => r@.len() == items.len() && forall|i: int|
                #![trigger r@[i]]
                0 <= i < items.len() ==> match r@[i] {
                    Some(n) => score_text(items[i]) == Some(number_text(n)),
                    None => score_text(items[i]) is None,
                },
            None => r@.len() == 0,
        },
{
    let mut out: Vec<Option<serde_json::Number>> = Vec::new();
    if let Some(Json::Array(items)) = spec.get("pieces") {
        let ghost all = items_of(items@);
        assert(listed(spec@)->0 =~= all);
        for i in 0..items.len()
            invariant
                all == items_of(items@),
                out@.len() == i,
                forall|j: int|
                    #![trigger out@[j]]
                    0 <= j < i ==> match out@[j] {
                        Some(n) => score_text(all[j]) == Some(number_text(n)),
                        None => score_text(all[j]) is None,
                    },
        {
            assert(all[i as int] == items@[i as int]@);
            out.push(
                match items[i].at(1) {
                    Some(Json::Number(n)) => Some(n.clone()),
                    _ => None,
                },
            );
        }
    }
    out
}

impl Tokenizer {
    /// Makes the tokenizer that a description describes. `scores` holds the
    /// score of each piece as a single-precision pattern; one that is missing
    /// is zero.
    pub fn from_spec(spec: &Json, scores: &Vec<u32>) -> (r: Result<Tokenizer, SpecError>)
        requires
            !(fault_of(spec@) matches Some((_, f)) && f is ByteText),
        ensures
            match r {
                Ok(t) => listed(spec@) is Some && fault_of(spec@) is None && t@ == described(
                    spec@,
                    scores@,
                ),
                Err(SpecError::NoPieces) => listed(spec@) is None,
                Err(SpecError::NoText(i)) => fault_of(spec@) == Some((i as int, Fault::NoText)),
                Err(SpecError::BadHex(i)) => fault_of(spec@) == Some((i as int, Fault::BadHex)),
                Err(_) => false,
            },
    {
        let items = match spec.get("pieces") {
            Some(Json::Array(items)) => items,
            _ => {
                return Err(SpecError::NoPieces);
            },
        };
        let ghost all = items_of(items@);
        assert(listed(spec@)->0 =~= all);
        if let Some((i, f)) = find_fault(items) {
            return match f {
                Fault::NoText => Err(SpecError::NoText(i)),
                Fault::ByteText => Err(SpecError::ByteText(i)),
                Fault::BadHex => Err(SpecError::BadHex(i)),
            };
        }
        proof {
            lemma_no_fault(all, 0);
        }
        let mut list: Vec<Piece> = Vec::new();
        for i in 0..items.len()
            invariant
                all == items_of(items@),
                forall|j: int| 0 <= j < all.len() ==> fault_in(#[trigger] all[j]) is None,
                list@.len() == i,
                forall|j: int|
                    #![trigger list@[j]]
                    0 <= j < i ==> str_of(all[j].at(0)) == Some(list@[j].text@) && list@[j].kind
                        == type_in(all[j]) && list@[j].score == (if j < scores@.len() {
                        scores@[j]
                    } else {
                        0u32
                    }) && (list@[j].kind == BYTE ==> byte_of(list@[j].text@) == Some(list@[j].byte)),
        {
            assert(all[i as int] == items@[i as int]@);
            let score = if i < scores.len() {
                scores[i]
            } else {
                0
            };
            list.push(read_piece(&items[i], score));
        }
        let prefix = read_switch(spec, "add_dummy_prefix");
        let tidy = read_switch(spec, "remove_extra_whitespaces");
        let t = Tokenizer::from_pieces(&list, prefix, tidy);
        proof {
            let d = described(spec@, scores@);
            assert(t@.pieces =~= d.pieces);
            assert(t@.types =~= d.types);
            assert(t@.scores =~= d.scores);
        }
        Ok(t)
    }

    /// Reads a description and makes the tokenizer that it describes.
    pub fn from_spec_text(raw: &str, scores: &Vec<u32>) -> (r: Result<Tokenizer, SpecError>)
        ensures
            match parsed(raw@) {
                None => r matches Err(SpecError::Json(_)),
                Some(doc) => match listed(doc) {
                    None => r matches Err(SpecError::NoPieces),
                    Some(_) => match fault_of(doc) {
                        None => r matches Ok(t) && t@ == described(doc, scores@),
                        Some((i, Fault::NoText)) => r matches Err(SpecError::NoText(k)) && k == i,
                        Some((i, Fault::ByteText)) => r matches Err(SpecError::ByteText(k)) && k
                            == i,
                        Some((i, Fault::BadHex)) => r matches Err(SpecError::BadHex(k)) && k == i,
                    },
                },
            },
    {
        let spec = match parse(raw) {
            Ok(spec) => spec,
            Err(e) => {
                return Err(SpecError::Json(e));
            },
        };
        if let Some(Json::Array(items)) = spec.get("pieces") {
            assert(listed(spec@)->0 =~= items_of(items@));
            if let Some((i, Fault::ByteText)) = find_fault(items) {
                return Err(SpecError::ByteText(i));
            }
        }
        Tokenizer::from_spec(&spec, scores)
    }
}

} // verus!
