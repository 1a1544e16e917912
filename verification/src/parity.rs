//! Checking the tokenizer against rows of expected results.
//!
//! Each row is a JSON object with a text, its token ids, and the text that the
//! ids decode to, which may be missing.

use crate::json::{get_str, get_u64, parse, parsed, str_of, u64_of, Doc, Json};
use crate::spec_file::items_of;
use crate::text::{decimal, decimal_text, str_eq, trim, trimmed};
use crate::tokenizer::Tokenizer;
use crate::vocab::Vocab;
use vstd::prelude::*;

verus! {

/// How many mismatches of each kind are told in full.
pub const MAX_TOLD: u64 = 5;

/// What was checked, and how much of it was wrong.
pub struct Parity {
    pub total: u64,
    pub enc_fail: u64,
    pub dec_fail: u64,
}

/// A text that was not encoded as expected.
#[derive(Debug)]
pub struct EncodeMismatch {
    pub text: String,
    pub want: Vec<u32>,
    pub got: Vec<u32>,
}

/// Ids that were not decoded as expected.
#[derive(Debug)]
pub struct DecodeMismatch {
    pub want: String,
    pub got: String,
}

/// What became of a row.
#[derive(Debug)]
pub struct RowReport {
    /// The encoding, where it was wrong and is to be told.
    pub encode: Option<EncodeMismatch>,
    /// The decoding, where it was wrong and is to be told.
    pub decode: Option<DecodeMismatch>,
}

/// Why a row could not be checked.
#[derive(Debug)]
pub enum RowError {
    /// It is not JSON.
    Json(serde_json::Error),
    /// It has no text.
    NoText,
    /// It has no list of ids.
    NoIds,
}

/// The ids of a row. An element that is no non-negative integer counts as
/// zero, and of one that is too large the lowest 32 bits count.
pub open spec fn ids_in(row: Doc) -> Option<Seq<u32>> {
    match row.get("ids"@) {
        Some(Doc::Array(items)) => Some(items.map_values(|d: Doc| id_in(d))),
        _ => None,
    }
}

/// One id of a row.
pub open spec fn id_in(d: Doc) -> u32 {
    match u64_of(Some(d)) {
        Some(u) => u as u32,
        None => 0,
    }
}

/// Is the row's text encoded as it should be?
pub open spec fn encodes(v: Vocab, row: Doc) -> bool {
    v.encoded(str_of(row.get("text"@))->0) == ids_in(row)->0
}

/// Are the row's ids decoded as they should be, where it says how?
pub open spec fn decodes(v: Vocab, row: Doc) -> bool {
    str_of(row.get("decoded"@)) matches Some(want) ==> v.decoded(ids_in(row)->0) == want
}

/// The counts after one more row.
pub open spec fn counted(p: Parity, v: Vocab, row: Doc) -> Parity {
    Parity {
        total: (p.total + 1) as u64,
        enc_fail: if encodes(v, row) {
            p.enc_fail
        } else {
            (p.enc_fail + 1) as u64
        },
        dec_fail: if decodes(v, row) {
            p.dec_fail
        } else {
            (p.dec_fail + 1) as u64
        },
    }
}

/// The counts before any row.
pub open spec fn no_rows() -> Parity {
    Parity { total: 0, enc_fail: 0, dec_fail: 0 }
}

/// The counts after a sequence of rows.
pub open spec fn counted_all(p: Parity, v: Vocab, rows: Seq<Doc>) -> Parity
    decreases rows.len(),
{
    if rows.len() == 0 {
        p
    } else {
        counted(counted_all(p, v, rows.drop_last()), v, rows.last())
    }
}

/// The counts after one more line of a file of rows.
pub open spec fn counted_line(p: Parity, v: Vocab, line: Seq<char>) -> Parity {
    if trimmed(line).len() == 0 {
        p
    } else {
        match parsed(line) {
            Some(row) => if str_of(row.get("text"@)) is Some && ids_in(row) is Some {
                counted(p, v, row)
            } else {
                p
            },
            None => p,
        }
    }
}

/// Is nothing wrong?
pub open spec fn is_passed(p: Parity) -> bool {
    p.enc_fail == 0 && p.dec_fail == 0
}

/// Is the row encoded and decoded as it should be?
pub open spec fn is_right(v: Vocab, row: Doc) -> bool {
    encodes(v, row) && decodes(v, row)
}

/// A file of rows passes exactly where every row is encoded and decoded as it
/// should be, and every row is counted.
pub proof fn passing_is_every_row_right(v: Vocab, rows: Seq<Doc>)
    requires
        rows.len() <= u64::MAX,
    ensures
        is_passed(counted_all(no_rows(), v, rows)) <==> forall|i: int|
            0 <= i < rows.len() ==> is_right(v, #[trigger] rows[i]),
        counted_all(no_rows(), v, rows).total == rows.len(),
        counted_all(no_rows(), v, rows).enc_fail <= rows.len(),
        counted_all(no_rows(), v, rows).dec_fail <= rows.len(),
    decreases rows.len(),
{
    if rows.len() > 0 {
        let head = rows.drop_last();
        let last = rows.len() - 1;
        passing_is_every_row_right(v, head);
        assert(rows[last] == rows.last());
        if forall|i: int| 0 <= i < rows.len() ==> is_right(v, #[trigger] rows[i]) {
            assert forall|i: int| 0 <= i < head.len() implies is_right(v, #[trigger] head[i]) by {
                assert(is_right(v, rows[i]));
            }
            assert(is_right(v, rows[last]));
        }
        if is_passed(counted_all(no_rows(), v, rows)) {
            assert forall|i: int| 0 <= i < rows.len() implies is_right(v, #[trigger] rows[i]) by {
                if i < last {
                    assert(is_right(v, head[i]));
                }
            }
        }
    }
}

/// Does the report tell what was wrong with the row, where it is among the
/// first mismatches of its kind, and nothing else?
pub open spec fn tells(report: RowReport, p: Parity, v: Vocab, row: Doc) -> bool {
    let text = str_of(row.get("text"@))->0;
    let ids = ids_in(row)->0;
    &&& match report.encode {
        Some(m) => !encodes(v, row) && p.enc_fail < MAX_TOLD && m.text@ == text && m.want@ == ids
            && m.got@ == v.encoded(text),
        None => encodes(v, row) || p.enc_fail >= MAX_TOLD,
    }
    &&& match report.decode {
        Some(m) => !decodes(v, row) && p.dec_fail < MAX_TOLD && Some(m.want@) == str_of(
            row.get("decoded"@),
        ) && m.got@ == v.decoded(ids),
        None => decodes(v, row) || p.dec_fail >= MAX_TOLD,
    }
}

fn ids_of(row: &Json) -> (r: Option<Vec<u32>>)
    ensures
        match r {
            Some(ids) => ids_in(row@) == Some(ids@),
            None => ids_in(row@) is None,
        },
{
    let items = match row.get("ids") {
        Some(Json::Array(items)) => items,
        _ => {
            return None;
        },
    };
    let ghost all = items_of(items@);
    assert(row@.get("ids"@)->0->Array_0 =~= all);
    let mut ids: Vec<u32> = Vec::new();
    for i in 0..items.len()
        invariant
            all == items_of(items@),
            ids@.len() == i,
            forall|j: int| 0 <= j < i ==> #[trigger] ids@[j] == id_in(all[j]),
    {
        assert(all[i as int] == items@[i as int]@);
        ids.push(
            match get_u64(Some(&items[i])) {
                Some(u) => u as u32,
                None => 0,
            },
        );
    }
    assert(ids@ =~= all.map_values(|d: Doc| id_in(d)));
    Some(ids)
}

fn same_ids(a: &Vec<u32>, b: &Vec<u32>) -> (r: bool)
    ensures
        r == (a@ == b@),
{
    if a.len() != b.len() {
        return false;
    }
    for i in 0..a.len()
        invariant
            a@.len() == b@.len(),
            forall|j: int| 0 <= j < i ==> #[trigger] a@[j] == b@[j],
    {
        if a[i] != b[i] {
            return false;
        }
    }
    assert(a@ =~= b@);
    true
}

/// The text of the line that sums up.
pub open spec fn summary_text(p: Parity) -> Seq<char> {
    "tokenizer parity: "@ + decimal(p.total as nat) + " rows, "@ + decimal(p.enc_fail as nat)
        + " encode mismatches, "@ + decimal(p.dec_fail as nat) + " decode mismatches"@
}

impl Parity {
    /// Nothing checked yet.
    pub fn new() -> (r: Parity)
        ensures
            r == no_rows(),
    {
        Parity { total: 0, enc_fail: 0, dec_fail: 0 }
    }

    /// Checks a row that is JSON. The first few mismatches are told.
    pub fn check_row(&mut self, tok: &Tokenizer, row: &Json) -> (r: Result<RowReport, RowError>)
        requires
            old(self).total < u64::MAX,
            old(self).enc_fail <= old(self).total,
            old(self).dec_fail <= old(self).total,
        ensures
            match (str_of(row@.get("text"@)), ids_in(row@)) {
                (None, _) => r matches Err(RowError::NoText) && *final(self) == *old(self),
                (Some(_), None) => r matches Err(RowError::NoIds) && *final(self) == *old(self),
                (Some(_), Some(_)) => {
                    &&& r is Ok
                    &&& *final(self) == counted(*old(self), tok@, row@)
                    &&& tells(r->Ok_0, *old(self), tok@, row@)
                },
            },
            final(self).enc_fail <= final(self).total,
            final(self).dec_fail <= final(self).total,
    {
        let text = match get_str(row.get("text")) {
            Some(text) => text,
            None => {
                return Err(RowError::NoText);
            },
        };
        let want = match ids_of(row) {
            Some(ids) => ids,
            None => {
                return Err(RowError::NoIds);
            },
        };
        self.total = self.total + 1;
        let mut decode: Option<DecodeMismatch> = None;
        if let Some(expected) = get_str(row.get("decoded")) {
            let got = tok.decode(&want);
            if !str_eq(got.as_str(), expected.as_str()) {
                self.dec_fail = self.dec_fail + 1;
                if self.dec_fail <= MAX_TOLD {
                    decode = Some(DecodeMismatch { want: expected.clone(), got });
                }
            }
        }
        let mut encode: Option<EncodeMismatch> = None;
        let got = tok.encode(text.as_str());
        if !same_ids(&got, &want) {
            self.enc_fail = self.enc_fail + 1;
            if self.enc_fail <= MAX_TOLD {
                encode = Some(EncodeMismatch { text: text.clone(), want, got });
            }
        }
        Ok(RowReport { encode, decode })
    }

    /// Checks one line of a file of rows. An empty line is passed over.
    pub fn check_line(&mut self, tok: &Tokenizer, line: &str) -> (r: Result<RowReport, RowError>)
        requires
            old(self).total < u64::MAX,
            old(self).enc_fail <= old(self).total,
            old(self).dec_fail <= old(self).total,
        ensures
            if trimmed(line@).len() == 0 {
                r matches Ok(report) && report.encode is None && report.decode is None
                    && *final(self) == *old(self)
            } else {
                match parsed(line@) {
                    None => r matches Err(RowError::Json(_)) && *final(self) == *old(self),
                    Some(row) => match (str_of(row.get("text"@)), ids_in(row)) {
                        (None, _) => r matches Err(RowError::NoText) && *final(self) == *old(self),
                        (Some(_), None) => r matches Err(RowError::NoIds) && *final(self) == *old(
                            self,
                        ),
                        (Some(_), Some(_)) => {
                            &&& r is Ok
                            &&& *final(self) == counted(*old(self), tok@, row)
                            &&& tells(r->Ok_0, *old(self), tok@, row)
                        },
                    },
                }
            },
            *final(self) == counted_line(*old(self), tok@, line@),
            final(self).enc_fail <= final(self).total,
            final(self).dec_fail <= final(self).total,
    {
        if trim(line).as_str().is_empty() {
            return Ok(RowReport { encode: None, decode: None });
        }
        match parse(line) {
            Ok(row) => self.check_row(tok, &row),
            Err(e) => Err(RowError::Json(e)),
        }
    }

    /// Was every result the expected one?
    pub fn passed(&self) -> (r: bool)
        ensures
            r == is_passed(*self),
    {
        self.enc_fail == 0 && self.dec_fail == 0
    }

    /// The line that sums up.
    pub fn summary(&self) -> (r: String)
        ensures
            r@ == summary_text(*self),
            r@ == "tokenizer parity: "@ + decimal(self.total as nat) + " rows, "@ + decimal(
                self.enc_fail as nat,
            ) + " encode mismatches, "@ + decimal(self.dec_fail as nat) + " decode mismatches"@,
    {
        let mut out = "tokenizer parity: ".to_owned();
        out.append(decimal_text(self.total).as_str());
        out.append(" rows, ");
        out.append(decimal_text(self.enc_fail).as_str());
        out.append(" encode mismatches, ");
        out.append(decimal_text(self.dec_fail).as_str());
        out.append(" decode mismatches");
        out
    }
}

} // verus!
