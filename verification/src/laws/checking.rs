//! When a row of expected results is right, and what is counted.

use crate::json::{lemma_u64_value, parsed, Doc};
use crate::laws::configuring::{holds_list, holds_string};
use crate::laws::documents::{holds, keys_are_found};
use crate::laws::texts::{all_white, trimming_takes_the_white_space_around};
use crate::parity::{
    counted, counted_line, decodes, encodes, id_in, ids_in, is_passed, tells, Parity, RowReport,
};
use crate::text::{decimal, is_white_space, trimmed, trimmed_end, trimmed_start};
use crate::vocab::Vocab;
use vstd::prelude::*;

verus! {

/// Is it the list of the numerals of these ids?
pub open spec fn lists_ids(items: Seq<Doc>, ids: Seq<u32>) -> bool {
    items.len() == ids.len() && forall|k: int|
        0 <= k < items.len() ==> #[trigger] items[k] == Doc::Number(decimal(ids[k] as nat))
}

/// A row is encoded right exactly where its text is encoded as its ids, all of
/// them, and decoded right exactly where its ids decode to the text that it
/// gives for them; where it gives none, any decoding is right.
pub proof fn rows_are_held_to_their_text_and_ids(
    v: Vocab,
    row: Doc,
    text: Seq<char>,
    items: Seq<Doc>,
    ids: Seq<u32>,
    want: Seq<char>,
)
    requires
        holds(row, "text"@, Doc::Str(text)),
        holds(row, "ids"@, Doc::Array(items)),
        lists_ids(items, ids),
    ensures
        encodes(v, row) <==> v.encoded(text) == ids,
        holds(row, "decoded"@, Doc::Str(want)) ==> (decodes(v, row) <==> v.decoded(ids) == want),
        !holds_string(row, "decoded"@) ==> decodes(v, row),
{
    keys_are_found(row, "text"@);
    keys_are_found(row, "decoded"@);
    assert(holds(row, "text"@, Doc::Str(text)));
    lemma_ids(row, items, ids);
    if let Some(Doc::Str(s)) = row.get("decoded"@) {
        assert(holds(row, "decoded"@, Doc::Str(s)));
    }
}

proof fn lemma_ids(row: Doc, items: Seq<Doc>, ids: Seq<u32>)
    requires
        holds(row, "ids"@, Doc::Array(items)),
        lists_ids(items, ids),
    ensures
        ids_in(row) == Some(ids),
{
    keys_are_found(row, "ids"@);
    assert(holds(row, "ids"@, Doc::Array(items)));
    let read = ids_in(row)->0;
    assert(read.len() == ids.len());
    assert forall|k: int| 0 <= k < ids.len() implies #[trigger] read[k] == ids[k] by {
        assert(items[k] == Doc::Number(decimal(ids[k] as nat)));
        lemma_u64_value(ids[k] as u64);
    }
    assert(read =~= ids);
}

/// Every row is counted once, and once more for each way in which it is wrong;
/// all is right where nothing was counted as wrong.
pub proof fn wrong_rows_are_counted(p: Parity, v: Vocab, row: Doc)
    requires
        p.total < u64::MAX,
        p.enc_fail < u64::MAX,
        p.dec_fail < u64::MAX,
    ensures
        counted(p, v, row).total == p.total + 1,
        encodes(v, row) ==> counted(p, v, row).enc_fail == p.enc_fail,
        !encodes(v, row) ==> counted(p, v, row).enc_fail == p.enc_fail + 1,
        decodes(v, row) ==> counted(p, v, row).dec_fail == p.dec_fail,
        !decodes(v, row) ==> counted(p, v, row).dec_fail == p.dec_fail + 1,
        is_passed(p) <==> p.enc_fail == 0 && p.dec_fail == 0,
{
}

/// Of a row that is wrong the first five times its kind of fault occurs, it is
/// told what was expected and what came out; of no other one anything is told.
pub proof fn the_first_mismatches_are_told(
    report: RowReport,
    p: Parity,
    v: Vocab,
    row: Doc,
    text: Seq<char>,
    items: Seq<Doc>,
    ids: Seq<u32>,
    want: Seq<char>,
)
    requires
        tells(report, p, v, row),
        holds(row, "text"@, Doc::Str(text)),
        holds(row, "ids"@, Doc::Array(items)),
        lists_ids(items, ids),
        holds(row, "decoded"@, Doc::Str(want)),
    ensures
        report.encode is Some <==> v.encoded(text) != ids && p.enc_fail < 5,
        report.encode matches Some(m) ==> m.text@ == text && m.want@ == ids && m.got@ == v.encoded(
            text,
        ),
        report.decode is Some <==> v.decoded(ids) != want && p.dec_fail < 5,
        report.decode matches Some(m) ==> m.want@ == want && m.got@ == v.decoded(ids),
{
    rows_are_held_to_their_text_and_ids(v, row, text, items, ids, want);
    lemma_ids(row, items, ids);
    keys_are_found(row, "text"@);
    keys_are_found(row, "decoded"@);
    assert(holds(row, "text"@, Doc::Str(text)));
    assert(holds(row, "decoded"@, Doc::Str(want)));
}

/// Of an id that is too large the lowest 32 bits count, and what is no integer
/// from zero up counts as zero.
pub proof fn odd_ids_count_as_something(u: u64, doc: Doc)
    ensures
        id_in(Doc::Number(decimal(u as nat))) == u as u32,
        !(doc is Number) ==> id_in(doc) == 0,
        (forall|w: u64| doc != Doc::Number(#[trigger] decimal(w as nat))) ==> id_in(doc) == 0,
{
    lemma_u64_value(u);
}

/// A line with a row of a text and ids is counted as that row; a blank line and
/// a line that is no such row count for nothing.
pub proof fn lines_count_as_their_rows(
    p: Parity,
    v: Vocab,
    line: Seq<char>,
    row: Doc,
    text: Seq<char>,
    items: Seq<Doc>,
)
    ensures
        all_white(line) ==> counted_line(p, v, line) == p,
        parsed(line) is None ==> counted_line(p, v, line) == p,
        !all_white(line) && parsed(line) == Some(row) && holds(row, "text"@, Doc::Str(text))
            && holds(row, "ids"@, Doc::Array(items)) ==> counted_line(p, v, line) == counted(
            p,
            v,
            row,
        ),
        parsed(line) == Some(row) && (!holds_string(row, "text"@) || !holds_list(row, "ids"@))
            ==> counted_line(p, v, line) == p,
{
    keys_are_found(row, "text"@);
    keys_are_found(row, "ids"@);
    if all_white(line) {
        trimming_takes_the_white_space_around(line, Seq::empty(), Seq::empty());
        assert(line + Seq::<char>::empty() + Seq::<char>::empty() =~= line);
    } else {
        lemma_not_blank(line);
    }
    if let Some(Doc::Str(s)) = row.get("text"@) {
        assert(holds(row, "text"@, Doc::Str(s)));
    }
    if let Some(Doc::Array(list)) = row.get("ids"@) {
        assert(holds(row, "ids"@, Doc::Array(list)));
    }
}

/// A line with something else than white space is not blank.
proof fn lemma_not_blank(line: Seq<char>)
    requires
        !all_white(line),
    ensures
        trimmed(line).len() > 0,
{
    let i = choose|i: int| 0 <= i < line.len() && !is_white_space(#[trigger] line[i]);
    lemma_start(line, i);
}

proof fn lemma_start(s: Seq<char>, i: int)
    requires
        0 <= i < s.len(),
        !is_white_space(s[i]),
    ensures
        trimmed_end(trimmed_start(s)).len() > 0,
    decreases s.len(),
{
    if is_white_space(s[0]) {
        assert(s.drop_first()[i - 1] == s[i]);
        lemma_start(s.drop_first(), i - 1);
    } else {
        lemma_end(s);
    }
}

proof fn lemma_end(s: Seq<char>)
    requires
        s.len() > 0,
        !is_white_space(s[0]),
    ensures
        trimmed_end(s).len() > 0,
    decreases s.len(),
{
    if is_white_space(s.last()) {
        assert(s.drop_last()[0] == s[0]);
        lemma_end(s.drop_last());
    }
}

} // verus!
