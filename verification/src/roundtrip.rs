//! What decoding gives back of what was encoded.

use crate::text::{lemma_squeezed_idempotent, lemma_squeezed_is_squeezed, squeezed};
use crate::tokenizer::{lemma_ids_step, lemma_last_index};
use crate::vocab::{
    byte_of, escaped, flushed, merge_at, singles, unescaped, without_leading_spaces, Vocab, BYTE,
    CONTROL, NORMAL, SPACE_MARK, UNKNOWN, USER_DEFINED,
};
use vstd::prelude::*;
use vstd::utf8::*;

verus! {

/// Can the vocabulary spell any text? There is a piece for every byte and for
/// the space mark; what stands for a single character or for a user-defined
/// symbol is shown; and all ids fit.
pub open spec fn can_spell(v: Vocab) -> bool {
    &&& v.wf()
    &&& v.pieces.len() <= 0x1_0000_0000
    &&& forall|b: u8| #[trigger]
        v.byte_id(b) < v.pieces.len() && v.is_byte_piece(v.byte_id(b) as int, b)
    &&& forall|c: char|
        (#[trigger] v.id_of(seq![c]) matches Some(id) ==> v.types[id as int] != CONTROL
            && v.types[id as int] != BYTE)
    &&& v.id_of(seq![SPACE_MARK]) matches Some(id) && v.types[id as int] != UNKNOWN
    &&& forall|sym: Seq<char>| #[trigger] v.is_symbol(sym) ==> v.is_shown(v.id_of(sym)->0)
}

/// The symbols one after the other.
spec fn concat(syms: Seq<Seq<char>>) -> Seq<char>
    decreases syms.len(),
{
    if syms.len() == 0 {
        Seq::empty()
    } else {
        concat(syms.drop_last()) + syms.last()
    }
}

/// Is the symbol a single character, or the text of a normal piece?
spec fn is_unit(v: Vocab, sym: Seq<char>) -> bool {
    sym.len() == 1 || (v.id_of(sym) matches Some(id) && v.types[id as int] == NORMAL)
}

/// Do the ids decode to the text, whatever text was collected as bytes before?
spec fn spells(v: Vocab, ids: Seq<u32>, t: Seq<char>) -> bool {
    forall|p: Seq<char>| #[trigger] v.decoded_after(encode_utf8(p), ids) == p + unescaped(t)
}

/// Encoding one text after another is encoding them joined.
proof fn lemma_encode_joined(a: Seq<char>, b: Seq<char>)
    ensures
        encode_utf8(a + b) == encode_utf8(a) + encode_utf8(b),
    decreases a.len(),
{
    if a.len() == 0 {
        assert(a + b =~= b);
        assert(encode_utf8(a) + encode_utf8(b) =~= encode_utf8(b));
    } else {
        assert((a + b).drop_first() =~= a.drop_first() + b);
        lemma_encode_joined(a.drop_first(), b);
        assert(encode_utf8(a + b) =~= encode_utf8(a) + encode_utf8(b));
    }
}

/// Collected bytes of a text are flushed as the text.
pub proof fn lemma_flushed(p: Seq<char>)
    ensures
        flushed(encode_utf8(p)) == p,
{
    encode_utf8_valid_utf8(p);
    encode_utf8_decode_utf8(p);
    if encode_utf8(p).len() == 0 && p.len() > 0 {
        encode_utf8_first_scalar(p);
    }
    if p.len() == 0 {
        assert(p =~= Seq::empty());
    }
}

proof fn lemma_unescaped_joined(a: Seq<char>, b: Seq<char>)
    ensures
        unescaped(a + b) == unescaped(a) + unescaped(b),
{
    assert(unescaped(a + b) =~= unescaped(a) + unescaped(b));
}

/// No ids spell no text.
proof fn lemma_nothing_spelled(v: Vocab)
    ensures
        spells(v, Seq::empty(), Seq::empty()),
{
    assert forall|p: Seq<char>| #[trigger]
        v.decoded_after(encode_utf8(p), Seq::empty()) == p + unescaped(Seq::empty()) by {
        lemma_flushed(p);
        assert(p + unescaped(Seq::empty()) =~= p);
    }
}

/// One shown piece in front.
proof fn lemma_shown_spelled(v: Vocab, id: u32, rest: Seq<u32>, t: Seq<char>)
    requires
        v.is_shown(id),
        spells(v, rest, t),
    ensures
        spells(v, seq![id] + rest, v.pieces[id as int] + t),
{
    let piece = v.pieces[id as int];
    let ids = seq![id] + rest;
    assert(ids.drop_first() =~= rest);
    lemma_unescaped_joined(piece, t);
    assert(encode_utf8(Seq::empty()) =~= Seq::empty());
    assert(v.decoded_after(encode_utf8(Seq::empty()), rest) == Seq::<char>::empty() + unescaped(t));
    assert(Seq::<char>::empty() + unescaped(t) =~= unescaped(t));
    assert forall|p: Seq<char>| #[trigger]
        v.decoded_after(encode_utf8(p), ids) == p + unescaped(piece + t) by {
        lemma_flushed(p);
        assert(p + unescaped(piece) + unescaped(t) =~= p + (unescaped(piece) + unescaped(t)));
    }
}

/// The ids of bytes in front: the bytes are collected.
proof fn lemma_bytes_collected(v: Vocab, pending: Seq<u8>, bytes: Seq<u8>, rest: Seq<u32>)
    requires
        can_spell(v),
    ensures
        v.decoded_after(pending, bytes.map_values(|b: u8| v.byte_id(b)) + rest) == v.decoded_after(
            pending + bytes,
            rest,
        ),
    decreases bytes.len(),
{
    let ids = bytes.map_values(|b: u8| v.byte_id(b));
    if bytes.len() == 0 {
        assert(ids + rest =~= rest);
        assert(pending + bytes =~= pending);
    } else {
        let b = bytes[0];
        let tail = bytes.drop_first();
        let id = v.byte_id(b);
        assert(v.is_byte_piece(id as int, b));
        assert((ids + rest)[0] == id);
        assert((ids + rest).drop_first() =~= tail.map_values(|b: u8| v.byte_id(b)) + rest);
        assert(v.byte_text(id) =~= seq![b]);
        lemma_bytes_collected(v, pending + seq![b], tail, rest);
        assert((pending + seq![b]) + tail =~= pending + bytes);
    }
}

/// One unit in front.
proof fn lemma_unit_spelled(v: Vocab, sym: Seq<char>, rest: Seq<u32>, t: Seq<char>)
    requires
        can_spell(v),
        is_unit(v, sym),
        spells(v, rest, t),
    ensures
        spells(v, v.symbol_ids(sym) + rest, sym + t),
{
    lemma_last_index(v.pieces, sym);
    let own = v.id_of(sym) matches Some(id) && v.types[id as int] != UNKNOWN;
    if sym.len() == 1 {
        assert(sym =~= seq![sym[0]]);
    }
    if own {
        let id = v.id_of(sym)->0;
        assert(v.is_shown(id));
        lemma_shown_spelled(v, id, rest, t);
    } else {
        assert(sym.len() == 1);
        let c = sym[0];
        assert(sym == seq![c]);
        assert(c != SPACE_MARK);
        let bytes = encode_utf8(sym);
        assert(unescaped(sym) =~= sym);
        lemma_unescaped_joined(sym, t);
        assert forall|p: Seq<char>| #[trigger]
            v.decoded_after(encode_utf8(p), v.symbol_ids(sym) + rest) == p + unescaped(sym + t) by {
            lemma_bytes_collected(v, encode_utf8(p), bytes, rest);
            lemma_encode_joined(p, sym);
            assert(v.decoded_after(encode_utf8(p + sym), rest) == (p + sym) + unescaped(t));
            assert((p + sym) + unescaped(t) =~= p + (sym + unescaped(t)));
        }
    }
}

/// Units in front.
proof fn lemma_units_spelled(v: Vocab, syms: Seq<Seq<char>>, rest: Seq<u32>, t: Seq<char>)
    requires
        can_spell(v),
        forall|i: int| 0 <= i < syms.len() ==> is_unit(v, #[trigger] syms[i]),
        spells(v, rest, t),
    ensures
        spells(v, v.all_ids(syms) + rest, concat(syms) + t),
    decreases syms.len(),
{
    if syms.len() == 0 {
        assert(v.all_ids(syms) + rest =~= rest);
        assert(concat(syms) + t =~= t);
    } else {
        let head = syms.drop_last();
        let last = syms.last();
        assert(is_unit(v, syms[syms.len() - 1]));
        assert forall|i: int| 0 <= i < head.len() implies is_unit(v, #[trigger] head[i]) by {
            assert(is_unit(v, syms[i]));
        }
        lemma_unit_spelled(v, last, rest, t);
        lemma_units_spelled(v, head, v.symbol_ids(last) + rest, last + t);
        assert(v.all_ids(head) + (v.symbol_ids(last) + rest) =~= v.all_ids(syms) + rest);
        assert(concat(head) + (last + t) =~= concat(syms) + t);
    }
}

proof fn lemma_concat_joined(a: Seq<Seq<char>>, b: Seq<Seq<char>>)
    ensures
        concat(a + b) == concat(a) + concat(b),
    decreases b.len(),
{
    if b.len() == 0 {
        assert(a + b =~= a);
        assert(concat(a) + concat(b) =~= concat(a));
    } else {
        assert((a + b).drop_last() =~= a + b.drop_last());
        lemma_concat_joined(a, b.drop_last());
        assert(concat(a + b) =~= concat(a) + concat(b));
    }
}

/// Merging two neighbours keeps what the symbols are together.
proof fn lemma_merge_keeps_text(syms: Seq<Seq<char>>, i: int)
    requires
        0 <= i < syms.len() - 1,
    ensures
        concat(merge_at(syms, i)) == concat(syms),
{
    let a = syms.take(i);
    let b = syms.skip(i + 2);
    let pair = seq![syms[i], syms[i + 1]];
    let one = seq![syms[i] + syms[i + 1]];
    assert(syms =~= a + pair + b);
    assert(merge_at(syms, i) =~= a + one + b);
    lemma_concat_joined(a + pair, b);
    lemma_concat_joined(a, pair);
    lemma_concat_joined(a + one, b);
    lemma_concat_joined(a, one);
    assert(pair.drop_last() =~= seq![syms[i]]);
    assert(seq![syms[i]].drop_last() =~= Seq::empty());
    assert(one.drop_last() =~= Seq::empty());
    assert(concat(Seq::<Seq<char>>::empty()) == Seq::<char>::empty());
    assert(concat(seq![syms[i]]) =~= syms[i]);
    assert(concat(pair) =~= syms[i] + syms[i + 1]);
    assert(concat(one) =~= syms[i] + syms[i + 1]);
}

/// Merging keeps what the symbols are together, and leaves units.
proof fn lemma_merged_keeps_text(v: Vocab, syms: Seq<Seq<char>>)
    requires
        forall|i: int| 0 <= i < syms.len() ==> is_unit(v, #[trigger] syms[i]),
    ensures
        concat(v.merged(syms)) == concat(syms),
        forall|i: int| 0 <= i < v.merged(syms).len() ==> is_unit(v, #[trigger] v.merged(syms)[i]),
    decreases syms.len(),
{
    if exists|i: int| v.is_best_pair(syms, i) {
        let i = choose|i: int| v.is_best_pair(syms, i);
        let next = merge_at(syms, i);
        assert forall|j: int| 0 <= j < next.len() implies is_unit(v, #[trigger] next[j]) by {
            if j < i {
                assert(next[j] == syms[j]);
            } else if j > i {
                assert(next[j] == syms[j + 1]);
            } else {
                assert(next[i] == syms[i] + syms[i + 1]);
                assert(v.comes_first(syms, i, i));
            }
        }
        lemma_merge_keeps_text(syms, i);
        lemma_merged_keeps_text(v, next);
    }
}

proof fn lemma_concat_singles(s: Seq<char>)
    ensures
        concat(singles(s)) == s,
    decreases s.len(),
{
    if s.len() > 0 {
        lemma_concat_singles(s.drop_last());
        assert(singles(s).drop_last() =~= singles(s.drop_last()));
        assert(concat(singles(s)) =~= s);
    } else {
        assert(s =~= Seq::empty());
    }
}

/// A text without user-defined symbols in front.
proof fn lemma_segment_spelled(v: Vocab, s: Seq<char>, rest: Seq<u32>, t: Seq<char>)
    requires
        can_spell(v),
        spells(v, rest, t),
    ensures
        spells(v, v.segment_ids(s) + rest, s + t),
{
    let syms = singles(s);
    assert forall|i: int| 0 <= i < syms.len() implies is_unit(v, #[trigger] syms[i]) by {
        assert(syms[i] == seq![s[i]]);
    }
    lemma_merged_keeps_text(v, syms);
    lemma_concat_singles(s);
    lemma_units_spelled(v, v.merged(syms), rest, t);
}

/// A user-defined symbol in front.
proof fn lemma_symbol_spelled(v: Vocab, sym: Seq<char>, rest: Seq<u32>, t: Seq<char>)
    requires
        can_spell(v),
        v.is_symbol(sym),
        spells(v, rest, t),
    ensures
        spells(v, seq![v.id_of(sym)->0] + rest, sym + t),
{
    let id = v.id_of(sym)->0;
    let k = choose|k: int|
        0 <= k < v.pieces.len() && v.types[k] == USER_DEFINED && #[trigger] v.pieces[k] == sym;
    lemma_last_index(v.pieces, sym);
    assert(v.pieces[k] == sym);
    assert(v.pieces[id as int] == sym);
    lemma_shown_spelled(v, id, rest, t);
}

/// The ids of a normalized text spell it.
proof fn lemma_normalized_spelled(v: Vocab, s: Seq<char>)
    requires
        can_spell(v),
    ensures
        spells(v, v.normalized_ids(s), s),
    decreases s.len(),
{
    lemma_nothing_spelled(v);
    if let Some((p, sym)) = v.next_symbol(s) {
        assert(v.is_next_symbol(s, p, sym));
        let rest = s.skip(p + sym.len());
        let ids = v.normalized_ids(rest);
        lemma_normalized_spelled(v, rest);
        lemma_symbol_spelled(v, sym, ids, rest);
        lemma_segment_spelled(v, s.take(p), seq![v.id_of(sym)->0] + ids, sym + rest);
        lemma_ids_step(v, s, p, sym);
        assert(v.segment_ids(s.take(p)) + (seq![v.id_of(sym)->0] + ids) =~= v.normalized_ids(s));
        assert(s.take(p) + (sym + rest) =~= s) by {
            assert(s.subrange(p, p + sym.len()) == sym);
        }
    } else {
        lemma_segment_spelled(v, s, Seq::empty(), Seq::empty());
        assert(v.segment_ids(s) + Seq::<u32>::empty() =~= v.segment_ids(s));
        assert(s + Seq::<char>::empty() =~= s);
    }
}

/// The text as the vocabulary keeps it: its spaces tidied up, or only those in
/// front dropped.
pub open spec fn kept_text(v: Vocab, text: Seq<char>) -> Seq<char> {
    if v.remove_extra_whitespaces {
        squeezed(text, ' ')
    } else {
        without_leading_spaces(text)
    }
}

/// Decoding gives back the text that was encoded, with its spaces tidied up:
/// of any text without a space mark, with any vocabulary that can spell.
pub proof fn decoding_gives_back_the_text(v: Vocab, text: Seq<char>)
    requires
        can_spell(v),
        !text.contains(SPACE_MARK),
    ensures
        v.decoded(v.encoded(text)) == kept_text(v, text),
{
    let s = if v.remove_extra_whitespaces {
        squeezed(text, ' ')
    } else {
        text
    };
    let n = v.normalized(text);
    lemma_normalized_spelled(v, n);
    assert(encode_utf8(Seq::empty()) =~= Seq::empty());
    assert(v.decoded_after(encode_utf8(Seq::empty()), v.normalized_ids(n)) == Seq::<char>::empty()
        + unescaped(n));
    assert(Seq::<char>::empty() + unescaped(n) =~= unescaped(n));
    assert(!s.contains(SPACE_MARK)) by {
        if v.remove_extra_whitespaces {
            lemma_squeezed_no_mark(text);
        }
    }
    assert(unescaped(escaped(s)) =~= s) by {
        assert forall|i: int| 0 <= i < s.len() implies unescaped(escaped(s))[i] == s[i] by {
            assert(s.contains(s[i]));
        }
    }
    if v.add_dummy_prefix && s.len() > 0 {
        lemma_unescaped_joined(seq![SPACE_MARK], escaped(s));
        assert(unescaped(seq![SPACE_MARK]) =~= seq![' ']);
        assert((seq![' '] + s).drop_first() =~= s);
        assert(without_leading_spaces(seq![' '] + s) == without_leading_spaces(s));
    }
    if v.remove_extra_whitespaces {
        lemma_squeezed_is_squeezed(text, ' ');
        assert(without_leading_spaces(s) == s);
    }
}

proof fn lemma_squeezed_no_mark(text: Seq<char>)
    requires
        !text.contains(SPACE_MARK),
    ensures
        !squeezed(text, ' ').contains(SPACE_MARK),
    decreases text.len(),
{
    if text.len() > 0 {
        let head = text.drop_last();
        assert(!head.contains(SPACE_MARK)) by {
            if head.contains(SPACE_MARK) {
                let i = choose|i: int| 0 <= i < head.len() && head[i] == SPACE_MARK;
                assert(text[i] == SPACE_MARK);
            }
        }
        lemma_squeezed_no_mark(head);
        let before = squeezed(head, ' ');
        let after = squeezed(text, ' ');
        assert(text.contains(text[text.len() - 1]));
        if after.contains(SPACE_MARK) {
            let i = choose|i: int| 0 <= i < after.len() && after[i] == SPACE_MARK;
            if i < before.len() {
                assert(before[i] == after[i]);
                assert(before.contains(SPACE_MARK));
            }
        }
    }
}

/// Where extra white space is removed, encoding what was decoded gives the
/// same ids again.
pub proof fn encoding_again_gives_the_same_ids(v: Vocab, text: Seq<char>)
    requires
        can_spell(v),
        v.remove_extra_whitespaces,
        !text.contains(SPACE_MARK),
    ensures
        v.encoded(v.decoded(v.encoded(text))) == v.encoded(text),
{
    decoding_gives_back_the_text(v, text);
    lemma_squeezed_idempotent(text, ' ');
}

/// Where extra white space is removed it does not count: text is encoded as it
/// is with its spaces tidied up.
pub proof fn extra_spaces_do_not_count(v: Vocab, text: Seq<char>)
    requires
        v.remove_extra_whitespaces,
    ensures
        v.encoded(squeezed(text, ' ')) == v.encoded(text),
{
    lemma_squeezed_idempotent(text, ' ');
}

/// Is there nothing to show for the id: no piece, or a control or unknown one?
pub open spec fn is_hidden(v: Vocab, id: u32) -> bool {
    id >= v.pieces.len() || v.types[id as int] == CONTROL || v.types[id as int] == UNKNOWN
}

/// The ids that are not hidden.
pub open spec fn visible_ids(v: Vocab, ids: Seq<u32>) -> Seq<u32>
    decreases ids.len(),
{
    if ids.len() == 0 {
        Seq::empty()
    } else if is_hidden(v, ids[0]) {
        visible_ids(v, ids.drop_first())
    } else {
        seq![ids[0]] + visible_ids(v, ids.drop_first())
    }
}

proof fn lemma_hidden_ids(v: Vocab, pending: Seq<u8>, ids: Seq<u32>)
    ensures
        v.decoded_after(pending, visible_ids(v, ids)) == v.decoded_after(pending, ids),
    decreases ids.len(),
{
    if ids.len() > 0 {
        let rest = ids.drop_first();
        let seen = visible_ids(v, rest);
        if is_hidden(v, ids[0]) {
            lemma_hidden_ids(v, pending, rest);
        } else {
            assert((seq![ids[0]] + seen).drop_first() =~= seen);
            if v.is_shown(ids[0]) {
                lemma_hidden_ids(v, Seq::empty(), rest);
            } else {
                lemma_hidden_ids(v, pending + v.byte_text(ids[0]), rest);
            }
        }
    }
}

/// Control pieces, unknown ones and ids without a piece leave no trace in
/// decoded text.
pub proof fn hidden_ids_leave_no_trace(v: Vocab, ids: Seq<u32>)
    ensures
        v.decoded(visible_ids(v, ids)) == v.decoded(ids),
{
    lemma_hidden_ids(v, Seq::empty(), ids);
}

/// Decoded text never starts with a space.
pub proof fn decoded_text_starts_without_space(v: Vocab, ids: Seq<u32>)
    ensures
        v.decoded(ids).len() > 0 ==> v.decoded(ids)[0] != ' ',
{
    lemma_no_leading_space(v.decoded_after(Seq::empty(), ids));
}

proof fn lemma_no_leading_space(s: Seq<char>)
    ensures
        without_leading_spaces(s).len() > 0 ==> without_leading_spaces(s)[0] != ' ',
    decreases s.len(),
{
    if s.len() > 0 && s[0] == ' ' {
        lemma_no_leading_space(s.drop_first());
    }
}

/// The visible texts of the ids, one after the other.
pub open spec fn visible_text(v: Vocab, ids: Seq<u32>) -> Seq<char>
    decreases ids.len(),
{
    if ids.len() == 0 {
        Seq::empty()
    } else {
        v.visible(ids[0]) + visible_text(v, ids.drop_first())
    }
}

/// Is the id none of a byte beyond ASCII?
pub open spec fn is_no_high_byte(v: Vocab, id: u32) -> bool {
    id < v.pieces.len() && v.types[id as int] == BYTE ==> (byte_of(v.pieces[id as int]) matches Some(
        b,
    ) ==> b < 0x80)
}

/// Each byte as the character of its value.
spec fn as_chars(bytes: Seq<u8>) -> Seq<char> {
    bytes.map_values(|b: u8| b as char)
}

/// ASCII bytes are the encoding of the characters of their values.
proof fn lemma_ascii_encoded(bytes: Seq<u8>)
    requires
        forall|i: int| 0 <= i < bytes.len() ==> #[trigger] bytes[i] < 0x80,
    ensures
        encode_utf8(as_chars(bytes)) == bytes,
    decreases bytes.len(),
{
    let chars = as_chars(bytes);
    if bytes.len() > 0 {
        let b = bytes[0];
        let rest = bytes.drop_first();
        assert forall|i: int| 0 <= i < rest.len() implies #[trigger] rest[i] < 0x80 by {
            assert(bytes[i + 1] < 0x80);
        }
        lemma_ascii_encoded(rest);
        assert(chars.drop_first() =~= as_chars(rest));
        let u = chars[0] as u32;
        assert(u == b as u32);
        assert((u & 0x7F) as u8 == b) by (bit_vector)
            requires
                u == b as u32,
                b < 0x80,
        ;
        assert(encode_utf8(chars) =~= seq![b] + rest);
        assert(bytes =~= seq![b] + rest);
    } else {
        assert(encode_utf8(chars) =~= bytes);
    }
}

proof fn lemma_visible(v: Vocab, pending: Seq<u8>, ids: Seq<u32>)
    requires
        forall|i: int| 0 <= i < pending.len() ==> #[trigger] pending[i] < 0x80,
        forall|i: int| 0 <= i < ids.len() ==> is_no_high_byte(v, #[trigger] ids[i]),
    ensures
        v.decoded_after(pending, ids) == as_chars(pending) + visible_text(v, ids),
    decreases ids.len(),
{
    lemma_ascii_encoded(pending);
    lemma_flushed(as_chars(pending));
    if ids.len() == 0 {
        assert(as_chars(pending) + visible_text(v, ids) =~= as_chars(pending));
    } else {
        let id = ids[0];
        let rest = ids.drop_first();
        let seen = visible_text(v, rest);
        assert(is_no_high_byte(v, id));
        assert forall|i: int| 0 <= i < rest.len() implies is_no_high_byte(v, #[trigger] rest[i]) by {
            assert(is_no_high_byte(v, ids[i + 1]));
        }
        if v.is_shown(id) {
            lemma_visible(v, Seq::empty(), rest);
            assert(as_chars(Seq::empty()) + seen =~= seen);
            assert(as_chars(pending) + v.visible(id) + seen =~= as_chars(pending) + (v.visible(id)
                + seen));
        } else if id < v.pieces.len() && v.types[id as int] == BYTE {
            let more = pending + v.byte_text(id);
            lemma_visible(v, more, rest);
            assert(as_chars(more) =~= as_chars(pending) + v.visible(id));
            assert(as_chars(more) + seen =~= as_chars(pending) + (v.visible(id) + seen));
        } else {
            lemma_visible(v, pending, rest);
            assert(v.visible(id) + seen =~= seen);
        }
    }
}

/// What is followed token by token is what is decoded: without the bytes beyond
/// ASCII, which are shown one by one, the visible texts of the ids are the
/// decoded text, but for the spaces in front.
pub proof fn visible_text_is_decoded(v: Vocab, ids: Seq<u32>)
    requires
        forall|i: int| 0 <= i < ids.len() ==> is_no_high_byte(v, #[trigger] ids[i]),
    ensures
        v.decoded(ids) == without_leading_spaces(visible_text(v, ids)),
{
    lemma_visible(v, Seq::empty(), ids);
    assert(as_chars(Seq::empty()) + visible_text(v, ids) =~= visible_text(v, ids));
}

} // verus!
