//! What a text is encoded as, told by the pieces of the vocabulary, their types
//! and their scores.

use crate::single::greater;
use crate::text::squeezed;
use crate::tokenizer::{lemma_ids_step, lemma_last_index};
use crate::vocab::{
    byte_of, last_index, matches_at, merge_at, singles, Vocab, USER_DEFINED,
};
use vstd::prelude::*;
use vstd::utf8::*;

verus! {

/// Has every piece a type, a score and an id that fits?
pub open spec fn is_sound(v: Vocab) -> bool {
    &&& v.types.len() == v.pieces.len()
    &&& v.scores.len() == v.pieces.len()
    &&& v.pieces.len() <= 0x1_0000_0000
}

/// Is this the last piece with the text?
pub open spec fn is_piece(v: Vocab, text: Seq<char>, id: int) -> bool {
    &&& 0 <= id < v.pieces.len()
    &&& v.pieces[id] == text
    &&& forall|k: int| id < k < v.pieces.len() ==> #[trigger] v.pieces[k] != text
}

/// Has no piece the text?
pub open spec fn is_no_piece(v: Vocab, text: Seq<char>) -> bool {
    forall|k: int| 0 <= k < v.pieces.len() ==> #[trigger] v.pieces[k] != text
}

proof fn lemma_last(pieces: Seq<Seq<char>>, text: Seq<char>, k: int)
    requires
        last_index(pieces, text) matches Some(i) && i < k < pieces.len(),
    ensures
        pieces[k] != text,
    decreases pieces.len(),
{
    lemma_last_index(pieces, text);
    if pieces.last() != text && k < pieces.len() - 1 {
        lemma_last(pieces.drop_last(), text, k);
        assert(pieces.drop_last()[k] == pieces[k]);
    }
}

/// The id of a text is that of the last piece with it, and there is none where
/// no piece has it.
pub proof fn the_last_piece_of_a_text_counts(v: Vocab, text: Seq<char>, id: int)
    requires
        is_sound(v),
    ensures
        is_piece(v, text, id) ==> v.id_of(text) == Some(id as u32),
        v.id_of(text) is Some ==> is_piece(v, text, v.id_of(text)->0 as int),
        is_no_piece(v, text) <==> v.id_of(text) is None,
{
    lemma_last_index(v.pieces, text);
    if let Some(i) = last_index(v.pieces, text) {
        assert forall|k: int| i < k < v.pieces.len() implies #[trigger] v.pieces[k] != text by {
            lemma_last(v.pieces, text, k);
        }
        if is_piece(v, text, id) {
            if i < id {
                assert(v.pieces[id] != text);
            } else if id < i {
                assert(v.pieces[i] != text);
            }
        }
    }
}

/// Can the symbols at `i` and `i + 1` be merged: is what they make together the
/// text of a normal piece, this one, with a score above minus infinity?
pub open spec fn can_merge(v: Vocab, syms: Seq<Seq<char>>, i: int, id: int) -> bool {
    &&& 0 <= i < syms.len() - 1
    &&& is_piece(v, syms[i] + syms[i + 1], id)
    &&& v.types[id] == 1
    &&& greater(v.scores[id], 0xff80_0000u32)
}

proof fn lemma_can_merge(v: Vocab, syms: Seq<Seq<char>>, i: int)
    requires
        is_sound(v),
        0 <= i < syms.len() - 1,
    ensures
        v.score_at(syms, i) matches Some(x) ==> exists|id: int| #[trigger]
            can_merge(v, syms, i, id) && x == v.scores[id],
        forall|id: int| #[trigger]
            can_merge(v, syms, i, id) ==> v.score_at(syms, i) == Some(v.scores[id]),
{
    let both = syms[i] + syms[i + 1];
    the_last_piece_of_a_text_counts(v, both, 0);
    if v.score_at(syms, i) is Some {
        let id = v.id_of(both)->0 as int;
        assert(can_merge(v, syms, i, id));
    }
    assert forall|id: int| #[trigger] can_merge(v, syms, i, id) implies v.score_at(syms, i) == Some(
        v.scores[id],
    ) by {
        the_last_piece_of_a_text_counts(v, both, id);
    }
}

/// Among the first `n` pairs, does the one at `b` come first?
spec fn is_best_among(v: Vocab, syms: Seq<Seq<char>>, n: int, b: int) -> bool {
    &&& 0 <= b < n
    &&& forall|j: int| 0 <= j < n ==> #[trigger] v.comes_first(syms, b, j)
}

/// Where a pair has a score, one comes first.
proof fn lemma_best_among(v: Vocab, syms: Seq<Seq<char>>, n: int, i: int) -> (b: int)
    requires
        0 <= i < n < syms.len(),
        v.score_at(syms, i) is Some,
    ensures
        is_best_among(v, syms, n, b),
    decreases n,
{
    let last = n - 1;
    if exists|k: int| 0 <= k < last && #[trigger] v.score_at(syms, k) is Some {
        let k = choose|k: int| 0 <= k < last && #[trigger] v.score_at(syms, k) is Some;
        let b = lemma_best_among(v, syms, last, k);
        assert(v.comes_first(syms, b, b));
        let x = v.score_at(syms, b)->0;
        if v.score_at(syms, last) matches Some(y) && greater(y, x) {
            let y = v.score_at(syms, last)->0;
            assert forall|j: int| 0 <= j < n implies #[trigger] v.comes_first(syms, last, j) by {
                if j < last {
                    assert(v.comes_first(syms, b, j));
                }
            }
            last
        } else {
            assert forall|j: int| 0 <= j < n implies #[trigger] v.comes_first(syms, b, j) by {
                if j < last {
                    assert(v.comes_first(syms, b, j));
                }
            }
            b
        }
    } else {
        assert(i == last);
        assert forall|j: int| 0 <= j < n implies #[trigger] v.comes_first(syms, last, j) by {
            if j < last {
                assert(v.score_at(syms, j) is None);
            }
        }
        last
    }
}

/// Where a pair can be merged, one is the best.
proof fn lemma_best_exists(v: Vocab, syms: Seq<Seq<char>>, i: int, id: int)
    requires
        is_sound(v),
        can_merge(v, syms, i, id),
    ensures
        exists|b: int| v.is_best_pair(syms, b),
{
    lemma_can_merge(v, syms, i);
    assert(v.score_at(syms, i) == Some(v.scores[id]));
    let b = lemma_best_among(v, syms, syms.len() - 1, i);
    assert(v.is_best_pair(syms, b));
}

/// After merging, no two neighbours are left that can be merged: whatever they
/// are, what they make together is no normal piece with a score above minus
/// infinity.
pub proof fn nothing_is_left_to_merge(v: Vocab, syms: Seq<Seq<char>>, i: int, id: int)
    requires
        is_sound(v),
    ensures
        !can_merge(v, v.merged(syms), i, id),
    decreases syms.len(),
{
    if exists|b: int| v.is_best_pair(syms, b) {
        let b = choose|b: int| v.is_best_pair(syms, b);
        nothing_is_left_to_merge(v, merge_at(syms, b), i, id);
    } else if can_merge(v, syms, i, id) {
        lemma_best_exists(v, syms, i, id);
    }
}

/// Is the pair at `i` the one to merge: has no other pair that can be merged a
/// higher score, nor one further left as high a score?
pub open spec fn merges_first(v: Vocab, syms: Seq<Seq<char>>, i: int, id: int) -> bool {
    &&& can_merge(v, syms, i, id)
    &&& forall|j: int, other: int| #[trigger]
        can_merge(v, syms, j, other) ==> !greater(v.scores[other], v.scores[id]) && (j < i
            ==> greater(v.scores[id], v.scores[other]))
}

/// Merging goes on with the pair of the highest score, the leftmost of them,
/// which becomes one symbol.
pub proof fn the_highest_score_merges_first(v: Vocab, syms: Seq<Seq<char>>, i: int, id: int)
    requires
        is_sound(v),
        merges_first(v, syms, i, id),
    ensures
        v.merged(syms) == v.merged(
            syms.take(i) + seq![syms[i] + syms[i + 1]] + syms.skip(i + 2),
        ),
{
    lemma_best_exists(v, syms, i, id);
    let b = choose|b: int| v.is_best_pair(syms, b);
    assert(v.comes_first(syms, b, b));
    assert(v.comes_first(syms, b, i));
    lemma_can_merge(v, syms, b);
    lemma_can_merge(v, syms, i);
    let other = choose|other: int| #[trigger]
        can_merge(v, syms, b, other) && v.score_at(syms, b)->0 == v.scores[other];
    assert(can_merge(v, syms, b, other));
    assert(can_merge(v, syms, i, id));
    assert(b == i);
    assert(merge_at(syms, i) =~= syms.take(i) + seq![syms[i] + syms[i + 1]] + syms.skip(i + 2));
}

/// Where no pair can be merged, the symbols stay as they are.
pub proof fn without_a_pair_nothing_merges(v: Vocab, syms: Seq<Seq<char>>)
    requires
        is_sound(v),
        forall|i: int, id: int| !#[trigger] can_merge(v, syms, i, id),
    ensures
        v.merged(syms) == syms,
{
    if exists|b: int| v.is_best_pair(syms, b) {
        let b = choose|b: int| v.is_best_pair(syms, b);
        assert(v.comes_first(syms, b, b));
        lemma_can_merge(v, syms, b);
    }
}

/// Is this the last piece for the byte?
pub open spec fn is_piece_for_byte(v: Vocab, b: u8, id: int) -> bool {
    &&& 0 <= id < v.pieces.len()
    &&& v.types[id] == 6 && byte_of(v.pieces[id]) == Some(b)
    &&& forall|k: int|
        id < k < v.pieces.len() ==> !(v.types[k] == 6 && byte_of(#[trigger] v.pieces[k]) == Some(b))
}

/// Has the byte no piece?
pub open spec fn has_no_piece(v: Vocab, b: u8) -> bool {
    forall|k: int|
        0 <= k < v.pieces.len() ==> !(v.types[k] == 6 && byte_of(#[trigger] v.pieces[k]) == Some(b))
}

proof fn lemma_byte_id(v: Vocab, b: u8, n: nat)
    requires
        is_sound(v),
        n <= v.pieces.len(),
    ensures
        forall|id: int|
            #![trigger v.is_byte_piece(id, b)]
            0 <= id < n && v.is_byte_piece(id, b) && (forall|k: int|
                id < k < n ==> !#[trigger] v.is_byte_piece(k, b)) ==> v.byte_id_among(b, n)
                == id as u32,
        (forall|k: int| 0 <= k < n ==> !#[trigger] v.is_byte_piece(k, b)) ==> v.byte_id_among(b, n)
            == 3u32,
    decreases n,
{
    if n > 0 {
        let m = (n - 1) as nat;
        lemma_byte_id(v, b, m);
        assert forall|id: int|
            #![trigger v.is_byte_piece(id, b)]
            0 <= id < n && v.is_byte_piece(id, b) && (forall|k: int|
                id < k < n ==> !#[trigger] v.is_byte_piece(k, b)) implies v.byte_id_among(b, n)
            == id as u32 by {
            if id < m {
                assert(!v.is_byte_piece(m as int, b));
            }
        }
        if forall|k: int| 0 <= k < n ==> !#[trigger] v.is_byte_piece(k, b) {
            assert(!v.is_byte_piece(m as int, b));
        }
    }
}

/// A byte is encoded as the last piece for it, and as the unknown one where it
/// has none.
pub proof fn bytes_are_encoded_as_their_pieces(v: Vocab, b: u8, id: int)
    requires
        is_sound(v),
    ensures
        is_piece_for_byte(v, b, id) ==> v.byte_id(b) == id as u32,
        has_no_piece(v, b) ==> v.byte_id(b) == 3u32,
{
    let n = v.pieces.len();
    lemma_byte_id(v, b, n);
    if is_piece_for_byte(v, b, id) {
        assert forall|k: int| id < k < n implies !#[trigger] v.is_byte_piece(k, b) by {
            assert(!(v.types[k] == 6 && byte_of(v.pieces[k]) == Some(b)));
        }
        assert(v.is_byte_piece(id, b));
    }
    if has_no_piece(v, b) {
        assert forall|k: int| 0 <= k < n implies !#[trigger] v.is_byte_piece(k, b) by {
            assert(!(v.types[k] == 6 && byte_of(v.pieces[k]) == Some(b)));
        }
    }
}

/// A symbol with a piece that is not the unknown one is encoded as that piece,
/// and any other one byte by byte.
pub proof fn symbols_are_encoded_as_pieces_or_bytes(v: Vocab, sym: Seq<char>, id: int)
    requires
        is_sound(v),
    ensures
        is_piece(v, sym, id) && v.types[id] != 2 ==> v.all_ids(seq![sym]) == seq![id as u32],
        (is_piece(v, sym, id) && v.types[id] == 2) || is_no_piece(v, sym) ==> {
            let bytes = encode_utf8(sym);
            &&& v.all_ids(seq![sym]).len() == bytes.len()
            &&& forall|k: int|
                0 <= k < bytes.len() ==> #[trigger] v.all_ids(seq![sym])[k] == v.byte_id(bytes[k])
        },
{
    the_last_piece_of_a_text_counts(v, sym, id);
    let one = seq![sym];
    assert(one.drop_last() =~= Seq::empty());
    assert(v.all_ids(Seq::empty()) == Seq::<u32>::empty());
    assert(v.all_ids(one) =~= v.symbol_ids(sym));
}

/// Symbols are encoded one after the other.
pub proof fn symbols_are_encoded_in_order(v: Vocab, a: Seq<Seq<char>>, b: Seq<Seq<char>>)
    ensures
        v.all_ids(a + b) == v.all_ids(a) + v.all_ids(b),
    decreases b.len(),
{
    if b.len() == 0 {
        assert(a + b =~= a);
        assert(v.all_ids(a) + v.all_ids(b) =~= v.all_ids(a));
    } else {
        assert((a + b).drop_last() =~= a + b.drop_last());
        symbols_are_encoded_in_order(v, a, b.drop_last());
        assert(v.all_ids(a + b) =~= v.all_ids(a) + v.all_ids(b));
    }
}

/// A text without user-defined symbols is encoded as what is left after merging
/// its characters.
pub proof fn segments_are_merged_from_characters(v: Vocab, s: Seq<char>)
    ensures
        v.segment_ids(s) == v.all_ids(v.merged(Seq::new(s.len(), |i: int| seq![s[i]]))),
{
    assert(singles(s) =~= Seq::new(s.len(), |i: int| seq![s[i]]));
}

/// Does the text stand there?
pub open spec fn stands_at(s: Seq<char>, p: int, text: Seq<char>) -> bool {
    &&& 0 <= p && p + text.len() <= s.len()
    &&& forall|i: int| 0 <= i < text.len() ==> #[trigger] text[i] == s[p + i]
}

/// Is the piece a user-defined symbol?
pub open spec fn is_user_defined(v: Vocab, k: int) -> bool {
    0 <= k < v.pieces.len() && v.types[k] == 4 && v.pieces[k].len() > 0
}

proof fn lemma_stands(s: Seq<char>, p: int, text: Seq<char>)
    ensures
        stands_at(s, p, text) <==> matches_at(s, p, text),
{
    if stands_at(s, p, text) {
        assert(s.subrange(p, p + text.len()) =~= text);
    }
    if matches_at(s, p, text) {
        assert forall|i: int| 0 <= i < text.len() implies #[trigger] text[i] == s[p + i] by {
            assert(s.subrange(p, p + text.len())[i] == s[p + i]);
        }
    }
}

/// A user-defined symbol is never taken apart: the first one in the text, the
/// longest of those that start there, is one id, with the ids of what is before
/// it in front and those of what is after it behind.
pub proof fn symbols_stay_whole(v: Vocab, s: Seq<char>, p: int, k: int, id: int)
    requires
        is_sound(v),
        is_user_defined(v, k),
        stands_at(s, p, v.pieces[k]),
        forall|q: int, m: int|
            is_user_defined(v, m) && #[trigger] stands_at(s, q, v.pieces[m]) ==> p < q || (p == q
                && v.pieces[m].len() <= v.pieces[k].len()),
        is_piece(v, v.pieces[k], id),
    ensures
        v.normalized_ids(s) == v.segment_ids(s.take(p)) + seq![id as u32] + v.normalized_ids(
            s.skip(p + v.pieces[k].len()),
        ),
{
    let sym = v.pieces[k];
    the_last_piece_of_a_text_counts(v, sym, id);
    assert(v.is_symbol(sym));
    lemma_stands(s, p, sym);
    assert forall|q: int, t: Seq<char>|
        #![trigger matches_at(s, q, t)]
        v.is_symbol(t) && matches_at(s, q, t) implies p < q || (p == q && t.len() <= sym.len()) by {
        let m = choose|m: int|
            0 <= m < v.pieces.len() && v.types[m] == USER_DEFINED && #[trigger] v.pieces[m] == t;
        lemma_stands(s, q, t);
        assert(is_user_defined(v, m));
        assert(stands_at(s, q, v.pieces[m]));
    }
    assert(v.is_next_symbol(s, p, sym));
    let (q, t) = choose|q: int, t: Seq<char>| v.is_next_symbol(s, q, t);
    assert(v.is_next_symbol(s, q, t));
    assert(matches_at(s, q, t) && matches_at(s, p, sym));
    assert(q == p && t == sym) by {
        assert(t.len() == sym.len());
        assert(s.subrange(p, p + sym.len()) == sym);
    }
    lemma_ids_step(v, s, p, sym);
}

/// A text without user-defined symbols is merged as a whole.
pub proof fn without_symbols_all_is_merged(v: Vocab, s: Seq<char>)
    requires
        is_sound(v),
        forall|q: int, m: int| is_user_defined(v, m) ==> !#[trigger] stands_at(s, q, v.pieces[m]),
    ensures
        v.normalized_ids(s) == v.segment_ids(s),
{
    assert forall|q: int, t: Seq<char>| !v.is_next_symbol(s, q, t) by {
        if v.is_next_symbol(s, q, t) {
            let m = choose|m: int|
                0 <= m < v.pieces.len() && v.types[m] == USER_DEFINED && #[trigger] v.pieces[m]
                    == t;
            lemma_stands(s, q, t);
            assert(is_user_defined(v, m));
            assert(stands_at(s, q, v.pieces[m]));
        }
    }
}

/// What is encoded is the text with its spaces tidied up, where that is wanted,
/// and with a space mark for each space; where one is wanted in front, there is
/// one in front of any text that is not empty.
pub proof fn spaces_become_marks(v: Vocab, text: Seq<char>, i: int)
    ensures
        ({
            let s = if v.remove_extra_whitespaces {
                squeezed(text, ' ')
            } else {
                text
            };
            let n = v.normalized(text);
            let front: int = if v.add_dummy_prefix && s.len() > 0 {
                1
            } else {
                0
            };
            &&& v.encoded(text) == v.normalized_ids(n)
            &&& n.len() == s.len() + front
            &&& front == 1 ==> n[0] == '\u{2581}'
            &&& 0 <= i < s.len() && s[i] == ' ' ==> n[front + i] == '\u{2581}'
            &&& 0 <= i < s.len() && s[i] != ' ' ==> n[front + i] == s[i]
        }),
{
}

/// No text, and where spaces are tidied up no text but spaces, is no ids.
pub proof fn nothing_is_encoded_as_nothing(v: Vocab, text: Seq<char>)
    requires
        is_sound(v),
        text.len() == 0 || (v.remove_extra_whitespaces && forall|i: int|
            0 <= i < text.len() ==> #[trigger] text[i] == ' '),
    ensures
        v.encoded(text).len() == 0,
{
    let s = if v.remove_extra_whitespaces {
        squeezed(text, ' ')
    } else {
        text
    };
    assert(s.len() == 0) by {
        if v.remove_extra_whitespaces {
            lemma_only_spaces(text);
        }
    }
    let n = v.normalized(text);
    assert(n.len() == 0);
    assert forall|q: int, m: int| is_user_defined(v, m) implies !#[trigger] stands_at(
        n,
        q,
        v.pieces[m],
    ) by {}
    without_symbols_all_is_merged(v, n);
    let syms = singles(n);
    without_a_pair_nothing_merges(v, syms);
}

proof fn lemma_only_spaces(s: Seq<char>)
    requires
        forall|i: int| 0 <= i < s.len() ==> #[trigger] s[i] == ' ',
    ensures
        squeezed(s, ' ').len() == 0,
    decreases s.len(),
{
    if s.len() > 0 {
        let t = s.drop_last();
        assert forall|i: int| 0 <= i < t.len() implies #[trigger] t[i] == ' ' by {
            assert(s[i] == ' ');
        }
        lemma_only_spaces(t);
        assert(s[s.len() - 1] == ' ');
    }
}

} // verus!
