//! A SentencePiece tokenizer with byte-pair merging and byte fallback.

use crate::single::{greater, gt, is_nan, NEG_INFINITY};
use crate::text::{chars_of, from_utf8_lossy, squeeze, string_of};
use crate::vocab::{
    byte_of, escaped, flushed, last_index, matches_at, merge_at, singles, unescaped,
    without_leading_spaces, Vocab, BYTE, CONTROL, NORMAL, SPACE_MARK, UNKNOWN, UNK_ID,
    USER_DEFINED,
};
use vstd::hash_map::StringHashMap;
use vstd::prelude::*;
use vstd::utf8::*;

verus! {

/// A tokenizer for one vocabulary.
pub struct Tokenizer {
    /// The id of each text.
    piece_to_id: StringHashMap<u32>,
    /// The text of each piece, space marks and all.
    pieces: Vec<Vec<char>>,
    types: Vec<u8>,
    /// The merge scores, as single-precision patterns.
    scores: Vec<u32>,
    /// The byte of each byte piece.
    bytes: Vec<u8>,
    /// The id of the piece for each byte.
    byte_ids: Vec<u32>,
    /// The texts of the user-defined pieces.
    user_defined: Vec<Vec<char>>,
    add_dummy_prefix: bool,
    remove_extra_whitespaces: bool,
}

/// One piece of a vocabulary; `byte` is that of a byte piece.
pub struct Piece {
    pub text: String,
    pub kind: u8,
    pub score: u32,
    pub byte: u8,
}

/// The vocabulary of these pieces.
pub open spec fn vocab_of(pieces: Seq<Piece>, prefix: bool, tidy: bool) -> Vocab {
    Vocab {
        pieces: pieces.map_values(|p: Piece| p.text@),
        types: pieces.map_values(|p: Piece| p.kind),
        scores: pieces.map_values(|p: Piece| p.score),
        add_dummy_prefix: prefix,
        remove_extra_whitespaces: tidy,
    }
}

/// The characters of each buffer of `v`.
pub open spec fn rows(v: Seq<Vec<char>>) -> Seq<Seq<char>> {
    v.map_values(|r: Vec<char>| r@)
}

impl View for Tokenizer {
    type V = Vocab;

    closed spec fn view(&self) -> Vocab {
        Vocab {
            pieces: rows(self.pieces@),
            types: self.types@,
            scores: self.scores@,
            add_dummy_prefix: self.add_dummy_prefix,
            remove_extra_whitespaces: self.remove_extra_whitespaces,
        }
    }
}

/// Does the index hold the last id of each text, and no other text?
spec fn indexes(index: Map<Seq<char>, u32>, pieces: Seq<Seq<char>>) -> bool {
    forall|text: Seq<char>|
        match last_index(pieces, text) {
            Some(i) => #[trigger] index.contains_key(text) && index[text] == i as u32,
            None => !index.contains_key(text),
        }
}

/// One more piece.
proof fn lemma_indexes_one_more(
    index: Map<Seq<char>, u32>,
    pieces: Seq<Seq<char>>,
    text: Seq<char>,
)
    requires
        indexes(index, pieces),
    ensures
        indexes(index.insert(text, pieces.len() as u32), pieces.push(text)),
{
    let longer = pieces.push(text);
    let after = index.insert(text, pieces.len() as u32);
    assert(longer.drop_last() =~= pieces);
    assert forall|t: Seq<char>|
        match last_index(longer, t) {
            Some(i) => #[trigger] after.contains_key(t) && after[t] == i as u32,
            None => !after.contains_key(t),
        } by {
        if t != text {
            assert(last_index(longer, t) == last_index(pieces, t));
            assert(after.contains_key(t) == index.contains_key(t));
        }
    }
}

/// Are these the texts of the user-defined pieces of `v`?
spec fn lists_symbols(list: Seq<Vec<char>>, v: Vocab) -> bool {
    &&& forall|k: int| 0 <= k < list.len() ==> v.is_symbol(#[trigger] list[k]@)
    &&& forall|sym: Seq<char>| #[trigger]
        v.is_symbol(sym) ==> exists|k: int| 0 <= k < list.len() && #[trigger] list[k]@ == sym
}

/// The last index of a text is one of it.
pub proof fn lemma_last_index(pieces: Seq<Seq<char>>, text: Seq<char>)
    ensures
        match last_index(pieces, text) {
            Some(i) => 0 <= i < pieces.len() && pieces[i] == text,
            None => forall|i: int| 0 <= i < pieces.len() ==> #[trigger] pieces[i] != text,
        },
    decreases pieces.len(),
{
    if pieces.len() > 0 && pieces.last() != text {
        lemma_last_index(pieces.drop_last(), text);
        if last_index(pieces.drop_last(), text) is None {
            assert forall|i: int| 0 <= i < pieces.len() implies #[trigger] pieces[i] != text by {
                if i < pieces.len() - 1 {
                    assert(pieces.drop_last()[i] == pieces[i]);
                }
            }
        }
    }
}

/// There is at most one next symbol.
proof fn lemma_next_symbol_unique(v: Vocab, s: Seq<char>, p: int, a: Seq<char>, q: int, b: Seq<char>)
    requires
        v.is_next_symbol(s, p, a),
        v.is_next_symbol(s, q, b),
    ensures
        p == q,
        a == b,
{
    assert(matches_at(s, p, a) && matches_at(s, q, b));
}

/// There is at most one best pair.
proof fn lemma_best_pair_unique(v: Vocab, syms: Seq<Seq<char>>, i: int, j: int)
    requires
        v.is_best_pair(syms, i),
        v.is_best_pair(syms, j),
    ensures
        i == j,
{
    assert(v.comes_first(syms, i, j) && v.comes_first(syms, j, i));
}

/// Merging goes on with the best pair.
proof fn lemma_merged_step(v: Vocab, syms: Seq<Seq<char>>, i: int)
    requires
        v.is_best_pair(syms, i),
    ensures
        0 <= i < syms.len() - 1,
        v.merged(syms) == v.merged(merge_at(syms, i)),
{
    let j = choose|j: int| v.is_best_pair(syms, j);
    lemma_best_pair_unique(v, syms, i, j);
}

/// Merging ends where there is no best pair.
proof fn lemma_merged_done(v: Vocab, syms: Seq<Seq<char>>)
    requires
        forall|i: int| !v.is_best_pair(syms, i),
    ensures
        v.merged(syms) == syms,
{
}

/// The ids up to a user-defined symbol, its own, and those of the rest.
pub proof fn lemma_ids_step(v: Vocab, s: Seq<char>, p: int, sym: Seq<char>)
    requires
        v.next_symbol(s) == Some((p, sym)),
    ensures
        v.is_next_symbol(s, p, sym),
        0 <= p,
        0 < sym.len(),
        p + sym.len() <= s.len(),
        v.id_of(sym) is Some,
        v.normalized_ids(s) == v.segment_ids(s.take(p)) + seq![v.id_of(sym)->0] + v.normalized_ids(
            s.skip(p + sym.len()),
        ),
{
    let (q, t) = choose|q: int, t: Seq<char>| v.is_next_symbol(s, q, t);
    assert(v.is_next_symbol(s, q, t));
    assert(matches_at(s, p, sym));
    lemma_last_index(v.pieces, sym);
}

impl Tokenizer {
    #[verifier::type_invariant]
    spec fn inv(self) -> bool {
        &&& self@.wf()
        &&& indexes(self.piece_to_id@, self@.pieces)
        &&& self.bytes@.len() == self@.pieces.len()
        &&& forall|i: int|
            #![trigger self.bytes@[i]]
            0 <= i < self@.pieces.len() && self@.types[i] == BYTE ==> byte_of(self@.pieces[i])
                == Some(self.bytes@[i])
        &&& self.byte_ids@.len() == 256
        &&& forall|b: u8| #[trigger] self.byte_ids@[b as int] == self@.byte_id(b)
        &&& lists_symbols(self.user_defined@, self@)
    }

    /// The tokenizer for these pieces.
    pub(crate) fn from_pieces(list: &Vec<Piece>, prefix: bool, tidy: bool) -> (r: Tokenizer)
        requires
            forall|i: int|
                #![trigger list@[i]]
                0 <= i < list@.len() && list@[i].kind == BYTE ==> byte_of(list@[i].text@) == Some(
                    list@[i].byte,
                ),
        ensures
            r@ == vocab_of(list@, prefix, tidy),
    {
        let ghost v = vocab_of(list@, prefix, tidy);
        let mut piece_to_id: StringHashMap<u32> = StringHashMap::new();
        let mut pieces: Vec<Vec<char>> = Vec::new();
        let mut types: Vec<u8> = Vec::new();
        let mut scores: Vec<u32> = Vec::new();
        let mut bytes: Vec<u8> = Vec::new();
        let mut byte_ids: Vec<u32> = vec![UNK_ID; 256];
        let mut user_defined: Vec<Vec<char>> = Vec::new();
        for i in 0..list.len()
            invariant
                v == vocab_of(list@, prefix, tidy),
                forall|i: int|
                    #![trigger list@[i]]
                    0 <= i < list@.len() && list@[i].kind == BYTE ==> byte_of(list@[i].text@)
                        == Some(list@[i].byte),
                rows(pieces@) == v.pieces.take(i as int),
                types@ == v.types.take(i as int),
                scores@ == v.scores.take(i as int),
                bytes@.len() == i,
                forall|k: int| 0 <= k < i ==> #[trigger] bytes@[k] == list@[k].byte,
                indexes(piece_to_id@, v.pieces.take(i as int)),
                byte_ids@.len() == 256,
                forall|b: u8| #[trigger] byte_ids@[b as int] == v.byte_id_among(b, i as nat),
                forall|k: int| 0 <= k < user_defined@.len() ==> v.is_symbol(#[trigger] user_defined@[k]@),
                forall|j: int|
                    #![trigger v.pieces[j]]
                    0 <= j < i && v.types[j] == USER_DEFINED && v.pieces[j].len() > 0
                        ==> exists|k: int|
                        0 <= k < user_defined@.len() && #[trigger] user_defined@[k]@ == v.pieces[j],
        {
            let p = &list[i];
            let text = chars_of(p.text.as_str());
            assert(v.pieces[i as int] == text@);
            assert(v.types[i as int] == p.kind);
            let ghost shorter = v.pieces.take(i as int);
            let ghost longer = v.pieces.take(i + 1);
            assert(longer.drop_last() =~= shorter);
            if p.kind == BYTE {
                byte_ids.set(p.byte as usize, i as u32);
            }
            if p.kind == USER_DEFINED && text.len() > 0 {
                let ghost before = user_defined@;
                assert(v.is_symbol(text@));
                user_defined.push(slice_of(&text, 0, text.len()));
                assert(user_defined@[before.len() as int]@ =~= text@);
                assert forall|j: int|
                    #![trigger v.pieces[j]]
                    0 <= j < i + 1 && v.types[j] == USER_DEFINED && v.pieces[j].len()
                        > 0 implies exists|k: int|
                    0 <= k < user_defined@.len() && #[trigger] user_defined@[k]@ == v.pieces[j] by {
                    if j < i {
                        let k = choose|k: int|
                            0 <= k < before.len() && #[trigger] before[k]@ == v.pieces[j];
                        assert(user_defined@[k]@ == v.pieces[j]);
                    }
                }
            }
            let ghost map_before = piece_to_id@;
            piece_to_id.insert(p.text.clone(), i as u32);
            proof {
                assert(longer =~= shorter.push(p.text@));
                lemma_indexes_one_more(map_before, shorter, p.text@);
                assert(piece_to_id@ == map_before.insert(p.text@, i as u32));
            }
            pieces.push(text);
            types.push(p.kind);
            scores.push(p.score);
            bytes.push(p.byte);
            assert(rows(pieces@) =~= longer);
            assert(types@ =~= v.types.take(i + 1));
            assert(scores@ =~= v.scores.take(i + 1));
        }
        assert(v.pieces.take(list@.len() as int) =~= v.pieces);
        assert(v.types.take(list@.len() as int) =~= v.types);
        assert(v.scores.take(list@.len() as int) =~= v.scores);
        Tokenizer {
            piece_to_id,
            pieces,
            types,
            scores,
            bytes,
            byte_ids,
            user_defined,
            add_dummy_prefix: prefix,
            remove_extra_whitespaces: tidy,
        }
    }

    /// The number of pieces.
    pub fn vocab_size(&self) -> (r: usize)
        ensures
            r == self@.pieces.len(),
            self@.wf(),
    {
        proof {
            use_type_invariant(self);
        }
        self.pieces.len()
    }

    fn id_for(&self, text: &Vec<char>) -> (r: Option<u32>)
        ensures
            r == self@.id_of(text@),
            r is Some ==> r->0 < self@.pieces.len(),
            self@.wf(),
    {
        proof {
            use_type_invariant(self);
            lemma_last_index(self@.pieces, text@);
        }
        let key = string_of(text);
        match self.piece_to_id.get(key.as_str()) {
            Some(id) => Some(*id),
            None => None,
        }
    }

    /// Tidies up white space, escapes spaces and puts a space mark in front.
    fn normalize(&self, text: &str) -> (r: Vec<char>)
        ensures
            r@ == self@.normalized(text@),
    {
        let mut s = chars_of(text);
        if self.remove_extra_whitespaces {
            s = squeeze(&s, ' ');
        }
        let mut out: Vec<char> = Vec::new();
        if self.add_dummy_prefix && s.len() > 0 {
            out.push(SPACE_MARK);
        }
        let ghost front = out@;
        for i in 0..s.len()
            invariant
                out@ == front + escaped(s@.take(i as int)),
        {
            let c = s[i];
            out.push(
                if c == ' ' {
                    SPACE_MARK
                } else {
                    c
                },
            );
            assert(escaped(s@.take(i + 1)) =~= escaped(s@.take(i as int)).push(
                if c == ' ' {
                    SPACE_MARK
                } else {
                    c
                },
            ));
        }
        assert(s@.take(s@.len() as int) =~= s@);
        assert(out@ =~= self@.normalized(text@));
        out
    }

    fn symbol_matches(s: &Vec<char>, at: usize, sym: &Vec<char>) -> (r: bool)
        requires
            at <= s@.len(),
        ensures
            r == matches_at(s@, at as int, sym@),
    {
        let n: usize = s.len();
        if sym.len() > n - at {
            return false;
        }
        let ghost part = s@.subrange(at as int, at + sym@.len());
        for i in 0..sym.len()
            invariant
                at + sym@.len() <= n == s@.len(),
                part == s@.subrange(at as int, at + sym@.len()),
                forall|j: int| 0 <= j < i ==> part[j] == sym@[j],
        {
            if s[at + i] != sym[i] {
                assert(part[i as int] != sym@[i as int]);
                return false;
            }
        }
        assert(part =~= sym@);
        true
    }

    /// Finds the next user-defined symbol in `s` from `start` on: its position
    /// and its place in the list.
    fn find_symbol(&self, s: &Vec<char>, start: usize) -> (r: Option<(usize, usize)>)
        requires
            start <= s@.len(),
        ensures
            match r {
                Some((p, k)) => start <= p <= s@.len() && k < self.user_defined@.len()
                    && self@.next_symbol(s@.skip(start as int)) == Some(
                    (p - start, self.user_defined@[k as int]@),
                ),
                None => self@.next_symbol(s@.skip(start as int)) is None,
            },
    {
        proof {
            use_type_invariant(self);
        }
        let ghost rest = s@.skip(start as int);
        let n: usize = s.len();
        let m: usize = self.user_defined.len();
        let mut p: usize = start;
        while p < n
            invariant
                n == s@.len(),
                m == self.user_defined@.len(),
                start <= p <= n,
                rest == s@.skip(start as int),
                lists_symbols(self.user_defined@, self@),
                forall|q: int, t: Seq<char>|
                    #![trigger matches_at(rest, q, t)]
                    q < p - start && self@.is_symbol(t) ==> !matches_at(rest, q, t),
            decreases n - p,
        {
            let mut best: Option<usize> = None;
            for k in 0..m
                invariant
                    n == s@.len(),
                    m == self.user_defined@.len(),
                    start <= p < n,
                    rest == s@.skip(start as int),
                    match best {
                        Some(b) => b < k && matches_at(
                            rest,
                            p - start,
                            self.user_defined@[b as int]@,
                        ) && forall|j: int|
                            #![trigger self.user_defined@[j]]
                            0 <= j < k && matches_at(rest, p - start, self.user_defined@[j]@)
                                ==> self.user_defined@[j]@.len()
                                <= self.user_defined@[b as int]@.len(),
                        None => forall|j: int|
                            #![trigger self.user_defined@[j]]
                            0 <= j < k ==> !matches_at(rest, p - start, self.user_defined@[j]@),
                    },
            {
                let sym = &self.user_defined[k];
                let hit = Self::symbol_matches(s, p, sym);
                assert(matches_at(s@, p as int, sym@) == matches_at(rest, p - start, sym@)) by {
                    if p + sym@.len() <= n {
                        assert(s@.subrange(p as int, p + sym@.len()) =~= rest.subrange(
                            p - start,
                            p - start + sym@.len(),
                        ));
                    }
                }
                if hit {
                    let longer = match best {
                        Some(b) => sym.len() > self.user_defined[b].len(),
                        None => true,
                    };
                    if longer {
                        best = Some(k);
                    }
                }
            }
            if let Some(b) = best {
                proof {
                    let sym = self.user_defined@[b as int]@;
                    assert(self@.is_symbol(sym));
                    assert forall|q: int, t: Seq<char>|
                        #![trigger matches_at(rest, q, t)]
                        self@.is_symbol(t) && matches_at(rest, q, t) implies p - start < q || (p
                        - start == q && t.len() <= sym.len()) by {
                        let k = choose|k: int|
                            0 <= k < m && #[trigger] self.user_defined@[k]@ == t;
                    }
                    assert(self@.is_next_symbol(rest, p - start, sym));
                    let (q, t) = choose|q: int, t: Seq<char>| self@.is_next_symbol(rest, q, t);
                    lemma_next_symbol_unique(self@, rest, p - start, sym, q, t);
                }
                return Some((p, b));
            }
            assert forall|q: int, t: Seq<char>|
                #![trigger matches_at(rest, q, t)]
                q < p + 1 - start && self@.is_symbol(t) implies !matches_at(rest, q, t) by {
                let k = choose|k: int| 0 <= k < m && #[trigger] self.user_defined@[k]@ == t;
            }
            p = p + 1;
        }
        assert forall|q: int, t: Seq<char>| !self@.is_next_symbol(rest, q, t) by {
            if self@.is_next_symbol(rest, q, t) {
                assert(matches_at(rest, q, t));
            }
        }
        None
    }

    /// The score for merging two neighbours.
    fn score_of(&self, left: &Vec<char>, right: &Vec<char>) -> (r: Option<u32>)
        ensures
            r == self@.pair_score(left@, right@),
    {
        let mut both: Vec<char> = Vec::new();
        both.extend_from_slice(left.as_slice());
        both.extend_from_slice(right.as_slice());
        assert(both@ =~= left@ + right@);
        match self.id_for(&both) {
            Some(id) => {
                let i: usize = id as usize;
                if self.types[i] == NORMAL && gt(self.scores[i], NEG_INFINITY) {
                    Some(self.scores[i])
                } else {
                    None
                }
            },
            None => None,
        }
    }

    /// Finds the best pair, given the score of each.
    fn find_best(&self, syms: &Vec<Vec<char>>, scores: &Vec<Option<u32>>) -> (r: Option<usize>)
        requires
            self.scored(syms@, scores@),
        ensures
            match r {
                Some(i) => self@.is_best_pair(rows(syms@), i as int),
                None => forall|i: int| !self@.is_best_pair(rows(syms@), i),
            },
    {
        let ghost all = rows(syms@);
        let mut best: Option<usize> = None;
        for i in 0..scores.len()
            invariant
                all == rows(syms@),
                self.scored(syms@, scores@),
                match best {
                    Some(b) => b < i && scores@[b as int] is Some && !is_nan(
                        scores@[b as int]->0,
                    ) && forall|j: int|
                        #![trigger scores@[j]]
                        0 <= j < i && scores@[j] is Some ==> !greater(
                            scores@[j]->0,
                            scores@[b as int]->0,
                        ) && (j < b ==> greater(scores@[b as int]->0, scores@[j]->0)),
                    None => forall|j: int| 0 <= j < i ==> #[trigger] scores@[j] is None,
                },
        {
            if let Some(x) = scores[i] {
                let better = match best {
                    Some(b) => match scores[b] {
                        Some(y) => gt(x, y),
                        None => true,
                    },
                    None => true,
                };
                assert(scores@[i as int] == self@.score_at(all, i as int));
                if better {
                    best = Some(i);
                }
            }
        }
        match best {
            Some(b) => {
                assert forall|j: int| 0 <= j < all.len() - 1 implies #[trigger] self@.comes_first(
                    all,
                    b as int,
                    j,
                ) by {
                    assert(scores@[j] == self@.score_at(all, j));
                    assert(scores@[b as int] == self@.score_at(all, b as int));
                }
                assert(self@.is_best_pair(all, b as int));
            },
            None => {
                assert forall|i: int| !self@.is_best_pair(all, i) by {
                    if self@.is_best_pair(all, i) {
                        assert(self@.comes_first(all, i, i));
                        assert(scores@[i] == self@.score_at(all, i));
                    }
                }
            },
        }
        best
    }

    /// Does `scores` hold the score of each pair of neighbours?
    spec fn scored(self, syms: Seq<Vec<char>>, scores: Seq<Option<u32>>) -> bool {
        &&& scores.len() == (if syms.len() > 0 {
            syms.len() - 1
        } else {
            0
        })
        &&& forall|i: int|
            #![trigger scores[i]]
            0 <= i < scores.len() ==> scores[i] == self@.pair_score(syms[i]@, syms[i + 1]@)
    }

    /// Merges the neighbours at `i`, and scores the pairs that this changes.
    fn merge_pair(&self, syms: &mut Vec<Vec<char>>, scores: &mut Vec<Option<u32>>, i: usize)
        requires
            self.scored(old(syms)@, old(scores)@),
            i + 1 < old(syms)@.len(),
        ensures
            self.scored(final(syms)@, final(scores)@),
            rows(final(syms)@) == merge_at(rows(old(syms)@), i as int),
    {
        let ghost before = syms@;
        let n: usize = syms.len();
        assert(i + 1 < n);
        let mut right = syms.remove(i + 1);
        let mut left = syms.remove(i);
        left.append(&mut right);
        syms.insert(i, left);
        assert(rows(syms@) =~= merge_at(rows(before), i as int));
        scores.remove(i);
        if i > 0 {
            let s = self.score_of(&syms[i - 1], &syms[i]);
            scores.set(i - 1, s);
        }
        if i < scores.len() {
            let s = self.score_of(&syms[i], &syms[i + 1]);
            scores.set(i, s);
        }
    }

    /// Merges the best pair of neighbours again and again, until no pair can
    /// be merged.
    fn merge_all(&self, s: &Vec<char>) -> (r: Vec<Vec<char>>)
        ensures
            rows(r@) == self@.merged(singles(s@)),
    {
        let mut syms: Vec<Vec<char>> = Vec::new();
        for i in 0..s.len()
            invariant
                rows(syms@) == singles(s@.take(i as int)),
        {
            let mut one: Vec<char> = Vec::new();
            one.push(s[i]);
            assert(one@ =~= seq![s@[i as int]]);
            let ghost before = rows(syms@);
            syms.push(one);
            assert(rows(syms@) =~= before.push(one@));
            assert(singles(s@.take(i + 1)) =~= singles(s@.take(i as int)).push(
                seq![s@[i as int]],
            ));
        }
        assert(s@.take(s@.len() as int) =~= s@);
        let mut scores: Vec<Option<u32>> = Vec::new();
        let mut k: usize = 1;
        while k < syms.len()
            invariant
                1 <= k,
                k <= syms@.len() || scores@.len() == 0,
                scores@.len() == k - 1,
                forall|i: int|
                    #![trigger scores@[i]]
                    0 <= i < scores@.len() ==> scores@[i] == self@.pair_score(
                        syms@[i]@,
                        syms@[i + 1]@,
                    ),
            decreases syms@.len() - k,
        {
            scores.push(self.score_of(&syms[k - 1], &syms[k]));
            k = k + 1;
        }
        let ghost goal = self@.merged(singles(s@));
        loop
            invariant
                self.scored(syms@, scores@),
                self@.merged(rows(syms@)) == goal,
            ensures
                rows(syms@) == goal,
            decreases syms@.len(),
        {
            match self.find_best(&syms, &scores) {
                Some(i) => {
                    proof {
                        lemma_merged_step(self@, rows(syms@), i as int);
                    }
                    let ghost before = rows(syms@);
                    self.merge_pair(&mut syms, &mut scores, i);
                    assert(rows(syms@).len() == before.len() - 1);
                },
                None => {
                    proof {
                        lemma_merged_done(self@, rows(syms@));
                    }
                    break;
                },
            }
        }
        syms
    }

    /// Appends the ids of a text without user-defined symbols: neighbours are
    /// merged by the highest score, the leftmost first, and what has no piece
    /// goes out byte by byte.
    fn bpe_segment(&self, s: &Vec<char>, out: &mut Vec<u32>)
        ensures
            final(out)@ == old(out)@ + self@.segment_ids(s@),
    {
        proof {
            use_type_invariant(self);
        }
        let syms = self.merge_all(s);
        let ghost all = rows(syms@);
        let ghost front = out@;
        for k in 0..syms.len()
            invariant
                self.inv(),
                all == rows(syms@),
                out@ == front + self@.all_ids(all.take(k as int)),
        {
            let ghost before = out@;
            let sym = &syms[k];
            let own = match self.id_for(sym) {
                Some(id) => if self.types[id as usize] != UNKNOWN {
                    Some(id)
                } else {
                    None
                },
                None => None,
            };
            match own {
                Some(id) => {
                    out.push(id);
                    assert(out@ =~= before + self@.symbol_ids(sym@));
                },
                None => {
                    let text = string_of(sym);
                    let bytes = text.as_str().as_bytes();
                    let ghost ids = self@.byte_ids(sym@);
                    for i in 0..bytes.len()
                        invariant
                            self.inv(),
                            bytes@ == encode_utf8(sym@),
                            ids == self@.byte_ids(sym@),
                            out@ == before + ids.take(i as int),
                    {
                        let b = bytes[i];
                        assert(self.byte_ids@[b as int] == self@.byte_id(b));
                        out.push(self.byte_ids[b as usize]);
                        assert(ids.take(i + 1) =~= ids.take(i as int).push(ids[i as int]));
                    }
                    assert(ids.take(ids.len() as int) =~= ids);
                    assert(out@ == before + self@.symbol_ids(sym@));
                },
            }
            assert(all.take(k + 1).drop_last() =~= all.take(k as int));
            assert(all.take(k + 1).last() == sym@);
            assert(out@ =~= front + self@.all_ids(all.take(k + 1)));
        }
        assert(all.take(all.len() as int) =~= all);
    }

    /// Encodes text to ids. No beginning or end mark is added.
    pub fn encode(&self, text: &str) -> (r: Vec<u32>)
        ensures
            r@ == self@.encoded(text@),
    {
        let normalized = self.normalize(text);
        let ghost goal = self@.encoded(text@);
        let n: usize = normalized.len();
        let mut ids: Vec<u32> = Vec::new();
        let mut start: usize = 0;
        assert(normalized@.skip(0) =~= normalized@);
        loop
            invariant_except_break
                n == normalized@.len(),
                start <= n,
                ids@ + self@.normalized_ids(normalized@.skip(start as int)) == goal,
            ensures
                ids@ == goal,
            decreases n - start,
        {
            proof {
                use_type_invariant(self);
            }
            let ghost rest = normalized@.skip(start as int);
            match self.find_symbol(&normalized, start) {
                Some((p, k)) => {
                    let sym = &self.user_defined[k];
                    proof {
                        lemma_ids_step(self@, rest, p - start, sym@);
                    }
                    let part = slice_of(&normalized, start, p);
                    assert(part@ =~= rest.take(p - start));
                    let ghost before = ids@;
                    self.bpe_segment(&part, &mut ids);
                    if let Some(id) = self.id_for(sym) {
                        ids.push(id);
                    }
                    assert(normalized@.skip(p + sym@.len()) =~= rest.skip(p - start + sym@.len()));
                    start = p + sym.len();
                    assert(ids@ + self@.normalized_ids(normalized@.skip(start as int)) =~= before
                        + self@.normalized_ids(rest));
                },
                None => {
                    let part = slice_of(&normalized, start, n);
                    assert(part@ =~= rest);
                    self.bpe_segment(&part, &mut ids);
                    break;
                },
            }
        }
        ids
    }

    /// Appends the text of the bytes collected so far, and forgets them.
    fn flush(pending: &mut Vec<u8>, out: &mut Vec<char>)
        ensures
            final(pending)@.len() == 0,
            final(out)@ == old(out)@ + flushed(old(pending)@),
    {
        if pending.len() > 0 {
            let text = from_utf8_lossy(pending);
            let mut cs = chars_of(text.as_str());
            out.append(&mut cs);
            pending.clear();
        }
        assert(out@ =~= old(out)@ + flushed(old(pending)@));
    }

    fn push_unescaped(piece: &Vec<char>, out: &mut Vec<char>)
        ensures
            final(out)@ == old(out)@ + unescaped(piece@),
    {
        let ghost front = out@;
        let ghost all = unescaped(piece@);
        for i in 0..piece.len()
            invariant
                all == unescaped(piece@),
                out@ == front + all.take(i as int),
        {
            let c = piece[i];
            out.push(
                if c == SPACE_MARK {
                    ' '
                } else {
                    c
                },
            );
            assert(all.take(i + 1) =~= all.take(i as int).push(all[i as int]));
        }
        assert(all.take(all.len() as int) =~= all);
    }

    /// Decodes ids to text: control and unknown pieces are passed over, bytes
    /// are collected into UTF-8, space marks become spaces, and leading spaces
    /// are dropped.
    pub fn decode(&self, ids: &Vec<u32>) -> (r: String)
        ensures
            r@ == self@.decoded(ids@),
    {
        proof {
            use_type_invariant(self);
        }
        let mut out: Vec<char> = Vec::new();
        let mut pending: Vec<u8> = Vec::new();
        let ghost goal = self@.decoded_after(Seq::empty(), ids@);
        assert(ids@.skip(0) =~= ids@);
        for i in 0..ids.len()
            invariant
                self.inv(),
                out@ + self@.decoded_after(pending@, ids@.skip(i as int)) == goal,
        {
            let ghost rest = ids@.skip(i as int);
            assert(rest.drop_first() =~= ids@.skip(i + 1));
            assert(rest[0] == ids@[i as int]);
            let ghost before = out@;
            let ghost held = pending@;
            let id = ids[i];
            let k: usize = id as usize;
            if k < self.pieces.len() {
                let t = self.types[k];
                if t == BYTE {
                    assert(byte_of(self@.pieces[k as int]) == Some(self.bytes@[k as int]));
                    pending.push(self.bytes[k]);
                    assert(pending@ =~= held + self@.byte_text(id));
                } else if t != CONTROL && t != UNKNOWN {
                    Self::flush(&mut pending, &mut out);
                    Self::push_unescaped(&self.pieces[k], &mut out);
                    assert(pending@ =~= Seq::empty());
                    assert(out@ =~= before + (flushed(held) + unescaped(self@.pieces[k as int])));
                    assert(out@ + self@.decoded_after(Seq::empty(), ids@.skip(i + 1)) =~= before
                        + self@.decoded_after(held, rest));
                }
            }
        }
        let ghost last = pending@;
        let ghost before = out@;
        Self::flush(&mut pending, &mut out);
        assert(ids@.skip(ids@.len() as int).len() == 0);
        assert(out@ == goal);
        let n: usize = out.len();
        let mut lo: usize = 0;
        assert(out@.skip(0) =~= out@);
        while lo < n && out[lo] == ' '
            invariant
                n == out@.len(),
                lo <= n,
                without_leading_spaces(out@) == without_leading_spaces(out@.skip(lo as int)),
            decreases n - lo,
        {
            assert(out@.skip(lo as int).drop_first() =~= out@.skip(lo + 1));
            lo = lo + 1;
        }
        let tail = slice_of(&out, lo, n);
        assert(tail@ =~= out@.skip(lo as int));
        string_of(&tail)
    }

    /// The text that one id contributes, with each byte as the character of
    /// its value.
    pub fn token_visible_text(&self, id: u32) -> (r: String)
        ensures
            r@ == self@.visible(id),
    {
        proof {
            use_type_invariant(self);
        }
        let mut out: Vec<char> = Vec::new();
        let k: usize = id as usize;
        if k < self.pieces.len() {
            let t = self.types[k];
            if t == BYTE {
                assert(byte_of(self@.pieces[k as int]) == Some(self.bytes@[k as int]));
                out.push(self.bytes[k] as char);
            } else if t != CONTROL && t != UNKNOWN {
                Self::push_unescaped(&self.pieces[k], &mut out);
            }
        }
        assert(out@ =~= self@.visible(id));
        string_of(&out)
    }
}

/// The characters of `s` from `lo` up to `hi`.
fn slice_of(s: &Vec<char>, lo: usize, hi: usize) -> (r: Vec<char>)
    requires
        lo <= hi <= s@.len(),
    ensures
        r@ == s@.subrange(lo as int, hi as int),
{
    let mut out: Vec<char> = Vec::new();
    for i in lo..hi
        invariant
            lo <= hi <= s@.len(),
            out@ == s@.subrange(lo as int, i as int),
    {
        out.push(s[i]);
        assert(s@.subrange(lo as int, i + 1) =~= s@.subrange(lo as int, i as int).push(
            s@[i as int],
        ));
    }
    out
}

} // verus!
