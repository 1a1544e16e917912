//! The model of a SentencePiece vocabulary: what a text is encoded as, and
//! what a sequence of ids decodes to.

use crate::single::{greater, NEG_INFINITY};
use crate::text::{bytes_text, squeezed};
use vstd::prelude::*;
use vstd::utf8::*;

verus! {

pub const PAD_ID: u32 = 0;

pub const EOS_ID: u32 = 1;

pub const BOS_ID: u32 = 2;

pub const UNK_ID: u32 = 3;

pub const TOOL_CALL_ID: u32 = 4;

pub const TOOLS_ID: u32 = 5;

/// The types of a piece.
pub const NORMAL: u8 = 1;

pub const UNKNOWN: u8 = 2;

pub const CONTROL: u8 = 3;

pub const USER_DEFINED: u8 = 4;

pub const BYTE: u8 = 6;

/// The character that stands for a space inside pieces.
pub const SPACE_MARK: char = '\u{2581}';

/// A vocabulary: for each id the text, the type and the merge score of its
/// piece, and the two switches of the normalizer.
pub struct Vocab {
    pub pieces: Seq<Seq<char>>,
    pub types: Seq<u8>,
    pub scores: Seq<u32>,
    pub add_dummy_prefix: bool,
    pub remove_extra_whitespaces: bool,
}

/// The last index of `text` in `pieces`.
pub open spec fn last_index(pieces: Seq<Seq<char>>, text: Seq<char>) -> Option<int>
    decreases pieces.len(),
{
    if pieces.len() == 0 {
        None
    } else if pieces.last() == text {
        Some(pieces.len() - 1)
    } else {
        last_index(pieces.drop_last(), text)
    }
}

/// The value of a hexadecimal digit.
pub open spec fn hex_digit(b: u8) -> Option<u8> {
    if 48 <= b <= 57 {
        Some((b - 48) as u8)
    } else if 65 <= b <= 70 {
        Some((b - 55) as u8)
    } else if 97 <= b <= 102 {
        Some((b - 87) as u8)
    } else {
        None
    }
}

/// The value of two characters read as a hexadecimal number, of which the
/// first may be a plus sign.
pub open spec fn hex_pair(a: u8, b: u8) -> Option<u8> {
    if a == 43 {
        hex_digit(b)
    } else {
        match (hex_digit(a), hex_digit(b)) {
            (Some(x), Some(y)) => Some((16 * x + y) as u8),
            _ => None,
        }
    }
}

/// Can the fourth and fifth byte be cut out of the text?
pub open spec fn has_hex_slice(text: Seq<char>) -> bool {
    let bytes = encode_utf8(text);
    bytes.len() >= 5 && is_char_boundary(bytes, 3) && is_char_boundary(bytes, 5)
}

/// The byte that the text of a byte piece, such as `<0x41>`, names.
pub open spec fn byte_of(text: Seq<char>) -> Option<u8> {
    let bytes = encode_utf8(text);
    hex_pair(bytes[3], bytes[4])
}

/// `text` with a space mark for each space.
pub open spec fn escaped(text: Seq<char>) -> Seq<char> {
    text.map_values(
        |c: char|
            if c == ' ' {
                SPACE_MARK
            } else {
                c
            },
    )
}

/// `text` with a space for each space mark.
pub open spec fn unescaped(text: Seq<char>) -> Seq<char> {
    text.map_values(
        |c: char|
            if c == SPACE_MARK {
                ' '
            } else {
                c
            },
    )
}

/// Does `sym` stand in `s` at position `p`?
pub open spec fn matches_at(s: Seq<char>, p: int, sym: Seq<char>) -> bool {
    0 <= p && p + sym.len() <= s.len() && s.subrange(p, p + sym.len()) == sym
}

/// Each character of `s` as a symbol of its own.
pub open spec fn singles(s: Seq<char>) -> Seq<Seq<char>> {
    s.map_values(|c: char| seq![c])
}

/// `syms` with the symbols at `i` and `i + 1` made one.
pub open spec fn merge_at(syms: Seq<Seq<char>>, i: int) -> Seq<Seq<char>> {
    syms.take(i).push(syms[i] + syms[i + 1]) + syms.skip(i + 2)
}

/// `s` without its leading spaces.
pub open spec fn without_leading_spaces(s: Seq<char>) -> Seq<char>
    decreases s.len(),
{
    if s.len() > 0 && s[0] == ' ' {
        without_leading_spaces(s.drop_first())
    } else {
        s
    }
}

impl Vocab {
    /// Every piece has a type and a score.
    pub open spec fn wf(self) -> bool {
        self.types.len() == self.pieces.len() && self.scores.len() == self.pieces.len()
    }

    /// The id of a text: that of the last piece with it.
    pub open spec fn id_of(self, text: Seq<char>) -> Option<u32> {
        match last_index(self.pieces, text) {
            Some(i) => Some(i as u32),
            None => None,
        }
    }

    /// Is the piece with this index that of byte `b`?
    pub open spec fn is_byte_piece(self, i: int, b: u8) -> bool {
        self.types[i] == BYTE && byte_of(self.pieces[i]) == Some(b)
    }

    /// The id of byte `b` among the first `n` pieces: that of the last piece
    /// for it, or the unknown one.
    pub open spec fn byte_id_among(self, b: u8, n: nat) -> u32
        decreases n,
    {
        if n == 0 {
            UNK_ID
        } else if self.is_byte_piece(n - 1, b) {
            (n - 1) as u32
        } else {
            self.byte_id_among(b, (n - 1) as nat)
        }
    }

    /// The id of byte `b`.
    pub open spec fn byte_id(self, b: u8) -> u32 {
        self.byte_id_among(b, self.pieces.len())
    }

    /// Is `text` that of a user-defined piece? The empty text never is.
    pub open spec fn is_symbol(self, text: Seq<char>) -> bool {
        text.len() > 0 && exists|i: int|
            0 <= i < self.pieces.len() && self.types[i] == USER_DEFINED && #[trigger] self.pieces[i]
                == text
    }

    /// The text that pieces are looked for in: white space tidied up, spaces
    /// escaped, a space mark in front.
    pub open spec fn normalized(self, text: Seq<char>) -> Seq<char> {
        let s = if self.remove_extra_whitespaces {
            squeezed(text, ' ')
        } else {
            text
        };
        if self.add_dummy_prefix && s.len() > 0 {
            seq![SPACE_MARK] + escaped(s)
        } else {
            escaped(s)
        }
    }

    /// Is `sym`, at position `p`, the next user-defined symbol in `s`: no
    /// symbol starts earlier, and no longer one starts there?
    pub open spec fn is_next_symbol(self, s: Seq<char>, p: int, sym: Seq<char>) -> bool {
        &&& self.is_symbol(sym)
        &&& matches_at(s, p, sym)
        &&& forall|q: int, t: Seq<char>|
            #![trigger matches_at(s, q, t)]
            self.is_symbol(t) && matches_at(s, q, t) ==> p < q || (p == q && t.len() <= sym.len())
    }

    /// The next user-defined symbol in `s`, with its position.
    pub open spec fn next_symbol(self, s: Seq<char>) -> Option<(int, Seq<char>)> {
        if exists|p: int, sym: Seq<char>| self.is_next_symbol(s, p, sym) {
            Some(choose|p: int, sym: Seq<char>| self.is_next_symbol(s, p, sym))
        } else {
            None
        }
    }

    /// The score for merging two neighbours: that of the normal piece that
    /// they make together. A score of minus infinity never merges.
    pub open spec fn pair_score(self, left: Seq<char>, right: Seq<char>) -> Option<u32> {
        match self.id_of(left + right) {
            Some(id) => if self.types[id as int] == NORMAL && greater(
                self.scores[id as int],
                NEG_INFINITY,
            ) {
                Some(self.scores[id as int])
            } else {
                None
            },
            None => None,
        }
    }

    /// The score for merging the symbols at `i` and `i + 1`.
    pub open spec fn score_at(self, syms: Seq<Seq<char>>, i: int) -> Option<u32> {
        self.pair_score(syms[i], syms[i + 1])
    }

    /// Does the pair at `i` come before the one at `j`, or is it the same: has
    /// that no score, no higher one, and none as high where it is further left?
    pub open spec fn comes_first(self, syms: Seq<Seq<char>>, i: int, j: int) -> bool {
        match (self.score_at(syms, i), self.score_at(syms, j)) {
            (Some(x), Some(y)) => !greater(y, x) && (j < i ==> greater(x, y)),
            (Some(_), None) => true,
            (None, _) => false,
        }
    }

    /// Is the pair at `i` the one to merge: does it come before all others?
    pub open spec fn is_best_pair(self, syms: Seq<Seq<char>>, i: int) -> bool {
        &&& 0 <= i < syms.len() - 1
        &&& forall|j: int| 0 <= j < syms.len() - 1 ==> #[trigger] self.comes_first(syms, i, j)
    }

    /// The symbols after merging the best pair again and again, until no pair
    /// can be merged.
    pub open spec fn merged(self, syms: Seq<Seq<char>>) -> Seq<Seq<char>>
        decreases syms.len(),
    {
        if exists|i: int| self.is_best_pair(syms, i) {
            let i = choose|i: int| self.is_best_pair(syms, i);
            if 0 <= i < syms.len() - 1 {
                self.merged(merge_at(syms, i))
            } else {
                syms
            }
        } else {
            syms
        }
    }

    /// The ids of one symbol: its own, or those of its UTF-8 bytes where it has
    /// none or the unknown one.
    pub open spec fn symbol_ids(self, sym: Seq<char>) -> Seq<u32> {
        match self.id_of(sym) {
            Some(id) => if self.types[id as int] != UNKNOWN {
                seq![id]
            } else {
                self.byte_ids(sym)
            },
            None => self.byte_ids(sym),
        }
    }

    /// The ids of the UTF-8 bytes of `sym`.
    pub open spec fn byte_ids(self, sym: Seq<char>) -> Seq<u32> {
        encode_utf8(sym).map_values(|b: u8| self.byte_id(b))
    }

    /// The ids of a sequence of symbols.
    pub open spec fn all_ids(self, syms: Seq<Seq<char>>) -> Seq<u32>
        decreases syms.len(),
    {
        if syms.len() == 0 {
            Seq::empty()
        } else {
            self.all_ids(syms.drop_last()) + self.symbol_ids(syms.last())
        }
    }

    /// The ids of a text without user-defined symbols.
    pub open spec fn segment_ids(self, s: Seq<char>) -> Seq<u32> {
        self.all_ids(self.merged(singles(s)))
    }

    /// The ids of a normalized text: user-defined symbols stand for
    /// themselves, and what is between them is merged.
    pub open spec fn normalized_ids(self, s: Seq<char>) -> Seq<u32>
        decreases s.len(),
    {
        match self.next_symbol(s) {
            Some((p, sym)) => if 0 <= p && 0 < sym.len() && p + sym.len() <= s.len() {
                self.segment_ids(s.take(p)) + seq![self.id_of(sym)->0] + self.normalized_ids(
                    s.skip(p + sym.len()),
                )
            } else {
                Seq::empty()
            },
            None => self.segment_ids(s),
        }
    }

    /// The ids of a text.
    pub open spec fn encoded(self, text: Seq<char>) -> Seq<u32> {
        self.normalized_ids(self.normalized(text))
    }

    /// Does the piece with this id contribute its own text to decoded output?
    pub open spec fn is_shown(self, id: u32) -> bool {
        id < self.pieces.len() && self.types[id as int] != UNKNOWN && self.types[id as int]
            != CONTROL && self.types[id as int] != BYTE
    }

    /// The text that ids decode to after the bytes of `pending`: bytes are
    /// collected until a piece with a text comes, or the end; control and
    /// unknown pieces and ids without a piece are passed over.
    pub open spec fn decoded_after(self, pending: Seq<u8>, ids: Seq<u32>) -> Seq<char>
        decreases ids.len(),
    {
        if ids.len() == 0 {
            flushed(pending)
        } else {
            let rest = ids.drop_first();
            if self.is_shown(ids[0]) {
                flushed(pending) + unescaped(self.pieces[ids[0] as int]) + self.decoded_after(
                    Seq::empty(),
                    rest,
                )
            } else if ids[0] < self.pieces.len() && self.types[ids[0] as int] == BYTE {
                self.decoded_after(pending + self.byte_text(ids[0]), rest)
            } else {
                self.decoded_after(pending, rest)
            }
        }
    }

    /// The byte of a byte piece.
    pub open spec fn byte_text(self, id: u32) -> Seq<u8> {
        match byte_of(self.pieces[id as int]) {
            Some(b) => seq![b],
            None => Seq::empty(),
        }
    }

    /// The text that ids decode to.
    pub open spec fn decoded(self, ids: Seq<u32>) -> Seq<char> {
        without_leading_spaces(self.decoded_after(Seq::empty(), ids))
    }

    /// The text that one id contributes, with each byte as the character of
    /// its value.
    pub open spec fn visible(self, id: u32) -> Seq<char> {
        if self.is_shown(id) {
            unescaped(self.pieces[id as int])
        } else if id < self.pieces.len() && self.types[id as int] == BYTE {
            self.byte_text(id).map_values(|b: u8| b as char)
        } else {
            Seq::empty()
        }
    }
}

/// The text of collected bytes.
pub open spec fn flushed(pending: Seq<u8>) -> Seq<char> {
    if pending.len() == 0 {
        Seq::empty()
    } else {
        bytes_text(pending)
    }
}

} // verus!
