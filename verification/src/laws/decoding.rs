//! What ids decode to, told by the pieces of the vocabulary and their types.

use crate::roundtrip::lemma_flushed;
use crate::text::lossy_text;
use crate::vocab::{
    byte_of, flushed, has_hex_slice, hex_pair, unescaped, without_leading_spaces, Vocab,
};
use vstd::prelude::*;
use vstd::utf8::*;

verus! {

/// Is the piece one with a text of its own: none of the unknown ones, the
/// control ones and those for bytes?
pub open spec fn has_text(v: Vocab, id: u32) -> bool {
    id < v.pieces.len() && v.types[id as int] != 2 && v.types[id as int] != 3 && v.types[id as int]
        != 6
}

/// Is the piece that of the byte?
pub open spec fn is_for_byte(v: Vocab, id: u32, b: u8) -> bool {
    id < v.pieces.len() && v.types[id as int] == 6 && byte_of(v.pieces[id as int]) == Some(b)
}

/// A text with a space for each space mark.
pub open spec fn with_spaces(text: Seq<char>) -> Seq<char> {
    Seq::new(
        text.len(),
        |i: int|
            if text[i] == '\u{2581}' {
                ' '
            } else {
                text[i]
            },
    )
}

/// A piece with a text of its own shows it, with spaces for its space marks,
/// and what comes behind is decoded as if by itself.
pub proof fn pieces_show_their_texts(v: Vocab, id: u32, rest: Seq<u32>)
    requires
        has_text(v, id),
    ensures
        v.decoded_after(Seq::empty(), seq![id] + rest) == with_spaces(v.pieces[id as int])
            + v.decoded_after(Seq::empty(), rest),
        v.visible(id) == with_spaces(v.pieces[id as int]),
        v.decoded_after(Seq::empty(), Seq::empty()).len() == 0,
{
    let ids = seq![id] + rest;
    assert(ids.drop_first() =~= rest);
    assert(unescaped(v.pieces[id as int]) =~= with_spaces(v.pieces[id as int]));
    assert(flushed(Seq::empty()) + with_spaces(v.pieces[id as int]) =~= with_spaces(
        v.pieces[id as int],
    ));
}

/// An unknown piece, a control piece and an id without a piece show nothing,
/// wherever they stand, and do not part the bytes of a character.
pub proof fn hidden_pieces_show_nothing(v: Vocab, pending: Seq<u8>, id: u32, rest: Seq<u32>)
    requires
        id >= v.pieces.len() || v.types[id as int] == 2 || v.types[id as int] == 3,
    ensures
        v.decoded_after(pending, seq![id] + rest) == v.decoded_after(pending, rest),
        v.visible(id).len() == 0,
{
    assert((seq![id] + rest).drop_first() =~= rest);
}

proof fn lemma_collected(v: Vocab, pending: Seq<u8>, ids: Seq<u32>, bytes: Seq<u8>, rest: Seq<u32>)
    requires
        ids.len() == bytes.len(),
        forall|k: int| 0 <= k < ids.len() ==> is_for_byte(v, #[trigger] ids[k], bytes[k]),
    ensures
        v.decoded_after(pending, ids + rest) == v.decoded_after(pending + bytes, rest),
    decreases ids.len(),
{
    if ids.len() == 0 {
        assert(ids + rest =~= rest);
        assert(pending + bytes =~= pending);
    } else {
        let id = ids[0];
        let b = bytes[0];
        assert(is_for_byte(v, id, b));
        let tail = ids.drop_first();
        let more = bytes.drop_first();
        assert forall|k: int| 0 <= k < tail.len() implies is_for_byte(
            v,
            #[trigger] tail[k],
            more[k],
        ) by {
            assert(is_for_byte(v, ids[k + 1], bytes[k + 1]));
        }
        assert((ids + rest).drop_first() =~= tail + rest);
        lemma_collected(v, pending + seq![b], tail, more, rest);
        assert((pending + seq![b]) + more =~= pending + bytes);
    }
}

/// The pieces for the bytes of a text show the text, however many bytes its
/// characters have, up to the end or the next piece with a text of its own.
pub proof fn bytes_show_their_characters(
    v: Vocab,
    ids: Seq<u32>,
    text: Seq<char>,
    rest: Seq<u32>,
)
    requires
        ids.len() == encode_utf8(text).len(),
        forall|k: int|
            0 <= k < ids.len() ==> is_for_byte(v, #[trigger] ids[k], encode_utf8(text)[k]),
        rest.len() > 0 ==> has_text(v, rest[0]),
    ensures
        v.decoded_after(Seq::empty(), ids + rest) == text + v.decoded_after(Seq::empty(), rest),
{
    let bytes = encode_utf8(text);
    lemma_collected(v, Seq::empty(), ids, bytes, rest);
    assert(Seq::<u8>::empty() + bytes =~= bytes);
    lemma_flushed(text);
    if rest.len() == 0 {
        assert(text + flushed(Seq::empty()) =~= text);
    } else {
        let shown = unescaped(v.pieces[rest[0] as int]);
        let tail = v.decoded_after(Seq::empty(), rest.drop_first());
        assert(flushed(Seq::empty()) + shown =~= shown);
        assert(text + shown + tail =~= text + (shown + tail));
    }
}

/// The pieces for bytes that are no text show what is put in the place of such
/// bytes.
pub proof fn other_bytes_are_replaced(v: Vocab, ids: Seq<u32>, bytes: Seq<u8>)
    requires
        ids.len() == bytes.len(),
        forall|k: int| 0 <= k < ids.len() ==> is_for_byte(v, #[trigger] ids[k], bytes[k]),
        !valid_utf8(bytes),
    ensures
        v.decoded_after(Seq::empty(), ids) == lossy_text(bytes),
{
    lemma_collected(v, Seq::empty(), ids, bytes, Seq::empty());
    assert(ids + Seq::<u32>::empty() =~= ids);
    assert(Seq::<u8>::empty() + bytes =~= bytes);
    if bytes.len() == 0 {
        assert(bytes =~= encode_utf8(Seq::empty()));
        encode_utf8_valid_utf8(Seq::empty());
    }
}

/// Decoded text is what the ids show without the spaces in front, all of them
/// and nothing else.
pub proof fn only_spaces_in_front_are_dropped(v: Vocab, ids: Seq<u32>)
    ensures
        ({
            let all = v.decoded_after(Seq::empty(), ids);
            let text = v.decoded(ids);
            let n = all.len() - text.len();
            &&& 0 <= n
            &&& text == all.skip(n)
            &&& forall|i: int| 0 <= i < n ==> #[trigger] all[i] == ' '
            &&& text.len() > 0 ==> text[0] != ' '
        }),
{
    lemma_front(v.decoded_after(Seq::empty(), ids));
}

proof fn lemma_front(s: Seq<char>)
    ensures
        ({
            let t = without_leading_spaces(s);
            let n = s.len() - t.len();
            &&& 0 <= n
            &&& t == s.skip(n)
            &&& forall|i: int| 0 <= i < n ==> #[trigger] s[i] == ' '
            &&& t.len() > 0 ==> t[0] != ' '
        }),
    decreases s.len(),
{
    let t = without_leading_spaces(s);
    if s.len() > 0 && s[0] == ' ' {
        let rest = s.drop_first();
        lemma_front(rest);
        let n = s.len() - t.len();
        assert(rest.skip(n - 1) =~= s.skip(n));
        assert forall|i: int| 0 <= i < n implies #[trigger] s[i] == ' ' by {
            if i > 0 {
                assert(rest[i - 1] == ' ');
            }
        }
    } else {
        assert(s.skip(0) =~= s);
    }
}

/// A piece for a byte shows the character of its value when it is looked at by
/// itself.
pub proof fn bytes_are_visible_one_by_one(v: Vocab, id: u32, b: u8)
    requires
        is_for_byte(v, id, b),
    ensures
        v.visible(id) == seq![b as char],
{
    assert(v.visible(id) =~= seq![b as char]);
}

/// The hexadecimal digit of a number below sixteen.
pub open spec fn hex_char(d: int, upper: bool) -> char {
    if d < 10 {
        (48 + d) as char
    } else if upper {
        (55 + d) as char
    } else {
        (87 + d) as char
    }
}

proof fn lemma_ascii_char(c: char)
    requires
        c < '\u{80}',
    ensures
        c as u32 == (c as u8) as u32,
        (c as u8) < 0x80,
{
}

proof fn lemma_ascii(text: Seq<char>)
    requires
        forall|i: int| 0 <= i < text.len() ==> #[trigger] text[i] < '\u{80}',
    ensures
        encode_utf8(text) == Seq::new(text.len(), |i: int| text[i] as u8),
    decreases text.len(),
{
    let bytes = Seq::new(text.len(), |i: int| text[i] as u8);
    if text.len() > 0 {
        let rest = text.drop_first();
        assert forall|i: int| 0 <= i < rest.len() implies #[trigger] rest[i] < '\u{80}' by {
            assert(text[i + 1] < '\u{80}');
        }
        lemma_ascii(rest);
        let u = text[0] as u32;
        let b = text[0] as u8;
        lemma_ascii_char(text[0]);
        assert((u & 0x7F) as u8 == b) by (bit_vector)
            requires
                u == b as u32,
                b < 0x80,
        ;
        assert(bytes =~= seq![b] + Seq::new(rest.len(), |i: int| rest[i] as u8));
        assert(encode_utf8(text) =~= seq![b] + encode_utf8(rest));
    } else {
        assert(encode_utf8(text) =~= bytes);
    }
}

/// A byte is named by two hexadecimal digits between `<0x` and `>`, in upper or
/// lower case, the higher one first.
pub proof fn byte_pieces_name_their_bytes(hi: int, lo: int, upper: bool)
    requires
        0 <= hi < 16,
        0 <= lo < 16,
    ensures
        byte_of(seq!['<', '0', 'x', hex_char(hi, upper), hex_char(lo, upper), '>']) == Some(
            (16 * hi + lo) as u8,
        ),
        has_hex_slice(seq!['<', '0', 'x', hex_char(hi, upper), hex_char(lo, upper), '>']),
{
    let text = seq!['<', '0', 'x', hex_char(hi, upper), hex_char(lo, upper), '>'];
    lemma_ascii(text);
    let bytes = encode_utf8(text);
    assert(bytes[3] == hex_char(hi, upper) as u8);
    assert(bytes[4] == hex_char(lo, upper) as u8);
    assert(hex_pair(bytes[3], bytes[4]) == Some((16 * hi + lo) as u8));
    assert(bytes[5] == '>' as u8);
    encode_utf8_valid_utf8(text);
    is_char_boundary_iff_not_is_continuation_byte(bytes, 3);
    is_char_boundary_iff_not_is_continuation_byte(bytes, 5);
}

/// Is the character a hexadecimal digit?
pub open spec fn is_hex_char(c: char) -> bool {
    '0' <= c <= '9' || 'A' <= c <= 'F' || 'a' <= c <= 'f'
}

/// Where one of the two characters is no hexadecimal digit no byte is named,
/// but for a plus sign in the place of the first one.
pub proof fn other_characters_name_no_byte(a: char, b: char)
    requires
        a < '\u{80}',
        b < '\u{80}',
    ensures
        !is_hex_char(b) || (!is_hex_char(a) && a != '+') ==> byte_of(
            seq!['<', '0', 'x', a, b, '>'],
        ) is None,
        is_hex_char(b) ==> byte_of(seq!['<', '0', 'x', '+', b, '>']) == byte_of(
            seq!['<', '0', 'x', '0', b, '>'],
        ),
{
    lemma_digits(a, b);
    lemma_digits('+', b);
    lemma_digits('0', b);
    lemma_ascii_char(a);
    lemma_ascii_char(b);
}

proof fn lemma_digits(a: char, b: char)
    requires
        a < '\u{80}',
        b < '\u{80}',
    ensures
        byte_of(seq!['<', '0', 'x', a, b, '>']) == hex_pair(a as u8, b as u8),
{
    let text = seq!['<', '0', 'x', a, b, '>'];
    lemma_ascii(text);
}

/// Only the fourth and the fifth character of a text in ASCII name a byte, and
/// any text that has them can be asked for it.
pub proof fn two_characters_name_a_byte(text: Seq<char>)
    requires
        forall|i: int| 0 <= i < text.len() ==> #[trigger] text[i] < '\u{80}',
    ensures
        text.len() >= 5 ==> has_hex_slice(text) && byte_of(text) == byte_of(
            seq!['<', '0', 'x', text[3], text[4], '>'],
        ),
        text.len() < 5 ==> !has_hex_slice(text),
{
    lemma_ascii(text);
    let bytes = encode_utf8(text);
    if text.len() >= 5 {
        assert(text[3] < '\u{80}' && text[4] < '\u{80}');
        lemma_digits(text[3], text[4]);
        encode_utf8_valid_utf8(text);
        lemma_ascii_char(text[3]);
        is_char_boundary_iff_not_is_continuation_byte(bytes, 3);
        if text.len() > 5 {
            assert(text[5] < '\u{80}');
            lemma_ascii_char(text[5]);
            is_char_boundary_iff_not_is_continuation_byte(bytes, 5);
        } else {
            is_char_boundary_start_end_of_seq(bytes);
        }
    }
}

} // verus!
