//! Tool names as the model knows them: in snake case.

use crate::text::{
    all_ascii, ascii_lower, chars_of, is_squeezed, lemma_squeezed_fixed, lemma_squeezed_is_squeezed,
    squeeze, squeezed, string_of,
};
use vstd::prelude::*;

verus! {

pub open spec fn is_upper(c: char) -> bool {
    'A' <= c <= 'Z'
}

pub open spec fn is_lower(c: char) -> bool {
    'a' <= c <= 'z'
}

pub open spec fn is_digit(c: char) -> bool {
    '0' <= c <= '9'
}

/// The name with an underscore for each character that is not an ASCII letter
/// or digit.
pub open spec fn sanitized(name: Seq<char>) -> Seq<char> {
    name.map_values(
        |c: char|
            if is_upper(c) || is_lower(c) || is_digit(c) {
                c
            } else {
                '_'
            },
    )
}

/// Does a new word start at `i`? An upper-case letter starts one after a
/// lower-case letter or a digit, and after an upper-case one where a
/// lower-case one follows.
pub open spec fn starts_word(s: Seq<char>, i: int) -> bool {
    &&& 0 < i < s.len()
    &&& is_upper(s[i])
    &&& is_lower(s[i - 1]) || is_digit(s[i - 1]) || (is_upper(s[i - 1]) && i + 1 < s.len()
        && is_lower(s[i + 1]))
}

/// The first `n` characters, with an underscore before each new word.
pub open spec fn split_words(s: Seq<char>, n: int) -> Seq<char>
    decreases n,
{
    if n <= 0 {
        Seq::empty()
    } else if starts_word(s, n - 1) {
        split_words(s, n - 1).push('_').push(s[n - 1])
    } else {
        split_words(s, n - 1).push(s[n - 1])
    }
}

/// The characters in lower case.
pub open spec fn lowered(s: Seq<char>) -> Seq<char> {
    s.map_values(|c: char| ascii_lower(c))
}

/// The name in snake case: words apart, in lower case, with single underscores
/// between them and none at either end.
pub open spec fn snake_case(name: Seq<char>) -> Seq<char> {
    let s = sanitized(name);
    squeezed(lowered(split_words(s, s.len() as int)), '_')
}

/// Is the character one that snake case is made of?
pub open spec fn is_snake_char(c: char) -> bool {
    is_lower(c) || is_digit(c) || c == '_'
}

fn upper(c: char) -> (r: bool)
    ensures
        r == is_upper(c),
{
    'A' <= c && c <= 'Z'
}

fn lower(c: char) -> (r: bool)
    ensures
        r == is_lower(c),
{
    'a' <= c && c <= 'z'
}

fn digit(c: char) -> (r: bool)
    ensures
        r == is_digit(c),
{
    '0' <= c && c <= '9'
}

/// Splitting into words keeps to ASCII.
proof fn lemma_split_is_ascii(s: Seq<char>, n: int)
    requires
        all_ascii(s),
        n <= s.len(),
    ensures
        all_ascii(split_words(s, n)),
    decreases n,
{
    if n > 0 {
        lemma_split_is_ascii(s, n - 1);
    }
}

/// Puts a tool name into snake case.
pub fn to_snake_case(name: &str) -> (r: String)
    ensures
        r@ == snake_case(name@),
{
    let cs = chars_of(name);
    let mut s: Vec<char> = Vec::new();
    for i in 0..cs.len()
        invariant
            s@ == sanitized(cs@).take(i as int),
    {
        let c = cs[i];
        s.push(
            if upper(c) || lower(c) || digit(c) {
                c
            } else {
                '_'
            },
        );
        assert(sanitized(cs@).take(i + 1) =~= sanitized(cs@).take(i as int).push(
            sanitized(cs@)[i as int],
        ));
    }
    assert(sanitized(cs@).take(cs@.len() as int) =~= sanitized(cs@));
    let mut out = String::new();
    for i in 0..s.len()
        invariant
            out@ == split_words(s@, i as int),
    {
        let c = s[i];
        if upper(c) && i > 0 {
            let prev = s[i - 1];
            let next_lower = i + 1 < s.len() && lower(s[i + 1]);
            if lower(prev) || digit(prev) || (upper(prev) && next_lower) {
                out.push('_');
            }
        }
        out.push(c);
    }
    proof {
        assert(all_ascii(s@));
        lemma_split_is_ascii(s@, s@.len() as int);
    }
    let low = out.to_lowercase();
    string_of(&squeeze(&chars_of(low.as_str()), '_'))
}

/// Squeezing brings in no new characters.
proof fn lemma_squeezed_chars(s: Seq<char>)
    requires
        forall|i: int| 0 <= i < s.len() ==> is_snake_char(#[trigger] s[i]),
    ensures
        forall|i: int|
            0 <= i < squeezed(s, '_').len() ==> is_snake_char(#[trigger] squeezed(s, '_')[i]),
    decreases s.len(),
{
    if s.len() > 0 {
        let head = s.drop_last();
        assert forall|i: int| 0 <= i < head.len() implies is_snake_char(#[trigger] head[i]) by {
            assert(is_snake_char(s[i]));
        }
        lemma_squeezed_chars(head);
        let before = squeezed(head, '_');
        let after = squeezed(s, '_');
        assert forall|i: int| 0 <= i < after.len() implies is_snake_char(#[trigger] after[i]) by {
            if i < before.len() {
                assert(is_snake_char(before[i]));
            } else {
                assert(is_snake_char(s[s.len() - 1]));
            }
        }
    }
}

/// Splitting keeps to letters, digits and underscores.
proof fn lemma_split_chars(name: Seq<char>, n: int)
    requires
        0 <= n <= name.len(),
    ensures
        forall|i: int|
            0 <= i < split_words(sanitized(name), n).len() ==> is_snake_char(
                ascii_lower(#[trigger] split_words(sanitized(name), n)[i]),
            ),
    decreases n,
{
    if n > 0 {
        lemma_split_chars(name, n - 1);
        let before = split_words(sanitized(name), n - 1);
        let after = split_words(sanitized(name), n);
        assert forall|i: int| 0 <= i < after.len() implies is_snake_char(
            ascii_lower(#[trigger] after[i]),
        ) by {
            if i < before.len() {
                assert(is_snake_char(ascii_lower(before[i])));
            } else {
                let c = sanitized(name)[n - 1];
                assert(is_snake_char(ascii_lower(c)));
            }
        }
    }
}

/// A name in snake case holds lower-case ASCII letters, digits and
/// underscores, with no underscore at either end and no two side by side.
pub proof fn snake_case_is_tidy(name: Seq<char>)
    ensures
        forall|i: int|
            0 <= i < snake_case(name).len() ==> is_snake_char(#[trigger] snake_case(name)[i]),
        is_squeezed(snake_case(name), '_'),
{
    let s = sanitized(name);
    let low = lowered(split_words(s, s.len() as int));
    lemma_split_chars(name, name.len() as int);
    assert forall|i: int| 0 <= i < low.len() implies is_snake_char(#[trigger] low[i]) by {
        let split = split_words(s, s.len() as int);
        assert(low[i] == ascii_lower(split[i]));
    }
    lemma_squeezed_chars(low);
    lemma_squeezed_is_squeezed(low, '_');
}

/// Text without upper-case letters has no words to split.
proof fn lemma_nothing_to_split(s: Seq<char>, n: int)
    requires
        0 <= n <= s.len(),
        forall|i: int| 0 <= i < s.len() ==> !is_upper(#[trigger] s[i]),
    ensures
        split_words(s, n) == s.take(n),
    decreases n,
{
    if n > 0 {
        lemma_nothing_to_split(s, n - 1);
        assert(!is_upper(s[n - 1]));
        assert(s.take(n) =~= s.take(n - 1).push(s[n - 1]));
    } else {
        assert(s.take(0) =~= Seq::empty());
    }
}

/// A name that is tidy snake case stays as it is.
pub proof fn tidy_snake_case_stays(name: Seq<char>)
    requires
        forall|i: int| 0 <= i < name.len() ==> is_snake_char(#[trigger] name[i]),
        is_squeezed(name, '_'),
    ensures
        snake_case(name) == name,
{
    assert(sanitized(name) =~= name);
    assert forall|i: int| 0 <= i < name.len() implies !is_upper(#[trigger] name[i]) by {
        assert(is_snake_char(name[i]));
    }
    lemma_nothing_to_split(name, name.len() as int);
    assert(name.take(name.len() as int) =~= name);
    assert(lowered(name) =~= name);
    lemma_squeezed_fixed(name, '_');
}

/// Putting a name into snake case twice is doing it once.
pub proof fn snake_case_is_idempotent(name: Seq<char>)
    ensures
        snake_case(snake_case(name)) == snake_case(name),
{
    snake_case_is_tidy(name);
    tidy_snake_case_stays(snake_case(name));
}

} // verus!
