//! What a tool name becomes in snake case, told by its letters.

use crate::laws::texts::{squeezing_keeps_words_apart, squeezing_leaves_words_alone};
use crate::snake::{lowered, sanitized, snake_case, split_words, starts_word};
use crate::text::ascii_lower;
use vstd::prelude::*;

verus! {

/// Is it an upper-case ASCII letter?
pub open spec fn is_big(c: char) -> bool {
    'A' <= c <= 'Z'
}

/// Is it a lower-case ASCII letter?
pub open spec fn is_small(c: char) -> bool {
    'a' <= c <= 'z'
}

/// Is it an ASCII digit?
pub open spec fn is_figure(c: char) -> bool {
    '0' <= c <= '9'
}

/// Two names with an underscore between them, where neither is empty.
pub open spec fn linked(a: Seq<char>, b: Seq<char>) -> Seq<char> {
    if a.len() == 0 {
        b
    } else if b.len() == 0 {
        a
    } else {
        a + seq!['_'] + b
    }
}

/// Splitting the front of a name does not depend on what is behind it, where
/// that starts with no lower-case letter.
proof fn lemma_split_front(s: Seq<char>, t: Seq<char>, n: int)
    requires
        0 <= n <= s.len(),
        t.len() > 0 ==> !is_small(t[0]),
    ensures
        split_words(s + t, n) == split_words(s, n),
    decreases n,
{
    if n > 0 {
        lemma_split_front(s, t, n - 1);
        let all = s + t;
        assert(all[n - 1] == s[n - 1]);
        assert(starts_word(all, n - 1) == starts_word(s, n - 1)) by {
            if n > 1 {
                assert(all[n - 2] == s[n - 2]);
            }
            if n < s.len() {
                assert(all[n] == s[n]);
            } else if n < all.len() {
                assert(all[n] == t[0]);
            }
        }
    }
}

/// Splitting the back of a name does not depend on what is before it, but for
/// its first character.
proof fn lemma_split_back(s: Seq<char>, t: Seq<char>, n: int)
    requires
        0 < n <= t.len(),
    ensures
        split_words(s + t, s.len() + n) == split_words(s + t, s.len() as int) + (if starts_word(
            s + t,
            s.len() as int,
        ) {
            seq!['_']
        } else {
            Seq::empty()
        }) + split_words(t, n),
    decreases n,
{
    let all = s + t;
    let m = s.len() as int;
    let front = split_words(all, m);
    let mark = if starts_word(all, m) {
        seq!['_']
    } else {
        Seq::<char>::empty()
    };
    assert(all[m + n - 1] == t[n - 1]);
    if n == 1 {
        assert(split_words(t, 0) =~= Seq::empty());
        assert(split_words(t, 1) =~= seq![t[0]]);
        assert(split_words(all, m + 1) =~= front + mark + seq![t[0]]);
    } else {
        lemma_split_back(s, t, n - 1);
        assert(all[m + n - 2] == t[n - 2]);
        assert(starts_word(all, m + n - 1) == starts_word(t, n - 1)) by {
            if n < t.len() {
                assert(all[m + n] == t[n]);
            }
        }
        assert(split_words(all, m + n) =~= front + mark + split_words(t, n));
    }
}

proof fn lemma_sanitized_joined(a: Seq<char>, b: Seq<char>)
    ensures
        sanitized(a + b) == sanitized(a) + sanitized(b),
{
    assert(sanitized(a + b) =~= sanitized(a) + sanitized(b));
}

proof fn lemma_lowered_joined(a: Seq<char>, b: Seq<char>)
    ensures
        lowered(a + b) == lowered(a) + lowered(b),
{
    assert(lowered(a + b) =~= lowered(a) + lowered(b));
}

/// What is split with an underscore between the parts has the parts in snake
/// case with one between them.
proof fn lemma_linked(name: Seq<char>, a: Seq<char>, b: Seq<char>)
    requires
        ({
            let s = sanitized(name);
            let x = sanitized(a);
            let y = sanitized(b);
            split_words(s, s.len() as int) == split_words(x, x.len() as int) + seq!['_']
                + split_words(y, y.len() as int)
        }),
    ensures
        snake_case(name) == linked(snake_case(a), snake_case(b)),
{
    let x = split_words(sanitized(a), sanitized(a).len() as int);
    let y = split_words(sanitized(b), sanitized(b).len() as int);
    lemma_lowered_joined(x + seq!['_'], y);
    lemma_lowered_joined(x, seq!['_']);
    assert(lowered(seq!['_']) =~= seq!['_']);
    assert(lowered(x) + seq!['_'] =~= lowered(x).push('_'));
    squeezing_keeps_words_apart(lowered(x), lowered(y), '_');
    assert(snake_case(a).push('_') + snake_case(b) =~= snake_case(a) + seq!['_'] + snake_case(b));
}

/// A new word starts where an upper-case letter follows a lower-case one or a
/// digit, and where the last of several upper-case letters is followed by a
/// lower-case one: both parts are put into snake case, with one underscore
/// between them.
pub proof fn words_are_parted(a: Seq<char>, b: Seq<char>)
    requires
        a.len() > 0,
        b.len() > 0,
        is_big(b[0]),
        is_small(a.last()) || is_figure(a.last()) || (is_big(a.last()) && b.len() > 1 && is_small(
            b[1],
        )),
    ensures
        snake_case(a + b) == linked(snake_case(a), snake_case(b)),
{
    let x = sanitized(a);
    let y = sanitized(b);
    lemma_sanitized_joined(a, b);
    assert(y[0] == b[0]);
    assert(x.last() == a.last());
    let all = x + y;
    assert(all[x.len() as int] == y[0]);
    assert(all[x.len() - 1] == x.last());
    if b.len() > 1 {
        assert(all[(x.len() + 1) as int] == y[1]);
    }
    assert(starts_word(all, x.len() as int)) by {
        if b.len() > 1 && is_small(b[1]) {
            assert(y[1] == b[1]);
        }
    }
    lemma_split_front(x, y, x.len() as int);
    lemma_split_back(x, y, y.len() as int);
    lemma_linked(a + b, a, b);
}

/// A character that is neither a letter nor a digit of ASCII parts words: both
/// parts are put into snake case, with one underscore between them.
pub proof fn other_characters_part_words(a: Seq<char>, c: char, b: Seq<char>)
    requires
        !is_big(c),
        !is_small(c),
        !is_figure(c),
    ensures
        snake_case(a + seq![c] + b) == linked(snake_case(a), snake_case(b)),
{
    let x = sanitized(a);
    let y = sanitized(b);
    let gap = seq!['_'];
    lemma_sanitized_joined(a + seq![c], b);
    lemma_sanitized_joined(a, seq![c]);
    assert(sanitized(seq![c]) =~= gap);
    let all = x + gap + y;
    let n = x.len() as int;
    assert(all =~= x + (gap + y));
    lemma_split_front(x, gap + y, n);
    assert(all[n] == '_');
    assert(split_words(all, n + 1) == split_words(x, n).push('_'));
    if y.len() > 0 {
        assert(all =~= (x + gap) + y);
        assert(!starts_word(all, n + 1)) by {
            assert(all[n + 1 - 1] == '_');
        }
        lemma_split_back(x + gap, y, y.len() as int);
        assert(split_words(all, n + 1 + y.len()) =~= split_words(x, n) + gap + split_words(
            y,
            y.len() as int,
        ));
    } else {
        assert(split_words(y, 0) =~= Seq::empty());
        assert(split_words(all, n + 1) =~= split_words(x, n) + gap + split_words(y, 0));
    }
    lemma_linked(a + seq![c] + b, a, b);
}

/// Does a new word start at `i`?
pub open spec fn parts_words(name: Seq<char>, i: int) -> bool {
    is_big(name[i]) && (is_small(name[i - 1]) || is_figure(name[i - 1]) || (is_big(name[i - 1]) && i
        + 1 < name.len() && is_small(name[i + 1])))
}

/// A single word of letters and digits keeps them all, its letters in lower
/// case.
pub proof fn single_words_are_lowered(name: Seq<char>, i: int)
    requires
        forall|k: int|
            0 <= k < name.len() ==> is_big(#[trigger] name[k]) || is_small(name[k]) || is_figure(
                name[k],
            ),
        forall|k: int| 0 < k < name.len() ==> !#[trigger] parts_words(name, k),
    ensures
        snake_case(name).len() == name.len(),
        0 <= i < name.len() && is_big(name[i]) ==> snake_case(name)[i] as int == name[i] as int
            + 32,
        0 <= i < name.len() && !is_big(name[i]) ==> snake_case(name)[i] == name[i],
{
    assert(sanitized(name) =~= name);
    lemma_one_word(name, name.len() as int);
    assert(name.take(name.len() as int) =~= name);
    let low = lowered(name);
    assert forall|k: int| 0 <= k < low.len() implies #[trigger] low[k] != '_' by {
        assert(is_big(name[k]) || is_small(name[k]) || is_figure(name[k]));
        lemma_lower(name[k]);
    }
    squeezing_leaves_words_alone(low, '_');
    if 0 <= i < name.len() {
        lemma_lower(name[i]);
    }
}

proof fn lemma_lower(c: char)
    ensures
        is_big(c) ==> ascii_lower(c) as int == c as int + 32,
        !is_big(c) ==> ascii_lower(c) == c,
        is_big(c) || is_small(c) || is_figure(c) ==> ascii_lower(c) != '_',
{
}

proof fn lemma_one_word(s: Seq<char>, n: int)
    requires
        0 <= n <= s.len(),
        forall|k: int| 0 < k < s.len() ==> !#[trigger] parts_words(s, k),
    ensures
        split_words(s, n) == s.take(n),
    decreases n,
{
    if n > 0 {
        lemma_one_word(s, n - 1);
        if n > 1 {
            assert(!parts_words(s, n - 1));
        }
        assert(s.take(n) =~= s.take(n - 1).push(s[n - 1]));
    } else {
        assert(s.take(0) =~= Seq::empty());
    }
}

} // verus!
