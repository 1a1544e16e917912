//! What trimming, squeezing, joining and writing numerals do to a text.

use crate::cli::{digits_value, is_digits, number_in};
use crate::text::{
    decimal, is_doubled, is_white_space, joined, lemma_squeezed_fixed, signed_decimal,
    squeezed, trimmed, trimmed_end, trimmed_start, without_prefix,
};
use vstd::prelude::*;

verus! {

/// Is every character white space?
pub open spec fn all_white(s: Seq<char>) -> bool {
    forall|i: int| 0 <= i < s.len() ==> is_white_space(#[trigger] s[i])
}

/// Has the text no white space at either end?
pub open spec fn is_bare(s: Seq<char>) -> bool {
    s.len() > 0 ==> !is_white_space(s[0]) && !is_white_space(s.last())
}

proof fn lemma_trim_start(a: Seq<char>, s: Seq<char>)
    requires
        all_white(a),
    ensures
        trimmed_start(a + s) == trimmed_start(s),
    decreases a.len(),
{
    if a.len() == 0 {
        assert(a + s =~= s);
    } else {
        let rest = a.drop_first();
        assert(is_white_space(a[0]));
        assert forall|i: int| 0 <= i < rest.len() implies is_white_space(#[trigger] rest[i]) by {
            assert(is_white_space(a[i + 1]));
        }
        assert((a + s).drop_first() =~= rest + s);
        lemma_trim_start(rest, s);
    }
}

proof fn lemma_trim_end(s: Seq<char>, c: Seq<char>)
    requires
        all_white(c),
    ensures
        trimmed_end(s + c) == trimmed_end(s),
    decreases c.len(),
{
    if c.len() == 0 {
        assert(s + c =~= s);
    } else {
        let rest = c.drop_last();
        assert(is_white_space(c[c.len() - 1]));
        assert forall|i: int| 0 <= i < rest.len() implies is_white_space(#[trigger] rest[i]) by {
            assert(is_white_space(c[i]));
        }
        assert((s + c).drop_last() =~= s + rest);
        assert((s + c).last() == c.last());
        lemma_trim_end(s, rest);
    }
}

/// Trimming takes away the white space around a text, and nothing else.
pub proof fn trimming_takes_the_white_space_around(a: Seq<char>, s: Seq<char>, b: Seq<char>)
    requires
        all_white(a),
        is_bare(s),
        all_white(b),
    ensures
        trimmed(a + s + b) == s,
{
    assert(a + s + b =~= a + (s + b));
    lemma_trim_start(a, s + b);
    if s.len() == 0 {
        assert(s + b =~= b + s);
        lemma_trim_start(b, s);
        assert(trimmed_start(s) =~= s);
    } else {
        assert((s + b)[0] == s[0]);
        lemma_trim_end(s, b);
    }
}

/// Squeezing keeps parts apart that a separator keeps apart: there is one
/// between them then, and none where one of them has nothing else.
pub proof fn squeezing_keeps_words_apart(a: Seq<char>, b: Seq<char>, sep: char)
    ensures
        squeezed(a.push(sep) + b, sep) == (if squeezed(a, sep).len() == 0 {
            squeezed(b, sep)
        } else if squeezed(b, sep).len() == 0 {
            squeezed(a, sep)
        } else {
            squeezed(a, sep).push(sep) + squeezed(b, sep)
        }),
    decreases b.len(),
{
    let s = a.push(sep) + b;
    let front = squeezed(a, sep);
    if b.len() == 0 {
        assert(s =~= a.push(sep));
        assert(s.drop_last() =~= a);
    } else {
        let rest = b.drop_last();
        squeezing_keeps_words_apart(a, rest, sep);
        assert(s.drop_last() =~= a.push(sep) + rest);
        assert(s.last() == b.last());
        let back = squeezed(rest, sep);
        if b.last() != sep && front.len() > 0 {
            if back.len() == 0 {
                if rest.len() > 0 {
                    assert(rest.last() == sep);
                    assert(s[s.len() - 2] == rest.last());
                } else {
                    assert(s[s.len() - 2] == sep);
                }
                assert(squeezed(b, sep) =~= seq![b.last()]);
                assert(squeezed(s, sep) =~= front.push(sep) + squeezed(b, sep));
            } else {
                assert(s[s.len() - 2] == b[b.len() - 2]);
                assert(squeezed(s, sep) =~= front.push(sep) + squeezed(b, sep));
            }
        } else if b.last() != sep && back.len() > 0 {
            assert(s[s.len() - 2] == b[b.len() - 2]);
        }
    }
}

/// Squeezing leaves a text without a separator as it is.
pub proof fn squeezing_leaves_words_alone(s: Seq<char>, sep: char)
    requires
        forall|i: int| 0 <= i < s.len() ==> #[trigger] s[i] != sep,
    ensures
        squeezed(s, sep) == s,
{
    assert forall|i: int| 0 < i < s.len() implies !#[trigger] is_doubled(s, sep, i) by {
        assert(s[i] != sep);
    }
    if s.len() > 0 {
        assert(s[0] != sep);
        assert(s[s.len() - 1] != sep);
    }
    lemma_squeezed_fixed(s, sep);
}

/// Joining puts one separator between the parts, none in front and none behind.
pub proof fn joining_puts_one_between(a: Seq<Seq<char>>, b: Seq<Seq<char>>, sep: char)
    ensures
        joined(Seq::empty(), sep) == Seq::<char>::empty(),
        a.len() == 1 ==> joined(a, sep) == a[0],
        a.len() > 0 && b.len() > 0 ==> joined(a + b, sep) == joined(a, sep) + seq![sep] + joined(
            b,
            sep,
        ),
    decreases b.len(),
{
    if a.len() > 0 && b.len() > 0 {
        assert((a + b).drop_last() =~= a + b.drop_last());
        assert((a + b).last() == b.last());
        if b.len() == 1 {
            assert(a + b.drop_last() =~= a);
            assert(joined(a + b, sep) =~= joined(a, sep) + seq![sep] + joined(b, sep));
        } else {
            joining_puts_one_between(a, b.drop_last(), sep);
            assert(joined(a + b, sep) =~= joined(a, sep) + seq![sep] + joined(b, sep));
        }
    }
}

/// A numeral holds decimal digits only, no zero in front of others, and is read
/// back as the number that it was written for.
pub proof fn numerals_are_read_back(n: nat)
    ensures
        decimal(n).len() > 0,
        forall|i: int| 0 <= i < decimal(n).len() ==> '0' <= #[trigger] decimal(n)[i] <= '9',
        decimal(n).len() > 1 ==> decimal(n)[0] != '0',
        digits_value(decimal(n)) == n,
        n <= usize::MAX ==> number_in(decimal(n)) == Some(n as usize),
    decreases n,
{
    let s = decimal(n);
    assert(s.last() as int == 48 + n % 10);
    if n >= 10 {
        numerals_are_read_back(n / 10);
        let head = decimal(n / 10);
        assert(s.drop_last() =~= head);
        assert forall|i: int| 0 <= i < s.len() implies '0' <= #[trigger] s[i] <= '9' by {
            if i < head.len() {
                assert(s[i] == head[i]);
            }
        }
        if head.len() == 1 {
            assert(digits_value(head.drop_last()) == 0);
            assert(head[0] == head.last());
            assert(n / 10 > 0);
        }
        assert(s[0] == head[0]);
    } else {
        assert(s.drop_last().len() == 0);
        assert(digits_value(s.drop_last()) == 0);
    }
    assert('0' <= s[0] <= '9');
}

/// Zeros in front of a numeral and a plus sign in front of it change nothing.
pub proof fn zeros_and_signs_in_front_change_nothing(s: Seq<char>)
    requires
        s.len() > 0,
        forall|i: int| 0 <= i < s.len() ==> '0' <= #[trigger] s[i] <= '9',
    ensures
        digits_value(seq!['0'] + s) == digits_value(s),
        number_in(seq!['0'] + s) == number_in(s),
        number_in(seq!['+'] + s) == number_in(s),
        digits_value(s) <= usize::MAX ==> number_in(s) == Some(digits_value(s) as usize),
        digits_value(s) > usize::MAX ==> number_in(s) is None,
{
    lemma_zero_in_front(s);
    let t = seq!['0'] + s;
    assert forall|i: int| 0 <= i < t.len() implies '0' <= #[trigger] t[i] <= '9' by {
        if i > 0 {
            assert(t[i] == s[i - 1]);
        }
    }
    assert(is_digits(t));
    assert('0' <= s[0] <= '9');
    assert((seq!['+'] + s).skip(1) =~= s);
}

proof fn lemma_zero_in_front(s: Seq<char>)
    ensures
        digits_value(seq!['0'] + s) == digits_value(s),
    decreases s.len(),
{
    let t = seq!['0'] + s;
    if s.len() > 0 {
        lemma_zero_in_front(s.drop_last());
        assert(t.drop_last() =~= seq!['0'] + s.drop_last());
        assert(t.last() == s.last());
    } else {
        assert(t.drop_last() =~= Seq::empty());
        assert(digits_value(t.drop_last()) == 0);
        assert(t.last() == '0');
    }
}

/// The numeral of a negative number is that of its size behind a minus sign.
pub proof fn negative_numerals_have_a_sign(n: int)
    ensures
        n >= 0 ==> digits_value(signed_decimal(n)) == n,
        n < 0 ==> signed_decimal(n)[0] == '-' && digits_value(signed_decimal(n).skip(1)) == -n,
{
    if n >= 0 {
        numerals_are_read_back(n as nat);
    } else {
        numerals_are_read_back((-n) as nat);
        assert(signed_decimal(n).skip(1) =~= decimal((-n) as nat));
    }
}

/// A prefix is taken away where it is there, and only there.
pub proof fn stripping_takes_the_prefix(prefix: Seq<char>, s: Seq<char>)
    ensures
        without_prefix(prefix + s, prefix) == s,
        !prefix.is_prefix_of(s) ==> without_prefix(s, prefix) == s,
{
    assert(prefix =~= (prefix + s).subrange(0, prefix.len() as int));
    assert((prefix + s).skip(prefix.len() as int) =~= s);
}

} // verus!
