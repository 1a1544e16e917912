//! Characters, decimal numerals, trimming and joining.
//!
//! A string is modelled by the sequence of its characters. Executable code
//! works on `Vec<char>` and goes back to `String` at the edges.

use vstd::prelude::*;
use vstd::utf8::*;

verus! {

/// `String::push` appends one character to the end of the string.
pub assume_specification[ String::push ](s: &mut String, c: char)
    ensures
        final(s)@ == old(s)@.push(c),
;

/// The characters of `s`, in order.
pub fn chars_of(s: &str) -> (r: Vec<char>)
    ensures
        r@ == s@,
{
    let mut out: Vec<char> = Vec::new();
    for c in it: s.chars()
        invariant
            it.seq() == s@,
            out@ == s@.take(it.index()),
    {
        out.push(c);
    }
    assert(s@.take(s@.len() as int) =~= s@);
    out
}

/// The string made of the characters of `cs`.
pub fn string_of(cs: &Vec<char>) -> (r: String)
    ensures
        r@ == cs@,
{
    let mut out = String::new();
    for i in 0..cs.len()
        invariant
            out@ == cs@.take(i as int),
    {
        out.push(cs[i]);
        assert(cs@.take(i + 1) =~= cs@.take(i as int).push(cs[i as int]));
    }
    assert(cs@.take(cs@.len() as int) =~= cs@);
    out
}

/// Do the two strings hold the same characters?
pub fn str_eq(a: &str, b: &str) -> (r: bool)
    ensures
        r == (a@ == b@),
{
    a.to_owned() == b.to_owned()
}

/// Does the text start with `prefix`?
pub fn starts_with(s: &Vec<char>, prefix: &Vec<char>) -> (r: bool)
    ensures
        r == prefix@.is_prefix_of(s@),
{
    if prefix.len() > s.len() {
        return false;
    }
    for i in 0..prefix.len()
        invariant
            prefix@.len() <= s@.len(),
            forall|j: int| 0 <= j < i ==> prefix@[j] == #[trigger] s@[j],
    {
        if s[i] != prefix[i] {
            assert(s@.take(prefix@.len() as int)[i as int] != prefix@[i as int]);
            return false;
        }
    }
    assert(s@.take(prefix@.len() as int) =~= prefix@);
    true
}

/// `s` without `prefix` in front, where it is there.
pub open spec fn without_prefix(s: Seq<char>, prefix: Seq<char>) -> Seq<char> {
    if prefix.is_prefix_of(s) {
        s.skip(prefix.len() as int)
    } else {
        s
    }
}

/// Removes `prefix` in front of `s`, where it is there.
pub fn strip_prefix(s: &str, prefix: &str) -> (r: String)
    ensures
        r@ == without_prefix(s@, prefix@),
{
    let cs = chars_of(s);
    let ps = chars_of(prefix);
    if !starts_with(&cs, &ps) {
        return string_of(&cs);
    }
    let n: usize = ps.len();
    let mut out = String::new();
    let ghost rest = cs@.skip(n as int);
    for i in n..cs.len()
        invariant
            n <= cs@.len(),
            rest == cs@.skip(n as int),
            out@ == rest.take(i - n),
    {
        out.push(cs[i]);
        assert(rest.take(i + 1 - n) =~= rest.take(i - n).push(cs@[i as int]));
    }
    assert(rest.take(rest.len() as int) =~= rest);
    out
}

/// The decimal digit of `d`, for `d < 10`.
pub open spec fn digit(d: int) -> char {
    (48 + d) as char
}

/// The decimal numeral of `n`: no sign, no leading zero.
pub open spec fn decimal(n: nat) -> Seq<char>
    decreases n,
{
    if n < 10 {
        seq![digit(n as int)]
    } else {
        decimal(n / 10).push(digit((n % 10) as int))
    }
}

/// The decimal numeral of an integer, with a sign where it is negative.
pub open spec fn signed_decimal(n: int) -> Seq<char> {
    if n < 0 {
        seq!['-'] + decimal((-n) as nat)
    } else {
        decimal(n as nat)
    }
}

/// Different numbers have different numerals.
pub proof fn lemma_decimal_injective(m: nat, n: nat)
    requires
        decimal(m) == decimal(n),
    ensures
        m == n,
    decreases m,
{
    let dm = decimal(m);
    let dn = decimal(n);
    assert(dm.len() > 0 && dn.len() > 0);
    assert(dm.last() == digit((m % 10) as int));
    assert(dn.last() == digit((n % 10) as int));
    assert(dm.last() as int == 48 + m % 10);
    assert(dn.last() as int == 48 + n % 10);
    if m >= 10 && n >= 10 {
        assert(dm.drop_last() =~= decimal(m / 10));
        assert(dn.drop_last() =~= decimal(n / 10));
        lemma_decimal_injective(m / 10, n / 10);
    } else if m >= 10 {
        assert(decimal(m / 10).len() > 0);
    } else if n >= 10 {
        assert(decimal(n / 10).len() > 0);
    }
}

fn digit_char(d: u8) -> (r: char)
    requires
        d < 10,
    ensures
        r == digit(d as int),
{
    (48 + d) as char
}

fn push_decimal(n: u64, out: &mut String)
    ensures
        final(out)@ == old(out)@ + decimal(n as nat),
    decreases n,
{
    if n >= 10 {
        push_decimal(n / 10, out);
    }
    out.push(digit_char((n % 10) as u8));
    assert(out@ =~= old(out)@ + decimal(n as nat));
}

/// Writes `n` in decimal.
pub fn decimal_text(n: u64) -> (r: String)
    ensures
        r@ == decimal(n as nat),
{
    let mut out = String::new();
    push_decimal(n, &mut out);
    assert(out@ =~= decimal(n as nat));
    out
}

/// Is the character white space: has it the Unicode property White_Space?
pub open spec fn is_white_space(c: char) -> bool {
    let u = c as u32;
    ||| 0x9 <= u <= 0xd
    ||| u == 0x20 || u == 0x85 || u == 0xa0 || u == 0x1680
    ||| 0x2000 <= u <= 0x200a
    ||| u == 0x2028 || u == 0x2029 || u == 0x202f || u == 0x205f || u == 0x3000
}

/// `char::is_whitespace` tells whether a character has the Unicode property
/// White_Space, which 25 characters have.
pub assume_specification[ char::is_whitespace ](c: char) -> (r: bool)
    ensures
        r == is_white_space(c),
;

/// `s` without its leading white space.
pub open spec fn trimmed_start(s: Seq<char>) -> Seq<char>
    decreases s.len(),
{
    if s.len() > 0 && is_white_space(s[0]) {
        trimmed_start(s.drop_first())
    } else {
        s
    }
}

/// `s` without its trailing white space.
pub open spec fn trimmed_end(s: Seq<char>) -> Seq<char>
    decreases s.len(),
{
    if s.len() > 0 && is_white_space(s.last()) {
        trimmed_end(s.drop_last())
    } else {
        s
    }
}

/// `s` without leading and trailing white space.
pub open spec fn trimmed(s: Seq<char>) -> Seq<char> {
    trimmed_end(trimmed_start(s))
}

/// Removes leading and trailing white space.
pub fn trim(s: &str) -> (r: String)
    ensures
        r@ == trimmed(s@),
{
    let cs = chars_of(s);
    let n: usize = cs.len();
    let mut lo: usize = 0;
    assert(cs@.skip(0) =~= cs@);
    while lo < n && cs[lo].is_whitespace()
        invariant
            n == cs@.len(),
            lo <= n,
            trimmed_start(cs@) == trimmed_start(cs@.skip(lo as int)),
        decreases n - lo,
    {
        assert(cs@.skip(lo as int).drop_first() =~= cs@.skip(lo + 1));
        lo = lo + 1;
    }
    let ghost body = cs@.skip(lo as int);
    assert(trimmed_start(cs@) == body);
    let mut hi: usize = n;
    assert(body.take(n - lo) =~= body);
    while lo < hi && cs[hi - 1].is_whitespace()
        invariant
            n == cs@.len(),
            lo <= hi <= n,
            body == cs@.skip(lo as int),
            trimmed_end(body) == trimmed_end(body.take(hi - lo)),
        decreases hi,
    {
        assert(body.take(hi - lo).drop_last() =~= body.take(hi - lo - 1));
        assert(body.take(hi - lo).last() == cs@[hi - 1]);
        hi = hi - 1;
    }
    assert(hi > lo ==> body.take(hi - lo).last() == cs@[hi - 1]);
    let mut out = String::new();
    for i in lo..hi
        invariant
            n == cs@.len(),
            lo <= hi <= n,
            body == cs@.skip(lo as int),
            out@ == body.take(i - lo),
    {
        out.push(cs[i]);
        assert(body.take(i + 1 - lo) =~= body.take(i - lo).push(cs@[i as int]));
    }
    out
}

/// The upper-case ASCII letters mapped to their lower-case ones.
pub open spec fn ascii_lower(c: char) -> char {
    if 'A' <= c <= 'Z' {
        ((c as u32) + 32) as char
    } else {
        c
    }
}

/// Is every character an ASCII one?
pub open spec fn all_ascii(s: Seq<char>) -> bool {
    forall|i: int| 0 <= i < s.len() ==> (#[trigger] s[i] as u32) < 128
}

/// What `str::to_lowercase` returns for the characters `s`.
pub uninterp spec fn lowercase_text(s: Seq<char>) -> Seq<char>;

/// `str::to_lowercase` maps each character to its Unicode lower-case
/// equivalent. Of ASCII text it maps the letters `A` to `Z` and keeps the
/// rest; beyond ASCII its mapping is left to the standard library.
pub assume_specification[ str::to_lowercase ](s: &str) -> (r: String)
    ensures
        r@ == lowercase_text(s@),
        all_ascii(s@) ==> r@ == s@.map_values(|c: char| ascii_lower(c)),
;

/// The text in lower case.
pub open spec fn lower_text(s: Seq<char>) -> Seq<char> {
    if all_ascii(s) {
        s.map_values(|c: char| ascii_lower(c))
    } else {
        lowercase_text(s)
    }
}

/// What `String::from_utf8_lossy` makes of the bytes.
pub uninterp spec fn lossy_text(bytes: Seq<u8>) -> Seq<char>;

/// `String::from_utf8_lossy` decodes UTF-8. Valid UTF-8 is decoded as it
/// stands; what comes in the place of invalid bytes is left to the standard
/// library.
#[verifier::external_body]
pub(crate) fn from_utf8_lossy(bytes: &Vec<u8>) -> (r: String)
    ensures
        r@ == lossy_text(bytes@),
        valid_utf8(bytes@) ==> r@ == decode_utf8(bytes@),
{
    String::from_utf8_lossy(bytes).into_owned()
}

/// The text of bytes that should be UTF-8.
pub open spec fn bytes_text(bytes: Seq<u8>) -> Seq<char> {
    if valid_utf8(bytes) {
        decode_utf8(bytes)
    } else {
        lossy_text(bytes)
    }
}

/// The characters of each string of `v`.
pub open spec fn texts(v: Seq<String>) -> Seq<Seq<char>> {
    v.map_values(|s: String| s@)
}

/// The parts with one `sep` between each two.
pub open spec fn joined(parts: Seq<Seq<char>>, sep: char) -> Seq<char>
    decreases parts.len(),
{
    if parts.len() == 0 {
        Seq::empty()
    } else if parts.len() == 1 {
        parts[0]
    } else {
        joined(parts.drop_last(), sep).push(sep) + parts.last()
    }
}

/// Joins the strings with one `sep` between each two.
pub fn join(parts: &Vec<String>, sep: char) -> (r: String)
    ensures
        r@ == joined(texts(parts@), sep),
{
    let mut out = String::new();
    let ghost all = texts(parts@);
    for i in 0..parts.len()
        invariant
            all == texts(parts@),
            out@ == joined(all.take(i as int), sep),
    {
        if i > 0 {
            out.push(sep);
        }
        out.append(parts[i].as_str());
        assert(all.take(i + 1).drop_last() =~= all.take(i as int));
        assert(all.take(i + 1).last() == parts[i as int]@);
        if i == 0 {
            assert(all.take(1)[0] == parts[0]@);
            assert(out@ =~= parts[0]@);
        }
    }
    assert(all.take(all.len() as int) =~= all);
    out
}

/// `s` with its runs of `sep` closed up: none at either end, and one for each
/// run inside.
pub open spec fn squeezed(s: Seq<char>, sep: char) -> Seq<char>
    decreases s.len(),
{
    if s.len() == 0 {
        Seq::empty()
    } else {
        let head = squeezed(s.drop_last(), sep);
        if s.last() == sep {
            head
        } else if head.len() > 0 && s[s.len() - 2] == sep {
            head.push(sep).push(s.last())
        } else {
            head.push(s.last())
        }
    }
}

/// Drops `sep` at both ends and closes up each run of it inside.
pub fn squeeze(s: &Vec<char>, sep: char) -> (r: Vec<char>)
    ensures
        r@ == squeezed(s@, sep),
{
    let mut out: Vec<char> = Vec::new();
    let mut gap = false;
    for i in 0..s.len()
        invariant
            out@ == squeezed(s@.take(i as int), sep),
            gap == (i > 0 && s@[i - 1] == sep),
    {
        let c = s[i];
        assert(s@.take(i + 1).drop_last() =~= s@.take(i as int));
        if c == sep {
            gap = true;
        } else {
            if gap && out.len() > 0 {
                out.push(sep);
            }
            out.push(c);
            gap = false;
        }
    }
    assert(s@.take(s@.len() as int) =~= s@);
    out
}

/// Do two `sep` stand side by side, the second at `i`?
pub open spec fn is_doubled(s: Seq<char>, sep: char, i: int) -> bool {
    s[i - 1] == sep && s[i] == sep
}

/// No `sep` at either end and no two side by side.
pub open spec fn is_squeezed(s: Seq<char>, sep: char) -> bool {
    &&& s.len() > 0 ==> s[0] != sep && s.last() != sep
    &&& forall|i: int| 0 < i < s.len() ==> !#[trigger] is_doubled(s, sep, i)
}

/// Squeezing leaves no separator at either end and no two side by side.
pub proof fn lemma_squeezed_is_squeezed(s: Seq<char>, sep: char)
    ensures
        is_squeezed(squeezed(s, sep), sep),
    decreases s.len(),
{
    if s.len() > 0 {
        let head = squeezed(s.drop_last(), sep);
        let all = squeezed(s, sep);
        lemma_squeezed_is_squeezed(s.drop_last(), sep);
        assert forall|i: int| 0 < i < all.len() implies !#[trigger] is_doubled(all, sep, i) by {
            if i < head.len() {
                assert(!is_doubled(head, sep, i));
            }
        }
    }
}

/// Squeezing keeps every other character, in order.
pub proof fn lemma_squeezed_keeps_rest(s: Seq<char>, sep: char)
    ensures
        squeezed(s, sep).filter(|c: char| c != sep) == s.filter(|c: char| c != sep),
    decreases s.len(),
{
    reveal_with_fuel(Seq::filter, 3);
    if s.len() > 0 {
        let head = squeezed(s.drop_last(), sep);
        lemma_squeezed_keeps_rest(s.drop_last(), sep);
        assert(head.push(s.last()).drop_last() =~= head);
        assert(head.push(sep).push(s.last()).drop_last() =~= head.push(sep));
        assert(head.push(sep).drop_last() =~= head);
    }
}

/// Text without a separator at its ends or two side by side stays as it is.
pub proof fn lemma_squeezed_fixed(s: Seq<char>, sep: char)
    requires
        s.len() > 0 ==> s[0] != sep,
        forall|i: int| 0 < i < s.len() ==> !#[trigger] is_doubled(s, sep, i),
    ensures
        s.len() > 0 && s.last() == sep ==> squeezed(s, sep) == s.drop_last(),
        s.len() > 0 && s.last() != sep ==> squeezed(s, sep) == s,
        s.len() == 0 ==> squeezed(s, sep) == s,
    decreases s.len(),
{
    if s.len() > 0 {
        let t = s.drop_last();
        assert forall|i: int| 0 < i < t.len() implies !#[trigger] is_doubled(t, sep, i) by {
            assert(!is_doubled(s, sep, i));
        }
        lemma_squeezed_fixed(t, sep);
        if s.last() != sep {
            if t.len() > 0 && t.last() == sep {
                assert(t.drop_last().len() > 0);
                assert(s =~= t.drop_last().push(sep).push(s.last()));
            } else {
                assert(s =~= t.push(s.last()));
            }
        } else if t.len() > 0 {
            assert(!is_doubled(s, sep, s.len() - 1));
            assert(t.last() != sep);
        }
    }
}

/// Squeezing twice is squeezing once.
pub proof fn lemma_squeezed_idempotent(s: Seq<char>, sep: char)
    ensures
        squeezed(squeezed(s, sep), sep) == squeezed(s, sep),
{
    lemma_squeezed_is_squeezed(s, sep);
    lemma_squeezed_fixed(squeezed(s, sep), sep);
}

} // verus!
