//! How the scanner follows whole calls: names and keys from quotation mark to
//! quotation mark, values from their first character to their last, and one
//! call after another.

use crate::following::{
    a_key_is_noticed, a_name_is_noticed, a_value_is_noticed, before_call, between_arguments,
    is_quiet, lemma_feed_one, lemma_quiet, the_end_of_arguments_is_noticed, the_next_key_is_noticed,
};
use crate::laws::texts::all_white;
use crate::machine::{
    after_colon, lemma_feed_in_span, lemma_feed_joined, opens_arguments, opens_key,
    opens_name, JsonState, Scan,
};
use crate::text::is_white_space;
use vstd::prelude::*;

verus! {

/// A name or a key is what stands between its quotation marks: text without one
/// belongs to it, and the next one ends it. The name of a call is remembered,
/// and a key leaves it as it was.
pub proof fn spans_end_at_their_quotation_mark(scan: Scan, text: Seq<char>)
    requires
        scan.state != JsonState::Free,
        forall|j: int| 0 <= j < text.len() ==> #[trigger] text[j] != '"',
    ensures
        scan.feed(text).state == scan.state,
        scan.feed(text).span == scan.span + text,
        scan.feed(text).function == scan.function,
        scan.feed(text + seq!['"']) == (Scan {
            state: JsonState::Free,
            buffer: scan.buffer + text + seq!['"'],
            span: Seq::empty(),
            function: if scan.state == JsonState::InName {
                scan.span + text
            } else {
                scan.function
            },
            ..scan
        }),
{
    lemma_feed_in_span(scan, text);
    lemma_feed_joined(scan, text, seq!['"']);
    lemma_feed_one(scan.feed(text), '"');
    assert((scan.buffer + text).push('"') =~= scan.buffer + text + seq!['"']);
}

/// Is this what can stand between the quotation marks of a string: characters
/// that are neither a quotation mark nor a backslash, and any character behind
/// a backslash?
pub open spec fn is_string_body(s: Seq<char>) -> bool
    decreases s.len(),
{
    if s.len() == 0 {
        true
    } else if s[0] == '\\' {
        s.len() > 1 && is_string_body(s.skip(2))
    } else {
        s[0] != '"' && is_string_body(s.skip(1))
    }
}

proof fn lemma_body(scan: Scan, body: Seq<char>)
    requires
        scan.state == JsonState::Free,
        scan.in_string,
        !scan.prev_escape,
        is_string_body(body),
    ensures
        scan.feed(body) == (Scan { buffer: scan.buffer + body, ..scan }),
    decreases body.len(),
{
    if body.len() == 0 {
        assert(scan.buffer + body =~= scan.buffer);
    } else if body[0] == '\\' {
        let a = seq![body[0]];
        let b = seq![body[1]];
        let rest = body.skip(2);
        assert(body =~= a + b + rest);
        lemma_feed_joined(scan, a + b, rest);
        lemma_feed_joined(scan, a, b);
        lemma_feed_one(scan, body[0]);
        lemma_feed_one(scan.feed(a), body[1]);
        let next = scan.feed(a + b);
        assert(next == (Scan { buffer: scan.buffer.push(body[0]).push(body[1]), ..scan }));
        lemma_body(next, rest);
        assert(next.buffer + rest =~= scan.buffer + body);
    } else {
        let a = seq![body[0]];
        let rest = body.skip(1);
        assert(body =~= a + rest);
        lemma_feed_joined(scan, a, rest);
        lemma_feed_one(scan, body[0]);
        let next = scan.feed(a);
        assert(next == (Scan { buffer: scan.buffer.push(body[0]), ..scan }));
        lemma_body(next, rest);
        assert(next.buffer + rest =~= scan.buffer + body);
    }
}

/// A string value ends at its own quotation mark, whatever it holds and however
/// many quotation marks are escaped in it: behind it the scanner is between the
/// arguments of the same call again.
pub proof fn string_values_end_at_their_quotation_mark(scan: Scan, body: Seq<char>)
    requires
        between_arguments(scan),
        !scan.prev_escape,
        scan.buffer.len() > 0,
        scan.buffer.last() == ':',
        is_string_body(body),
    ensures
        scan.feed(seq!['"'] + body + seq!['"']) == (Scan {
            buffer: scan.buffer + (seq!['"'] + body + seq!['"']),
            ..scan
        }),
{
    let quote = seq!['"'];
    a_value_is_noticed(scan, '"');
    lemma_feed_one(scan, '"');
    let a = scan.feed(quote);
    assert(a.in_string);
    assert(a == (Scan { buffer: scan.buffer.push('"'), in_string: true, ..scan }));
    lemma_feed_joined(scan, quote + body, quote);
    lemma_feed_joined(scan, quote, body);
    lemma_body(a, body);
    let b = a.feed(body);
    lemma_feed_one(b, '"');
    assert(b.buffer.push('"') =~= scan.buffer + (quote + body + quote));
}

/// A value without quotation marks and brackets, such as a number or a truth
/// value, and every comma and colon, leave the scanner where it is.
pub proof fn plain_text_changes_nothing(scan: Scan, text: Seq<char>)
    requires
        scan.state == JsonState::Free,
        !scan.in_string,
        forall|j: int| 0 <= j < text.len() ==> is_quiet(#[trigger] text[j]),
    ensures
        scan.feed(text) == (Scan { buffer: scan.buffer + text, ..scan }),
{
    lemma_quiet(scan, text);
}

/// Inside an array or object that is a value, brackets count outside of strings
/// and nothing else does; a quotation mark opens a string there.
pub proof fn brackets_are_counted_in_values(scan: Scan, c: char)
    requires
        scan.state == JsonState::Free,
        !scan.in_string,
        !scan.prev_escape,
        scan.in_arguments,
        scan.nesting_depth > scan.arguments_depth,
    ensures
        scan.step(c) == (Scan {
            buffer: scan.buffer.push(c),
            nesting_depth: if c == '{' || c == '[' {
                scan.nesting_depth + 1
            } else if c == '}' || c == ']' {
                (scan.nesting_depth - 1) as nat
            } else {
                scan.nesting_depth
            },
            in_string: c == '"',
            ..scan
        }),
{
    assert(scan.step(c).buffer =~= scan.buffer.push(c));
}

/// Inside a string, brackets do not count, a backslash escapes the character
/// behind it, and only a quotation mark that is not escaped ends it.
pub proof fn strings_hide_their_characters(scan: Scan, c: char)
    requires
        scan.state == JsonState::Free,
        scan.in_string,
    ensures
        scan.step(c) == (Scan {
            buffer: scan.buffer.push(c),
            in_string: !(c == '"' && !scan.prev_escape),
            prev_escape: c == '\\' && !scan.prev_escape,
            ..scan
        }),
{
}

/// A list of calls can start where nothing was read yet.
pub proof fn calls_start_a_list()
    ensures
        before_call(Scan::start()),
        before_call(Scan::start().feed("[{"@)),
        Scan::start().feed("[{"@).nesting_depth == 2,
        !Scan::start().feed("[{"@).prev_escape,
{
    reveal_strlit("[{");
    let start = Scan::start();
    assert("[{"@ =~= seq!['['] + seq!['{']);
    lemma_feed_joined(start, seq!['['], seq!['{']);
    lemma_feed_one(start, '[');
    lemma_step_open(start, '[');
    let a = start.feed(seq!['[']);
    lemma_feed_one(a, '{');
    lemma_step_open(a, '{');
}

/// An opening bracket that opens no arguments goes one level further in.
proof fn lemma_step_open(scan: Scan, c: char)
    requires
        before_call(scan),
        c == '[' || c == '{',
        scan.buffer.len() > 0 ==> scan.buffer.last() != ':',
    ensures
        before_call(scan.step(c)),
        scan.step(c) == (Scan {
            buffer: scan.buffer.push(c),
            nesting_depth: scan.nesting_depth + 1,
            ..scan
        }),
        scan.step(c).buffer.last() == c,
{
    let next = scan.buffer.push(c);
    let n = next.len() as int;
    reveal_strlit("\"name\":\"");
    reveal_strlit("\"arguments\":{");
    reveal_strlit("{\"");
    reveal_strlit(",\"");
    if opens_name(next) {
        assert(next.subrange(n - 8, n)[7] == '"');
    }
    if opens_arguments(next) {
        assert(next.subrange(n - 13, n)[11] == ':');
        assert(next.subrange(n - 13, n)[12] == '{');
        assert(next[n - 2] == ':');
    }
    assert(next.last() == c);
    assert(!is_white_space('['));
    assert(!is_white_space('{'));
}

/// Behind the arguments of a call, its closing brace, a comma and an opening
/// brace, another call can start.
pub proof fn calls_follow_each_other(scan: Scan)
    requires
        between_arguments(scan),
        scan.arguments_depth > 0,
    ensures
        before_call(scan.feed("}},{"@)),
{
    reveal_strlit("}},{");
    let brace = seq!['}'];
    assert("}},{"@ =~= brace + brace + seq![','] + seq!['{']);
    lemma_feed_joined(scan, brace + brace + seq![','], seq!['{']);
    lemma_feed_joined(scan, brace + brace, seq![',']);
    lemma_feed_joined(scan, brace, brace);
    the_end_of_arguments_is_noticed(scan);
    lemma_feed_one(scan, '}');
    let a = scan.feed(brace);
    lemma_feed_one(a, '}');
    let b = a.feed(brace);
    assert(b.buffer.last() == '}');
    assert(!is_white_space('}'));
    assert(before_call(b));
    lemma_quiet(b, seq![',']);
    let c = b.feed(seq![',']);
    assert(c.buffer.last() == ',');
    assert(!is_white_space(','));
    lemma_feed_one(c, '{');
    lemma_step_open(c, '{');
}

/// A whole call is followed: its name, its first key and the string that is its
/// value, whatever they are, lead to the second key, which is held to the tool
/// of that name again.
pub proof fn the_second_key_belongs_to_the_same_call(
    scan: Scan,
    name: Seq<char>,
    key: Seq<char>,
    body: Seq<char>,
)
    requires
        before_call(scan),
        !scan.prev_escape,
        forall|j: int| 0 <= j < name.len() ==> #[trigger] name[j] != '"',
        forall|j: int| 0 <= j < key.len() ==> #[trigger] key[j] != '"',
        is_string_body(body),
    ensures
        ({
            let opened = "\"name\":\""@ + name + "\",\"arguments\":{\""@;
            let first = scan.feed(opened + key);
            let second = scan.feed(opened + key + "\":\""@ + body + "\",\""@);
            &&& first.state == JsonState::InArgKey
            &&& first.function == name
            &&& first.span == key
            &&& second.state == JsonState::InArgKey
            &&& second.function == name
            &&& second.span.len() == 0
        }),
{
    let quote = seq!['"'];
    let opening = "\"name\":\""@;
    let middle = "\",\"arguments\":{\""@;
    a_name_is_noticed(scan);
    let a = scan.feed(opening);
    lemma_feed_joined(scan, opening, name);
    lemma_feed_in_span(a, name);
    let b = a.feed(name);
    assert(a.span + name =~= name);
    lemma_feed_joined(scan, opening + name, middle);
    a_key_is_noticed(b);
    let c = b.feed(middle);
    lemma_no_escape(scan, opening + name + middle);
    lemma_feed_joined(scan, opening + name + middle, key);
    lemma_feed_in_span(c, key);
    let d = c.feed(key);
    assert(c.span + key =~= key);
    // The end of the key, a colon, the value, a comma and the next key.
    reveal_strlit("\":\"");
    reveal_strlit("\",\"");
    reveal_strlit(",\"");
    let opened = opening + name + middle;
    let value = quote + body + quote;
    assert(opened + key + "\":\""@ + body + "\",\""@ =~= (opened + key) + (quote + (seq![':'] + (value
        + ",\""@))));
    lemma_feed_joined(scan, opened + key, quote + (seq![':'] + (value + ",\""@)));
    lemma_feed_joined(d, quote, seq![':'] + (value + ",\""@));
    lemma_feed_one(d, '"');
    let e = d.feed(quote);
    lemma_feed_joined(e, seq![':'], value + ",\""@);
    lemma_quiet(e, seq![':']);
    let f = e.feed(seq![':']);
    assert(f.buffer.last() == ':');
    lemma_feed_joined(f, value, ",\""@);
    string_values_end_at_their_quotation_mark(f, body);
    the_next_key_is_noticed(f.feed(value));
}

/// Where no string is open nothing is escaped, and it stays so as long as none
/// is opened.
proof fn lemma_no_escape(scan: Scan, text: Seq<char>)
    requires
        !scan.prev_escape || scan.in_string,
    ensures
        scan.feed(text).prev_escape ==> scan.feed(text).in_string,
    decreases text.len(),
{
    if text.len() > 0 {
        lemma_no_escape(scan, text.drop_last());
    }
}

/// A string is the value behind a colon whatever white space stands between
/// them, and what stands before the white space decides.
pub proof fn white_space_behind_a_colon_does_not_count(
    front: Seq<char>,
    c: char,
    white: Seq<char>,
)
    requires
        !is_white_space(c),
        all_white(white),
    ensures
        after_colon(front + seq![c] + white) <==> c == ':',
        !after_colon(white),
    decreases white.len(),
{
    let all = front + seq![c] + white;
    if white.len() > 0 {
        let rest = white.drop_last();
        assert forall|i: int| 0 <= i < rest.len() implies is_white_space(#[trigger] rest[i]) by {
            assert(is_white_space(white[i]));
        }
        assert(is_white_space(white[white.len() - 1]));
        assert(all.drop_last() =~= front + seq![c] + rest);
        assert(all.last() == white.last());
        white_space_behind_a_colon_does_not_count(front, c, rest);
    } else {
        assert(all.last() == c);
    }
}

/// Between the arguments of a call, a quotation mark behind a colon opens a
/// string value, with white space between them or without.
pub proof fn strings_are_opened_behind_colons(
    scan: Scan,
    front: Seq<char>,
    white: Seq<char>,
)
    requires
        between_arguments(scan),
        scan.buffer == front + seq![':'] + white,
        all_white(white),
    ensures
        scan.step('"') == (Scan { buffer: scan.buffer.push('"'), in_string: true, ..scan }),
{
    assert(!is_white_space(':'));
    white_space_behind_a_colon_does_not_count(front, ':', white);
    let next = scan.buffer.push('"');
    let n = next.len() as int;
    reveal_strlit("\"arguments\":{");
    reveal_strlit("{\"");
    reveal_strlit(",\"");
    assert(next[n - 2] == scan.buffer.last());
    assert(scan.buffer.last() != '{' && scan.buffer.last() != ',') by {
        if white.len() > 0 {
            assert(is_white_space(white[white.len() - 1]));
            assert(scan.buffer.last() == white.last());
            assert(!is_white_space('{') && !is_white_space(','));
        } else {
            assert(scan.buffer.last() == ':');
        }
    }
    if opens_arguments(next) {
        assert(next.subrange(n - 13, n)[12] == next[n - 1]);
    }
    if opens_key(next) {
        if "{\""@.is_suffix_of(next) {
            assert(next.subrange(n - 2, n)[0] == next[n - 2]);
        } else {
            assert(next.subrange(n - 2, n)[0] == next[n - 2]);
        }
    }
}

/// Outside of names, keys and strings every closing bracket goes one level
/// back, but not below none.
pub proof fn closing_brackets_go_back(scan: Scan, c: char)
    requires
        scan.state == JsonState::Free,
        !scan.in_string,
        c == '}' || c == ']',
    ensures
        scan.nesting_depth > 0 ==> scan.step(c).nesting_depth == scan.nesting_depth - 1,
        scan.nesting_depth == 0 ==> scan.step(c).nesting_depth == 0,
        scan.step(c).state == JsonState::Free,
        scan.step(c).function == scan.function,
        scan.in_arguments && c == ']' ==> scan.step(c).in_arguments,
        scan.in_arguments && scan.nesting_depth > scan.arguments_depth ==> scan.step(
            c,
        ).in_arguments,
        scan.in_arguments && c == '}' && 0 < scan.nesting_depth <= scan.arguments_depth
            ==> !scan.step(c).in_arguments,
        !scan.in_arguments ==> !scan.step(c).in_arguments,
{
}

/// Arguments are opened by the brace behind their word, one level further in,
/// anywhere but inside the value of an argument: also where others were left
/// open further in.
pub proof fn arguments_open_outside_of_values(scan: Scan, front: Seq<char>)
    requires
        scan.state == JsonState::Free,
        !scan.in_string,
        scan.buffer == front + "\"arguments\":"@,
        !scan.in_arguments || scan.nesting_depth < scan.arguments_depth,
    ensures
        scan.step('{') == (Scan {
            buffer: scan.buffer.push('{'),
            nesting_depth: scan.nesting_depth + 1,
            in_arguments: true,
            arguments_depth: scan.nesting_depth + 1,
            ..scan
        }),
{
    reveal_strlit("\"arguments\":");
    reveal_strlit("\"arguments\":{");
    reveal_strlit("\"name\":\"");
    let next = scan.buffer.push('{');
    let m = front.len() as int;
    let n = next.len() as int;
    assert(next.subrange(m, m + 13) =~= "\"arguments\":{"@);
    assert(opens_arguments(next));
    if opens_name(next) {
        assert(next.subrange(n - 8, n)[7] == next[n - 1]);
    }
}

} // verus!
