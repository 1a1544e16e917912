//! How the scanner follows a call: it notices the tool name, every argument key
//! and value, and when the arguments end.

use crate::machine::{
    after_colon, in_argument_value, lemma_feed_in_span, lemma_feed_joined, opens_arguments,
    opens_key, opens_name, JsonState, Scan,
};
use crate::text::is_white_space;
use vstd::prelude::*;

verus! {

/// Is the character neither a quotation mark nor a bracket?
pub open spec fn is_quiet(c: char) -> bool {
    c != '"' && c != '{' && c != '}' && c != '[' && c != ']'
}

/// A text ends with what its suffix ends with.
proof fn lemma_suffix_last(suffix: Seq<char>, text: Seq<char>)
    requires
        suffix.len() > 0,
        suffix.is_suffix_of(text),
    ensures
        text.last() == suffix.last(),
{
    let n = text.len() as int;
    let m = suffix.len() as int;
    assert(text.subrange(n - m, n)[m - 1] == text[n - 1]);
}

/// What the openings end with.
proof fn lemma_openings(text: Seq<char>)
    requires
        text.len() > 0,
    ensures
        opens_name(text) ==> text.last() == '"',
        opens_key(text) ==> text.last() == '"',
        opens_arguments(text) ==> text.last() == '{',
{
    reveal_strlit("\"name\":\"");
    reveal_strlit("\"arguments\":{");
    reveal_strlit("{\"");
    reveal_strlit(",\"");
    if opens_name(text) {
        lemma_suffix_last("\"name\":\""@, text);
    }
    if opens_arguments(text) {
        lemma_suffix_last("\"arguments\":{"@, text);
    }
    if "{\""@.is_suffix_of(text) {
        lemma_suffix_last("{\""@, text);
    }
    if ",\""@.is_suffix_of(text) {
        lemma_suffix_last(",\""@, text);
    }
}

/// Outside of spans and values, quiet text is only remembered.
pub proof fn lemma_quiet(scan: Scan, text: Seq<char>)
    requires
        scan.state == JsonState::Free,
        !scan.in_string,
        forall|j: int| 0 <= j < text.len() ==> is_quiet(#[trigger] text[j]),
    ensures
        scan.feed(text) == (Scan { buffer: scan.buffer + text, ..scan }),
    decreases text.len(),
{
    if text.len() == 0 {
        assert(scan.buffer + text =~= scan.buffer);
    } else {
        let head = text.drop_last();
        assert forall|j: int| 0 <= j < head.len() implies is_quiet(#[trigger] head[j]) by {
            assert(is_quiet(text[j]));
        }
        lemma_quiet(scan, head);
        assert(is_quiet(text[text.len() - 1]));
        assert((scan.buffer + head).push(text.last()) =~= scan.buffer + text);
        lemma_openings(scan.buffer + text);
    }
}

/// Reading one more character.
pub proof fn lemma_feed_one(scan: Scan, c: char)
    ensures
        scan.feed(seq![c]) == scan.step(c),
{
    assert(seq![c].drop_last() =~= Seq::empty());
    assert(scan.feed(Seq::empty()) == scan);
}

/// A quotation mark that is not behind a colon is only remembered, outside of
/// arguments.
proof fn lemma_plain_quote(scan: Scan)
    requires
        scan.state == JsonState::Free,
        !scan.in_string,
        !scan.in_arguments,
        !after_colon(scan.buffer),
    ensures
        scan.feed(seq!['"']) == (Scan { buffer: scan.buffer.push('"'), ..scan }),
{
    let next = scan.buffer.push('"');
    lemma_feed_one(scan, '"');
    lemma_openings(next);
    if opens_name(next) {
        reveal_strlit("\"name\":\"");
        let n = scan.buffer.len() as int;
        assert(next.subrange(n + 1 - 8, n + 1)[6] == ':');
        assert(scan.buffer.last() == ':');
        assert(!is_white_space(':'));
    }
}

/// The scanner is where a call can start: outside of spans, values and
/// arguments, and not behind a colon.
pub open spec fn before_call(scan: Scan) -> bool {
    scan.state == JsonState::Free && !scan.in_string && !scan.in_arguments && !after_colon(
        scan.buffer,
    )
}

/// A tool name is noticed: behind its opening, the scanner is inside a name
/// of which nothing is written yet.
pub proof fn a_name_is_noticed(scan: Scan)
    requires
        before_call(scan),
    ensures
        ({
            let next = scan.feed("\"name\":\""@);
            &&& next.state == JsonState::InName
            &&& next.span.len() == 0
            &&& !next.in_string
            &&& !next.in_arguments
            &&& next.nesting_depth == scan.nesting_depth
        }),
{
    let quote = seq!['"'];
    let word = seq!['n', 'a', 'm', 'e'];
    reveal_strlit("\"name\":\"");
    assert("\"name\":\""@ =~= quote + word + quote + seq![':'] + quote);
    lemma_feed_joined(scan, quote + word + quote + seq![':'], quote);
    lemma_feed_joined(scan, quote + word + quote, seq![':']);
    lemma_feed_joined(scan, quote + word, quote);
    lemma_feed_joined(scan, quote, word);
    let a = scan.feed(quote);
    lemma_plain_quote(scan);
    lemma_quiet(a, word);
    let b = a.feed(word);
    assert(b.buffer.last() == 'e');
    assert(!is_white_space('e'));
    lemma_plain_quote(b);
    let c = b.feed(quote);
    lemma_quiet(c, seq![':']);
    let d = c.feed(seq![':']);
    lemma_feed_one(d, '"');
    let n = scan.buffer.len() as int;
    let whole = d.buffer.push('"');
    assert(whole =~= scan.buffer + "\"name\":\""@);
    assert(whole.subrange(n, n + 8) =~= "\"name\":\""@);
    assert(opens_name(whole));
}

/// The word for the arguments is only remembered.
proof fn lemma_arguments_word(scan: Scan)
    requires
        before_call(scan),
    ensures
        scan.feed("\"arguments\":"@) == (Scan {
            buffer: scan.buffer + "\"arguments\":"@,
            ..scan
        }),
{
    let quote = seq!['"'];
    let word = seq!['a', 'r', 'g', 'u', 'm', 'e', 'n', 't', 's'];
    let colon = seq![':'];
    reveal_strlit("\"arguments\":");
    let all = "\"arguments\":"@;
    assert(all =~= quote + word + quote + colon);
    lemma_feed_joined(scan, quote + word + quote, colon);
    lemma_feed_joined(scan, quote + word, quote);
    lemma_feed_joined(scan, quote, word);
    lemma_plain_quote(scan);
    let a = scan.feed(quote);
    lemma_quiet(a, word);
    let b = a.feed(word);
    assert(b.buffer.last() == 's');
    assert(!is_white_space('s'));
    lemma_plain_quote(b);
    let c = b.feed(quote);
    lemma_quiet(c, colon);
    assert(c.buffer + colon =~= scan.buffer + all);
}

/// The brace behind it opens the arguments, one level further in.
proof fn lemma_arguments_open(scan: Scan, before: Seq<char>)
    requires
        scan.state == JsonState::Free,
        !scan.in_string,
        !scan.in_arguments,
        scan.buffer == before + "\"arguments\":"@,
    ensures
        scan.feed(seq!['{']) == (Scan {
            buffer: scan.buffer.push('{'),
            nesting_depth: scan.nesting_depth + 1,
            in_arguments: true,
            arguments_depth: scan.nesting_depth + 1,
            ..scan
        }),
{
    reveal_strlit("\"arguments\":");
    reveal_strlit("\"arguments\":{");
    let next = scan.buffer.push('{');
    let n = before.len() as int;
    lemma_feed_one(scan, '{');
    lemma_openings(next);
    assert(next.subrange(n, n + 13) =~= "\"arguments\":{"@);
}

/// The quotation mark behind that opens a key.
proof fn lemma_key_open(scan: Scan)
    requires
        scan.state == JsonState::Free,
        !scan.in_string,
        scan.in_arguments,
        scan.nesting_depth == scan.arguments_depth,
        scan.buffer.len() > 0,
        scan.buffer.last() == '{',
    ensures
        scan.feed(seq!['"']) == (Scan {
            state: JsonState::InArgKey,
            buffer: scan.buffer.push('"'),
            span: Seq::empty(),
            ..scan
        }),
{
    reveal_strlit("{\"");
    let next = scan.buffer.push('"');
    let n = next.len() as int;
    lemma_feed_one(scan, '"');
    lemma_openings(next);
    assert(next.subrange(n - 2, n) =~= "{\""@);
}

/// The arguments of a call are noticed: behind a name, its closing quotation
/// mark and the opening of the arguments, the scanner is inside a key, of which
/// nothing is written yet, of the call with that name.
pub proof fn a_key_is_noticed(scan: Scan)
    requires
        scan.state == JsonState::InName,
        !scan.in_string,
        !scan.in_arguments,
    ensures
        ({
            let next = scan.feed("\",\"arguments\":{\""@);
            &&& next.state == JsonState::InArgKey
            &&& next.span.len() == 0
            &&& next.function == scan.span
            &&& next.in_arguments
            &&& next.arguments_depth == scan.nesting_depth + 1
            &&& next.nesting_depth == scan.nesting_depth + 1
        }),
{
    let quote = seq!['"'];
    let comma = seq![','];
    let word = "\"arguments\":"@;
    let brace = seq!['{'];
    assert("\",\"arguments\":{\""@ =~= quote + comma + word + brace + quote) by {
        reveal_strlit("\",\"arguments\":{\"");
        reveal_strlit("\"arguments\":");
    }
    lemma_feed_joined(scan, quote + comma + word + brace, quote);
    lemma_feed_joined(scan, quote + comma + word, brace);
    lemma_feed_joined(scan, quote + comma, word);
    lemma_feed_joined(scan, quote, comma);
    lemma_feed_one(scan, '"');
    let a = scan.feed(quote);
    lemma_quiet(a, comma);
    let b = a.feed(comma);
    assert(b.buffer.last() == ',');
    assert(!is_white_space(','));
    lemma_arguments_word(b);
    let c = b.feed(word);
    lemma_arguments_open(c, b.buffer);
    lemma_key_open(c.feed(brace));
}

/// A call is followed from its name to its first argument: whatever the name,
/// it is held to the tool names while it is written, and then the keys are held
/// to that tool's.
pub proof fn a_call_is_followed(scan: Scan, name: Seq<char>)
    requires
        before_call(scan),
        forall|j: int| 0 <= j < name.len() ==> #[trigger] name[j] != '"',
    ensures
        ({
            let in_name = scan.feed("\"name\":\""@ + name);
            let in_key = in_name.feed("\",\"arguments\":{\""@);
            &&& in_name.state == JsonState::InName
            &&& in_name.span == name
            &&& in_key.state == JsonState::InArgKey
            &&& in_key.function == name
            &&& in_key.span.len() == 0
        }),
{
    a_name_is_noticed(scan);
    let opened = scan.feed("\"name\":\""@);
    lemma_feed_joined(scan, "\"name\":\""@, name);
    lemma_feed_in_span(opened, name);
    assert(opened.span + name =~= name);
    a_key_is_noticed(opened.feed(name));
}

/// The scanner is between the arguments of a call.
pub open spec fn between_arguments(scan: Scan) -> bool {
    &&& scan.state == JsonState::Free
    &&& !scan.in_string
    &&& scan.in_arguments
    &&& scan.nesting_depth == scan.arguments_depth
}

/// Every further key is noticed: behind a comma and a quotation mark between
/// arguments, the scanner is inside a key again, of the same call.
pub proof fn the_next_key_is_noticed(scan: Scan)
    requires
        between_arguments(scan),
    ensures
        ({
            let next = scan.feed(",\""@);
            &&& next.state == JsonState::InArgKey
            &&& next.span.len() == 0
            &&& next.function == scan.function
            &&& next.in_arguments
            &&& next.nesting_depth == next.arguments_depth
        }),
{
    reveal_strlit(",\"");
    assert(",\""@ =~= seq![','] + seq!['"']);
    lemma_feed_joined(scan, seq![','], seq!['"']);
    lemma_quiet(scan, seq![',']);
    let comma = scan.feed(seq![',']);
    lemma_feed_one(comma, '"');
    let next = comma.buffer.push('"');
    let n = next.len() as int;
    lemma_openings(next);
    assert(next.subrange(n - 2, n) =~= ",\""@);
}

/// A value is noticed: an array or an object, and a string behind a colon, put
/// the scanner inside the value of an argument.
pub proof fn a_value_is_noticed(scan: Scan, c: char)
    requires
        between_arguments(scan),
        c == '{' || c == '[' || (c == '"' && scan.buffer.len() > 0 && scan.buffer.last() == ':'),
    ensures
        in_argument_value(scan.step(c)),
        scan.step(c).function == scan.function,
        scan.step(c).arguments_depth == scan.arguments_depth,
        scan.step(c).nesting_depth >= scan.arguments_depth,
{
    let next = scan.buffer.push(c);
    let n = next.len() as int;
    lemma_openings(next);
    assert(!is_white_space(':'));
    if c == '"' && opens_key(next) {
        reveal_strlit("{\"");
        reveal_strlit(",\"");
        assert(next.subrange(n - 2, n)[0] == ':');
    }
}

/// The arguments end with the brace that closes them, and then another call
/// can start.
pub proof fn the_end_of_arguments_is_noticed(scan: Scan)
    requires
        between_arguments(scan),
        scan.arguments_depth > 0,
    ensures
        before_call(scan.step('}')),
{
    assert(!is_white_space('}'));
    assert(scan.step('}').buffer.last() == '}');
}

} // verus!
