//! The scanner that follows compact JSON tool calls, character by character,
//! and knows when a tool name or an argument key is being written:
//!
//! `[{"name":"tool","arguments":{"key":value,...}}]`

use crate::text::{chars_of, is_white_space};
use vstd::prelude::*;

verus! {

/// Where the scanner is: outside any constrained span, inside a tool name, or
/// inside an argument key.
#[derive(Clone, Copy, PartialEq, Eq, Structural, Debug)]
pub enum JsonState {
    Free,
    InName,
    InArgKey,
}

/// The state of the scanner, as a mathematical value.
pub struct Scan {
    pub state: JsonState,
    /// All that was read.
    pub buffer: Seq<char>,
    /// What was read of the current span.
    pub span: Seq<char>,
    /// The last tool name that was read to its end.
    pub function: Seq<char>,
    pub in_arguments: bool,
    pub arguments_depth: nat,
    pub nesting_depth: nat,
    pub in_string: bool,
    pub prev_escape: bool,
}

/// Does the text end a tool name's opening?
pub open spec fn opens_name(text: Seq<char>) -> bool {
    "\"name\":\""@.is_suffix_of(text)
}

/// Does the text end the opening of an argument object?
pub open spec fn opens_arguments(text: Seq<char>) -> bool {
    "\"arguments\":{"@.is_suffix_of(text)
}

/// Does the text end with a quotation mark after an opening brace or a comma?
pub open spec fn opens_key(text: Seq<char>) -> bool {
    "{\""@.is_suffix_of(text) || ",\""@.is_suffix_of(text)
}

/// Is the last character of the text, white space aside, a colon?
pub open spec fn after_colon(text: Seq<char>) -> bool
    decreases text.len(),
{
    if text.len() == 0 {
        false
    } else if is_white_space(text.last()) {
        after_colon(text.drop_last())
    } else {
        text.last() == ':'
    }
}

impl Scan {
    /// The scanner before anything was read.
    pub open spec fn start() -> Scan {
        Scan {
            state: JsonState::Free,
            buffer: Seq::empty(),
            span: Seq::empty(),
            function: Seq::empty(),
            in_arguments: false,
            arguments_depth: 0,
            nesting_depth: 0,
            in_string: false,
            prev_escape: false,
        }
    }

    /// Is the scanner inside an array or object that is the value of an
    /// argument?
    pub open spec fn within_value(self) -> bool {
        self.in_arguments && self.nesting_depth > self.arguments_depth
    }

    /// One more character inside a name or a key: a quotation mark ends it.
    pub open spec fn in_span(self, c: char) -> Scan {
        let buffer = self.buffer.push(c);
        if c == '"' {
            Scan {
                state: JsonState::Free,
                buffer,
                span: Seq::empty(),
                function: if self.state == JsonState::InName {
                    self.span
                } else {
                    self.function
                },
                ..self
            }
        } else {
            Scan { buffer, span: self.span.push(c), ..self }
        }
    }

    /// One more character inside a string value: an unescaped quotation mark
    /// ends it.
    pub open spec fn in_value(self, c: char) -> Scan {
        Scan {
            buffer: self.buffer.push(c),
            prev_escape: !self.prev_escape && c == '\\',
            in_string: self.prev_escape || c != '"',
            ..self
        }
    }

    /// A closing bracket: one level less, but not below none. A brace that
    /// closes the level of the arguments ends them.
    pub open spec fn closing(self, c: char) -> Scan {
        let depth = if self.nesting_depth > 0 {
            (self.nesting_depth - 1) as nat
        } else {
            0
        };
        Scan {
            buffer: self.buffer.push(c),
            nesting_depth: depth,
            in_arguments: self.in_arguments && !(c == '}' && depth < self.arguments_depth),
            ..self
        }
    }

    /// Any other character outside spans and string values. A name is opened
    /// outside arguments only; arguments are opened anywhere but inside the
    /// value of one; a key is opened between the arguments of a call. A
    /// quotation mark behind a colon, or deeper inside an argument, opens a
    /// string.
    pub open spec fn opening(self, c: char) -> Scan {
        let next = Scan {
            buffer: self.buffer.push(c),
            nesting_depth: if c == '{' || c == '[' {
                self.nesting_depth + 1
            } else {
                self.nesting_depth
            },
            ..self
        };
        if opens_name(next.buffer) && !self.in_arguments {
            Scan { state: JsonState::InName, span: Seq::empty(), ..next }
        } else if opens_arguments(next.buffer) && !next.within_value() {
            Scan { in_arguments: true, arguments_depth: next.nesting_depth, ..next }
        } else if self.in_arguments && next.nesting_depth == self.arguments_depth && opens_key(
            next.buffer,
        ) {
            Scan { state: JsonState::InArgKey, span: Seq::empty(), ..next }
        } else if c == '"' && (after_colon(self.buffer) || self.within_value()) {
            Scan { in_string: true, ..next }
        } else {
            next
        }
    }

    /// The scanner after one more character.
    pub open spec fn step(self, c: char) -> Scan {
        if self.state != JsonState::Free {
            self.in_span(c)
        } else if self.in_string {
            self.in_value(c)
        } else if c == '}' || c == ']' {
            self.closing(c)
        } else {
            self.opening(c)
        }
    }

    /// The scanner after a text.
    pub open spec fn feed(self, text: Seq<char>) -> Scan
        decreases text.len(),
    {
        if text.len() == 0 {
            self
        } else {
            self.feed(text.drop_last()).step(text.last())
        }
    }
}

/// The scanner.
pub struct StateMachine {
    state: JsonState,
    buffer: Vec<char>,
    span: Vec<char>,
    function: Vec<char>,
    in_arguments: bool,
    arguments_depth: usize,
    nesting_depth: usize,
    in_string: bool,
    prev_escape: bool,
}

impl View for StateMachine {
    type V = Scan;

    closed spec fn view(&self) -> Scan {
        Scan {
            state: self.state,
            buffer: self.buffer@,
            span: self.span@,
            function: self.function@,
            in_arguments: self.in_arguments,
            arguments_depth: self.arguments_depth as nat,
            nesting_depth: self.nesting_depth as nat,
            in_string: self.in_string,
            prev_escape: self.prev_escape,
        }
    }
}

fn ends_with(text: &Vec<char>, suffix: &str) -> (r: bool)
    ensures
        r == suffix@.is_suffix_of(text@),
{
    let cs = chars_of(suffix);
    let n: usize = text.len();
    let m: usize = cs.len();
    if m > n {
        return false;
    }
    let ghost tail = text@.subrange(n - m, n as int);
    for i in 0..m
        invariant
            n == text@.len(),
            m == cs@.len(),
            m <= n,
            cs@ == suffix@,
            tail == text@.subrange(n - m, n as int),
            forall|j: int| 0 <= j < i ==> cs@[j] == #[trigger] tail[j],
    {
        if text[n - m + i] != cs[i] {
            assert(tail[i as int] != cs@[i as int]);
            return false;
        }
    }
    assert(tail =~= cs@);
    true
}

impl StateMachine {
    /// At most one level of nesting per character read.
    #[verifier::type_invariant]
    spec fn inv(self) -> bool {
        self.nesting_depth <= self.buffer@.len()
    }

    /// A scanner that has read nothing.
    pub fn new() -> (r: StateMachine)
        ensures
            r@ == Scan::start(),
    {
        let r = StateMachine {
            state: JsonState::Free,
            buffer: Vec::new(),
            span: Vec::new(),
            function: Vec::new(),
            in_arguments: false,
            arguments_depth: 0,
            nesting_depth: 0,
            in_string: false,
            prev_escape: false,
        };
        assert(r@.buffer =~= Seq::empty());
        r
    }

    /// Where the scanner is.
    pub fn state(&self) -> (r: JsonState)
        ensures
            r == self@.state,
    {
        self.state
    }

    /// What was read of the current span.
    pub fn span(&self) -> (r: &Vec<char>)
        ensures
            r@ == self@.span,
    {
        &self.span
    }

    /// The last tool name that was read to its end.
    pub fn function(&self) -> (r: &Vec<char>)
        ensures
            r@ == self@.function,
    {
        &self.function
    }

    /// Reads a text.
    pub fn feed(&mut self, text: &Vec<char>)
        ensures
            final(self)@ == old(self)@.feed(text@),
    {
        for i in 0..text.len()
            invariant
                self@ == old(self)@.feed(text@.take(i as int)),
        {
            self.feed_char(text[i]);
            assert(text@.take(i + 1).drop_last() =~= text@.take(i as int));
        }
        assert(text@.take(text@.len() as int) =~= text@);
    }

    /// Reads one character.
    pub fn feed_char(&mut self, c: char)
        ensures
            final(self)@ == old(self)@.step(c),
    {
        proof {
            use_type_invariant(&*self);
        }
        let opens_string = c == '"' && self.value_quote();
        let mut before = StateMachine::new();
        std::mem::swap(&mut before, self);
        let StateMachine {
            mut state,
            mut buffer,
            mut span,
            mut function,
            mut in_arguments,
            mut arguments_depth,
            mut nesting_depth,
            mut in_string,
            mut prev_escape,
        } = before;
        buffer.push(c);
        if state != JsonState::Free {
            if c == '"' {
                if state == JsonState::InName {
                    function = span;
                }
                span = Vec::new();
                state = JsonState::Free;
                assert(span@ =~= Seq::empty());
            } else {
                span.push(c);
            }
        } else if in_string {
            if prev_escape {
                prev_escape = false;
            } else if c == '\\' {
                prev_escape = true;
            } else if c == '"' {
                in_string = false;
            }
        } else if c == '}' || c == ']' {
            if nesting_depth > 0 {
                nesting_depth = nesting_depth - 1;
            }
            if c == '}' && in_arguments && nesting_depth < arguments_depth {
                in_arguments = false;
            }
        } else {
            let within_value = in_arguments && nesting_depth > arguments_depth;
            if c == '{' || c == '[' {
                let n: usize = buffer.len();
                assert(nesting_depth < n);
                nesting_depth = nesting_depth + 1;
            }
            if !in_arguments && ends_with(&buffer, "\"name\":\"") {
                state = JsonState::InName;
                span = Vec::new();
                assert(span@ =~= Seq::empty());
            } else if !(in_arguments && nesting_depth > arguments_depth) && ends_with(
                &buffer,
                "\"arguments\":{",
            ) {
                in_arguments = true;
                arguments_depth = nesting_depth;
            } else if in_arguments && nesting_depth == arguments_depth && (ends_with(
                &buffer,
                "{\"",
            ) || ends_with(&buffer, ",\"")) {
                state = JsonState::InArgKey;
                span = Vec::new();
                assert(span@ =~= Seq::empty());
            } else if c == '"' && (opens_string || within_value) {
                in_string = true;
            }
        }
        *self =
        StateMachine {
            state,
            buffer,
            span,
            function,
            in_arguments,
            arguments_depth,
            nesting_depth,
            in_string,
            prev_escape,
        };
    }

    /// Would a quotation mark open a string value here, behind a colon?
    fn value_quote(&self) -> (r: bool)
        ensures
            r == after_colon(self@.buffer),
    {
        let mut i: usize = self.buffer.len();
        assert(self.buffer@.take(i as int) =~= self.buffer@);
        while i > 0
            invariant
                i <= self.buffer@.len(),
                after_colon(self.buffer@) == after_colon(self.buffer@.take(i as int)),
            decreases i,
        {
            let c = self.buffer[i - 1];
            let ghost part = self.buffer@.take(i as int);
            assert(part.last() == c);
            assert(part.drop_last() =~= self.buffer@.take(i - 1));
            if !c.is_whitespace() {
                return c == ':';
            }
            i = i - 1;
        }
        false
    }
}

/// Reading one text after another is reading them joined.
pub proof fn lemma_feed_joined(scan: Scan, a: Seq<char>, b: Seq<char>)
    ensures
        scan.feed(a + b) == scan.feed(a).feed(b),
    decreases b.len(),
{
    if b.len() == 0 {
        assert(a + b =~= a);
    } else {
        lemma_feed_joined(scan, a, b.drop_last());
        assert((a + b).drop_last() =~= a + b.drop_last());
        assert((a + b).last() == b.last());
    }
}

/// Inside a name or a key, text without a quotation mark becomes part of it.
pub proof fn lemma_feed_in_span(scan: Scan, text: Seq<char>)
    requires
        scan.state != JsonState::Free,
        forall|j: int| 0 <= j < text.len() ==> #[trigger] text[j] != '"',
    ensures
        scan.feed(text) == (Scan { buffer: scan.buffer + text, span: scan.span + text, ..scan }),
    decreases text.len(),
{
    if text.len() == 0 {
        assert(scan.buffer + text =~= scan.buffer);
        assert(scan.span + text =~= scan.span);
    } else {
        let head = text.drop_last();
        assert forall|j: int| 0 <= j < head.len() implies #[trigger] head[j] != '"' by {
            assert(text[j] != '"');
        }
        lemma_feed_in_span(scan, head);
        assert(text[text.len() - 1] != '"');
        assert((scan.buffer + head).push(text.last()) =~= scan.buffer + text);
        assert((scan.span + head).push(text.last()) =~= scan.span + text);
    }
}

impl Scan {
    /// What holds of the scanner whatever it has read: a span is open only
    /// inside a name or a key, and never inside a string value; a character is
    /// escaped only inside a string value; and there is at most one level of
    /// nesting per character.
    pub open spec fn valid(self) -> bool {
        &&& self.state == JsonState::Free ==> self.span.len() == 0
        &&& self.state != JsonState::Free ==> !self.in_string
        &&& self.prev_escape ==> self.in_string
        &&& self.nesting_depth <= self.buffer.len()
        &&& self.span.is_suffix_of(self.buffer)
    }
}

/// The scanner starts valid.
pub proof fn scan_starts_valid()
    ensures
        Scan::start().valid(),
{
    assert(Scan::start().span =~= Scan::start().buffer.subrange(0, 0));
}

/// Every character keeps the scanner valid, and it remembers what it read.
pub proof fn scan_stays_valid(scan: Scan, c: char)
    requires
        scan.valid(),
    ensures
        scan.step(c).valid(),
        scan.step(c).buffer == scan.buffer.push(c),
{
    let next = scan.step(c);
    let n = scan.buffer.len() as int;
    if scan.state != JsonState::Free && c != '"' {
        assert(next.span =~= next.buffer.subrange(n + 1 - next.span.len(), n + 1)) by {
            assert(scan.span == scan.buffer.subrange(n - scan.span.len(), n));
            assert forall|i: int| 0 <= i < scan.span.len() implies scan.span[i] == scan.buffer[n
                - scan.span.len() + i] by {}
        }
    } else {
        assert(next.span =~= next.buffer.subrange(n + 1, n + 1));
    }
}

/// Is the scanner inside the value of an argument: inside a string, or inside
/// an array or object?
pub open spec fn in_argument_value(scan: Scan) -> bool {
    &&& scan.state == JsonState::Free
    &&& scan.in_arguments
    &&& scan.in_string || scan.within_value()
}

/// Argument values are not constrained: no character inside one starts a name
/// or a key, ends the arguments, or moves them.
pub proof fn values_are_free(scan: Scan, c: char)
    requires
        in_argument_value(scan),
        scan.nesting_depth >= scan.arguments_depth,
    ensures
        ({
            let next = scan.step(c);
            &&& next.state == JsonState::Free
            &&& next.in_arguments
            &&& next.function == scan.function
            &&& next.arguments_depth == scan.arguments_depth
            &&& next.nesting_depth >= next.arguments_depth
        }),
{
}

/// Does the text stay inside a value up to its last character?
pub open spec fn stays_in_value(scan: Scan, text: Seq<char>) -> bool {
    forall|k: int|
        0 <= k < text.len() ==> in_argument_value(#[trigger] scan.feed(text.take(k)))
}

/// A whole value is free, whatever its strings, arrays and objects hold: from
/// its first character to its last, the scanner is never inside a name or a
/// key, and the arguments go on behind it.
pub proof fn whole_values_are_free(scan: Scan, text: Seq<char>, k: int)
    requires
        scan.state == JsonState::Free,
        scan.in_arguments,
        scan.nesting_depth >= scan.arguments_depth,
        stays_in_value(scan, text),
        0 <= k <= text.len(),
    ensures
        ({
            let next = scan.feed(text.take(k));
            &&& next.state == JsonState::Free
            &&& next.in_arguments
            &&& next.function == scan.function
            &&& next.arguments_depth == scan.arguments_depth
            &&& next.nesting_depth >= next.arguments_depth
        }),
    decreases k,
{
    if k > 0 {
        whole_values_are_free(scan, text, k - 1);
        assert(text.take(k).drop_last() =~= text.take(k - 1));
        assert(text.take(k).last() == text[k - 1]);
        values_are_free(scan.feed(text.take(k - 1)), text[k - 1]);
    } else {
        assert(text.take(0) =~= Seq::empty());
    }
}

} // verus!
