//! JSON documents.
//!
//! `Json` is the library's own document type, and `Doc` is its model. Reading
//! text into a document and writing a document as text are done by
//! `serde_json`; the code here turns its values into documents and back.

use crate::text::{decimal, lemma_decimal_injective, signed_decimal, str_eq};
use vstd::prelude::*;

verus! {

/// A JSON document, as a mathematical value. A number is the text it is
/// written as; an object is the sequence of its members, in order.
pub enum Doc {
    Null,
    Bool(bool),
    Number(Seq<char>),
    Str(Seq<char>),
    Array(Seq<Doc>),
    Object(Seq<(Seq<char>, Doc)>),
}

/// A JSON document.
#[derive(Debug)]
pub enum Json {
    Null,
    Bool(bool),
    Number(serde_json::Number),
    Str(String),
    Array(Vec<Json>),
    Object(JsonMap),
}

/// The members of a JSON object: distinct keys, in the order in which they
/// were first inserted.
#[derive(Debug)]
pub struct JsonMap {
    entries: Vec<(String, Json)>,
}

/// A JSON number of `serde_json`.
#[verifier::external_type_specification]
#[verifier::external_body]
pub struct ExNumber(serde_json::Number);

/// A JSON document of `serde_json`.
#[verifier::external_type_specification]
#[verifier::external_body]
pub struct ExValue(serde_json::Value);

/// An error of `serde_json`.
#[verifier::external_type_specification]
#[verifier::external_body]
pub struct ExError(serde_json::Error);

/// The text that a number is written as.
pub uninterp spec fn number_text(n: serde_json::Number) -> Seq<char>;

/// The document that a value of `serde_json` holds.
pub uninterp spec fn value_doc(v: serde_json::Value) -> Doc;

impl Json {
    /// The document that this value holds.
    pub open spec fn doc(self) -> Doc
        decreases self,
    {
        match self {
            Json::Null => Doc::Null,
            Json::Bool(b) => Doc::Bool(b),
            Json::Number(n) => Doc::Number(number_text(n)),
            Json::Str(s) => Doc::Str(s@),
            Json::Array(v) => Doc::Array(
                Seq::new(
                    v@.len(),
                    |i: int|
                        if 0 <= i < v@.len() {
                            v@[i].doc()
                        } else {
                            Doc::Null
                        },
                ),
            ),
            Json::Object(m) => Doc::Object(m.members()),
        }
    }
}

impl JsonMap {
    /// The members, in order.
    pub closed spec fn members(self) -> Seq<(Seq<char>, Doc)>
        decreases self,
    {
        Seq::new(
            self.entries@.len(),
            |i: int|
                if 0 <= i < self.entries@.len() {
                    (self.entries@[i].0@, self.entries@[i].1.doc())
                } else {
                    (Seq::empty(), Doc::Null)
                },
        )
    }
}

impl View for Json {
    type V = Doc;

    open spec fn view(&self) -> Doc {
        self.doc()
    }
}

impl View for JsonMap {
    type V = Seq<(Seq<char>, Doc)>;

    open spec fn view(&self) -> Seq<(Seq<char>, Doc)> {
        self.members()
    }
}

/// A value of `serde_json`, opened one level.
pub enum Node {
    Null,
    Bool(bool),
    Number(serde_json::Number),
    Str(String),
    Array(Vec<serde_json::Value>),
    Object(Vec<(String, serde_json::Value)>),
}

impl Node {
    /// The document that the node holds.
    pub open spec fn doc(self) -> Doc {
        match self {
            Node::Null => Doc::Null,
            Node::Bool(b) => Doc::Bool(b),
            Node::Number(n) => Doc::Number(number_text(n)),
            Node::Str(s) => Doc::Str(s@),
            Node::Array(v) => Doc::Array(v@.map_values(|x: serde_json::Value| value_doc(x))),
            Node::Object(es) => Doc::Object(
                es@.map_values(|e: (String, serde_json::Value)| (e.0@, value_doc(e.1))),
            ),
        }
    }
}

/// Does no key occur twice among the members?
pub open spec fn distinct_keys(members: Seq<(Seq<char>, Doc)>) -> bool {
    forall|i: int, j: int|
        0 <= i < j < members.len() ==> #[trigger] members[i].0 != #[trigger] members[j].0
}

/// The document that a JSON text reads as, if it is one.
pub uninterp spec fn parsed(text: Seq<char>) -> Option<Doc>;

/// The compact JSON text of a document.
pub uninterp spec fn written(doc: Doc) -> Seq<char>;

/// `serde_json::from_str` into a value reads a JSON text: which texts it
/// accepts, and the document that it reads, depend on the text alone.
#[verifier::external_body]
fn parse_value(text: &str) -> (r: Result<serde_json::Value, serde_json::Error>)
    ensures
        match r {
            Ok(v) => parsed(text@) == Some(value_doc(v)),
            Err(_) => parsed(text@) is None,
        },
{
    serde_json::from_str(text)
}

/// The variants of `serde_json::Value`, told apart, with their fields moved
/// out. An object hands out its members in their order (`Map::into_iter`), and
/// no key twice.
#[verifier::external_body]
fn open_value(v: serde_json::Value) -> (r: Node)
    ensures
        r.doc() == value_doc(v),
        r.doc() matches Doc::Object(members) ==> distinct_keys(members),
{
    match v {
        serde_json::Value::Null => Node::Null,
        serde_json::Value::Bool(b) => Node::Bool(b),
        serde_json::Value::Number(n) => Node::Number(n),
        serde_json::Value::String(s) => Node::Str(s),
        serde_json::Value::Array(a) => Node::Array(a),
        serde_json::Value::Object(m) => Node::Object(m.into_iter().collect()),
    }
}

/// The variants of `serde_json::Value`, built from their fields. An object
/// collects its members in their order (`Map::from_iter`).
#[verifier::external_body]
fn close_value(n: Node) -> (r: serde_json::Value)
    requires
        n.doc() matches Doc::Object(members) ==> distinct_keys(members),
    ensures
        value_doc(r) == n.doc(),
{
    match n {
        Node::Null => serde_json::Value::Null,
        Node::Bool(b) => serde_json::Value::Bool(b),
        Node::Number(n) => serde_json::Value::Number(n),
        Node::Str(s) => serde_json::Value::String(s),
        Node::Array(a) => serde_json::Value::Array(a),
        Node::Object(es) => serde_json::Value::Object(es.into_iter().collect()),
    }
}

/// How deep arrays and objects may be nested in a text that is read.
pub const MAX_DEPTH: u8 = 127;

/// Is the text the numeral of an integer of 64 bits, with or without a sign?
pub open spec fn is_integer_text(t: Seq<char>) -> bool {
    exists|n: int| i64::MIN <= n <= u64::MAX && t == #[trigger] signed_decimal(n)
}

/// Are arrays and objects nested no deeper than `room`, and are all numbers
/// integers of 64 bits?
pub open spec fn readable(doc: Doc, room: nat) -> bool
    decreases doc,
{
    match doc {
        Doc::Number(t) => is_integer_text(t),
        Doc::Array(items) => room > 0 && forall|i: int|
            0 <= i < items.len() ==> readable(#[trigger] items[i], (room - 1) as nat),
        Doc::Object(members) => room > 0 && forall|i: int|
            0 <= i < members.len() ==> readable((#[trigger] members[i]).1, (room - 1) as nat),
        _ => true,
    }
}

/// `Value::to_string` writes a document as compact JSON. The text depends on
/// the document alone; `null`, the truth values and numbers are written as
/// they stand. `serde_json::from_str` reads the text back as the same document
/// where it is not nested too deep and holds no numbers but integers of 64
/// bits; of other numbers nothing is claimed.
#[verifier::external_body]
fn value_text(v: &serde_json::Value) -> (r: String)
    ensures
        r@ == written(value_doc(*v)),
        value_doc(*v) is Null ==> r@ == "null"@,
        value_doc(*v) matches Doc::Bool(b) ==> r@ == (if b {
            "true"@
        } else {
            "false"@
        }),
        value_doc(*v) matches Doc::Number(t) ==> r@ == t,
        readable(value_doc(*v), MAX_DEPTH as nat) ==> parsed(r@) == Some(value_doc(*v)),
{
    v.to_string()
}

/// `Number::clone` gives the same number.
pub assume_specification[ <serde_json::Number as Clone>::clone ](n: &serde_json::Number) -> (r:
    serde_json::Number)
    ensures
        number_text(r) == number_text(*n),
;

/// `Number::as_u64` gives the value of a number that is a non-negative integer
/// of 64 bits, which is written in decimal; other numbers are written with a
/// sign, a point or an exponent.
pub assume_specification[ serde_json::Number::as_u64 ](n: &serde_json::Number) -> (r: Option<u64>)
    ensures
        match r {
            Some(u) => number_text(*n) == decimal(u as nat),
            None => forall|u: u64| number_text(*n) != #[trigger] decimal(u as nat),
        },
;

/// The index of the first member with this key, or their number.
pub open spec fn position(members: Seq<(Seq<char>, Doc)>, key: Seq<char>) -> int
    decreases members.len(),
{
    if members.len() == 0 || members[0].0 == key {
        0
    } else {
        1 + position(members.drop_first(), key)
    }
}

/// The value of the member with this key.
pub open spec fn member(members: Seq<(Seq<char>, Doc)>, key: Seq<char>) -> Option<Doc> {
    if position(members, key) < members.len() {
        Some(members[position(members, key)].1)
    } else {
        None
    }
}

/// The members after inserting one: in place of the one with the same key, or
/// at the end.
pub open spec fn inserted(
    members: Seq<(Seq<char>, Doc)>,
    key: Seq<char>,
    value: Doc,
) -> Seq<(Seq<char>, Doc)> {
    if position(members, key) < members.len() {
        members.update(position(members, key), (key, value))
    } else {
        members.push((key, value))
    }
}

/// The position is that of the first member with the key.
pub proof fn lemma_position(members: Seq<(Seq<char>, Doc)>, key: Seq<char>)
    ensures
        0 <= position(members, key) <= members.len(),
        position(members, key) < members.len() ==> members[position(members, key)].0 == key,
        forall|j: int| 0 <= j < position(members, key) ==> #[trigger] members[j].0 != key,
    decreases members.len(),
{
    if members.len() > 0 && members[0].0 != key {
        let rest = members.drop_first();
        lemma_position(rest, key);
        assert forall|j: int| 0 <= j < position(members, key) implies #[trigger] members[j].0
            != key by {
            if j > 0 {
                assert(rest[j - 1] == members[j]);
            }
        }
    }
}

impl Doc {
    /// The member of an object with this key; nothing for other documents.
    pub open spec fn get(self, key: Seq<char>) -> Option<Doc> {
        match self {
            Doc::Object(members) => member(members, key),
            _ => None,
        }
    }

    /// The element of an array at this index; nothing for other documents.
    pub open spec fn at(self, index: int) -> Option<Doc> {
        match self {
            Doc::Array(items) => if 0 <= index < items.len() {
                Some(items[index])
            } else {
                None
            },
            _ => None,
        }
    }

    /// The characters of a string; nothing for other documents.
    pub open spec fn as_str(self) -> Option<Seq<char>> {
        match self {
            Doc::Str(s) => Some(s),
            _ => None,
        }
    }
}

/// The characters of `d`, where it is there and a string.
pub open spec fn str_of(d: Option<Doc>) -> Option<Seq<char>> {
    match d {
        Some(d) => d.as_str(),
        None => None,
    }
}

/// The truth value of `d`, where it is there and one.
pub open spec fn bool_of(d: Option<Doc>) -> Option<bool> {
    match d {
        Some(Doc::Bool(b)) => Some(b),
        _ => None,
    }
}

/// The value of a numeral of 64 bits; nothing for other text.
pub open spec fn u64_value(t: Seq<char>) -> Option<u64> {
    if exists|u: u64| t == #[trigger] decimal(u as nat) {
        Some(choose|u: u64| t == #[trigger] decimal(u as nat))
    } else {
        None
    }
}

/// The value of `d`, where it is there and a non-negative integer of 64 bits.
pub open spec fn u64_of(d: Option<Doc>) -> Option<u64> {
    match d {
        Some(Doc::Number(t)) => u64_value(t),
        _ => None,
    }
}

/// A numeral has the value that it is the numeral of.
pub proof fn lemma_u64_value(u: u64)
    ensures
        u64_value(decimal(u as nat)) == Some(u),
{
    let w = choose|w: u64| decimal(u as nat) == #[trigger] decimal(w as nat);
    assert(decimal(u as nat) == decimal(w as nat));
    lemma_decimal_injective(u as nat, w as nat);
}

impl JsonMap {
    #[verifier::type_invariant]
    spec fn keys_differ(self) -> bool {
        distinct_keys(self.members())
    }

    /// An object without members.
    pub fn new() -> (r: JsonMap)
        ensures
            r@ == Seq::<(Seq<char>, Doc)>::empty(),
    {
        let r = JsonMap { entries: Vec::new() };
        assert(r@ =~= Seq::empty());
        r
    }

    /// The number of members; no two have the same key.
    pub fn len(&self) -> (r: usize)
        ensures
            r == self@.len(),
            distinct_keys(self@),
    {
        proof {
            use_type_invariant(self);
        }
        self.entries.len()
    }

    /// The key of the member at this index.
    pub fn key(&self, i: usize) -> (r: &String)
        requires
            i < self@.len(),
        ensures
            r@ == self@[i as int].0,
    {
        &self.entries[i].0
    }

    /// The value of the member at this index.
    pub fn value(&self, i: usize) -> (r: &Json)
        requires
            i < self@.len(),
        ensures
            r@ == self@[i as int].1,
    {
        &self.entries[i].1
    }

    fn find(&self, key: &str) -> (r: usize)
        ensures
            r == position(self@, key@),
    {
        proof {
            lemma_position(self@, key@);
        }
        let n: usize = self.entries.len();
        for i in 0..n
            invariant
                n == self@.len(),
                0 <= position(self@, key@) <= n,
                position(self@, key@) < n ==> self@[position(self@, key@)].0 == key@,
                forall|j: int| 0 <= j < position(self@, key@) ==> #[trigger] self@[j].0 != key@,
                forall|j: int| 0 <= j < i ==> #[trigger] self@[j].0 != key@,
        {
            if str_eq(self.entries[i].0.as_str(), key) {
                assert(self@[i as int].0 == key@);
                return i;
            }
        }
        n
    }

    /// The value of the member with this key.
    pub fn get(&self, key: &str) -> (r: Option<&Json>)
        ensures
            opt_doc(r) == member(self@, key@),
    {
        let i = self.find(key);
        if i < self.entries.len() {
            proof {
                lemma_position(self@, key@);
            }
            Some(&self.entries[i].1)
        } else {
            None
        }
    }

    /// The same members once more.
    pub fn copy(&self) -> (r: JsonMap)
        ensures
            r@ == self@,
        decreases self@,
    {
        proof {
            use_type_invariant(self);
        }
        let mut entries: Vec<(String, Json)> = Vec::new();
        for i in 0..self.entries.len()
            invariant
                entries@.len() == i,
                forall|k: int|
                    0 <= k < i ==> (#[trigger] entries@[k]).0@ == self@[k].0 && entries@[k].1@
                        == self@[k].1,
        {
            assert(self@[i as int].1 == self.entries@[i as int].1@);
            assert(decreases_to!(self@ => self@[i as int]));
            assert(decreases_to!(self@[i as int] => self@[i as int].1));
            entries.push((self.entries[i].0.clone(), self.entries[i].1.copy()));
        }
        let ghost m = JsonMap { entries };
        assert(m.members() =~= self@);
        JsonMap { entries }
    }

    /// Inserts a member: in place of the one with the same key, or at the end.
    pub fn insert(&mut self, key: String, value: Json)
        ensures
            final(self)@ == inserted(old(self)@, key@, value@),
    {
        let i = self.find(key.as_str());
        proof {
            use_type_invariant(&*self);
            lemma_position(self@, key@);
        }
        let ghost before = self@;
        let ghost after = inserted(before, key@, value@);
        let mut entries: Vec<(String, Json)> = Vec::new();
        std::mem::swap(&mut entries, &mut self.entries);
        let ghost olds = entries@;
        if i < entries.len() {
            entries.set(i, (key, value));
        } else {
            entries.push((key, value));
        }
        let ghost m = JsonMap { entries };
        assert(m.members() =~= after);
        assert(distinct_keys(after));
        self.entries = entries;
    }
}

/// The document that a value of `serde_json` holds.
fn from_value(v: serde_json::Value) -> (r: Json)
    ensures
        r@ == value_doc(v),
    decreases value_doc(v),
{
    let ghost whole = value_doc(v);
    match open_value(v) {
        Node::Null => Json::Null,
        Node::Bool(b) => Json::Bool(b),
        Node::Number(n) => Json::Number(n),
        Node::Str(s) => Json::Str(s),
        Node::Array(values) => {
            let ghost items = whole->Array_0;
            let mut out: Vec<Json> = Vec::new();
            for x in it: values
                invariant
                    whole == value_doc(v),
                    whole == Doc::Array(items),
                    it.seq() == values@,
                    items == values@.map_values(|x: serde_json::Value| value_doc(x)),
                    out@.len() == it.index(),
                    forall|j: int| 0 <= j < it.index() ==> #[trigger] out@[j]@ == items[j],
            {
                assert(value_doc(x) == items[it.index()]);
                assert(decreases_to!(whole => whole->Array_0[it.index()]));
                out.push(from_value(x));
            }
            let r = Json::Array(out);
            assert(r@->Array_0 =~= items);
            r
        },
        Node::Object(pairs) => {
            let ghost members = whole->Object_0;
            let mut out: Vec<(String, Json)> = Vec::new();
            for e in it: pairs
                invariant
                    whole == value_doc(v),
                    whole == Doc::Object(members),
                    it.seq() == pairs@,
                    members == pairs@.map_values(
                        |e: (String, serde_json::Value)| (e.0@, value_doc(e.1)),
                    ),
                    out@.len() == it.index(),
                    forall|j: int|
                        0 <= j < it.index() ==> (#[trigger] out@[j]).0@ == members[j].0
                            && out@[j].1@ == members[j].1,
            {
                let (key, x) = e;
                assert(value_doc(x) == members[it.index()].1);
                assert(decreases_to!(whole => whole->Object_0[it.index()]));
                assert(decreases_to!(whole->Object_0[it.index()] => whole->Object_0[it.index()].1));
                out.push((key, from_value(x)));
            }
            let ghost m = JsonMap { entries: out };
            assert(m.members() =~= members);
            Json::Object(JsonMap { entries: out })
        },
    }
}

/// The value of `serde_json` that holds a document.
fn to_value(j: &Json) -> (r: serde_json::Value)
    ensures
        value_doc(r) == j@,
    decreases j@,
{
    match j {
        Json::Null => close_value(Node::Null),
        Json::Bool(b) => close_value(Node::Bool(*b)),
        Json::Number(n) => close_value(Node::Number(n.clone())),
        Json::Str(s) => close_value(Node::Str(s.clone())),
        Json::Array(items) => {
            let mut out: Vec<serde_json::Value> = Vec::new();
            for i in 0..items.len()
                invariant
                    j == Json::Array(*items),
                    out@.len() == i,
                    forall|k: int| 0 <= k < i ==> value_doc(#[trigger] out@[k]) == items@[k]@,
            {
                assert(items@[i as int]@ == j@->Array_0[i as int]);
                assert(decreases_to!(j@ => j@->Array_0[i as int]));
                out.push(to_value(&items[i]));
            }
            let node = Node::Array(out);
            assert(node.doc()->Array_0 =~= j@->Array_0);
            close_value(node)
        },
        Json::Object(m) => {
            proof {
                use_type_invariant(m);
            }
            let mut out: Vec<(String, serde_json::Value)> = Vec::new();
            for i in 0..m.entries.len()
                invariant
                    j == Json::Object(*m),
                    out@.len() == i,
                    forall|k: int|
                        0 <= k < i ==> (#[trigger] out@[k]).0@ == m.entries@[k].0@ && value_doc(
                            out@[k].1,
                        ) == m.entries@[k].1@,
            {
                assert(m@[i as int].1 == m.entries@[i as int].1@);
                assert(j@ == Doc::Object(m@));
                assert(decreases_to!(j@ => j@->Object_0[i as int]));
                assert(decreases_to!(j@->Object_0[i as int] => j@->Object_0[i as int].1));
                out.push((m.entries[i].0.clone(), to_value(&m.entries[i].1)));
            }
            let node = Node::Object(out);
            assert(node.doc()->Object_0 =~= m@);
            close_value(node)
        },
    }
}

/// Reads a JSON text.
pub fn parse(text: &str) -> (r: Result<Json, serde_json::Error>)
    ensures
        match r {
            Ok(j) => parsed(text@) == Some(j@),
            Err(_) => parsed(text@) is None,
        },
{
    match parse_value(text) {
        Ok(v) => Ok(from_value(v)),
        Err(e) => Err(e),
    }
}

impl Json {
    /// Writes the document as compact JSON text.
    pub fn to_string(&self) -> (r: String)
        ensures
            r@ == written(self@),
            self@ is Null ==> r@ == "null"@,
            self@ matches Doc::Bool(b) ==> r@ == (if b {
                "true"@
            } else {
                "false"@
            }),
            self@ matches Doc::Number(t) ==> r@ == t,
            readable(self@, MAX_DEPTH as nat) ==> parsed(r@) == Some(self@),
    {
        value_text(&to_value(self))
    }

    /// The same document once more.
    pub fn copy(&self) -> (r: Json)
        ensures
            r@ == self@,
        decreases self@,
    {
        match self {
            Json::Null => Json::Null,
            Json::Bool(b) => Json::Bool(*b),
            Json::Number(n) => Json::Number(n.clone()),
            Json::Str(s) => Json::Str(s.clone()),
            Json::Array(items) => {
                let mut out: Vec<Json> = Vec::new();
                for i in 0..items.len()
                    invariant
                        self == Json::Array(*items),
                        out@.len() == i,
                        forall|k: int| 0 <= k < i ==> #[trigger] out@[k]@ == items@[k]@,
                {
                    assert(items@[i as int]@ == self@->Array_0[i as int]);
                    assert(decreases_to!(self@ => self@->Array_0[i as int]));
                    out.push(items[i].copy());
                }
                let ghost copies = out@;
                let r = Json::Array(out);
                assert forall|k: int| 0 <= k < copies.len() implies r@->Array_0[k]
                    == self@->Array_0[k] by {
                    assert(copies[k]@ == items@[k]@);
                }
                assert(r@->Array_0 =~= self@->Array_0);
                r
            },
            Json::Object(m) => {
                assert(self@ == Doc::Object(m@));
                assert(decreases_to!(self@ => self@->Object_0));
                Json::Object(m.copy())
            },
        }
    }

    /// The member of an object with this key; nothing for other documents.
    pub fn get(&self, key: &str) -> (r: Option<&Json>)
        ensures
            opt_doc(r) == self@.get(key@),
    {
        match self {
            Json::Object(m) => m.get(key),
            _ => None,
        }
    }

    /// The element of an array at this index; nothing for other documents.
    pub fn at(&self, index: usize) -> (r: Option<&Json>)
        ensures
            opt_doc(r) == self@.at(index as int),
    {
        match self {
            Json::Array(items) => if index < items.len() {
                Some(&items[index])
            } else {
                None
            },
            _ => None,
        }
    }
}

/// The characters of `j`, where it is there and a string.
pub fn get_str(j: Option<&Json>) -> (r: Option<&String>)
    ensures
        match r {
            Some(s) => str_of(opt_doc(j)) == Some(s@),
            None => str_of(opt_doc(j)) is None,
        },
{
    match j {
        Some(Json::Str(s)) => Some(s),
        _ => None,
    }
}

/// The truth value of `j`, where it is there and one.
pub fn get_bool(j: Option<&Json>) -> (r: Option<bool>)
    ensures
        r == bool_of(opt_doc(j)),
{
    match j {
        Some(Json::Bool(b)) => Some(*b),
        _ => None,
    }
}

/// The value of `j`, where it is there and a non-negative integer of 64 bits.
pub fn get_u64(j: Option<&Json>) -> (r: Option<u64>)
    ensures
        r == u64_of(opt_doc(j)),
{
    match j {
        Some(Json::Number(n)) => {
            let r = n.as_u64();
            proof {
                if let Some(u) = r {
                    lemma_u64_value(u);
                }
            }
            r
        },
        _ => None,
    }
}

/// The document that is there, if one is.
pub open spec fn opt_doc(j: Option<&Json>) -> Option<Doc> {
    match j {
        Some(j) => Some(j@),
        None => None,
    }
}

} // verus!
