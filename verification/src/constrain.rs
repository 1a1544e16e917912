//! Constrained decoding: while a tool name or an argument key is being
//! written, only tokens that go on towards a known one keep their logit.
//! Argument values are not constrained.

use crate::json::{get_str, parse, parsed, str_of, Doc, Json};
use crate::machine::{lemma_feed_in_span, lemma_feed_joined, JsonState, Scan, StateMachine};
use crate::single::NEG_INFINITY;
use crate::spec_file::items_of;
use crate::text::{chars_of, string_of};
use crate::tokenizer::{rows, Tokenizer};
use crate::trie::{first_quote, lemma_descend, lemma_first_quote, TrieNode};
use crate::vocab::Vocab;
use std::collections::HashMap;
use vstd::hash_map::StringHashMap;
use vstd::prelude::*;

verus! {

/// The tools of a document: its elements, where it is an array.
pub open spec fn tools_in(doc: Doc) -> Seq<Doc> {
    match doc {
        Doc::Array(items) => items,
        _ => Seq::empty(),
    }
}

/// The name of a tool; empty where it has none.
pub open spec fn name_in(item: Doc) -> Seq<char> {
    match str_of(item.get("name"@)) {
        Some(s) => s,
        None => Seq::empty(),
    }
}

/// Is `key` one of the members that are objects themselves?
pub open spec fn is_object_key(members: Seq<(Seq<char>, Doc)>, key: Seq<char>) -> bool {
    exists|j: int|
        0 <= j < members.len() && (#[trigger] members[j]).0 == key && members[j].1 is Object
}

/// The argument keys of a tool: its parameters that are objects.
pub open spec fn keys_in(item: Doc) -> Set<Seq<char>> {
    match item.get("parameters"@) {
        Some(Doc::Object(members)) => Set::new(|k: Seq<char>| is_object_key(members, k)),
        _ => Set::empty(),
    }
}

/// The argument keys for each tool name. Of tools with the same name, the last
/// one counts; tools without a name do not.
pub open spec fn keys_by_name(items: Seq<Doc>) -> Map<Seq<char>, Set<Seq<char>>>
    decreases items.len(),
{
    if items.len() == 0 {
        Map::empty()
    } else {
        let before = keys_by_name(items.drop_last());
        let name = name_in(items.last());
        if name.len() == 0 {
            before
        } else {
            before.insert(name, keys_in(items.last()))
        }
    }
}

/// Is `p` empty, or does one of the words start with it?
pub open spec fn leads(p: Seq<char>, words: Set<Seq<char>>) -> bool {
    p.len() == 0 || exists|w: Seq<char>| #[trigger] words.contains(w) && p.is_prefix_of(w)
}

/// After `span`, may `text` come? Up to its first quotation mark it must end
/// one of the words; without one it must lead to one.
pub open spec fn fits(span: Seq<char>, text: Seq<char>, words: Set<Seq<char>>) -> bool {
    let q = first_quote(text);
    if q < text.len() {
        words.contains(span + text.take(q))
    } else {
        leads(span + text, words)
    }
}

/// The state of a constrainer.
pub struct Constraint {
    /// The argument keys for each tool name.
    pub keys: Map<Seq<char>, Set<Seq<char>>>,
    /// The visible text of each token.
    pub texts: Seq<Seq<char>>,
    pub scan: Scan,
}

impl Constraint {
    /// The words that may be written where the scanner is, if it is inside a
    /// name or inside a key of a known tool.
    pub open spec fn words(self) -> Option<Set<Seq<char>>> {
        match self.scan.state {
            JsonState::Free => None,
            JsonState::InName => Some(self.keys.dom()),
            JsonState::InArgKey => if self.keys.contains_key(self.scan.function) {
                Some(self.keys[self.scan.function])
            } else {
                None
            },
        }
    }

    /// Does token `t` go on towards a known word?
    pub open spec fn allows(self, t: int) -> bool {
        &&& self.words() is Some
        &&& leads(self.scan.span, self.words()->0)
        &&& 0 <= t < self.texts.len()
        &&& self.texts[t].len() > 0
        &&& fits(self.scan.span, self.texts[t], self.words()->0)
    }

    /// The logits with minus infinity for all but the allowed tokens; the
    /// logits as they are where no token is allowed.
    pub open spec fn masked(self, logits: Seq<u32>) -> Seq<u32> {
        if exists|t: int| self.allows(t) {
            Seq::new(
                logits.len(),
                |i: int|
                    if self.allows(i) {
                        logits[i]
                    } else {
                        NEG_INFINITY
                    },
            )
        } else {
            logits
        }
    }

    /// The state after token `t`.
    pub open spec fn after(self, t: int) -> Constraint {
        Constraint { scan: self.scan.feed(self.texts[t]), ..self }
    }
}

/// The state before anything was generated.
pub open spec fn at_start(doc: Doc, v: Vocab) -> Constraint {
    Constraint {
        keys: keys_by_name(tools_in(doc)),
        texts: Seq::new((v.pieces.len() as u32) as nat, |t: int| v.visible(t as u32)),
        scan: Scan::start(),
    }
}

/// Masks the logits of tokens that would not be part of a tool name or an
/// argument key.
pub struct Constrainer {
    name_trie: TrieNode,
    param_tries: StringHashMap<TrieNode>,
    machine: StateMachine,
    token_texts: Vec<Vec<char>>,
    /// The tokens whose text starts with a character, by its code point.
    first_char_index: HashMap<u32, Vec<u32>>,
}

/// The words of a trie.
pub open spec fn words_of(trie: TrieNode) -> Set<Seq<char>> {
    Set::new(|w: Seq<char>| trie.accepts(w))
}

/// Does every node lead to a word?
pub open spec fn tight(trie: TrieNode) -> bool {
    forall|p: Seq<char>| #[trigger] trie.reaches(p) == leads(p, words_of(trie))
}

/// Does the index hold, for each character, the tokens that start with it?
spec fn indexes_tokens(index: Map<u32, Vec<u32>>, texts: Seq<Seq<char>>) -> bool {
    &&& forall|c: u32, k: int|
        #![trigger index[c]@[k]]
        index.contains_key(c) && 0 <= k < index[c]@.len() ==> {
            let t = index[c]@[k] as int;
            t < texts.len() && texts[t].len() > 0 && texts[t][0] as u32 == c
        }
    &&& forall|t: int|
        #![trigger texts[t]]
        0 <= t < texts.len() && texts[t].len() > 0 ==> index.contains_key(texts[t][0] as u32)
            && index[texts[t][0] as u32]@.contains(t as u32)
}

impl View for Constrainer {
    type V = Constraint;

    closed spec fn view(&self) -> Constraint {
        Constraint {
            keys: self.param_tries@.map_values(|t: TrieNode| words_of(t)),
            texts: rows(self.token_texts@),
            scan: self.machine@,
        }
    }
}

/// Adding a word keeps every node on the way to a word.
proof fn lemma_tight_insert(before: TrieNode, after: TrieNode, word: Seq<char>)
    requires
        tight(before),
        forall|w: Seq<char>| #[trigger] after.accepts(w) == (before.accepts(w) || w == word),
        forall|p: Seq<char>| #[trigger]
            after.reaches(p) == (before.reaches(p) || p.is_prefix_of(word)),
    ensures
        tight(after),
{
    let old_words = words_of(before);
    let words = words_of(after);
    assert forall|p: Seq<char>| #[trigger] after.reaches(p) == leads(p, words) by {
        if p.is_prefix_of(word) {
            assert(words.contains(word));
        }
        assert(before.reaches(p) == leads(p, old_words));
        if leads(p, old_words) && p.len() > 0 {
            let w = choose|w: Seq<char>| #[trigger] old_words.contains(w) && p.is_prefix_of(w);
            assert(words.contains(w));
        }
        if leads(p, words) && p.len() > 0 {
            let w = choose|w: Seq<char>| #[trigger] words.contains(w) && p.is_prefix_of(w);
            assert(after.accepts(w));
            if w != word {
                assert(old_words.contains(w));
            }
        }
    }
}

/// At the node of `span`, the trie lets a text come where it fits the words.
proof fn lemma_continues(trie: TrieNode, span: Seq<char>, node: TrieNode, text: Seq<char>)
    requires
        tight(trie),
        trie.descend(span) == Some(node),
    ensures
        node.continues(text) == fits(span, text, words_of(trie)),
{
    lemma_first_quote(text);
    lemma_descend(trie, span, text);
    lemma_descend(trie, span, text.take(first_quote(text)));
    assert(trie.reaches(span + text) == leads(span + text, words_of(trie)));
}

/// A text that may come starts with one of the first characters.
proof fn lemma_first_char(node: TrieNode, text: Seq<char>)
    requires
        node.continues(text),
        text.len() > 0,
    ensures
        node.child(text[0]) is Some || (text[0] == '"' && node.is_terminal()),
{
    lemma_first_quote(text);
    let q = first_quote(text);
    if q == 0 {
        assert(text.take(0).len() == 0);
    } else if q < text.len() {
        assert(text.take(q)[0] == text[0]);
    }
}

impl Constrainer {
    #[verifier::type_invariant]
    spec fn inv(self) -> bool {
        &&& words_of(self.name_trie) == self@.keys.dom()
        &&& tight(self.name_trie)
        &&& forall|name: Seq<char>|
            self.param_tries@.contains_key(name) ==> tight(#[trigger] self.param_tries@[name])
        &&& self@.texts.len() <= u32::MAX
        &&& indexes_tokens(self.first_char_index@, self@.texts)
    }

    /// The trie of a tool's argument keys.
    fn key_trie(item: &Json) -> (r: TrieNode)
        ensures
            words_of(r) == keys_in(item@),
            tight(r),
    {
        let mut trie = TrieNode::new();
        assert(words_of(trie) =~= Set::empty());
        if let Some(Json::Object(params)) = item.get("parameters") {
            let n: usize = params.len();
            assert(params@.take(0) =~= Seq::empty());
            for j in 0..n
                invariant
                    n == params@.len(),
                    tight(trie),
                    forall|w: Seq<char>| #[trigger]
                        trie.accepts(w) <==> is_object_key(params@.take(j as int), w),
            {
                let ghost before = trie;
                let ghost shorter = params@.take(j as int);
                let ghost longer = params@.take(j + 1);
                let key = params.key(j);
                assert(longer[j as int] == params@[j as int]);
                if let Json::Object(_) = params.value(j) {
                    trie.insert(key.as_str());
                    proof {
                        lemma_tight_insert(before, trie, key@);
                    }
                }
                assert forall|w: Seq<char>| #[trigger] trie.accepts(w) <==> is_object_key(
                    longer,
                    w,
                ) by {
                    assert(before.accepts(w) <==> is_object_key(shorter, w));
                    if is_object_key(shorter, w) {
                        let i = choose|i: int|
                            0 <= i < shorter.len() && (#[trigger] shorter[i]).0 == w
                                && shorter[i].1 is Object;
                        assert(longer[i] == shorter[i]);
                    }
                    if is_object_key(longer, w) {
                        let i = choose|i: int|
                            0 <= i < longer.len() && (#[trigger] longer[i]).0 == w
                                && longer[i].1 is Object;
                        if i < j {
                            assert(shorter[i] == longer[i]);
                        }
                    }
                }
            }
            assert(params@.take(params@.len() as int) =~= params@);
            assert(words_of(trie) =~= keys_in(item@));
        }
        trie
    }

    /// The constrainer for the tools of a document.
    pub fn from_tools(doc: &Json, tok: &Tokenizer) -> (r: Constrainer)
        ensures
            r@ == at_start(doc@, tok@),
    {
        let mut name_trie = TrieNode::new();
        let mut param_tries: StringHashMap<TrieNode> = StringHashMap::new();
        assert(words_of(name_trie) =~= Set::empty());
        let ghost tools = tools_in(doc@);
        let ghost goal = keys_by_name(tools);
        if let Json::Array(items) = doc {
            assert(tools =~= items_of(items@));
            for i in 0..items.len()
                invariant
                    tools == items_of(items@),
                    tight(name_trie),
                    words_of(name_trie) == param_tries@.dom(),
                    forall|name: Seq<char>|
                        param_tries@.contains_key(name) ==> tight(#[trigger] param_tries@[name]),
                    param_tries@.map_values(|t: TrieNode| words_of(t)) == keys_by_name(
                        tools.take(i as int),
                    ),
            {
                let item = &items[i];
                assert(tools[i as int] == item@);
                assert(tools.take(i + 1).drop_last() =~= tools.take(i as int));
                assert(tools.take(i + 1).last() == item@);
                if let Some(name) = get_str(item.get("name")) {
                    if !name.as_str().is_empty() {
                        let ghost before = name_trie;
                        let ghost tries_before = param_tries@;
                        name_trie.insert(name.as_str());
                        proof {
                            lemma_tight_insert(before, name_trie, name@);
                        }
                        let keys = Self::key_trie(item);
                        param_tries.insert(name.clone(), keys);
                        proof {
                            assert forall|w: Seq<char>|
                                words_of(name_trie).contains(w) <==> param_tries@.dom().contains(w) by {
                                assert(name_trie.accepts(w) == (before.accepts(w) || w == name@));
                                assert(words_of(before).contains(w) == tries_before.dom().contains(w));
                            }
                            assert(words_of(name_trie) =~= param_tries@.dom());
                            assert(param_tries@.map_values(|t: TrieNode| words_of(t))
                                =~= tries_before.map_values(|t: TrieNode| words_of(t)).insert(
                                name@,
                                words_of(keys),
                            ));
                        }
                    }
                }
            }
            assert(tools.take(tools.len() as int) =~= tools);
        } else {
            assert(param_tries@.map_values(|t: TrieNode| words_of(t)) =~= Map::empty());
        }
        let vocab: u32 = tok.vocab_size() as u32;
        let mut token_texts: Vec<Vec<char>> = Vec::new();
        let mut first_char_index: HashMap<u32, Vec<u32>> = HashMap::new();
        let ghost texts = at_start(doc@, tok@).texts;
        for id in 0..vocab
            invariant
                texts == at_start(doc@, tok@).texts,
                texts.len() == vocab,
                rows(token_texts@) == texts.take(id as int),
                indexes_tokens(first_char_index@, texts.take(id as int)),
        {
            let text = chars_of(tok.token_visible_text(id).as_str());
            assert(texts[id as int] == text@);
            let ghost shorter = texts.take(id as int);
            let ghost longer = texts.take(id + 1);
            let ghost index_before = first_char_index@;
            if text.len() > 0 {
                let c: u32 = text[0] as u32;
                let mut list = match first_char_index.remove(&c) {
                    Some(list) => list,
                    None => Vec::new(),
                };
                let ghost list_before = list@;
                list.push(id);
                first_char_index.insert(c, list);
                proof {
                    let index = first_char_index@;
                    assert forall|d: u32, k: int|
                        #![trigger index[d]@[k]]
                        index.contains_key(d) && 0 <= k < index[d]@.len() implies {
                        let t = index[d]@[k] as int;
                        t < longer.len() && longer[t].len() > 0 && longer[t][0] as u32 == d
                    } by {
                        if d == c {
                            if k < list_before.len() {
                                assert(index_before[c]@[k] == index[d]@[k]);
                                let t = index[d]@[k] as int;
                                assert(longer[t] == shorter[t]);
                            } else {
                                assert(longer[id as int] == text@);
                            }
                        } else {
                            assert(index_before[d]@[k] == index[d]@[k]);
                            let t = index[d]@[k] as int;
                            assert(longer[t] == shorter[t]);
                        }
                    }
                    assert forall|t: int|
                        #![trigger longer[t]]
                        0 <= t < longer.len() && longer[t].len() > 0 implies index.contains_key(
                        longer[t][0] as u32,
                    ) && index[longer[t][0] as u32]@.contains(t as u32) by {
                        if t < id {
                            assert(longer[t] == shorter[t]);
                            let d = longer[t][0] as u32;
                            if d == c {
                                let k = choose|k: int|
                                    0 <= k < list_before.len() && list_before[k] == t as u32;
                                assert(index[c]@[k] == t as u32);
                            }
                        } else {
                            assert(index[c]@[list_before.len() as int] == id);
                        }
                    }
                }
            } else {
                proof {
                    let index = first_char_index@;
                    assert forall|d: u32, k: int|
                        #![trigger index[d]@[k]]
                        index.contains_key(d) && 0 <= k < index[d]@.len() implies {
                        let t = index[d]@[k] as int;
                        t < longer.len() && longer[t].len() > 0 && longer[t][0] as u32 == d
                    } by {
                        let t = index[d]@[k] as int;
                        assert(longer[t] == shorter[t]);
                    }
                    assert forall|t: int|
                        #![trigger longer[t]]
                        0 <= t < longer.len() && longer[t].len() > 0 implies index.contains_key(
                        longer[t][0] as u32,
                    ) && index[longer[t][0] as u32]@.contains(t as u32) by {
                        if t < id {
                            assert(longer[t] == shorter[t]);
                        }
                    }
                }
            }
            let ghost rows_before = rows(token_texts@);
            token_texts.push(text);
            assert(rows(token_texts@) =~= rows_before.push(text@));
            assert(longer =~= shorter.push(texts[id as int]));
        }
        assert(texts.take(vocab as int) =~= texts);
        let machine = StateMachine::new();
        assert(param_tries@.map_values(|t: TrieNode| words_of(t)) == goal);
        assert(param_tries@.map_values(|t: TrieNode| words_of(t)).dom() =~= param_tries@.dom());
        Constrainer { name_trie, param_tries, machine, token_texts, first_char_index }
    }

    /// The constrainer for a JSON list of tools. Text that is none has no tool
    /// names.
    pub fn new(tools_json: &str, tok: &Tokenizer) -> (r: Constrainer)
        ensures
            r@ == at_start(
                match parsed(tools_json@) {
                    Some(doc) => doc,
                    None => Doc::Null,
                },
                tok@,
            ),
    {
        match parse(tools_json) {
            Ok(doc) => Self::from_tools(&doc, tok),
            Err(_) => Self::from_tools(&Json::Null, tok),
        }
    }

    /// Is a name or a key being written?
    pub fn is_active(&self) -> (r: bool)
        ensures
            r == (self@.scan.state != JsonState::Free),
    {
        self.machine.state() != JsonState::Free
    }

    /// The number of tokens.
    pub fn vocab_size(&self) -> (r: usize)
        ensures
            r == self@.texts.len(),
    {
        self.token_texts.len()
    }
}

/// Does the list hold the allowed tokens, and no others?
spec fn lists_allowed(c: Constraint, list: Seq<u32>) -> bool {
    &&& forall|k: int| 0 <= k < list.len() ==> c.allows(#[trigger] list[k] as int)
    &&& forall|t: int| #[trigger] c.allows(t) ==> t <= u32::MAX && list.contains(t as u32)
}

impl Constrainer {
    /// The tokens that go on towards a known word.
    fn allowed(&self) -> (r: Vec<u32>)
        ensures
            lists_allowed(self@, r@),
    {
        proof {
            use_type_invariant(self);
        }
        broadcast use vstd::std_specs::hash::group_hash_axioms;

        let mut out: Vec<u32> = Vec::new();
        let trie = match self.machine.state() {
            JsonState::Free => {
                return out;
            },
            JsonState::InName => &self.name_trie,
            JsonState::InArgKey => {
                let function = string_of(self.machine.function());
                match self.param_tries.get(function.as_str()) {
                    Some(trie) => trie,
                    None => {
                        return out;
                    },
                }
            },
        };
        let ghost words = words_of(*trie);
        let ghost span = self@.scan.span;
        assert(self@.words() == Some(words));
        assert(tight(*trie));
        let node = match trie.walk(self.machine.span()) {
            Some(node) => node,
            None => {
                return out;
            },
        };
        let heads = node.first_chars();
        let ghost texts = self@.texts;
        for h in 0..heads.len()
            invariant
                self.inv(),
                tight(*trie),
                words == words_of(*trie),
                span == self@.scan.span,
                self@.words() == Some(words),
                leads(span, words),
                trie.descend(span) == Some(*node),
                texts == self@.texts,
                forall|k: int| 0 <= k < out@.len() ==> self@.allows(#[trigger] out@[k] as int),
                forall|t: int, g: int|
                    #![trigger texts[t], heads@[g]]
                    0 <= g < h && self@.allows(t) && texts[t][0] == heads@[g] ==> out@.contains(
                        t as u32,
                    ),
        {
            let c: u32 = heads[h] as u32;
            let ghost start = out@;
            if let Some(list) = self.first_char_index.get(&c) {
                assert(list@ == self.first_char_index@[c]@);
                for k in 0..list.len()
                    invariant
                        self.inv(),
                        tight(*trie),
                        words == words_of(*trie),
                        span == self@.scan.span,
                        self@.words() == Some(words),
                        leads(span, words),
                        trie.descend(span) == Some(*node),
                        texts == self@.texts,
                        self.first_char_index@.contains_key(c),
                        list@ == self.first_char_index@[c]@,
                        forall|k: int| 0 <= k < out@.len() ==> self@.allows(#[trigger] out@[k] as int),
                        forall|t: u32| start.contains(t) ==> #[trigger] out@.contains(t),
                        forall|j: int|
                            #![trigger list@[j]]
                            0 <= j < k && self@.allows(list@[j] as int) ==> out@.contains(list@[j]),
                {
                    let t = list[k];
                    assert(self.first_char_index@[c]@[k as int] == t);
                    let ghost before = out@;
                    proof {
                        lemma_continues(*trie, span, *node, texts[t as int]);
                    }
                    if node.valid_continuation(&self.token_texts[t as usize]) {
                        out.push(t);
                        assert(out@[before.len() as int] == t);
                        assert forall|u: u32| before.contains(u) implies #[trigger] out@.contains(
                            u,
                        ) by {
                            let i = choose|i: int| 0 <= i < before.len() && before[i] == u;
                            assert(out@[i] == u);
                        }
                    }
                }
            }
            assert forall|t: int, g: int|
                #![trigger texts[t], heads@[g]]
                0 <= g < h + 1 && self@.allows(t) && texts[t][0] == heads@[g] implies out@.contains(
                t as u32,
            ) by {
                if g == h {
                    assert(texts[t][0] as u32 == c);
                    let list = self.first_char_index@[c]@;
                    let j = choose|j: int| 0 <= j < list.len() && list[j] == t as u32;
                    assert(list[j] as int == t);
                } else {
                    assert(start.contains(t as u32));
                }
            }
        }
        assert forall|t: int| #[trigger] self@.allows(t) implies t <= u32::MAX && out@.contains(
            t as u32,
        ) by {
            lemma_continues(*trie, span, *node, texts[t]);
            lemma_first_char(*node, texts[t]);
            assert(heads@.contains(texts[t][0]));
            let g = choose|g: int| 0 <= g < heads@.len() && heads@[g] == texts[t][0];
            assert(texts[t][0] == heads@[g]);
        }
        out
    }

    /// Are all allowed tokens among the first `n`?
    pub fn mask_fits(&self, n: usize) -> (r: bool)
        ensures
            r == forall|t: int| self@.allows(t) ==> t < n,
    {
        let list = self.allowed();
        for k in 0..list.len()
            invariant
                lists_allowed(self@, list@),
                forall|j: int| 0 <= j < k ==> (#[trigger] list@[j]) < n,
        {
            if list[k] as usize >= n {
                assert(self@.allows(list@[k as int] as int));
                return false;
            }
        }
        assert forall|t: int| self@.allows(t) implies t < n by {
            assert(list@.contains(t as u32));
        }
        true
    }

    /// Masks the logits: only tokens that go on towards a known name or key
    /// keep theirs. Where there is none, all keep theirs.
    pub fn constrain(&self, logits: &mut Vec<u32>)
        requires
            forall|t: int| self@.allows(t) ==> t < old(logits)@.len(),
        ensures
            final(logits)@ == self@.masked(old(logits)@),
    {
        let list = self.allowed();
        if list.len() == 0 {
            assert(forall|t: int| !self@.allows(t));
            return;
        }
        assert(self@.allows(list@[0] as int));
        let n: usize = logits.len();
        let mut keep: Vec<bool> = vec![false; n];
        for k in 0..list.len()
            invariant
                lists_allowed(self@, list@),
                n == old(logits)@.len(),
                forall|t: int| self@.allows(t) ==> t < n,
                keep@.len() == n,
                forall|i: int|
                    #![trigger keep@[i]]
                    0 <= i < n && keep@[i] ==> self@.allows(i),
                forall|j: int| 0 <= j < k ==> keep@[#[trigger] list@[j] as int],
        {
            assert(self@.allows(list@[k as int] as int));
            keep.set(list[k] as usize, true);
        }
        assert forall|i: int| 0 <= i < n implies #[trigger] keep@[i] == self@.allows(i) by {
            if self@.allows(i) {
                let k = choose|k: int| 0 <= k < list@.len() && list@[k] == i as u32;
                assert(self@.allows(list@[k] as int));
            }
        }
        for i in 0..n
            invariant
                n == keep@.len(),
                logits@.len() == n,
                old(logits)@.len() == n,
                forall|j: int| 0 <= j < n ==> #[trigger] keep@[j] == self@.allows(j),
                forall|j: int|
                    #![trigger logits@[j]]
                    0 <= j < n ==> logits@[j] == (if j < i && !keep@[j] {
                        NEG_INFINITY
                    } else {
                        old(logits)@[j]
                    }),
        {
            if !keep[i] {
                logits.set(i, NEG_INFINITY);
            }
        }
        assert(logits@ =~= self@.masked(old(logits)@));
    }

    /// Follows a token that was generated.
    pub fn update(&mut self, token_id: u32)
        requires
            token_id < old(self)@.texts.len(),
        ensures
            final(self)@ == old(self)@.after(token_id as int),
    {
        proof {
            use_type_invariant(&*self);
        }
        let mut machine = StateMachine::new();
        std::mem::swap(&mut machine, &mut self.machine);
        machine.feed(&self.token_texts[token_id as usize]);
        self.machine = machine;
    }
}

/// Outside names and keys nothing is masked.
pub proof fn free_text_is_not_masked(c: Constraint, logits: Seq<u32>)
    requires
        c.scan.state == JsonState::Free,
    ensures
        c.masked(logits) == logits,
{
}

/// Where no token goes on towards a known word, nothing is masked.
pub proof fn nothing_allowed_masks_nothing(c: Constraint, logits: Seq<u32>)
    requires
        forall|t: int| !c.allows(t),
    ensures
        c.masked(logits) == logits,
{
}

/// Masking keeps the logit of every allowed token, and the number of logits.
pub proof fn allowed_tokens_keep_their_logits(c: Constraint, logits: Seq<u32>, t: int)
    requires
        c.allows(t),
        t < logits.len(),
    ensures
        c.masked(logits).len() == logits.len(),
        c.masked(logits)[t] == logits[t],
{
}

/// An allowed token without a quotation mark keeps the name or key open, and
/// what is written of it still leads to a known word.
pub proof fn allowed_token_leads_to_a_word(c: Constraint, t: int)
    requires
        c.allows(t),
        first_quote(c.texts[t]) == c.texts[t].len(),
    ensures
        c.after(t).scan.state == c.scan.state,
        c.after(t).scan.span == c.scan.span + c.texts[t],
        c.after(t).words() == c.words(),
        leads(c.after(t).scan.span, c.words()->0),
{
    lemma_first_quote(c.texts[t]);
    lemma_feed_in_span(c.scan, c.texts[t]);
}

/// An allowed token with a quotation mark closes the name or key there, and
/// what it closes is a known word: a name is that of a tool, and a key is one
/// that the tool has.
pub proof fn allowed_token_closes_a_word(c: Constraint, t: int)
    requires
        c.allows(t),
        first_quote(c.texts[t]) < c.texts[t].len(),
    ensures
        ({
            let q = first_quote(c.texts[t]);
            let closed = c.scan.feed(c.texts[t].take(q + 1));
            let word = c.scan.span + c.texts[t].take(q);
            &&& closed.state == JsonState::Free
            &&& c.words()->0.contains(word)
            &&& c.after(t).scan == closed.feed(c.texts[t].skip(q + 1))
            &&& c.scan.state == JsonState::InName ==> closed.function == word
                && c.keys.contains_key(closed.function)
            &&& c.scan.state == JsonState::InArgKey ==> closed.function == c.scan.function
                && c.keys[closed.function].contains(word)
        }),
{
    let text = c.texts[t];
    let q = first_quote(text);
    lemma_first_quote(text);
    let head = text.take(q);
    assert forall|j: int| 0 <= j < head.len() implies #[trigger] head[j] != '"' by {
        assert(text[j] != '"');
    }
    lemma_feed_in_span(c.scan, head);
    assert(text.take(q + 1).drop_last() =~= head);
    assert(text.take(q + 1).last() == '"');
    lemma_feed_joined(c.scan, text.take(q + 1), text.skip(q + 1));
    assert(text.take(q + 1) + text.skip(q + 1) =~= text);
}

/// Tokens that write one word to its end: each of them is allowed where it
/// comes, and only the last one has a quotation mark.
pub open spec fn writes_word(c: Constraint, ids: Seq<int>) -> bool
    decreases ids.len(),
{
    &&& ids.len() > 0
    &&& c.allows(ids[0])
    &&& if ids.len() == 1 {
        first_quote(c.texts[ids[0]]) < c.texts[ids[0]].len()
    } else {
        first_quote(c.texts[ids[0]]) == c.texts[ids[0]].len() && writes_word(
            c.after(ids[0]),
            ids.drop_first(),
        )
    }
}

/// The text of a sequence of tokens.
pub open spec fn text_of(texts: Seq<Seq<char>>, ids: Seq<int>) -> Seq<char>
    decreases ids.len(),
{
    if ids.len() == 0 {
        Seq::empty()
    } else {
        texts[ids[0]] + text_of(texts, ids.drop_first())
    }
}

/// However many tokens a name or key is written with, each of them allowed:
/// the whole of it, up to the quotation mark, is a known word.
pub proof fn written_word_is_known(c: Constraint, ids: Seq<int>)
    requires
        writes_word(c, ids),
    ensures
        ({
            let text = text_of(c.texts, ids);
            let q = first_quote(text);
            &&& q < text.len()
            &&& c.words()->0.contains(c.scan.span + text.take(q))
        }),
    decreases ids.len(),
{
    let head = c.texts[ids[0]];
    let rest = ids.drop_first();
    lemma_first_quote(head);
    if ids.len() == 1 {
        assert(text_of(c.texts, rest) =~= Seq::empty());
        assert(head + text_of(c.texts, rest) =~= head);
    } else {
        allowed_token_leads_to_a_word(c, ids[0]);
        written_word_is_known(c.after(ids[0]), rest);
        let tail = text_of(c.texts, rest);
        let q = first_quote(tail);
        lemma_first_quote(tail);
        lemma_first_quote(head + tail);
        assert((head + tail)[head.len() + q] == '"');
        assert(first_quote(head + tail) == head.len() + q) by {
            let f = first_quote(head + tail);
            if f < head.len() + q {
                assert((head + tail)[f] == '"');
                if f < head.len() {
                    assert(head[f] != '"');
                } else {
                    assert(tail[f - head.len()] != '"');
                }
            }
        }
        assert((head + tail).take(head.len() + q) =~= head + tail.take(q));
        assert(c.scan.span + (head + tail.take(q)) =~= (c.scan.span + head) + tail.take(q));
    }
}

/// Is this the text of a token?
pub open spec fn is_token(c: Constraint, text: Seq<char>) -> bool {
    exists|t: int| 0 <= t < c.texts.len() && #[trigger] c.texts[t] == text
}

/// Can the word be written character by character: it has no quotation mark,
/// and there is a token for each of its characters, and one for the quotation
/// mark behind it?
pub open spec fn is_writable(c: Constraint, word: Seq<char>) -> bool {
    &&& forall|i: int|
        0 <= i < word.len() ==> #[trigger] word[i] != '"' && is_token(c, seq![word[i]])
    &&& is_token(c, seq!['"'])
}

/// While what is written leads to a known word that can be written character by
/// character, there is an allowed token.
pub proof fn a_writable_word_leaves_a_way_on(c: Constraint, word: Seq<char>)
    requires
        c.words() is Some,
        c.words()->0.contains(word),
        c.scan.span.is_prefix_of(word),
        is_writable(c, word),
    ensures
        exists|t: int| c.allows(t),
{
    let words = c.words()->0;
    let span = c.scan.span;
    let n = span.len() as int;
    assert(leads(span, words));
    if n == word.len() {
        assert(span =~= word);
        let text = seq!['"'];
        let t = choose|t: int| 0 <= t < c.texts.len() && #[trigger] c.texts[t] == text;
        assert(span + text.take(first_quote(text)) =~= word);
        assert(c.allows(t));
    } else {
        let text = seq![word[n]];
        let t = choose|t: int| 0 <= t < c.texts.len() && #[trigger] c.texts[t] == text;
        assert(word[n] != '"');
        lemma_first_quote(text);
        assert(first_quote(text) == 1) by {
            if first_quote(text) == 0 {
                assert(text[0] == '"');
            }
        }
        assert(span =~= word.take(n));
        assert(span + text =~= word.take(n + 1));
        assert((span + text).is_prefix_of(word));
        assert(leads(span + text, words));
        assert(c.allows(t));
    }
}

/// And so it goes on: where there are known words and all of them can be
/// written character by character, there is an allowed token as long as what is
/// written leads to one of them, which every allowed token that leaves the word
/// open sees to.
pub proof fn writable_words_leave_a_way_on(c: Constraint)
    requires
        c.words() is Some,
        leads(c.scan.span, c.words()->0),
        exists|word: Seq<char>| c.words()->0.contains(word),
        forall|word: Seq<char>| #[trigger] c.words()->0.contains(word) ==> is_writable(c, word),
    ensures
        exists|t: int| c.allows(t),
        forall|t: int| #[trigger]
            c.allows(t) && first_quote(c.texts[t]) == c.texts[t].len() ==> exists|u: int|
                c.after(t).allows(u),
{
    lemma_way_on(c);
    assert forall|t: int| #[trigger]
        c.allows(t) && first_quote(c.texts[t]) == c.texts[t].len() implies exists|u: int|
        c.after(t).allows(u) by {
        let next = c.after(t);
        allowed_token_leads_to_a_word(c, t);
        assert forall|word: Seq<char>| #[trigger] next.words()->0.contains(word) implies is_writable(
            next,
            word,
        ) by {
            assert(is_writable(c, word));
            lemma_writable_after(c, t, word);
        }
        lemma_way_on(next);
    }
}

proof fn lemma_way_on(c: Constraint)
    requires
        c.words() is Some,
        leads(c.scan.span, c.words()->0),
        exists|word: Seq<char>| c.words()->0.contains(word),
        forall|word: Seq<char>| #[trigger] c.words()->0.contains(word) ==> is_writable(c, word),
    ensures
        exists|t: int| c.allows(t),
{
    let words = c.words()->0;
    let span = c.scan.span;
    let word = if span.len() == 0 {
        choose|word: Seq<char>| words.contains(word)
    } else {
        choose|word: Seq<char>| #[trigger] words.contains(word) && span.is_prefix_of(word)
    };
    if span.len() == 0 {
        assert(span =~= word.take(0));
    }
    a_writable_word_leaves_a_way_on(c, word);
}

/// What can be written does not depend on what was.
proof fn lemma_writable_after(c: Constraint, t: int, word: Seq<char>)
    requires
        is_writable(c, word),
    ensures
        is_writable(c.after(t), word),
{
    let next = c.after(t);
    assert forall|text: Seq<char>| #[trigger] is_token(c, text) implies is_token(next, text) by {
        let k = choose|k: int| 0 <= k < c.texts.len() && #[trigger] c.texts[k] == text;
        assert(next.texts[k] == text);
    }
    assert forall|i: int| 0 <= i < word.len() implies #[trigger] word[i] != '"' && is_token(
        next,
        seq![word[i]],
    ) by {
        assert(is_token(c, seq![word[i]]));
    }
}

} // verus!
