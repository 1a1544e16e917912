//! A character trie over the words that may be emitted.

use crate::text::chars_of;
use vstd::prelude::*;

verus! {

/// A node of the trie, with the part of the trie below it.
pub struct TrieNode {
    children: Vec<(char, TrieNode)>,
    terminal: bool,
}

/// The index of the first child for `c`, or the number of children.
spec fn child_index(children: Seq<(char, TrieNode)>, c: char) -> int
    decreases children.len(),
{
    if children.len() == 0 || children[0].0 == c {
        0
    } else {
        1 + child_index(children.drop_first(), c)
    }
}

proof fn lemma_child_index(children: Seq<(char, TrieNode)>, c: char)
    ensures
        0 <= child_index(children, c) <= children.len(),
        child_index(children, c) < children.len() ==> children[child_index(children, c)].0 == c,
        forall|j: int| 0 <= j < child_index(children, c) ==> (#[trigger] children[j]).0 != c,
    decreases children.len(),
{
    if children.len() > 0 && children[0].0 != c {
        let rest = children.drop_first();
        lemma_child_index(rest, c);
        assert forall|j: int| 0 <= j < child_index(children, c) implies (#[trigger] children[j]).0
            != c by {
            if j > 0 {
                assert(rest[j - 1] == children[j]);
            }
        }
    }
}

impl TrieNode {
    /// The node below this one for `c`.
    pub closed spec fn child(self, c: char) -> Option<TrieNode> {
        let i = child_index(self.children@, c);
        if i < self.children@.len() {
            Some(self.children@[i].1)
        } else {
            None
        }
    }

    /// Does a word end at this node?
    pub closed spec fn is_terminal(self) -> bool {
        self.terminal
    }

    /// Is `word` one of the words below this node?
    pub open spec fn accepts(self, word: Seq<char>) -> bool
        decreases word.len(),
    {
        if word.len() == 0 {
            self.is_terminal()
        } else {
            match self.child(word[0]) {
                Some(n) => n.accepts(word.drop_first()),
                None => false,
            }
        }
    }

    /// Is there a node below this one for `prefix`?
    pub open spec fn reaches(self, prefix: Seq<char>) -> bool
        decreases prefix.len(),
    {
        if prefix.len() == 0 {
            true
        } else {
            match self.child(prefix[0]) {
                Some(n) => n.reaches(prefix.drop_first()),
                None => false,
            }
        }
    }

    /// The node below this one for `prefix`.
    pub open spec fn descend(self, prefix: Seq<char>) -> Option<TrieNode>
        decreases prefix.len(),
    {
        if prefix.len() == 0 {
            Some(self)
        } else {
            match self.child(prefix[0]) {
                Some(n) => n.descend(prefix.drop_first()),
                None => None,
            }
        }
    }

    /// May `text` be emitted at this node? A quotation mark ends the word, and
    /// what is before the first one must be a word; without one, the text must
    /// lead to a node.
    pub open spec fn continues(self, text: Seq<char>) -> bool {
        let q = first_quote(text);
        if q < text.len() {
            self.accepts(text.take(q))
        } else {
            self.reaches(text)
        }
    }

    /// A trie without words.
    pub fn new() -> (r: TrieNode)
        ensures
            forall|w: Seq<char>| !#[trigger] r.accepts(w),
            forall|p: Seq<char>| #[trigger] r.reaches(p) == (p.len() == 0),
    {
        TrieNode { children: Vec::new(), terminal: false }
    }

    fn find(&self, c: char) -> (r: usize)
        ensures
            r == child_index(self.children@, c),
            r <= self.children@.len(),
    {
        proof {
            lemma_child_index(self.children@, c);
        }
        let n: usize = self.children.len();
        let ghost at = child_index(self.children@, c);
        for i in 0..n
            invariant
                n == self.children@.len(),
                at == child_index(self.children@, c),
                0 <= at <= n,
                at < n ==> self.children@[at].0 == c,
                forall|j: int| 0 <= j < at ==> (#[trigger] self.children@[j]).0 != c,
                forall|j: int| 0 <= j < i ==> (#[trigger] self.children@[j]).0 != c,
        {
            if self.children[i].0 == c {
                assert(self.children@[i as int].0 == c);
                return i;
            }
        }
        n
    }

    fn insert_from(&mut self, word: &Vec<char>, i: usize)
        requires
            i <= word@.len(),
        ensures
            forall|w: Seq<char>| #[trigger]
                final(self).accepts(w) == (old(self).accepts(w) || w == word@.skip(i as int)),
            forall|p: Seq<char>| #[trigger]
                final(self).reaches(p) == (old(self).reaches(p) || p.is_prefix_of(
                    word@.skip(i as int),
                )),
        decreases word@.len() - i,
    {
        let ghost rest = word@.skip(i as int);
        let ghost before = *self;
        if i == word.len() {
            self.terminal = true;
            proof {
                assert forall|w: Seq<char>| #[trigger]
                    self.accepts(w) == (before.accepts(w) || w == rest) by {
                    assert(w.len() == 0 ==> w =~= rest);
                    assert(w.len() > 0 ==> self.child(w[0]) == before.child(w[0]));
                }
                assert forall|p: Seq<char>| #[trigger]
                    self.reaches(p) == (before.reaches(p) || p.is_prefix_of(rest)) by {
                    assert(p.len() > 0 ==> self.child(p[0]) == before.child(p[0]));
                }
            }
            return;
        }
        let c = word[i];
        let k = self.find(c);
        let ghost tail = word@.skip(i + 1);
        proof {
            assert(rest.drop_first() =~= tail);
            lemma_child_index(before.children@, c);
        }
        if k < self.children.len() {
            self.children[k].1.insert_from(word, i + 1);
        } else {
            let mut n = TrieNode::new();
            n.insert_from(word, i + 1);
            self.children.push((c, n));
        }
        proof {
            assert forall|d: char| d != c implies #[trigger] self.child(d) == before.child(d) by {
                lemma_child_index(before.children@, d);
                lemma_child_index(self.children@, d);
                let a = child_index(before.children@, d);
                let b = child_index(self.children@, d);
                assert(a < before.children@.len() ==> self.children@[a] == before.children@[a]);
                assert(b < before.children@.len() ==> self.children@[b].0 == before.children@[b].0);
            }
            lemma_child_index(self.children@, c);
            let at = child_index(self.children@, c);
            assert(at < k ==> self.children@[at].0 == before.children@[at].0);
            assert(self.children@[k as int].0 == c);
            let after = self.children@[k as int].1;
            assert(self.child(c) == Some(after));
            assert forall|w: Seq<char>| #[trigger]
                after.accepts(w) == ((before.child(c) is Some && before.child(c)->0.accepts(w)) || w
                    == tail) by {}
            assert forall|p: Seq<char>| #[trigger]
                after.reaches(p) == ((before.child(c) is Some && before.child(c)->0.reaches(p))
                    || p.is_prefix_of(tail)) by {
                assert(p.len() == 0 ==> p.is_prefix_of(tail));
            }
            assert(self.is_terminal() == before.is_terminal());
            assert forall|w: Seq<char>| #[trigger]
                self.accepts(w) == (before.accepts(w) || w == rest) by {
                if w.len() == 0 {
                    assert(w != rest);
                } else {
                    let below = w.drop_first();
                    if w[0] == c {
                        assert(self.accepts(w) == after.accepts(below));
                    } else {
                        assert(self.child(w[0]) == before.child(w[0]));
                    }
                    assert(w == rest <==> w[0] == c && w.drop_first() == tail) by {
                        if w[0] == c && w.drop_first() == tail {
                            assert(w =~= seq![c] + w.drop_first());
                            assert(rest =~= seq![c] + tail);
                        }
                    }
                }
            }
            assert forall|p: Seq<char>| #[trigger]
                self.reaches(p) == (before.reaches(p) || p.is_prefix_of(rest)) by {
                if p.len() > 0 {
                    let below = p.drop_first();
                    if p[0] == c {
                        assert(self.reaches(p) == after.reaches(below));
                    } else {
                        assert(self.child(p[0]) == before.child(p[0]));
                    }
                    assert(p.is_prefix_of(rest) <==> p[0] == c && below.is_prefix_of(tail)) by {
                        if p[0] == c && below.is_prefix_of(tail) {
                            assert(p =~= seq![c] + below);
                            assert(rest.take(p.len() as int) =~= seq![c] + tail.take(
                                below.len() as int,
                            ));
                            assert(tail.take(below.len() as int) =~= below);
                        }
                        if p.is_prefix_of(rest) {
                            assert(below =~= tail.take(below.len() as int));
                        }
                    }
                }
            }
        }
    }

    /// Adds a word.
    pub fn insert(&mut self, word: &str)
        ensures
            forall|w: Seq<char>| #[trigger]
                final(self).accepts(w) == (old(self).accepts(w) || w == word@),
            forall|p: Seq<char>| #[trigger]
                final(self).reaches(p) == (old(self).reaches(p) || p.is_prefix_of(word@)),
    {
        let cs = chars_of(word);
        assert(cs@.skip(0) =~= cs@);
        self.insert_from(&cs, 0);
    }
}

impl TrieNode {
    /// The node for a prefix, if there is one.
    pub fn walk(&self, prefix: &Vec<char>) -> (r: Option<&TrieNode>)
        ensures
            match r {
                Some(n) => self.descend(prefix@) == Some(*n),
                None => self.descend(prefix@) is None,
            },
            r is Some <==> self.reaches(prefix@),
    {
        let mut node = self;
        assert(prefix@.skip(0) =~= prefix@);
        proof {
            lemma_reaches(*self, prefix@);
        }
        for i in 0..prefix.len()
            invariant
                self.reaches(prefix@) == (self.descend(prefix@) is Some),
                self.descend(prefix@) == node.descend(prefix@.skip(i as int)),
        {
            let ghost rest = prefix@.skip(i as int);
            assert(rest.drop_first() =~= prefix@.skip(i + 1));
            let k = node.find(prefix[i]);
            if k < node.children.len() {
                node = &node.children[k].1;
            } else {
                return None;
            }
        }
        Some(node)
    }

    /// May `text` be emitted at this node? A quotation mark ends the word and
    /// asks for this to be one.
    pub fn valid_continuation(&self, text: &Vec<char>) -> (r: bool)
        ensures
            r == self.continues(text@),
    {
        let mut node = self;
        let ghost q = first_quote(text@);
        proof {
            lemma_first_quote(text@);
        }
        for i in 0..text.len()
            invariant
                q == first_quote(text@),
                0 <= q <= text@.len(),
                q < text@.len() ==> text@[q] == '"',
                forall|j: int| 0 <= j < q ==> #[trigger] text@[j] != '"',
                i <= q,
                self.descend(text@.take(i as int)) == Some(*node),
        {
            let c = text[i];
            let ghost done = text@.take(i as int);
            if c == '"' {
                proof {
                    lemma_descend(*self, done, Seq::empty());
                    assert(done + Seq::empty() =~= done);
                }
                return node.terminal;
            }
            assert(i < q);
            let k = node.find(c);
            if k < node.children.len() {
                proof {
                    lemma_descend_push(*self, done, c);
                    assert(done.push(c) =~= text@.take(i + 1));
                }
                node = &node.children[k].1;
            } else {
                proof {
                    let rest = text@.subrange(i as int, q);
                    lemma_descend(*self, done, rest);
                    assert(done + rest =~= text@.take(q));
                    assert(q == text@.len() ==> text@.take(q) =~= text@);
                }
                return false;
            }
        }
        assert(text@.take(text@.len() as int) =~= text@);
        proof {
            lemma_reaches(*self, text@);
        }
        true
    }
}

impl TrieNode {
    /// The characters that a text emitted at this node can start with: those
    /// with a node below, and a quotation mark where a word ends.
    pub fn first_chars(&self) -> (r: Vec<char>)
        ensures
            forall|c: char|
                #![trigger r@.contains(c)]
                r@.contains(c) <==> self.child(c) is Some || (c == '"' && self.is_terminal()),
    {
        let mut out: Vec<char> = Vec::new();
        for i in 0..self.children.len()
            invariant
                out@.len() == i,
                forall|j: int| 0 <= j < i ==> #[trigger] out@[j] == self.children@[j].0,
        {
            out.push(self.children[i].0);
        }
        let ghost heads = out@;
        if self.terminal {
            out.push('"');
        }
        proof {
            assert forall|c: char|
                #![trigger out@.contains(c)]
                out@.contains(c) <==> self.child(c) is Some || (c == '"' && self.is_terminal()) by {
                lemma_child_index(self.children@, c);
                let i = child_index(self.children@, c);
                if self.child(c) is Some {
                    assert(out@[i] == c);
                }
                if c == '"' && self.terminal {
                    assert(out@[out@.len() - 1] == c);
                }
                if out@.contains(c) {
                    let k = choose|k: int| 0 <= k < out@.len() && out@[k] == c;
                    assert(k < heads.len() ==> self.children@[k].0 == c);
                }
            }
        }
        out
    }
}

/// There is a node for a prefix exactly where the trie reaches it.
pub proof fn lemma_reaches(n: TrieNode, p: Seq<char>)
    ensures
        n.reaches(p) == (n.descend(p) is Some),
    decreases p.len(),
{
    if p.len() > 0 {
        if let Some(m) = n.child(p[0]) {
            lemma_reaches(m, p.drop_first());
        }
    }
}

/// The words and prefixes below the node for `p` are what comes after `p`.
pub proof fn lemma_descend(n: TrieNode, p: Seq<char>, w: Seq<char>)
    ensures
        n.accepts(p + w) == (n.descend(p) matches Some(m) && m.accepts(w)),
        n.reaches(p + w) == (n.descend(p) matches Some(m) && m.reaches(w)),
        n.descend(p) is Some ==> n.descend(p + w) == n.descend(p)->0.descend(w),
    decreases p.len(),
{
    if p.len() == 0 {
        assert(p + w =~= w);
    } else {
        assert((p + w).drop_first() =~= p.drop_first() + w);
        if let Some(m) = n.child(p[0]) {
            lemma_descend(m, p.drop_first(), w);
        }
    }
}

/// One step further down.
pub proof fn lemma_descend_push(n: TrieNode, p: Seq<char>, c: char)
    requires
        n.descend(p) is Some,
    ensures
        n.descend(p.push(c)) == n.descend(p)->0.child(c),
{
    lemma_descend(n, p, seq![c]);
    assert(p + seq![c] =~= p.push(c));
    let m = n.descend(p)->0;
    assert(seq![c].drop_first() =~= Seq::empty());
    if let Some(k) = m.child(c) {
        assert(k.descend(Seq::empty()) == Some(k));
    }
    assert(m.descend(seq![c]) == m.child(c));
}

/// The first quotation mark is one, and there is none before it.
pub proof fn lemma_first_quote(text: Seq<char>)
    ensures
        0 <= first_quote(text) <= text.len(),
        first_quote(text) < text.len() ==> text[first_quote(text)] == '"',
        forall|j: int| 0 <= j < first_quote(text) ==> #[trigger] text[j] != '"',
    decreases text.len(),
{
    if text.len() > 0 && text[0] != '"' {
        let rest = text.drop_first();
        lemma_first_quote(rest);
        assert forall|j: int| 0 <= j < first_quote(text) implies #[trigger] text[j] != '"' by {
            if j > 0 {
                assert(rest[j - 1] == text[j]);
            }
        }
    }
}

/// The position of the first quotation mark, or the length of the text.
pub open spec fn first_quote(text: Seq<char>) -> int
    decreases text.len(),
{
    if text.len() == 0 || text[0] == '"' {
        0
    } else {
        1 + first_quote(text.drop_first())
    }
}

} // verus!
