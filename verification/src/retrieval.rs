//! The cache of tool embeddings, and the shortlist of tools for a query.
//!
//! An embedding is kept under the name of its tool, with a hash of the tool's
//! schema; the cache as a whole belongs to one model file. So editing a tool
//! makes its own embedding stale, and another model makes all of them so.

use crate::generate::capped;
use crate::json::written;
use crate::ranking::{is_top, top_k};
use crate::text::{decimal, decimal_text, str_eq};
use crate::tokenizer::Tokenizer;
use crate::tools::{schema_of, single_tool_model_json, Tool, ToolDef, ToolSet};
use crate::vocab::Vocab;
use std::collections::hash_map::DefaultHasher;
use std::hash::{Hash, Hasher};
use vstd::prelude::*;
use vstd::std_specs::hash::*;

verus! {

/// The most tokens of a text that are embedded.
pub const MAX_EMBED_TOKENS: usize = 256;

/// What hashing a text makes of the state of a hasher.
pub uninterp spec fn hashed_on(state: Seq<Seq<u8>>, text: Seq<char>) -> Seq<Seq<u8>>;

/// `str::hash` feeds a text to a hasher: the state of the hasher afterwards
/// depends on its state before and on the text alone.
#[verifier::external_body]
fn hash_text(h: &mut DefaultHasher, s: &str)
    ensures
        final(h)@ == hashed_on(old(h)@, s@),
{
    s.hash(h);
}

/// The hash of a text.
pub open spec fn text_hash(text: Seq<char>) -> u64 {
    DefaultHasher::spec_finish(hashed_on(Seq::empty(), text))
}

/// Hashes a text.
pub fn hash_str(s: &str) -> (r: u64)
    ensures
        r == text_hash(s@),
{
    let mut h = DefaultHasher::new();
    hash_text(&mut h, s);
    h.finish()
}

/// The fingerprint of a model file with this length and this time of change,
/// in seconds; a fixed word where there is no such file.
pub open spec fn fingerprint_of(file: Option<(u64, u64)>) -> Seq<char> {
    match file {
        Some((len, mtime)) => decimal(len as nat) + ":"@ + decimal(mtime as nat),
        None => "unknown"@,
    }
}

/// Writes the fingerprint of a model file.
pub fn model_fingerprint(file: Option<(u64, u64)>) -> (r: String)
    ensures
        r@ == fingerprint_of(file),
{
    match file {
        Some((len, mtime)) => {
            let mut out = decimal_text(len);
            out.append(":");
            out.append(decimal_text(mtime).as_str());
            out
        },
        None => "unknown".to_owned(),
    }
}

/// The path of the cache beside a configuration with this path.
pub open spec fn path_of_cache(tools_path: Seq<char>) -> Seq<char> {
    tools_path + ".embcache"@
}

/// The path of the cache beside a configuration.
pub fn cache_path(tools_path: &str) -> (r: String)
    ensures
        r@ == tools_path@ + ".embcache"@,
        r@ == path_of_cache(tools_path@),
{
    let mut out = tools_path.to_owned();
    out.append(".embcache");
    out
}

/// One embedding of the cache.
pub struct CacheEntry {
    pub name: String,
    /// The hash of the schema that was embedded.
    pub hash: u64,
    /// Single-precision patterns.
    pub embedding: Vec<u32>,
}

/// The embeddings that were computed with one model file, one for each name.
pub struct Cache {
    model_fp: String,
    entries: Vec<CacheEntry>,
}

/// A `Cache`, as a mathematical value.
pub struct Embeddings {
    pub model_fp: Seq<char>,
    pub entries: Map<Seq<char>, (u64, Seq<u32>)>,
}

/// The index of the first entry for a name, or their number.
spec fn entry_index(entries: Seq<CacheEntry>, name: Seq<char>) -> int
    decreases entries.len(),
{
    if entries.len() == 0 || entries[0].name@ == name {
        0
    } else {
        1 + entry_index(entries.drop_first(), name)
    }
}

proof fn lemma_entry_index(entries: Seq<CacheEntry>, name: Seq<char>)
    ensures
        0 <= entry_index(entries, name) <= entries.len(),
        entry_index(entries, name) < entries.len() ==> entries[entry_index(entries, name)].name@
            == name,
        forall|j: int| 0 <= j < entry_index(entries, name) ==> (#[trigger] entries[j]).name@ != name,
    decreases entries.len(),
{
    if entries.len() > 0 && entries[0].name@ != name {
        let rest = entries.drop_first();
        lemma_entry_index(rest, name);
        assert forall|j: int| 0 <= j < entry_index(entries, name) implies (
        #[trigger] entries[j]).name@ != name by {
            if j > 0 {
                assert(rest[j - 1] == entries[j]);
            }
        }
    }
}

impl View for Cache {
    type V = Embeddings;

    closed spec fn view(&self) -> Embeddings {
        Embeddings {
            model_fp: self.model_fp@,
            entries: Map::new(
                |n: Seq<char>| entry_index(self.entries@, n) < self.entries@.len(),
                |n: Seq<char>|
                    {
                        let e = self.entries@[entry_index(self.entries@, n)];
                        (e.hash, e.embedding@)
                    },
            ),
        }
    }
}

/// Do the names of the entries differ?
pub open spec fn distinct_names(entries: Seq<CacheEntry>) -> bool {
    forall|i: int, j: int|
        0 <= i < j < entries.len() ==> (#[trigger] entries[i]).name@ != (
        #[trigger] entries[j]).name@
}

impl Cache {
    #[verifier::type_invariant]
    spec fn names_differ(self) -> bool {
        distinct_names(self.entries@)
    }

    /// A cache without embeddings, for a model file.
    pub fn new(model_fp: String) -> (r: Cache)
        ensures
            r@ == (Embeddings { model_fp: model_fp@, entries: Map::empty() }),
    {
        let r = Cache { model_fp, entries: Vec::new() };
        assert(r@.entries =~= Map::empty());
        r
    }

    fn find(&self, name: &str) -> (r: usize)
        ensures
            r == entry_index(self.entries@, name@),
            r <= self.entries@.len(),
    {
        proof {
            lemma_entry_index(self.entries@, name@);
        }
        let n: usize = self.entries.len();
        let ghost at = entry_index(self.entries@, name@);
        for i in 0..n
            invariant
                n == self.entries@.len(),
                0 <= at <= n,
                at == entry_index(self.entries@, name@),
                at < n ==> self.entries@[at].name@ == name@,
                forall|j: int| 0 <= j < at ==> (#[trigger] self.entries@[j]).name@ != name@,
                forall|j: int| 0 <= j < i ==> (#[trigger] self.entries@[j]).name@ != name@,
        {
            if str_eq(self.entries[i].name.as_str(), name) {
                assert(self.entries@[i as int].name@ == name@);
                return i;
            }
        }
        n
    }

    /// Keeps an embedding under a name, in place of the one that was there.
    pub fn put(&mut self, name: String, hash: u64, embedding: Vec<u32>)
        ensures
            final(self)@ == (Embeddings {
                entries: old(self)@.entries.insert(name@, (hash, embedding@)),
                ..old(self)@
            }),
    {
        proof {
            use_type_invariant(&*self);
        }
        let i = self.find(name.as_str());
        let ghost before = self.entries@;
        let ghost key = name@;
        let entry = CacheEntry { name, hash, embedding };
        let mut entries: Vec<CacheEntry> = Vec::new();
        std::mem::swap(&mut entries, &mut self.entries);
        if i < entries.len() {
            entries.set(i, entry);
        } else {
            entries.push(entry);
        }
        proof {
            lemma_entry_index(before, key);
            assert forall|a: int, b: int| 0 <= a < b < entries@.len() implies (
            #[trigger] entries@[a]).name@ != (#[trigger] entries@[b]).name@ by {
                if a != i {
                    assert(before[a].name@ == entries@[a].name@);
                }
                if b != i {
                    assert(before[b].name@ == entries@[b].name@);
                }
            }
        }
        self.entries = entries;
        proof {
            let after = self.entries@;
            let goal = old(self)@.entries.insert(key, (hash, embedding@));
            assert forall|n: Seq<char>| #[trigger]
                self@.entries.contains_key(n) == goal.contains_key(n) && (goal.contains_key(n)
                    ==> self@.entries[n] == goal[n]) by {
                lemma_entry_index(before, n);
                lemma_entry_index(after, n);
                lemma_entry_index(before, key);
                let a = entry_index(after, n);
                let b = entry_index(before, n);
                if n == key {
                    assert(after[i as int].name@ == key);
                    if a < i {
                        assert(before[a].name@ != key);
                    }
                    assert(a == i);
                } else {
                    if b < before.len() {
                        assert(after[b].name@ == n);
                    }
                    if a < after.len() {
                        assert(a != i);
                        assert(before[a].name@ == n);
                    }
                }
            }
            assert(self@.entries =~= goal);
        }
    }

    /// The embedding under a name, with the hash of its schema.
    pub fn get(&self, name: &str) -> (r: Option<&CacheEntry>)
        ensures
            match r {
                Some(e) => self@.entries.contains_key(name@) && self@.entries[name@] == (
                    e.hash,
                    e.embedding@,
                ),
                None => !self@.entries.contains_key(name@),
            },
    {
        let i = self.find(name);
        if i < self.entries.len() {
            Some(&self.entries[i])
        } else {
            None
        }
    }

    /// Is there an embedding of a schema with this hash under the name?
    pub fn holds(&self, name: &str, hash: u64) -> (r: bool)
        ensures
            r == (self@.entries.contains_key(name@) && self@.entries[name@].0 == hash),
    {
        match self.get(name) {
            Some(e) => e.hash == hash,
            None => false,
        }
    }

    /// All entries: one for each name, and no name twice.
    pub fn entries(&self) -> (r: &Vec<CacheEntry>)
        ensures
            distinct_names(r@),
            forall|i: int|
                #![trigger r@[i]]
                0 <= i < r@.len() ==> self@.entries.contains_key(r@[i].name@)
                    && self@.entries[r@[i].name@] == (r@[i].hash, r@[i].embedding@),
            forall|name: Seq<char>| #[trigger]
                self@.entries.contains_key(name) ==> exists|i: int|
                    0 <= i < r@.len() && (#[trigger] r@[i]).name@ == name,
    {
        proof {
            use_type_invariant(self);
            let all = self.entries@;
            assert forall|i: int| #![trigger all[i]] 0 <= i < all.len() implies entry_index(
                all,
                all[i].name@,
            ) == i by {
                lemma_entry_index(all, all[i].name@);
            }
            assert forall|name: Seq<char>| #[trigger]
                self@.entries.contains_key(name) implies exists|i: int|
                0 <= i < all.len() && (#[trigger] all[i]).name@ == name by {
                lemma_entry_index(all, name);
            }
        }
        &self.entries
    }

    /// The fingerprint of the model file.
    pub fn fingerprint(&self) -> (r: &String)
        ensures
            r@ == self@.model_fp,
    {
        &self.model_fp
    }
}

/// Has the tool no embedding, or one of another schema?
pub open spec fn is_stale(e: Embeddings, t: ToolDef) -> bool {
    !(e.entries.contains_key(t.name) && e.entries[t.name].0 == text_hash(written(schema_of(t))))
}

/// The embeddings with one for this tool.
pub open spec fn with_embedding(e: Embeddings, t: ToolDef, embedding: Seq<u32>) -> Embeddings {
    Embeddings {
        entries: e.entries.insert(t.name, (text_hash(written(schema_of(t))), embedding)),
        ..e
    }
}

/// The embeddings to go on with: those of a cache for the same model file, or
/// none.
pub open spec fn kept(cache: Option<Embeddings>, model_fp: Seq<char>) -> Embeddings {
    match cache {
        Some(e) => if e.model_fp == model_fp {
            e
        } else {
            Embeddings { model_fp, entries: Map::empty() }
        },
        None => Embeddings { model_fp, entries: Map::empty() },
    }
}

/// The embeddings after going once over the tools, in order: where the one of a
/// tool is stale by then, `made` holds the new one at the index of the tool.
pub open spec fn refreshed(e: Embeddings, tools: Seq<ToolDef>, made: Seq<Seq<u32>>) -> Embeddings
    decreases tools.len(),
{
    if tools.len() == 0 {
        e
    } else {
        let before = refreshed(e, tools.drop_last(), made);
        if is_stale(before, tools.last()) {
            with_embedding(before, tools.last(), made[tools.len() - 1])
        } else {
            before
        }
    }
}

/// The indices of the tools that are embedded on the way.
pub open spec fn embedded(e: Embeddings, tools: Seq<ToolDef>, made: Seq<Seq<u32>>) -> Seq<int>
    decreases tools.len(),
{
    if tools.len() == 0 {
        Seq::empty()
    } else {
        let before = embedded(e, tools.drop_last(), made);
        if is_stale(refreshed(e, tools.drop_last(), made), tools.last()) {
            before.push(tools.len() - 1)
        } else {
            before
        }
    }
}

/// The tokens of a tool's schema that are embedded.
pub open spec fn schema_input(v: Vocab, t: ToolDef) -> Seq<u32> {
    capped(v.encoded(written(schema_of(t))), MAX_EMBED_TOKENS as int)
}

/// Can `embed` return this for these tokens?
pub open spec fn can_return<E, F: Fn(&Vec<u32>) -> Result<Vec<u32>, E>>(
    embed: F,
    ids: Seq<u32>,
    r: Result<Seq<u32>, E>,
) -> bool {
    exists|v: Vec<u32>, out: Result<Vec<u32>, E>|
        v@ == ids && #[trigger] call_ensures(embed, (&v,), out) && match (out, r) {
            (Ok(a), Ok(b)) => a@ == b,
            (Err(a), Err(b)) => a == b,
            _ => false,
        }
}

/// The indices, as mathematical values.
pub open spec fn indices_of(v: Seq<usize>) -> Seq<int> {
    v.map_values(|i: usize| i as int)
}

/// Does a pass over the tools end like this: it went over the first `n` of
/// them, `embed` returned what was made for the ones embedded on the way, and
/// then either all were done or it returned the error for the next one?
pub open spec fn goes_over<E, F: Fn(&Vec<u32>) -> Result<Vec<u32>, E>>(
    embed: F,
    v: Vocab,
    tools: Seq<ToolDef>,
    start: Retriever,
    end: Retriever,
    r: Result<Vec<usize>, E>,
    n: nat,
    made: Seq<Seq<u32>>,
) -> bool {
    let done = embedded(start.embeddings(), tools.take(n as int), made);
    &&& n <= tools.len()
    &&& end.embeddings() == refreshed(start.embeddings(), tools.take(n as int), made)
    &&& end.is_dirty() == (start.is_dirty() || done.len() > 0)
    &&& forall|k: int|
        #![trigger done[k]]
        0 <= k < done.len() ==> can_return(
            embed,
            schema_input(v, tools[done[k]]),
            Ok(made[done[k]]),
        )
    &&& match r {
        Ok(list) => n == tools.len() && indices_of(list@) == done,
        Err(e) => n < tools.len() && is_stale(end.embeddings(), tools[n as int]) && can_return(
            embed,
            schema_input(v, tools[n as int]),
            Err(e),
        ),
    }
}

/// Keeps the embeddings of the tools up to date.
pub struct Retriever {
    cache: Cache,
    dirty: bool,
}

impl Retriever {
    /// The embeddings that are kept.
    pub closed spec fn embeddings(self) -> Embeddings {
        self.cache@
    }

    /// Have embeddings been computed since the cache was last saved?
    pub closed spec fn is_dirty(self) -> bool {
        self.dirty
    }

    /// Starts from a cache, if one could be read. One for another model file is
    /// thrown away.
    pub fn new(cache: Option<Cache>, model_fp: String) -> (r: Retriever)
        ensures
            r.embeddings() == kept(
                match cache {
                    Some(c) => Some(c@),
                    None => None,
                },
                model_fp@,
            ),
            !r.is_dirty(),
    {
        let cache = match cache {
            Some(c) => if str_eq(c.model_fp.as_str(), model_fp.as_str()) {
                c
            } else {
                Cache::new(model_fp)
            },
            None => Cache::new(model_fp),
        };
        Retriever { cache, dirty: false }
    }

    fn stale(&self, tool: &Tool) -> (r: bool)
        ensures
            r == is_stale(self.embeddings(), tool@),
    {
        let hash = hash_str(single_tool_model_json(tool).as_str());
        !self.cache.holds(tool.name.as_str(), hash)
    }

    /// Goes once over the tools, in order, and computes each embedding that is
    /// stale with `embed`, which is given the tokens of the tool's schema.
    /// Returns the indices of the tools that were embedded; an error of `embed`
    /// ends it, with what was computed so far kept.
    pub fn refresh<E, F: Fn(&Vec<u32>) -> Result<Vec<u32>, E>>(
        &mut self,
        tok: &Tokenizer,
        toolset: &ToolSet,
        embed: F,
    ) -> (r: Result<Vec<usize>, E>)
        requires
            forall|ids: &Vec<u32>| #[trigger] call_requires(embed, (ids,)),
        ensures
            exists|n: nat, made: Seq<Seq<u32>>| #[trigger]
                goes_over(embed, tok@, toolset@, *old(self), *final(self), r, n, made),
    {
        let ghost start = self.embeddings();
        let ghost was_dirty = self.is_dirty();
        let ghost all = toolset@;
        let ghost mut made: Seq<Seq<u32>> = Seq::empty();
        let mut done: Vec<usize> = Vec::new();
        assert(indices_of(done@) =~= Seq::empty());
        for i in 0..toolset.tools.len()
            invariant
                forall|ids: &Vec<u32>| #[trigger] call_requires(embed, (ids,)),
                all == toolset@,
                start == old(self).embeddings(),
                was_dirty == old(self).is_dirty(),
                made.len() == i,
                self.embeddings() == refreshed(start, all.take(i as int), made),
                indices_of(done@) == embedded(start, all.take(i as int), made),
                self.is_dirty() == (was_dirty || done@.len() > 0),
                forall|k: int|
                    #![trigger indices_of(done@)[k]]
                    0 <= k < done@.len() ==> 0 <= indices_of(done@)[k] < i && can_return(
                        embed,
                        schema_input(tok@, all[indices_of(done@)[k]]),
                        Ok(made[indices_of(done@)[k]]),
                    ),
        {
            let tool = &toolset.tools[i];
            assert(all[i as int] == tool@);
            let ghost shorter = all.take(i as int);
            let ghost longer = all.take(i + 1);
            assert(longer.drop_last() =~= shorter);
            let ghost before = indices_of(done@);
            if self.stale(tool) {
                let ids = embedding_input(tok, single_tool_model_json(tool).as_str());
                match embed(&ids) {
                    Ok(embedding) => {
                        let ghost longer_made = made.push(embedding@);
                        proof {
                            lemma_later_made(start, shorter, made, longer_made);
                            assert(can_return(
                                embed,
                                schema_input(tok@, all[i as int]),
                                Ok(longer_made[i as int]),
                            ));
                        }
                        self.store(tool, embedding);
                        done.push(i);
                        proof {
                            assert(indices_of(done@) =~= before.push(i as int));
                            assert forall|k: int|
                                #![trigger indices_of(done@)[k]]
                                0 <= k < done@.len() implies 0 <= indices_of(done@)[k] < i + 1
                                && can_return(
                                embed,
                                schema_input(tok@, all[indices_of(done@)[k]]),
                                Ok(longer_made[indices_of(done@)[k]]),
                            ) by {
                                if k < before.len() {
                                    assert(before[k] == indices_of(done@)[k]);
                                    assert(made[before[k]] == longer_made[before[k]]);
                                }
                            }
                            made = longer_made;
                        }
                    },
                    Err(e) => {
                        proof {
                            assert(can_return::<E, F>(
                                embed,
                                schema_input(tok@, all[i as int]),
                                Err(e),
                            ));
                            assert(goes_over(
                                embed,
                                tok@,
                                all,
                                *old(self),
                                *self,
                                Err(e),
                                i as nat,
                                made,
                            ));
                        }
                        return Err(e);
                    },
                }
            } else {
                proof {
                    let longer_made = made.push(Seq::empty());
                    lemma_later_made(start, shorter, made, longer_made);
                    assert forall|k: int|
                        #![trigger indices_of(done@)[k]]
                        0 <= k < done@.len() implies 0 <= indices_of(done@)[k] < i + 1 && can_return(
                        embed,
                        schema_input(tok@, all[indices_of(done@)[k]]),
                        Ok(longer_made[indices_of(done@)[k]]),
                    ) by {
                        assert(before[k] == indices_of(done@)[k]);
                        assert(made[before[k]] == longer_made[before[k]]);
                    }
                    made = longer_made;
                }
            }
        }
        let r = Ok(done);
        assert(goes_over(embed, tok@, all, *old(self), *self, r, all.len(), made));
        r
    }

    /// Keeps the embedding that was computed for a tool.
    fn store(&mut self, tool: &Tool, embedding: Vec<u32>)
        ensures
            final(self).embeddings() == with_embedding(
                old(self).embeddings(),
                tool@,
                embedding@,
            ),
            final(self).is_dirty(),
    {
        let hash = hash_str(single_tool_model_json(tool).as_str());
        self.cache.put(tool.name.clone(), hash, embedding);
        self.dirty = true;
    }

    /// The embedding of a tool.
    pub fn embedding(&self, tool: &Tool) -> (r: Option<&Vec<u32>>)
        ensures
            match r {
                Some(v) => self.embeddings().entries.contains_key(tool@.name)
                    && self.embeddings().entries[tool@.name].1 == v@,
                None => !self.embeddings().entries.contains_key(tool@.name),
            },
    {
        match self.cache.get(tool.name.as_str()) {
            Some(e) => Some(&e.embedding),
            None => None,
        }
    }

    /// The indices of the `k` tools whose similarity to the query is greatest,
    /// in the order of the configuration. `similarities` holds one
    /// single-precision pattern for each tool.
    pub fn shortlist(&self, similarities: &Vec<u32>, k: usize) -> (r: Vec<usize>)
        ensures
            is_top(similarities@, k as nat, r@),
    {
        top_k(similarities, k)
    }

    /// Should the cache be saved? It is then taken to be.
    pub fn take_dirty(&mut self) -> (r: bool)
        ensures
            r == old(self).is_dirty(),
            !final(self).is_dirty(),
            final(self).embeddings() == old(self).embeddings(),
    {
        let dirty = self.dirty;
        self.dirty = false;
        dirty
    }

    /// The cache, for saving.
    pub fn cache(&self) -> (r: &Cache)
        ensures
            r@ == self.embeddings(),
    {
        &self.cache
    }
}

/// The tokens of a text that are embedded: the first ones, up to the maximum.
pub fn embedding_input(tok: &Tokenizer, text: &str) -> (r: Vec<u32>)
    ensures
        r@ == capped(tok@.encoded(text@), MAX_EMBED_TOKENS as int),
{
    let mut ids = tok.encode(text);
    if ids.len() > MAX_EMBED_TOKENS {
        ids.truncate(MAX_EMBED_TOKENS);
    }
    assert(ids@ =~= capped(tok@.encoded(text@), MAX_EMBED_TOKENS as int));
    ids
}

/// A stored embedding is not stale, and the embeddings under other names stay
/// as they are.
pub proof fn storing_touches_one_name(e: Embeddings, t: ToolDef, other: ToolDef, emb: Seq<u32>)
    ensures
        !is_stale(with_embedding(e, t, emb), t),
        with_embedding(e, t, emb).entries[t.name].1 == emb,
        other.name != t.name ==> is_stale(with_embedding(e, t, emb), other) == is_stale(e, other),
        with_embedding(e, t, emb).model_fp == e.model_fp,
{
}

/// Another model file makes every embedding stale; the same one makes none so.
pub proof fn another_model_makes_all_stale(e: Embeddings, model_fp: Seq<char>, t: ToolDef)
    ensures
        e.model_fp != model_fp ==> is_stale(kept(Some(e), model_fp), t),
        e.model_fp == model_fp ==> kept(Some(e), model_fp) == e,
        is_stale(kept(None, model_fp), t),
{
}

/// Editing a tool makes its embedding stale exactly where the hash of its
/// schema changes, and no other tool's.
pub proof fn editing_makes_one_stale(e: Embeddings, before: ToolDef, after: ToolDef)
    requires
        !is_stale(e, before),
        after.name == before.name,
    ensures
        is_stale(e, after) <==> text_hash(written(schema_of(after))) != text_hash(
            written(schema_of(before)),
        ),
{
}

/// What is made for later tools does not count for earlier ones.
proof fn lemma_later_made(
    e: Embeddings,
    tools: Seq<ToolDef>,
    made: Seq<Seq<u32>>,
    more: Seq<Seq<u32>>,
)
    requires
        tools.len() <= made.len() <= more.len(),
        forall|i: int| 0 <= i < tools.len() ==> #[trigger] made[i] == more[i],
    ensures
        refreshed(e, tools, made) == refreshed(e, tools, more),
        embedded(e, tools, made) == embedded(e, tools, more),
    decreases tools.len(),
{
    if tools.len() > 0 {
        lemma_later_made(e, tools.drop_last(), made, more);
        assert(made[tools.len() - 1] == more[tools.len() - 1]);
    }
}

/// Do the names of the tools differ?
pub open spec fn names_differ(tools: Seq<ToolDef>) -> bool {
    forall|i: int, j: int|
        0 <= i < j < tools.len() ==> (#[trigger] tools[i]).name != (#[trigger] tools[j]).name
}

/// Going over the tools touches no name but theirs, nor the fingerprint.
pub proof fn refreshing_leaves_other_names(
    e: Embeddings,
    tools: Seq<ToolDef>,
    made: Seq<Seq<u32>>,
    name: Seq<char>,
)
    requires
        forall|i: int| 0 <= i < tools.len() ==> (#[trigger] tools[i]).name != name,
    ensures
        refreshed(e, tools, made).model_fp == e.model_fp,
        refreshed(e, tools, made).entries.contains_key(name) == e.entries.contains_key(name),
        refreshed(e, tools, made).entries[name] == e.entries[name],
    decreases tools.len(),
{
    if tools.len() > 0 {
        let head = tools.drop_last();
        assert forall|i: int| 0 <= i < head.len() implies (#[trigger] head[i]).name != name by {
            assert(tools[i].name != name);
        }
        refreshing_leaves_other_names(e, head, made, name);
        assert(tools[tools.len() - 1].name != name);
    }
}

/// After going once over the tools every one of them has an embedding, and
/// none is stale that no later tool shares its name with.
pub proof fn refreshing_leaves_none_stale(
    e: Embeddings,
    tools: Seq<ToolDef>,
    made: Seq<Seq<u32>>,
    i: int,
)
    requires
        0 <= i < tools.len(),
    ensures
        refreshed(e, tools, made).entries.contains_key(tools[i].name),
        (forall|j: int| i < j < tools.len() ==> (#[trigger] tools[j]).name != tools[i].name)
            ==> !is_stale(refreshed(e, tools, made), tools[i]),
    decreases tools.len(),
{
    let shorter = tools.drop_last();
    if i < tools.len() - 1 {
        refreshing_leaves_none_stale(e, shorter, made, i);
        assert(shorter[i] == tools[i]);
        if forall|j: int| i < j < tools.len() ==> (#[trigger] tools[j]).name != tools[i].name {
            assert(tools[tools.len() - 1].name != tools[i].name);
            assert forall|j: int| i < j < shorter.len() implies (#[trigger] shorter[j]).name
                != shorter[i].name by {
                assert(tools[j].name != tools[i].name);
            }
        }
    }
}

/// Where the names differ, the tools that are embedded are exactly those whose
/// embedding was stale at the start, and each gets the one that was made for
/// it; the embeddings of the others stay.
pub proof fn refreshing_embeds_the_stale(
    e: Embeddings,
    tools: Seq<ToolDef>,
    made: Seq<Seq<u32>>,
    i: int,
)
    requires
        names_differ(tools),
        0 <= i < tools.len(),
    ensures
        embedded(e, tools, made).contains(i) <==> is_stale(e, tools[i]),
        ({
            let after = refreshed(e, tools, made).entries[tools[i].name];
            if is_stale(e, tools[i]) {
                after == (text_hash(written(schema_of(tools[i]))), made[i])
            } else {
                after == e.entries[tools[i].name]
            }
        }),
    decreases tools.len(),
{
    let head = tools.drop_last();
    let last = tools.len() - 1;
    let t = tools.last();
    assert(tools[last] == t);
    assert(names_differ(head)) by {
        assert forall|a: int, b: int| 0 <= a < b < head.len() implies (#[trigger] head[a]).name != (
        #[trigger] head[b]).name by {
            assert(tools[a].name != tools[b].name);
        }
    }
    assert forall|a: int| 0 <= a < head.len() implies (#[trigger] head[a]).name != t.name by {
        assert(tools[a].name != tools[last].name);
    }
    refreshing_leaves_other_names(e, head, made, t.name);
    let before = embedded(e, head, made);
    let all = embedded(e, tools, made);
    lemma_embedded_in_range(e, head, made);
    if i == last {
        if is_stale(e, t) {
            assert(all[before.len() as int] == last);
        } else {
            assert(!before.contains(last));
        }
    } else {
        refreshing_embeds_the_stale(e, head, made, i);
        assert(head[i] == tools[i]);
        assert(tools[i].name != t.name);
        if before.contains(i) {
            let k = choose|k: int| 0 <= k < before.len() && before[k] == i;
            assert(all[k] == i);
        }
        if all.contains(i) {
            let k = choose|k: int| 0 <= k < all.len() && all[k] == i;
            assert(k < before.len());
            assert(before[k] == i);
        }
    }
}

proof fn lemma_embedded_in_range(e: Embeddings, tools: Seq<ToolDef>, made: Seq<Seq<u32>>)
    ensures
        forall|k: int|
            0 <= k < embedded(e, tools, made).len() ==> 0 <= #[trigger] embedded(
                e,
                tools,
                made,
            )[k] < tools.len(),
    decreases tools.len(),
{
    if tools.len() > 0 {
        lemma_embedded_in_range(e, tools.drop_last(), made);
        let before = embedded(e, tools.drop_last(), made);
        let all = embedded(e, tools, made);
        assert forall|k: int| 0 <= k < all.len() implies 0 <= #[trigger] all[k] < tools.len() by {
            if k < before.len() {
                assert(0 <= before[k] < tools.len() - 1);
            }
        }
    }
}

/// Where no embedding is stale, going over the tools computes nothing and
/// changes nothing.
pub proof fn refreshing_the_fresh_does_nothing(
    e: Embeddings,
    tools: Seq<ToolDef>,
    made: Seq<Seq<u32>>,
)
    requires
        forall|i: int| 0 <= i < tools.len() ==> !is_stale(e, #[trigger] tools[i]),
    ensures
        refreshed(e, tools, made) == e,
        embedded(e, tools, made).len() == 0,
    decreases tools.len(),
{
    if tools.len() > 0 {
        let head = tools.drop_last();
        assert forall|i: int| 0 <= i < head.len() implies !is_stale(e, #[trigger] head[i]) by {
            assert(!is_stale(e, tools[i]));
        }
        refreshing_the_fresh_does_nothing(e, head, made);
        assert(!is_stale(e, tools[tools.len() - 1]));
    }
}

/// Where the names differ, going over the tools a second time computes nothing
/// and changes nothing, whatever would be made for them.
pub proof fn refreshing_twice_is_once(
    e: Embeddings,
    tools: Seq<ToolDef>,
    made: Seq<Seq<u32>>,
    again: Seq<Seq<u32>>,
)
    requires
        names_differ(tools),
    ensures
        refreshed(refreshed(e, tools, made), tools, again) == refreshed(e, tools, made),
        embedded(refreshed(e, tools, made), tools, again).len() == 0,
{
    let once = refreshed(e, tools, made);
    assert forall|i: int| 0 <= i < tools.len() implies !is_stale(once, #[trigger] tools[i]) by {
        refreshing_leaves_none_stale(e, tools, made, i);
    }
    refreshing_the_fresh_does_nothing(once, tools, again);
}

/// A pass that ends well leaves nothing to do for the next one, where the names
/// differ: that computes no embedding, whatever it is given to compute them
/// with, changes none, and leaves nothing to save.
pub proof fn a_second_pass_computes_nothing<
    E,
    F: Fn(&Vec<u32>) -> Result<Vec<u32>, E>,
    G: Fn(&Vec<u32>) -> Result<Vec<u32>, E>,
>(
    first: F,
    second: G,
    v: Vocab,
    tools: Seq<ToolDef>,
    before: Retriever,
    between: Retriever,
    again: Retriever,
    after: Retriever,
    done: Vec<usize>,
    r: Result<Vec<usize>, E>,
    n: nat,
    made: Seq<Seq<u32>>,
    m: nat,
    remade: Seq<Seq<u32>>,
)
    requires
        names_differ(tools),
        goes_over(first, v, tools, before, between, Ok::<Vec<usize>, E>(done), n, made),
        again.embeddings() == between.embeddings(),
        goes_over(second, v, tools, again, after, r, m, remade),
    ensures
        r is Ok,
        r->Ok_0@.len() == 0,
        after.embeddings() == between.embeddings(),
        after.is_dirty() == again.is_dirty(),
{
    let start = between.embeddings();
    assert(tools.take(tools.len() as int) =~= tools);
    assert forall|i: int| 0 <= i < tools.len() implies !is_stale(start, #[trigger] tools[i]) by {
        refreshing_leaves_none_stale(before.embeddings(), tools, made, i);
    }
    let part = tools.take(m as int);
    assert forall|i: int| 0 <= i < part.len() implies !is_stale(start, #[trigger] part[i]) by {
        assert(!is_stale(start, tools[i]));
    }
    refreshing_the_fresh_does_nothing(start, part, remade);
    if let Ok(list) = r {
        assert(indices_of(list@).len() == list@.len());
    }
}

} // verus!
