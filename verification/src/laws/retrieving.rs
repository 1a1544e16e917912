//! Which tools are on the shortlist, and which embeddings belong to what.

use crate::generate::capped;
use crate::json::written;
use crate::laws::texts::numerals_are_read_back;
use crate::ranking::{ascending, is_top};
use crate::retrieval::{
    can_return, embedded, fingerprint_of, goes_over, hashed_on, is_stale, kept, names_differ,
    path_of_cache, refreshing_embeds_the_stale, refreshing_leaves_none_stale,
    refreshing_leaves_other_names, schema_input, text_hash, Embeddings, Retriever,
};
use crate::single::{greater, is_nan};
use crate::text::{decimal, lemma_decimal_injective};
use crate::tools::{schema_of, ToolDef};
use crate::vocab::Vocab;
use std::collections::hash_map::DefaultHasher;
use vstd::prelude::*;
use vstd::std_specs::hash::*;

verus! {

/// No tool is left out that is more similar than one on the shortlist, nor one
/// that is as similar and comes earlier.
pub proof fn no_better_tool_is_left_out(
    scores: Seq<u32>,
    k: nat,
    list: Seq<usize>,
    i: usize,
    j: usize,
)
    requires
        is_top(scores, k, list),
        forall|m: int| 0 <= m < scores.len() ==> !is_nan(#[trigger] scores[m]),
        list.contains(i),
        j < scores.len(),
        !list.contains(j),
    ensures
        !greater(scores[j as int], scores[i as int]),
        j < i ==> greater(scores[i as int], scores[j as int]),
{
    let a = choose|a: int| 0 <= a < list.len() && list[a] == i;
    assert(list[a] < scores.len());
    assert(list.contains((i as int) as usize) && !list.contains((j as int) as usize));
}

/// The shortlist has the size that is asked for, or holds all tools where there
/// are no more, none of them twice, in the order of the configuration.
pub proof fn the_shortlist_is_as_long_as_asked(scores: Seq<u32>, k: nat, list: Seq<usize>, a: int)
    requires
        is_top(scores, k, list),
    ensures
        k < scores.len() ==> list.len() == k,
        k >= scores.len() ==> list.len() == scores.len(),
        0 <= a < list.len() ==> list[a] < scores.len(),
        0 < a < list.len() ==> list[a - 1] < list[a],
        0 <= a < list.len() && k >= scores.len() ==> list[a] == a,
{
    if 0 <= a < list.len() {
        lemma_at_least(list, a);
        if k >= scores.len() {
            lemma_at_most(list, scores.len() as int, a);
        }
    }
}

proof fn lemma_at_least(list: Seq<usize>, a: int)
    requires
        ascending(list),
        0 <= a < list.len(),
    ensures
        list[a] >= a,
    decreases a,
{
    if a > 0 {
        lemma_at_least(list, a - 1);
        assert(list[a - 1] < list[a]);
    }
}

proof fn lemma_at_most(list: Seq<usize>, n: int, a: int)
    requires
        ascending(list),
        list.len() == n,
        forall|b: int| 0 <= b < list.len() ==> #[trigger] list[b] < n,
        0 <= a < n,
    ensures
        list[a] <= a,
    decreases n - a,
{
    if a < n - 1 {
        lemma_at_most(list, n, a + 1);
        assert(list[a] < list[a + 1]);
    } else {
        assert(list[a] < n);
    }
}

proof fn lemma_parted(a: Seq<char>, b: Seq<char>, c: Seq<char>, d: Seq<char>)
    requires
        a + seq![':'] + b == c + seq![':'] + d,
        forall|i: int| 0 <= i < a.len() ==> #[trigger] a[i] != ':',
        forall|i: int| 0 <= i < c.len() ==> #[trigger] c[i] != ':',
    ensures
        a == c,
        b == d,
{
    let x = a + seq![':'] + b;
    let y = c + seq![':'] + d;
    if a.len() < c.len() {
        assert(x[a.len() as int] == ':');
        assert(y[a.len() as int] == c[a.len() as int]);
    }
    if c.len() < a.len() {
        assert(y[c.len() as int] == ':');
        assert(x[c.len() as int] == a[c.len() as int]);
    }
    assert(a =~= x.take(a.len() as int));
    assert(c =~= y.take(c.len() as int));
    assert(b =~= x.skip((a.len() + 1) as int));
    assert(d =~= y.skip((c.len() + 1) as int));
}

/// Model files of different lengths or times have different fingerprints, and
/// no file has that of a missing one.
pub proof fn fingerprints_tell_files_apart(a: (u64, u64), b: (u64, u64))
    ensures
        fingerprint_of(Some(a)) == fingerprint_of(Some(b)) ==> a == b,
        fingerprint_of(Some(a)) != fingerprint_of(None),
{
    reveal_strlit(":");
    reveal_strlit("unknown");
    assert(":"@ =~= seq![':']);
    numerals_are_read_back(a.0 as nat);
    numerals_are_read_back(b.0 as nat);
    numerals_are_read_back(a.1 as nat);
    let x = decimal(a.0 as nat);
    let y = decimal(b.0 as nat);
    assert forall|i: int| 0 <= i < x.len() implies #[trigger] x[i] != ':' by {
        assert('0' <= x[i] <= '9');
    }
    assert forall|i: int| 0 <= i < y.len() implies #[trigger] y[i] != ':' by {
        assert('0' <= y[i] <= '9');
    }
    if fingerprint_of(Some(a)) == fingerprint_of(Some(b)) {
        lemma_parted(x, decimal(a.1 as nat), y, decimal(b.1 as nat));
        lemma_decimal_injective(a.0 as nat, b.0 as nat);
        lemma_decimal_injective(a.1 as nat, b.1 as nat);
    }
    assert('0' <= x[0] <= '9');
    assert(fingerprint_of(Some(a))[0] == x[0]);
    assert("unknown"@[0] == 'u');
}

/// The cache stands beside its configuration, under that path with something
/// behind it: different configurations have different caches.
pub proof fn caches_stand_beside_their_configurations(a: Seq<char>, b: Seq<char>)
    ensures
        a.is_prefix_of(path_of_cache(a)),
        path_of_cache(a) != a,
        path_of_cache(a) == path_of_cache(b) ==> a == b,
{
    reveal_strlit(".embcache");
    assert(a =~= path_of_cache(a).subrange(0, a.len() as int));
    assert(path_of_cache(a).len() == a.len() + 9);
    assert(path_of_cache(b).len() == b.len() + 9);
    if path_of_cache(a) == path_of_cache(b) {
        assert(a =~= path_of_cache(a).take(a.len() as int));
        assert(b =~= path_of_cache(b).take(b.len() as int));
    }
}

/// Of the ids of a text the first ones are taken, as many as are wanted, or all
/// where there are fewer.
pub proof fn the_first_ids_are_taken(ids: Seq<u32>, n: nat, i: int)
    ensures
        capped(ids, n as int).len() == (if ids.len() < n {
            ids.len()
        } else {
            n
        }),
        0 <= i < capped(ids, n as int).len() ==> capped(ids, n as int)[i] == ids[i],
{
}

/// Of a tool the first 256 ids of its schema are embedded.
pub proof fn schemas_are_embedded(v: Vocab, t: ToolDef, i: int)
    ensures
        ({
            let all = v.encoded(written(schema_of(t)));
            let ids = schema_input(v, t);
            &&& ids.len() == (if all.len() < 256 {
                all.len() as int
            } else {
                256
            })
            &&& 0 <= i < ids.len() ==> ids[i] == all[i]
        }),
{
}

/// A pass over tools with different names that ends well has embedded exactly
/// the stale ones: each with what was returned for the ids of its schema, kept
/// under its name with the hash of that schema. Where there was one there is
/// something to save, and what was to be saved before still is.
pub proof fn passes_embed_the_stale_tools<E, F: Fn(&Vec<u32>) -> Result<Vec<u32>, E>>(
    embed: F,
    v: Vocab,
    tools: Seq<ToolDef>,
    start: Retriever,
    end: Retriever,
    list: Vec<usize>,
    n: nat,
    made: Seq<Seq<u32>>,
    i: int,
)
    requires
        names_differ(tools),
        goes_over(embed, v, tools, start, end, Ok::<Vec<usize>, E>(list), n, made),
        0 <= i < tools.len(),
    ensures
        ({
            let before = start.embeddings().entries;
            let after = end.embeddings().entries;
            let t = tools[i];
            let hash = text_hash(written(schema_of(t)));
            &&& after.contains_key(t.name) && after[t.name].0 == hash
            &&& before.contains_key(t.name) && before[t.name].0 == hash ==> after[t.name]
                == before[t.name]
            &&& !(before.contains_key(t.name) && before[t.name].0 == hash) ==> can_return(
                embed,
                schema_input(v, t),
                Ok::<Seq<u32>, E>(after[t.name].1),
            ) && end.is_dirty()
            &&& start.is_dirty() ==> end.is_dirty()
        }),
{
    let e = start.embeddings();
    assert(tools.take(n as int) =~= tools);
    refreshing_embeds_the_stale(e, tools, made, i);
    refreshing_leaves_none_stale(e, tools, made, i);
    let done = embedded(e, tools, made);
    if is_stale(e, tools[i]) {
        let k = choose|k: int| 0 <= k < done.len() && done[k] == i;
        assert(can_return(embed, schema_input(v, tools[done[k]]), Ok::<Seq<u32>, E>(made[done[k]])));
    }
    assert forall|j: int| i < j < tools.len() implies (#[trigger] tools[j]).name
        != tools[i].name by {
        assert(tools[i].name != tools[j].name);
    }
}

/// A cache for the same model file is gone on with, and one for another is not.
pub proof fn caches_belong_to_a_model_file(e: Embeddings, model_fp: Seq<char>, name: Seq<char>)
    ensures
        e.model_fp == model_fp ==> kept(Some(e), model_fp) == e,
        e.model_fp != model_fp ==> !kept(Some(e), model_fp).entries.contains_key(name),
        !kept(None, model_fp).entries.contains_key(name),
        kept(Some(e), model_fp).model_fp == model_fp,
        kept(None, model_fp).model_fp == model_fp,
{
}

/// A pass that ends with an error keeps what it computed: every tool before the
/// one at fault has an embedding of its schema, and the error is what was
/// returned for the first stale one that could not be embedded.
pub proof fn failed_passes_keep_what_was_made<E, F: Fn(&Vec<u32>) -> Result<Vec<u32>, E>>(
    embed: F,
    v: Vocab,
    tools: Seq<ToolDef>,
    start: Retriever,
    end: Retriever,
    e: E,
    n: nat,
    made: Seq<Seq<u32>>,
    i: int,
)
    requires
        names_differ(tools),
        goes_over(embed, v, tools, start, end, Err::<Vec<usize>, E>(e), n, made),
        0 <= i < n,
    ensures
        n < tools.len(),
        ({
            let after = end.embeddings().entries;
            let t = tools[i];
            after.contains_key(t.name) && after[t.name].0 == text_hash(written(schema_of(t)))
        }),
        ({
            let before = start.embeddings().entries;
            let t = tools[n as int];
            !(before.contains_key(t.name) && before[t.name].0 == text_hash(written(schema_of(t))))
        }),
        can_return(embed, schema_input(v, tools[n as int]), Err::<Seq<u32>, E>(e)),
{
    let part = tools.take(n as int);
    let t = tools[n as int];
    assert(part[i] == tools[i]);
    assert forall|j: int| i < j < part.len() implies (#[trigger] part[j]).name != part[i].name by {
        assert(tools[i].name != tools[j].name);
    }
    refreshing_leaves_none_stale(start.embeddings(), part, made, i);
    assert forall|j: int| 0 <= j < part.len() implies (#[trigger] part[j]).name != t.name by {
        assert(tools[j].name != tools[n as int].name);
    }
    refreshing_leaves_other_names(start.embeddings(), part, made, t.name);
}

/// The whole of a text is hashed, from a fresh hasher.
pub proof fn the_whole_text_is_hashed(text: Seq<char>)
    ensures
        text_hash(text) == DefaultHasher::spec_finish(hashed_on(Seq::empty(), text)),
{
}

} // verus!
