//! Which tensors a model needs.

use crate::model::{
    attention_tensors, decoder_layer_tensors, decoder_tensors, encoder_layer_tensors,
    encoder_tensors, first_absent, holds_head, is_kept_from, layer_name, needed_tensors, share,
    Config,
};
use crate::text::decimal;
use vstd::prelude::*;

verus! {

/// The name of a layer of the encoder or the decoder.
pub open spec fn layer_prefix(decoder: bool, i: nat) -> Seq<char> {
    if decoder {
        "decoder.layers."@ + decimal(i)
    } else {
        "encoder.layers."@ + decimal(i)
    }
}

/// Are all six tensors of an attention module among these?
pub open spec fn has_attention(names: Seq<Seq<char>>, prefix: Seq<char>) -> bool {
    &&& names.contains(prefix + ".q_proj.weight"@)
    &&& names.contains(prefix + ".k_proj.weight"@)
    &&& names.contains(prefix + ".v_proj.weight"@)
    &&& names.contains(prefix + ".out_proj.weight"@)
    &&& names.contains(prefix + ".q_norm.scale"@)
    &&& names.contains(prefix + ".k_norm.scale"@)
}

proof fn lemma_prefix(i: nat)
    ensures
        layer_name("encoder"@, i) == layer_prefix(false, i),
        layer_name("decoder"@, i) == layer_prefix(true, i),
{
    reveal_strlit("encoder");
    reveal_strlit("decoder");
    reveal_strlit(".layers.");
    reveal_strlit("encoder.layers.");
    reveal_strlit("decoder.layers.");
    assert("encoder"@ + ".layers."@ =~= "encoder.layers."@);
    assert("decoder"@ + ".layers."@ =~= "decoder.layers."@);
}

proof fn lemma_in_joined(a: Seq<Seq<char>>, b: Seq<Seq<char>>)
    ensures
        forall|x: Seq<char>| #[trigger] a.contains(x) ==> (a + b).contains(x),
        forall|x: Seq<char>| #[trigger] b.contains(x) ==> (a + b).contains(x),
{
    assert forall|x: Seq<char>| #[trigger] a.contains(x) implies (a + b).contains(x) by {
        let k = choose|k: int| 0 <= k < a.len() && a[k] == x;
        assert((a + b)[k] == x);
    }
    assert forall|x: Seq<char>| #[trigger] b.contains(x) implies (a + b).contains(x) by {
        let k = choose|k: int| 0 <= k < b.len() && b[k] == x;
        assert((a + b)[a.len() + k] == x);
    }
}

proof fn lemma_attention(prefix: Seq<char>)
    ensures
        has_attention(attention_tensors(prefix), prefix),
{
    let names = attention_tensors(prefix);
    assert(names[0] == prefix + ".q_proj.weight"@);
    assert(names[1] == prefix + ".k_proj.weight"@);
    assert(names[2] == prefix + ".v_proj.weight"@);
    assert(names[3] == prefix + ".out_proj.weight"@);
    assert(names[4] == prefix + ".q_norm.scale"@);
    assert(names[5] == prefix + ".k_norm.scale"@);
}

proof fn lemma_layers(n: nat, i: nat)
    requires
        i < n,
    ensures
        forall|x: Seq<char>| #[trigger]
            encoder_layer_tensors(i).contains(x) ==> encoder_tensors(n).contains(x),
        forall|x: Seq<char>| #[trigger]
            decoder_layer_tensors(i).contains(x) ==> decoder_tensors(n).contains(x),
    decreases n,
{
    let m = (n - 1) as nat;
    lemma_in_joined(encoder_tensors(m), encoder_layer_tensors(m));
    lemma_in_joined(decoder_tensors(m), decoder_layer_tensors(m));
    if i < m {
        lemma_layers(m, i);
    }
}

/// A model needs all tensors of each of its encoder layers.
pub proof fn every_encoder_layer_is_needed(cfg: Config, i: nat)
    requires
        i < cfg.num_encoder_layers,
    ensures
        ({
            let names = needed_tensors(cfg);
            let p = layer_prefix(false, i);
            &&& names.contains(p + ".norm1.scale"@)
            &&& has_attention(names, p + ".self_attn"@)
            &&& names.contains(p + ".attn_gate"@)
        }),
{
    let p = layer_prefix(false, i);
    lemma_prefix(i);
    lemma_attention(p + ".self_attn"@);
    let head = seq![p + ".norm1.scale"@];
    let middle = attention_tensors(p + ".self_attn"@);
    let tail = seq![p + ".attn_gate"@];
    assert(head[0] == p + ".norm1.scale"@);
    assert(tail[0] == p + ".attn_gate"@);
    assert(head.contains(p + ".norm1.scale"@));
    assert(tail.contains(p + ".attn_gate"@));
    lemma_in_joined(head + middle, tail);
    lemma_in_joined(head, middle);
    assert(encoder_layer_tensors(i) == head + middle + tail);
    lemma_layers(cfg.num_encoder_layers as nat, i);
    lemma_needed(cfg);
}

/// A model needs all tensors of each of its decoder layers.
pub proof fn every_decoder_layer_is_needed(cfg: Config, i: nat)
    requires
        i < cfg.num_decoder_layers,
    ensures
        ({
            let names = needed_tensors(cfg);
            let p = layer_prefix(true, i);
            &&& names.contains(p + ".norm1.scale"@)
            &&& has_attention(names, p + ".self_attn"@)
            &&& names.contains(p + ".self_attn_gate"@)
            &&& names.contains(p + ".norm2.scale"@)
            &&& has_attention(names, p + ".cross_attn"@)
            &&& names.contains(p + ".cross_attn_gate"@)
        }),
{
    let p = layer_prefix(true, i);
    lemma_prefix(i);
    lemma_attention(p + ".self_attn"@);
    lemma_attention(p + ".cross_attn"@);
    let a = seq![p + ".norm1.scale"@];
    let b = attention_tensors(p + ".self_attn"@);
    let c = seq![p + ".self_attn_gate"@, p + ".norm2.scale"@];
    let d = attention_tensors(p + ".cross_attn"@);
    let e = seq![p + ".cross_attn_gate"@];
    assert(a[0] == p + ".norm1.scale"@);
    assert(c[0] == p + ".self_attn_gate"@);
    assert(c[1] == p + ".norm2.scale"@);
    assert(e[0] == p + ".cross_attn_gate"@);
    assert(a.contains(p + ".norm1.scale"@));
    assert(c.contains(p + ".self_attn_gate"@));
    assert(c.contains(p + ".norm2.scale"@));
    assert(e.contains(p + ".cross_attn_gate"@));
    lemma_in_joined(a + b + c + d, e);
    lemma_in_joined(a + b + c, d);
    lemma_in_joined(a + b, c);
    lemma_in_joined(a, b);
    assert(decoder_layer_tensors(i) == a + b + c + d + e);
    lemma_layers(cfg.num_decoder_layers as nat, i);
    lemma_needed(cfg);
}

proof fn lemma_needed(cfg: Config)
    ensures
        forall|x: Seq<char>| #[trigger]
            encoder_tensors(cfg.num_encoder_layers as nat).contains(x) ==> needed_tensors(
                cfg,
            ).contains(x),
        forall|x: Seq<char>| #[trigger]
            decoder_tensors(cfg.num_decoder_layers as nat).contains(x) ==> needed_tensors(
                cfg,
            ).contains(x),
{
    let a = encoder_tensors(cfg.num_encoder_layers as nat);
    let b = decoder_tensors(cfg.num_decoder_layers as nat);
    let c = seq!["embedding.weight"@, "encoder.final_norm.scale"@, "decoder.final_norm.scale"@];
    lemma_in_joined(a, b);
    lemma_in_joined(a + b, c);
    assert(needed_tensors(cfg) == a + b + c);
}

proof fn lemma_lengths(n: nat)
    ensures
        encoder_tensors(n).len() == 8 * n,
        decoder_tensors(n).len() == 16 * n,
    decreases n,
{
    if n > 0 {
        lemma_lengths((n - 1) as nat);
    }
}

/// Besides its layers a model needs the embedding and the two final norms, and
/// nothing else.
pub proof fn three_more_tensors_are_needed(cfg: Config)
    ensures
        needed_tensors(cfg).contains("embedding.weight"@),
        needed_tensors(cfg).contains("encoder.final_norm.scale"@),
        needed_tensors(cfg).contains("decoder.final_norm.scale"@),
        needed_tensors(cfg).len() == 8 * cfg.num_encoder_layers + 16 * cfg.num_decoder_layers + 3,
{
    lemma_lengths(cfg.num_encoder_layers as nat);
    lemma_lengths(cfg.num_decoder_layers as nat);
    let n = needed_tensors(cfg).len();
    assert(needed_tensors(cfg)[n - 3] == "embedding.weight"@);
    assert(needed_tensors(cfg)[n - 2] == "encoder.final_norm.scale"@);
    assert(needed_tensors(cfg)[n - 1] == "decoder.final_norm.scale"@);
}

/// A tensor is missed exactly where one that is needed is not there, and the
/// first of those is told.
pub proof fn the_first_absent_tensor_is_told(needed: Seq<Seq<char>>, have: Seq<Seq<char>>)
    ensures
        ({
            let i = first_absent(needed, have);
            &&& 0 <= i <= needed.len()
            &&& i < needed.len() ==> !have.contains(needed[i])
            &&& forall|j: int| 0 <= j < i ==> have.contains(#[trigger] needed[j])
        }),
    decreases needed.len(),
{
    if needed.len() > 0 && have.contains(needed[0]) {
        let rest = needed.drop_first();
        the_first_absent_tensor_is_told(rest, have);
        let i = first_absent(needed, have);
        assert forall|j: int| 0 <= j < i implies have.contains(#[trigger] needed[j]) by {
            if j > 0 {
                assert(have.contains(rest[j - 1]));
            }
        }
    }
}

/// A head for retrieval takes all three of its tensors, and they are enough.
pub proof fn the_head_takes_three_tensors(have: Seq<Seq<char>>)
    ensures
        !have.contains("contrastive_hidden.weight"@) ==> !holds_head(have),
        !have.contains("contrastive_hidden.bias"@) ==> !holds_head(have),
        !have.contains("contrastive_proj.weight"@) ==> !holds_head(have),
        holds_head(
            seq![
                "contrastive_hidden.weight"@,
                "contrastive_hidden.bias"@,
                "contrastive_proj.weight"@,
            ] + have,
        ),
{
    let all = seq![
        "contrastive_hidden.weight"@,
        "contrastive_hidden.bias"@,
        "contrastive_proj.weight"@,
    ] + have;
    assert(all[0] == "contrastive_hidden.weight"@);
    assert(all[1] == "contrastive_hidden.bias"@);
    assert(all[2] == "contrastive_proj.weight"@);
}

/// A query sees itself and all that came before it, and nothing that comes
/// after.
pub proof fn queries_see_the_past_only(i: int, ahead: int)
    requires
        0 <= i,
        0 <= ahead,
    ensures
        !is_kept_from(i + ahead, i),
        ahead > 0 ==> is_kept_from(i, i + ahead),
{
}

/// The heads share the model's dimension evenly, and so do the query heads the
/// key and value heads: as many as there are go into it, with less than one
/// part left over.
pub proof fn shares_are_even(whole: int, parts: int)
    requires
        0 <= whole,
        0 < parts,
    ensures
        share(whole, parts) * parts <= whole < (share(whole, parts) + 1) * parts,
{
    let q = share(whole, parts);
    assert(q * parts <= whole < (q + 1) * parts) by (nonlinear_arith)
        requires
            q == whole / parts,
            0 < parts,
            0 <= whole,
    ;
}

} // verus!
