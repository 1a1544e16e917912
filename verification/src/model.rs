//! The dimensions of the model, the names of its tensors, and the pattern of
//! its causal mask. The tensors themselves are in single precision and are
//! computed by the caller.

use crate::text::{decimal, decimal_text, str_eq, texts};
use vstd::prelude::*;

verus! {

/// The dimensions of the model.
#[derive(Debug, Clone, Copy)]
pub struct Config {
    pub vocab_size: usize,
    pub d_model: usize,
    pub num_heads: usize,
    pub num_kv_heads: usize,
    pub num_encoder_layers: usize,
    pub num_decoder_layers: usize,
    pub max_seq_len: usize,
}

/// The longest sequence where the configuration names none.
pub fn default_max_seq() -> (r: usize)
    ensures
        r == 1024,
{
    1024
}

/// The size of each of so many equal parts.
pub open spec fn share(whole: int, parts: int) -> int {
    whole / parts
}

impl Config {
    /// The dimension of one attention head.
    pub fn head_dim(&self) -> (r: usize)
        requires
            self.num_heads != 0,
        ensures
            r == self.d_model as int / self.num_heads as int,
            r == share(self.d_model as int, self.num_heads as int),
    {
        self.d_model / self.num_heads
    }

    /// How often each key and value head is repeated, so that every query head
    /// has one.
    pub fn kv_repeats(&self) -> (r: usize)
        requires
            self.num_kv_heads != 0,
        ensures
            r == self.num_heads as int / self.num_kv_heads as int,
            r == share(self.num_heads as int, self.num_kv_heads as int),
    {
        self.num_heads / self.num_kv_heads
    }
}

/// The names of the tensors of one attention module.
pub struct AttentionNames {
    pub q_proj: String,
    pub k_proj: String,
    pub v_proj: String,
    pub out_proj: String,
    pub q_norm: String,
    pub k_norm: String,
}

/// The names of the tensors of one encoder layer.
pub struct EncoderNames {
    pub norm1: String,
    pub self_attn: AttentionNames,
    pub attn_gate: String,
}

/// The names of the tensors of one decoder layer.
pub struct DecoderNames {
    pub norm1: String,
    pub self_attn: AttentionNames,
    pub self_gate: String,
    pub norm2: String,
    pub cross_attn: AttentionNames,
    pub cross_gate: String,
}

fn named(prefix: &str, suffix: &str) -> (r: String)
    ensures
        r@ == prefix@ + suffix@,
{
    let mut out = prefix.to_owned();
    out.append(suffix);
    out
}

/// The name of a layer: where it is, and its number.
pub open spec fn layer_name(part: Seq<char>, i: nat) -> Seq<char> {
    part + ".layers."@ + decimal(i)
}

fn layer(part: &str, i: usize) -> (r: String)
    ensures
        r@ == layer_name(part@, i as nat),
{
    let mut out = named(part, ".layers.");
    out.append(decimal_text(i as u64).as_str());
    out
}

impl AttentionNames {
    /// Are these the names below `prefix`?
    pub open spec fn are_below(self, prefix: Seq<char>) -> bool {
        &&& self.q_proj@ == prefix + ".q_proj.weight"@
        &&& self.k_proj@ == prefix + ".k_proj.weight"@
        &&& self.v_proj@ == prefix + ".v_proj.weight"@
        &&& self.out_proj@ == prefix + ".out_proj.weight"@
        &&& self.q_norm@ == prefix + ".q_norm.scale"@
        &&& self.k_norm@ == prefix + ".k_norm.scale"@
    }

    /// The names below `prefix`.
    pub fn below(prefix: &str) -> (r: AttentionNames)
        ensures
            r.are_below(prefix@),
    {
        AttentionNames {
            q_proj: named(prefix, ".q_proj.weight"),
            k_proj: named(prefix, ".k_proj.weight"),
            v_proj: named(prefix, ".v_proj.weight"),
            out_proj: named(prefix, ".out_proj.weight"),
            q_norm: named(prefix, ".q_norm.scale"),
            k_norm: named(prefix, ".k_norm.scale"),
        }
    }
}

impl EncoderNames {
    /// The names of the encoder layer with this number.
    pub fn of(i: usize) -> (r: EncoderNames)
        ensures
            ({
                let p = layer_name("encoder"@, i as nat);
                &&& r.norm1@ == p + ".norm1.scale"@
                &&& r.self_attn.are_below(p + ".self_attn"@)
                &&& r.attn_gate@ == p + ".attn_gate"@
            }),
    {
        let p = layer("encoder", i);
        EncoderNames {
            norm1: named(p.as_str(), ".norm1.scale"),
            self_attn: AttentionNames::below(named(p.as_str(), ".self_attn").as_str()),
            attn_gate: named(p.as_str(), ".attn_gate"),
        }
    }
}

impl DecoderNames {
    /// The names of the decoder layer with this number.
    pub fn of(i: usize) -> (r: DecoderNames)
        ensures
            ({
                let p = layer_name("decoder"@, i as nat);
                &&& r.norm1@ == p + ".norm1.scale"@
                &&& r.self_attn.are_below(p + ".self_attn"@)
                &&& r.self_gate@ == p + ".self_attn_gate"@
                &&& r.norm2@ == p + ".norm2.scale"@
                &&& r.cross_attn.are_below(p + ".cross_attn"@)
                &&& r.cross_gate@ == p + ".cross_attn_gate"@
            }),
    {
        let p = layer("decoder", i);
        DecoderNames {
            norm1: named(p.as_str(), ".norm1.scale"),
            self_attn: AttentionNames::below(named(p.as_str(), ".self_attn").as_str()),
            self_gate: named(p.as_str(), ".self_attn_gate"),
            norm2: named(p.as_str(), ".norm2.scale"),
            cross_attn: AttentionNames::below(named(p.as_str(), ".cross_attn").as_str()),
            cross_gate: named(p.as_str(), ".cross_attn_gate"),
        }
    }
}

impl AttentionNames {
    /// The names, in the order in which the tensors are taken.
    pub open spec fn listed(self) -> Seq<Seq<char>> {
        seq![
            self.q_proj@,
            self.k_proj@,
            self.v_proj@,
            self.out_proj@,
            self.q_norm@,
            self.k_norm@,
        ]
    }
}

/// The names below the prefix of an attention module, in the order in which
/// the tensors are taken.
pub open spec fn attention_tensors(prefix: Seq<char>) -> Seq<Seq<char>> {
    seq![
        prefix + ".q_proj.weight"@,
        prefix + ".k_proj.weight"@,
        prefix + ".v_proj.weight"@,
        prefix + ".out_proj.weight"@,
        prefix + ".q_norm.scale"@,
        prefix + ".k_norm.scale"@,
    ]
}

/// The tensors of one encoder layer.
pub open spec fn encoder_layer_tensors(i: nat) -> Seq<Seq<char>> {
    let p = layer_name("encoder"@, i);
    seq![p + ".norm1.scale"@] + attention_tensors(p + ".self_attn"@) + seq![p + ".attn_gate"@]
}

/// The tensors of one decoder layer.
pub open spec fn decoder_layer_tensors(i: nat) -> Seq<Seq<char>> {
    let p = layer_name("decoder"@, i);
    seq![p + ".norm1.scale"@] + attention_tensors(p + ".self_attn"@) + seq![
        p + ".self_attn_gate"@,
        p + ".norm2.scale"@,
    ] + attention_tensors(p + ".cross_attn"@) + seq![p + ".cross_attn_gate"@]
}

/// The tensors of the first `n` encoder layers.
pub open spec fn encoder_tensors(n: nat) -> Seq<Seq<char>>
    decreases n,
{
    if n == 0 {
        Seq::empty()
    } else {
        encoder_tensors((n - 1) as nat) + encoder_layer_tensors((n - 1) as nat)
    }
}

/// The tensors of the first `n` decoder layers.
pub open spec fn decoder_tensors(n: nat) -> Seq<Seq<char>>
    decreases n,
{
    if n == 0 {
        Seq::empty()
    } else {
        decoder_tensors((n - 1) as nat) + decoder_layer_tensors((n - 1) as nat)
    }
}

/// The tensors that a model needs, in the order in which they are taken: those
/// of the encoder, those of the decoder, and the shared ones.
pub open spec fn needed_tensors(cfg: Config) -> Seq<Seq<char>> {
    encoder_tensors(cfg.num_encoder_layers as nat) + decoder_tensors(cfg.num_decoder_layers as nat)
        + seq![
        "embedding.weight"@,
        "encoder.final_norm.scale"@,
        "decoder.final_norm.scale"@,
    ]
}

fn push_attention(names: AttentionNames, out: &mut Vec<String>)
    ensures
        texts(final(out)@) == texts(old(out)@) + names.listed(),
{
    let ghost before = texts(out@);
    out.push(names.q_proj);
    out.push(names.k_proj);
    out.push(names.v_proj);
    out.push(names.out_proj);
    out.push(names.q_norm);
    out.push(names.k_norm);
    assert(texts(out@) =~= before + names.listed());
}

fn push_encoder_layer(i: usize, out: &mut Vec<String>)
    ensures
        texts(final(out)@) == texts(old(out)@) + encoder_layer_tensors(i as nat),
{
    let ghost before = texts(out@);
    let ghost p = layer_name("encoder"@, i as nat);
    let names = EncoderNames::of(i);
    out.push(names.norm1);
    assert(texts(out@) =~= before + seq![p + ".norm1.scale"@]);
    assert(names.self_attn.listed() =~= attention_tensors(p + ".self_attn"@));
    push_attention(names.self_attn, out);
    let ghost middle = texts(out@);
    out.push(names.attn_gate);
    assert(texts(out@) =~= middle + seq![p + ".attn_gate"@]);
    assert(texts(out@) =~= before + encoder_layer_tensors(i as nat));
}

fn push_decoder_layer(i: usize, out: &mut Vec<String>)
    ensures
        texts(final(out)@) == texts(old(out)@) + decoder_layer_tensors(i as nat),
{
    let ghost before = texts(out@);
    let ghost p = layer_name("decoder"@, i as nat);
    let names = DecoderNames::of(i);
    out.push(names.norm1);
    assert(texts(out@) =~= before + seq![p + ".norm1.scale"@]);
    assert(names.self_attn.listed() =~= attention_tensors(p + ".self_attn"@));
    push_attention(names.self_attn, out);
    let ghost middle = texts(out@);
    out.push(names.self_gate);
    out.push(names.norm2);
    assert(texts(out@) =~= middle + seq![p + ".self_attn_gate"@, p + ".norm2.scale"@]);
    assert(names.cross_attn.listed() =~= attention_tensors(p + ".cross_attn"@));
    push_attention(names.cross_attn, out);
    let ghost late = texts(out@);
    out.push(names.cross_gate);
    assert(texts(out@) =~= late + seq![p + ".cross_attn_gate"@]);
    assert(texts(out@) =~= before + decoder_layer_tensors(i as nat));
}

/// The names of the tensors that a model needs, in the order in which they are
/// taken.
pub fn needed_names(cfg: &Config) -> (r: Vec<String>)
    ensures
        texts(r@) == needed_tensors(*cfg),
{
    let mut out: Vec<String> = Vec::new();
    assert(texts(out@) =~= encoder_tensors(0));
    for i in 0..cfg.num_encoder_layers
        invariant
            texts(out@) == encoder_tensors(i as nat),
    {
        push_encoder_layer(i, &mut out);
    }
    let ghost encoder = texts(out@);
    assert(encoder =~= encoder + decoder_tensors(0));
    for i in 0..cfg.num_decoder_layers
        invariant
            texts(out@) == encoder + decoder_tensors(i as nat),
    {
        push_decoder_layer(i, &mut out);
        assert(texts(out@) =~= encoder + decoder_tensors((i + 1) as nat));
    }
    let ghost layers = texts(out@);
    out.push("embedding.weight".to_owned());
    out.push("encoder.final_norm.scale".to_owned());
    out.push("decoder.final_norm.scale".to_owned());
    assert(texts(out@) =~= layers + seq![
        "embedding.weight"@,
        "encoder.final_norm.scale"@,
        "decoder.final_norm.scale"@,
    ]);
    out
}

fn is_among(name: &str, names: &Vec<String>) -> (r: bool)
    ensures
        r == texts(names@).contains(name@),
{
    for i in 0..names.len()
        invariant
            forall|j: int| 0 <= j < i ==> #[trigger] texts(names@)[j] != name@,
    {
        assert(texts(names@)[i as int] == names@[i as int]@);
        if str_eq(names[i].as_str(), name) {
            return true;
        }
    }
    false
}

/// The index of the first of the needed names that is not available, or their
/// number.
pub open spec fn first_absent(needed: Seq<Seq<char>>, available: Seq<Seq<char>>) -> int
    decreases needed.len(),
{
    if needed.len() == 0 || !available.contains(needed[0]) {
        0
    } else {
        1 + first_absent(needed.drop_first(), available)
    }
}

/// The first tensor, in the order in which they are taken, that a model needs
/// and that is not available.
pub fn missing_tensor(cfg: &Config, available: &Vec<String>) -> (r: Option<String>)
    ensures
        ({
            let needed = needed_tensors(*cfg);
            let i = first_absent(needed, texts(available@));
            match r {
                Some(name) => 0 <= i < needed.len() && name@ == needed[i],
                None => i == needed.len(),
            }
        }),
{
    let names = needed_names(cfg);
    let ghost needed = needed_tensors(*cfg);
    let ghost have = texts(available@);
    assert(needed.skip(0) =~= needed);
    for i in 0..names.len()
        invariant
            texts(names@) == needed,
            needed == needed_tensors(*cfg),
            have == texts(available@),
            first_absent(needed, have) == i + first_absent(needed.skip(i as int), have),
    {
        let ghost rest = needed.skip(i as int);
        assert(rest[0] == names@[i as int]@);
        assert(rest.drop_first() =~= needed.skip(i + 1));
        if !is_among(names[i].as_str(), available) {
            return Some(names[i].clone());
        }
    }
    None
}

/// Is there a head for retrieval among these tensors?
pub open spec fn holds_head(have: Seq<Seq<char>>) -> bool {
    have.contains("contrastive_hidden.weight"@) && have.contains("contrastive_hidden.bias"@)
        && have.contains("contrastive_proj.weight"@)
}

/// Has the model a head for retrieval? It has where all three of its tensors
/// are available.
pub fn has_head(available: &Vec<String>) -> (r: bool)
    ensures
        ({
            let have = texts(available@);
            r == (have.contains("contrastive_hidden.weight"@) && have.contains(
                "contrastive_hidden.bias"@,
            ) && have.contains("contrastive_proj.weight"@))
        }),
        r == holds_head(texts(available@)),
{
    is_among("contrastive_hidden.weight", available) && is_among(
        "contrastive_hidden.bias",
        available,
    ) && is_among("contrastive_proj.weight", available)
}

/// Is the query kept from the key?
pub open spec fn is_kept_from(query: int, key: int) -> bool {
    key > query
}

/// The causal mask for `tq` queries and `tk` keys, row by row: a query is kept
/// from the keys that come after it.
pub fn causal_mask(tq: usize, tk: usize) -> (r: Vec<bool>)
    requires
        tq * tk <= usize::MAX,
    ensures
        r@.len() == tq * tk,
        forall|i: int, j: int|
            #![trigger r@[i * tk + j]]
            0 <= i < tq && 0 <= j < tk ==> r@[i * tk + j] == (j > i),
        forall|i: int, j: int|
            #![trigger r@[i * tk + j]]
            0 <= i < tq && 0 <= j < tk ==> r@[i * tk + j] == is_kept_from(i, j),
{
    let mut out: Vec<bool> = Vec::new();
    assert(0 * tk == 0) by (nonlinear_arith);
    for i in 0..tq
        invariant
            tq * tk <= usize::MAX,
            out@.len() == i * tk,
            forall|a: int, b: int|
                #![trigger out@[a * tk + b]]
                0 <= a < i && 0 <= b < tk ==> out@[a * tk + b] == (b > a),
    {
        for j in 0..tk
            invariant
                i < tq,
                out@.len() == i * tk + j,
                forall|a: int, b: int|
                    #![trigger out@[a * tk + b]]
                    0 <= a < i && 0 <= b < tk ==> out@[a * tk + b] == (b > a),
                forall|b: int| #![trigger out@[i * tk + b]] 0 <= b < j ==> out@[i * tk + b] == (b > i),
        {
            let ghost before = out@;
            out.push(j > i);
            assert forall|a: int, b: int|
                #![trigger out@[a * tk + b]]
                0 <= a < i && 0 <= b < tk implies out@[a * tk + b] == (b > a) by {
                assert(0 <= a * tk + b < i * tk) by (nonlinear_arith)
                    requires
                        0 <= a < i,
                        0 <= b < tk,
                ;
                assert(out@[a * tk + b] == before[a * tk + b]);
            }
        }
        assert((i + 1) * tk == i * tk + tk) by (nonlinear_arith);
        assert forall|a: int, b: int|
            #![trigger out@[a * tk + b]]
            0 <= a < i + 1 && 0 <= b < tk implies out@[a * tk + b] == (b > a) by {
            if a == i {
                assert(out@[i * tk + b] == (b > i));
            }
        }
    }
    out
}

} // verus!
