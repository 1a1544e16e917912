//! Generation: what goes into the encoder, and the greedy decoding loop as a
//! sequence of decisions on the logits that the model returns.

use crate::constrain::{at_start, Constrainer, Constraint};
use crate::json::{parsed, Doc};
use crate::single::{argmax, argmax_of, greater, lemma_argmax_exists, NEG_INFINITY};
use crate::text::{strip_prefix, without_prefix};
use crate::tokenizer::Tokenizer;
use crate::vocab::{EOS_ID, TOOLS_ID};
use vstd::prelude::*;

verus! {

/// The most tokens that go into the encoder.
pub const MAX_ENC_LEN: usize = 1024;

/// One more than the most tokens that are generated.
pub const MAX_GEN_LEN: usize = 192;

/// The first `n` ids, or all where there are fewer.
pub open spec fn capped(ids: Seq<u32>, n: int) -> Seq<u32> {
    if ids.len() <= n {
        ids
    } else {
        ids.take(n)
    }
}

/// The encoder input for the ids of a query and of the tools: the query, cut
/// to leave room for two more, the separator, and the tools, cut to what is
/// left.
pub open spec fn encoder_input(query: Seq<u32>, tools: Seq<u32>) -> Seq<u32> {
    let q = capped(query, MAX_ENC_LEN - 2);
    q.push(TOOLS_ID) + capped(tools, MAX_ENC_LEN - q.len() - 1)
}

/// The encoder input never exceeds the maximum, always holds the separator,
/// and drops nothing where there is room for all.
pub proof fn encoder_input_fits(query: Seq<u32>, tools: Seq<u32>)
    ensures
        0 < encoder_input(query, tools).len() <= MAX_ENC_LEN,
        encoder_input(query, tools).contains(TOOLS_ID),
        query.len() + tools.len() < MAX_ENC_LEN && query.len() <= MAX_ENC_LEN - 2
            ==> encoder_input(query, tools) == query.push(TOOLS_ID) + tools,
{
    let q = capped(query, MAX_ENC_LEN - 2);
    assert(encoder_input(query, tools)[q.len() as int] == TOOLS_ID);
}

/// Builds the encoder input for a query and a JSON list of tools.
pub fn build_encoder_input(tok: &Tokenizer, query: &str, tools_json: &str) -> (r: Vec<u32>)
    ensures
        r@ == encoder_input(tok@.encoded(query@), tok@.encoded(tools_json@)),
{
    let mut ids = tok.encode(query);
    let tools = tok.encode(tools_json);
    if ids.len() > MAX_ENC_LEN - 2 {
        ids.truncate(MAX_ENC_LEN - 2);
    }
    let ghost q = ids@;
    assert(q =~= capped(tok@.encoded(query@), MAX_ENC_LEN - 2));
    let room: usize = MAX_ENC_LEN - ids.len() - 1;
    ids.push(TOOLS_ID);
    let n: usize = if tools.len() < room {
        tools.len()
    } else {
        room
    };
    for i in 0..n
        invariant
            n <= tools@.len(),
            ids@ == q.push(TOOLS_ID) + tools@.take(i as int),
    {
        ids.push(tools[i]);
        assert(tools@.take(i + 1) =~= tools@.take(i as int).push(tools@[i as int]));
    }
    assert(tools@.take(n as int) =~= capped(tools@, room as int));
    ids
}

/// How much work a generation was.
pub struct GenStats {
    pub prefill_tokens: usize,
    pub generated_tokens: usize,
    pub prefill_ms: u128,
    pub decode_ms: u128,
}

/// The state of a generation, as a mathematical value.
pub struct Decoding {
    /// The constraint, where decoding is constrained.
    pub constraint: Option<Constraint>,
    /// The token that the decoder is fed next.
    pub token: u32,
    pub generated: Seq<u32>,
    /// How many logits were taken in.
    pub steps: nat,
    /// Has the end token come?
    pub ended: bool,
}

impl Decoding {
    /// The decoder starts from the end token.
    pub open spec fn start(constraint: Option<Constraint>) -> Decoding {
        Decoding { constraint, token: EOS_ID, generated: Seq::empty(), steps: 0, ended: false }
    }

    /// Does generation go on?
    pub open spec fn goes_on(self) -> bool {
        !self.ended && self.steps < MAX_GEN_LEN - 1
    }

    /// The logits as the constraint lets them through.
    pub open spec fn admitted(self, logits: Seq<u32>) -> Seq<u32> {
        match self.constraint {
            Some(c) => c.masked(logits),
            None => logits,
        }
    }

    /// The token that the decoder is to be fed, while generation goes on.
    pub open spec fn fed(self) -> Option<u32> {
        if self.goes_on() {
            Some(self.token)
        } else {
            None
        }
    }

    /// The token that is chosen: the one with the greatest logit.
    pub open spec fn chosen(self, logits: Seq<u32>) -> u32 {
        argmax_of(self.admitted(logits)) as u32
    }

    /// Are there as many logits as the constraint needs, and a text for the
    /// chosen token?
    pub open spec fn takes(self, logits: Seq<u32>) -> bool {
        match self.constraint {
            Some(c) => {
                &&& forall|t: int| c.allows(t) ==> t < logits.len()
                &&& self.chosen(logits) < c.texts.len()
            },
            None => true,
        }
    }

    /// The state after taking in the logits of one step: the chosen token is
    /// followed, and generated unless it is the end token.
    pub open spec fn stepped(self, logits: Seq<u32>) -> Decoding {
        let next = self.chosen(logits);
        let constraint = match self.constraint {
            Some(c) => Some(c.after(next as int)),
            None => None,
        };
        if next == EOS_ID {
            Decoding { constraint, steps: self.steps + 1, ended: true, ..self }
        } else {
            Decoding {
                constraint,
                token: next,
                generated: self.generated.push(next),
                steps: self.steps + 1,
                ended: false,
            }
        }
    }

    /// What holds of every generation: at most one token per step and not more
    /// than the maximum, never the end token, and the decoder is fed the last
    /// one.
    pub open spec fn valid(self) -> bool {
        &&& self.steps < MAX_GEN_LEN
        &&& self.generated.len() == self.steps - (if self.ended {
            1int
        } else {
            0
        })
        &&& forall|i: int| 0 <= i < self.generated.len() ==> #[trigger] self.generated[i] != EOS_ID
        &&& self.token == (if self.generated.len() == 0 {
            EOS_ID
        } else {
            self.generated.last()
        })
    }
}

/// Every generation starts valid.
pub proof fn generation_starts_valid(constraint: Option<Constraint>)
    ensures
        Decoding::start(constraint).valid(),
        Decoding::start(constraint).goes_on(),
{
}

/// Every step keeps a generation valid, and once the end token has come no
/// further step is due.
pub proof fn generation_stays_valid(d: Decoding, logits: Seq<u32>)
    requires
        d.valid(),
        d.goes_on(),
    ensures
        d.stepped(logits).valid(),
        d.chosen(logits) == EOS_ID ==> !d.stepped(logits).goes_on() && d.stepped(logits).generated
            == d.generated,
{
}

/// Where a name or a key is being written and one of the allowed tokens has a
/// logit above minus infinity, the chosen token is an allowed one.
pub proof fn chosen_token_is_allowed(d: Decoding, logits: Seq<u32>, t: int)
    requires
        d.constraint is Some,
        d.constraint->0.allows(t),
        t < logits.len() <= u32::MAX,
        greater(logits[t], NEG_INFINITY),
    ensures
        d.constraint->0.allows(d.chosen(logits) as int),
{
    let c = d.constraint->0;
    let masked = c.masked(logits);
    assert(masked[t] == logits[t]);
    lemma_argmax_exists(masked);
    assert(greater(masked[argmax_of(masked)], NEG_INFINITY));
}

/// The text of an answer: what was decoded, without the marker of a tool call
/// in front.
pub open spec fn answer_text(decoded: Seq<char>) -> Seq<char> {
    without_prefix(decoded, "<tool_call>"@)
}

/// A generation under way.
pub struct Generation {
    constrainer: Option<Constrainer>,
    token: u32,
    generated: Vec<u32>,
    steps: usize,
    ended: bool,
}

impl View for Generation {
    type V = Decoding;

    closed spec fn view(&self) -> Decoding {
        Decoding {
            constraint: match self.constrainer {
                Some(c) => Some(c@),
                None => None,
            },
            token: self.token,
            generated: self.generated@,
            steps: self.steps as nat,
            ended: self.ended,
        }
    }
}

impl Generation {
    #[verifier::type_invariant]
    spec fn inv(self) -> bool {
        self@.valid()
    }

    /// Starts a generation for a JSON list of tools.
    pub fn start(tok: &Tokenizer, tools_json: &str, constrained: bool) -> (r: Generation)
        ensures
            r@ == Decoding::start(
                if constrained {
                    Some(
                        at_start(
                            match parsed(tools_json@) {
                                Some(doc) => doc,
                                None => Doc::Null,
                            },
                            tok@,
                        ),
                    )
                } else {
                    None
                },
            ),
            r@.valid(),
    {
        let constrainer = if constrained {
            Some(Constrainer::new(tools_json, tok))
        } else {
            None
        };
        let generated: Vec<u32> = Vec::new();
        assert(generated@ =~= Seq::empty());
        Generation { constrainer, token: EOS_ID, generated, steps: 0, ended: false }
    }

    /// The token to feed the decoder with, while generation goes on.
    pub fn next_input(&self) -> (r: Option<u32>)
        ensures
            r == (if self@.goes_on() {
                Some(self@.token)
            } else {
                None
            }),
            r == self@.fed(),
            self@.valid(),
    {
        proof {
            use_type_invariant(self);
        }
        if !self.ended && self.steps < MAX_GEN_LEN - 1 {
            Some(self.token)
        } else {
            None
        }
    }

    /// Masks the logits where a name or a key is being written, and picks the
    /// token with the greatest one.
    fn pick(&self, logits: &mut Vec<u32>) -> (r: u32)
        requires
            self@.constraint matches Some(c) ==> forall|t: int|
                c.allows(t) ==> t < old(logits)@.len(),
        ensures
            r == self@.chosen(old(logits)@),
    {
        if let Some(c) = &self.constrainer {
            if c.is_active() {
                c.constrain(logits);
            }
        }
        assert(logits@ == self@.admitted(old(logits)@));
        argmax(logits) as u32
    }

    /// Can a step take in these logits: are there enough of them, and has the
    /// token that would be chosen a text?
    pub fn fits(&self, logits: &Vec<u32>) -> (r: bool)
        ensures
            r == self@.takes(logits@),
    {
        match &self.constrainer {
            None => true,
            Some(c) => {
                if !c.mask_fits(logits.len()) {
                    return false;
                }
                let mut copy: Vec<u32> = Vec::new();
                for i in 0..logits.len()
                    invariant
                        copy@ == logits@.take(i as int),
                {
                    copy.push(logits[i]);
                    assert(logits@.take(i + 1) =~= logits@.take(i as int).push(logits@[i as int]));
                }
                assert(logits@.take(logits@.len() as int) =~= logits@);
                (self.pick(&mut copy) as usize) < c.vocab_size()
            },
        }
    }

    /// Takes in the logits of one step.
    pub fn step(&mut self, mut logits: Vec<u32>)
        requires
            old(self)@.goes_on(),
            old(self)@.takes(logits@),
        ensures
            final(self)@ == old(self)@.stepped(logits@),
    {
        proof {
            use_type_invariant(&*self);
            generation_stays_valid(self@, logits@);
        }
        let next = self.pick(&mut logits);
        let mut state = Generation {
            constrainer: None,
            token: EOS_ID,
            generated: Vec::new(),
            steps: 0,
            ended: false,
        };
        std::mem::swap(&mut state, self);
        let Generation { mut constrainer, mut token, mut generated, steps, .. } = state;
        if let Some(c) = &mut constrainer {
            c.update(next);
        }
        let ended = next == EOS_ID;
        if !ended {
            generated.push(next);
            token = next;
        }
        *self = Generation { constrainer, token, generated, steps: steps + 1, ended };
    }

    /// The text that was generated, without the marker of a tool call in front.
    pub fn text(&self, tok: &Tokenizer) -> (r: String)
        ensures
            r@ == without_prefix(tok@.decoded(self@.generated), "<tool_call>"@),
            r@ == answer_text(tok@.decoded(self@.generated)),
    {
        strip_prefix(tok.decode(&self.generated).as_str(), "<tool_call>")
    }

    /// How much work the generation was.
    pub fn stats(&self, prefill_tokens: usize, prefill_ms: u128, decode_ms: u128) -> (r: GenStats)
        ensures
            r.prefill_tokens == prefill_tokens,
            r.generated_tokens == self@.generated.len(),
            r.prefill_ms == prefill_ms,
            r.decode_ms == decode_ms,
    {
        GenStats { prefill_tokens, generated_tokens: self.generated.len(), prefill_ms, decode_ms }
    }
}

} // verus!
