//! What goes into the encoder, and how a generation goes on from step to step.

use crate::constrain::Constraint;
use crate::generate::{answer_text, encoder_input, Decoding};
use crate::laws::texts::stripping_takes_the_prefix;
use crate::single::{argmax_of, lemma_argmax_exists};
use vstd::prelude::*;

verus! {

/// The encoder is given the query, cut to its first 1022 ids, the separator and
/// as many ids of the tools as there is room for up to 1024 in all, each in its
/// place.
pub proof fn encoder_input_keeps_what_fits(query: Seq<u32>, tools: Seq<u32>, i: int)
    ensures
        ({
            let e = encoder_input(query, tools);
            let q: int = if query.len() < 1022 {
                query.len() as int
            } else {
                1022
            };
            let t: int = if tools.len() < 1023 - q {
                tools.len() as int
            } else {
                1023 - q
            };
            &&& e.len() == q + 1 + t
            &&& 0 <= i < q ==> e[i] == query[i]
            &&& e[q] == 5u32
            &&& 0 <= i < t ==> e[q + 1 + i] == tools[i]
        }),
{
}

/// A generation starts from the end token, with nothing generated.
pub proof fn generations_start_from_the_end_token(constraint: Option<Constraint>)
    ensures
        Decoding::start(constraint).token == 1u32,
        Decoding::start(constraint).generated.len() == 0,
        !Decoding::start(constraint).ended,
        Decoding::start(constraint).constraint == constraint,
        Decoding::start(constraint).goes_on(),
{
}

/// The token that is chosen is the first of those with the greatest logit: of
/// all logits where decoding is free, and of those that the constraint leaves
/// where it is not.
pub proof fn the_greatest_logit_is_chosen(d: Decoding, logits: Seq<u32>, c: Constraint)
    ensures
        d.constraint is None ==> d.chosen(logits) == argmax_of(logits) as u32,
        d.constraint == Some(c) ==> d.chosen(logits) == argmax_of(c.masked(logits)) as u32,
{
}

/// Any token but the end token is generated, behind the others, and fed to the
/// decoder next; the end token ends the generation and is not generated. Either
/// way the constraint follows it.
pub proof fn every_token_but_the_end_is_generated(d: Decoding, logits: Seq<u32>, c: Constraint)
    ensures
        ({
            let next = d.stepped(logits);
            let token = d.chosen(logits);
            &&& token != 1 ==> next.generated == d.generated.push(token) && next.token == token
                && !next.ended
            &&& token == 1 ==> next.generated == d.generated && next.ended && !next.goes_on()
            &&& next.steps == d.steps + 1
            &&& d.constraint is None ==> next.constraint is None
            &&& d.constraint == Some(c) ==> next.constraint == Some(
                Constraint { scan: c.scan.feed(c.texts[token as int]), ..c },
            )
        }),
{
}

/// A generation goes on until the end token has come or 191 tokens are
/// generated, and no longer.
pub proof fn generations_go_on_to_the_end_or_the_limit(d: Decoding)
    requires
        d.valid(),
    ensures
        d.goes_on() <==> !d.ended && d.generated.len() < 191,
{
}

/// The decoder is fed the end token first, then each token that was chosen, and
/// nothing once the end token has come.
pub proof fn the_decoder_is_fed_the_last_token(
    d: Decoding,
    logits: Seq<u32>,
    constraint: Option<Constraint>,
)
    requires
        d.valid(),
        d.goes_on(),
    ensures
        Decoding::start(constraint).fed() == Some(1u32),
        d.chosen(logits) == 1 ==> d.stepped(logits).fed() is None,
        d.chosen(logits) != 1 && d.generated.len() < 190 ==> d.stepped(logits).fed() == Some(
            d.chosen(logits),
        ),
        d.chosen(logits) != 1 && d.generated.len() == 190 ==> d.stepped(logits).fed() is None,
{
}

/// The marker of a tool call is taken away in front of an answer, once, and
/// nothing else is.
pub proof fn the_marker_is_taken_away(s: Seq<char>)
    ensures
        answer_text("<tool_call>"@ + s) == s,
        !"<tool_call>"@.is_prefix_of(s) ==> answer_text(s) == s,
{
    stripping_takes_the_prefix("<tool_call>"@, s);
}

/// A step can always take in as many logits as there are tokens, and any number
/// where decoding is free.
pub proof fn as_many_logits_as_tokens_fit(d: Decoding, logits: Seq<u32>)
    requires
        d.constraint matches Some(c) ==> c.texts.len() == logits.len() && 0 < logits.len()
            <= u32::MAX,
    ensures
        d.takes(logits),
{
    if let Some(c) = d.constraint {
        lemma_argmax_exists(c.masked(logits));
    }
}

} // verus!
