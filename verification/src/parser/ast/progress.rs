use vstd::prelude::*;

use crate::parser::ast::grammar::{
    callable_of,
    spec_chunk,
    spec_closure,
    spec_consume_pipe,
    spec_expect_then,
    spec_first,
    spec_first_after,
    spec_first_from,
    spec_if,
    spec_if_after,
    spec_if_from,
    spec_lambda,
    spec_lambda_from,
    spec_list,
    spec_list_from,
    spec_map_anot,
    spec_maybe_operator,
    spec_maybe_parameterized,
    spec_next_can_be_parameter,
    spec_operator,
    spec_parameterized,
    spec_record,
    spec_record_fields,
};
use crate::parser::ast::{CallableV, EntityV, SpannedV, TypedIdentV};
use crate::parser::fault::Outcome;
use crate::parser::tokenizer::keys::Key;
use crate::parser::tokenizer::token::{RawTokenV, TokenV};

verus! {

/// Whether `rest` is what is left of `ts` after some tokens were taken from its front.
pub open spec fn is_suffix(rest: Seq<TokenV>, ts: Seq<TokenV>) -> bool {
    rest.len() <= ts.len() && rest == ts.skip(ts.len() - rest.len())
}

proof fn lemma_suffix_refl(ts: Seq<TokenV>)
    ensures
        is_suffix(ts, ts),
{
    assert(ts.skip(0) =~= ts);
}

proof fn lemma_suffix_trans(a: Seq<TokenV>, b: Seq<TokenV>, c: Seq<TokenV>)
    requires
        is_suffix(a, b),
        is_suffix(b, c),
    ensures
        is_suffix(a, c),
{
    assert(c.skip(c.len() - b.len()).skip(b.len() - a.len()) =~= c.skip(c.len() - a.len()));
}

proof fn lemma_suffix_drop_first(ts: Seq<TokenV>)
    requires
        ts.len() > 0,
    ensures
        is_suffix(ts.drop_first(), ts),
{
    assert(ts.drop_first() =~= ts.skip(1));
}

/// `is_suffix(a, ts)` where `a` is a suffix of `ts.drop_first()`.
proof fn lemma_suffix_of_rest(a: Seq<TokenV>, ts: Seq<TokenV>)
    requires
        ts.len() > 0,
        is_suffix(a, ts.drop_first()),
    ensures
        is_suffix(a, ts),
{
    lemma_suffix_drop_first(ts);
    lemma_suffix_trans(a, ts.drop_first(), ts);
}

proof fn lemma_consume_pipe_suffix(ts: Seq<TokenV>)
    ensures
        is_suffix(spec_consume_pipe(ts).1, ts),
    decreases ts.len(),
{
    lemma_suffix_refl(ts);
    if ts.len() > 0 && ts[0].inner == RawTokenV::NewLine {
        lemma_consume_pipe_suffix(ts.drop_first());
        lemma_suffix_of_rest(spec_consume_pipe(ts.drop_first()).1, ts);
    }
}

proof fn lemma_next_can_be_parameter_suffix(ts: Seq<TokenV>)
    ensures
        is_suffix(spec_next_can_be_parameter(ts).1, ts),
    decreases ts.len(),
{
    lemma_suffix_refl(ts);
    if ts.len() > 0 && ts[0].inner == RawTokenV::NewLine {
        lemma_next_can_be_parameter_suffix(ts.drop_first());
        lemma_suffix_of_rest(spec_next_can_be_parameter(ts.drop_first()).1, ts);
    }
}

proof fn lemma_expect_then_suffix(ts: Seq<TokenV>)
    ensures
        is_suffix(spec_expect_then(ts).1, ts),
    decreases ts.len(),
{
    lemma_suffix_refl(ts);
    if ts.len() > 0 {
        lemma_suffix_drop_first(ts);
        if ts[0].inner == RawTokenV::NewLine {
            lemma_expect_then_suffix(ts.drop_first());
            lemma_suffix_of_rest(spec_expect_then(ts.drop_first()).1, ts);
        }
    }
}

/// Reading an expression only takes tokens from the front: what is left is a
/// suffix of what was there.
pub proof fn law_chunk_consumes_prefix(ts: Seq<TokenV>)
    ensures
        is_suffix(spec_chunk(ts).1, ts),
    decreases ts.len(), 0int,
{
    lemma_suffix_refl(ts);
    if ts.len() > 0 {
        let t = ts[0];
        let pos = t.source_index;
        let rest = ts.drop_first();
        lemma_suffix_drop_first(ts);
        match t.inner {
            RawTokenV::Key(Key::ParenOpen) => {
                law_chunk_consumes_prefix(rest);
                let (r, ts2) = spec_chunk(rest);
                lemma_suffix_of_rest(ts2, ts);
                if let Outcome::Done(v) = r {
                    if ts2.len() > 0 {
                        lemma_suffix_drop_first(ts2);
                        lemma_suffix_trans(ts2.drop_first(), ts2, ts);
                        let ts3 = ts2.drop_first();
                        match v.inner {
                            EntityV::Lambda(params, body) => {
                                let c = SpannedV {
                                    inner: CallableV::Lambda(params, body),
                                    pos: v.pos,
                                };
                                lemma_maybe_parameterized_suffix(c, ts3);
                                lemma_suffix_trans(spec_maybe_parameterized(c, ts3).1, ts3, ts);
                            },
                            _ => {
                                lemma_maybe_operator_suffix(v, ts3);
                                lemma_suffix_trans(spec_maybe_operator(v, ts3).1, ts3, ts);
                            },
                        }
                    }
                }
            },
            RawTokenV::Inlined(v) => {
                let left = SpannedV { inner: EntityV::Inlined(v), pos };
                lemma_maybe_operator_suffix(left, rest);
                lemma_suffix_of_rest(spec_maybe_operator(left, rest).1, ts);
            },
            RawTokenV::Key(Key::ListOpen) => {
                lemma_list_suffix(rest);
                let (r, ts2) = spec_list(rest);
                lemma_suffix_of_rest(ts2, ts);
                if let Outcome::Done(v) = r {
                    let left = SpannedV { inner: v, pos };
                    lemma_maybe_operator_suffix(left, ts2);
                    lemma_suffix_trans(spec_maybe_operator(left, ts2).1, ts2, ts);
                }
            },
            RawTokenV::Key(Key::RecordOpen) => {
                lemma_record_suffix(rest);
                lemma_suffix_of_rest(spec_record(rest).1, ts);
            },
            RawTokenV::Key(Key::If) => {
                lemma_if_suffix(rest);
                let (r, ts2) = spec_if(rest);
                lemma_suffix_of_rest(ts2, ts);
                if let Outcome::Done(v) = r {
                    let left = SpannedV { inner: v, pos };
                    lemma_maybe_operator_suffix(left, ts2);
                    lemma_suffix_trans(spec_maybe_operator(left, ts2).1, ts2, ts);
                }
            },
            RawTokenV::Key(Key::First) => {
                lemma_first_suffix(rest);
                let (r, ts2) = spec_first(rest);
                lemma_suffix_of_rest(ts2, ts);
                if let Outcome::Done(v) = r {
                    let left = SpannedV { inner: v, pos };
                    lemma_maybe_operator_suffix(left, ts2);
                    lemma_suffix_trans(spec_maybe_operator(left, ts2).1, ts2, ts);
                }
            },
            RawTokenV::Identifier(ident) => {
                if let Outcome::Done(id) = spec_map_anot(ident) {
                    let c = SpannedV { inner: callable_of(id), pos };
                    lemma_maybe_parameterized_suffix(c, rest);
                    let (r, ts2) = spec_maybe_parameterized(c, rest);
                    lemma_suffix_of_rest(ts2, ts);
                    if let Outcome::Done(v) = r {
                        lemma_maybe_operator_suffix(v, ts2);
                        lemma_suffix_trans(spec_maybe_operator(v, ts2).1, ts2, ts);
                    }
                }
            },
            RawTokenV::Key(Key::Lambda) => {
                lemma_lambda_suffix(rest);
                let (r, ts2) = spec_lambda(rest);
                lemma_suffix_of_rest(ts2, ts);
                if r is Done {
                    lemma_consume_pipe_suffix(ts2);
                    let (piped, ts3) = spec_consume_pipe(ts2);
                    lemma_suffix_trans(ts3, ts2, ts);
                    if piped && ts3.len() > 0 {
                        lemma_suffix_drop_first(ts3);
                        lemma_suffix_trans(ts3.drop_first(), ts3, ts);
                        law_chunk_consumes_prefix(ts3.drop_first());
                        lemma_suffix_trans(spec_chunk(ts3.drop_first()).1, ts3.drop_first(), ts);
                    }
                }
            },
            RawTokenV::NewLine => {
                law_chunk_consumes_prefix(rest);
                lemma_suffix_of_rest(spec_chunk(rest).1, ts);
            },
            _ => {},
        }
    }
}

proof fn lemma_lambda_suffix(ts: Seq<TokenV>)
    ensures
        is_suffix(spec_lambda(ts).1, ts),
    decreases ts.len(), 1int,
{
    lemma_lambda_from_suffix(ts, Seq::empty());
}

proof fn lemma_lambda_from_suffix(ts: Seq<TokenV>, params: Seq<TypedIdentV>)
    ensures
        is_suffix(spec_lambda_from(ts, params).1, ts),
    decreases ts.len(), 0int,
{
    lemma_suffix_refl(ts);
    if ts.len() > 0 {
        let t = ts[0];
        let rest = ts.drop_first();
        lemma_suffix_drop_first(ts);
        match t.inner {
            RawTokenV::Identifier(ident) => {
                if let Outcome::Done(id) = spec_map_anot(ident) {
                    lemma_lambda_from_suffix(rest, params.push(id));
                    lemma_suffix_of_rest(spec_lambda_from(rest, params.push(id)).1, ts);
                }
            },
            RawTokenV::Key(Key::Arrow) => {
                law_chunk_consumes_prefix(rest);
                lemma_suffix_of_rest(spec_chunk(rest).1, ts);
            },
            _ => {},
        }
    }
}

proof fn lemma_parameterized_suffix(ts: Seq<TokenV>)
    ensures
        is_suffix(spec_parameterized(ts).1, ts),
    decreases ts.len(), 0int,
{
    lemma_suffix_refl(ts);
    if ts.len() > 0 {
        let t = ts[0];
        let pos = t.source_index;
        let rest = ts.drop_first();
        lemma_suffix_drop_first(ts);
        match t.inner {
            RawTokenV::Inlined(v) => {
                lemma_parameterized_suffix(rest);
                lemma_suffix_of_rest(spec_parameterized(rest).1, ts);
            },
            RawTokenV::Identifier(ident) => {
                lemma_parameterized_suffix(rest);
                lemma_suffix_of_rest(spec_parameterized(rest).1, ts);
            },
            RawTokenV::Key(Key::ParenOpen) => {
                law_chunk_consumes_prefix(rest);
                let (r, ts2) = spec_chunk(rest);
                lemma_suffix_of_rest(ts2, ts);
                if ts2.len() > 0 {
                    lemma_suffix_drop_first(ts2);
                    lemma_suffix_trans(ts2.drop_first(), ts2, ts);
                    lemma_parameterized_suffix(ts2.drop_first());
                    lemma_suffix_trans(spec_parameterized(ts2.drop_first()).1, ts2.drop_first(), ts);
                }
            },
            RawTokenV::Key(Key::RecordOpen) => {
                lemma_record_suffix(rest);
                lemma_suffix_of_rest(spec_record(rest).1, ts);
            },
            RawTokenV::Key(Key::Pipe) => {
                law_chunk_consumes_prefix(rest);
                lemma_suffix_of_rest(spec_chunk(rest).1, ts);
            },
            RawTokenV::Key(Key::ListOpen) => {
                lemma_list_suffix(rest);
                let ts2 = spec_list(rest).1;
                lemma_suffix_of_rest(ts2, ts);
                lemma_parameterized_suffix(ts2);
                lemma_suffix_trans(spec_parameterized(ts2).1, ts2, ts);
            },
            RawTokenV::Key(Key::ClosureMarker) => {
                lemma_closure_suffix(rest);
                let ts2 = spec_closure(rest).1;
                lemma_suffix_of_rest(ts2, ts);
                lemma_parameterized_suffix(ts2);
                lemma_suffix_trans(spec_parameterized(ts2).1, ts2, ts);
            },
            RawTokenV::NewLine => {
                lemma_parameterized_suffix(rest);
                lemma_suffix_of_rest(spec_parameterized(rest).1, ts);
            },
            _ => {},
        }
    }
}

proof fn lemma_closure_suffix(ts: Seq<TokenV>)
    ensures
        is_suffix(spec_closure(ts).1, ts),
    decreases ts.len(), 0int,
{
    lemma_suffix_refl(ts);
    if ts.len() > 0 {
        let rest = ts.drop_first();
        lemma_suffix_drop_first(ts);
        if ts[0].inner == RawTokenV::Key(Key::ParenOpen) {
            law_chunk_consumes_prefix(rest);
            let ts2 = spec_chunk(rest).1;
            lemma_suffix_of_rest(ts2, ts);
            if ts2.len() > 0 {
                lemma_suffix_drop_first(ts2);
                lemma_suffix_trans(ts2.drop_first(), ts2, ts);
            }
        }
    }
}

proof fn lemma_maybe_parameterized_suffix(takes: SpannedV<CallableV>, ts: Seq<TokenV>)
    ensures
        is_suffix(spec_maybe_parameterized(takes, ts).1, ts),
    decreases ts.len(), 2int,
{
    lemma_next_can_be_parameter_suffix(ts);
    let (b, ts1) = spec_next_can_be_parameter(ts);
    if b {
        lemma_parameterized_suffix(ts1);
        let (r, ts2) = spec_parameterized(ts1);
        lemma_suffix_trans(ts2, ts1, ts);
        if let Outcome::Done(params) = r {
            let left = SpannedV { inner: EntityV::Call(takes.inner, params), pos: takes.pos };
            lemma_maybe_operator_suffix(left, ts2);
            lemma_suffix_trans(spec_maybe_operator(left, ts2).1, ts2, ts);
        }
    }
}

proof fn lemma_maybe_operator_suffix(left: SpannedV<EntityV>, ts: Seq<TokenV>)
    ensures
        is_suffix(spec_maybe_operator(left, ts).1, ts),
    decreases ts.len(), 0int,
{
    lemma_suffix_refl(ts);
    if ts.len() > 0 {
        let t = ts[0];
        lemma_suffix_drop_first(ts);
        if let RawTokenV::Identifier(ident) = t.inner {
            if let Outcome::Done(op) = spec_map_anot(ident) {
                let o = SpannedV { inner: op, pos: t.source_index };
                lemma_operator_suffix(left, o, ts.drop_first());
                lemma_suffix_of_rest(spec_operator(left, o, ts.drop_first()).1, ts);
            }
        }
    }
}

proof fn lemma_operator_suffix(left: SpannedV<EntityV>, op: SpannedV<TypedIdentV>, ts: Seq<TokenV>)
    ensures
        is_suffix(spec_operator(left, op, ts).1, ts),
    decreases ts.len(), 1int,
{
    law_chunk_consumes_prefix(ts);
    let (r, ts2) = spec_chunk(ts);
    if let Outcome::Done(right) = r {
        if ts2.len() < ts.len() {
            let l2 = SpannedV {
                inner: EntityV::Call(CallableV::Func(op.inner), seq![left, right]),
                pos: op.pos,
            };
            lemma_maybe_operator_suffix(l2, ts2);
            lemma_suffix_trans(spec_maybe_operator(l2, ts2).1, ts2, ts);
        }
    }
}

proof fn lemma_if_suffix(ts: Seq<TokenV>)
    ensures
        is_suffix(spec_if(ts).1, ts),
    decreases ts.len(), 2int,
{
    lemma_if_from_suffix(ts, Seq::empty());
}

proof fn lemma_if_from_suffix(ts: Seq<TokenV>, branches: Seq<(SpannedV<EntityV>, SpannedV<EntityV>)>)
    ensures
        is_suffix(spec_if_from(ts, branches).1, ts),
    decreases ts.len(), 1int,
{
    law_chunk_consumes_prefix(ts);
    let (r, ts2) = spec_chunk(ts);
    if let Outcome::Done(cond) = r {
        lemma_expect_then_suffix(ts2);
        let (t, ts3) = spec_expect_then(ts2);
        lemma_suffix_trans(ts3, ts2, ts);
        if t is Done && ts3.len() < ts.len() {
            law_chunk_consumes_prefix(ts3);
            let (r2, ts4) = spec_chunk(ts3);
            lemma_suffix_trans(ts4, ts3, ts);
            if let Outcome::Done(eval) = r2 {
                if ts4.len() < ts.len() {
                    lemma_if_after_suffix(ts4, branches.push((cond, eval)));
                    lemma_suffix_trans(spec_if_after(ts4, branches.push((cond, eval))).1, ts4, ts);
                }
            }
        }
    }
}

proof fn lemma_if_after_suffix(ts: Seq<TokenV>, branches: Seq<(SpannedV<EntityV>, SpannedV<EntityV>)>)
    ensures
        is_suffix(spec_if_after(ts, branches).1, ts),
    decreases ts.len(), 0int,
{
    lemma_suffix_refl(ts);
    if ts.len() > 0 {
        let rest = ts.drop_first();
        lemma_suffix_drop_first(ts);
        match ts[0].inner {
            RawTokenV::Key(Key::Elif) => {
                lemma_if_from_suffix(rest, branches);
                lemma_suffix_of_rest(spec_if_from(rest, branches).1, ts);
            },
            RawTokenV::NewLine => {
                lemma_if_after_suffix(rest, branches);
                lemma_suffix_of_rest(spec_if_after(rest, branches).1, ts);
            },
            RawTokenV::Key(Key::Else) => {
                law_chunk_consumes_prefix(rest);
                lemma_suffix_of_rest(spec_chunk(rest).1, ts);
            },
            _ => {},
        }
    }
}

proof fn lemma_first_suffix(ts: Seq<TokenV>)
    ensures
        is_suffix(spec_first(ts).1, ts),
    decreases ts.len(), 2int,
{
    lemma_first_from_suffix(ts, Seq::empty());
}

proof fn lemma_first_from_suffix(ts: Seq<TokenV>, branches: Seq<SpannedV<EntityV>>)
    ensures
        is_suffix(spec_first_from(ts, branches).1, ts),
    decreases ts.len(), 1int,
{
    law_chunk_consumes_prefix(ts);
    let (r, ts2) = spec_chunk(ts);
    if let Outcome::Done(v) = r {
        lemma_first_after_suffix(ts2, branches.push(v));
        lemma_suffix_trans(spec_first_after(ts2, branches.push(v)).1, ts2, ts);
    }
}

proof fn lemma_first_after_suffix(ts: Seq<TokenV>, branches: Seq<SpannedV<EntityV>>)
    ensures
        is_suffix(spec_first_after(ts, branches).1, ts),
    decreases ts.len(), 0int,
{
    lemma_suffix_refl(ts);
    if ts.len() > 0 {
        let rest = ts.drop_first();
        lemma_suffix_drop_first(ts);
        match ts[0].inner {
            RawTokenV::Key(Key::And) => {
                lemma_first_from_suffix(rest, branches);
                lemma_suffix_of_rest(spec_first_from(rest, branches).1, ts);
            },
            RawTokenV::NewLine => {
                lemma_first_after_suffix(rest, branches);
                lemma_suffix_of_rest(spec_first_after(rest, branches).1, ts);
            },
            RawTokenV::Key(Key::Then) => {
                law_chunk_consumes_prefix(rest);
                lemma_suffix_of_rest(spec_chunk(rest).1, ts);
            },
            _ => {},
        }
    }
}

proof fn lemma_list_suffix(ts: Seq<TokenV>)
    ensures
        is_suffix(spec_list(ts).1, ts),
    decreases ts.len(), 2int,
{
    if ts.len() > 0 {
        lemma_suffix_drop_first(ts);
    }
    lemma_list_from_suffix(ts, Seq::empty());
}

proof fn lemma_list_from_suffix(ts: Seq<TokenV>, buf: Seq<SpannedV<EntityV>>)
    ensures
        is_suffix(spec_list_from(ts, buf).1, ts),
    decreases ts.len(), 1int,
{
    law_chunk_consumes_prefix(ts);
    let (r, ts2) = spec_chunk(ts);
    if let Outcome::Done(v) = r {
        if ts2.len() > 0 {
            let rest = ts2.drop_first();
            lemma_suffix_drop_first(ts2);
            lemma_suffix_trans(rest, ts2, ts);
            if ts2[0].inner == RawTokenV::Key(Key::Comma) {
                lemma_list_from_suffix(rest, buf.push(v));
                lemma_suffix_trans(spec_list_from(rest, buf.push(v)).1, rest, ts);
            }
        }
    }
}

proof fn lemma_record_suffix(ts: Seq<TokenV>)
    ensures
        is_suffix(spec_record(ts).1, ts),
    decreases ts.len(), 0int,
{
    lemma_suffix_refl(ts);
    if ts.len() > 0 {
        let rest = ts.drop_first();
        lemma_suffix_drop_first(ts);
        if rest.len() > 0 {
            lemma_suffix_drop_first(rest);
            lemma_suffix_trans(rest.drop_first(), rest, ts);
            lemma_record_fields_suffix(rest.drop_first());
            lemma_suffix_trans(spec_record_fields(rest.drop_first()).1, rest.drop_first(), ts);
        }
    }
}

proof fn lemma_record_fields_suffix(ts: Seq<TokenV>)
    ensures
        is_suffix(spec_record_fields(ts).1, ts),
    decreases ts.len(), 0int,
{
    lemma_suffix_refl(ts);
    if ts.len() > 0 {
        let rest = ts.drop_first();
        lemma_suffix_drop_first(ts);
        law_chunk_consumes_prefix(rest);
        let ts2 = spec_chunk(rest).1;
        lemma_suffix_of_rest(ts2, ts);
        if ts2.len() > 0 {
            let ts3 = ts2.drop_first();
            lemma_suffix_drop_first(ts2);
            lemma_suffix_trans(ts3, ts2, ts);
            if ts3.len() < ts.len() {
                lemma_record_fields_suffix(ts3);
                lemma_suffix_trans(spec_record_fields(ts3).1, ts3, ts);
            }
        }
    }
}

/// Leading new lines change nothing: reading an expression after a new line gives
/// what reading it without the new line gives, with the same tokens left.
pub proof fn law_chunk_skips_newline(t: TokenV, ts: Seq<TokenV>)
    requires
        t.inner == RawTokenV::NewLine,
    ensures
        spec_chunk(seq![t] + ts) == spec_chunk(ts),
{
    assert((seq![t] + ts).drop_first() =~= ts);
}

} // verus!
