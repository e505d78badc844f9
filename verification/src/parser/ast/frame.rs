use vstd::prelude::*;

use crate::parser::ast::grammar::{
    callable_of,
    spec_chunk,
    spec_closure,
    spec_consume_pipe,
    spec_expect_then,
    spec_first,
    spec_first_after,
    spec_first_from,
    spec_if,
    spec_if_after,
    spec_if_from,
    spec_lambda,
    spec_lambda_from,
    spec_list,
    spec_list_from,
    spec_map_anot,
    spec_maybe_operator,
    spec_maybe_parameterized,
    spec_next_can_be_parameter,
    spec_operator,
    spec_parameterized,
    spec_record,
    spec_record_fields,
    Step,
};
use crate::parser::ast::{CallableV, EntityV, SpannedV, TypedIdentV};
use crate::parser::fault::{Outcome, ParseErrorV};
use crate::parser::tokenizer::keys::Key;
use crate::parser::tokenizer::token::{RawTokenV, TokenV};

verus! {

/// Whether `c` is a closing parenthesis.
pub open spec fn is_close(c: TokenV) -> bool {
    c.inner == RawTokenV::Key(Key::ParenClose)
}

/// Whether the step `after` is the step `before` with `c` left after its tokens, where
/// `before` gives a value.
pub open spec fn framed<T>(before: Step<T>, after: Step<T>, c: TokenV) -> bool {
    before.0 is Done ==> after == (before.0, before.1.push(c))
}

proof fn lemma_push_drop(ts: Seq<TokenV>, c: TokenV)
    requires
        ts.len() > 0,
    ensures
        ts.push(c).drop_first() == ts.drop_first().push(c),
        ts.push(c)[0] == ts[0],
        ts.push(c).len() == ts.len() + 1,
{
    assert(ts.push(c).drop_first() =~= ts.drop_first().push(c));
}

proof fn lemma_consume_pipe_frame(ts: Seq<TokenV>, c: TokenV)
    requires
        is_close(c),
    ensures
        spec_consume_pipe(ts.push(c)) == (spec_consume_pipe(ts).0, spec_consume_pipe(ts).1.push(c)),
    decreases ts.len(),
{
    if ts.len() > 0 {
        lemma_push_drop(ts, c);
        if ts[0].inner == RawTokenV::NewLine {
            lemma_consume_pipe_frame(ts.drop_first(), c);
        }
    }
}

proof fn lemma_next_can_be_parameter_frame(ts: Seq<TokenV>, c: TokenV)
    requires
        is_close(c),
    ensures
        spec_next_can_be_parameter(ts.push(c)) == (
            spec_next_can_be_parameter(ts).0,
            spec_next_can_be_parameter(ts).1.push(c),
        ),
    decreases ts.len(),
{
    if ts.len() > 0 {
        lemma_push_drop(ts, c);
        if ts[0].inner == RawTokenV::NewLine {
            lemma_next_can_be_parameter_frame(ts.drop_first(), c);
        }
    }
}

proof fn lemma_expect_then_frame(ts: Seq<TokenV>, c: TokenV)
    requires
        is_close(c),
    ensures
        framed(spec_expect_then(ts), spec_expect_then(ts.push(c)), c),
    decreases ts.len(),
{
    if ts.len() > 0 {
        lemma_push_drop(ts, c);
        if ts[0].inner == RawTokenV::NewLine {
            lemma_expect_then_frame(ts.drop_first(), c);
        }
    }
}

/// A closing parenthesis after the tokens of an expression that reads to a value
/// changes nothing: the expression reads the same and the parenthesis is left.
pub proof fn law_chunk_frame(ts: Seq<TokenV>, c: TokenV)
    requires
        is_close(c),
    ensures
        framed(spec_chunk(ts), spec_chunk(ts.push(c)), c),
    decreases ts.len(), 0int,
{
    if ts.len() > 0 {
        let t = ts[0];
        let pos = t.source_index;
        let rest = ts.drop_first();
        lemma_push_drop(ts, c);
        match t.inner {
            RawTokenV::Key(Key::ParenOpen) => {
                law_chunk_frame(rest, c);
                let (r, ts2) = spec_chunk(rest);
                if let Outcome::Done(v) = r {
                    if ts2.len() <= rest.len() && ts2.len() > 0 {
                        lemma_push_drop(ts2, c);
                        let ts3 = ts2.drop_first();
                        match v.inner {
                            EntityV::Lambda(params, body) => {
                                let k = SpannedV {
                                    inner: CallableV::Lambda(params, body),
                                    pos: v.pos,
                                };
                                lemma_maybe_parameterized_frame(k, ts3, c);
                            },
                            _ => {
                                lemma_maybe_operator_frame(v, ts3, c);
                            },
                        }
                    }
                }
            },
            RawTokenV::Inlined(v) => {
                lemma_maybe_operator_frame(SpannedV { inner: EntityV::Inlined(v), pos }, rest, c);
            },
            RawTokenV::Key(Key::ListOpen) => {
                lemma_list_frame(rest, c);
                let (r, ts2) = spec_list(rest);
                if let Outcome::Done(v) = r {
                    if ts2.len() <= rest.len() {
                        lemma_maybe_operator_frame(SpannedV { inner: v, pos }, ts2, c);
                    }
                }
            },
            RawTokenV::Key(Key::RecordOpen) => {
                lemma_record_frame(rest, c);
            },
            RawTokenV::Key(Key::If) => {
                lemma_if_frame(rest, c);
                let (r, ts2) = spec_if(rest);
                if let Outcome::Done(v) = r {
                    if ts2.len() <= rest.len() {
                        lemma_maybe_operator_frame(SpannedV { inner: v, pos }, ts2, c);
                    }
                }
            },
            RawTokenV::Key(Key::First) => {
                lemma_first_frame(rest, c);
                let (r, ts2) = spec_first(rest);
                if let Outcome::Done(v) = r {
                    if ts2.len() <= rest.len() {
                        lemma_maybe_operator_frame(SpannedV { inner: v, pos }, ts2, c);
                    }
                }
            },
            RawTokenV::Identifier(ident) => {
                if let Outcome::Done(id) = spec_map_anot(ident) {
                    let k = SpannedV { inner: callable_of(id), pos };
                    lemma_maybe_parameterized_frame(k, rest, c);
                    let (r, ts2) = spec_maybe_parameterized(k, rest);
                    if let Outcome::Done(v) = r {
                        if ts2.len() <= rest.len() {
                            lemma_maybe_operator_frame(v, ts2, c);
                        }
                    }
                }
            },
            RawTokenV::Key(Key::Lambda) => {
                lemma_lambda_frame(rest, c);
                let (r, ts2) = spec_lambda(rest);
                if r is Done && ts2.len() <= rest.len() {
                    lemma_consume_pipe_frame(ts2, c);
                    let (piped, ts3) = spec_consume_pipe(ts2);
                    if piped && ts3.len() > 0 && ts3.len() <= ts2.len() {
                        lemma_push_drop(ts3, c);
                        law_chunk_frame(ts3.drop_first(), c);
                    }
                }
            },
            RawTokenV::NewLine => {
                law_chunk_frame(rest, c);
            },
            _ => {},
        }
    }
}

proof fn lemma_lambda_frame(ts: Seq<TokenV>, c: TokenV)
    requires
        is_close(c),
    ensures
        framed(spec_lambda(ts), spec_lambda(ts.push(c)), c),
    decreases ts.len(), 1int,
{
    lemma_lambda_from_frame(ts, Seq::empty(), c);
}

proof fn lemma_lambda_from_frame(ts: Seq<TokenV>, params: Seq<TypedIdentV>, c: TokenV)
    requires
        is_close(c),
    ensures
        framed(spec_lambda_from(ts, params), spec_lambda_from(ts.push(c), params), c),
    decreases ts.len(), 0int,
{
    if ts.len() > 0 {
        let t = ts[0];
        let rest = ts.drop_first();
        lemma_push_drop(ts, c);
        match t.inner {
            RawTokenV::Identifier(ident) => {
                if let Outcome::Done(id) = spec_map_anot(ident) {
                    lemma_lambda_from_frame(rest, params.push(id), c);
                }
            },
            RawTokenV::Key(Key::Arrow) => {
                law_chunk_frame(rest, c);
            },
            _ => {},
        }
    }
}

proof fn lemma_parameterized_frame(ts: Seq<TokenV>, c: TokenV)
    requires
        is_close(c),
    ensures
        framed(spec_parameterized(ts), spec_parameterized(ts.push(c)), c),
    decreases ts.len(), 0int,
{
    if ts.len() > 0 {
        let t = ts[0];
        let rest = ts.drop_first();
        lemma_push_drop(ts, c);
        match t.inner {
            RawTokenV::Inlined(v) => {
                lemma_parameterized_frame(rest, c);
            },
            RawTokenV::Identifier(ident) => {
                lemma_parameterized_frame(rest, c);
            },
            RawTokenV::Key(Key::ParenOpen) => {
                law_chunk_frame(rest, c);
                let (r, ts2) = spec_chunk(rest);
                if r is Done && ts2.len() <= rest.len() && ts2.len() > 0 {
                    lemma_push_drop(ts2, c);
                    lemma_parameterized_frame(ts2.drop_first(), c);
                }
            },
            RawTokenV::Key(Key::RecordOpen) => {
                lemma_record_frame(rest, c);
            },
            RawTokenV::Key(Key::Pipe) => {
                law_chunk_frame(rest, c);
            },
            RawTokenV::Key(Key::ListOpen) => {
                lemma_list_frame(rest, c);
                let (r, ts2) = spec_list(rest);
                if r is Done && ts2.len() <= rest.len() {
                    lemma_parameterized_frame(ts2, c);
                }
            },
            RawTokenV::Key(Key::ClosureMarker) => {
                lemma_closure_frame(rest, c);
                let (r, ts2) = spec_closure(rest);
                if r is Done && ts2.len() <= rest.len() {
                    lemma_parameterized_frame(ts2, c);
                }
            },
            RawTokenV::NewLine => {
                lemma_parameterized_frame(rest, c);
            },
            _ => {},
        }
    }
}

proof fn lemma_closure_frame(ts: Seq<TokenV>, c: TokenV)
    requires
        is_close(c),
    ensures
        framed(spec_closure(ts), spec_closure(ts.push(c)), c),
    decreases ts.len(), 0int,
{
    if ts.len() > 0 {
        let rest = ts.drop_first();
        lemma_push_drop(ts, c);
        if ts[0].inner == RawTokenV::Key(Key::ParenOpen) {
            law_chunk_frame(rest, c);
            let ts2 = spec_chunk(rest).1;
            if ts2.len() > 0 {
                lemma_push_drop(ts2, c);
            }
        }
    }
}

proof fn lemma_maybe_parameterized_frame(takes: SpannedV<CallableV>, ts: Seq<TokenV>, c: TokenV)
    requires
        is_close(c),
    ensures
        framed(spec_maybe_parameterized(takes, ts), spec_maybe_parameterized(takes, ts.push(c)), c),
    decreases ts.len(), 2int,
{
    lemma_next_can_be_parameter_frame(ts, c);
    let (b, ts1) = spec_next_can_be_parameter(ts);
    if b && ts1.len() <= ts.len() {
        lemma_parameterized_frame(ts1, c);
        let (r, ts2) = spec_parameterized(ts1);
        if let Outcome::Done(params) = r {
            if ts2.len() <= ts.len() {
                let left = SpannedV { inner: EntityV::Call(takes.inner, params), pos: takes.pos };
                lemma_maybe_operator_frame(left, ts2, c);
            }
        }
    }
}

proof fn lemma_maybe_operator_frame(left: SpannedV<EntityV>, ts: Seq<TokenV>, c: TokenV)
    requires
        is_close(c),
    ensures
        framed(spec_maybe_operator(left, ts), spec_maybe_operator(left, ts.push(c)), c),
    decreases ts.len(), 0int,
{
    if ts.len() > 0 {
        let t = ts[0];
        lemma_push_drop(ts, c);
        if let RawTokenV::Identifier(ident) = t.inner {
            if let Outcome::Done(op) = spec_map_anot(ident) {
                let o = SpannedV { inner: op, pos: t.source_index };
                lemma_operator_frame(left, o, ts.drop_first(), c);
            }
        }
    }
}

proof fn lemma_operator_frame(
    left: SpannedV<EntityV>,
    op: SpannedV<TypedIdentV>,
    ts: Seq<TokenV>,
    c: TokenV,
)
    requires
        is_close(c),
    ensures
        framed(spec_operator(left, op, ts), spec_operator(left, op, ts.push(c)), c),
    decreases ts.len(), 1int,
{
    law_chunk_frame(ts, c);
    let (r, ts2) = spec_chunk(ts);
    if let Outcome::Done(right) = r {
        if ts2.len() < ts.len() {
            let l2 = SpannedV {
                inner: EntityV::Call(CallableV::Func(op.inner), seq![left, right]),
                pos: op.pos,
            };
            lemma_maybe_operator_frame(l2, ts2, c);
        }
    }
}

proof fn lemma_if_frame(ts: Seq<TokenV>, c: TokenV)
    requires
        is_close(c),
    ensures
        framed(spec_if(ts), spec_if(ts.push(c)), c),
    decreases ts.len(), 2int,
{
    lemma_if_from_frame(ts, Seq::empty(), c);
}

proof fn lemma_if_from_frame(
    ts: Seq<TokenV>,
    branches: Seq<(SpannedV<EntityV>, SpannedV<EntityV>)>,
    c: TokenV,
)
    requires
        is_close(c),
    ensures
        framed(spec_if_from(ts, branches), spec_if_from(ts.push(c), branches), c),
    decreases ts.len(), 1int,
{
    law_chunk_frame(ts, c);
    let (r, ts2) = spec_chunk(ts);
    if let Outcome::Done(cond) = r {
        lemma_expect_then_frame(ts2, c);
        let (t, ts3) = spec_expect_then(ts2);
        if t is Done && ts3.len() < ts.len() {
            law_chunk_frame(ts3, c);
            let (r2, ts4) = spec_chunk(ts3);
            if let Outcome::Done(eval) = r2 {
                if ts4.len() < ts.len() {
                    lemma_if_after_frame(ts4, branches.push((cond, eval)), c);
                }
            }
        }
    }
}

proof fn lemma_if_after_frame(
    ts: Seq<TokenV>,
    branches: Seq<(SpannedV<EntityV>, SpannedV<EntityV>)>,
    c: TokenV,
)
    requires
        is_close(c),
    ensures
        framed(spec_if_after(ts, branches), spec_if_after(ts.push(c), branches), c),
    decreases ts.len(), 0int,
{
    if ts.len() > 0 {
        let rest = ts.drop_first();
        lemma_push_drop(ts, c);
        match ts[0].inner {
            RawTokenV::Key(Key::Elif) => {
                lemma_if_from_frame(rest, branches, c);
            },
            RawTokenV::NewLine => {
                lemma_if_after_frame(rest, branches, c);
            },
            RawTokenV::Key(Key::Else) => {
                law_chunk_frame(rest, c);
            },
            _ => {},
        }
    }
}

proof fn lemma_first_frame(ts: Seq<TokenV>, c: TokenV)
    requires
        is_close(c),
    ensures
        framed(spec_first(ts), spec_first(ts.push(c)), c),
    decreases ts.len(), 2int,
{
    lemma_first_from_frame(ts, Seq::empty(), c);
}

proof fn lemma_first_from_frame(ts: Seq<TokenV>, branches: Seq<SpannedV<EntityV>>, c: TokenV)
    requires
        is_close(c),
    ensures
        framed(spec_first_from(ts, branches), spec_first_from(ts.push(c), branches), c),
    decreases ts.len(), 1int,
{
    law_chunk_frame(ts, c);
    let (r, ts2) = spec_chunk(ts);
    if let Outcome::Done(v) = r {
        if ts2.len() <= ts.len() {
            lemma_first_after_frame(ts2, branches.push(v), c);
        }
    }
}

proof fn lemma_first_after_frame(ts: Seq<TokenV>, branches: Seq<SpannedV<EntityV>>, c: TokenV)
    requires
        is_close(c),
    ensures
        framed(spec_first_after(ts, branches), spec_first_after(ts.push(c), branches), c),
    decreases ts.len(), 0int,
{
    if ts.len() > 0 {
        let rest = ts.drop_first();
        lemma_push_drop(ts, c);
        match ts[0].inner {
            RawTokenV::Key(Key::And) => {
                lemma_first_from_frame(rest, branches, c);
            },
            RawTokenV::NewLine => {
                lemma_first_after_frame(rest, branches, c);
            },
            RawTokenV::Key(Key::Then) => {
                law_chunk_frame(rest, c);
            },
            _ => {},
        }
    }
}

proof fn lemma_list_frame(ts: Seq<TokenV>, c: TokenV)
    requires
        is_close(c),
    ensures
        framed(spec_list(ts), spec_list(ts.push(c)), c),
    decreases ts.len(), 2int,
{
    if ts.len() > 0 {
        lemma_push_drop(ts, c);
    }
    lemma_list_from_frame(ts, Seq::empty(), c);
}

proof fn lemma_list_from_frame(ts: Seq<TokenV>, buf: Seq<SpannedV<EntityV>>, c: TokenV)
    requires
        is_close(c),
    ensures
        framed(spec_list_from(ts, buf), spec_list_from(ts.push(c), buf), c),
    decreases ts.len(), 1int,
{
    law_chunk_frame(ts, c);
    let (r, ts2) = spec_chunk(ts);
    if let Outcome::Done(v) = r {
        if ts2.len() > 0 && ts2.len() <= ts.len() {
            let rest = ts2.drop_first();
            lemma_push_drop(ts2, c);
            if ts2[0].inner == RawTokenV::Key(Key::Comma) {
                lemma_list_from_frame(rest, buf.push(v), c);
            }
        }
    }
}

proof fn lemma_record_frame(ts: Seq<TokenV>, c: TokenV)
    requires
        is_close(c),
    ensures
        framed(spec_record(ts), spec_record(ts.push(c)), c),
    decreases ts.len(), 0int,
{
    if ts.len() > 0 {
        let rest = ts.drop_first();
        lemma_push_drop(ts, c);
        if rest.len() > 0 {
            lemma_push_drop(rest, c);
            lemma_record_fields_frame(rest.drop_first(), c);
        }
    }
}

proof fn lemma_record_fields_frame(ts: Seq<TokenV>, c: TokenV)
    requires
        is_close(c),
    ensures
        framed(spec_record_fields(ts), spec_record_fields(ts.push(c)), c),
    decreases ts.len(), 0int,
{
    if ts.len() > 0 {
        let rest = ts.drop_first();
        lemma_push_drop(ts, c);
        law_chunk_frame(rest, c);
        let ts2 = spec_chunk(rest).1;
        if ts2.len() > 0 {
            let ts3 = ts2.drop_first();
            lemma_push_drop(ts2, c);
            if ts3.len() < ts.len() {
                lemma_record_fields_frame(ts3, c);
            }
        }
    }
}

/// A parenthesised expression that is no lambda reads as the expression itself: with
/// the tokens `(`, `ts` and `)`, where `ts` reads to a value using all of its tokens,
/// the value is the same and no token is left.
pub proof fn law_parenthesised_chunk(open: TokenV, ts: Seq<TokenV>, close: TokenV)
    requires
        open.inner == RawTokenV::Key(Key::ParenOpen),
        is_close(close),
        spec_chunk(ts) matches (Outcome::Done(v), left) && left.len() == 0 && !(v.inner is Lambda),
    ensures
        spec_chunk(seq![open] + ts.push(close)) == spec_chunk(ts),
{
    law_chunk_frame(ts, close);
    let all = seq![open] + ts.push(close);
    assert(all[0] == open);
    assert(all.drop_first() =~= ts.push(close));
    let (r, left) = spec_chunk(ts);
    assert(left.push(close) =~= seq![close]);
    assert(spec_chunk(ts.push(close)) == (r, seq![close]));
    assert(seq![close].drop_first() =~= Seq::<TokenV>::empty());
    if let Outcome::Done(v) = r {
        assert(spec_maybe_operator(v, Seq::empty()) == (Outcome::<SpannedV<EntityV>, ParseErrorV>::Done(v), Seq::<TokenV>::empty()));
    }
}

} // verus!
