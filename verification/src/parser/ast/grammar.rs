use vstd::prelude::*;

use crate::parser::ast::{CallableV, EntityV, PassableV, SpannedV, TypedIdentV};
use crate::parser::fault::{err_at, spec_fallback, Expected, Outcome, ParseErrorV, ParseFaultV};
use crate::parser::identifier::{AnotV, IdentifierType, IdentifierV};
use crate::parser::tokenizer::keys::Key;
use crate::parser::tokenizer::token::{RawTokenV, TokenV};
use crate::parser::type_parse::spec_parse_type;
use crate::parser::types::TypeV;

verus! {

/// What a parsing step gives, with the tokens left after it.
pub type Step<T> = (Outcome<T, ParseErrorV>, Seq<TokenV>);

/// Reads each annotation of a name as a type, left to right, stopping at the first
/// one that does not read.
pub open spec fn spec_parse_types(ss: Seq<Seq<char>>) -> Outcome<Seq<TypeV>, ParseFaultV>
    decreases ss.len(),
{
    if ss.len() == 0 {
        Outcome::Done(Seq::empty())
    } else {
        match spec_parse_types(ss.drop_last()) {
            Outcome::Done(ts) => match spec_parse_type(ss.last()) {
                Outcome::Done(t) => Outcome::Done(ts.push(t)),
                Outcome::Fails(e) => Outcome::Fails(e),
                Outcome::Panics => Outcome::Panics,
            },
            Outcome::Fails(e) => Outcome::Fails(e),
            Outcome::Panics => Outcome::Panics,
        }
    }
}

/// A name of a token with its annotations read as types.
pub open spec fn spec_map_anot(a: AnotV<IdentifierV, Seq<char>>) -> Outcome<TypedIdentV, ParseFaultV> {
    match spec_parse_types(a.anot) {
        Outcome::Done(ts) => Outcome::Done(AnotV { inner: a.inner, anot: ts }),
        Outcome::Fails(e) => Outcome::Fails(e),
        Outcome::Panics => Outcome::Panics,
    }
}

/// The error `fault` at `pos`, with the tokens `ts` left.
pub open spec fn fail<T>(fault: ParseFaultV, pos: usize, ts: Seq<TokenV>) -> Step<T> {
    (Outcome::Fails(err_at(fault, pos)), ts)
}

/// `ts` without its first token, where it has one.
pub open spec fn after_first(ts: Seq<TokenV>) -> Seq<TokenV> {
    if ts.len() > 0 {
        ts.drop_first()
    } else {
        ts
    }
}

pub open spec fn is_key(ts: Seq<TokenV>, k: Key) -> bool {
    ts.len() > 0 && ts[0].inner == RawTokenV::Key(k)
}

/// Whether a name's first path segment is `builtin`.
pub open spec fn is_builtin_path(id: TypedIdentV) -> bool {
    id.inner.path.len() > 0 && id.inner.path[0] == "builtin"@
}

/// The callable that a name denotes: a builtin, with `builtin` taken off its path, or
/// an ordinary function.
pub open spec fn callable_of(id: TypedIdentV) -> CallableV {
    if is_builtin_path(id) {
        CallableV::Builtin(
            AnotV {
                inner: IdentifierV {
                    path: id.inner.path.drop_first(),
                    name: id.inner.name,
                    kind: id.inner.kind,
                },
                anot: id.anot,
            },
        )
    } else {
        CallableV::Func(id)
    }
}

/// The expression that a callable stands for when it is given no parameters.
pub open spec fn callable_entity(c: CallableV) -> EntityV {
    match c {
        CallableV::Func(id) => EntityV::SingleIdent(id),
        CallableV::Lambda(ps, b) => EntityV::Lambda(ps, b),
        CallableV::Builtin(id) => EntityV::Call(CallableV::Builtin(id), Seq::empty()),
    }
}

/// Whether the tokens end the parameters of a call without being consumed.
pub open spec fn ends_parameters(t: RawTokenV) -> bool {
    ||| t is Header
    ||| t == RawTokenV::Key(Key::Where)
    ||| t == RawTokenV::Key(Key::ParenClose)
    ||| t == RawTokenV::Key(Key::Then)
    ||| t == RawTokenV::Key(Key::Else)
    ||| t == RawTokenV::Key(Key::ListClose)
    ||| t == RawTokenV::Key(Key::And)
    ||| t == RawTokenV::Key(Key::Elif)
}

/// Skips new lines up to a `|`-pipe; tells whether one follows.
pub open spec fn spec_consume_pipe(ts: Seq<TokenV>) -> (bool, Seq<TokenV>)
    decreases ts.len(),
{
    if ts.len() == 0 {
        (false, ts)
    } else {
        match ts[0].inner {
            RawTokenV::Key(Key::Pipe) => (true, ts),
            RawTokenV::NewLine => spec_consume_pipe(ts.drop_first()),
            _ => (false, ts),
        }
    }
}

/// Skips new lines; tells whether what follows can be a parameter.
pub open spec fn spec_next_can_be_parameter(ts: Seq<TokenV>) -> (bool, Seq<TokenV>)
    decreases ts.len(),
{
    if ts.len() == 0 {
        (false, ts)
    } else {
        match ts[0].inner {
            RawTokenV::Inlined(_) => (true, ts),
            RawTokenV::Key(Key::Pipe) => (true, ts),
            RawTokenV::Key(Key::ParenOpen) => (true, ts),
            RawTokenV::Key(Key::ClosureMarker) => (true, ts),
            RawTokenV::Key(Key::ListOpen) => (true, ts),
            RawTokenV::Identifier(a) => (a.inner.kind != IdentifierType::Operator, ts),
            RawTokenV::NewLine => spec_next_can_be_parameter(ts.drop_first()),
            _ => (false, ts),
        }
    }
}

/// Skips new lines up to `then`.
pub open spec fn spec_expect_then(ts: Seq<TokenV>) -> Step<()>
    decreases ts.len(),
{
    if ts.len() == 0 {
        fail(ParseFaultV::IfMissingThen, 0, ts)
    } else {
        match ts[0].inner {
            RawTokenV::Key(Key::Then) => (Outcome::Done(()), ts.drop_first()),
            RawTokenV::NewLine => spec_expect_then(ts.drop_first()),
            other => fail(ParseFaultV::IfWantedThen(other), ts[0].source_index, ts.drop_first()),
        }
    }
}

/// An expression, with the operators and parameters that follow it.
pub open spec fn spec_chunk(ts: Seq<TokenV>) -> Step<SpannedV<EntityV>>
    decreases ts.len(), 0int,
{
    if ts.len() == 0 {
        fail(ParseFaultV::EmptyParen, 0, ts)
    } else {
        let t = ts[0];
        let pos = t.source_index;
        let rest = ts.drop_first();
        match t.inner {
            RawTokenV::Header(_) => fail(ParseFaultV::EmptyParen, pos, ts),
            RawTokenV::Key(Key::Where) => fail(ParseFaultV::EmptyParen, pos, ts),
            RawTokenV::Key(Key::ParenOpen) => {
                let (r, ts2) = spec_chunk(rest);
                match r {
                    Outcome::Done(v) => if ts2.len() > rest.len() {
                        (Outcome::Panics, ts2)
                    } else if is_key(ts2, Key::ParenClose) {
                        let ts3 = ts2.drop_first();
                        match v.inner {
                            EntityV::Lambda(params, body) => spec_maybe_parameterized(
                                SpannedV { inner: CallableV::Lambda(params, body), pos: v.pos },
                                ts3,
                            ),
                            _ => spec_maybe_operator(v, ts3),
                        }
                    } else {
                        fail(ParseFaultV::Unmatched(Key::ParenOpen), pos, after_first(ts2))
                    },
                    Outcome::Fails(e) => (Outcome::Fails(spec_fallback(e, pos)), ts2),
                    Outcome::Panics => (Outcome::Panics, ts2),
                }
            },
            RawTokenV::Key(Key::PrimitiveUnimplemented) => (
                Outcome::Done(SpannedV { inner: EntityV::Unimplemented, pos }),
                rest,
            ),
            RawTokenV::Inlined(v) => spec_maybe_operator(
                SpannedV { inner: EntityV::Inlined(v), pos },
                rest,
            ),
            RawTokenV::Key(Key::ListOpen) => {
                let (r, ts2) = spec_list(rest);
                match r {
                    Outcome::Done(v) => if ts2.len() > rest.len() {
                        (Outcome::Panics, ts2)
                    } else {
                        spec_maybe_operator(SpannedV { inner: v, pos }, ts2)
                    },
                    Outcome::Fails(e) => (Outcome::Fails(spec_fallback(e, pos)), ts2),
                    Outcome::Panics => (Outcome::Panics, ts2),
                }
            },
            RawTokenV::Key(Key::RecordOpen) => spec_record(rest),
            RawTokenV::Key(Key::If) => {
                let (r, ts2) = spec_if(rest);
                match r {
                    Outcome::Done(v) => if ts2.len() > rest.len() {
                        (Outcome::Panics, ts2)
                    } else {
                        spec_maybe_operator(SpannedV { inner: v, pos }, ts2)
                    },
                    Outcome::Fails(e) => (Outcome::Fails(spec_fallback(e, pos)), ts2),
                    Outcome::Panics => (Outcome::Panics, ts2),
                }
            },
            RawTokenV::Key(Key::First) => {
                let (r, ts2) = spec_first(rest);
                match r {
                    Outcome::Done(v) => if ts2.len() > rest.len() {
                        (Outcome::Panics, ts2)
                    } else {
                        spec_maybe_operator(SpannedV { inner: v, pos }, ts2)
                    },
                    Outcome::Fails(e) => (Outcome::Fails(spec_fallback(e, pos)), ts2),
                    Outcome::Panics => (Outcome::Panics, ts2),
                }
            },
            RawTokenV::Identifier(ident) => match spec_map_anot(ident) {
                Outcome::Done(id) => {
                    let (r, ts2) = spec_maybe_parameterized(
                        SpannedV { inner: callable_of(id), pos },
                        rest,
                    );
                    match r {
                        Outcome::Done(v) => if ts2.len() > rest.len() {
                            (Outcome::Panics, ts2)
                        } else {
                            spec_maybe_operator(v, ts2)
                        },
                        Outcome::Fails(e) => (Outcome::Fails(spec_fallback(e, pos)), ts2),
                        Outcome::Panics => (Outcome::Panics, ts2),
                    }
                },
                Outcome::Fails(f) => fail(f, pos, rest),
                Outcome::Panics => (Outcome::Panics, rest),
            },
            RawTokenV::Key(Key::Lambda) => {
                let (r, ts2) = spec_lambda(rest);
                match r {
                    Outcome::Done(v) => if ts2.len() > rest.len() {
                        (Outcome::Panics, ts2)
                    } else {
                        let (piped, ts3) = spec_consume_pipe(ts2);
                        if !piped {
                            (Outcome::Done(v), ts3)
                        } else if ts3.len() == 0 || ts3.len() > ts2.len() {
                            (Outcome::Panics, ts3)
                        } else {
                            let (pr, ts5) = spec_chunk(ts3.drop_first());
                            match pr {
                                Outcome::Done(p) => match v.inner {
                                    EntityV::Lambda(params, body) => (
                                        Outcome::Done(
                                            SpannedV {
                                                inner: EntityV::Call(
                                                    CallableV::Lambda(params, body),
                                                    seq![p],
                                                ),
                                                pos: v.pos,
                                            },
                                        ),
                                        ts5,
                                    ),
                                    _ => (Outcome::Panics, ts5),
                                },
                                Outcome::Fails(e) => (Outcome::Fails(e), ts5),
                                Outcome::Panics => (Outcome::Panics, ts5),
                            }
                        }
                    },
                    Outcome::Fails(e) => (Outcome::Fails(spec_fallback(e, pos)), ts2),
                    Outcome::Panics => (Outcome::Panics, ts2),
                }
            },
            RawTokenV::NewLine => spec_chunk(rest),
            other => fail(ParseFaultV::Unexpected(other), pos, rest),
        }
    }
}

/// The parameters of a lambda up to `->`, then its body.
pub open spec fn spec_lambda(ts: Seq<TokenV>) -> Step<SpannedV<EntityV>>
    decreases ts.len(), 1int,
{
    spec_lambda_from(ts, Seq::empty())
}

pub open spec fn spec_lambda_from(ts: Seq<TokenV>, params: Seq<TypedIdentV>) -> Step<
    SpannedV<EntityV>,
>
    decreases ts.len(), 0int,
{
    if ts.len() == 0 {
        fail(ParseFaultV::Unexpected(RawTokenV::Key(Key::Lambda)), 0, ts)
    } else {
        let t = ts[0];
        let rest = ts.drop_first();
        match t.inner {
            RawTokenV::Identifier(ident) => match spec_map_anot(ident) {
                Outcome::Done(id) => spec_lambda_from(rest, params.push(id)),
                Outcome::Fails(f) => fail(f, t.source_index, rest),
                Outcome::Panics => (Outcome::Panics, rest),
            },
            RawTokenV::Key(Key::Arrow) => {
                let (r, ts2) = spec_chunk(rest);
                match r {
                    Outcome::Done(v) => (
                        Outcome::Done(
                            SpannedV {
                                inner: EntityV::Lambda(params, Box::new(v)),
                                pos: t.source_index,
                            },
                        ),
                        ts2,
                    ),
                    Outcome::Fails(e) => (Outcome::Fails(e), ts2),
                    Outcome::Panics => (Outcome::Panics, ts2),
                }
            },
            other => fail(
                ParseFaultV::GotButExpected(other, seq![Expected::LambdaParameter, Expected::Arrow]),
                t.source_index,
                rest,
            ),
        }
    }
}

/// `x` followed by the items of `r`.
pub open spec fn prepend<T>(x: T, r: Step<Seq<T>>) -> Step<Seq<T>> {
    match r.0 {
        Outcome::Done(v) => (Outcome::Done(seq![x] + v), r.1),
        Outcome::Fails(e) => (Outcome::Fails(e), r.1),
        Outcome::Panics => (Outcome::Panics, r.1),
    }
}

/// The parameters given to a call.
pub open spec fn spec_parameterized(ts: Seq<TokenV>) -> Step<Seq<SpannedV<EntityV>>>
    decreases ts.len(), 0int,
{
    if ts.len() == 0 {
        (Outcome::Done(Seq::empty()), ts)
    } else {
        let t = ts[0];
        let pos = t.source_index;
        let rest = ts.drop_first();
        match t.inner {
            RawTokenV::Inlined(v) => prepend(
                SpannedV { inner: EntityV::Inlined(v), pos },
                spec_parameterized(rest),
            ),
            RawTokenV::Identifier(ident) => if ident.inner.kind == IdentifierType::Operator {
                (Outcome::Done(Seq::empty()), ts)
            } else {
                match spec_map_anot(ident) {
                    Outcome::Done(id) => prepend(
                        SpannedV { inner: EntityV::SingleIdent(id), pos },
                        spec_parameterized(rest),
                    ),
                    Outcome::Fails(f) => fail(f, pos, rest),
                    Outcome::Panics => (Outcome::Panics, rest),
                }
            },
            RawTokenV::Key(Key::ParenOpen) => {
                let (r, ts2) = spec_chunk(rest);
                match r {
                    Outcome::Done(v) => if ts2.len() > rest.len() {
                        (Outcome::Panics, ts2)
                    } else if ts2.len() == 0 {
                        fail(ParseFaultV::Unmatched(Key::ParenOpen), 0, ts2)
                    } else if ts2[0].inner == RawTokenV::Key(Key::ParenClose) {
                        prepend(v, spec_parameterized(ts2.drop_first()))
                    } else {
                        fail(
                            ParseFaultV::GotButExpected(ts2[0].inner, seq![Expected::ParenClose]),
                            ts2[0].source_index,
                            ts2.drop_first(),
                        )
                    },
                    Outcome::Fails(e) => (Outcome::Fails(e), ts2),
                    Outcome::Panics => (Outcome::Panics, ts2),
                }
            },
            RawTokenV::Key(Key::RecordOpen) => {
                let (r, ts2) = spec_record(rest);
                match r {
                    Outcome::Done(v) => (Outcome::Done(seq![v]), ts2),
                    Outcome::Fails(e) => (Outcome::Fails(e), ts2),
                    Outcome::Panics => (Outcome::Panics, ts2),
                }
            },
            RawTokenV::Key(Key::Pipe) => {
                let (r, ts2) = spec_chunk(rest);
                match r {
                    Outcome::Done(v) => (Outcome::Done(seq![v]), ts2),
                    Outcome::Fails(e) => (Outcome::Fails(e), ts2),
                    Outcome::Panics => (Outcome::Panics, ts2),
                }
            },
            RawTokenV::Key(Key::ListOpen) => {
                let (r, ts2) = spec_list(rest);
                match r {
                    Outcome::Done(v) => if ts2.len() > rest.len() {
                        (Outcome::Panics, ts2)
                    } else {
                        prepend(SpannedV { inner: v, pos }, spec_parameterized(ts2))
                    },
                    Outcome::Fails(e) => (Outcome::Fails(e), ts2),
                    Outcome::Panics => (Outcome::Panics, ts2),
                }
            },
            RawTokenV::Key(Key::ClosureMarker) => {
                let (r, ts2) = spec_closure(rest);
                match r {
                    Outcome::Done(p) => if ts2.len() > rest.len() {
                        (Outcome::Panics, ts2)
                    } else {
                        prepend(
                            SpannedV { inner: EntityV::Pass(p.inner), pos: p.pos },
                            spec_parameterized(ts2),
                        )
                    },
                    Outcome::Fails(e) => (Outcome::Fails(e), ts2),
                    Outcome::Panics => (Outcome::Panics, ts2),
                }
            },
            RawTokenV::NewLine => spec_parameterized(rest),
            other => if ends_parameters(other) {
                (Outcome::Done(Seq::empty()), ts)
            } else {
                fail(ParseFaultV::UnexpectedWantedParameter(other), pos, ts)
            },
        }
    }
}

/// The closure that follows a `#`.
pub open spec fn spec_closure(ts: Seq<TokenV>) -> Step<SpannedV<PassableV>>
    decreases ts.len(), 0int,
{
    if ts.len() == 0 {
        fail(ParseFaultV::Unexpected(RawTokenV::Key(Key::ClosureMarker)), 0, ts)
    } else {
        let t = ts[0];
        let pos = t.source_index;
        let rest = ts.drop_first();
        match t.inner {
            RawTokenV::Key(Key::ParenOpen) => {
                let (r, ts2) = spec_chunk(rest);
                match r {
                    Outcome::Done(v) => if ts2.len() == 0 {
                        fail(ParseFaultV::Unmatched(Key::ParenOpen), 0, ts2)
                    } else if ts2[0].inner != RawTokenV::Key(Key::ParenClose) {
                        fail(
                            ParseFaultV::Unexpected(ts2[0].inner),
                            ts2[0].source_index,
                            ts2.drop_first(),
                        )
                    } else {
                        let ts3 = ts2.drop_first();
                        match v.inner {
                            EntityV::Inlined(i) => (
                                Outcome::Done(SpannedV { inner: PassableV::Value(i), pos: v.pos }),
                                ts3,
                            ),
                            EntityV::Lambda(ids, body) => (
                                Outcome::Done(
                                    SpannedV { inner: PassableV::Lambda(ids, body), pos: v.pos },
                                ),
                                ts3,
                            ),
                            EntityV::SingleIdent(id) => (
                                Outcome::Done(SpannedV { inner: PassableV::Func(id), pos: v.pos }),
                                ts3,
                            ),
                            EntityV::Call(c, ps) => (
                                Outcome::Done(
                                    SpannedV { inner: PassableV::PartialFunc(c, ps), pos: v.pos },
                                ),
                                ts3,
                            ),
                            other => fail(ParseFaultV::InvalidClosure(other), v.pos, ts3),
                        }
                    },
                    Outcome::Fails(e) => (Outcome::Fails(e), ts2),
                    Outcome::Panics => (Outcome::Panics, ts2),
                }
            },
            RawTokenV::Identifier(ident) => match spec_map_anot(ident) {
                Outcome::Done(id) => (
                    Outcome::Done(SpannedV { inner: PassableV::Func(id), pos }),
                    rest,
                ),
                Outcome::Fails(f) => fail(f, pos, rest),
                Outcome::Panics => (Outcome::Panics, rest),
            },
            RawTokenV::Inlined(i) => (Outcome::Done(SpannedV { inner: PassableV::Value(i), pos }), rest),
            other => fail(ParseFaultV::InvalidClosureT(other), pos, rest),
        }
    }
}

/// A callable followed, where parameters follow, by them and any operators after.
pub open spec fn spec_maybe_parameterized(takes: SpannedV<CallableV>, ts: Seq<TokenV>) -> Step<
    SpannedV<EntityV>,
>
    decreases ts.len(), 2int,
{
    let (b, ts1) = spec_next_can_be_parameter(ts);
    if !b {
        (Outcome::Done(SpannedV { inner: callable_entity(takes.inner), pos: takes.pos }), ts1)
    } else if ts1.len() > ts.len() {
        (Outcome::Panics, ts1)
    } else {
        let (r, ts2) = spec_parameterized(ts1);
        match r {
            Outcome::Done(params) => if ts2.len() > ts.len() {
                (Outcome::Panics, ts2)
            } else {
                spec_maybe_operator(
                    SpannedV { inner: EntityV::Call(takes.inner, params), pos: takes.pos },
                    ts2,
                )
            },
            Outcome::Fails(e) => (Outcome::Fails(e), ts2),
            Outcome::Panics => (Outcome::Panics, ts2),
        }
    }
}

/// `left`, or `left` as the left operand of the operator that follows.
pub open spec fn spec_maybe_operator(left: SpannedV<EntityV>, ts: Seq<TokenV>) -> Step<
    SpannedV<EntityV>,
>
    decreases ts.len(), 0int,
{
    if ts.len() == 0 {
        (Outcome::Done(left), ts)
    } else {
        let t = ts[0];
        match t.inner {
            RawTokenV::Identifier(ident) => if ident.inner.kind == IdentifierType::Operator {
                match spec_map_anot(ident) {
                    Outcome::Done(op) => spec_operator(
                        left,
                        SpannedV { inner: op, pos: t.source_index },
                        ts.drop_first(),
                    ),
                    Outcome::Fails(f) => fail(f, t.source_index, ts.drop_first()),
                    Outcome::Panics => (Outcome::Panics, ts.drop_first()),
                }
            } else {
                fail(ParseFaultV::Unexpected(t.inner), t.source_index, ts)
            },
            _ => (Outcome::Done(left), ts),
        }
    }
}

/// `left`, the operator `op` and the right operand that follows.
pub open spec fn spec_operator(
    left: SpannedV<EntityV>,
    op: SpannedV<TypedIdentV>,
    ts: Seq<TokenV>,
) -> Step<SpannedV<EntityV>>
    decreases ts.len(), 1int,
{
    let (r, ts2) = spec_chunk(ts);
    match r {
        Outcome::Done(right) => if ts2.len() >= ts.len() {
            (Outcome::Panics, ts2)
        } else {
            spec_maybe_operator(
                SpannedV {
                    inner: EntityV::Call(CallableV::Func(op.inner), seq![left, right]),
                    pos: op.pos,
                },
                ts2,
            )
        },
        Outcome::Fails(e) => (Outcome::Fails(e), ts2),
        Outcome::Panics => (Outcome::Panics, ts2),
    }
}

/// The branches of an `if` expression after the `if`.
pub open spec fn spec_if(ts: Seq<TokenV>) -> Step<EntityV>
    decreases ts.len(), 2int,
{
    spec_if_from(ts, Seq::empty())
}

/// A condition, `then` and its value, after the branches `branches`.
pub open spec fn spec_if_from(
    ts: Seq<TokenV>,
    branches: Seq<(SpannedV<EntityV>, SpannedV<EntityV>)>,
) -> Step<EntityV>
    decreases ts.len(), 1int,
{
    let (r, ts2) = spec_chunk(ts);
    match r {
        Outcome::Done(cond) => {
            let (t, ts3) = spec_expect_then(ts2);
            match t {
                Outcome::Done(_) => if ts3.len() >= ts.len() {
                    (Outcome::Panics, ts3)
                } else {
                    let (r2, ts4) = spec_chunk(ts3);
                    match r2 {
                        Outcome::Done(eval) => if ts4.len() >= ts.len() {
                            (Outcome::Panics, ts4)
                        } else {
                            spec_if_after(ts4, branches.push((cond, eval)))
                        },
                        Outcome::Fails(e) => (Outcome::Fails(e), ts4),
                        Outcome::Panics => (Outcome::Panics, ts4),
                    }
                },
                Outcome::Fails(e) => (Outcome::Fails(e), ts3),
                Outcome::Panics => (Outcome::Panics, ts3),
            }
        },
        Outcome::Fails(e) => (Outcome::Fails(e), ts2),
        Outcome::Panics => (Outcome::Panics, ts2),
    }
}

/// After a branch: `elif` and more branches, or `else` and the last value.
pub open spec fn spec_if_after(
    ts: Seq<TokenV>,
    branches: Seq<(SpannedV<EntityV>, SpannedV<EntityV>)>,
) -> Step<EntityV>
    decreases ts.len(), 0int,
{
    if ts.len() == 0 {
        fail(ParseFaultV::IfMissingThen, 0, ts)
    } else {
        let rest = ts.drop_first();
        match ts[0].inner {
            RawTokenV::Key(Key::Elif) => spec_if_from(rest, branches),
            RawTokenV::NewLine => spec_if_after(rest, branches),
            RawTokenV::Key(Key::Else) => {
                let (r, ts2) = spec_chunk(rest);
                match r {
                    Outcome::Done(last) => (Outcome::Done(EntityV::If(branches, Box::new(last))), ts2),
                    Outcome::Fails(e) => (Outcome::Fails(e), ts2),
                    Outcome::Panics => (Outcome::Panics, ts2),
                }
            },
            other => fail(
                ParseFaultV::GotButExpected(other, seq![Expected::Elif, Expected::Else]),
                ts[0].source_index,
                rest,
            ),
        }
    }
}

/// The statements of a `first` expression after the `first`.
pub open spec fn spec_first(ts: Seq<TokenV>) -> Step<EntityV>
    decreases ts.len(), 2int,
{
    spec_first_from(ts, Seq::empty())
}

/// A statement after the statements `branches`.
pub open spec fn spec_first_from(ts: Seq<TokenV>, branches: Seq<SpannedV<EntityV>>) -> Step<EntityV>
    decreases ts.len(), 1int,
{
    let (r, ts2) = spec_chunk(ts);
    match r {
        Outcome::Done(v) => if ts2.len() > ts.len() {
            (Outcome::Panics, ts2)
        } else {
            spec_first_after(ts2, branches.push(v))
        },
        Outcome::Fails(e) => (Outcome::Fails(e), ts2),
        Outcome::Panics => (Outcome::Panics, ts2),
    }
}

/// After a statement: `and` and more, or `then` and the value of the expression.
pub open spec fn spec_first_after(ts: Seq<TokenV>, branches: Seq<SpannedV<EntityV>>) -> Step<
    EntityV,
>
    decreases ts.len(), 0int,
{
    if ts.len() == 0 {
        fail(ParseFaultV::FirstMissingThen, 0, ts)
    } else {
        let rest = ts.drop_first();
        match ts[0].inner {
            RawTokenV::Key(Key::And) => spec_first_from(rest, branches),
            RawTokenV::NewLine => spec_first_after(rest, branches),
            RawTokenV::Key(Key::Then) => {
                let (r, ts2) = spec_chunk(rest);
                match r {
                    Outcome::Done(v) => (Outcome::Done(EntityV::First(branches.push(v))), ts2),
                    Outcome::Fails(e) => (Outcome::Fails(e), ts2),
                    Outcome::Panics => (Outcome::Panics, ts2),
                }
            },
            other => fail(ParseFaultV::FirstWantedThen(other), ts[0].source_index, rest),
        }
    }
}

/// The items of a list after its `[`.
pub open spec fn spec_list(ts: Seq<TokenV>) -> Step<EntityV>
    decreases ts.len(), 2int,
{
    if is_key(ts, Key::ListClose) {
        (Outcome::Done(EntityV::List(Seq::empty())), ts.drop_first())
    } else {
        spec_list_from(ts, Seq::empty())
    }
}

/// An item of a list, after the items `buf`.
pub open spec fn spec_list_from(ts: Seq<TokenV>, buf: Seq<SpannedV<EntityV>>) -> Step<EntityV>
    decreases ts.len(), 1int,
{
    let (r, ts2) = spec_chunk(ts);
    match r {
        Outcome::Done(v) => if ts2.len() > ts.len() {
            (Outcome::Panics, ts2)
        } else if ts2.len() == 0 {
            fail(ParseFaultV::Unmatched(Key::ListOpen), 0, ts2)
        } else {
            let buf2 = buf.push(v);
            let rest = ts2.drop_first();
            match ts2[0].inner {
                RawTokenV::Key(Key::ListClose) => (Outcome::Done(EntityV::List(buf2)), rest),
                RawTokenV::Key(Key::Comma) => spec_list_from(rest, buf2),
                other => fail(
                    ParseFaultV::GotButExpected(other, seq![Expected::Comma, Expected::ListClose]),
                    ts2[0].source_index,
                    rest,
                ),
            }
        },
        Outcome::Fails(e) => (Outcome::Fails(e), ts2),
        Outcome::Panics => (Outcome::Panics, ts2),
    }
}

/// A record after its `{`: the type name, `.`, and the fields.
pub open spec fn spec_record(ts: Seq<TokenV>) -> Step<SpannedV<EntityV>>
    decreases ts.len(), 0int,
{
    if ts.len() == 0 {
        fail(
            ParseFaultV::EndedWhileExpecting(seq![Expected::TypeName, Expected::Identifier]),
            0,
            ts,
        )
    } else {
        let t = ts[0];
        let pos = t.source_index;
        let rest = ts.drop_first();
        match t.inner {
            RawTokenV::Identifier(ident) => if rest.len() == 0 {
                fail(ParseFaultV::EndedWhileExpecting(seq![Expected::Dot]), pos, rest)
            } else if rest[0].inner != RawTokenV::Key(Key::Dot) {
                fail(
                    ParseFaultV::GotButExpected(rest[0].inner, seq![Expected::Dot]),
                    rest[0].source_index,
                    rest.drop_first(),
                )
            } else {
                let (r, ts3) = spec_record_fields(rest.drop_first());
                match r {
                    Outcome::Done(fields) => match spec_map_anot(ident) {
                        Outcome::Done(name) => (
                            Outcome::Done(SpannedV { inner: EntityV::Record(name, fields), pos }),
                            ts3,
                        ),
                        Outcome::Fails(f) => fail(f, pos, ts3),
                        Outcome::Panics => (Outcome::Panics, ts3),
                    },
                    Outcome::Fails(e) => (Outcome::Fails(e), ts3),
                    Outcome::Panics => (Outcome::Panics, ts3),
                }
            },
            other => fail(
                ParseFaultV::GotButExpected(other, seq![Expected::TypeName, Expected::Identifier]),
                pos,
                rest,
            ),
        }
    }
}

/// The fields of a record, `name value` separated by commas up to `}`; the fields
/// come out last first.
pub open spec fn spec_record_fields(ts: Seq<TokenV>) -> Step<
    Seq<(Seq<char>, SpannedV<EntityV>)>,
>
    decreases ts.len(), 0int,
{
    if ts.len() == 0 {
        fail(ParseFaultV::EndedWhileExpecting(seq![Expected::FieldName]), 0, ts)
    } else {
        let t = ts[0];
        let pos = t.source_index;
        let rest = ts.drop_first();
        match t.inner {
            RawTokenV::Identifier(ident) => {
                let name = ident.inner.name;
                let (r, ts2) = spec_chunk(rest);
                match r {
                    Outcome::Done(value) => if ts2.len() == 0 {
                        fail(ParseFaultV::EndedWhileExpecting(seq![Expected::RecordClose]), pos, ts2)
                    } else {
                        let ts3 = ts2.drop_first();
                        match ts2[0].inner {
                            RawTokenV::Key(Key::Comma) => if ts3.len() >= ts.len() {
                                (Outcome::Panics, ts3)
                            } else {
                                let (r2, ts4) = spec_record_fields(ts3);
                                match r2 {
                                    Outcome::Done(buf) => (Outcome::Done(buf.push((name, value))), ts4),
                                    Outcome::Fails(e) => (Outcome::Fails(e), ts4),
                                    Outcome::Panics => (Outcome::Panics, ts4),
                                }
                            },
                            RawTokenV::Key(Key::RecordClose) => (
                                Outcome::Done(seq![(name, value)]),
                                ts3,
                            ),
                            _ => (Outcome::Panics, ts3),
                        }
                    },
                    Outcome::Fails(e) => (Outcome::Fails(e), ts2),
                    Outcome::Panics => (Outcome::Panics, ts2),
                }
            },
            other => fail(ParseFaultV::GotButExpected(other, seq![Expected::FieldName]), pos, rest),
        }
    }
}

} // verus!
