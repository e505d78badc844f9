use vstd::prelude::*;

use crate::parser::ast::grammar::{
    spec_chunk,
    spec_first,
    spec_first_after,
    spec_first_from,
    spec_if_after,
    spec_if_from,
    spec_expect_then,
    spec_list_from,
    spec_record_fields,
    spec_map_anot,
    spec_maybe_operator,
    spec_operator,
    spec_parameterized,
    spec_parse_types,
};
use crate::parser::ast::{CallableV, EntityV, SpannedV, TypedIdentV};
use crate::parser::fault::{Outcome, ParseErrorV, ParseFaultV};
use crate::parser::types::TypeV;
use crate::parser::identifier::{AnotV, IdentifierType};
use crate::parser::tokenizer::keys::Key;
use crate::parser::tokenizer::token::{RawTokenV, TokenV};

verus! {

/// Whether `t` is a literal value.
pub open spec fn is_literal(t: TokenV) -> bool {
    t.inner is Inlined
}

/// The expression that the literal token `t` stands for.
pub open spec fn literal_entity(t: TokenV) -> SpannedV<EntityV> {
    SpannedV { inner: EntityV::Inlined(t.inner->Inlined_0), pos: t.source_index }
}

/// Whether `t` is an operator name written without annotations.
pub open spec fn is_bare_operator(t: TokenV) -> bool {
    t.inner matches RawTokenV::Identifier(a) && a.inner.kind == IdentifierType::Operator
        && a.anot.len() == 0
}

/// The operator that the bare operator token `t` names.
pub open spec fn operator_of(t: TokenV) -> TypedIdentV {
    AnotV { inner: t.inner->Identifier_0.inner, anot: Seq::empty() }
}

/// Parameters that are literals are given in the order in which they are written,
/// and all of them are read.
pub proof fn law_literal_parameters_in_order(ts: Seq<TokenV>)
    requires
        forall|i: int| 0 <= i < ts.len() ==> is_literal(#[trigger] ts[i]),
    ensures
        spec_parameterized(ts) == (
            Outcome::<Seq<SpannedV<EntityV>>, ParseErrorV>::Done(ts.map_values(|t: TokenV| literal_entity(t))),
            Seq::<TokenV>::empty(),
        ),
    decreases ts.len(),
{
    if ts.len() == 0 {
        assert(ts.map_values(|t: TokenV| literal_entity(t)) =~= Seq::<SpannedV<EntityV>>::empty());
    } else {
        let rest = ts.drop_first();
        assert forall|i: int| 0 <= i < rest.len() implies is_literal(#[trigger] rest[i]) by {
            assert(rest[i] == ts[i + 1]);
        }
        law_literal_parameters_in_order(rest);
        assert(is_literal(ts[0]));
        assert(seq![literal_entity(ts[0])] + rest.map_values(|t: TokenV| literal_entity(t))
            =~= ts.map_values(|t: TokenV| literal_entity(t)));
    }
}

proof fn lemma_bare_operator(t: TokenV)
    requires
        is_bare_operator(t),
    ensures
        spec_map_anot(t.inner->Identifier_0) == Outcome::<TypedIdentV, ParseFaultV>::Done(operator_of(t)),
{
    assert(spec_parse_types(Seq::empty()) == Outcome::<Seq<TypeV>, ParseFaultV>::Done(
        Seq::empty(),
    ));
}

/// Operators group to the right: `x o1 y o2 z`, with literal operands and bare
/// operators, reads as `x o1 (y o2 z)`, and all tokens are read.
pub proof fn law_operators_group_right(x: TokenV, o1: TokenV, y: TokenV, o2: TokenV, z: TokenV)
    requires
        is_literal(x),
        is_literal(y),
        is_literal(z),
        is_bare_operator(o1),
        is_bare_operator(o2),
    ensures
        spec_chunk(seq![x, o1, y, o2, z]) == (
            Outcome::<SpannedV<EntityV>, ParseErrorV>::Done(
                SpannedV {
                    inner: EntityV::Call(
                        CallableV::Func(operator_of(o1)),
                        seq![
                            literal_entity(x),
                            SpannedV {
                                inner: EntityV::Call(
                                    CallableV::Func(operator_of(o2)),
                                    seq![literal_entity(y), literal_entity(z)],
                                ),
                                pos: o2.source_index,
                            },
                        ],
                    ),
                    pos: o1.source_index,
                },
            ),
            Seq::<TokenV>::empty(),
        ),
{
    lemma_bare_operator(o1);
    lemma_bare_operator(o2);
    let all = seq![x, o1, y, o2, z];
    let s1 = seq![o1, y, o2, z];
    let s2 = seq![y, o2, z];
    let s3 = seq![o2, z];
    let s4 = seq![z];
    let e = Seq::<TokenV>::empty();
    assert(all.drop_first() =~= s1);
    assert(s1.drop_first() =~= s2);
    assert(s2.drop_first() =~= s3);
    assert(s3.drop_first() =~= s4);
    assert(s4.drop_first() =~= e);
    let lz = literal_entity(z);
    let ly = literal_entity(y);
    let lx = literal_entity(x);
    assert(spec_maybe_operator(lz, e) == (Outcome::<SpannedV<EntityV>, ParseErrorV>::Done(lz), e));
    assert(spec_chunk(s4) == (Outcome::<SpannedV<EntityV>, ParseErrorV>::Done(lz), e));
    let op2 = SpannedV { inner: operator_of(o2), pos: o2.source_index };
    let inner = SpannedV {
        inner: EntityV::Call(CallableV::Func(operator_of(o2)), seq![ly, lz]),
        pos: o2.source_index,
    };
    assert(spec_maybe_operator(inner, e) == (
        Outcome::<SpannedV<EntityV>, ParseErrorV>::Done(inner),
        e,
    ));
    assert(spec_operator(ly, op2, s4) == (
        Outcome::<SpannedV<EntityV>, ParseErrorV>::Done(inner),
        e,
    ));
    assert(spec_maybe_operator(ly, s3) == spec_operator(ly, op2, s4));
    assert(spec_chunk(s2) == (Outcome::<SpannedV<EntityV>, ParseErrorV>::Done(inner), e));
    let op1 = SpannedV { inner: operator_of(o1), pos: o1.source_index };
    let outer = SpannedV {
        inner: EntityV::Call(CallableV::Func(operator_of(o1)), seq![lx, inner]),
        pos: o1.source_index,
    };
    assert(spec_maybe_operator(outer, e) == (
        Outcome::<SpannedV<EntityV>, ParseErrorV>::Done(outer),
        e,
    ));
    assert(spec_operator(lx, op1, s2) == (
        Outcome::<SpannedV<EntityV>, ParseErrorV>::Done(outer),
        e,
    ));
    assert(spec_maybe_operator(lx, s1) == spec_operator(lx, op1, s2));
}

/// The statements of a `first` expression keep their source order: reading more of
/// them after the statements `done` puts them after those, with the one read next
/// right after them.
pub proof fn law_first_keeps_order(ts: Seq<TokenV>, done: Seq<SpannedV<EntityV>>)
    ensures
        spec_first_from(ts, done).0 matches Outcome::Done(EntityV::First(xs)) ==> xs.len() > done.len()
            && xs.take(done.len() as int) == done && spec_chunk(ts).0 is Done && xs[done.len() as int]
            == spec_chunk(ts).0->Done_0,
    decreases ts.len(), 1int,
{
    let (r, ts2) = spec_chunk(ts);
    if let Outcome::Done(v) = r {
        if ts2.len() <= ts.len() {
            lemma_first_after_keeps_order(ts2, done.push(v));
            if let Outcome::Done(EntityV::First(xs)) = spec_first_after(ts2, done.push(v)).0 {
                let n = done.len() as int;
                assert(xs.take(n + 1) == done.push(v));
                assert(xs.take(n) =~= xs.take(n + 1).take(n));
                assert(done.push(v).take(n) =~= done);
                assert(xs[n] == xs.take(n + 1)[n]);
            }
        }
    }
}

proof fn lemma_first_after_keeps_order(ts: Seq<TokenV>, done: Seq<SpannedV<EntityV>>)
    ensures
        spec_first_after(ts, done).0 matches Outcome::Done(EntityV::First(xs)) ==> xs.len()
            >= done.len() && xs.take(done.len() as int) == done,
    decreases ts.len(), 0int,
{
    if ts.len() > 0 {
        let rest = ts.drop_first();
        match ts[0].inner {
            RawTokenV::Key(Key::And) => {
                law_first_keeps_order(rest, done);
            },
            RawTokenV::NewLine => {
                lemma_first_after_keeps_order(rest, done);
            },
            RawTokenV::Key(Key::Then) => {
                if let Outcome::Done(v) = spec_chunk(rest).0 {
                    assert(done.push(v).take(done.len() as int) =~= done);
                }
            },
            _ => {},
        }
    }
}

/// A whole `first` expression lists its statements in source order, starting with the
/// one read right after `first`.
pub proof fn law_first_starts_with_its_first_statement(ts: Seq<TokenV>)
    ensures
        spec_first(ts).0 matches Outcome::Done(EntityV::First(xs)) ==> xs.len() > 0 && xs[0]
            == spec_chunk(ts).0->Done_0,
{
    law_first_keeps_order(ts, Seq::empty());
}

/// The items of a list keep their source order: reading more of them after the items
/// `done` puts them after those, with the one read next right after them.
pub proof fn law_list_keeps_order(ts: Seq<TokenV>, done: Seq<SpannedV<EntityV>>)
    ensures
        spec_list_from(ts, done).0 matches Outcome::Done(EntityV::List(xs)) ==> xs.len() > done.len()
            && xs.take(done.len() as int) == done && spec_chunk(ts).0 is Done && xs[done.len() as int]
            == spec_chunk(ts).0->Done_0,
    decreases ts.len(),
{
    let (r, ts2) = spec_chunk(ts);
    if let Outcome::Done(v) = r {
        if ts2.len() <= ts.len() && ts2.len() > 0 {
            let n = done.len() as int;
            let rest = ts2.drop_first();
            if ts2[0].inner == RawTokenV::Key(Key::Comma) {
                law_list_keeps_order(rest, done.push(v));
                if let Outcome::Done(EntityV::List(xs)) = spec_list_from(rest, done.push(v)).0 {
                    assert(xs.take(n) =~= xs.take(n + 1).take(n));
                    assert(done.push(v).take(n) =~= done);
                    assert(xs[n] == xs.take(n + 1)[n]);
                }
            } else {
                assert(done.push(v).take(n) =~= done);
            }
        }
    }
}

/// The branches of an `if` expression keep their source order: reading more of them
/// after the branches `done` puts them after those, the next one holding the condition
/// read next.
pub proof fn law_if_keeps_order(
    ts: Seq<TokenV>,
    done: Seq<(SpannedV<EntityV>, SpannedV<EntityV>)>,
)
    ensures
        spec_if_from(ts, done).0 matches Outcome::Done(EntityV::If(bs, _o)) ==> bs.len() > done.len()
            && bs.take(done.len() as int) == done && spec_chunk(ts).0 is Done && bs[done.len() as int].0
            == spec_chunk(ts).0->Done_0,
    decreases ts.len(), 1int,
{
    let (r, ts2) = spec_chunk(ts);
    if let Outcome::Done(cond) = r {
        let (t, ts3) = spec_expect_then(ts2);
        if t is Done && ts3.len() < ts.len() {
            let (r2, ts4) = spec_chunk(ts3);
            if let Outcome::Done(eval) = r2 {
                if ts4.len() < ts.len() {
                    let d2 = done.push((cond, eval));
                    lemma_if_after_keeps_order(ts4, d2);
                    if let Outcome::Done(EntityV::If(bs, _o)) = spec_if_after(ts4, d2).0 {
                        let n = done.len() as int;
                        assert(bs.take(n) =~= bs.take(n + 1).take(n));
                        assert(d2.take(n) =~= done);
                        assert(bs[n] == bs.take(n + 1)[n]);
                    }
                }
            }
        }
    }
}

proof fn lemma_if_after_keeps_order(
    ts: Seq<TokenV>,
    done: Seq<(SpannedV<EntityV>, SpannedV<EntityV>)>,
)
    ensures
        spec_if_after(ts, done).0 matches Outcome::Done(EntityV::If(bs, _o)) ==> bs.len() >= done.len()
            && bs.take(done.len() as int) == done,
    decreases ts.len(), 0int,
{
    if ts.len() > 0 {
        let rest = ts.drop_first();
        match ts[0].inner {
            RawTokenV::Key(Key::Elif) => {
                law_if_keeps_order(rest, done);
            },
            RawTokenV::NewLine => {
                lemma_if_after_keeps_order(rest, done);
            },
            RawTokenV::Key(Key::Else) => {
                assert(done.take(done.len() as int) =~= done);
            },
            _ => {},
        }
    }
}

/// The fields of a record come out last first: the last of them is the field written
/// first, with the value read right after its name.
pub proof fn law_record_fields_last_first(ts: Seq<TokenV>)
    ensures
        spec_record_fields(ts).0 matches Outcome::Done(fs) ==> ts.len() > 0 && ts[0].inner is Identifier
            && fs.len() > 0 && fs.last().0 == ts[0].inner->Identifier_0.inner.name && spec_chunk(
            ts.drop_first(),
        ).0 is Done && fs.last().1 == spec_chunk(ts.drop_first()).0->Done_0,
{
}

} // verus!
