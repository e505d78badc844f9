use vstd::prelude::*;

use crate::ir::bridge::{spec_funcid, NaiveTypeV};
use crate::ir::{Capturable, EntityV, ValueV};
use crate::parser::types::TypeV;
use crate::parser::fault::Outcome;

verus! {

/// What a builtin computes from its arguments on two integers, `None` where the
/// operation overflows or divides by zero.
pub open spec fn spec_arith(id: u16, x: i64, y: i64) -> Option<i64> {
    if id == 0 {
        x.checked_add(y)
    } else if id == 1 {
        x.checked_sub(y)
    } else if id == 2 {
        x.checked_mul(y)
    } else {
        x.checked_div(y)
    }
}

/// The builtin with index `id` applied to `args`: `add`, `sub`, `mul`, `div` on
/// two integers, `push_back(x, list)`, `push_front(x, list)`, `get(i, list)` and
/// `len(list)`. It panics on arguments of the wrong kind, on an index out of
/// range, on overflow and on a division by zero.
pub open spec fn spec_bridged(id: u16, args: Seq<ValueV>) -> Outcome<ValueV, ()> {
    if id <= 3 {
        if args.len() >= 2 && args[0] is Int && args[1] is Int {
            match spec_arith(id, args[0]->Int_0, args[1]->Int_0) {
                Some(n) => Outcome::Done(ValueV::Int(n)),
                None => Outcome::Panics,
            }
        } else {
            Outcome::Panics
        }
    } else if id == 4 {
        if args.len() >= 2 && args[1] is List {
            Outcome::Done(ValueV::List(args[1]->List_0.push(args[0])))
        } else {
            Outcome::Panics
        }
    } else if id == 5 {
        if args.len() >= 2 && args[1] is List {
            Outcome::Done(ValueV::List(seq![args[0]] + args[1]->List_0))
        } else {
            Outcome::Panics
        }
    } else if id == 6 {
        if args.len() >= 2 && args[0] is Int && args[1] is List && 0 <= args[0]->Int_0
            < args[1]->List_0.len() {
            Outcome::Done(args[1]->List_0[args[0]->Int_0 as int])
        } else {
            Outcome::Panics
        }
    } else if id == 7 {
        if args.len() >= 1 && args[0] is List {
            Outcome::Done(ValueV::Int(args[0]->List_0.len() as i64))
        } else {
            Outcome::Panics
        }
    } else {
        Outcome::Panics
    }
}

/// Whether each capture names a parameter that exists.
pub open spec fn captures_ok(caps: Seq<Capturable>, params: Seq<ValueV>) -> bool {
    forall|i: int|
        0 <= i < caps.len() ==> (#[trigger] caps[i] matches Capturable::ParentParam(n) && n
            < params.len())
}

/// The values that the captures take from the parameters.
pub open spec fn captured_values(caps: Seq<Capturable>, params: Seq<ValueV>) -> Seq<ValueV> {
    caps.map_values(|c: Capturable| params[c->ParentParam_0 as int])
}

/// `vs` put in front of the values of `o`.
pub open spec fn prepend(vs: Seq<ValueV>, o: Outcome<Seq<ValueV>, ()>) -> Outcome<
    Seq<ValueV>,
    (),
> {
    match o {
        Outcome::Done(rest) => Outcome::Done(vs + rest),
        Outcome::Fails(u) => Outcome::Fails(u),
        Outcome::Panics => Outcome::Panics,
    }
}

/// The result of running `e` with `fuel` steps left, over the functions `rt`, the
/// parameters `p` and the captured values `c`. Each step uses one unit of fuel;
/// running out gives `Fails`, and `Panics` stands for a panic of the interpreter.
pub open spec fn spec_run(
    rt: Seq<EntityV>,
    fuel: nat,
    e: EntityV,
    p: Seq<ValueV>,
    c: Seq<ValueV>,
) -> Outcome<ValueV, ()>
    decreases fuel, 0int,
{
    if fuel == 0 {
        Outcome::Fails(())
    } else {
        let f = (fuel - 1) as nat;
        match e {
            EntityV::RustCall(id, ps) => match spec_eval(rt, f, ps, p, c) {
                Outcome::Done(args) => spec_bridged(id, args),
                Outcome::Fails(u) => Outcome::Fails(u),
                Outcome::Panics => Outcome::Panics,
            },
            EntityV::Parameter(n) => if n < p.len() {
                Outcome::Done(p[n as int])
            } else {
                Outcome::Panics
            },
            EntityV::Inlined(v) => Outcome::Done(v),
            EntityV::IfExpression(branches, otherwise) => spec_if(
                rt,
                f,
                branches,
                *otherwise,
                p,
                c,
            ),
            EntityV::FirstStatement(to_void, to_eval) => spec_first(rt, f, to_void, *to_eval, p, c),
            EntityV::List(es) => if es.len() == 0 {
                Outcome::Panics
            } else {
                match spec_eval(rt, f, es.drop_last(), p, c) {
                    Outcome::Done(vs) => match spec_run(rt, f, es.last(), p, c) {
                        Outcome::Done(v) => Outcome::Done(ValueV::List(vs.push(v))),
                        Outcome::Fails(u) => Outcome::Fails(u),
                        Outcome::Panics => Outcome::Panics,
                    },
                    Outcome::Fails(u) => Outcome::Fails(u),
                    Outcome::Panics => Outcome::Panics,
                }
            },
            EntityV::ParameterCall(n, ps) => match spec_eval(rt, f, ps, p, c) {
                Outcome::Done(args) => if n < p.len() && p[n as int] is Function {
                    spec_run(rt, f, *(p[n as int]->Function_0), args, p[n as int]->Function_1)
                } else {
                    Outcome::Panics
                },
                Outcome::Fails(u) => Outcome::Fails(u),
                Outcome::Panics => Outcome::Panics,
            },
            EntityV::CapturedCall(n, ps) => match spec_eval(rt, f, ps, p, c) {
                Outcome::Done(args) => if n < c.len() && c[n as int] is Function {
                    spec_run(rt, f, *(c[n as int]->Function_0), args, c[n as int]->Function_1)
                } else {
                    Outcome::Panics
                },
                Outcome::Fails(u) => Outcome::Fails(u),
                Outcome::Panics => Outcome::Panics,
            },
            EntityV::Captured(n) => if n < c.len() {
                Outcome::Done(c[n as int])
            } else {
                Outcome::Panics
            },
            EntityV::Lambda(all, caps) => if all.len() == 0 || !captures_ok(caps, p) {
                Outcome::Panics
            } else {
                match spec_eval(rt, f, all.skip(1), p, c) {
                    Outcome::Done(args) => spec_run(rt, f, all[0], args, captured_values(caps, p)),
                    Outcome::Fails(u) => Outcome::Fails(u),
                    Outcome::Panics => Outcome::Panics,
                }
            },
            EntityV::FunctionCall(k, ps) => match spec_eval(rt, f, ps, p, c) {
                Outcome::Done(args) => if k < rt.len() {
                    spec_run(rt, f, rt[k as int], args, c)
                } else {
                    Outcome::Panics
                },
                Outcome::Fails(u) => Outcome::Fails(u),
                Outcome::Panics => Outcome::Panics,
            },
            EntityV::LambdaPointer(inner, caps) => if captures_ok(caps, p) {
                Outcome::Done(ValueV::Function(inner, captured_values(caps, p)))
            } else {
                Outcome::Panics
            },
            EntityV::ConstructRecord(fields) => match spec_eval(rt, f, fields, p, c) {
                Outcome::Done(vs) => Outcome::Done(ValueV::Struct(vs)),
                Outcome::Fails(u) => Outcome::Fails(u),
                Outcome::Panics => Outcome::Panics,
            },
            EntityV::Unimplemented => Outcome::Panics,
            EntityV::Unique => Outcome::Panics,
        }
    }
}

/// The results of running each of `es` in turn, each with `fuel` steps left,
/// stopping at the first that does not give a value.
pub open spec fn spec_eval(
    rt: Seq<EntityV>,
    fuel: nat,
    es: Seq<EntityV>,
    p: Seq<ValueV>,
    c: Seq<ValueV>,
) -> Outcome<Seq<ValueV>, ()>
    decreases fuel, es.len(),
{
    if es.len() == 0 {
        Outcome::Done(Seq::empty())
    } else {
        match spec_run(rt, fuel, es[0], p, c) {
            Outcome::Done(v) => prepend(seq![v], spec_eval(rt, fuel, es.skip(1), p, c)),
            Outcome::Fails(u) => Outcome::Fails(u),
            Outcome::Panics => Outcome::Panics,
        }
    }
}

/// A conditional: the value of the first branch whose condition gives `true`,
/// else that of `otherwise`.
pub open spec fn spec_if(
    rt: Seq<EntityV>,
    fuel: nat,
    branches: Seq<(EntityV, EntityV)>,
    otherwise: EntityV,
    p: Seq<ValueV>,
    c: Seq<ValueV>,
) -> Outcome<ValueV, ()>
    decreases fuel, branches.len() + 1,
{
    if branches.len() == 0 {
        spec_run(rt, fuel, otherwise, p, c)
    } else {
        match spec_run(rt, fuel, branches[0].0, p, c) {
            Outcome::Done(ValueV::Bool(true)) => spec_run(rt, fuel, branches[0].1, p, c),
            Outcome::Done(_) => spec_if(rt, fuel, branches.skip(1), otherwise, p, c),
            Outcome::Fails(u) => Outcome::Fails(u),
            Outcome::Panics => Outcome::Panics,
        }
    }
}

/// Statements run for their effects and their values dropped, then `to_eval`.
pub open spec fn spec_first(
    rt: Seq<EntityV>,
    fuel: nat,
    to_void: Seq<EntityV>,
    to_eval: EntityV,
    p: Seq<ValueV>,
    c: Seq<ValueV>,
) -> Outcome<ValueV, ()>
    decreases fuel, to_void.len() + 1,
{
    if to_void.len() == 0 {
        spec_run(rt, fuel, to_eval, p, c)
    } else {
        match spec_run(rt, fuel, to_void[0], p, c) {
            Outcome::Done(_) => spec_first(rt, fuel, to_void.skip(1), to_eval, p, c),
            Outcome::Fails(u) => Outcome::Fails(u),
            Outcome::Panics => Outcome::Panics,
        }
    }
}


/// Fuel only bounds a run: once a run ends with a value or a panic, running it
/// with more fuel ends the same way.
pub proof fn law_run_fuel_monotone(
    rt: Seq<EntityV>,
    n: nat,
    m: nat,
    e: EntityV,
    p: Seq<ValueV>,
    c: Seq<ValueV>,
)
    requires
        n <= m,
        !(spec_run(rt, n, e, p, c) is Fails),
    ensures
        spec_run(rt, m, e, p, c) == spec_run(rt, n, e, p, c),
    decreases n, 0int,
{
    if n > 0 {
        let f = (n - 1) as nat;
        let g = (m - 1) as nat;
        match e {
            EntityV::RustCall(id, ps) => {
                lemma_eval_fuel_monotone(rt, f, g, ps, p, c);
            },
            EntityV::IfExpression(branches, otherwise) => {
                lemma_if_fuel_monotone(rt, f, g, branches, *otherwise, p, c);
            },
            EntityV::FirstStatement(to_void, to_eval) => {
                lemma_first_fuel_monotone(rt, f, g, to_void, *to_eval, p, c);
            },
            EntityV::List(es) => {
                if es.len() > 0 {
                    lemma_eval_fuel_monotone(rt, f, g, es.drop_last(), p, c);
                    if spec_eval(rt, f, es.drop_last(), p, c) is Done {
                        law_run_fuel_monotone(rt, f, g, es.last(), p, c);
                    }
                }
            },
            EntityV::ParameterCall(k, ps) => {
                lemma_eval_fuel_monotone(rt, f, g, ps, p, c);
                if let Outcome::Done(args) = spec_eval(rt, f, ps, p, c) {
                    if k < p.len() && p[k as int] is Function {
                        law_run_fuel_monotone(
                            rt,
                            f,
                            g,
                            *(p[k as int]->Function_0),
                            args,
                            p[k as int]->Function_1,
                        );
                    }
                }
            },
            EntityV::CapturedCall(k, ps) => {
                lemma_eval_fuel_monotone(rt, f, g, ps, p, c);
                if let Outcome::Done(args) = spec_eval(rt, f, ps, p, c) {
                    if k < c.len() && c[k as int] is Function {
                        law_run_fuel_monotone(
                            rt,
                            f,
                            g,
                            *(c[k as int]->Function_0),
                            args,
                            c[k as int]->Function_1,
                        );
                    }
                }
            },
            EntityV::Lambda(all, caps) => {
                if all.len() > 0 && captures_ok(caps, p) {
                    lemma_eval_fuel_monotone(rt, f, g, all.skip(1), p, c);
                    if let Outcome::Done(args) = spec_eval(rt, f, all.skip(1), p, c) {
                        law_run_fuel_monotone(rt, f, g, all[0], args, captured_values(caps, p));
                    }
                }
            },
            EntityV::FunctionCall(k, ps) => {
                lemma_eval_fuel_monotone(rt, f, g, ps, p, c);
                if let Outcome::Done(args) = spec_eval(rt, f, ps, p, c) {
                    if k < rt.len() {
                        law_run_fuel_monotone(rt, f, g, rt[k as int], args, c);
                    }
                }
            },
            EntityV::ConstructRecord(fields) => {
                lemma_eval_fuel_monotone(rt, f, g, fields, p, c);
            },
            _ => {},
        }
    }
}

proof fn lemma_eval_fuel_monotone(
    rt: Seq<EntityV>,
    n: nat,
    m: nat,
    es: Seq<EntityV>,
    p: Seq<ValueV>,
    c: Seq<ValueV>,
)
    requires
        n <= m,
    ensures
        !(spec_eval(rt, n, es, p, c) is Fails) ==> spec_eval(rt, m, es, p, c) == spec_eval(
            rt,
            n,
            es,
            p,
            c,
        ),
    decreases n, es.len(),
{
    if es.len() > 0 && !(spec_eval(rt, n, es, p, c) is Fails) {
        law_run_fuel_monotone(rt, n, m, es[0], p, c);
        if spec_run(rt, n, es[0], p, c) is Done {
            lemma_eval_fuel_monotone(rt, n, m, es.skip(1), p, c);
        }
    }
}

proof fn lemma_if_fuel_monotone(
    rt: Seq<EntityV>,
    n: nat,
    m: nat,
    branches: Seq<(EntityV, EntityV)>,
    otherwise: EntityV,
    p: Seq<ValueV>,
    c: Seq<ValueV>,
)
    requires
        n <= m,
    ensures
        !(spec_if(rt, n, branches, otherwise, p, c) is Fails) ==> spec_if(
            rt,
            m,
            branches,
            otherwise,
            p,
            c,
        ) == spec_if(rt, n, branches, otherwise, p, c),
    decreases n, branches.len() + 1,
{
    if !(spec_if(rt, n, branches, otherwise, p, c) is Fails) {
        if branches.len() == 0 {
            law_run_fuel_monotone(rt, n, m, otherwise, p, c);
        } else {
            law_run_fuel_monotone(rt, n, m, branches[0].0, p, c);
            match spec_run(rt, n, branches[0].0, p, c) {
                Outcome::Done(ValueV::Bool(true)) => {
                    law_run_fuel_monotone(rt, n, m, branches[0].1, p, c);
                },
                Outcome::Done(_) => {
                    lemma_if_fuel_monotone(rt, n, m, branches.skip(1), otherwise, p, c);
                },
                _ => {},
            }
        }
    }
}

proof fn lemma_first_fuel_monotone(
    rt: Seq<EntityV>,
    n: nat,
    m: nat,
    to_void: Seq<EntityV>,
    to_eval: EntityV,
    p: Seq<ValueV>,
    c: Seq<ValueV>,
)
    requires
        n <= m,
    ensures
        !(spec_first(rt, n, to_void, to_eval, p, c) is Fails) ==> spec_first(
            rt,
            m,
            to_void,
            to_eval,
            p,
            c,
        ) == spec_first(rt, n, to_void, to_eval, p, c),
    decreases n, to_void.len() + 1,
{
    if !(spec_first(rt, n, to_void, to_eval, p, c) is Fails) {
        if to_void.len() == 0 {
            law_run_fuel_monotone(rt, n, m, to_eval, p, c);
        } else {
            law_run_fuel_monotone(rt, n, m, to_void[0], p, c);
            if spec_run(rt, n, to_void[0], p, c) is Done {
                lemma_first_fuel_monotone(rt, n, m, to_void.skip(1), to_eval, p, c);
            }
        }
    }
}


/// The result type that the builtin table gives each builtin agrees with what the
/// interpreter's builtin of the same index returns: the arithmetic builtins return the
/// type of their first operand, `push_back` and `push_front` the list they are given,
/// `get` an item of that list, and `len` an integer.
pub proof fn law_builtin_types_match_results(name: Seq<char>, args: Seq<ValueV>)
    requires
        spec_funcid(name) is Some,
    ensures
        ({
            let (id, t) = spec_funcid(name)->Some_0;
            let out = spec_bridged(id, args);
            &&& id <= 7
            &&& id <= 3 ==> t == NaiveTypeV::Matching(0) && (out is Done ==> args[0] is Int
                && out->Done_0 is Int)
            &&& (id == 4 || id == 5) ==> t == NaiveTypeV::Matching(1) && (out is Done ==> args[1] is List
                && out->Done_0 is List)
            &&& id == 6 ==> t == NaiveTypeV::UnlistedMatching(1) && (out is Done ==> args[1] is List
                && args[1]->List_0.contains(out->Done_0))
            &&& id == 7 ==> t == NaiveTypeV::Known(TypeV::Int) && (out is Done ==> out->Done_0 is Int)
        }),
{
    let (id, t) = spec_funcid(name)->Some_0;
    if id == 6 && spec_bridged(id, args) is Done {
        let l = args[1]->List_0;
        let k = args[0]->Int_0 as int;
        assert(l[k] == spec_bridged(id, args)->Done_0);
    }
}

/// A lambda's captured values are read by their place: running a lambda whose body
/// reads capture `i` gives the parameter that capture `i` names.
pub proof fn law_lambda_reads_its_captures(
    rt: Seq<EntityV>,
    fuel: nat,
    i: u16,
    caps: Seq<Capturable>,
    p: Seq<ValueV>,
    c: Seq<ValueV>,
)
    requires
        fuel >= 2,
        i < caps.len(),
        captures_ok(caps, p),
    ensures
        spec_run(rt, fuel, EntityV::Lambda(seq![EntityV::Captured(i)], caps), p, c)
            == Outcome::<ValueV, ()>::Done(p[caps[i as int]->ParentParam_0 as int]),
{
    let all = seq![EntityV::Captured(i)];
    let f = (fuel - 1) as nat;
    assert(all.skip(1) =~= Seq::<EntityV>::empty());
    assert(spec_eval(rt, f, all.skip(1), p, c) == Outcome::<Seq<ValueV>, ()>::Done(Seq::empty()));
    let cv = captured_values(caps, p);
    assert(cv.len() == caps.len());
    assert(spec_run(rt, f, EntityV::Captured(i), Seq::empty(), cv) == Outcome::<ValueV, ()>::Done(
        cv[i as int],
    ));
}

/// Captured values and parameters are read by their place from the front: capture
/// (or parameter) `n` reads the same value whatever follows the first `n + 1` of
/// them, and the first of them is read as `0`.
pub proof fn law_reads_count_from_the_front(
    rt: Seq<EntityV>,
    fuel: nat,
    n: u16,
    p: Seq<ValueV>,
    c: Seq<ValueV>,
    d: Seq<ValueV>,
)
    requires
        fuel >= 1,
        n < c.len(),
    ensures
        spec_run(rt, fuel, EntityV::Captured(n), p, c + d) == spec_run(
            rt,
            fuel,
            EntityV::Captured(n),
            p,
            c,
        ),
        spec_run(rt, fuel, EntityV::Parameter(n), c + d, p) == spec_run(
            rt,
            fuel,
            EntityV::Parameter(n),
            c,
            p,
        ),
        spec_run(rt, fuel, EntityV::Captured(0), p, c) == Outcome::<ValueV, ()>::Done(c[0]),
        spec_run(rt, fuel, EntityV::Parameter(0), c, p) == Outcome::<ValueV, ()>::Done(c[0]),
{
}

/// Expressions are run in order: running literals one after the other gives their
/// values in the order they are written.
pub proof fn law_eval_in_order(rt: Seq<EntityV>, fuel: nat, es: Seq<EntityV>, p: Seq<ValueV>, c: Seq<ValueV>)
    requires
        fuel >= 1,
        forall|i: int| 0 <= i < es.len() ==> #[trigger] es[i] is Inlined,
    ensures
        spec_eval(rt, fuel, es, p, c) == Outcome::<Seq<ValueV>, ()>::Done(
            es.map_values(|e: EntityV| e->Inlined_0),
        ),
    decreases es.len(),
{
    if es.len() == 0 {
        assert(es.map_values(|e: EntityV| e->Inlined_0) =~= Seq::<ValueV>::empty());
    } else {
        let rest = es.skip(1);
        assert forall|i: int| 0 <= i < rest.len() implies #[trigger] rest[i] is Inlined by {
            assert(rest[i] == es[i + 1]);
        }
        law_eval_in_order(rt, fuel, rest, p, c);
        assert(es[0] is Inlined);
        assert(spec_run(rt, fuel, es[0], p, c) == Outcome::<ValueV, ()>::Done(es[0]->Inlined_0));
        assert(seq![es[0]->Inlined_0] + rest.map_values(|e: EntityV| e->Inlined_0)
            =~= es.map_values(|e: EntityV| e->Inlined_0));
    }
}

/// The list builtins agree with each other: after `push_back(x, l)` the item at the
/// old length is `x`; after `push_front(x, l)` the first item is `x` and the others
/// are those of `l`, one place on; and either push makes the list one longer.
pub proof fn law_list_builtins_agree(x: ValueV, l: Seq<ValueV>, i: i64)
    requires
        l.len() < i64::MAX,
    ensures
        ({
            let back = spec_bridged(4, seq![x, ValueV::List(l)]);
            let front = spec_bridged(5, seq![x, ValueV::List(l)]);
            &&& back is Done && front is Done
            &&& spec_bridged(6, seq![ValueV::Int(l.len() as i64), back->Done_0])
                == Outcome::<ValueV, ()>::Done(x)
            &&& spec_bridged(6, seq![ValueV::Int(0), front->Done_0]) == Outcome::<ValueV, ()>::Done(x)
            &&& (0 <= i < l.len() ==> spec_bridged(6, seq![ValueV::Int((i + 1) as i64), front->Done_0])
                == spec_bridged(6, seq![ValueV::Int(i), ValueV::List(l)]))
            &&& (0 <= i < l.len() ==> spec_bridged(6, seq![ValueV::Int(i), back->Done_0])
                == spec_bridged(6, seq![ValueV::Int(i), ValueV::List(l)]))
            &&& spec_bridged(7, seq![back->Done_0]) == Outcome::<ValueV, ()>::Done(
                ValueV::Int((l.len() + 1) as i64),
            )
            &&& spec_bridged(7, seq![front->Done_0]) == Outcome::<ValueV, ()>::Done(
                ValueV::Int((l.len() + 1) as i64),
            )
        }),
{
    let a = seq![x, ValueV::List(l)];
    assert(a[1] is List && a[1]->List_0 == l);
    let fl = seq![x] + l;
    assert(fl[0] == x);
    if 0 <= i < l.len() {
        assert(fl[i + 1] == l[i as int]);
        assert(l.push(x)[i as int] == l[i as int]);
    }
}

} // verus!
