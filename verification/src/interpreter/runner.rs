use vstd::prelude::*;
use vstd::slice::slice_subrange;

use crate::interpreter::builtins::{eval_bridged, lemma_values_push};
use crate::interpreter::runtime::Runtime;
use crate::interpreter::semantics::{
    captured_values,
    captures_ok,
    prepend,
    spec_eval,
    spec_first,
    spec_if,
    spec_run,
};
use crate::ir::{
    deque_from,
    deque_view,
    duplicate_values,
    lemma_list_view,
    entities_view,
    entity_view,
    lemma_entities_map,
    lemma_pairs_map,
    lemma_values_map,
    pairs_view,
    value_view,
    values_view,
    Bridged,
    Capturable,
    Entity,
    EntityV,
    First,
    If,
    Value,
    ValueV,
};
use crate::parser::fault::Outcome;

verus! {

/// Whether `r` is what the outcome `o` gives back: its value, or `None` where
/// the fuel ran out.
pub open spec fn gives(r: Option<Value>, o: Outcome<ValueV, ()>) -> bool {
    match (r, o) {
        (Some(x), Outcome::Done(v)) => x@ == v,
        (None, Outcome::Fails(_)) => true,
        _ => false,
    }
}

/// Whether the result `r` of running is the outcome `o`: the same value, running out
/// of fuel, or a panic of the interpreter.
pub open spec fn ran_as(r: Outcome<Value, ()>, o: Outcome<ValueV, ()>) -> bool {
    match (r, o) {
        (Outcome::Done(x), Outcome::Done(v)) => x@ == v,
        (Outcome::Fails(_), Outcome::Fails(_)) => true,
        (Outcome::Panics, Outcome::Panics) => true,
        _ => false,
    }
}

/// Whether the result `r` of running several expressions is the outcome `o`.
pub open spec fn ran_all_as(r: Outcome<Vec<Value>, ()>, o: Outcome<Seq<ValueV>, ()>) -> bool {
    match (r, o) {
        (Outcome::Done(x), Outcome::Done(vs)) => values_view(x@) == vs,
        (Outcome::Fails(_), Outcome::Fails(_)) => true,
        (Outcome::Panics, Outcome::Panics) => true,
        _ => false,
    }
}

/// Putting `vs` and then `v` in front of `o` is putting `vs` followed by `v`.
proof fn lemma_prepend_push(vs: Seq<ValueV>, v: ValueV, o: Outcome<Seq<ValueV>, ()>)
    ensures
        prepend(vs, prepend(seq![v], o)) == prepend(vs.push(v), o),
{
    if let Outcome::Done(rest) = o {
        assert(vs + (seq![v] + rest) =~= vs.push(v) + rest);
    }
}

/// The model of a part of a list of expressions.
proof fn lemma_entities_subrange(s: Seq<Entity>, i: int, j: int)
    requires
        0 <= i <= j <= s.len(),
    ensures
        entities_view(s.subrange(i, j)) == entities_view(s).subrange(i, j),
        entities_view(s).len() == s.len(),
{
    lemma_entities_map(s);
    lemma_entities_map(s.subrange(i, j));
    assert(entities_view(s.subrange(i, j)) =~= entities_view(s).subrange(i, j));
}

/// Evaluates an expression of the lowered program.
pub struct Runner<'a> {
    runtime: &'a Runtime,
    entity: &'a Entity,
    params: Vec<Value>,
    captured: Vec<Value>,
}

impl<'a> Runner<'a> {
    /// Runs `entrypoint` on `params` with at most `fuel` steps; `None` where it
    /// needs more.
    pub fn start(runtime: &'a Runtime, entrypoint: &'a Entity, params: Vec<Value>, fuel: u64) -> (r:
        Option<Value>)
        requires
            !(spec_run(runtime@, fuel as nat, entrypoint@, values_view(params@), Seq::empty())
                is Panics),
        ensures
            gives(r, spec_run(runtime@, fuel as nat, entrypoint@, values_view(params@), Seq::empty())),
    {
        match Runner::try_start(runtime, entrypoint, params, fuel) {
            Outcome::Done(v) => Some(v),
            _ => None,
        }
    }

    /// Runs `entrypoint` on `params` with at most `fuel` steps, telling apart a value,
    /// running out of fuel, and the inputs on which running panics.
    pub fn try_start(runtime: &'a Runtime, entrypoint: &'a Entity, params: Vec<Value>, fuel: u64) -> (r:
        Outcome<Value, ()>)
        ensures
            ran_as(r, spec_run(runtime@, fuel as nat, entrypoint@, values_view(params@), Seq::empty())),
    {
        let runner = Runner { runtime, entity: entrypoint, params, captured: Vec::new() };
        assert(values_view(runner.captured@) =~= Seq::<ValueV>::empty());
        runner.run(fuel)
    }

    /// Runs `entity` in a runner of its own.
    fn spawn(&self, entity: &Entity, params: Vec<Value>, captured: Vec<Value>, fuel: u64) -> (r:
        Outcome<Value, ()>)
        ensures
            ran_as(
                r,
                spec_run(
                    self.runtime@,
                    fuel as nat,
                    entity@,
                    values_view(params@),
                    values_view(captured@),
                ),
            ),
        decreases fuel, 1int,
    {
        Runner { runtime: self.runtime, entity, params, captured }.run(fuel)
    }

    /// Copies of this runner's parameters.
    fn params_copy(&self) -> (r: Vec<Value>)
        ensures
            values_view(r@) == values_view(self.params@),
    {
        duplicate_values(&self.params)
    }

    /// Copies of this runner's captured values.
    fn captured_copy(&self) -> (r: Vec<Value>)
        ensures
            values_view(r@) == values_view(self.captured@),
    {
        duplicate_values(&self.captured)
    }

    /// The values that the captures take from this runner's parameters; `None` where
    /// one of them is not a parameter that exists.
    fn capture(&self, caps: &Vec<Capturable>) -> (r: Option<Vec<Value>>)
        ensures
            r is Some <==> captures_ok(caps@, values_view(self.params@)),
            r matches Some(v) ==> values_view(v@) == captured_values(
                caps@,
                values_view(self.params@),
            ),
    {
        let ghost p = values_view(self.params@);
        proof {
            lemma_values_map(self.params@);
        }
        let mut buf: Vec<Value> = Vec::new();
        let mut i: usize = 0;
        while i < caps.len()
            invariant
                i <= caps@.len(),
                p == values_view(self.params@),
                p == self.params@.map_values(|v: Value| value_view(v)),
                forall|j: int|
                    0 <= j < i ==> (#[trigger] caps@[j] matches Capturable::ParentParam(n) && n
                        < p.len()),
                buf@.len() == i,
                forall|j: int|
                    0 <= j < i ==> value_view(#[trigger] buf@[j]) == p[caps@[j]->ParentParam_0 as int],
            decreases caps@.len() - i,
        {
            match caps[i] {
                Capturable::ParentParam(n) => {
                    if (n as usize) < self.params.len() {
                        buf.push(self.params[n as usize].duplicate());
                    } else {
                        assert(!captures_ok(caps@, p)) by {
                            assert(!(caps@[i as int] matches Capturable::ParentParam(m) && m < p.len()));
                        }
                        return None;
                    }
                },
                _ => {
                    assert(!captures_ok(caps@, p)) by {
                        assert(!(caps@[i as int] matches Capturable::ParentParam(m) && m < p.len()));
                    }
                    return None;
                },
            }
            i = i + 1;
        }
        proof {
            lemma_values_map(buf@);
            assert(values_view(buf@) =~= captured_values(caps@, p));
        }
        Some(buf)
    }

    /// Runs each of `es` in turn on this runner's parameters and captured values.
    fn eval_params(&self, es: &[Entity], fuel: u64) -> (r: Outcome<Vec<Value>, ()>)
        ensures
            ran_all_as(
                r,
                spec_eval(
                    self.runtime@,
                    fuel as nat,
                    entities_view(es@),
                    values_view(self.params@),
                    values_view(self.captured@),
                ),
            ),
        decreases fuel, 2int,
    {
        let ghost rt = self.runtime@;
        let ghost p = values_view(self.params@);
        let ghost c = values_view(self.captured@);
        let ghost ev = entities_view(es@);
        let ghost goal = spec_eval(rt, fuel as nat, ev, p, c);
        proof {
            lemma_entities_map(es@);
            assert(ev.skip(0) =~= ev);
            assert(values_view(Seq::<Value>::empty()) =~= Seq::<ValueV>::empty());
            assert(prepend(Seq::empty(), spec_eval(rt, fuel as nat, ev, p, c)) == goal) by {
                if let Outcome::Done(rest) = goal {
                    assert(Seq::<ValueV>::empty() + rest =~= rest);
                }
            }
        }
        let mut out: Vec<Value> = Vec::new();
        let mut i: usize = 0;
        while i < es.len()
            invariant
                i <= es@.len(),
                ev == es@.map_values(|e: Entity| entity_view(e)),
                ev == entities_view(es@),
                rt == self.runtime@,
                p == values_view(self.params@),
                c == values_view(self.captured@),
                goal == spec_eval(rt, fuel as nat, ev, p, c),
                goal == prepend(values_view(out@), spec_eval(rt, fuel as nat, ev.skip(i as int), p, c)),
            decreases es@.len() - i,
        {
            let ghost rest = ev.skip(i as int);
            assert(rest[0] == es@[i as int]@);
            assert(rest.skip(1) =~= ev.skip(i + 1));
            let v = self.spawn(&es[i], self.params_copy(), self.captured_copy(), fuel);
            match v {
                Outcome::Fails(u) => {
                    return Outcome::Fails(u);
                },
                Outcome::Panics => {
                    return Outcome::Panics;
                },
                Outcome::Done(v) => {
                    proof {
                        lemma_prepend_push(
                            values_view(out@),
                            value_view(v),
                            spec_eval(rt, fuel as nat, ev.skip(i + 1), p, c),
                        );
                        lemma_values_push(out@, v);
                    }
                    out.push(v);
                },
            }
            i = i + 1;
        }
        assert(ev.skip(i as int).len() == 0);
        assert(values_view(out@) + Seq::<ValueV>::empty() =~= values_view(out@));
        Outcome::Done(out)
    }

    /// Builds a record from the values of `fields`.
    fn record(self, fields: &'a [Entity], fuel: u64) -> (r: Outcome<Value, ()>)
        ensures
            ran_as(
                r,
                spec_run(
                    self.runtime@,
                    fuel as nat + 1,
                    EntityV::ConstructRecord(entities_view(fields@)),
                    values_view(self.params@),
                    values_view(self.captured@),
                ),
            ),
        decreases fuel, 3int,
    {
        match self.eval_params(fields, fuel) {
            Outcome::Done(buf) => Outcome::Done(Value::Struct(buf)),
            Outcome::Fails(u) => Outcome::Fails(u),
            Outcome::Panics => Outcome::Panics,
        }
    }

    /// Calls the builtin `index` on the values of `rust_params`.
    fn rust_call(self, index: Bridged, rust_params: &'a [Entity], fuel: u64) -> (r: Outcome<Value, ()>)
        ensures
            ran_as(
                r,
                spec_run(
                    self.runtime@,
                    fuel as nat + 1,
                    EntityV::RustCall(index.0, entities_view(rust_params@)),
                    values_view(self.params@),
                    values_view(self.captured@),
                ),
            ),
        decreases fuel, 3int,
    {
        match self.eval_params(rust_params, fuel) {
            Outcome::Done(params) => match eval_bridged(index, &params) {
                Some(v) => Outcome::Done(v),
                None => Outcome::Panics,
            },
            Outcome::Fails(u) => Outcome::Fails(u),
            Outcome::Panics => Outcome::Panics,
        }
    }

    /// The value of the first branch whose condition gives `true`, else of the
    /// last expression.
    fn if_expression(self, expr: &'a If<Entity>, fuel: u64) -> (r: Outcome<Value, ()>)
        ensures
            ran_as(
                r,
                spec_if(
                    self.runtime@,
                    fuel as nat,
                    pairs_view(expr.branches@),
                    entity_view(*expr.otherwise),
                    values_view(self.params@),
                    values_view(self.captured@),
                ),
            ),
        decreases fuel, 2int,
    {
        let ghost rt = self.runtime@;
        let ghost p = values_view(self.params@);
        let ghost c = values_view(self.captured@);
        let ghost bv = pairs_view(expr.branches@);
        let ghost ow = entity_view(*expr.otherwise);
        let ghost goal = spec_if(rt, fuel as nat, bv, ow, p, c);
        proof {
            lemma_pairs_map(expr.branches@);
            assert(bv.skip(0) =~= bv);
        }
        let mut i: usize = 0;
        while i < expr.branches.len()
            invariant
                i <= expr.branches@.len(),
                bv == expr.branches@.map_values(
                    |q: (Entity, Entity)| (entity_view(q.0), entity_view(q.1)),
                ),
                bv == pairs_view(expr.branches@),
                goal == spec_if(rt, fuel as nat, bv, ow, p, c),
                ow == entity_view(*expr.otherwise),
                rt == self.runtime@,
                p == values_view(self.params@),
                c == values_view(self.captured@),
                goal == spec_if(rt, fuel as nat, bv.skip(i as int), ow, p, c),
            decreases expr.branches@.len() - i,
        {
            let ghost rest = bv.skip(i as int);
            assert(rest[0] == (expr.branches@[i as int].0@, expr.branches@[i as int].1@));
            assert(rest.skip(1) =~= bv.skip(i + 1));
            let cond = self.spawn(&expr.branches[i].0, self.params_copy(), self.captured_copy(), fuel);
            match cond {
                Outcome::Fails(u) => {
                    return Outcome::Fails(u);
                },
                Outcome::Panics => {
                    return Outcome::Panics;
                },
                Outcome::Done(Value::Bool(true)) => {
                    let mut this = self;
                    this.entity = &expr.branches[i].1;
                    return this.run(fuel);
                },
                Outcome::Done(_) => {},
            }
            i = i + 1;
        }
        let mut this = self;
        this.entity = &*expr.otherwise;
        this.run(fuel)
    }

    /// Runs the statements of `stmt` for their effects, then its last expression.
    fn first_statement(self, stmt: &'a First<Entity>, fuel: u64) -> (r: Outcome<Value, ()>)
        ensures
            ran_as(
                r,
                spec_first(
                    self.runtime@,
                    fuel as nat,
                    entities_view(stmt.to_void@),
                    entity_view(*stmt.to_eval),
                    values_view(self.params@),
                    values_view(self.captured@),
                ),
            ),
        decreases fuel, 2int,
    {
        let ghost rt = self.runtime@;
        let ghost p = values_view(self.params@);
        let ghost c = values_view(self.captured@);
        let ghost tv = entities_view(stmt.to_void@);
        let ghost te = entity_view(*stmt.to_eval);
        let ghost goal = spec_first(rt, fuel as nat, tv, te, p, c);
        proof {
            lemma_entities_map(stmt.to_void@);
            assert(tv.skip(0) =~= tv);
        }
        let mut i: usize = 0;
        while i < stmt.to_void.len()
            invariant
                i <= stmt.to_void@.len(),
                tv == stmt.to_void@.map_values(|e: Entity| entity_view(e)),
                tv == entities_view(stmt.to_void@),
                goal == spec_first(rt, fuel as nat, tv, te, p, c),
                te == entity_view(*stmt.to_eval),
                rt == self.runtime@,
                p == values_view(self.params@),
                c == values_view(self.captured@),
                goal == spec_first(rt, fuel as nat, tv.skip(i as int), te, p, c),
            decreases stmt.to_void@.len() - i,
        {
            let ghost rest = tv.skip(i as int);
            assert(rest[0] == stmt.to_void@[i as int]@);
            assert(rest.skip(1) =~= tv.skip(i + 1));
            let v = self.spawn(&stmt.to_void[i], self.params_copy(), self.captured_copy(), fuel);
            match v {
                Outcome::Fails(u) => {
                    return Outcome::Fails(u);
                },
                Outcome::Panics => {
                    return Outcome::Panics;
                },
                Outcome::Done(_) => {},
            }
            i = i + 1;
        }
        let mut this = self;
        this.entity = &*stmt.to_eval;
        this.run(fuel)
    }

    /// A list of the values of `list`; the last is computed by this runner.
    fn list(self, list: &'a [Entity], fuel: u64) -> (r: Outcome<Value, ()>)
        ensures
            ran_as(
                r,
                spec_run(
                    self.runtime@,
                    fuel as nat + 1,
                    EntityV::List(entities_view(list@)),
                    values_view(self.params@),
                    values_view(self.captured@),
                ),
            ),
        decreases fuel, 3int,
    {
        proof {
            lemma_entities_map(list@);
        }
        let n = list.len();
        if n == 0 {
            return Outcome::Panics;
        }
        let init = slice_subrange(list, 0, n - 1);
        proof {
            lemma_entities_subrange(list@, 0, n - 1);
            assert(entities_view(list@).subrange(0, n - 1) =~= entities_view(list@).drop_last());
        }
        let buf = match self.eval_params(init, fuel) {
            Outcome::Done(buf) => buf,
            Outcome::Fails(u) => {
                return Outcome::Fails(u);
            },
            Outcome::Panics => {
                return Outcome::Panics;
            },
        };
        let mut items = deque_from(&buf);
        let mut this = self;
        this.entity = &list[n - 1];
        match this.run(fuel) {
            Outcome::Done(v) => {
                let ghost before = items;
                items.push_back(v);
                assert(deque_view(items) =~= deque_view(before).push(value_view(v)));
                proof {
                    lemma_list_view(items);
                }
                Outcome::Done(Value::List(items))
            },
            Outcome::Fails(u) => Outcome::Fails(u),
            Outcome::Panics => Outcome::Panics,
        }
    }

    /// Runs this runner's expression to its value.
    #[verifier::loop_isolation(false)]
    fn run(self, fuel: u64) -> (r: Outcome<Value, ()>)
        ensures
            ran_as(
                r,
                spec_run(
                    self.runtime@,
                    fuel as nat,
                    self.entity@,
                    values_view(self.params@),
                    values_view(self.captured@),
                ),
            ),
        decreases fuel, 0int,
    {
        let ghost rt = self.runtime@;
        let ghost goal = spec_run(
            rt,
            fuel as nat,
            self.entity@,
            values_view(self.params@),
            values_view(self.captured@),
        );
        let mut this = self;
        let mut left: u64 = fuel;
        loop
            invariant
                left <= fuel,
                rt == this.runtime@,
                goal == spec_run(
                    rt,
                    left as nat,
                    this.entity@,
                    values_view(this.params@),
                    values_view(this.captured@),
                ),
            decreases left,
        {
            if left == 0 {
                return Outcome::Fails(());
            }
            let f: u64 = left - 1;
            let entity: &'a Entity = this.entity;
            proof {
                lemma_values_map(this.params@);
                lemma_values_map(this.captured@);
            }
            match entity {
                Entity::RustCall(index, ps) => {
                    return this.rust_call(*index, ps.as_slice(), f);
                },
                Entity::Parameter(n) => {
                    if (*n as usize) < this.params.len() {
                        return Outcome::Done(this.params[*n as usize].duplicate());
                    }
                    return Outcome::Panics;
                },
                Entity::Inlined(v) => {
                    return Outcome::Done(v.duplicate());
                },
                Entity::IfExpression(expr) => {
                    return this.if_expression(expr, f);
                },
                Entity::FirstStatement(stmt) => {
                    return this.first_statement(stmt, f);
                },
                Entity::List(list) => {
                    return this.list(list.as_slice(), f);
                },
                Entity::ParameterCall(paramid, ps) => {
                    let evaluated = match this.eval_params(ps.as_slice(), f) {
                        Outcome::Done(evaluated) => evaluated,
                        Outcome::Fails(u) => {
                            return Outcome::Fails(u);
                        },
                        Outcome::Panics => {
                            return Outcome::Panics;
                        },
                    };
                    if (*paramid as usize) >= this.params.len() {
                        return Outcome::Panics;
                    }
                    let callee = this.params[*paramid as usize].duplicate();
                    return match callee {
                        Value::Function(b) => {
                            let (body, captured) = *b;
                            this.spawn(&body, evaluated, captured, f)
                        },
                        _ => Outcome::Panics,
                    };
                },
                Entity::CapturedCall(capid, ps) => {
                    let evaluated = match this.eval_params(ps.as_slice(), f) {
                        Outcome::Done(evaluated) => evaluated,
                        Outcome::Fails(u) => {
                            return Outcome::Fails(u);
                        },
                        Outcome::Panics => {
                            return Outcome::Panics;
                        },
                    };
                    if (*capid as usize) >= this.captured.len() {
                        return Outcome::Panics;
                    }
                    let callee = this.captured[*capid as usize].duplicate();
                    return match callee {
                        Value::Function(b) => {
                            let (body, captured) = *b;
                            this.spawn(&body, evaluated, captured, f)
                        },
                        _ => Outcome::Panics,
                    };
                },
                Entity::Captured(n) => {
                    if (*n as usize) < this.captured.len() {
                        return Outcome::Done(this.captured[*n as usize].duplicate());
                    }
                    return Outcome::Panics;
                },
                Entity::Lambda(all, to_capture) => {
                    proof {
                        lemma_entities_map(all@);
                    }
                    if all.len() == 0 {
                        return Outcome::Panics;
                    }
                    let buf = match this.capture(to_capture) {
                        Some(buf) => buf,
                        None => {
                            return Outcome::Panics;
                        },
                    };
                    let entries = slice_subrange(all.as_slice(), 1, all.len());
                    proof {
                        lemma_entities_subrange(all@, 1, all@.len() as int);
                        assert(entities_view(all@).subrange(1, all@.len() as int) =~= entities_view(
                            all@,
                        ).skip(1));
                    }
                    let params = match this.eval_params(entries, f) {
                        Outcome::Done(params) => params,
                        Outcome::Fails(u) => {
                            return Outcome::Fails(u);
                        },
                        Outcome::Panics => {
                            return Outcome::Panics;
                        },
                    };
                    this.params = params;
                    this.captured = buf;
                    this.entity = &all[0];
                    left = f;
                },
                Entity::FunctionCall(findex, ps) => {
                    let params = match this.eval_params(ps.as_slice(), f) {
                        Outcome::Done(params) => params,
                        Outcome::Fails(u) => {
                            return Outcome::Fails(u);
                        },
                        Outcome::Panics => {
                            return Outcome::Panics;
                        },
                    };
                    let runtime: &'a Runtime = this.runtime;
                    proof {
                        lemma_entities_map(runtime.instructions@);
                    }
                    if (*findex as usize) >= runtime.instructions.len() {
                        return Outcome::Panics;
                    }
                    this.params = params;
                    this.entity = &runtime.instructions[*findex as usize];
                    left = f;
                },
                Entity::LambdaPointer(b) => {
                    return match this.capture(&b.1) {
                        Some(captured) => Outcome::Done(
                            Value::Function(Box::new((b.0.duplicate(), captured))),
                        ),
                        None => Outcome::Panics,
                    };
                },
                Entity::ConstructRecord(fields) => {
                    return this.record(fields.as_slice(), f);
                },
                Entity::Unimplemented => {
                    return Outcome::Panics;
                },
                Entity::Unique => {
                    return Outcome::Panics;
                },
            }
        }
    }
}

} // verus!
