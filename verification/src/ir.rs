pub mod bridge;

use std::collections::VecDeque;

use vstd::prelude::*;
use vstd::std_specs::vecdeque::VecDequeAdditionalSpecFns;

verus! {

/// The index of a builtin function written in Rust.
#[derive(PartialEq, Eq, Structural, Clone, Copy, Debug)]
pub struct Bridged(pub u16);

/// A value that a lambda takes from the function it is written in.
#[derive(PartialEq, Eq, Structural, Clone, Copy, Debug)]
pub enum Capturable {
    ParentParam(u16),
    ParentLambda(u16),
    ParentWhere(u16),
}

/// A value of the running program.
pub enum Value {
    Int(i64),
    Bool(bool),
    Nothing,
    List(VecDeque<Value>),
    Struct(Vec<Value>),
    Function(Box<(Entity, Vec<Value>)>),
}

/// The branches of a conditional: each condition with its value, and the value
/// where no condition holds.
pub struct If<T> {
    pub branches: Vec<(T, T)>,
    pub otherwise: Box<T>,
}

/// Statements run for their effects, then the expression that gives the value.
pub struct First<T> {
    pub to_void: Vec<T>,
    pub to_eval: Box<T>,
}

/// An expression of the lowered program that the interpreter runs.
pub enum Entity {
    RustCall(Bridged, Vec<Entity>),
    Parameter(u16),
    Inlined(Value),
    IfExpression(If<Entity>),
    FirstStatement(First<Entity>),
    List(Vec<Entity>),
    ParameterCall(u16, Vec<Entity>),
    CapturedCall(u16, Vec<Entity>),
    Captured(u16),
    /// The body followed by the parameters it is called with, and what it captures.
    Lambda(Vec<Entity>, Vec<Capturable>),
    FunctionCall(u32, Vec<Entity>),
    LambdaPointer(Box<(Entity, Vec<Capturable>)>),
    ConstructRecord(Vec<Entity>),
    Unimplemented,
    Unique,
}

/// The model of a [`Value`].
pub enum ValueV {
    Int(i64),
    Bool(bool),
    Nothing,
    List(Seq<ValueV>),
    Struct(Seq<ValueV>),
    Function(Box<EntityV>, Seq<ValueV>),
}

/// The model of an [`Entity`].
pub enum EntityV {
    RustCall(u16, Seq<EntityV>),
    Parameter(u16),
    Inlined(ValueV),
    IfExpression(Seq<(EntityV, EntityV)>, Box<EntityV>),
    FirstStatement(Seq<EntityV>, Box<EntityV>),
    List(Seq<EntityV>),
    ParameterCall(u16, Seq<EntityV>),
    CapturedCall(u16, Seq<EntityV>),
    Captured(u16),
    Lambda(Seq<EntityV>, Seq<Capturable>),
    FunctionCall(u32, Seq<EntityV>),
    LambdaPointer(Box<EntityV>, Seq<Capturable>),
    ConstructRecord(Seq<EntityV>),
    Unimplemented,
    Unique,
}

pub open spec fn value_view(v: Value) -> ValueV
    decreases v,
{
    match v {
        Value::Int(n) => ValueV::Int(n),
        Value::Bool(b) => ValueV::Bool(b),
        Value::Nothing => ValueV::Nothing,
        Value::List(l) => ValueV::List(
            Seq::new(
                l@.len(),
                |i: int|
                    {
                        if 0 <= i < l@.len() {
                            proof {
                                assert(decreases_to!(l => l[i]));
                            }
                            value_view(l[i])
                        } else {
                            ValueV::Nothing
                        }
                    },
            ),
        ),
        Value::Struct(l) => ValueV::Struct(values_view(l@)),
        Value::Function(b) => ValueV::Function(Box::new(entity_view(b.0)), values_view(b.1@)),
    }
}

pub open spec fn values_view(s: Seq<Value>) -> Seq<ValueV>
    decreases s,
{
    if s.len() == 0 {
        Seq::empty()
    } else {
        values_view(s.drop_last()).push(value_view(s.last()))
    }
}

pub open spec fn entity_view(e: Entity) -> EntityV
    decreases e,
{
    match e {
        Entity::RustCall(b, ps) => EntityV::RustCall(b.0, entities_view(ps@)),
        Entity::Parameter(n) => EntityV::Parameter(n),
        Entity::Inlined(v) => EntityV::Inlined(value_view(v)),
        Entity::IfExpression(i) => EntityV::IfExpression(
            pairs_view(i.branches@),
            Box::new(entity_view(*i.otherwise)),
        ),
        Entity::FirstStatement(f) => EntityV::FirstStatement(
            entities_view(f.to_void@),
            Box::new(entity_view(*f.to_eval)),
        ),
        Entity::List(l) => EntityV::List(entities_view(l@)),
        Entity::ParameterCall(n, ps) => EntityV::ParameterCall(n, entities_view(ps@)),
        Entity::CapturedCall(n, ps) => EntityV::CapturedCall(n, entities_view(ps@)),
        Entity::Captured(n) => EntityV::Captured(n),
        Entity::Lambda(all, caps) => EntityV::Lambda(entities_view(all@), caps@),
        Entity::FunctionCall(n, ps) => EntityV::FunctionCall(n, entities_view(ps@)),
        Entity::LambdaPointer(b) => EntityV::LambdaPointer(Box::new(entity_view(b.0)), b.1@),
        Entity::ConstructRecord(fs) => EntityV::ConstructRecord(entities_view(fs@)),
        Entity::Unimplemented => EntityV::Unimplemented,
        Entity::Unique => EntityV::Unique,
    }
}

pub open spec fn entities_view(s: Seq<Entity>) -> Seq<EntityV>
    decreases s,
{
    if s.len() == 0 {
        Seq::empty()
    } else {
        entities_view(s.drop_last()).push(entity_view(s.last()))
    }
}

pub open spec fn pairs_view(s: Seq<(Entity, Entity)>) -> Seq<(EntityV, EntityV)>
    decreases s,
{
    if s.len() == 0 {
        Seq::empty()
    } else {
        pairs_view(s.drop_last()).push((entity_view(s.last().0), entity_view(s.last().1)))
    }
}

impl View for Value {
    type V = ValueV;

    open spec fn view(&self) -> ValueV {
        value_view(*self)
    }
}

impl View for Entity {
    type V = EntityV;

    open spec fn view(&self) -> EntityV {
        entity_view(*self)
    }
}

pub proof fn lemma_values_map(s: Seq<Value>)
    ensures
        values_view(s) == s.map_values(|v: Value| value_view(v)),
    decreases s.len(),
{
    if s.len() > 0 {
        lemma_values_map(s.drop_last());
    }
    assert(values_view(s) =~= s.map_values(|v: Value| value_view(v)));
}

pub proof fn lemma_entities_map(s: Seq<Entity>)
    ensures
        entities_view(s) == s.map_values(|e: Entity| entity_view(e)),
    decreases s.len(),
{
    if s.len() > 0 {
        lemma_entities_map(s.drop_last());
    }
    assert(entities_view(s) =~= s.map_values(|e: Entity| entity_view(e)));
}

pub proof fn lemma_pairs_map(s: Seq<(Entity, Entity)>)
    ensures
        pairs_view(s) == s.map_values(|p: (Entity, Entity)| (entity_view(p.0), entity_view(p.1))),
    decreases s.len(),
{
    if s.len() > 0 {
        lemma_pairs_map(s.drop_last());
    }
    assert(pairs_view(s) =~= s.map_values(
        |p: (Entity, Entity)| (entity_view(p.0), entity_view(p.1)),
    ));
}

/// A copy of a list of values.
pub fn duplicate_values(v: &Vec<Value>) -> (r: Vec<Value>)
    ensures
        values_view(r@) == values_view(v@),
    decreases v@, 0int,
{
    let mut r: Vec<Value> = Vec::new();
    let mut i: usize = 0;
    while i < v.len()
        invariant
            i <= v@.len(),
            r@.len() == i,
            forall|j: int| 0 <= j < i ==> value_view(#[trigger] r@[j]) == value_view(v@[j]),
        decreases v@.len() - i,
    {
        assert(decreases_to!(v@ => v@[i as int]));
        r.push(v[i].duplicate());
        i = i + 1;
    }
    proof {
        lemma_values_map(r@);
        lemma_values_map(v@);
        assert(r@.map_values(|x: Value| value_view(x)) =~= v@.map_values(|x: Value| value_view(x)));
    }
    r
}

/// The model of the items of a list value.
pub open spec fn deque_view(l: VecDeque<Value>) -> Seq<ValueV> {
    Seq::new(l@.len(), |i: int| value_view(l@[i]))
}

/// The model of a list value is the list of the models of its items.
pub proof fn lemma_list_view(l: VecDeque<Value>)
    ensures
        value_view(Value::List(l)) == ValueV::List(deque_view(l)),
{
    assert(value_view(Value::List(l))->List_0 =~= deque_view(l));
}

/// A copy of the items of a list value.
pub fn duplicate_deque(v: &VecDeque<Value>) -> (r: VecDeque<Value>)
    ensures
        deque_view(r) == deque_view(*v),
    decreases v, 0int,
{
    let mut r: VecDeque<Value> = VecDeque::new();
    let mut i: usize = 0;
    while i < v.len()
        invariant
            i <= v@.len(),
            r@.len() == i,
            forall|j: int| 0 <= j < i ==> value_view(#[trigger] r@[j]) == value_view(v@[j]),
        decreases v@.len() - i,
    {
        assert(decreases_to!(v => v[i as int]));
        r.push_back(v[i].duplicate());
        i = i + 1;
    }
    assert(deque_view(r) =~= deque_view(*v));
    r
}

/// A list value holding copies of `items`, in order.
pub fn deque_from(items: &Vec<Value>) -> (r: VecDeque<Value>)
    ensures
        deque_view(r) == values_view(items@),
{
    let mut r: VecDeque<Value> = VecDeque::new();
    let mut i: usize = 0;
    proof {
        lemma_values_map(items@);
    }
    while i < items.len()
        invariant
            i <= items@.len(),
            r@.len() == i,
            values_view(items@) == items@.map_values(|x: Value| value_view(x)),
            forall|j: int| 0 <= j < i ==> value_view(#[trigger] r@[j]) == value_view(items@[j]),
        decreases items@.len() - i,
    {
        r.push_back(items[i].duplicate());
        i = i + 1;
    }
    assert(deque_view(r) =~= values_view(items@));
    r
}

/// A copy of a list of expressions.
pub fn duplicate_entities(v: &Vec<Entity>) -> (r: Vec<Entity>)
    ensures
        entities_view(r@) == entities_view(v@),
    decreases v@, 0int,
{
    let mut r: Vec<Entity> = Vec::new();
    let mut i: usize = 0;
    while i < v.len()
        invariant
            i <= v@.len(),
            r@.len() == i,
            forall|j: int| 0 <= j < i ==> entity_view(#[trigger] r@[j]) == entity_view(v@[j]),
        decreases v@.len() - i,
    {
        assert(decreases_to!(v@ => v@[i as int]));
        r.push(v[i].duplicate());
        i = i + 1;
    }
    proof {
        lemma_entities_map(r@);
        lemma_entities_map(v@);
        assert(r@.map_values(|x: Entity| entity_view(x)) =~= v@.map_values(|x: Entity| entity_view(x)));
    }
    r
}

fn duplicate_pairs(v: &Vec<(Entity, Entity)>) -> (r: Vec<(Entity, Entity)>)
    ensures
        pairs_view(r@) == pairs_view(v@),
    decreases v@, 0int,
{
    let mut r: Vec<(Entity, Entity)> = Vec::new();
    let mut i: usize = 0;
    while i < v.len()
        invariant
            i <= v@.len(),
            r@.len() == i,
            forall|j: int|
                0 <= j < i ==> entity_view(#[trigger] r@[j].0) == entity_view(v@[j].0)
                    && entity_view(r@[j].1) == entity_view(v@[j].1),
        decreases v@.len() - i,
    {
        assert(decreases_to!(v@ => v@[i as int]));
        let a = v[i].0.duplicate();
        let b = v[i].1.duplicate();
        r.push((a, b));
        i = i + 1;
    }
    proof {
        lemma_pairs_map(r@);
        lemma_pairs_map(v@);
        assert(r@.map_values(|p: (Entity, Entity)| (entity_view(p.0), entity_view(p.1)))
            =~= v@.map_values(|p: (Entity, Entity)| (entity_view(p.0), entity_view(p.1))));
    }
    r
}

fn duplicate_captures(v: &Vec<Capturable>) -> (r: Vec<Capturable>)
    ensures
        r@ == v@,
{
    let mut r: Vec<Capturable> = Vec::new();
    let mut i: usize = 0;
    while i < v.len()
        invariant
            i <= v@.len(),
            r@ =~= v@.take(i as int),
        decreases v@.len() - i,
    {
        r.push(v[i]);
        i = i + 1;
    }
    assert(v@.take(i as int) =~= v@);
    r
}

impl Value {
    /// A copy of this value.
    pub fn duplicate(&self) -> (r: Value)
        ensures
            r@ == self@,
        decreases self, 0int,
    {
        match self {
            Value::Int(n) => Value::Int(*n),
            Value::Bool(b) => Value::Bool(*b),
            Value::Nothing => Value::Nothing,
            Value::List(l) => {
                let d = duplicate_deque(l);
                proof {
                    lemma_list_view(*l);
                    lemma_list_view(d);
                }
                Value::List(d)
            },
            Value::Struct(l) => Value::Struct(duplicate_values(l)),
            Value::Function(b) => {
                let e = b.0.duplicate();
                let c = duplicate_values(&b.1);
                Value::Function(Box::new((e, c)))
            },
        }
    }
}

impl Entity {
    /// A copy of this expression.
    pub fn duplicate(&self) -> (r: Entity)
        ensures
            r@ == self@,
        decreases self, 0int,
    {
        match self {
            Entity::RustCall(b, ps) => Entity::RustCall(*b, duplicate_entities(ps)),
            Entity::Parameter(n) => Entity::Parameter(*n),
            Entity::Inlined(v) => Entity::Inlined(v.duplicate()),
            Entity::IfExpression(i) => {
                let branches = duplicate_pairs(&i.branches);
                let otherwise = (*i.otherwise).duplicate();
                Entity::IfExpression(If { branches, otherwise: Box::new(otherwise) })
            },
            Entity::FirstStatement(f) => {
                let to_void = duplicate_entities(&f.to_void);
                let to_eval = (*f.to_eval).duplicate();
                Entity::FirstStatement(First { to_void, to_eval: Box::new(to_eval) })
            },
            Entity::List(l) => Entity::List(duplicate_entities(l)),
            Entity::ParameterCall(n, ps) => Entity::ParameterCall(*n, duplicate_entities(ps)),
            Entity::CapturedCall(n, ps) => Entity::CapturedCall(*n, duplicate_entities(ps)),
            Entity::Captured(n) => Entity::Captured(*n),
            Entity::Lambda(all, caps) => Entity::Lambda(
                duplicate_entities(all),
                duplicate_captures(caps),
            ),
            Entity::FunctionCall(n, ps) => Entity::FunctionCall(*n, duplicate_entities(ps)),
            Entity::LambdaPointer(b) => {
                let e = b.0.duplicate();
                let c = duplicate_captures(&b.1);
                Entity::LambdaPointer(Box::new((e, c)))
            },
            Entity::ConstructRecord(fs) => Entity::ConstructRecord(duplicate_entities(fs)),
            Entity::Unimplemented => Entity::Unimplemented,
            Entity::Unique => Entity::Unique,
        }
    }
}

} // verus!
