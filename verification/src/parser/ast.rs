pub mod builder;
pub mod grammar;
pub mod frame;
pub mod progress;
pub mod shape;

use vstd::prelude::*;

use crate::parser::identifier::{Anot, AnotV, Identifier, IdentifierV, Spanned};
use crate::parser::tokenizer::token::Inlinable;
use crate::parser::types::{Type, TypeV};

verus! {

/// A name with its parsed type annotations.
pub type TypedIdent = Anot<Identifier, Type>;

/// The model of a [`TypedIdent`].
pub type TypedIdentV = AnotV<IdentifierV, TypeV>;

/// An expression of the syntax tree.
pub enum Entity {
    Lambda(Vec<TypedIdent>, Box<Spanned<Entity>>),
    Call(Callable, Vec<Spanned<Entity>>),
    Inlined(Inlinable),
    List(Vec<Spanned<Entity>>),
    Record(TypedIdent, Vec<(String, Spanned<Entity>)>),
    If(Vec<(Spanned<Entity>, Spanned<Entity>)>, Box<Spanned<Entity>>),
    First(Vec<Spanned<Entity>>),
    SingleIdent(TypedIdent),
    Unimplemented,
    Pass(Passable),
}

/// What an expression calls.
pub enum Callable {
    Func(TypedIdent),
    Builtin(TypedIdent),
    Lambda(Vec<TypedIdent>, Box<Spanned<Entity>>),
}

/// What may be handed to a function as a closure argument.
pub enum Passable {
    Value(Inlinable),
    Lambda(Vec<TypedIdent>, Box<Spanned<Entity>>),
    Func(TypedIdent),
    PartialFunc(Callable, Vec<Spanned<Entity>>),
}

/// The model of a located value.
pub struct SpannedV<T> {
    pub inner: T,
    pub pos: usize,
}

/// The model of an [`Entity`].
pub enum EntityV {
    Lambda(Seq<TypedIdentV>, Box<SpannedV<EntityV>>),
    Call(CallableV, Seq<SpannedV<EntityV>>),
    Inlined(Inlinable),
    List(Seq<SpannedV<EntityV>>),
    Record(TypedIdentV, Seq<(Seq<char>, SpannedV<EntityV>)>),
    If(Seq<(SpannedV<EntityV>, SpannedV<EntityV>)>, Box<SpannedV<EntityV>>),
    First(Seq<SpannedV<EntityV>>),
    SingleIdent(TypedIdentV),
    Unimplemented,
    Pass(PassableV),
}

/// The model of a [`Callable`].
pub enum CallableV {
    Func(TypedIdentV),
    Builtin(TypedIdentV),
    Lambda(Seq<TypedIdentV>, Box<SpannedV<EntityV>>),
}

/// The model of a [`Passable`].
pub enum PassableV {
    Value(Inlinable),
    Lambda(Seq<TypedIdentV>, Box<SpannedV<EntityV>>),
    Func(TypedIdentV),
    PartialFunc(CallableV, Seq<SpannedV<EntityV>>),
}

pub open spec fn idents_view(s: Seq<TypedIdent>) -> Seq<TypedIdentV> {
    s.map_values(|a: TypedIdent| a@)
}

pub open spec fn entity_view(e: Entity) -> EntityV
    decreases e,
{
    match e {
        Entity::Lambda(ps, b) => EntityV::Lambda(idents_view(ps@), Box::new(spanned_view(*b))),
        Entity::Call(c, ps) => EntityV::Call(callable_view(c), spanned_seq_view(ps@)),
        Entity::Inlined(v) => EntityV::Inlined(v),
        Entity::List(v) => EntityV::List(spanned_seq_view(v@)),
        Entity::Record(n, fs) => EntityV::Record(n@, fields_view(fs@)),
        Entity::If(bs, e) => EntityV::If(branches_view(bs@), Box::new(spanned_view(*e))),
        Entity::First(v) => EntityV::First(spanned_seq_view(v@)),
        Entity::SingleIdent(n) => EntityV::SingleIdent(n@),
        Entity::Unimplemented => EntityV::Unimplemented,
        Entity::Pass(p) => EntityV::Pass(passable_view(p)),
    }
}

pub open spec fn spanned_view(s: Spanned<Entity>) -> SpannedV<EntityV>
    decreases s,
{
    SpannedV { inner: entity_view(s.inner), pos: s.pos }
}

pub open spec fn spanned_seq_view(s: Seq<Spanned<Entity>>) -> Seq<SpannedV<EntityV>>
    decreases s,
{
    if s.len() == 0 {
        Seq::empty()
    } else {
        spanned_seq_view(s.drop_last()).push(spanned_view(s.last()))
    }
}

pub open spec fn fields_view(s: Seq<(String, Spanned<Entity>)>) -> Seq<(Seq<char>, SpannedV<EntityV>)>
    decreases s,
{
    if s.len() == 0 {
        Seq::empty()
    } else {
        fields_view(s.drop_last()).push((s.last().0@, spanned_view(s.last().1)))
    }
}

pub open spec fn branches_view(s: Seq<(Spanned<Entity>, Spanned<Entity>)>) -> Seq<
    (SpannedV<EntityV>, SpannedV<EntityV>),
>
    decreases s,
{
    if s.len() == 0 {
        Seq::empty()
    } else {
        branches_view(s.drop_last()).push((spanned_view(s.last().0), spanned_view(s.last().1)))
    }
}

pub open spec fn callable_view(c: Callable) -> CallableV
    decreases c,
{
    match c {
        Callable::Func(n) => CallableV::Func(n@),
        Callable::Builtin(n) => CallableV::Builtin(n@),
        Callable::Lambda(ps, b) => CallableV::Lambda(idents_view(ps@), Box::new(spanned_view(*b))),
    }
}

pub open spec fn passable_view(p: Passable) -> PassableV
    decreases p,
{
    match p {
        Passable::Value(v) => PassableV::Value(v),
        Passable::Lambda(ps, b) => PassableV::Lambda(idents_view(ps@), Box::new(spanned_view(*b))),
        Passable::Func(n) => PassableV::Func(n@),
        Passable::PartialFunc(c, ps) => PassableV::PartialFunc(
            callable_view(c),
            spanned_seq_view(ps@),
        ),
    }
}

impl View for Entity {
    type V = EntityV;

    open spec fn view(&self) -> EntityV {
        entity_view(*self)
    }
}

impl View for Callable {
    type V = CallableV;

    open spec fn view(&self) -> CallableV {
        callable_view(*self)
    }
}

impl View for Passable {
    type V = PassableV;

    open spec fn view(&self) -> PassableV {
        passable_view(*self)
    }
}

pub proof fn lemma_spanned_seq_push(s: Seq<Spanned<Entity>>, x: Spanned<Entity>)
    ensures
        spanned_seq_view(s.push(x)) == spanned_seq_view(s).push(spanned_view(x)),
{
    assert(s.push(x).drop_last() =~= s);
}

pub proof fn lemma_fields_push(s: Seq<(String, Spanned<Entity>)>, x: (String, Spanned<Entity>))
    ensures
        fields_view(s.push(x)) == fields_view(s).push((x.0@, spanned_view(x.1))),
{
    assert(s.push(x).drop_last() =~= s);
}

pub proof fn lemma_spanned_seq_map(s: Seq<Spanned<Entity>>)
    ensures
        spanned_seq_view(s) == s.map_values(|x: Spanned<Entity>| spanned_view(x)),
    decreases s.len(),
{
    if s.len() > 0 {
        lemma_spanned_seq_map(s.drop_last());
        assert(spanned_seq_view(s) =~= s.map_values(|x: Spanned<Entity>| spanned_view(x)));
    } else {
        assert(spanned_seq_view(s) =~= s.map_values(|x: Spanned<Entity>| spanned_view(x)));
    }
}

pub proof fn lemma_fields_map(s: Seq<(String, Spanned<Entity>)>)
    ensures
        fields_view(s) == s.map_values(|x: (String, Spanned<Entity>)| (x.0@, spanned_view(x.1))),
    decreases s.len(),
{
    if s.len() > 0 {
        lemma_fields_map(s.drop_last());
    }
    assert(fields_view(s) =~= s.map_values(
        |x: (String, Spanned<Entity>)| (x.0@, spanned_view(x.1)),
    ));
}

pub proof fn lemma_branches_map(s: Seq<(Spanned<Entity>, Spanned<Entity>)>)
    ensures
        branches_view(s) == s.map_values(
            |x: (Spanned<Entity>, Spanned<Entity>)| (spanned_view(x.0), spanned_view(x.1)),
        ),
    decreases s.len(),
{
    if s.len() > 0 {
        lemma_branches_map(s.drop_last());
    }
    assert(branches_view(s) =~= s.map_values(
        |x: (Spanned<Entity>, Spanned<Entity>)| (spanned_view(x.0), spanned_view(x.1)),
    ));
}

impl Entity {
    /// The expression that a callable stands for when it is given no parameters.
    pub fn from_callable(c: Callable) -> (r: Entity)
        ensures
            r@ == crate::parser::ast::grammar::callable_entity(c@),
    {
        match c {
            Callable::Func(id) => Entity::SingleIdent(id),
            Callable::Lambda(ps, b) => Entity::Lambda(ps, b),
            Callable::Builtin(id) => {
                let r = Entity::Call(Callable::Builtin(id), Vec::new());
                assert(spanned_seq_view(Seq::<Spanned<Entity>>::empty()) =~= Seq::empty());
                r
            },
        }
    }
}

} // verus!
