use std::collections::HashMap;

use vstd::prelude::*;

use crate::parser::identifier::{Anot, AnotV, Identifier, IdentifierV};
use crate::parser::tokenizer::token::Inlinable;

verus! {


/// The type of a value of the language.
pub enum Type {
    Nothing,
    Int,
    Float,
    Bool,
    Generic(u8),
    List(Box<Type>),
    Struct(i32, i32),
    Function(Box<(Vec<Type>, Type)>),
    Custom(Anot<Identifier, Type>),
    KnownCustom(usize, usize),
}

/// The model of a [`Type`].
pub enum TypeV {
    Nothing,
    Int,
    Float,
    Bool,
    Generic(u8),
    List(Box<TypeV>),
    Struct(i32, i32),
    Function(Seq<TypeV>, Box<TypeV>),
    Custom(AnotV<IdentifierV, TypeV>),
    KnownCustom(usize, usize),
}

pub open spec fn type_view(t: Type) -> TypeV
    decreases t,
{
    match t {
        Type::Nothing => TypeV::Nothing,
        Type::Int => TypeV::Int,
        Type::Float => TypeV::Float,
        Type::Bool => TypeV::Bool,
        Type::Generic(n) => TypeV::Generic(n),
        Type::List(b) => TypeV::List(Box::new(type_view(*b))),
        Type::Struct(a, b) => TypeV::Struct(a, b),
        Type::Function(b) => TypeV::Function(types_view(b.0@), Box::new(type_view(b.1))),
        Type::Custom(a) => TypeV::Custom(AnotV { inner: a.inner@, anot: types_view(a.anot@) }),
        Type::KnownCustom(a, b) => TypeV::KnownCustom(a, b),
    }
}

pub open spec fn types_view(s: Seq<Type>) -> Seq<TypeV>
    decreases s,
{
    if s.len() == 0 {
        Seq::empty()
    } else {
        types_view(s.drop_last()).push(type_view(s.last()))
    }
}

impl View for Type {
    type V = TypeV;

    open spec fn view(&self) -> TypeV {
        type_view(*self)
    }
}

impl View for Anot<Identifier, Type> {
    type V = AnotV<IdentifierV, TypeV>;

    open spec fn view(&self) -> Self::V {
        AnotV { inner: self.inner@, anot: types_view(self.anot@) }
    }
}

pub proof fn lemma_types_view_len(s: Seq<Type>)
    ensures
        types_view(s).len() == s.len(),
    decreases s.len(),
{
    if s.len() > 0 {
        lemma_types_view_len(s.drop_last());
    }
}

pub proof fn lemma_types_view_index(s: Seq<Type>, i: int)
    requires
        0 <= i < s.len(),
    ensures
        types_view(s)[i] == type_view(s[i]),
    decreases s.len(),
{
    lemma_types_view_len(s.drop_last());
    if i < s.len() - 1 {
        lemma_types_view_index(s.drop_last(), i);
    }
}

/// Two lists of types have the same models when each pair of members does.
pub proof fn lemma_types_view_ext(a: Seq<Type>, b: Seq<Type>)
    requires
        a.len() == b.len(),
        forall|i: int| 0 <= i < a.len() ==> type_view(#[trigger] a[i]) == type_view(b[i]),
    ensures
        types_view(a) == types_view(b),
    decreases a.len(),
{
    if a.len() > 0 {
        lemma_types_view_ext(a.drop_last(), b.drop_last());
        assert(a.last() == a[a.len() - 1]);
    }
}

pub proof fn lemma_types_view_push(s: Seq<Type>, t: Type)
    ensures
        types_view(s.push(t)) == types_view(s).push(type_view(t)),
{
    assert(s.push(t).drop_last() =~= s);
}

/// A copy of a list of types.
pub fn duplicate_types(v: &Vec<Type>) -> (r: Vec<Type>)
    ensures
        types_view(r@) == types_view(v@),
    decreases v@,
{
    let mut r: Vec<Type> = Vec::new();
    let mut i: usize = 0;
    while i < v.len()
        invariant
            i <= v@.len(),
            r@.len() == i,
            forall|j: int| 0 <= j < i ==> type_view(#[trigger] r@[j]) == type_view(v@[j]),
        decreases v@.len() - i,
    {
        assert(decreases_to!(v@ => v@[i as int]));
        let t = v[i].duplicate();
        r.push(t);
        i = i + 1;
    }
    proof {
        lemma_types_view_ext(r@, v@);
    }
    r
}

impl Type {
    /// A copy of this type.
    pub fn duplicate(&self) -> (r: Type)
        ensures
            r@ == self@,
        decreases self,
    {
        match self {
            Type::Nothing => Type::Nothing,
            Type::Int => Type::Int,
            Type::Float => Type::Float,
            Type::Bool => Type::Bool,
            Type::Generic(n) => Type::Generic(*n),
            Type::List(b) => Type::List(Box::new((**b).duplicate())),
            Type::Struct(a, b) => Type::Struct(*a, *b),
            Type::Function(b) => {
                let params = duplicate_types(&b.0);
                let ret = b.1.duplicate();
                Type::Function(Box::new((params, ret)))
            },
            Type::Custom(a) => {
                let anot = duplicate_types(&a.anot);
                Type::Custom(Anot { inner: a.inner.duplicate(), anot })
            },
            Type::KnownCustom(a, b) => Type::KnownCustom(*a, *b),
        }
    }
}

/// `t` with each generic parameter that `generics` binds replaced by its binding,
/// inside lists and function types.
pub open spec fn spec_decoded(t: TypeV, generics: Map<u8, TypeV>) -> TypeV
    decreases t,
{
    match t {
        TypeV::Generic(n) => if generics.contains_key(n) {
            generics[n]
        } else {
            TypeV::Generic(n)
        },
        TypeV::List(b) => TypeV::List(Box::new(spec_decoded(*b, generics))),
        TypeV::Function(ps, r) => TypeV::Function(
            spec_decoded_all(ps, generics),
            Box::new(spec_decoded(*r, generics)),
        ),
        _ => t,
    }
}

pub open spec fn spec_decoded_all(s: Seq<TypeV>, generics: Map<u8, TypeV>) -> Seq<TypeV>
    decreases s,
{
    if s.len() == 0 {
        Seq::empty()
    } else {
        spec_decoded_all(s.drop_last(), generics).push(spec_decoded(s.last(), generics))
    }
}

/// The model of a table of generic bindings.
pub open spec fn generics_view(g: Map<u8, Type>) -> Map<u8, TypeV> {
    g.map_values(|t: Type| t@)
}

/// The type of a literal value.
pub open spec fn spec_type_of_inlinable(v: Inlinable) -> TypeV {
    match v {
        Inlinable::Int(_) => TypeV::Int,
        Inlinable::Bool(_) => TypeV::Bool,
        Inlinable::Nothing => TypeV::Nothing,
    }
}

impl Type {
    /// Substitutes the bindings of `generics` for the generic parameters of this type.
    pub fn decoded(self, generics: &HashMap<u8, Type>) -> (r: Type)
        ensures
            r@ == spec_decoded(self@, generics_view(generics@)),
        decreases self,
    {
        match self {
            Type::Generic(n) => match generics.get(&n) {
                Some(t) => {
                    assert(generics_view(generics@).contains_key(n));
                    t.duplicate()
                },
                None => Type::Generic(n),
            },
            Type::List(b) => {
                let inner = *b;
                Type::List(Box::new(inner.decoded(generics)))
            },
            Type::Function(attr) => {
                let ghost pv = attr.0;
                let (params, ret_type) = *attr;
                let ghost old_params = params@;
                assert(pv@ == old_params);
                let mut params = params;
                let mut rest: Vec<Type> = Vec::new();
                while params.len() > 0
                    invariant
                        rest@.len() + params@.len() == old_params.len(),
                        params@ == old_params.take(params@.len() as int),
                        forall|j: int|
                            0 <= j < rest@.len() ==> #[trigger] rest@[j] == old_params[old_params.len()
                                - 1 - j],
                    decreases params@.len(),
                {
                    let t = params.pop().unwrap();
                    rest.push(t);
                    assert(params@ =~= old_params.take(params@.len() as int));
                }
                assert forall|k: int| 0 <= k < old_params.len() implies decreases_to!(
                    self => #[trigger] old_params[k]) by {
                    assert(decreases_to!(self => pv));
                    assert(decreases_to!(pv => pv@));
                    assert(decreases_to!(pv@ => pv@[k]));
                }
                // `rest` holds the parameters back to front; decode them in order.
                let mut out: Vec<Type> = Vec::new();
                let n = rest.len();
                while rest.len() > 0
                    invariant
                        out@.len() + rest@.len() == n,
                        n == old_params.len(),
                        forall|k: int| 0 <= k < n ==> decreases_to!(self => #[trigger] old_params[k]),
                        forall|j: int|
                            0 <= j < rest@.len() ==> #[trigger] rest@[j] == old_params[n - 1 - j],
                        forall|j: int|
                            0 <= j < out@.len() ==> type_view(#[trigger] out@[j]) == spec_decoded(
                                type_view(old_params[j]),
                                generics_view(generics@),
                            ),
                    decreases rest@.len(),
                {
                    let t = rest.pop().unwrap();
                    assert(old_params[out@.len() as int] == old_params[n - 1 - rest@.len()]);
                    out.push(t.decoded(generics));
                }
                let ret = ret_type.decoded(generics);
                proof {
                    lemma_decoded_all(old_params, out@, generics_view(generics@));
                }
                Type::Function(Box::new((out, ret)))
            },
            _ => self,
        }
    }

    /// The type of a literal value.
    pub fn from_inlinable(v: &Inlinable) -> (r: Type)
        ensures
            r@ == spec_type_of_inlinable(*v),
    {
        match v {
            Inlinable::Int(_) => Type::Int,
            Inlinable::Bool(_) => Type::Bool,
            Inlinable::Nothing => Type::Nothing,
        }
    }
}

proof fn lemma_decoded_all(ps: Seq<Type>, out: Seq<Type>, g: Map<u8, TypeV>)
    requires
        ps.len() == out.len(),
        forall|j: int|
            0 <= j < out.len() ==> type_view(#[trigger] out[j]) == spec_decoded(type_view(ps[j]), g),
    ensures
        types_view(out) == spec_decoded_all(types_view(ps), g),
    decreases ps.len(),
{
    if ps.len() > 0 {
        lemma_decoded_all(ps.drop_last(), out.drop_last(), g);
        assert(types_view(ps).drop_last() =~= types_view(ps.drop_last())) by {
            lemma_types_view_push(ps.drop_last(), ps.last());
            assert(ps.drop_last().push(ps.last()) =~= ps);
        }
        lemma_types_view_len(ps);
        assert(out.last() == out[out.len() - 1]);
        assert(types_view(ps).last() == type_view(ps.last())) by {
            lemma_types_view_push(ps.drop_last(), ps.last());
            assert(ps.drop_last().push(ps.last()) =~= ps);
        }
    }
}

impl Default for Type {
    fn default() -> (r: Type)
        ensures
            r == Type::Nothing,
    {
        Type::Nothing
    }
}

/// The cells in which type inference records what it has found out.
pub struct InferenceTable {
    pub cells: Vec<Option<Type>>,
}

impl InferenceTable {
    pub fn new() -> (r: InferenceTable)
        ensures
            r.cells@.len() == 0,
    {
        InferenceTable { cells: Vec::new() }
    }

    /// Records `t` as the type found for `cell`.
    pub fn fill(&mut self, cell: usize, t: Type)
        requires
            cell < old(self).cells@.len(),
        ensures
            final(self).cells@ == old(self).cells@.update(cell as int, Some(t)),
    {
        self.cells.set(cell, Some(t));
    }
}

/// A type that is either known or still to be inferred into a cell of an
/// [`InferenceTable`]; copies of an `Infer` share the cell.
pub enum MaybeType {
    Infer(usize),
    Known(Type),
}

impl MaybeType {
    /// A type still to be inferred, in a fresh empty cell of `table`.
    pub fn new(table: &mut InferenceTable) -> (r: MaybeType)
        ensures
            r == MaybeType::Infer(old(table).cells@.len() as usize),
            final(table).cells@ == old(table).cells@.push(None),
    {
        let cell = table.cells.len();
        table.cells.push(None);
        MaybeType::Infer(cell)
    }

    /// The type, once it is known.
    pub fn unwrap(self, table: &InferenceTable) -> (r: Type)
        requires
            self matches MaybeType::Infer(cell) ==> cell < table.cells@.len()
                && table.cells@[cell as int] is Some,
        ensures
            match self {
                MaybeType::Infer(cell) => r@ == table.cells@[cell as int]->Some_0@,
                MaybeType::Known(t) => r == t,
            },
    {
        match self {
            MaybeType::Infer(cell) => match &table.cells[cell] {
                Some(t) => t.duplicate(),
                None => Type::Nothing,
            },
            MaybeType::Known(t) => t,
        }
    }

    /// The type this is hashed as: the known type, or what its cell holds so far,
    /// with `nothing` for an empty cell.
    pub fn hash_type(&self, table: &InferenceTable) -> (r: Type)
        requires
            self matches MaybeType::Infer(cell) ==> cell < table.cells@.len(),
        ensures
            r@ == match self {
                MaybeType::Infer(cell) => match table.cells@[*cell as int] {
                    Some(t) => t@,
                    None => TypeV::Nothing,
                },
                MaybeType::Known(t) => t@,
            },
    {
        match self {
            MaybeType::Infer(cell) => match &table.cells[*cell] {
                Some(t) => t.duplicate(),
                None => Type::Nothing,
            },
            MaybeType::Known(t) => t.duplicate(),
        }
    }
}

/// A record type declared in a module.
pub struct Struct {
    pub fields: Vec<(String, Type)>,
}

/// A sum type declared in a module.
pub struct Enum {
    pub variants: Vec<(String, Vec<Type>)>,
}

/// A type declared in a module.
pub enum CustomType {
    Struct(Struct),
    Enum(Enum),
}

/// Decoding with no bindings leaves a type as it is.
pub proof fn law_decoded_without_bindings(t: TypeV)
    ensures
        spec_decoded(t, Map::empty()) == t,
    decreases t,
{
    match t {
        TypeV::List(b) => {
            law_decoded_without_bindings(*b);
        },
        TypeV::Function(ps, r) => {
            lemma_decoded_all_without_bindings(ps, t);
            law_decoded_without_bindings(*r);
        },
        _ => {},
    }
}

proof fn lemma_decoded_all_without_bindings(s: Seq<TypeV>, whole: TypeV)
    requires
        forall|i: int| 0 <= i < s.len() ==> decreases_to!(whole => #[trigger] s[i]),
    ensures
        spec_decoded_all(s, Map::empty()) == s,
    decreases whole, s.len(),
{
    if s.len() > 0 {
        lemma_decoded_all_without_bindings(s.drop_last(), whole);
        assert(decreases_to!(whole => s[s.len() - 1]));
        law_decoded_without_bindings(s.last());
        assert(s.drop_last().push(s.last()) =~= s);
    }
}

/// Whether a generic parameter occurs in `t` in a list or a function type, the
/// places where decoding substitutes (annotations of custom types are left as they are).
pub open spec fn has_open_generic(t: TypeV) -> bool
    decreases t,
{
    match t {
        TypeV::Generic(_) => true,
        TypeV::List(b) => has_open_generic(*b),
        TypeV::Function(ps, r) => any_open_generic(ps) || has_open_generic(*r),
        _ => false,
    }
}

pub open spec fn any_open_generic(s: Seq<TypeV>) -> bool
    decreases s,
{
    if s.len() == 0 {
        false
    } else {
        any_open_generic(s.drop_last()) || has_open_generic(s.last())
    }
}

/// Whether each generic parameter that occurs in `t` in a list or a function type is
/// bound in `g`.
pub open spec fn generics_bound(t: TypeV, g: Map<u8, TypeV>) -> bool
    decreases t,
{
    match t {
        TypeV::Generic(n) => g.contains_key(n),
        TypeV::List(b) => generics_bound(*b, g),
        TypeV::Function(ps, r) => all_generics_bound(ps, g) && generics_bound(*r, g),
        _ => true,
    }
}

pub open spec fn all_generics_bound(s: Seq<TypeV>, g: Map<u8, TypeV>) -> bool
    decreases s,
{
    if s.len() == 0 {
        true
    } else {
        all_generics_bound(s.drop_last(), g) && generics_bound(s.last(), g)
    }
}

/// Decoding a type whose generic parameters are all bound, to types without generic
/// parameters, leaves no generic parameter in it, at any depth of lists and function
/// parameters and results.
pub proof fn law_decoded_closes_bound_generics(t: TypeV, g: Map<u8, TypeV>)
    requires
        generics_bound(t, g),
        forall|k: u8| g.contains_key(k) ==> !has_open_generic(#[trigger] g[k]),
    ensures
        !has_open_generic(spec_decoded(t, g)),
    decreases t,
{
    match t {
        TypeV::List(b) => {
            law_decoded_closes_bound_generics(*b, g);
        },
        TypeV::Function(ps, r) => {
            lemma_decoded_all_closes(ps, g, t);
            law_decoded_closes_bound_generics(*r, g);
        },
        _ => {},
    }
}

proof fn lemma_decoded_all_closes(s: Seq<TypeV>, g: Map<u8, TypeV>, whole: TypeV)
    requires
        all_generics_bound(s, g),
        forall|k: u8| g.contains_key(k) ==> !has_open_generic(#[trigger] g[k]),
        forall|i: int| 0 <= i < s.len() ==> decreases_to!(whole => #[trigger] s[i]),
    ensures
        !any_open_generic(spec_decoded_all(s, g)),
    decreases whole, s.len(),
{
    if s.len() > 0 {
        lemma_decoded_all_closes(s.drop_last(), g, whole);
        assert(decreases_to!(whole => s[s.len() - 1]));
        law_decoded_closes_bound_generics(s.last(), g);
        let d = spec_decoded_all(s, g);
        assert(d.drop_last() =~= spec_decoded_all(s.drop_last(), g));
    }
}

/// Decoding goes into every part of a list or function type: the item type of a
/// decoded list is the decoded item type, and the result type of a decoded function
/// type is its decoded result type, with each parameter decoded in its place.
pub proof fn law_decoded_by_parts(t: TypeV, g: Map<u8, TypeV>)
    ensures
        t matches TypeV::List(b) ==> spec_decoded(t, g) == TypeV::List(
            Box::new(spec_decoded(*b, g)),
        ),
        t matches TypeV::Function(ps, r) ==> (spec_decoded(t, g) matches TypeV::Function(qs, q)
            && *q == spec_decoded(*r, g) && qs.len() == ps.len() && forall|i: int|
            0 <= i < ps.len() ==> #[trigger] qs[i] == spec_decoded(ps[i], g)),
{
    if let TypeV::Function(ps, r) = t {
        lemma_decoded_all_index(ps, g);
    }
}

proof fn lemma_decoded_all_index(s: Seq<TypeV>, g: Map<u8, TypeV>)
    ensures
        spec_decoded_all(s, g).len() == s.len(),
        forall|i: int| 0 <= i < s.len() ==> #[trigger] spec_decoded_all(s, g)[i] == spec_decoded(s[i], g),
    decreases s.len(),
{
    if s.len() > 0 {
        lemma_decoded_all_index(s.drop_last(), g);
    }
}

} // verus!
