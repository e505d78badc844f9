use vstd::prelude::*;

use crate::parser::ast::grammar::{
    callable_of, ends_parameters, spec_chunk, spec_closure, spec_consume_pipe, spec_expect_then,
    spec_first, spec_first_after, spec_first_from, spec_if, spec_if_after, spec_if_from,
    spec_lambda, spec_lambda_from, spec_list, spec_list_from, spec_map_anot, spec_maybe_operator,
    spec_maybe_parameterized, spec_next_can_be_parameter, spec_operator, spec_parameterized,
    spec_parse_types, spec_record, spec_record_fields,
};
use crate::parser::ast::{
    branches_view, fields_view, lemma_branches_map, lemma_fields_map, lemma_spanned_seq_map,
    spanned_seq_view, spanned_view, Callable, Entity, EntityV, Passable, PassableV, SpannedV,
    TypedIdent, TypedIdentV,
};
use crate::parser::fault::{Expected, Outcome, ParseError, ParseErrorV, ParseFault, ParseFaultV};
use crate::parser::identifier::{strings_view, Anot, Identifier, IdentifierType, Spanned};
use crate::parser::tokenizer::keys::Key;
use crate::parser::tokenizer::token::{RawToken, Token, TokenV};
use crate::parser::tokenizer::Tokenizer;
use crate::parser::type_parse::spec_parse_type;
use crate::parser::types::{lemma_types_view_push, types_view, Type, TypeV};
use crate::text::str_eq;

verus! {


/// Builds the syntax tree of expressions from a stream of tokens.
pub struct AstBuilder {
    tokenizer: Tokenizer,
}

impl View for AstBuilder {
    type V = Seq<TokenV>;

    closed spec fn view(&self) -> Seq<TokenV> {
        self.tokenizer@
    }
}

/// Whether a reading step ended as the grammar says: where the grammar panics, so
/// does the result; elsewhere the result and the tokens left are the grammar's.
pub open spec fn step_is<T>(res: Outcome<T, ParseErrorV>, left: Seq<TokenV>, spec: (
    Outcome<T, ParseErrorV>,
    Seq<TokenV>,
)) -> bool {
    if spec.0 is Panics {
        res is Panics
    } else {
        (res, left) == spec
    }
}

pub open spec fn res_outcome(r: Result<Spanned<Entity>, ParseError>) -> Outcome<
    SpannedV<EntityV>,
    ParseErrorV,
> {
    match r {
        Ok(v) => Outcome::Done(spanned_view(v)),
        Err(e) => Outcome::Fails(e@),
    }
}

pub open spec fn ent_res(r: Outcome<Spanned<Entity>, ParseError>) -> Outcome<SpannedV<EntityV>, ParseErrorV> {
    match r {
        Outcome::Done(v) => Outcome::Done(spanned_view(v)),
        Outcome::Fails(e) => Outcome::Fails(e@),
        Outcome::Panics => Outcome::Panics,
    }
}

pub open spec fn plain_res(r: Outcome<Entity, ParseError>) -> Outcome<EntityV, ParseErrorV> {
    match r {
        Outcome::Done(v) => Outcome::Done(v@),
        Outcome::Fails(e) => Outcome::Fails(e@),
        Outcome::Panics => Outcome::Panics,
    }
}

pub open spec fn seq_res(r: Outcome<Vec<Spanned<Entity>>, ParseError>) -> Outcome<
    Seq<SpannedV<EntityV>>,
    ParseErrorV,
> {
    match r {
        Outcome::Done(v) => Outcome::Done(spanned_seq_view(v@)),
        Outcome::Fails(e) => Outcome::Fails(e@),
        Outcome::Panics => Outcome::Panics,
    }
}

pub open spec fn pass_res(r: Outcome<Spanned<Passable>, ParseError>) -> Outcome<
    SpannedV<PassableV>,
    ParseErrorV,
> {
    match r {
        Outcome::Done(v) => Outcome::Done(SpannedV { inner: v.inner@, pos: v.pos }),
        Outcome::Fails(e) => Outcome::Fails(e@),
        Outcome::Panics => Outcome::Panics,
    }
}

pub open spec fn fields_res(r: Outcome<Vec<(String, Spanned<Entity>)>, ParseError>) -> Outcome<
    Seq<(Seq<char>, SpannedV<EntityV>)>,
    ParseErrorV,
> {
    match r {
        Outcome::Done(v) => Outcome::Done(fields_view(v@)),
        Outcome::Fails(e) => Outcome::Fails(e@),
        Outcome::Panics => Outcome::Panics,
    }
}

pub open spec fn unit_res(r: Outcome<(), ParseError>) -> Outcome<(), ParseErrorV> {
    match r {
        Outcome::Done(_) => Outcome::Done(()),
        Outcome::Fails(e) => Outcome::Fails(e@),
        Outcome::Panics => Outcome::Panics,
    }
}

proof fn lemma_parse_types_prefix(ss: Seq<Seq<char>>, k: int)
    requires
        0 <= k <= ss.len(),
        !(spec_parse_types(ss.take(k)) is Done),
    ensures
        spec_parse_types(ss) == spec_parse_types(ss.take(k)),
    decreases ss.len(),
{
    if k < ss.len() {
        assert(ss.drop_last().take(k) =~= ss.take(k));
        lemma_parse_types_prefix(ss.drop_last(), k);
    } else {
        assert(ss.take(k) =~= ss);
    }
}

/// The name of a token with its annotations read as types.
fn map_anot(a: Anot<Identifier, String>) -> (r: Outcome<TypedIdent, ParseFault>)
    ensures
        match spec_map_anot(a@) {
            Outcome::Done(v) => r matches Outcome::Done(x) && x@ == v,
            Outcome::Fails(f) => r matches Outcome::Fails(e) && e@ == f,
            Outcome::Panics => r is Panics,
        },
{
    let ghost ss = a@.anot;
    let ghost av = a@;
    let Anot { inner, anot } = a;
    let mut out: Vec<Type> = Vec::new();
    let mut i: usize = 0;
    assert(ss.take(0) =~= Seq::<Seq<char>>::empty());
    assert(types_view(out@) =~= Seq::empty());
    while i < anot.len()
        invariant
            ss == strings_view(anot@),
            av.anot == ss,
            av == a@,
            i <= anot@.len(),
            spec_parse_types(ss.take(i as int)) == Outcome::<_, crate::parser::fault::ParseFaultV>::Done(
                types_view(out@),
            ),
        decreases anot@.len() - i,
    {
        assert(ss.take(i + 1).drop_last() =~= ss.take(i as int));
        assert(ss.take(i + 1).last() == anot@[i as int]@);
        proof {
            if spec_parse_type(anot@[i as int]@) is Panics {
                lemma_parse_types_prefix(ss, i + 1);
            }
        }
        match Type::try_parse(anot[i].as_str()) {
            Outcome::Done(t) => {
                proof {
                    lemma_types_view_push(out@, t);
                }
                out.push(t);
            },
            Outcome::Fails(e) => {
                proof {
                    assert(spec_parse_type(ss[i as int]) == Outcome::<TypeV, ParseFaultV>::Fails(e@));
                    assert(spec_parse_types(ss.take(i + 1)) == Outcome::<Seq<TypeV>, ParseFaultV>::Fails(e@));
                    lemma_parse_types_prefix(ss, i + 1);
                    assert(spec_parse_types(ss) == Outcome::<Seq<TypeV>, ParseFaultV>::Fails(e@));
                    assert(spec_map_anot(av) == Outcome::<crate::parser::ast::TypedIdentV, ParseFaultV>::Fails(e@));
                }
                return Outcome::Fails(e);
            },
            Outcome::Panics => {
                proof {
                    lemma_parse_types_prefix(ss, i + 1);
                }
                return Outcome::Panics;
            },
        }
        i = i + 1;
    }
    assert(ss.take(i as int) =~= ss);
    Outcome::Done(Anot { inner, anot: out })
}

impl AstBuilder {
    pub fn new(tokenizer: Tokenizer) -> (r: Self)
        ensures
            r@ == tokenizer@,
    {
        AstBuilder { tokenizer }
    }

    /// The tokens not read yet.
    pub fn tokenizer(&self) -> (r: &Tokenizer)
        ensures
            r@ == self@,
    {
        &self.tokenizer
    }

    /// Reads one expression, with the operators and parameters that follow it; this is
    /// where a function body or the inside of `(...)` is read.
    pub fn run_chunk(&mut self) -> (r: Result<Spanned<Entity>, ParseError>)
        requires
            !(spec_chunk(old(self)@).0 is Panics),
        ensures
            (res_outcome(r), final(self)@) == spec_chunk(old(self)@),
            final(self)@.len() <= old(self)@.len(),
            r is Ok ==> final(self)@.len() < old(self)@.len(),
    {
        match self.try_run_chunk() {
            Outcome::Done(v) => Ok(v),
            Outcome::Fails(e) => Err(e),
            // Excluded by the precondition: reading panics there.
            Outcome::Panics => Err(ParseFault::EmptyParen.into_err(0)),
        }
    }

    /// Reads one expression as `run_chunk` does, telling apart the tokens on which
    /// reading panics: a type annotation whose text panics when read, and a record
    /// field followed by something other than `,` or `}`.
    #[verifier::spinoff_prover]
    #[verifier::rlimit(100)]
    pub fn try_run_chunk(&mut self) -> (r: Outcome<Spanned<Entity>, ParseError>)
        ensures
            step_is(ent_res(r), final(self)@, spec_chunk(old(self)@)),
            final(self)@.len() <= old(self)@.len(),
            r is Done ==> final(self)@.len() < old(self)@.len(),
        decreases old(self)@.len(), 0int,
    {
        let t = match self.tokenizer.peek() {
            Some(t) => t,
            None => {
                return Outcome::Fails(ParseFault::EmptyParen.into_err(0));
            },
        };
        let pos = t.pos();
        match &t.inner {
            RawToken::Header(_) => Outcome::Fails(ParseFault::EmptyParen.into_err(pos)),
            RawToken::Key(Key::Where) => Outcome::Fails(ParseFault::EmptyParen.into_err(pos)),
            RawToken::Key(Key::ParenOpen) => {
                self.tokenizer.skip();
                let v = match self.try_run_chunk() {
                    Outcome::Panics => {
                        return Outcome::Panics;
                    },
                    Outcome::Done(v) => v,
                    Outcome::Fails(e) => {
                        return Outcome::Fails(e.fallback_index(pos));
                    },
                };
                let after = self.tokenizer.next();
                match after {
                    Some(a) => match a.inner {
                        RawToken::Key(Key::ParenClose) => {
                            let vpos = v.pos;
                            match v.inner {
                                Entity::Lambda(params, body) => {
                                    let ghost pv = crate::parser::ast::idents_view(params@);
                                    let ghost bv = spanned_view(*body);
                                    assert(v.inner@ == EntityV::Lambda(pv, Box::new(bv)));
                                    let c = Callable::Lambda(params, body);
                                    assert(c@ == crate::parser::ast::CallableV::Lambda(pv, Box::new(bv)));
                                    self.run_maybe_parameterized(Spanned { inner: c, pos: vpos })
                                },
                                other => {
                                    assert(!(other@ is Lambda));
                                    self.run_maybe_operator(Spanned { inner: other, pos: vpos })
                                },
                            }
                        },
                        _ => Outcome::Fails(ParseFault::Unmatched(Key::ParenOpen).into_err(pos)),
                    },
                    None => Outcome::Fails(ParseFault::Unmatched(Key::ParenOpen).into_err(pos)),
                }
            },
            RawToken::Key(Key::PrimitiveUnimplemented) => {
                self.tokenizer.skip();
                let e = Entity::Unimplemented;
                assert(e@ == EntityV::Unimplemented);
                Outcome::Done(Spanned { inner: e, pos })
            },
            RawToken::Inlined(v) => {
                let v = *v;
                self.tokenizer.skip();
                let e = Entity::Inlined(v);
                assert(e@ == EntityV::Inlined(v));
                self.run_maybe_operator(Spanned { inner: e, pos })
            },
            RawToken::Key(Key::ListOpen) => {
                self.tokenizer.skip();
                let v = match self.run_list() {
                    Outcome::Panics => {
                        return Outcome::Panics;
                    },
                    Outcome::Done(v) => v,
                    Outcome::Fails(e) => {
                        return Outcome::Fails(e.fallback_index(pos));
                    },
                };
                self.run_maybe_operator(Spanned { inner: v, pos })
            },
            RawToken::Key(Key::RecordOpen) => {
                self.tokenizer.skip();
                self.run_record()
            },
            RawToken::Key(Key::If) => {
                self.tokenizer.skip();
                let v = match self.run_if_expression() {
                    Outcome::Panics => {
                        return Outcome::Panics;
                    },
                    Outcome::Done(v) => v,
                    Outcome::Fails(e) => {
                        return Outcome::Fails(e.fallback_index(pos));
                    },
                };
                self.run_maybe_operator(Spanned { inner: v, pos })
            },
            RawToken::Key(Key::First) => {
                self.tokenizer.skip();
                let v = match self.run_first_statement() {
                    Outcome::Panics => {
                        return Outcome::Panics;
                    },
                    Outcome::Done(v) => v,
                    Outcome::Fails(e) => {
                        return Outcome::Fails(e.fallback_index(pos));
                    },
                };
                self.run_maybe_operator(Spanned { inner: v, pos })
            },
            RawToken::Identifier(_) => {
                let tok = self.tokenizer.next().unwrap();
                let ident = match tok.inner {
                    RawToken::Identifier(ident) => ident,
                    _ => {
                        assert(false);
                        return Outcome::Fails(ParseFault::EmptyParen.into_err(0));
                    },
                };
                let id = match map_anot(ident) {
                    Outcome::Panics => {
                        return Outcome::Panics;
                    },
                    Outcome::Done(id) => id,
                    Outcome::Fails(f) => {
                        return Outcome::Fails(f.into_err(pos));
                    },
                };
                let callable = Self::callable_of(id);
                let v = match self.run_maybe_parameterized(Spanned { inner: callable, pos }) {
                    Outcome::Panics => {
                        return Outcome::Panics;
                    },
                    Outcome::Done(v) => v,
                    Outcome::Fails(e) => {
                        return Outcome::Fails(e.fallback_index(pos));
                    },
                };
                self.run_maybe_operator(v)
            },
            RawToken::Key(Key::Lambda) => {
                self.tokenizer.skip();
                let v = match self.run_lambda() {
                    Outcome::Panics => {
                        return Outcome::Panics;
                    },
                    Outcome::Done(v) => v,
                    Outcome::Fails(e) => {
                        return Outcome::Fails(e.fallback_index(pos));
                    },
                };
                if self.lambda_should_consume_pipe() {
                    self.tokenizer.skip();
                    let piped = match self.try_run_chunk() {
                        Outcome::Panics => {
                            return Outcome::Panics;
                        },
                        Outcome::Done(p) => p,
                        Outcome::Fails(e) => {
                            return Outcome::Fails(e);
                        },
                    };
                    let vpos = v.pos;
                    match v.inner {
                        Entity::Lambda(params, body) => {
                            let ghost pv = crate::parser::ast::idents_view(params@);
                            let ghost bv = spanned_view(*body);
                            let ghost piped_v = spanned_view(piped);
                            assert(v.inner@ == EntityV::Lambda(pv, Box::new(bv)));
                            let mut ps: Vec<Spanned<Entity>> = Vec::new();
                            ps.push(piped);
                            proof {
                                lemma_spanned_seq_map(ps@);
                                assert(spanned_seq_view(ps@) =~= seq![piped_v]);
                            }
                            let c = Callable::Lambda(params, body);
                            assert(c@ == crate::parser::ast::CallableV::Lambda(pv, Box::new(bv)));
                            let e = Entity::Call(c, ps);
                            assert(e@ == EntityV::Call(
                                crate::parser::ast::CallableV::Lambda(pv, Box::new(bv)),
                                seq![piped_v],
                            ));
                            Outcome::Done(Spanned { inner: e, pos: vpos })
                        },
                        _ => Outcome::Panics,
                    }
                } else {
                    Outcome::Done(v)
                }
            },
            RawToken::NewLine => {
                self.tokenizer.skip();
                self.try_run_chunk()
            },
            _ => {
                let tok = self.tokenizer.next().unwrap();
                Outcome::Fails(ParseFault::Unexpected(tok.inner).into_err(pos))
            },
        }
    }

    /// What a name calls: a builtin where its path starts with `builtin` (which is
    /// taken off), else an ordinary function.
    fn callable_of(id: TypedIdent) -> (r: Callable)
        ensures
            r@ == callable_of(id@),
    {
        let Anot { inner, anot } = id;
        let Identifier { path, name, kind } = inner;
        if path.len() > 0 && str_eq(path[0].as_str(), "builtin") {
            let mut path = path;
            let ghost old_path = path@;
            let _ = path.remove(0);
            assert(strings_view(path@) =~= strings_view(old_path).drop_first());
            Callable::Builtin(Anot { inner: Identifier { path, name, kind }, anot })
        } else {
            Callable::Func(Anot { inner: Identifier { path, name, kind }, anot })
        }
    }

    /// Skips new lines; tells whether a `<<` pipe follows them.
    fn lambda_should_consume_pipe(&mut self) -> (r: bool)
        ensures
            (r, final(self)@) == spec_consume_pipe(old(self)@),
            final(self)@.len() <= old(self)@.len(),
            r ==> final(self)@.len() > 0,
        decreases old(self)@.len(),
    {
        match self.tokenizer.peek() {
            Some(t) => match t.inner {
                RawToken::Key(Key::Pipe) => true,
                RawToken::NewLine => {
                    self.tokenizer.skip();
                    self.lambda_should_consume_pipe()
                },
                _ => false,
            },
            None => false,
        }
    }

    /// Reads a lambda after its `\\`: parameters up to `->`, then the body.
    fn run_lambda(&mut self) -> (r: Outcome<Spanned<Entity>, ParseError>)
        ensures
            step_is(ent_res(r), final(self)@, spec_lambda(old(self)@)),
            final(self)@.len() <= old(self)@.len(),
        decreases old(self)@.len(), 1int,
    {
        let params: Vec<TypedIdent> = Vec::new();
        assert(crate::parser::ast::idents_view(params@) =~= Seq::empty());
        self.run_lambda_from(params)
    }

    fn run_lambda_from(&mut self, params: Vec<TypedIdent>) -> (r: Outcome<
        Spanned<Entity>,
        ParseError,
    >)
        ensures
            step_is(
                ent_res(r),
                final(self)@,
                spec_lambda_from(old(self)@, crate::parser::ast::idents_view(params@)),
            ),
            final(self)@.len() <= old(self)@.len(),
        decreases old(self)@.len(), 0int,
    {
        let tok = match self.tokenizer.next() {
            Some(t) => t,
            None => {
                return Outcome::Fails(ParseFault::Unexpected(RawToken::Key(Key::Lambda)).into_err(0));
            },
        };
        let (inner, pos) = tok.sep();
        match inner {
            RawToken::Identifier(ident) => {
                let id = match map_anot(ident) {
                    Outcome::Panics => {
                        return Outcome::Panics;
                    },
                    Outcome::Done(id) => id,
                    Outcome::Fails(f) => {
                        return Outcome::Fails(f.into_err(pos));
                    },
                };
                let mut params = params;
                let ghost old_params = params@;
                params.push(id);
                assert(crate::parser::ast::idents_view(params@) =~= crate::parser::ast::idents_view(
                    old_params,
                ).push(id@));
                self.run_lambda_from(params)
            },
            RawToken::Key(Key::Arrow) => {
                let v = match self.try_run_chunk() {
                    Outcome::Panics => {
                        return Outcome::Panics;
                    },
                    Outcome::Done(v) => v,
                    Outcome::Fails(e) => {
                        return Outcome::Fails(e);
                    },
                };
                Outcome::Done(Spanned { inner: Entity::Lambda(params, Box::new(v)), pos })
            },
            other => {
                let mut expected: Vec<Expected> = Vec::new();
                expected.push(Expected::LambdaParameter);
                expected.push(Expected::Arrow);
                assert(expected@ =~= seq![Expected::LambdaParameter, Expected::Arrow]);
                Outcome::Fails(ParseFault::GotButExpected(other, expected).into_err(pos))
            },
        }
    }

    /// Skips new lines; tells whether what follows can be a parameter.
    fn next_can_be_parameter(&mut self) -> (r: bool)
        ensures
            (r, final(self)@) == spec_next_can_be_parameter(old(self)@),
            final(self)@.len() <= old(self)@.len(),
        decreases old(self)@.len(),
    {
        match self.tokenizer.peek() {
            Some(t) => match &t.inner {
                RawToken::Inlined(_) => true,
                RawToken::Key(Key::Pipe) => true,
                RawToken::Key(Key::ParenOpen) => true,
                RawToken::Key(Key::ClosureMarker) => true,
                RawToken::Key(Key::ListOpen) => true,
                RawToken::Identifier(ident) => !ident.inner.is_operator(),
                RawToken::NewLine => {
                    self.tokenizer.skip();
                    self.next_can_be_parameter()
                },
                _ => false,
            },
            None => false,
        }
    }

    /// Reads a callable and, where parameters follow it, them and any operators after.
    fn run_maybe_parameterized(&mut self, takes: Spanned<Callable>) -> (r: Outcome<
        Spanned<Entity>,
        ParseError,
    >)
        ensures
            step_is(
                ent_res(r),
                final(self)@,
                spec_maybe_parameterized(SpannedV { inner: takes.inner@, pos: takes.pos }, old(self)@),
            ),
            final(self)@.len() <= old(self)@.len(),
        decreases old(self)@.len(), 2int,
    {
        if self.next_can_be_parameter() {
            let params = match self.run_parameterized() {
                Outcome::Panics => {
                    return Outcome::Panics;
                },
                Outcome::Done(p) => p,
                Outcome::Fails(e) => {
                    return Outcome::Fails(e);
                },
            };
            let (callable, pos) = takes.sep();
            self.run_maybe_operator(Spanned { inner: Entity::Call(callable, params), pos })
        } else {
            let (callable, pos) = takes.sep();
            Outcome::Done(Spanned { inner: Entity::from_callable(callable), pos })
        }
    }

    /// Reads the parameters given to a call.
    #[verifier::spinoff_prover]
    #[verifier::rlimit(100)]
    fn run_parameterized(&mut self) -> (r: Outcome<Vec<Spanned<Entity>>, ParseError>)
        ensures
            step_is(seq_res(r), final(self)@, spec_parameterized(old(self)@)),
            final(self)@.len() <= old(self)@.len(),
        decreases old(self)@.len(), 0int,
    {
        let t = match self.tokenizer.peek() {
            Some(t) => t,
            None => {
                let r: Vec<Spanned<Entity>> = Vec::new();
                proof {
                    lemma_spanned_seq_map(r@);
                    assert(spanned_seq_view(r@) =~= Seq::empty());
                }
                return Outcome::Done(r);
            },
        };
        let pos = t.pos();
        match &t.inner {
            RawToken::Inlined(v) => {
                let v = *v;
                self.tokenizer.skip();
                let e = Entity::Inlined(v);
                assert(e@ == EntityV::Inlined(v));
                let x = Spanned { inner: e, pos };
                let rest = match self.run_parameterized() {
                    Outcome::Panics => {
                        return Outcome::Panics;
                    },
                    Outcome::Done(p) => p,
                    Outcome::Fails(e) => {
                        return Outcome::Fails(e);
                    },
                };
                Outcome::Done(Self::prepend(x, rest))
            },
            RawToken::Identifier(ident) => {
                if ident.inner.is_operator() {
                    let r: Vec<Spanned<Entity>> = Vec::new();
                    proof {
                        lemma_spanned_seq_map(r@);
                        assert(spanned_seq_view(r@) =~= Seq::empty());
                    }
                    return Outcome::Done(r);
                }
                let tok = self.tokenizer.next().unwrap();
                let ident = match tok.inner {
                    RawToken::Identifier(ident) => ident,
                    _ => {
                        assert(false);
                        return Outcome::Fails(ParseFault::EmptyParen.into_err(0));
                    },
                };
                let id = match map_anot(ident) {
                    Outcome::Panics => {
                        return Outcome::Panics;
                    },
                    Outcome::Done(id) => id,
                    Outcome::Fails(f) => {
                        return Outcome::Fails(f.into_err(pos));
                    },
                };
                let ghost idv = id@;
                let e = Entity::SingleIdent(id);
                assert(e@ == EntityV::SingleIdent(idv));
                let x = Spanned { inner: e, pos };
                let rest = match self.run_parameterized() {
                    Outcome::Panics => {
                        return Outcome::Panics;
                    },
                    Outcome::Done(p) => p,
                    Outcome::Fails(e) => {
                        return Outcome::Fails(e);
                    },
                };
                Outcome::Done(Self::prepend(x, rest))
            },
            RawToken::Key(Key::ParenOpen) => {
                self.tokenizer.skip();
                let v = match self.try_run_chunk() {
                    Outcome::Panics => {
                        return Outcome::Panics;
                    },
                    Outcome::Done(v) => v,
                    Outcome::Fails(e) => {
                        return Outcome::Fails(e);
                    },
                };
                match self.tokenizer.next() {
                    Some(a) => {
                        let (inner, apos) = a.sep();
                        match inner {
                            RawToken::Key(Key::ParenClose) => {
                                let rest = match self.run_parameterized() {
                                    Outcome::Panics => {
                                        return Outcome::Panics;
                                    },
                                    Outcome::Done(p) => p,
                                    Outcome::Fails(e) => {
                                        return Outcome::Fails(e);
                                    },
                                };
                                Outcome::Done(Self::prepend(v, rest))
                            },
                            other => {
                                let mut expected: Vec<Expected> = Vec::new();
                                expected.push(Expected::ParenClose);
                                assert(expected@ =~= seq![Expected::ParenClose]);
                                Outcome::Fails(ParseFault::GotButExpected(other, expected).into_err(apos))
                            },
                        }
                    },
                    None => Outcome::Fails(ParseFault::Unmatched(Key::ParenOpen).into_err(0)),
                }
            },
            RawToken::Key(Key::RecordOpen) => {
                self.tokenizer.skip();
                let v = match self.run_record() {
                    Outcome::Panics => {
                        return Outcome::Panics;
                    },
                    Outcome::Done(v) => v,
                    Outcome::Fails(e) => {
                        return Outcome::Fails(e);
                    },
                };
                let ghost vv = spanned_view(v);
                let mut r: Vec<Spanned<Entity>> = Vec::new();
                r.push(v);
                proof {
                    lemma_spanned_seq_map(r@);
                    assert(spanned_seq_view(r@) =~= seq![vv]);
                }
                Outcome::Done(r)
            },
            RawToken::Key(Key::Pipe) => {
                self.tokenizer.skip();
                let v = match self.try_run_chunk() {
                    Outcome::Panics => {
                        return Outcome::Panics;
                    },
                    Outcome::Done(v) => v,
                    Outcome::Fails(e) => {
                        return Outcome::Fails(e);
                    },
                };
                let ghost vv = spanned_view(v);
                let mut r: Vec<Spanned<Entity>> = Vec::new();
                r.push(v);
                proof {
                    lemma_spanned_seq_map(r@);
                    assert(spanned_seq_view(r@) =~= seq![vv]);
                }
                Outcome::Done(r)
            },
            RawToken::Key(Key::ListOpen) => {
                self.tokenizer.skip();
                let v = match self.run_list() {
                    Outcome::Panics => {
                        return Outcome::Panics;
                    },
                    Outcome::Done(v) => v,
                    Outcome::Fails(e) => {
                        return Outcome::Fails(e);
                    },
                };
                let rest = match self.run_parameterized() {
                    Outcome::Panics => {
                        return Outcome::Panics;
                    },
                    Outcome::Done(p) => p,
                    Outcome::Fails(e) => {
                        return Outcome::Fails(e);
                    },
                };
                Outcome::Done(Self::prepend(Spanned { inner: v, pos }, rest))
            },
            RawToken::Key(Key::ClosureMarker) => {
                self.tokenizer.skip();
                let (p, ppos) = match self.run_closure_conversion() {
                    Outcome::Panics => {
                        return Outcome::Panics;
                    },
                    Outcome::Done(p) => p.sep(),
                    Outcome::Fails(e) => {
                        return Outcome::Fails(e);
                    },
                };
                let rest = match self.run_parameterized() {
                    Outcome::Panics => {
                        return Outcome::Panics;
                    },
                    Outcome::Done(p) => p,
                    Outcome::Fails(e) => {
                        return Outcome::Fails(e);
                    },
                };
                let ghost pv = p@;
                let e = Entity::Pass(p);
                assert(e@ == EntityV::Pass(pv));
                Outcome::Done(Self::prepend(Spanned { inner: e, pos: ppos }, rest))
            },
            RawToken::NewLine => {
                self.tokenizer.skip();
                self.run_parameterized()
            },
            RawToken::Header(_) | RawToken::Key(Key::Where) | RawToken::Key(Key::ParenClose)
            | RawToken::Key(Key::Then) | RawToken::Key(Key::Else) | RawToken::Key(Key::ListClose)
            | RawToken::Key(Key::And) | RawToken::Key(Key::Elif) => {
                let r: Vec<Spanned<Entity>> = Vec::new();
                proof {
                    lemma_spanned_seq_map(r@);
                    assert(spanned_seq_view(r@) =~= Seq::empty());
                }
                Outcome::Done(r)
            },
            other => Outcome::Fails(ParseFault::UnexpectedWantedParameter(other.duplicate()).into_err(pos)),
        }
    }

    /// `x` in front of `rest`.
    fn prepend(x: Spanned<Entity>, rest: Vec<Spanned<Entity>>) -> (r: Vec<Spanned<Entity>>)
        ensures
            spanned_seq_view(r@) == seq![spanned_view(x)] + spanned_seq_view(rest@),
    {
        let mut r = rest;
        let ghost old_r = r@;
        r.insert(0, x);
        proof {
            lemma_spanned_seq_map(r@);
            lemma_spanned_seq_map(old_r);
            assert(spanned_seq_view(r@) =~= seq![spanned_view(x)] + spanned_seq_view(old_r));
        }
        r
    }

    /// Reads the closure that follows a `#`.
    fn run_closure_conversion(&mut self) -> (r: Outcome<Spanned<Passable>, ParseError>)
        ensures
            step_is(pass_res(r), final(self)@, spec_closure(old(self)@)),
            final(self)@.len() <= old(self)@.len(),
        decreases old(self)@.len(), 0int,
    {
        let tok = match self.tokenizer.next() {
            Some(t) => t,
            None => {
                return Outcome::Fails(ParseFault::Unexpected(RawToken::Key(Key::ClosureMarker)).into_err(0));
            },
        };
        let (inner, pos) = tok.sep();
        match inner {
            RawToken::Key(Key::ParenOpen) => {
                let (entity, epos) = match self.try_run_chunk() {
                    Outcome::Panics => {
                        return Outcome::Panics;
                    },
                    Outcome::Done(v) => v.sep(),
                    Outcome::Fails(e) => {
                        return Outcome::Fails(e);
                    },
                };
                match self.tokenizer.next() {
                    Some(a) => {
                        let (ainner, apos) = a.sep();
                        match ainner {
                            RawToken::Key(Key::ParenClose) => {},
                            other => {
                                return Outcome::Fails(ParseFault::Unexpected(other).into_err(apos));
                            },
                        }
                    },
                    None => {
                        return Outcome::Fails(ParseFault::Unmatched(Key::ParenOpen).into_err(0));
                    },
                }
                let passable = match entity {
                    Entity::Inlined(i) => Passable::Value(i),
                    Entity::Lambda(ids, body) => Passable::Lambda(ids, body),
                    Entity::SingleIdent(id) => Passable::Func(id),
                    Entity::Call(c, ps) => Passable::PartialFunc(c, ps),
                    other => {
                        return Outcome::Fails(ParseFault::InvalidClosure(other).into_err(epos));
                    },
                };
                Outcome::Done(Spanned { inner: passable, pos: epos })
            },
            RawToken::Identifier(ident) => {
                let id = match map_anot(ident) {
                    Outcome::Panics => {
                        return Outcome::Panics;
                    },
                    Outcome::Done(id) => id,
                    Outcome::Fails(f) => {
                        return Outcome::Fails(f.into_err(pos));
                    },
                };
                Outcome::Done(Spanned { inner: Passable::Func(id), pos })
            },
            RawToken::Inlined(i) => Outcome::Done(Spanned { inner: Passable::Value(i), pos }),
            other => Outcome::Fails(ParseFault::InvalidClosureT(other).into_err(pos)),
        }
    }

    /// Reads, where an operator follows, `left` as its left operand.
    fn run_maybe_operator(&mut self, left: Spanned<Entity>) -> (r: Outcome<
        Spanned<Entity>,
        ParseError,
    >)
        ensures
            step_is(ent_res(r), final(self)@, spec_maybe_operator(spanned_view(left), old(self)@)),
            final(self)@.len() <= old(self)@.len(),
        decreases old(self)@.len(), 0int,
    {
        let t = match self.tokenizer.peek() {
            Some(t) => t,
            None => {
                return Outcome::Done(left);
            },
        };
        match &t.inner {
            RawToken::Identifier(ident) => {
                if ident.inner.is_operator() {
                    let tok = self.tokenizer.next().unwrap();
                    let (inner, pos) = tok.sep();
                    let ident = match inner {
                        RawToken::Identifier(ident) => ident,
                        _ => {
                            assert(false);
                            return Outcome::Fails(ParseFault::EmptyParen.into_err(0));
                        },
                    };
                    let op = match map_anot(ident) {
                        Outcome::Panics => {
                            return Outcome::Panics;
                        },
                        Outcome::Done(op) => op,
                        Outcome::Fails(f) => {
                            return Outcome::Fails(f.into_err(pos));
                        },
                    };
                    self.run_operator(left, Spanned { inner: op, pos })
                } else {
                    Outcome::Fails(ParseFault::Unexpected(t.inner.duplicate()).into_err(t.pos()))
                }
            },
            _ => Outcome::Done(left),
        }
    }

    /// Reads the right operand of the operator `op` after `left`.
    fn run_operator(&mut self, left: Spanned<Entity>, op: Spanned<TypedIdent>) -> (r: Outcome<
        Spanned<Entity>,
        ParseError,
    >)
        ensures
            step_is(
                ent_res(r),
                final(self)@,
                spec_operator(
                    spanned_view(left),
                    SpannedV { inner: op.inner@, pos: op.pos },
                    old(self)@,
                ),
            ),
            final(self)@.len() <= old(self)@.len(),
        decreases old(self)@.len(), 1int,
    {
        let right = match self.try_run_chunk() {
            Outcome::Panics => {
                return Outcome::Panics;
            },
            Outcome::Done(v) => v,
            Outcome::Fails(e) => {
                return Outcome::Fails(e);
            },
        };
        let (op, pos) = op.sep();
        let ghost lv = spanned_view(left);
        let ghost rv = spanned_view(right);
        let mut operands: Vec<Spanned<Entity>> = Vec::new();
        operands.push(left);
        operands.push(right);
        proof {
            lemma_spanned_seq_map(operands@);
            assert(spanned_seq_view(operands@) =~= seq![lv, rv]);
        }
        let callee = Callable::Func(op);
        let ghost cv = callee@;
        let v = Spanned { inner: Entity::Call(callee, operands), pos };
        assert(v.inner@ == EntityV::Call(cv, seq![lv, rv]));
        self.run_maybe_operator(v)
    }

    /// Reads an `if` expression after its `if`.
    fn run_if_expression(&mut self) -> (r: Outcome<Entity, ParseError>)
        ensures
            step_is(plain_res(r), final(self)@, spec_if(old(self)@)),
            final(self)@.len() <= old(self)@.len(),
        decreases old(self)@.len(), 2int,
    {
        let branches: Vec<(Spanned<Entity>, Spanned<Entity>)> = Vec::new();
        proof {
            lemma_branches_map(branches@);
        }
        self.run_if_from(branches)
    }

    fn run_if_from(&mut self, branches: Vec<(Spanned<Entity>, Spanned<Entity>)>) -> (r: Outcome<
        Entity,
        ParseError,
    >)
        ensures
            step_is(plain_res(r), final(self)@, spec_if_from(old(self)@, branches_view(branches@))),
            final(self)@.len() <= old(self)@.len(),
        decreases old(self)@.len(), 1int,
    {
        let cond = match self.try_run_chunk() {
            Outcome::Panics => {
                return Outcome::Panics;
            },
            Outcome::Done(v) => v,
            Outcome::Fails(e) => {
                return Outcome::Fails(e);
            },
        };
        match self.expect_then() {
            Outcome::Panics => {
                return Outcome::Panics;
            },
            Outcome::Done(()) => {},
            Outcome::Fails(e) => {
                return Outcome::Fails(e);
            },
        }
        let eval = match self.try_run_chunk() {
            Outcome::Panics => {
                return Outcome::Panics;
            },
            Outcome::Done(v) => v,
            Outcome::Fails(e) => {
                return Outcome::Fails(e);
            },
        };
        let mut branches = branches;
        let ghost old_b = branches@;
        branches.push((cond, eval));
        proof {
            lemma_branches_map(branches@);
            lemma_branches_map(old_b);
            assert(branches_view(branches@) =~= branches_view(old_b).push(
                (spanned_view(cond), spanned_view(eval)),
            ));
        }
        self.run_if_after(branches)
    }

    /// Skips new lines up to `then`.
    fn expect_then(&mut self) -> (r: Outcome<(), ParseError>)
        ensures
            step_is(unit_res(r), final(self)@, spec_expect_then(old(self)@)),
            final(self)@.len() <= old(self)@.len(),
            r is Done ==> final(self)@.len() < old(self)@.len(),
        decreases old(self)@.len(),
    {
        let tok = match self.tokenizer.next() {
            Some(t) => t,
            None => {
                return Outcome::Fails(ParseFault::IfMissingThen.into_err(0));
            },
        };
        let (inner, pos) = tok.sep();
        match inner {
            RawToken::Key(Key::Then) => Outcome::Done(()),
            RawToken::NewLine => self.expect_then(),
            other => Outcome::Fails(ParseFault::IfWantedThen(other).into_err(pos)),
        }
    }

    fn run_if_after(&mut self, branches: Vec<(Spanned<Entity>, Spanned<Entity>)>) -> (r: Outcome<
        Entity,
        ParseError,
    >)
        ensures
            step_is(plain_res(r), final(self)@, spec_if_after(old(self)@, branches_view(branches@))),
            final(self)@.len() <= old(self)@.len(),
        decreases old(self)@.len(), 0int,
    {
        let tok = match self.tokenizer.next() {
            Some(t) => t,
            None => {
                return Outcome::Fails(ParseFault::IfMissingThen.into_err(0));
            },
        };
        let (inner, pos) = tok.sep();
        match inner {
            RawToken::Key(Key::Elif) => self.run_if_from(branches),
            RawToken::NewLine => self.run_if_after(branches),
            RawToken::Key(Key::Else) => {
                let last = match self.try_run_chunk() {
                    Outcome::Panics => {
                        return Outcome::Panics;
                    },
                    Outcome::Done(v) => v,
                    Outcome::Fails(e) => {
                        return Outcome::Fails(e);
                    },
                };
                Outcome::Done(Entity::If(branches, Box::new(last)))
            },
            other => {
                let mut expected: Vec<Expected> = Vec::new();
                expected.push(Expected::Elif);
                expected.push(Expected::Else);
                assert(expected@ =~= seq![Expected::Elif, Expected::Else]);
                Outcome::Fails(ParseFault::GotButExpected(other, expected).into_err(pos))
            },
        }
    }

    /// Reads a `first` expression after its `first`.
    fn run_first_statement(&mut self) -> (r: Outcome<Entity, ParseError>)
        ensures
            step_is(plain_res(r), final(self)@, spec_first(old(self)@)),
            final(self)@.len() <= old(self)@.len(),
        decreases old(self)@.len(), 2int,
    {
        let branches: Vec<Spanned<Entity>> = Vec::new();
        proof {
            lemma_spanned_seq_map(branches@);
        }
        self.run_first_from(branches)
    }

    fn run_first_from(&mut self, branches: Vec<Spanned<Entity>>) -> (r: Outcome<Entity, ParseError>)
        ensures
            step_is(plain_res(r), final(self)@, spec_first_from(old(self)@, spanned_seq_view(branches@))),
            final(self)@.len() <= old(self)@.len(),
        decreases old(self)@.len(), 1int,
    {
        let v = match self.try_run_chunk() {
            Outcome::Panics => {
                return Outcome::Panics;
            },
            Outcome::Done(v) => v,
            Outcome::Fails(e) => {
                return Outcome::Fails(e);
            },
        };
        let mut branches = branches;
        let ghost old_b = branches@;
        branches.push(v);
        proof {
            crate::parser::ast::lemma_spanned_seq_push(old_b, v);
        }
        self.run_first_after(branches)
    }

    fn run_first_after(&mut self, branches: Vec<Spanned<Entity>>) -> (r: Outcome<Entity, ParseError>)
        ensures
            step_is(plain_res(r), final(self)@, spec_first_after(old(self)@, spanned_seq_view(branches@))),
            final(self)@.len() <= old(self)@.len(),
        decreases old(self)@.len(), 0int,
    {
        let tok = match self.tokenizer.next() {
            Some(t) => t,
            None => {
                return Outcome::Fails(ParseFault::FirstMissingThen.into_err(0));
            },
        };
        let (inner, pos) = tok.sep();
        match inner {
            RawToken::Key(Key::And) => self.run_first_from(branches),
            RawToken::NewLine => self.run_first_after(branches),
            RawToken::Key(Key::Then) => {
                let v = match self.try_run_chunk() {
                    Outcome::Panics => {
                        return Outcome::Panics;
                    },
                    Outcome::Done(v) => v,
                    Outcome::Fails(e) => {
                        return Outcome::Fails(e);
                    },
                };
                let mut branches = branches;
                let ghost old_b = branches@;
                branches.push(v);
                proof {
                    crate::parser::ast::lemma_spanned_seq_push(old_b, v);
                }
                Outcome::Done(Entity::First(branches))
            },
            other => Outcome::Fails(ParseFault::FirstWantedThen(other).into_err(pos)),
        }
    }

    /// Reads the items of a list after its `[`.
    fn run_list(&mut self) -> (r: Outcome<Entity, ParseError>)
        ensures
            step_is(plain_res(r), final(self)@, spec_list(old(self)@)),
            final(self)@.len() <= old(self)@.len(),
        decreases old(self)@.len(), 2int,
    {
        let buf: Vec<Spanned<Entity>> = Vec::new();
        proof {
            lemma_spanned_seq_map(buf@);
        }
        if let Some(t) = self.tokenizer.peek() {
            if let RawToken::Key(Key::ListClose) = t.inner {
                self.tokenizer.skip();
                return Outcome::Done(Entity::List(buf));
            }
        }
        self.run_list_from(buf)
    }

    fn run_list_from(&mut self, buf: Vec<Spanned<Entity>>) -> (r: Outcome<Entity, ParseError>)
        ensures
            step_is(plain_res(r), final(self)@, spec_list_from(old(self)@, spanned_seq_view(buf@))),
            final(self)@.len() <= old(self)@.len(),
        decreases old(self)@.len(), 1int,
    {
        let v = match self.try_run_chunk() {
            Outcome::Panics => {
                return Outcome::Panics;
            },
            Outcome::Done(v) => v,
            Outcome::Fails(e) => {
                return Outcome::Fails(e);
            },
        };
        let mut buf = buf;
        let ghost old_b = buf@;
        buf.push(v);
        proof {
            crate::parser::ast::lemma_spanned_seq_push(old_b, v);
        }
        match self.tokenizer.next() {
            Some(t) => {
                let (inner, pos) = t.sep();
                match inner {
                    RawToken::Key(Key::ListClose) => Outcome::Done(Entity::List(buf)),
                    RawToken::Key(Key::Comma) => self.run_list_from(buf),
                    other => {
                        let mut expected: Vec<Expected> = Vec::new();
                        expected.push(Expected::Comma);
                        expected.push(Expected::ListClose);
                        assert(expected@ =~= seq![Expected::Comma, Expected::ListClose]);
                        Outcome::Fails(ParseFault::GotButExpected(other, expected).into_err(pos))
                    },
                }
            },
            None => Outcome::Fails(ParseFault::Unmatched(Key::ListOpen).into_err(0)),
        }
    }

    /// Reads a record after its `{`: the type name, `.`, and the fields.
    fn run_record(&mut self) -> (r: Outcome<Spanned<Entity>, ParseError>)
        ensures
            step_is(ent_res(r), final(self)@, spec_record(old(self)@)),
            final(self)@.len() <= old(self)@.len(),
        decreases old(self)@.len(), 0int,
    {
        let (ident, pos) = match self.tokenizer.next() {
            Some(t) => {
                let (inner, pos) = t.sep();
                match inner {
                    RawToken::Identifier(ident) => (ident, pos),
                    other => {
                        let mut expected: Vec<Expected> = Vec::new();
                        expected.push(Expected::TypeName);
                        expected.push(Expected::Identifier);
                        assert(expected@ =~= seq![Expected::TypeName, Expected::Identifier]);
                        return Outcome::Fails(ParseFault::GotButExpected(other, expected).into_err(pos));
                    },
                }
            },
            None => {
                let mut expected: Vec<Expected> = Vec::new();
                expected.push(Expected::TypeName);
                expected.push(Expected::Identifier);
                assert(expected@ =~= seq![Expected::TypeName, Expected::Identifier]);
                return Outcome::Fails(ParseFault::EndedWhileExpecting(expected).into_err(0));
            },
        };
        match self.tokenizer.next() {
            Some(t) => {
                let (inner, dpos) = t.sep();
                match inner {
                    RawToken::Key(Key::Dot) => {},
                    other => {
                        let mut expected: Vec<Expected> = Vec::new();
                        expected.push(Expected::Dot);
                        assert(expected@ =~= seq![Expected::Dot]);
                        return Outcome::Fails(ParseFault::GotButExpected(other, expected).into_err(dpos));
                    },
                }
            },
            None => {
                let mut expected: Vec<Expected> = Vec::new();
                expected.push(Expected::Dot);
                assert(expected@ =~= seq![Expected::Dot]);
                return Outcome::Fails(ParseFault::EndedWhileExpecting(expected).into_err(pos));
            },
        }
        let fields = match self.run_record_fields() {
            Outcome::Panics => {
                return Outcome::Panics;
            },
            Outcome::Done(f) => f,
            Outcome::Fails(e) => {
                return Outcome::Fails(e);
            },
        };
        let name = match map_anot(ident) {
            Outcome::Panics => {
                return Outcome::Panics;
            },
            Outcome::Done(n) => n,
            Outcome::Fails(f) => {
                return Outcome::Fails(f.into_err(pos));
            },
        };
        Outcome::Done(Spanned { inner: Entity::Record(name, fields), pos })
    }

    /// Reads the fields of a record up to `}`; they come out last first.
    fn run_record_fields(&mut self) -> (r: Outcome<Vec<(String, Spanned<Entity>)>, ParseError>)
        ensures
            step_is(fields_res(r), final(self)@, spec_record_fields(old(self)@)),
            final(self)@.len() <= old(self)@.len(),
        decreases old(self)@.len(), 0int,
    {
        let (name, pos) = match self.tokenizer.next() {
            Some(t) => {
                let (inner, pos) = t.sep();
                match inner {
                    RawToken::Identifier(ident) => (ident.inner.name, pos),
                    other => {
                        let mut expected: Vec<Expected> = Vec::new();
                        expected.push(Expected::FieldName);
                        assert(expected@ =~= seq![Expected::FieldName]);
                        return Outcome::Fails(ParseFault::GotButExpected(other, expected).into_err(pos));
                    },
                }
            },
            None => {
                let mut expected: Vec<Expected> = Vec::new();
                expected.push(Expected::FieldName);
                assert(expected@ =~= seq![Expected::FieldName]);
                return Outcome::Fails(ParseFault::EndedWhileExpecting(expected).into_err(0));
            },
        };
        let value = match self.try_run_chunk() {
            Outcome::Panics => {
                return Outcome::Panics;
            },
            Outcome::Done(v) => v,
            Outcome::Fails(e) => {
                return Outcome::Fails(e);
            },
        };
        let after = match self.tokenizer.next() {
            Some(t) => t.inner,
            None => {
                let mut expected: Vec<Expected> = Vec::new();
                expected.push(Expected::RecordClose);
                assert(expected@ =~= seq![Expected::RecordClose]);
                return Outcome::Fails(ParseFault::EndedWhileExpecting(expected).into_err(pos));
            },
        };
        match after {
            RawToken::Key(Key::Comma) => {
                let mut buf = match self.run_record_fields() {
                    Outcome::Panics => {
                        return Outcome::Panics;
                    },
                    Outcome::Done(b) => b,
                    Outcome::Fails(e) => {
                        return Outcome::Fails(e);
                    },
                };
                let ghost old_b = buf@;
                buf.push((name, value));
                proof {
                    crate::parser::ast::lemma_fields_push(old_b, (name, value));
                }
                Outcome::Done(buf)
            },
            RawToken::Key(Key::RecordClose) => {
                let ghost fv = (name@, spanned_view(value));
                let mut buf: Vec<(String, Spanned<Entity>)> = Vec::new();
                buf.push((name, value));
                proof {
                    lemma_fields_map(buf@);
                    assert(fields_view(buf@) =~= seq![fv]);
                }
                Outcome::Done(buf)
            },
            _ => Outcome::Panics,
        }
    }
}

} // verus!
