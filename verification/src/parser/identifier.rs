use vstd::prelude::*;

use crate::parser::fault::{ParseFault, ParseFaultV};
use crate::text::{chars_of, string_from_chars};

verus! {

/// Whether an identifier names an ordinary function or an infix operator.
#[derive(PartialEq, Eq, Structural, Clone, Copy, Debug)]
pub enum IdentifierType {
    Normal,
    Operator,
}

/// A possibly module-qualified name such as `io:puts`.
pub struct Identifier {
    pub path: Vec<String>,
    pub name: String,
    pub kind: IdentifierType,
}

/// The mathematical model of an [`Identifier`].
pub struct IdentifierV {
    pub path: Seq<Seq<char>>,
    pub name: Seq<char>,
    pub kind: IdentifierType,
}

pub open spec fn strings_view(v: Seq<String>) -> Seq<Seq<char>> {
    v.map_values(|s: String| s@)
}

impl View for Identifier {
    type V = IdentifierV;

    open spec fn view(&self) -> IdentifierV {
        IdentifierV { path: strings_view(self.path@), name: self.name@, kind: self.kind }
    }
}

/// A value together with its type annotations, as in `name<int, a>`.
pub struct Anot<T, A> {
    pub inner: T,
    pub anot: Vec<A>,
}

/// The model of an [`Anot`].
pub struct AnotV<T, A> {
    pub inner: T,
    pub anot: Seq<A>,
}

impl<T, A> Anot<T, A> {
    /// Pairs a value with its annotations.
    pub fn from(parts: (T, Vec<A>)) -> (r: Self)
        ensures
            r.inner == parts.0,
            r.anot == parts.1,
    {
        Anot { inner: parts.0, anot: parts.1 }
    }
}

impl Anot<Identifier, String> {
    /// A copy of this annotated identifier.
    pub fn duplicate(&self) -> (r: Self)
        ensures
            r@ == self@,
    {
        Anot { inner: self.inner.duplicate(), anot: duplicate_strings(&self.anot) }
    }
}

impl View for Anot<Identifier, String> {
    type V = AnotV<IdentifierV, Seq<char>>;

    open spec fn view(&self) -> Self::V {
        AnotV { inner: self.inner@, anot: strings_view(self.anot@) }
    }
}

/// A value together with the index in the source where it was found.
pub struct Spanned<T> {
    pub inner: T,
    pub pos: usize,
}

impl<T> Spanned<T> {
    pub fn new(inner: T) -> (r: Self)
        ensures
            r.inner == inner,
            r.pos == 0,
    {
        Spanned { inner, pos: 0 }
    }

    pub fn set(self, pos: usize) -> (r: Self)
        ensures
            r.inner == self.inner,
            r.pos == pos,
    {
        Spanned { inner: self.inner, pos }
    }

    pub fn pos(&self) -> (r: usize)
        ensures
            r == self.pos,
    {
        self.pos
    }

    pub fn sep(self) -> (r: (T, usize))
        ensures
            r.0 == self.inner,
            r.1 == self.pos,
    {
        (self.inner, self.pos)
    }
}

/// The characters that start an operator name.
pub open spec fn is_operator_char(c: char) -> bool {
    c == '+' || c == '-' || c == '*' || c == '/' || c == '<' || c == '>' || c == '=' || c == '!'
        || c == '&' || c == '|' || c == '%' || c == '^' || c == '~' || c == '?' || c == '@'
        || c == '$'
}

fn is_operator_char_exec(c: char) -> (r: bool)
    ensures
        r == is_operator_char(c),
{
    c == '+' || c == '-' || c == '*' || c == '/' || c == '<' || c == '>' || c == '=' || c == '!'
        || c == '&' || c == '|' || c == '%' || c == '^' || c == '~' || c == '?' || c == '@'
        || c == '$'
}

/// The `:`-separated segments of `cs`; there is always at least one.
pub open spec fn split_path(cs: Seq<char>) -> Seq<Seq<char>>
    decreases cs.len(),
{
    if cs.len() == 0 {
        seq![Seq::empty()]
    } else {
        let p = split_path(cs.drop_last());
        if cs.last() == ':' {
            p.push(Seq::empty())
        } else {
            p.update(p.len() - 1, p.last().push(cs.last()))
        }
    }
}

pub proof fn lemma_split_path_nonempty(cs: Seq<char>)
    ensures
        split_path(cs).len() >= 1,
    decreases cs.len(),
{
    if cs.len() > 0 {
        lemma_split_path_nonempty(cs.drop_last());
    }
}

/// The kind of an identifier with the given name.
pub open spec fn kind_of_name(name: Seq<char>) -> IdentifierType {
    if name.len() > 0 && is_operator_char(name[0]) {
        IdentifierType::Operator
    } else {
        IdentifierType::Normal
    }
}

/// The identifier that the text `cs` denotes: its `:`-separated segments are the
/// module path followed by the name.
pub open spec fn spec_identifier(cs: Seq<char>) -> Result<IdentifierV, ParseFaultV> {
    if cs.len() == 0 {
        Err(ParseFaultV::EmptyIdentifier)
    } else {
        let segs = split_path(cs);
        Ok(
            IdentifierV {
                path: segs.drop_last(),
                name: segs.last(),
                kind: kind_of_name(segs.last()),
            },
        )
    }
}

/// A copy of a list of strings.
pub fn duplicate_strings(v: &Vec<String>) -> (r: Vec<String>)
    ensures
        strings_view(r@) == strings_view(v@),
{
    let mut r: Vec<String> = Vec::new();
    let mut i: usize = 0;
    while i < v.len()
        invariant
            i <= v@.len(),
            r@ =~= v@.take(i as int),
        decreases v@.len() - i,
    {
        r.push(v[i].clone());
        i = i + 1;
    }
    assert(v@.take(i as int) =~= v@);
    r
}

impl Identifier {
    /// A copy of this identifier.
    pub fn duplicate(&self) -> (r: Identifier)
        ensures
            r@ == self@,
    {
        Identifier { path: duplicate_strings(&self.path), name: self.name.clone(), kind: self.kind }
    }

    pub fn is_operator(&self) -> (r: bool)
        ensures
            r == (self.kind == IdentifierType::Operator),
    {
        match self.kind {
            IdentifierType::Operator => true,
            IdentifierType::Normal => false,
        }
    }

    /// Reads an identifier from its text.
    pub fn parse(text: &str) -> (r: Result<Identifier, ParseFault>)
        ensures
            match (r, spec_identifier(text@)) {
                (Ok(id), Ok(v)) => id@ == v,
                (Err(e), Err(f)) => e@ == f,
                _ => false,
            },
    {
        let cs = chars_of(text);
        if cs.len() == 0 {
            return Err(ParseFault::EmptyIdentifier);
        }
        let mut path: Vec<String> = Vec::new();
        let mut start: usize = 0;
        let mut i: usize = 0;
        assert(cs@.take(0) =~= Seq::<char>::empty());
        assert(strings_view(path@) =~= Seq::<Seq<char>>::empty());
        assert(cs@.subrange(0, 0) =~= Seq::<char>::empty());
        assert(strings_view(path@).push(cs@.subrange(0, 0)) =~= split_path(cs@.take(0)));
        while i < cs.len()
            invariant
                start <= i <= cs@.len(),
                strings_view(path@).push(cs@.subrange(start as int, i as int)) == split_path(
                    cs@.take(i as int),
                ),
            decreases cs@.len() - i,
        {
            let ghost before = cs@.take(i as int);
            assert(cs@.take(i + 1).drop_last() == before);
            if cs[i] == ':' {
                let seg = string_from_chars(&cs, start, i);
                let ghost old_path = path@;
                path.push(seg);
                start = i + 1;
                assert(strings_view(path@) =~= strings_view(old_path).push(seg@));
                assert(cs@.subrange(start as int, (i + 1) as int) =~= Seq::<char>::empty());
                assert(strings_view(path@).push(cs@.subrange(start as int, (i + 1) as int))
                    =~= split_path(cs@.take(i + 1)));
            } else {
                proof {
                    lemma_split_path_nonempty(before);
                }
                assert(cs@.subrange(start as int, (i + 1) as int) =~= cs@.subrange(
                    start as int,
                    i as int,
                ).push(cs@[i as int]));
                assert(strings_view(path@).push(cs@.subrange(start as int, (i + 1) as int))
                    =~= split_path(cs@.take(i + 1)));
            }
            i = i + 1;
        }
        assert(cs@.take(i as int) == cs@);
        let name = string_from_chars(&cs, start, cs.len());
        let kind = if start < cs.len() && is_operator_char_exec(cs[start]) {
            IdentifierType::Operator
        } else {
            IdentifierType::Normal
        };
        proof {
            lemma_split_path_nonempty(cs@);
            let segs = split_path(cs@);
            assert(segs.drop_last() =~= strings_view(path@));
            if start < cs.len() {
                assert(name@[0] == cs@[start as int]);
            }
        }
        Ok(Identifier { path, name, kind })
    }
}

} // verus!
