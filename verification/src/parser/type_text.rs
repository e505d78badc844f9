use vstd::prelude::*;

use crate::parser::identifier::{duplicate_strings, strings_view, IdentifierV};
use crate::parser::types::{
    lemma_types_view_index,
    lemma_types_view_len,
    lemma_types_view_push,
    type_view,
    types_view,
    InferenceTable,
    MaybeType,
    Type,
    TypeV,
};
use crate::text::{
    decimal,
    joined,
    push_decimal,
    push_joined,
    push_signed_decimal,
    push_str,
    signed_decimal,
    string_from_chars,
};

verus! {

/// Whether each generic parameter of `t` has a letter: its number is at most 158,
/// so that adding the code of `a` stays within a byte.
pub open spec fn letters_fit(t: TypeV) -> bool
    decreases t,
{
    match t {
        TypeV::Generic(g) => g <= 158,
        TypeV::List(b) => letters_fit(*b),
        TypeV::Function(ps, r) => all_letters_fit(ps) && letters_fit(*r),
        TypeV::Custom(a) => all_letters_fit(a.anot),
        _ => true,
    }
}

pub open spec fn all_letters_fit(s: Seq<TypeV>) -> bool
    decreases s,
{
    if s.len() == 0 {
        true
    } else {
        all_letters_fit(s.drop_last()) && letters_fit(s.last())
    }
}

/// A name as written in source: its path and name separated by `:`.
pub open spec fn ident_text(id: IdentifierV) -> Seq<char> {
    joined(id.path.push(id.name), ":"@)
}

/// How a type is shown: `int`, a letter for a generic parameter, `[t]` for a list,
/// `(a b -> c)` for a function, `Struct(f:t)`, `f:t` for a resolved custom type, and
/// `unevaluated type` with the name and annotations of a custom type not resolved yet.
pub open spec fn spec_type_text(t: TypeV) -> Seq<char>
    decreases t,
{
    match t {
        TypeV::Nothing => "nothing"@,
        TypeV::Int => "int"@,
        TypeV::Float => "float"@,
        TypeV::Bool => "bool"@,
        TypeV::Generic(g) => seq![(g + 97) as char],
        TypeV::Function(ps, r) => "("@ + joined(type_texts(ps), " "@) + " -> "@ + spec_type_text(*r)
            + ")"@,
        TypeV::List(b) => "["@ + spec_type_text(*b) + "]"@,
        TypeV::Struct(f, id) => "Struct("@ + signed_decimal(f as int) + ":"@ + signed_decimal(
            id as int,
        ) + ")"@,
        TypeV::Custom(a) => "unevaluated type "@ + ident_text(a.inner) + if a.anot.len() == 0 {
            Seq::empty()
        } else {
            "<"@ + joined(type_texts(a.anot), ", "@) + ">"@
        },
        TypeV::KnownCustom(f, id) => decimal(f as nat) + ":"@ + decimal(id as nat),
    }
}

pub open spec fn type_texts(s: Seq<TypeV>) -> Seq<Seq<char>>
    decreases s,
{
    if s.len() == 0 {
        Seq::empty()
    } else {
        type_texts(s.drop_last()).push(spec_type_text(s.last()))
    }
}

proof fn lemma_all_letters_fit(s: Seq<TypeV>, i: int)
    requires
        all_letters_fit(s),
        0 <= i < s.len(),
    ensures
        letters_fit(s[i]),
    decreases s.len(),
{
    if i < s.len() - 1 {
        lemma_all_letters_fit(s.drop_last(), i);
    }
}

/// Appends the text of each of `ts` to `out`, with `sep` between each two.
fn push_texts(out: &mut Vec<char>, ts: &Vec<Type>, sep: &str)
    requires
        all_letters_fit(types_view(ts@)),
    ensures
        final(out)@ == old(out)@ + joined(type_texts(types_view(ts@)), sep@),
    decreases ts@, 0int,
{
    let ghost start = out@;
    let mut i: usize = 0;
    assert(types_view(ts@.take(0)) =~= Seq::<TypeV>::empty());
    assert(out@ =~= start + joined(type_texts(types_view(ts@.take(0))), sep@));
    while i < ts.len()
        invariant
            i <= ts@.len(),
            all_letters_fit(types_view(ts@)),
            out@ == start + joined(type_texts(types_view(ts@.take(i as int))), sep@),
        decreases ts@.len() - i,
    {
        assert(decreases_to!(ts@ => ts@[i as int]));
        proof {
            lemma_types_view_len(ts@);
            lemma_types_view_index(ts@, i as int);
            lemma_all_letters_fit(types_view(ts@), i as int);
        }
        let ghost prev = type_texts(types_view(ts@.take(i as int)));
        if i > 0 {
            push_str(out, sep);
        }
        ts[i].push_text(out);
        proof {
            assert(ts@.take(i as int).push(ts@[i as int]) =~= ts@.take(i + 1));
            lemma_types_view_push(ts@.take(i as int), ts@[i as int]);
            let tv = types_view(ts@.take(i + 1));
            assert(tv.drop_last() =~= types_view(ts@.take(i as int)));
            let next = type_texts(tv);
            assert(next == prev.push(spec_type_text(type_view(ts@[i as int]))));
            assert(next.drop_last() =~= prev);
            lemma_types_view_len(ts@.take(i as int));
            if i == 0 {
                assert(next.len() == 1);
            }
        }
        i = i + 1;
        assert(out@ =~= start + joined(type_texts(types_view(ts@.take(i as int))), sep@));
    }
    assert(ts@.take(i as int) =~= ts@);
}

/// Appends a name as written in source to `out`.
fn push_ident(out: &mut Vec<char>, path: &Vec<String>, name: &String)
    ensures
        final(out)@ == old(out)@ + joined(strings_view(path@).push(name@), ":"@),
{
    let mut parts = duplicate_strings(path);
    let ghost before = parts@;
    parts.push(name.clone());
    assert(parts@.map_values(|s: String| s@) =~= strings_view(path@).push(name@)) by {
        assert(strings_view(before) == strings_view(path@));
    }
    push_joined(out, &parts, ":");
}

impl Type {
    /// This type as text, as it is shown to the user.
    pub fn to_text(&self) -> (r: String)
        requires
            letters_fit(self@),
        ensures
            r@ == spec_type_text(self@),
    {
        let mut out: Vec<char> = Vec::new();
        self.push_text(&mut out);
        assert(out@.subrange(0, out@.len() as int) =~= out@);
        string_from_chars(&out, 0, out.len())
    }

    /// Appends the text of this type to `out`.
    fn push_text(&self, out: &mut Vec<char>)
        requires
            letters_fit(self@),
        ensures
            final(out)@ == old(out)@ + spec_type_text(self@),
        decreases self, 0int,
    {
        let ghost start = out@;
        match self {
            Type::Nothing => push_str(out, "nothing"),
            Type::Int => push_str(out, "int"),
            Type::Float => push_str(out, "float"),
            Type::Bool => push_str(out, "bool"),
            Type::Generic(g) => {
                let code: u8 = *g + 97;
                out.push(code as char);
            },
            Type::Function(b) => {
                push_str(out, "(");
                push_texts(out, &b.0, " ");
                push_str(out, " -> ");
                b.1.push_text(out);
                push_str(out, ")");
            },
            Type::List(inner) => {
                push_str(out, "[");
                (**inner).push_text(out);
                push_str(out, "]");
            },
            Type::Struct(f, id) => {
                push_str(out, "Struct(");
                push_signed_decimal(out, *f as i64);
                push_str(out, ":");
                push_signed_decimal(out, *id as i64);
                push_str(out, ")");
            },
            Type::Custom(a) => {
                push_str(out, "unevaluated type ");
                push_ident(out, &a.inner.path, &a.inner.name);
                if a.anot.len() > 0 {
                    push_str(out, "<");
                    push_texts(out, &a.anot, ", ");
                    push_str(out, ">");
                }
                proof {
                    lemma_types_view_len(a.anot@);
                }
            },
            Type::KnownCustom(f, id) => {
                push_decimal(out, *f as u64);
                push_str(out, ":");
                push_decimal(out, *id as u64);
            },
        }
        assert(out@ =~= start + spec_type_text(self@));
    }
}

impl MaybeType {
    /// This type as text: `?` while it is not known.
    pub fn to_text(&self, table: &InferenceTable) -> (r: String)
        requires
            self matches MaybeType::Infer(cell) ==> cell < table.cells@.len() && (
            table.cells@[cell as int] matches Some(t) ==> letters_fit(t@)),
            self matches MaybeType::Known(t) ==> letters_fit(t@),
        ensures
            r@ == match self {
                MaybeType::Infer(cell) => match table.cells@[*cell as int] {
                    Some(t) => spec_type_text(t@),
                    None => "?"@,
                },
                MaybeType::Known(t) => spec_type_text(t@),
            },
    {
        match self {
            MaybeType::Infer(cell) => match &table.cells[*cell] {
                Some(t) => t.to_text(),
                None => {
                    let mut out: Vec<char> = Vec::new();
                    push_str(&mut out, "?");
                    assert(out@.subrange(0, out@.len() as int) =~= out@);
                    string_from_chars(&out, 0, out.len())
                },
            },
            MaybeType::Known(t) => t.to_text(),
        }
    }
}

} // verus!
