use vstd::prelude::*;
use vstd::string::StringSliceAdditionalSpecFns;
use vstd::utf8::*;

use crate::parser::fault::{Outcome, ParseFault, ParseFaultV};
use crate::parser::identifier::{
    spec_identifier, strings_view, Anot, AnotV, Identifier, IdentifierType, IdentifierV,
};
use crate::parser::types::{lemma_types_view_push, types_view, Type, TypeV};
use crate::text::{
    chars_eq, chars_of, lemma_encode_len, lemma_encode_subrange, lemma_encode_trim,
    lemma_skip_ascii_first, string_from_chars, trim, trim_chars,
};

verus! {


/// The first index at or after `from` where `x` holds `c`, or `x.len()`.
pub open spec fn find_char(x: Seq<char>, c: char, from: int) -> int
    decreases x.len() - from,
{
    if from >= x.len() {
        x.len() as int
    } else if x[from] == c {
        from
    } else {
        find_char(x, c, from + 1)
    }
}

pub proof fn lemma_find_char(x: Seq<char>, c: char, from: int)
    requires
        0 <= from <= x.len(),
    ensures
        from <= find_char(x, c, from) <= x.len(),
        find_char(x, c, from) < x.len() ==> x[find_char(x, c, from)] == c,
        forall|i: int| from <= i < find_char(x, c, from) ==> x[i] != c,
    decreases x.len() - from,
{
    if from < x.len() && x[from] != c {
        lemma_find_char(x, c, from + 1);
    }
}

/// The type that a bare name (without annotations) denotes, given its annotations.
pub open spec fn spec_type_name(name: Seq<char>, anot: Seq<TypeV>) -> Outcome<TypeV, ParseFaultV> {
    if name == "int"@ {
        Outcome::Done(TypeV::Int)
    } else if name == "float"@ {
        Outcome::Done(TypeV::Float)
    } else if name == "nothing"@ || name == "_"@ {
        Outcome::Done(TypeV::Nothing)
    } else if name == "bool"@ {
        Outcome::Done(TypeV::Bool)
    } else {
        match spec_identifier(name) {
            Ok(id) => Outcome::Done(TypeV::Custom(AnotV { inner: id, anot })),
            Err(e) => Outcome::Fails(e),
        }
    }
}

/// What reading the type written as `x` gives. A list type `[t]` is read by
/// dropping the first byte and the last two bytes of its UTF-8 text.
pub open spec fn spec_parse_type(x: Seq<char>) -> Outcome<TypeV, ParseFaultV>
    decreases encode_utf8(x).len(), x.len() + 1, 0int,
{
    if x.len() == 0 {
        Outcome::Panics
    } else if x[0] == '[' {
        let b = encode_utf8(x);
        if b.len() < 3 {
            Outcome::Fails(ParseFaultV::EmptyListType)
        } else if !is_char_boundary(b, b.len() - 2) {
            Outcome::Panics
        } else {
            let inner = trim(decode_utf8(b.subrange(1, b.len() - 2)));
            proof {
                lemma_list_inner_shorter(x);
            }
            match spec_parse_type(inner) {
                Outcome::Done(t) => Outcome::Done(TypeV::List(Box::new(t))),
                Outcome::Fails(e) => Outcome::Fails(e),
                Outcome::Panics => Outcome::Panics,
            }
        }
    } else if 'a' <= x[0] && x[0] <= 'z' && encode_utf8(x).len() == 1 {
        Outcome::Done(TypeV::Generic((x[0] as u32 - 97) as u8))
    } else {
        let k = find_char(x, '<', 0);
        proof {
            lemma_find_char(x, '<', 0);
        }
        if k >= x.len() {
            spec_type_name(x, Seq::empty())
        } else {
            match spec_annotation(x, k + 1, Seq::empty()) {
                Outcome::Done((anot, p)) => if p < x.len() {
                    Outcome::Panics
                } else {
                    spec_type_name(x.subrange(0, k), anot)
                },
                _ => Outcome::Panics,
            }
        }
    }
}

/// Reads comma-separated types from `cs` at `pos` up to a closing `>`, after the
/// types `acc` already read; gives the types and the index after them.
pub open spec fn spec_annotation(cs: Seq<char>, pos: int, acc: Seq<TypeV>) -> Outcome<
    (Seq<TypeV>, int),
    (),
>
    decreases encode_utf8(cs).len(), cs.len() - pos, 1int,
{
    if !(0 <= pos <= cs.len()) {
        Outcome::Panics
    } else {
        match spec_splice(cs, pos, pos, ",>"@) {
            Outcome::Done((None, p)) => if acc.len() == 0 {
                Outcome::Done((acc, p))
            } else {
                Outcome::Panics
            },
            Outcome::Done((Some((c, t)), p)) => if c == ',' {
                if pos < p <= cs.len() {
                    spec_annotation(cs, p, acc.push(t))
                } else {
                    Outcome::Panics
                }
            } else if c == '>' {
                if p < cs.len() {
                    Outcome::Panics
                } else {
                    Outcome::Done((acc.push(t), p))
                }
            } else {
                Outcome::Panics
            },
            _ => Outcome::Panics,
        }
    }
}

/// Reads from `cs` at `pos` up to one of `points`, the text read so far starting at
/// `start`; gives the stop character with the type read before it, or nothing at the
/// end of the text, and the index after what was read.
pub open spec fn spec_splice(cs: Seq<char>, start: int, pos: int, points: Seq<char>) -> Outcome<
    (Option<(char, TypeV)>, int),
    (),
>
    decreases encode_utf8(cs).len(), cs.len() - pos, 0int,
{
    if !(0 <= start <= pos < cs.len()) {
        Outcome::Done((None, pos))
    } else {
        let c = cs[pos];
        if points.contains(c) {
            let s = trim(cs.subrange(start, pos));
            proof {
                lemma_encode_subrange(cs, start, pos);
                lemma_encode_trim(cs.subrange(start, pos));
            }
            match spec_parse_type(s) {
                Outcome::Done(t) => Outcome::Done((Some((c, t)), pos + 1)),
                _ => Outcome::Panics,
            }
        } else if c == '[' {
            if pos > start {
                Outcome::Panics
            } else {
                match spec_splice(cs, pos + 1, pos + 1, "]"@) {
                    Outcome::Done((None, p)) => Outcome::Done((None, p)),
                    Outcome::Done((Some((a, t)), p)) => if a != ']' {
                        Outcome::Panics
                    } else if 0 <= p < cs.len() {
                        Outcome::Done((Some((cs[p], TypeV::List(Box::new(t)))), p + 1))
                    } else {
                        Outcome::Done((Some((a, TypeV::List(Box::new(t)))), p))
                    },
                    _ => Outcome::Panics,
                }
            }
        } else if c == '<' {
            match spec_annotation(cs, pos + 1, Seq::empty()) {
                Outcome::Done((anot, p)) => Outcome::Done(
                    (
                        Some(
                            (
                                '>',
                                TypeV::Custom(
                                    AnotV {
                                        inner: IdentifierV {
                                            path: Seq::empty(),
                                            name: cs.subrange(start, pos),
                                            kind: IdentifierType::Normal,
                                        },
                                        anot,
                                    },
                                ),
                            ),
                        ),
                        p,
                    ),
                ),
                _ => Outcome::Panics,
            }
        } else {
            spec_splice(cs, start, pos + 1, points)
        }
    }
}

proof fn lemma_splice_end(cs: Seq<char>, start: int, pos: int, points: Seq<char>)
    requires
        0 <= start <= pos <= cs.len(),
    ensures
        spec_splice(cs, start, pos, points) matches Outcome::Done((o, p)) ==> p <= cs.len() && (
        o is None ==> p == cs.len()),
    decreases encode_utf8(cs).len(), cs.len() - pos, 0int,
{
    if pos < cs.len() {
        let c = cs[pos];
        if !points.contains(c) {
            if c == '[' {
                if pos <= start {
                    lemma_splice_end(cs, pos + 1, pos + 1, "]"@);
                }
            } else if c == '<' {
                law_annotation_reads_to_end(cs, pos + 1, Seq::empty());
            } else {
                lemma_splice_end(cs, start, pos + 1, points);
            }
        }
    }
}

/// Annotations are read up to the end of the text: where reading them gives a value,
/// the index after them is the length of the text.
pub proof fn law_annotation_reads_to_end(cs: Seq<char>, pos: int, acc: Seq<TypeV>)
    ensures
        spec_annotation(cs, pos, acc) matches Outcome::Done((a, p)) ==> p == cs.len(),
    decreases encode_utf8(cs).len(), cs.len() - pos, 1int,
{
    if 0 <= pos <= cs.len() {
        lemma_splice_end(cs, pos, pos, ",>"@);
        if let Outcome::Done((Some((c, t)), p)) = spec_splice(cs, pos, pos, ",>"@) {
            if c == ',' && pos < p <= cs.len() {
                law_annotation_reads_to_end(cs, p, acc.push(t));
            }
        }
    }
}

/// A type in brackets is a list type: where reading meets `[` at the start of what it
/// reads, the type it gives is the list of the type read up to the closing `]`, never
/// that inner type itself.
pub proof fn law_bracket_reads_a_list(cs: Seq<char>, pos: int, points: Seq<char>)
    requires
        0 <= pos < cs.len(),
        cs[pos] == '[',
        !points.contains('['),
    ensures
        spec_splice(cs, pos + 1, pos + 1, "]"@) matches Outcome::Done((Some((a, t)), q)) ==> (a
            == ']' ==> (spec_splice(cs, pos, pos, points) matches Outcome::Done((Some((_c, u)), _p))
            && u == TypeV::List(Box::new(t)))),
        spec_splice(cs, pos, pos, points) matches Outcome::Done((Some((_c, u)), _p)) ==> u is List,
{
}

/// Annotations keep list types: an annotation written `[..]` is read as a list type.
pub proof fn law_annotation_keeps_lists(cs: Seq<char>, pos: int)
    requires
        0 <= pos < cs.len(),
        cs[pos] == '[',
    ensures
        spec_splice(cs, pos, pos, ",>"@) matches Outcome::Done((Some((_c, u)), _p)) ==> u is List,
{
    reveal_strlit(",>");
    assert(!",>"@.contains('[')) by {
        assert(",>"@[0] != '[' && ",>"@[1] != '[');
    }
    law_bracket_reads_a_list(cs, pos, ",>"@);
}

pub proof fn lemma_list_inner_shorter(x: Seq<char>)
    requires
        x.len() > 0,
        x[0] == '[',
        encode_utf8(x).len() >= 3,
        is_char_boundary(encode_utf8(x), encode_utf8(x).len() - 2),
    ensures
        ({
            let b = encode_utf8(x);
            let inner = trim(decode_utf8(b.subrange(1, b.len() - 2)));
            encode_utf8(inner).len() < b.len()
        }),
{
    let b = encode_utf8(x);
    let sub = b.subrange(1, b.len() - 2);
    lemma_skip_ascii_first(x, b.len() - 2);
    decode_utf8_encode_utf8(sub);
    lemma_encode_trim(decode_utf8(sub));
}

/// Whether a checked parse result is the outcome `o`: the same type, the same fault,
/// or a panic.
pub open spec fn type_outcome_is(r: Outcome<Type, ParseFault>, o: Outcome<TypeV, ParseFaultV>) -> bool {
    match (r, o) {
        (Outcome::Done(t), Outcome::Done(v)) => t@ == v,
        (Outcome::Fails(e), Outcome::Fails(f)) => e@ == f,
        (Outcome::Panics, Outcome::Panics) => true,
        _ => false,
    }
}

/// Whether a parse result is the one an outcome describes.
pub open spec fn type_result_is(r: Result<Type, ParseFault>, o: Outcome<TypeV, ParseFaultV>) -> bool {
    match o {
        Outcome::Done(t) => r matches Ok(v) && v@ == t,
        Outcome::Fails(e) => r matches Err(f) && f@ == e,
        Outcome::Panics => false,
    }
}

fn chars_contain(v: &Vec<char>, c: char) -> (r: bool)
    ensures
        r == v@.contains(c),
{
    let mut i: usize = 0;
    while i < v.len()
        invariant
            i <= v@.len(),
            forall|j: int| 0 <= j < i ==> v@[j] != c,
        decreases v@.len() - i,
    {
        if v[i] == c {
            return true;
        }
        i = i + 1;
    }
    false
}

fn sub_chars(cs: &Vec<char>, from: usize, to: usize) -> (r: Vec<char>)
    requires
        from <= to <= cs@.len(),
    ensures
        r@ == cs@.subrange(from as int, to as int),
{
    let mut r: Vec<char> = Vec::new();
    let mut i = from;
    while i < to
        invariant
            from <= i <= to <= cs@.len(),
            r@ == cs@.subrange(from as int, i as int),
        decreases to - i,
    {
        r.push(cs[i]);
        i = i + 1;
    }
    r
}

/// The type named by `name` with the annotations `anot`.
fn named_type(name: &Vec<char>, anot: Vec<Type>) -> (r: Result<Type, ParseFault>)
    ensures
        type_result_is(r, spec_type_name(name@, types_view(anot@))),
{
    if chars_eq(name, &chars_of("int")) {
        Ok(Type::Int)
    } else if chars_eq(name, &chars_of("float")) {
        Ok(Type::Float)
    } else if chars_eq(name, &chars_of("nothing")) || chars_eq(name, &chars_of("_")) {
        Ok(Type::Nothing)
    } else if chars_eq(name, &chars_of("bool")) {
        Ok(Type::Bool)
    } else {
        let text = string_from_chars(name, 0, name.len());
        assert(name@.subrange(0, name@.len() as int) =~= name@);
        match Identifier::parse(text.as_str()) {
            Ok(id) => Ok(Type::Custom(Anot { inner: id, anot })),
            Err(e) => Err(e),
        }
    }
}

/// Reads the type written as the characters `x`.
fn parse_chars(x: &Vec<char>) -> (r: Outcome<Type, ParseFault>)
    ensures
        type_outcome_is(r, spec_parse_type(x@)),
    decreases encode_utf8(x@).len(), x@.len() + 1, 0int,
{
    if x.len() == 0 {
        return Outcome::Panics;
    }
    let first = x[0];
    if first == '[' {
        let text = string_from_chars(x, 0, x.len());
        assert(x@.subrange(0, x@.len() as int) =~= x@);
        let src: &str = text.as_str();
        assert(src@ == x@);
        assert(src.spec_bytes() == encode_utf8(x@));
        let n = src.as_bytes().len();
        if n < 3 {
            return Outcome::Fails(ParseFault::EmptyListType);
        }
        if !src.is_char_boundary(n - 2) {
            return Outcome::Panics;
        }
        let ghost b = encode_utf8(x@);
        let (head, _) = src.split_at(n - 2);
        proof {
            lemma_skip_ascii_first(x@, n - 2);
            lemma_list_inner_shorter(x@);
        }
        let (_, inner) = head.split_at(1);
        proof {
            assert(inner.spec_bytes() =~= b.subrange(1, n - 2));
            encode_utf8_decode_utf8(inner@);
        }
        let ic = chars_of(inner);
        let trimmed = trim_chars(&ic);
        match parse_chars(&trimmed) {
            Outcome::Done(t) => Outcome::Done(Type::List(Box::new(t))),
            Outcome::Fails(e) => Outcome::Fails(e),
            Outcome::Panics => Outcome::Panics,
        }
    } else if 'a' <= first && first <= 'z' && x.len() == 1 {
        proof {
            assert(x@ =~= seq![first]);
            assert(encode_utf8(x@.drop_first()) =~= Seq::<u8>::empty()) by {
                assert(x@.drop_first() =~= Seq::<char>::empty());
            }
            assert(has_width_1_encoding(first as u32));
        }
        let g = (first as u32 - 97) as u8;
        Outcome::Done(Type::Generic(g))
    } else {
        proof {
            if 'a' <= first && first <= 'z' {
                lemma_encode_len(x@);
                if encode_utf8(x@).len() == 1 {
                    assert(x@.len() == 1);
                }
            }
            lemma_find_char(x@, '<', 0);
        }
        let mut k: usize = 0;
        while k < x.len() && x[k] != '<'
            invariant
                k <= x@.len(),
                forall|i: int| 0 <= i < k ==> x@[i] != '<',
            decreases x@.len() - k,
        {
            k = k + 1;
        }
        assert(k == find_char(x@, '<', 0));
        let named = if k == x.len() {
            named_type(x, Vec::new())
        } else {
            let (anot, p) = match annotation_checked(x, k + 1) {
                Outcome::Done(found) => found,
                _ => {
                    return Outcome::Panics;
                },
            };
            if p < x.len() {
                return Outcome::Panics;
            }
            let name = sub_chars(x, 0, k);
            named_type(&name, anot)
        };
        match named {
            Ok(t) => Outcome::Done(t),
            Err(e) => Outcome::Fails(e),
        }
    }
}

impl Type {
    /// Reads a type from its text: `int`, `float`, `bool`, `nothing` or `_`, a single
    /// lower-case letter for a generic parameter, `[...]` for a list, or a possibly
    /// annotated name such as `map<int, a>`.
    pub fn parse(source: &str) -> (r: Result<Type, ParseFault>)
        requires
            !(spec_parse_type(source@) is Panics),
        ensures
            type_result_is(r, spec_parse_type(source@)),
    {
        let cs = chars_of(source);
        match parse_chars(&cs) {
            Outcome::Done(t) => Ok(t),
            Outcome::Fails(e) => Err(e),
            Outcome::Panics => Err(ParseFault::EmptyListType),
        }
    }

    /// Reads a type as `parse` does, telling apart the texts on which reading panics:
    /// an empty text, a list whose text cannot be cut before its last two bytes, and
    /// annotations that are not closed or are followed by more text.
    pub fn try_parse(source: &str) -> (r: Outcome<Type, ParseFault>)
        ensures
            type_outcome_is(r, spec_parse_type(source@)),
    {
        let cs = chars_of(source);
        parse_chars(&cs)
    }
}

/// Reads annotations as `annotation` does, telling apart the texts on which reading
/// them panics.
fn annotation_checked(chars: &Vec<char>, pos: usize) -> (r: Outcome<(Vec<Type>, usize), ()>)
    requires
        pos <= chars@.len(),
    ensures
        match (r, spec_annotation(chars@, pos as int, Seq::empty())) {
            (Outcome::Done((v, p)), Outcome::Done((anot, q))) => types_view(v@) == anot && p == q
                && p == chars@.len(),
            (Outcome::Panics, Outcome::Panics) => true,
            _ => false,
        },
    decreases encode_utf8(chars@).len(), chars@.len() - pos, 1int,
{
    let ghost goal = spec_annotation(chars@, pos as int, Seq::empty());
    let mut at = pos;
    let mut annotations: Vec<Type> = Vec::new();
    assert(types_view(annotations@) =~= Seq::<TypeV>::empty());
    loop
        invariant
            pos <= at <= chars@.len(),
            spec_annotation(chars@, at as int, types_view(annotations@)) == goal,
            goal == spec_annotation(chars@, pos as int, Seq::empty()),
        decreases chars@.len() - at,
    {
        proof {
            law_annotation_reads_to_end(chars@, at as int, types_view(annotations@));
        }
        let (found, next) = match splice_checked(chars, at, ",>") {
            Outcome::Done(found) => found,
            _ => {
                return Outcome::Panics;
            },
        };
        match found {
            Some((c, t)) => {
                proof {
                    lemma_types_view_push(annotations@, t);
                }
                if c == ',' && !(at < next && next <= chars.len()) {
                    return Outcome::Panics;
                }
                at = next;
                if c == ',' {
                    annotations.push(t);
                } else if c == '>' {
                    annotations.push(t);
                    if at < chars.len() {
                        return Outcome::Panics;
                    }
                    return Outcome::Done((annotations, at));
                } else {
                    return Outcome::Panics;
                }
            },
            None => {
                if annotations.len() == 0 {
                    return Outcome::Done((annotations, next));
                } else {
                    return Outcome::Panics;
                }
            },
        }
    }
}

/// Reads as `splice_to` does, telling apart the texts on which reading panics.
fn splice_checked(chars: &Vec<char>, pos: usize, points: &str) -> (r: Outcome<
    (Option<(char, Type)>, usize),
    (),
>)
    requires
        pos <= chars@.len(),
    ensures
        match (r, spec_splice(chars@, pos as int, pos as int, points@)) {
            (Outcome::Done((f, p)), Outcome::Done((o, q))) => p == q && match (f, o) {
                (None, None) => true,
                (Some((c, t)), Some((c2, t2))) => c == c2 && t@ == t2,
                _ => false,
            },
            (Outcome::Panics, Outcome::Panics) => true,
            _ => false,
        },
    decreases encode_utf8(chars@).len(), chars@.len() - pos, 0int,
{
    let pts = chars_of(points);
    let start = pos;
    let mut cur = pos;
    let ghost goal = spec_splice(chars@, start as int, start as int, points@);
    loop
        invariant
            start <= cur <= chars@.len(),
            start == pos,
            pts@ == points@,
            spec_splice(chars@, start as int, cur as int, points@) == goal,
            goal == spec_splice(chars@, pos as int, pos as int, points@),
        decreases chars@.len() - cur,
    {
        if cur >= chars.len() {
            return Outcome::Done((None, cur));
        }
        let at = cur;
        let c = chars[at];
        cur = at + 1;
        if chars_contain(&pts, c) {
            let s = sub_chars(chars, start, at);
            let trimmed = trim_chars(&s);
            proof {
                lemma_encode_subrange(chars@, start as int, at as int);
                lemma_encode_trim(chars@.subrange(start as int, at as int));
            }
            match parse_chars(&trimmed) {
                Outcome::Done(t) => {
                    return Outcome::Done((Some((c, t)), cur));
                },
                _ => {
                    return Outcome::Panics;
                },
            }
        }
        if c == '[' {
            if at > start {
                return Outcome::Panics;
            }
            let (found, next) = match splice_checked(chars, cur, "]") {
                Outcome::Done(found) => found,
                _ => {
                    return Outcome::Panics;
                },
            };
            match found {
                None => {
                    return Outcome::Done((None, next));
                },
                Some((a, t)) => {
                    if a != ']' {
                        return Outcome::Panics;
                    }
                    if next < chars.len() {
                        return Outcome::Done(
                            (Some((chars[next], Type::List(Box::new(t)))), next + 1),
                        );
                    } else {
                        return Outcome::Done((Some((a, Type::List(Box::new(t)))), next));
                    }
                },
            }
        }
        if c == '<' {
            match annotation_checked(chars, cur) {
                Outcome::Done((anot, next)) => {
                    let name = string_from_chars(chars, start, at);
                    let ident = Identifier { path: Vec::new(), name, kind: IdentifierType::Normal };
                    proof {
                        assert(strings_view(ident.path@) =~= Seq::<Seq<char>>::empty());
                    }
                    return Outcome::Done((Some(('>', Type::Custom(Anot { inner: ident, anot }))), next));
                },
                _ => {
                    return Outcome::Panics;
                },
            }
        }
    }
}

/// Reads, from `chars` at `pos`, comma-separated types up to a closing `>`; gives
/// them with the index after what it read.
pub fn annotation(chars: &Vec<char>, pos: usize) -> (r: (Option<Vec<Type>>, usize))
    requires
        pos <= chars@.len(),
        !(spec_annotation(chars@, pos as int, Seq::empty()) is Panics),
    ensures
        match spec_annotation(chars@, pos as int, Seq::empty()) {
            Outcome::Done((anot, p)) => r.0 matches Some(v) && types_view(v@) == anot && r.1 == p,
            _ => false,
        },
        r.1 == chars@.len(),
{
    match annotation_checked(chars, pos) {
        Outcome::Done((anot, p)) => (Some(anot), p),
        _ => (None, pos),
    }
}

/// Reads from `chars` at `pos` up to one of the characters of `points`; gives the
/// character it stopped at with the type written before it, or nothing where the text
/// ends first, together with the index after what it read.
pub fn splice_to(chars: &Vec<char>, pos: usize, points: &str) -> (r: (Option<(char, Type)>, usize))
    requires
        pos <= chars@.len(),
        !(spec_splice(chars@, pos as int, pos as int, points@) is Panics),
    ensures
        match spec_splice(chars@, pos as int, pos as int, points@) {
            Outcome::Done((o, p)) => r.1 == p && match (r.0, o) {
                (None, None) => true,
                (Some((c, t)), Some((c2, t2))) => c == c2 && t@ == t2,
                _ => false,
            },
            _ => false,
        },
{
    match splice_checked(chars, pos, points) {
        Outcome::Done(found) => found,
        _ => (None, pos),
    }
}

} // verus!
