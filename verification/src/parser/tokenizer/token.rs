use vstd::prelude::*;
use vstd::utf8::*;

use crate::parser::identifier::{
    spec_identifier, strings_view, Anot, AnotV, Identifier, IdentifierV,
};
use crate::parser::tokenizer::keys::{spec_header, spec_key, Header, Key};
use crate::text::{bytes_is, lemma_decode_nonempty, str_from_utf8};

verus! {

/// A literal value written in the source.
#[derive(PartialEq, Eq, Structural, Clone, Copy, Debug)]
pub enum Inlinable {
    Int(i64),
    Bool(bool),
    Nothing,
}

pub open spec fn is_digit(b: u8) -> bool {
    48 <= b <= 57
}

pub open spec fn all_digits(s: Seq<u8>) -> bool {
    forall|i: int| 0 <= i < s.len() ==> is_digit(#[trigger] s[i])
}

/// The number that a sequence of decimal digits denotes.
pub open spec fn digits_value(s: Seq<u8>) -> int
    decreases s.len(),
{
    if s.len() == 0 {
        0
    } else {
        digits_value(s.drop_last()) * 10 + (s.last() - 48)
    }
}

/// The integer that `b` spells: decimal digits, optionally after a `-`, within `i64`.
pub open spec fn spec_int_literal(b: Seq<u8>) -> Option<i64> {
    if b.len() > 1 && b[0] == 45 && all_digits(b.drop_first()) {
        let v = digits_value(b.drop_first());
        if v <= 0x8000_0000_0000_0000 {
            Some((-v) as i64)
        } else {
            None
        }
    } else if b.len() > 0 && all_digits(b) {
        let v = digits_value(b);
        if v <= i64::MAX {
            Some(v as i64)
        } else {
            None
        }
    } else {
        None
    }
}

/// The literal that `b` spells, if any.
pub open spec fn spec_inlined(b: Seq<u8>) -> Option<Inlinable> {
    if b == seq![116u8, 114u8, 117u8, 101u8] {
        Some(Inlinable::Bool(true))
    } else if b == seq![102u8, 97u8, 108u8, 115u8, 101u8] {
        Some(Inlinable::Bool(false))
    } else {
        match spec_int_literal(b) {
            Some(n) => Some(Inlinable::Int(n)),
            None => None,
        }
    }
}

proof fn lemma_digits_value_nonneg_grows(s: Seq<u8>, k: int)
    requires
        all_digits(s),
        0 <= k <= s.len(),
    ensures
        0 <= digits_value(s.take(k)) <= digits_value(s),
    decreases s.len(),
{
    if s.len() > 0 {
        assert(all_digits(s.drop_last())) by {
            assert forall|i: int| 0 <= i < s.drop_last().len() implies is_digit(
                #[trigger] s.drop_last()[i],
            ) by {
                assert(s.drop_last()[i] == s[i]);
            }
        }
        assert(is_digit(s[s.len() - 1]));
        if k == s.len() {
            assert(s.take(k) =~= s);
            lemma_digits_value_nonneg_grows(s.drop_last(), 0);
        } else {
            assert(s.drop_last().take(k) =~= s.take(k));
            lemma_digits_value_nonneg_grows(s.drop_last(), k);
        }
    } else {
        assert(s.take(k) =~= s);
    }
}

/// The value of the decimal digits `d[from..]`, or `None` where it exceeds `u64`.
fn digits_u64(d: &[u8], from: usize) -> (r: Option<u64>)
    requires
        from <= d@.len(),
        all_digits(d@.subrange(from as int, d@.len() as int)),
    ensures
        match r {
            Some(v) => v == digits_value(d@.subrange(from as int, d@.len() as int)),
            None => digits_value(d@.subrange(from as int, d@.len() as int)) > u64::MAX,
        },
{
    let ghost s = d@.subrange(from as int, d@.len() as int);
    let mut acc: u64 = 0;
    let mut i = from;
    assert(s.take(0) =~= Seq::<u8>::empty());
    while i < d.len()
        invariant
            from <= i <= d@.len(),
            s == d@.subrange(from as int, d@.len() as int),
            all_digits(s),
            acc == digits_value(s.take(i - from)),
        decreases d@.len() - i,
    {
        assert(s.take(i - from + 1).drop_last() =~= s.take(i - from));
        assert(s.take(i - from + 1).last() == d@[i as int]);
        assert(is_digit(s[i - from]));
        let digit = (d[i] - 48) as u64;
        match acc.checked_mul(10) {
            Some(m) => match m.checked_add(digit) {
                Some(n) => {
                    acc = n;
                },
                None => {
                    proof {
                        lemma_digits_value_nonneg_grows(s, i - from + 1);
                    }
                    return None;
                },
            },
            None => {
                proof {
                    lemma_digits_value_nonneg_grows(s, i - from + 1);
                    lemma_digits_value_nonneg_grows(s.take(i - from + 1), i - from);
                    assert(s.take(i - from + 1).take(i - from) =~= s.take(i - from));
                }
                return None;
            },
        }
        i = i + 1;
    }
    assert(s.take(i - from) =~= s);
    Some(acc)
}

fn all_digits_from(d: &[u8], from: usize) -> (r: bool)
    requires
        from <= d@.len(),
    ensures
        r == all_digits(d@.subrange(from as int, d@.len() as int)),
{
    let mut i = from;
    while i < d.len()
        invariant
            from <= i <= d@.len(),
            forall|j: int| from <= j < i ==> is_digit(#[trigger] d@[j]),
        decreases d@.len() - i,
    {
        if d[i] < 48 || d[i] > 57 {
            assert(d@.subrange(from as int, d@.len() as int)[i - from] == d@[i as int]);
            return false;
        }
        i = i + 1;
    }
    assert forall|j: int| 0 <= j < d@.len() - from implies is_digit(
        #[trigger] d@.subrange(from as int, d@.len() as int)[j],
    ) by {
        assert(d@.subrange(from as int, d@.len() as int)[j] == d@[from + j]);
    }
    true
}

impl Inlinable {
    /// Reads a literal from its spelling.
    pub fn from_bytes(bytes: &[u8]) -> (r: Option<Inlinable>)
        ensures
            r == spec_inlined(bytes@),
    {
        if bytes_is(bytes, &[116u8, 114u8, 117u8, 101u8]) {
            return Some(Inlinable::Bool(true));
        }
        if bytes_is(bytes, &[102u8, 97u8, 108u8, 115u8, 101u8]) {
            return Some(Inlinable::Bool(false));
        }
        assert(bytes@.subrange(0, bytes@.len() as int) =~= bytes@);
        if bytes.len() > 1 && bytes[0] == 45 && all_digits_from(bytes, 1) {
            assert(bytes@.subrange(1, bytes@.len() as int) =~= bytes@.drop_first());
            match digits_u64(bytes, 1) {
                Some(v) => {
                    if v < 0x8000_0000_0000_0000 {
                        let n = v as i64;
                        Some(Inlinable::Int(0i64 - n))
                    } else if v == 0x8000_0000_0000_0000 {
                        Some(Inlinable::Int(i64::MIN))
                    } else {
                        None
                    }
                },
                None => None,
            }
        } else if bytes.len() > 0 && all_digits_from(bytes, 0) {
            match digits_u64(bytes, 0) {
                Some(v) => {
                    if v <= 0x7fff_ffff_ffff_ffff {
                        Some(Inlinable::Int(v as i64))
                    } else {
                        None
                    }
                },
                None => None,
            }
        } else {
            None
        }
    }
}

/// One token of source text.
pub enum RawToken {
    Identifier(Anot<Identifier, String>),
    Header(Header),
    Key(Key),
    Inlined(Inlinable),
    NewLine,
}

/// The model of a [`RawToken`].
pub enum RawTokenV {
    Identifier(AnotV<IdentifierV, Seq<char>>),
    Header(Header),
    Key(Key),
    Inlined(Inlinable),
    NewLine,
}

impl View for RawToken {
    type V = RawTokenV;

    open spec fn view(&self) -> RawTokenV {
        match self {
            RawToken::Identifier(a) => RawTokenV::Identifier(a@),
            RawToken::Header(h) => RawTokenV::Header(*h),
            RawToken::Key(k) => RawTokenV::Key(*k),
            RawToken::Inlined(i) => RawTokenV::Inlined(*i),
            RawToken::NewLine => RawTokenV::NewLine,
        }
    }
}

impl RawToken {
    /// A copy of this token.
    pub fn duplicate(&self) -> (r: RawToken)
        ensures
            r@ == self@,
    {
        match self {
            RawToken::Identifier(a) => RawToken::Identifier(a.duplicate()),
            RawToken::Header(h) => RawToken::Header(*h),
            RawToken::Key(k) => RawToken::Key(*k),
            RawToken::Inlined(i) => RawToken::Inlined(*i),
            RawToken::NewLine => RawToken::NewLine,
        }
    }
}

/// A token together with the index in the source where it starts.
pub struct Token {
    pub source_index: usize,
    pub inner: RawToken,
}

/// The model of a [`Token`].
pub struct TokenV {
    pub source_index: usize,
    pub inner: RawTokenV,
}

impl View for Token {
    type V = TokenV;

    open spec fn view(&self) -> TokenV {
        TokenV { source_index: self.source_index, inner: self.inner@ }
    }
}

/// The token that the non-empty, valid UTF-8 text `b` reads as.
pub open spec fn spec_raw_token(b: Seq<u8>) -> RawTokenV {
    if let Some(h) = spec_header(b) {
        RawTokenV::Header(h)
    } else if let Some(k) = spec_key(b) {
        RawTokenV::Key(k)
    } else if let Some(i) = spec_inlined(b) {
        RawTokenV::Inlined(i)
    } else if b == seq![10u8] {
        RawTokenV::NewLine
    } else {
        RawTokenV::Identifier(
            AnotV { inner: spec_identifier(decode_utf8(b))->Ok_0, anot: Seq::empty() },
        )
    }
}

impl Token {
    pub fn new(inner: RawToken, source_index: usize) -> (r: Token)
        ensures
            r.inner == inner,
            r.source_index == source_index,
    {
        Token { source_index, inner }
    }

    /// The same token, found at `source_index`.
    pub fn with_source_index(self, source_index: usize) -> (r: Self)
        ensures
            r.source_index == source_index,
            r.inner == self.inner,
    {
        let mut t = self;
        t.source_index = source_index;
        t
    }

    pub fn pos(&self) -> (r: usize)
        ensures
            r == self.source_index,
    {
        self.source_index
    }

    pub fn sep(self) -> (r: (RawToken, usize))
        ensures
            r.0 == self.inner,
            r.1 == self.source_index,
    {
        (self.inner, self.source_index)
    }

    /// Reads one token from its text; fails only on empty text.
    pub fn from_bytes(bytes: &[u8]) -> (r: Result<Token, ()>)
        requires
            valid_utf8(bytes@),
        ensures
            bytes@.len() == 0 <==> r is Err,
            r matches Ok(t) ==> t.source_index == 0 && t.inner@ == spec_raw_token(bytes@),
    {
        if bytes.len() == 0 {
            return Err(());
        }
        let newline: &[u8] = &[10u8];
        assert(newline@ == seq![10u8]);
        let inner = if let Some(h) = Header::from_bytes(bytes) {
            RawToken::Header(h)
        } else if let Some(k) = Key::from_bytes(bytes) {
            RawToken::Key(k)
        } else if let Some(i) = Inlinable::from_bytes(bytes) {
            RawToken::Inlined(i)
        } else if bytes_is(bytes, newline) {
            RawToken::NewLine
        } else {
            let text = str_from_utf8(bytes).unwrap();
            proof {
                lemma_decode_nonempty(bytes@);
            }
            let ident = match Identifier::parse(text) {
                Ok(ident) => ident,
                Err(_) => {
                    return Err(());
                },
            };
            RawToken::Identifier(Anot { inner: ident, anot: Vec::new() })
        };
        proof {
            if inner is Identifier {
                assert(strings_view(Seq::<String>::empty()) =~= Seq::<Seq<char>>::empty());
            }
        }
        Ok(Token { inner, source_index: 0 })
    }
}

} // verus!
