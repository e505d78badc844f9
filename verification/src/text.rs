use vstd::prelude::*;
use vstd::utf8::*;

verus! {


/// The characters of `s`, in order.
pub fn chars_of(s: &str) -> (r: Vec<char>)
    ensures
        r@ == s@,
{
    let mut r: Vec<char> = Vec::new();
    for c in it: s.chars()
        invariant
            r@ == it.seq().take(it.index() as int),
            it.seq() == s@,
    {
        r.push(c);
    }
    r
}

/// Appends one character to a string (`String::push`).
#[verifier::external_body]
fn string_push(s: &mut String, c: char)
    ensures
        final(s)@ == old(s)@.push(c),
{
    s.push(c);
}

/// A new string holding `cs[from..to]`.
pub fn string_from_chars(cs: &Vec<char>, from: usize, to: usize) -> (r: String)
    requires
        from <= to <= cs@.len(),
    ensures
        r@ == cs@.subrange(from as int, to as int),
{
    let mut r = String::new();
    let mut i = from;
    while i < to
        invariant
            from <= i <= to <= cs@.len(),
            r@ == cs@.subrange(from as int, i as int),
        decreases to - i,
    {
        string_push(&mut r, cs[i]);
        i = i + 1;
    }
    r
}

/// Whether two character buffers hold the same characters.
pub fn chars_eq(a: &Vec<char>, b: &Vec<char>) -> (r: bool)
    ensures
        r == (a@ == b@),
{
    if a.len() != b.len() {
        return false;
    }
    let mut i: usize = 0;
    while i < a.len()
        invariant
            a@.len() == b@.len(),
            i <= a@.len(),
            forall|j: int| 0 <= j < i ==> a@[j] == b@[j],
        decreases a@.len() - i,
    {
        if a[i] != b[i] {
            return false;
        }
        i = i + 1;
    }
    assert(a@ =~= b@);
    true
}

/// Whether two strings hold the same characters.
pub fn str_eq(a: &str, b: &str) -> (r: bool)
    ensures
        r == (a@ == b@),
{
    let ca = chars_of(a);
    let cb = chars_of(b);
    chars_eq(&ca, &cb)
}

/// The characters that `char::is_whitespace` accepts: those with the Unicode
/// property `White_Space`.
pub open spec fn is_white_space(c: char) -> bool {
    ||| ('\t' <= c && c <= '\r')
    ||| c == ' '
    ||| c == '\u{85}'
    ||| c == '\u{a0}'
    ||| c == '\u{1680}'
    ||| ('\u{2000}' <= c && c <= '\u{200a}')
    ||| c == '\u{2028}'
    ||| c == '\u{2029}'
    ||| c == '\u{202f}'
    ||| c == '\u{205f}'
    ||| c == '\u{3000}'
}

pub fn is_white_space_exec(c: char) -> (r: bool)
    ensures
        r == is_white_space(c),
{
    ('\t' <= c && c <= '\r') || c == ' ' || c == '\u{85}' || c == '\u{a0}' || c == '\u{1680}' || (
    '\u{2000}' <= c && c <= '\u{200a}') || c == '\u{2028}' || c == '\u{2029}' || c == '\u{202f}'
        || c == '\u{205f}' || c == '\u{3000}'
}

/// Number of leading white-space characters of `s`.
pub open spec fn leading_ws(s: Seq<char>) -> nat
    decreases s.len(),
{
    if s.len() > 0 && is_white_space(s[0]) {
        1 + leading_ws(s.drop_first())
    } else {
        0
    }
}

/// Number of trailing white-space characters of `s`.
pub open spec fn trailing_ws(s: Seq<char>) -> nat
    decreases s.len(),
{
    if s.len() > 0 && is_white_space(s.last()) {
        1 + trailing_ws(s.drop_last())
    } else {
        0
    }
}

/// `s` with leading and trailing white space removed, as `str::trim` does.
pub open spec fn trim(s: Seq<char>) -> Seq<char> {
    let a = leading_ws(s);
    if a == s.len() {
        Seq::empty()
    } else {
        s.subrange(a as int, s.len() - trailing_ws(s))
    }
}

pub proof fn lemma_leading_ws_bound(s: Seq<char>)
    ensures
        leading_ws(s) <= s.len(),
        leading_ws(s) < s.len() ==> !is_white_space(s[leading_ws(s) as int]),
        forall|i: int| 0 <= i < leading_ws(s) ==> is_white_space(#[trigger] s[i]),
    decreases s.len(),
{
    if s.len() > 0 && is_white_space(s[0]) {
        lemma_leading_ws_bound(s.drop_first());
        assert forall|i: int| 0 <= i < leading_ws(s) implies is_white_space(#[trigger] s[i]) by {
            if i > 0 {
                assert(s[i] == s.drop_first()[i - 1]);
            }
        }
    }
}

pub proof fn lemma_trailing_ws_bound(s: Seq<char>)
    ensures
        trailing_ws(s) <= s.len(),
        trailing_ws(s) < s.len() ==> !is_white_space(s[s.len() - 1 - trailing_ws(s)]),
        forall|i: int| s.len() - trailing_ws(s) <= i < s.len() ==> is_white_space(#[trigger] s[i]),
    decreases s.len(),
{
    if s.len() > 0 && is_white_space(s.last()) {
        lemma_trailing_ws_bound(s.drop_last());
        assert forall|i: int| s.len() - trailing_ws(s) <= i < s.len() implies is_white_space(
            #[trigger] s[i],
        ) by {
            if i < s.len() - 1 {
                assert(s[i] == s.drop_last()[i]);
            }
        }
    }
}

pub proof fn lemma_leading_ws_at_least(s: Seq<char>, k: int)
    requires
        0 <= k <= s.len(),
        forall|i: int| 0 <= i < k ==> is_white_space(#[trigger] s[i]),
    ensures
        k <= leading_ws(s),
    decreases k,
{
    if k > 0 {
        assert(is_white_space(s[0]));
        assert forall|i: int| 0 <= i < k - 1 implies is_white_space(#[trigger] s.drop_first()[i]) by {
            assert(s.drop_first()[i] == s[i + 1]);
        }
        lemma_leading_ws_at_least(s.drop_first(), k - 1);
    }
}

pub proof fn lemma_trailing_ws_at_least(s: Seq<char>, k: int)
    requires
        0 <= k <= s.len(),
        forall|i: int| s.len() - k <= i < s.len() ==> is_white_space(#[trigger] s[i]),
    ensures
        k <= trailing_ws(s),
    decreases k,
{
    if k > 0 {
        assert(is_white_space(s[s.len() - 1]));
        assert forall|i: int| s.drop_last().len() - (k - 1) <= i < s.drop_last().len() implies is_white_space(
            #[trigger] s.drop_last()[i],
        ) by {
            assert(s.drop_last()[i] == s[i]);
        }
        lemma_trailing_ws_at_least(s.drop_last(), k - 1);
    }
}

pub proof fn lemma_trim_bounds(s: Seq<char>)
    ensures
        leading_ws(s) < s.len() ==> leading_ws(s) <= s.len() - trailing_ws(s),
        trim(s).len() <= s.len(),
{
    lemma_leading_ws_bound(s);
    lemma_trailing_ws_bound(s);
    if leading_ws(s) < s.len() {
        let a = leading_ws(s) as int;
        if a > s.len() - trailing_ws(s) {
            assert(is_white_space(s[a]));
        }
    }
}

/// The characters of `cs` with white space trimmed from both ends.
pub fn trim_chars(cs: &Vec<char>) -> (r: Vec<char>)
    ensures
        r@ == trim(cs@),
{
    proof {
        lemma_leading_ws_bound(cs@);
        lemma_trailing_ws_bound(cs@);
        lemma_trim_bounds(cs@);
    }
    let mut a: usize = 0;
    while a < cs.len() && is_white_space_exec(cs[a])
        invariant
            a <= cs@.len(),
            forall|i: int| 0 <= i < a ==> is_white_space(#[trigger] cs@[i]),
        decreases cs@.len() - a,
    {
        a = a + 1;
    }
    proof {
        lemma_leading_ws_at_least(cs@, a as int);
    }
    if a == cs.len() {
        return Vec::new();
    }
    assert(a == leading_ws(cs@));
    let mut b: usize = cs.len();
    while b > a && is_white_space_exec(cs[b - 1])
        invariant
            a < cs@.len(),
            !is_white_space(cs@[a as int]),
            a <= b <= cs@.len(),
            forall|i: int| b <= i < cs@.len() ==> is_white_space(#[trigger] cs@[i]),
        decreases b,
    {
        b = b - 1;
    }
    proof {
        lemma_trailing_ws_at_least(cs@, cs@.len() - b);
    }
    assert(b == cs@.len() - trailing_ws(cs@));
    let mut r: Vec<char> = Vec::new();
    let mut i = a;
    while i < b
        invariant
            a <= i <= b <= cs@.len(),
            r@ == cs@.subrange(a as int, i as int),
        decreases b - i,
    {
        r.push(cs[i]);
        i = i + 1;
    }
    r
}


pub proof fn lemma_encode_concat(a: Seq<char>, b: Seq<char>)
    ensures
        encode_utf8(a + b) == encode_utf8(a) + encode_utf8(b),
    decreases a.len(),
{
    if a.len() == 0 {
        assert(a + b =~= b);
        assert(encode_utf8(a) + encode_utf8(b) =~= encode_utf8(b));
    } else {
        assert((a + b)[0] == a[0]);
        assert((a + b).drop_first() =~= a.drop_first() + b);
        lemma_encode_concat(a.drop_first(), b);
        assert(encode_utf8(a + b) =~= encode_scalar(a[0] as u32) + (encode_utf8(a.drop_first())
            + encode_utf8(b)));
    }
}

pub proof fn lemma_encode_len(x: Seq<char>)
    ensures
        encode_utf8(x).len() >= x.len(),
    decreases x.len(),
{
    if x.len() > 0 {
        lemma_encode_len(x.drop_first());
        assert(encode_scalar(x[0] as u32).len() >= 1);
    }
}

pub proof fn lemma_encode_subrange(x: Seq<char>, i: int, j: int)
    requires
        0 <= i <= j <= x.len(),
    ensures
        encode_utf8(x.subrange(i, j)).len() + (x.len() - (j - i)) <= encode_utf8(x).len(),
{
    let p = x.subrange(0, i);
    let m = x.subrange(i, j);
    let q = x.subrange(j, x.len() as int);
    assert(x =~= p + m + q);
    lemma_encode_concat(p + m, q);
    lemma_encode_concat(p, m);
    lemma_encode_len(p);
    lemma_encode_len(q);
}

pub proof fn lemma_encode_trim(s: Seq<char>)
    ensures
        encode_utf8(trim(s)).len() <= encode_utf8(s).len(),
        trim(s).len() <= s.len(),
{
    lemma_trim_bounds(s);
    lemma_leading_ws_bound(s);
    if leading_ws(s) < s.len() {
        lemma_encode_subrange(s, leading_ws(s) as int, s.len() - trailing_ws(s));
    } else {
        assert(trim(s) =~= Seq::<char>::empty());
        assert(encode_utf8(trim(s)) =~= Seq::<u8>::empty());
    }
}

/// Decoding the bytes of `[`-prefixed text after its first byte.
pub proof fn lemma_skip_ascii_first(x: Seq<char>, k: int)
    requires
        x.len() > 0,
        x[0] == '[',
        1 <= k <= encode_utf8(x).len(),
        is_char_boundary(encode_utf8(x), k),
    ensures
        valid_utf8(encode_utf8(x).subrange(1, k)),
        is_char_boundary(encode_utf8(x).subrange(0, k), 1),
        encode_utf8(x).subrange(0, k) == seq![91u8] + encode_utf8(x).subrange(1, k),
{
    broadcast use encode_utf8_valid_utf8, valid_utf8_split;

    let b = encode_utf8(x);
    let h = b.subrange(0, k);
    assert(valid_utf8(h));
    assert((91u32 & 0x7Fu32) == 91u32) by (bit_vector);
    assert(x[0] as u32 == 91u32);
    assert(encode_scalar(x[0] as u32) =~= seq![91u8]);
    assert(b[0] == 91u8);
    assert(h =~= seq![91u8] + b.subrange(1, k));
    assert(valid_first_scalar(h));
    assert(length_of_first_scalar(h) == 1);
    assert(pop_first_scalar(h) =~= b.subrange(1, k));
    reveal_with_fuel(is_char_boundary, 2);
}

/// Whether a byte slice holds exactly the bytes of `lit`.
pub fn bytes_is(bytes: &[u8], lit: &[u8]) -> (r: bool)
    ensures
        r == (bytes@ == lit@),
{
    if bytes.len() != lit.len() {
        return false;
    }
    let mut i: usize = 0;
    while i < bytes.len()
        invariant
            bytes@.len() == lit@.len(),
            i <= bytes@.len(),
            forall|j: int| 0 <= j < i ==> bytes@[j] == lit@[j],
        decreases bytes@.len() - i,
    {
        if bytes[i] != lit[i] {
            return false;
        }
        i = i + 1;
    }
    assert(bytes@ =~= lit@);
    true
}

/// `std::str::from_utf8`: the text that a byte slice encodes, where it is valid UTF-8.
#[verifier::external_body]
pub(crate) fn str_from_utf8(bytes: &[u8]) -> (r: Option<&str>)
    ensures
        r is Some <==> valid_utf8(bytes@),
        r matches Some(s) ==> s@ == decode_utf8(bytes@),
{
    std::str::from_utf8(bytes).ok()
}

pub proof fn lemma_decode_nonempty(b: Seq<u8>)
    requires
        valid_utf8(b),
        b.len() > 0,
    ensures
        decode_utf8(b).len() > 0,
{
    reveal_with_fuel(decode_utf8, 1);
}


/// Appends the characters of `s` to `out`.
pub fn push_str(out: &mut Vec<char>, s: &str)
    ensures
        final(out)@ == old(out)@ + s@,
{
    let cs = chars_of(s);
    let mut i: usize = 0;
    while i < cs.len()
        invariant
            i <= cs@.len(),
            out@ == old(out)@ + cs@.take(i as int),
        decreases cs@.len() - i,
    {
        out.push(cs[i]);
        i = i + 1;
        assert(out@ =~= old(out)@ + cs@.take(i as int));
    }
    assert(cs@.take(i as int) =~= cs@);
}

/// The parts in order with `sep` between each two of them.
pub open spec fn joined(parts: Seq<Seq<char>>, sep: Seq<char>) -> Seq<char>
    decreases parts.len(),
{
    if parts.len() == 0 {
        Seq::empty()
    } else if parts.len() == 1 {
        parts[0]
    } else {
        joined(parts.drop_last(), sep) + sep + parts.last()
    }
}

/// Appends the strings of `parts` to `out`, with `sep` between each two of them.
pub fn push_joined(out: &mut Vec<char>, parts: &Vec<String>, sep: &str)
    ensures
        final(out)@ == old(out)@ + joined(parts@.map_values(|s: String| s@), sep@),
{
    let ghost views = parts@.map_values(|s: String| s@);
    let ghost start = out@;
    let mut i: usize = 0;
    assert(views.take(0) =~= Seq::<Seq<char>>::empty());
    assert(out@ =~= start + joined(views.take(0), sep@));
    while i < parts.len()
        invariant
            i <= parts@.len(),
            views == parts@.map_values(|s: String| s@),
            out@ == start + joined(views.take(i as int), sep@),
        decreases parts@.len() - i,
    {
        if i > 0 {
            push_str(out, sep);
        }
        push_str(out, parts[i].as_str());
        proof {
            let next = views.take(i + 1);
            assert(next.drop_last() =~= views.take(i as int));
            if i == 0 {
                assert(joined(next, sep@) == next[0]);
            }
        }
        i = i + 1;
        assert(out@ =~= start + joined(views.take(i as int), sep@));
    }
    assert(views.take(i as int) =~= views);
}

/// The decimal digit for `d`.
pub open spec fn digit_char(d: int) -> char {
    (d + 48) as char
}

/// The decimal digits of `n`, most significant first, without leading zeros.
pub open spec fn decimal(n: nat) -> Seq<char>
    decreases n,
{
    if n < 10 {
        seq![digit_char(n as int)]
    } else {
        decimal(n / 10).push(digit_char((n % 10) as int))
    }
}

/// The decimal text of `n`, with a `-` before a negative number.
pub open spec fn signed_decimal(n: int) -> Seq<char> {
    if n < 0 {
        seq!['-'] + decimal((-n) as nat)
    } else {
        decimal(n as nat)
    }
}

/// Appends the decimal digits of `n` to `out`.
pub fn push_decimal(out: &mut Vec<char>, n: u64)
    ensures
        final(out)@ == old(out)@ + decimal(n as nat),
    decreases n,
{
    if n >= 10 {
        push_decimal(out, n / 10);
    }
    let d: u8 = (n % 10) as u8;
    out.push((d + 48) as char);
    assert(out@ =~= old(out)@ + decimal(n as nat));
}

/// Appends the decimal text of `n` to `out`.
pub fn push_signed_decimal(out: &mut Vec<char>, n: i64)
    ensures
        final(out)@ == old(out)@ + signed_decimal(n as int),
{
    if n < 0 {
        out.push('-');
        let m: u64 = ((-(n + 1)) as u64) + 1;
        push_decimal(out, m);
        assert(out@ =~= old(out)@ + signed_decimal(n as int));
    } else {
        push_decimal(out, n as u64);
    }
}


/// The `sep`-separated pieces of `cs`, empty ones included; there is always at least one.
pub open spec fn split_on(cs: Seq<char>, sep: char) -> Seq<Seq<char>>
    decreases cs.len(),
{
    if cs.len() == 0 {
        seq![Seq::empty()]
    } else {
        let p = split_on(cs.drop_last(), sep);
        if cs.last() == sep {
            p.push(Seq::empty())
        } else {
            p.update(p.len() - 1, p.last().push(cs.last()))
        }
    }
}

/// A new string holding the characters of `s`.
pub fn string_of(s: &str) -> (r: String)
    ensures
        r@ == s@,
{
    let cs = chars_of(s);
    assert(cs@.subrange(0, cs@.len() as int) =~= cs@);
    string_from_chars(&cs, 0, cs.len())
}

} // verus!
