//! Base62 text and the `<name>_` prefix of a token.
use vstd::prelude::*;
use vstd::string::{StrSliceExecFns, StringExecFns};

verus! {

/// The digit a base62 character stands for (`0-9`, then `A-Z`, then `a-z`),
/// or -1 for any other character.
pub open spec fn b62_digit_value(c: char) -> int {
    let u = c as u32;
    if 48 <= u <= 57 {
        u - 48
    } else if 65 <= u <= 90 {
        u - 65 + 10
    } else if 97 <= u <= 122 {
        u - 97 + 36
    } else {
        -1
    }
}

/// Every character of `s` is a base62 digit.
pub open spec fn is_b62_text(s: Seq<char>) -> bool {
    forall|i: int| 0 <= i < s.len() ==> b62_digit_value(#[trigger] s[i]) >= 0
}

/// The number that base62 text stands for, most significant digit first.
pub open spec fn b62_value(s: Seq<char>) -> nat
    decreases s.len(),
{
    if s.len() == 0 {
        0
    } else {
        (b62_value(s.drop_last()) * 62 + b62_digit_value(s.last())) as nat
    }
}

/// The base62 character for a digit below 62.
pub open spec fn b62_digit(d: nat) -> char {
    (if d < 10 {
        48 + d
    } else if d < 36 {
        55 + d
    } else {
        61 + d
    }) as u32 as char
}

/// The base62 rendering of `n`: most significant digit first, without
/// leading zeros; zero is `"0"`.
pub open spec fn b62_text(n: nat) -> Seq<char>
    decreases n,
{
    if n < 62 {
        seq![b62_digit(n)]
    } else {
        b62_text(n / 62).push(b62_digit(n % 62))
    }
}

proof fn lemma_b62_digit(d: nat)
    requires
        d < 62,
    ensures
        b62_digit_value(b62_digit(d)) == d,
{
}

/// A rendering is base62 text with the value rendered.
pub proof fn lemma_b62_text(n: nat)
    ensures
        b62_text(n).len() > 0,
        is_b62_text(b62_text(n)),
        b62_value(b62_text(n)) == n,
    decreases n,
{
    let t = b62_text(n);
    if n < 62 {
        lemma_b62_digit(n);
        assert(t.drop_last() =~= seq![]);
        assert(b62_value(t.drop_last()) == 0);
        assert(b62_value(t) == n);
    } else {
        lemma_b62_digit(n % 62);
        assert(t.last() == b62_digit(n % 62));
        lemma_b62_text(n / 62);
        assert(t.drop_last() =~= b62_text(n / 62));
        assert forall|i: int| 0 <= i < t.len() implies b62_digit_value(#[trigger] t[i]) >= 0 by {
            if i < t.len() - 1 {
                assert(t[i] == b62_text(n / 62)[i]);
            }
        }
        let q = n / 62;
        assert(n == q * 62 + n % 62) by (nonlinear_arith)
            requires
                q == n / 62,
        ;
        assert(b62_value(t) == (b62_value(t.drop_last()) * 62 + b62_digit_value(t.last())) as nat);
    }
}

/// The base62 text that decodes to a 128-bit value.
pub open spec fn b62_accepts(s: Seq<char>) -> bool {
    &&& s.len() > 0
    &&& is_b62_text(s)
    &&& b62_value(s) < 0x1_0000_0000_0000_0000_0000_0000_0000_0000
}

/// The index of the last underscore of `s`, or -1 when there is none.
pub open spec fn last_underscore(s: Seq<char>) -> int
    decreases s.len(),
{
    if s.len() == 0 {
        -1
    } else if s.last() == '_' {
        s.len() - 1
    } else {
        last_underscore(s.drop_last())
    }
}

/// What a token holds up to and including its last underscore; empty when it
/// has none.
pub open spec fn received_prefix(s: Seq<char>) -> Seq<char> {
    s.take(last_underscore(s) + 1)
}

pub proof fn lemma_last_underscore_bounds(s: Seq<char>)
    ensures
        -1 <= last_underscore(s) < s.len(),
        last_underscore(s) >= 0 ==> s[last_underscore(s)] == '_',
        forall|j: int| last_underscore(s) < j < s.len() ==> s[j] != '_',
    decreases s.len(),
{
    if s.len() > 0 && s.last() != '_' {
        let d = s.drop_last();
        lemma_last_underscore_bounds(d);
        assert forall|j: int| last_underscore(s) < j < s.len() implies s[j] != '_' by {
            if j < d.len() {
                assert(s[j] == d[j]);
            }
        }
    }
}

/// The last underscore of `p + t` is that of `p` when `t` holds none.
pub proof fn lemma_last_underscore_concat(p: Seq<char>, t: Seq<char>)
    requires
        forall|j: int| 0 <= j < t.len() ==> t[j] != '_',
    ensures
        last_underscore(p + t) == last_underscore(p),
    decreases t.len(),
{
    if t.len() == 0 {
        assert(p + t =~= p);
    } else {
        assert((p + t).drop_last() =~= p + t.drop_last());
        lemma_last_underscore_concat(p, t.drop_last());
    }
}

#[verifier::external_type_specification]
#[verifier::external_body]
pub struct ExDecodeError(base62::DecodeError);

/// Relies on `base62::encode`: the standard alphabet (`0-9A-Za-z`), most
/// significant digit first, without leading zeros; zero is `"0"`.
#[verifier::external_body]
fn b62_encode(n: u128) -> (r: String)
    ensures
        r@ == b62_text(n as nat),
{
    base62::encode(n)
}

/// Relies on `base62::decode` with the standard alphabet: it accepts
/// non-empty digit strings whose value fits in 128 bits, leading zeros
/// included, and refuses everything else.
#[verifier::external_body]
fn b62_decode(s: &str) -> (r: Result<u128, base62::DecodeError>)
    ensures
        r is Ok <==> b62_accepts(s@),
        r is Ok ==> r->Ok_0 == b62_value(s@),
{
    base62::decode(s)
}

/// Base62 text for a 128-bit value.
pub fn encode_b62(n: u128) -> (r: String)
    ensures
        r@ == b62_text(n as nat),
{
    b62_encode(n)
}

/// The value of base62 text, or `None` when it is empty, holds another
/// character, or does not fit in 128 bits.
pub fn decode_b62(s: &str) -> (r: Option<u128>)
    ensures
        r is Some <==> b62_accepts(s@),
        r is Some ==> r->Some_0 == b62_value(s@),
{
    match b62_decode(s) {
        Ok(v) => Some(v),
        Err(_) => None,
    }
}

/// The characters of `s`.
pub fn chars_of(s: &str) -> (r: Vec<char>)
    ensures
        r@ == s@,
{
    let mut out: Vec<char> = Vec::new();
    for c in it: s.chars()
        invariant
            out@ == it.seq().take(it.index() as int),
    {
        out.push(c);
        assert(out@ =~= it.seq().take(it.index() + 1));
    }
    out
}

} // verus!
