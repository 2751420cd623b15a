//! Text helpers: the UTF-8 byte model of a string and small string builders.

use vstd::prelude::*;
use vstd::string::*;
use vstd::std_specs::iter::IteratorSpec;
use vstd::utf8::*;

verus! {

broadcast use vstd::utf8::encode_utf8_valid_utf8, vstd::utf8::encode_utf8_decode_utf8;

/// The UTF-8 bytes of a character sequence.
pub open spec fn bytes_of(s: Seq<char>) -> Seq<u8> {
    encode_utf8(s)
}

/// The length in bytes of the UTF-8 encoding of a character sequence.
pub open spec fn utf8_len(s: Seq<char>) -> nat {
    encode_utf8(s).len()
}

/// Encoding distributes over concatenation.
pub proof fn lemma_bytes_concat(a: Seq<char>, b: Seq<char>)
    ensures
        encode_utf8(a + b) == encode_utf8(a) + encode_utf8(b),
    decreases a.len(),
{
    if a.len() == 0 {
        assert(a + b =~= b);
        assert(encode_utf8(a) + encode_utf8(b) =~= encode_utf8(b));
    } else {
        assert((a + b).drop_first() =~= a.drop_first() + b);
        assert((a + b)[0] == a[0]);
        lemma_bytes_concat(a.drop_first(), b);
        assert(encode_utf8(a + b) =~= encode_utf8(a) + encode_utf8(b));
    }
}

/// The end of the encoding of a prefix is a character boundary of the whole encoding.
pub proof fn lemma_boundary_after_prefix(a: Seq<char>, b: Seq<char>)
    ensures
        is_char_boundary(encode_utf8(a + b), encode_utf8(a).len() as int),
    decreases a.len(),
{
    let bytes = encode_utf8(a + b);
    lemma_bytes_concat(a, b);
    if a.len() > 0 {
        let ab = a + b;
        encode_utf8_first_scalar(ab);
        assert(ab[0] == a[0]);
        assert(ab.drop_first() =~= a.drop_first() + b);
        assert(pop_first_scalar(bytes) =~= encode_utf8(ab.drop_first()));
        lemma_boundary_after_prefix(a.drop_first(), b);
    }
}

/// A non-empty character sequence has a non-empty encoding.
pub proof fn lemma_bytes_nonempty(a: Seq<char>)
    requires
        a.len() > 0,
    ensures
        utf8_len(a) > 0,
{
    encode_utf8_first_scalar(a);
}

/// Encoding of three consecutive parts, and the boundaries between them.
pub proof fn lemma_three_parts(x: Seq<char>, y: Seq<char>, z: Seq<char>)
    ensures
        encode_utf8(x + y + z) == encode_utf8(x) + encode_utf8(y) + encode_utf8(z),
        is_char_boundary(encode_utf8(x + y + z), utf8_len(x) as int),
        is_char_boundary(encode_utf8(x + y + z), (utf8_len(x) + utf8_len(y)) as int),
{
    lemma_bytes_concat(x, y);
    lemma_bytes_concat(x + y, z);
    lemma_boundary_after_prefix(x + y, z);
    lemma_boundary_after_prefix(x, y + z);
    assert(x + (y + z) =~= x + y + z);
}

/// Two character sequences with the same encoding are equal.
pub proof fn lemma_bytes_injective(a: Seq<char>, b: Seq<char>)
    requires
        encode_utf8(a) == encode_utf8(b),
    ensures
        a == b,
{
    encode_utf8_decode_utf8(a);
    encode_utf8_decode_utf8(b);
}

/// The length in bytes of `s`.
pub fn byte_len(s: &str) -> (r: usize)
    ensures
        r == utf8_len(s@),
{
    s.as_bytes().len()
}

/// `t` with its bytes `[start, end)` replaced by `ins`.
///
/// Both offsets must be character boundaries of `t`.
pub fn splice(t: &str, start: usize, end: usize, ins: &str) -> (r: String)
    requires
        start <= end <= utf8_len(t@),
        is_char_boundary(bytes_of(t@), start as int),
        is_char_boundary(bytes_of(t@), end as int),
    ensures
        bytes_of(r@) == bytes_of(t@).take(start as int) + bytes_of(ins@) + bytes_of(t@).skip(
            end as int,
        ),
{
    let (left, _) = t.split_at(start);
    let (_, right) = t.split_at(end);
    let mut r = left.to_owned();
    r.append(ins);
    r.append(right);
    proof {
        lemma_bytes_concat(left@, ins@);
        lemma_bytes_concat(left@ + ins@, right@);
        assert(r@ == left@ + ins@ + right@);
    }
    r
}

/// The characters of a string slice, in order.
pub fn chars_of(s: &str) -> (r: Vec<char>)
    ensures
        r@ == s@,
{
    let mut it = s.chars();
    let mut r: Vec<char> = Vec::new();
    loop
        invariant
            r@ + it.remaining() == s@,
        ensures
            r@ == s@,
        decreases s@.len() - r@.len(),
    {
        match it.next() {
            Some(c) => {
                r.push(c);
            },
            None => {
                assert(r@ =~= s@);
                break;
            },
        }
    }
    r
}


/// Relies on String::push: appends one character at the end.
#[verifier::external_body]
pub(crate) fn push_char(s: &mut String, c: char)
    ensures
        final(s)@ == old(s)@.push(c),
{
    s.push(c);
}

/// The character for a digit value below 36: `0`-`9`, then lower-case letters.
pub open spec fn digit_char(d: nat) -> char {
    if d < 10 {
        ((48 + d) as u8) as char
    } else {
        ((87 + d) as u8) as char
    }
}

/// The digits of `n` in `base`, most significant first, without leading zeros.
pub open spec fn digits_of(n: nat, base: nat) -> Seq<char>
    decreases n via digits_of_decreases
{
    if base < 2 || n < base {
        seq![digit_char(n)]
    } else {
        digits_of(n / base, base).push(digit_char(n % base))
    }
}

#[via_fn]
proof fn digits_of_decreases(n: nat, base: nat) {
    if !(base < 2 || n < base) {
        assert(n / base < n) by (nonlinear_arith)
            requires
                base >= 2,
                n >= base,
        ;
    }
}

/// Lower-case hexadecimal digits of `n`.
pub open spec fn hex_of(n: nat) -> Seq<char> {
    digits_of(n, 16)
}

/// Decimal digits of `n`.
pub open spec fn decimal_of(n: nat) -> Seq<char> {
    digits_of(n, 10)
}

fn digit(d: u64) -> (c: char)
    requires
        d < 36,
    ensures
        c == digit_char(d as nat),
{
    if d < 10 {
        ((48 + d) as u8) as char
    } else {
        ((87 + d) as u8) as char
    }
}

/// Appends the digits of `n` in `base` to `s`.
pub fn push_digits(s: &mut String, n: u64, base: u64)
    requires
        2 <= base <= 36,
    ensures
        final(s)@ == old(s)@ + digits_of(n as nat, base as nat),
    decreases n,
{
    if n >= base {
        proof {
            assert(n / base < n) by (nonlinear_arith)
                requires
                    base >= 2,
                    n >= base,
            ;
        }
        push_digits(s, n / base, base);
    } else {
        assert(n % base == n) by (nonlinear_arith)
            requires
                n < base,
        ;
    }
    push_char(s, digit(n % base));
    assert(final(s)@ =~= old(s)@ + digits_of(n as nat, base as nat));
}

/// The lower-case hexadecimal form of `n`.
pub fn to_hex(n: u64) -> (r: String)
    ensures
        r@ == hex_of(n as nat),
{
    let mut r = String::new();
    push_digits(&mut r, n, 16);
    assert(r@ =~= hex_of(n as nat));
    r
}

} // verus!
