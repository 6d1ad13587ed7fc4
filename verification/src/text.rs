use vstd::prelude::*;
use vstd::utf8::{decode_utf8, encode_utf8, valid_utf8};

verus! {

/// Whether every byte is ASCII.
pub open spec fn is_ascii_bytes(b: Seq<u8>) -> bool {
    forall|i: int| 0 <= i < b.len() ==> b[i] < 0x80
}

/// The characters of ASCII bytes.
pub open spec fn ascii_chars(b: Seq<u8>) -> Seq<char> {
    b.map_values(|x: u8| x as char)
}

/// ASCII bytes are valid UTF-8 and decode one character per byte.
pub proof fn lemma_ascii_utf8(b: Seq<u8>)
    requires
        is_ascii_bytes(b),
    ensures
        valid_utf8(b),
        decode_utf8(b) == ascii_chars(b),
    decreases b.len(),
{
    if b.len() > 0 {
        let rest = b.subrange(1, b.len() as int);
        assert(is_ascii_bytes(rest)) by {
            assert forall|i: int| 0 <= i < rest.len() implies rest[i] < 0x80 by {
                assert(rest[i] == b[i + 1]);
            }
        }
        lemma_ascii_utf8(rest);
        let x = b[0];
        assert(x < 0x80);
        assert(x & 0x7f == x) by (bit_vector)
            requires
                x < 0x80,
        ;
        assert(vstd::utf8::pop_first_scalar(b) == rest);
        assert(decode_utf8(b) =~= ascii_chars(b)) by {
            assert(ascii_chars(b) =~= seq![x as char] + ascii_chars(rest));
        }
    } else {
        assert(ascii_chars(b) =~= Seq::<char>::empty());
    }
}

/// `String::from_utf8`: the string whose UTF-8 encoding is `v`, or `None` when `v` is not
/// valid UTF-8 (the error value is dropped).
#[verifier::external_body]
pub(crate) fn string_from_utf8(v: Vec<u8>) -> (r: Option<String>)
    ensures
        r is Some <==> valid_utf8(v@),
        r matches Some(s) ==> s@ == decode_utf8(v@),
{
    String::from_utf8(v).ok()
}

/// The string of ASCII bytes.
pub fn ascii_string(v: Vec<u8>) -> (s: String)
    requires
        is_ascii_bytes(v@),
    ensures
        s@ == ascii_chars(v@),
{
    proof { lemma_ascii_utf8(v@); }
    let ghost bytes = v@;
    match string_from_utf8(v) {
        Some(s) => s,
        None => {
            assert(false);
            String::new()
        },
    }
}

/// Decimal digits of `n` (no sign, no leading zeros; "0" for zero).
pub open spec fn decimal(n: nat) -> Seq<u8>
    decreases n,
{
    if n < 10 {
        seq![(0x30 + n) as u8]
    } else {
        decimal(n / 10) + seq![(0x30 + n % 10) as u8]
    }
}

/// Decimal digits are ASCII.
pub proof fn lemma_decimal_ascii(n: nat)
    ensures
        is_ascii_bytes(decimal(n)),
        decimal(n).len() >= 1,
    decreases n,
{
    if n >= 10 {
        lemma_decimal_ascii(n / 10);
    }
}

/// Appends the decimal digits of `n` to `out`.
pub fn push_decimal(out: &mut Vec<u8>, n: u64)
    ensures
        final(out)@ == old(out)@ + decimal(n as nat),
    decreases n,
{
    if n >= 10 {
        push_decimal(out, n / 10);
    }
    out.push((0x30 + n % 10) as u8);
    assert(final(out)@ =~= old(out)@ + decimal(n as nat));
}

/// The upper-case hex digit of a nibble.
pub open spec fn hex_upper_digit(v: u8) -> u8 {
    if v < 10 { (0x30 + v) as u8 } else { (0x41 + v - 10) as u8 }
}

/// The lower-case hex digit of a nibble.
pub open spec fn hex_lower_digit(v: u8) -> u8 {
    if v < 10 { (0x30 + v) as u8 } else { (0x61 + v - 10) as u8 }
}

/// A byte as two upper-case hex digits.
pub open spec fn hex2_upper(b: u8) -> Seq<u8> {
    seq![hex_upper_digit(b / 16), hex_upper_digit(b % 16)]
}

/// A byte as two lower-case hex digits.
pub open spec fn hex2_lower(b: u8) -> Seq<u8> {
    seq![hex_lower_digit(b / 16), hex_lower_digit(b % 16)]
}

pub fn hex_upper(v: u8) -> (d: u8)
    requires
        v < 16,
    ensures
        d == hex_upper_digit(v),
{
    if v < 10 { 0x30 + v } else { 0x41 + v - 10 }
}

pub fn hex_lower(v: u8) -> (d: u8)
    requires
        v < 16,
    ensures
        d == hex_lower_digit(v),
{
    if v < 10 { 0x30 + v } else { 0x61 + v - 10 }
}

/// The characters of a string slice, in order.
pub fn str_chars(s: &str) -> (v: Vec<char>)
    ensures
        v@ == s@,
{
    broadcast use vstd::string::axiom_spec_iter, vstd::string::next_postcondition;
    let mut it = s.chars();
    let mut v: Vec<char> = Vec::new();
    let ghost mut k: int = 0;
    loop
        invariant
            0 <= k <= s@.len(),
            v@ == s@.take(k),
            vstd::std_specs::iter::IteratorSpec::remaining(&it) == s@.skip(k),
            vstd::std_specs::iter::IteratorSpec::obeys_prophetic_iter_laws(&it),
        decreases s@.len() - k,
    {
        match it.next() {
            Some(c) => {
                proof {
                    assert(s@.skip(k)[0] == s@[k]);
                    assert(s@.skip(k).drop_first() =~= s@.skip(k + 1));
                }
                v.push(c);
                proof {
                    k = k + 1;
                    assert(v@ =~= s@.take(k));
                }
            },
            None => {
                assert(s@.take(k) =~= s@);
                return v;
            },
        }
    }
}

/// `String: FromIterator<&char>` (through `Iterator::collect`): the string of these characters.
#[verifier::external_body]
pub(crate) fn string_from_chars(cs: &[char]) -> (s: String)
    ensures
        s@ == cs@,
{
    cs.iter().collect()
}

/// The UTF-8 encoding of characters.
pub fn utf8_of(cs: &[char]) -> (v: Vec<u8>)
    ensures
        v@ == encode_utf8(cs@),
{
    let s = string_from_chars(cs);
    let b = s.as_str().as_bytes();
    let v = crate::util::copy_range(b, 0, b.len());
    assert(v@ =~= b@);
    v
}

} // verus!
