//! The FNV-1a hash of the UTF-8 bytes of a string, and its hexadecimal form.
use vstd::prelude::*;

use crate::text::push_char;

verus! {

broadcast use vstd::string::group_string_axioms;

/// The FNV-1a offset basis.
pub const FNV_OFFSET: u64 = 0xcbf29ce484222325u64;

/// The FNV-1a prime.
pub const FNV_PRIME: u64 = 0x100000001b3u64;

/// One FNV-1a step: mix in a byte, then multiply by the prime modulo 2^64.
pub open spec fn fnv_step(h: u64, b: u8) -> u64 {
    vstd::wrapping::u64_specs::wrapping_mul(h ^ (b as u64), FNV_PRIME)
}

/// FNV-1a over a byte sequence.
pub open spec fn fnv1a(bytes: Seq<u8>) -> u64
    decreases bytes.len(),
{
    if bytes.len() == 0 {
        FNV_OFFSET
    } else {
        fnv_step(fnv1a(bytes.drop_last()), bytes.last())
    }
}

/// The UTF-8 encoding of a character sequence.
pub open spec fn utf8(s: Seq<char>) -> Seq<u8> {
    vstd::utf8::encode_utf8(s)
}

/// The lowercase hexadecimal digit for `d < 16`.
pub open spec fn hex_char(d: u64) -> char {
    if d < 10 {
        ((48 + d) as u8) as char
    } else {
        ((87 + d) as u8) as char
    }
}

/// The `n` lowest hexadecimal digits of `h`, most significant first.
pub open spec fn hex_digits(h: u64, n: nat) -> Seq<char>
    decreases n,
{
    if n == 0 {
        Seq::empty()
    } else {
        hex_digits(h / 16, (n - 1) as nat).push(hex_char(h % 16))
    }
}

/// `format!("{:016x}", h)`: all sixteen hexadecimal digits of `h`, zero-padded.
pub open spec fn hex16(h: u64) -> Seq<char> {
    hex_digits(h, 16)
}

/// FNV-1a over the UTF-8 bytes of `s`.
pub fn simple_hash(s: &str) -> (r: u64)
    ensures
        r == fnv1a(utf8(s@)),
{
    let bytes = s.as_bytes();
    let mut hash: u64 = FNV_OFFSET;
    let mut i: usize = 0;
    while i < bytes.len()
        invariant
            0 <= i <= bytes@.len(),
            bytes@ == utf8(s@),
            hash == fnv1a(bytes@.take(i as int)),
        decreases bytes.len() - i,
    {
        let b = bytes[i];
        hash = (hash ^ (b as u64)).wrapping_mul(FNV_PRIME);
        assert(bytes@.take(i + 1).drop_last() =~= bytes@.take(i as int));
        i += 1;
    }
    assert(bytes@.take(bytes@.len() as int) =~= bytes@);
    hash
}

fn hex_char_exec(d: u64) -> (c: char)
    requires
        d < 16,
    ensures
        c == hex_char(d),
{
    if d < 10 {
        ((48 + d) as u8) as char
    } else {
        ((87 + d) as u8) as char
    }
}

fn push_hex_digits(out: &mut String, h: u64, n: usize)
    ensures
        final(out)@ == old(out)@ + hex_digits(h, n as nat),
    decreases n,
{
    if n > 0 {
        push_hex_digits(out, h / 16, n - 1);
        push_char(out, hex_char_exec(h % 16));
        assert(hex_digits(h, n as nat) == hex_digits(h / 16, (n - 1) as nat).push(hex_char(h % 16)));
    } else {
        assert(hex_digits(h, 0) =~= Seq::<char>::empty());
    }
}

/// Appends the sixteen hexadecimal digits of `h` to `out`.
pub fn push_hex16(out: &mut String, h: u64)
    ensures
        final(out)@ == old(out)@ + hex16(h),
{
    push_hex_digits(out, h, 16);
}

/// A stable chunk ID derived from a subject IRI: the FNV-1a hash of its
/// UTF-8 bytes as sixteen lowercase hexadecimal digits.
pub fn stable_id(iri: &str) -> (r: String)
    ensures
        r@ == hex16(fnv1a(utf8(iri@))),
{
    let h = simple_hash(iri);
    let mut out = String::new();
    push_hex16(&mut out, h);
    out
}

} // verus!
