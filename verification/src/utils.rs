//! Small helpers shared by the compiler and the machine.

use vstd::prelude::*;
use vstd::string::StringSliceAdditionalSpecFns;
use crate::value::Value;

verus! {

/// The FNV-1a offset basis for 64-bit hashes.
pub const FNV_OFFSET_BASIS: u64 = 0xcbf29ce484222325;

/// The FNV-1a prime for 64-bit hashes.
pub const FNV_PRIME: u64 = 0x100000001b3;

/// The FNV-1a 64-bit hash of a byte string: starting from the offset basis, each
/// byte is xor-ed in and the result multiplied by the prime, modulo 2^64.
pub open spec fn fnv1a(bytes: Seq<u8>) -> u64
    decreases bytes.len(),
{
    if bytes.len() == 0 {
        FNV_OFFSET_BASIS
    } else {
        (((fnv1a(bytes.drop_last()) ^ (bytes.last() as u64)) as int * (FNV_PRIME as int))
            % 0x1_0000_0000_0000_0000) as u64
    }
}

/// Hashes `key` with FNV-1a.
pub fn hash(key: &[u8]) -> (h: u64)
    ensures
        h == fnv1a(key@),
{
    let mut h: u64 = FNV_OFFSET_BASIS;
    let mut i: usize = 0;
    while i < key.len()
        invariant
            i <= key.len(),
            h == fnv1a(key@.take(i as int)),
        decreases key.len() - i,
    {
        proof {
            assert(key@.take(i + 1).drop_last() =~= key@.take(i as int));
        }
        h = (h ^ (key[i] as u64)).wrapping_mul(FNV_PRIME);
        i += 1;
    }
    proof {
        assert(key@.take(i as int) =~= key@);
    }
    h
}

/// Only `nil` and `false` are falsey.
pub open spec fn spec_is_falsey(value: Value) -> bool {
    value == Value::Nil || value == Value::Bool(false)
}

/// Whether the value counts as false: only `nil` and `false` do.
pub fn is_falsey(value: &Value) -> (falsey: bool)
    ensures
        falsey == spec_is_falsey(*value),
{
    match value {
        Value::Nil => true,
        Value::Bool(b) => !*b,
        _ => false,
    }
}

/// Copies the bytes of `source` from `start` up to `end`. Text is held as
/// bytes and no encoding is asked of it: bytes that are not UTF-8 are copied
/// like any others, so every range within `source` has a result.
pub fn convert_slice_to_string(source: &[u8], start: usize, end: usize) -> (text: Vec<u8>)
    requires
        start <= end <= source.len(),
    ensures
        text@ == source@.subrange(start as int, end as int),
{
    let mut text: Vec<u8> = Vec::new();
    let mut i: usize = start;
    while i < end
        invariant
            start <= i <= end <= source.len(),
            text@ == source@.subrange(start as int, i as int),
        decreases end - i,
    {
        text.push(source[i]);
        proof {
            assert(text@ =~= source@.subrange(start as int, i + 1));
        }
        i += 1;
    }
    text
}

/// Appends the bytes of `more` to `out`.
pub fn append(out: &mut Vec<u8>, more: &[u8])
    ensures
        final(out)@ == old(out)@ + more@,
{
    let mut i: usize = 0;
    while i < more.len()
        invariant
            i <= more.len(),
            out@ == old(out)@ + more@.take(i as int),
        decreases more.len() - i,
    {
        out.push(more[i]);
        proof {
            assert(out@ =~= old(out)@ + more@.take(i + 1));
        }
        i += 1;
    }
    proof {
        assert(more@.take(i as int) =~= more@);
    }
}

/// Appends the bytes of the text to `out`.
pub fn append_str(out: &mut Vec<u8>, text: &str)
    ensures
        final(out)@ == old(out)@ + text.spec_bytes(),
{
    append(out, text.as_bytes());
}

/// The decimal digits of `n`, as ASCII bytes, without leading zeros.
pub open spec fn spec_decimal(n: nat) -> Seq<u8>
    decreases n,
{
    if n < 10 {
        seq![(48 + n) as u8]
    } else {
        spec_decimal(n / 10).push((48 + n % 10) as u8)
    }
}

/// The decimal digits of `n`, as ASCII bytes.
pub fn decimal(n: usize) -> (digits: Vec<u8>)
    ensures
        digits@ == spec_decimal(n as nat),
    decreases n,
{
    if n < 10 {
        let mut digits: Vec<u8> = Vec::new();
        digits.push(48 + n as u8);
        proof {
            assert(digits@ =~= seq![(48 + n) as u8]);
        }
        digits
    } else {
        let mut digits = decimal(n / 10);
        digits.push(48 + (n % 10) as u8);
        digits
    }
}

/// Whether two byte strings hold the same bytes.
pub fn bytes_equal(a: &[u8], b: &[u8]) -> (same: bool)
    ensures
        same == (a@ == b@),
{
    if a.len() != b.len() {
        return false;
    }
    let mut i: usize = 0;
    while i < a.len()
        invariant
            i <= a.len(),
            a.len() == b.len(),
            a@.take(i as int) == b@.take(i as int),
        decreases a.len() - i,
    {
        if a[i] != b[i] {
            return false;
        }
        proof {
            assert(a@.take(i + 1) =~= a@.take(i as int).push(a@[i as int]));
            assert(b@.take(i + 1) =~= b@.take(i as int).push(b@[i as int]));
        }
        i += 1;
    }
    proof {
        assert(a@.take(i as int) =~= a@);
        assert(b@.take(i as int) =~= b@);
    }
    true
}

} // verus!
