//! Byte-string primitives.

use vstd::prelude::*;

verus! {

/// The lower-case form of an ASCII letter; every other byte is its own.
pub open spec fn lower_byte(byte: u8) -> u8 {
    if 0x41 <= byte <= 0x5a {
        (byte + 0x20) as u8
    } else {
        byte
    }
}

/// Every byte in its ASCII lower-case form.
pub open spec fn lower_bytes(bytes: Seq<u8>) -> Seq<u8> {
    bytes.map_values(|byte: u8| lower_byte(byte))
}

/// The byte strings that a vector of byte vectors holds.
pub open spec fn byte_strings(strings: Seq<Vec<u8>>) -> Seq<Seq<u8>> {
    strings.map_values(|string: Vec<u8>| string@)
}

/// Whether two byte strings are the same.
pub fn same_bytes(left: &[u8], right: &[u8]) -> (same: bool)
    ensures
        same == (left@ == right@),
{
    if left.len() != right.len() {
        return false;
    }
    for i in 0..left.len()
        invariant
            left@.len() == right@.len(),
            left@.take(i as int) == right@.take(i as int),
    {
        if left[i] != right[i] {
            assert(left@[i as int] != right@[i as int]);
            return false;
        }
        assert(left@.take(i + 1) == left@.take(i as int).push(left@[i as int]));
        assert(right@.take(i + 1) == right@.take(i as int).push(right@[i as int]));
    }
    assert(left@.take(left@.len() as int) == left@);
    assert(right@.take(right@.len() as int) == right@);
    true
}

/// The bytes from `start` up to `end`.
pub fn sub_bytes(bytes: &[u8], start: usize, end: usize) -> (part: Vec<u8>)
    requires
        start <= end <= bytes@.len(),
    ensures
        part@ == bytes@.subrange(start as int, end as int),
{
    let mut part: Vec<u8> = Vec::new();
    for i in start..end
        invariant
            start <= i <= end <= bytes@.len(),
            part@ == bytes@.subrange(start as int, i as int),
    {
        part.push(bytes[i]);
    }
    part
}

/// Appends the bytes of `tail` to `bytes`.
pub fn push_bytes(bytes: &mut Vec<u8>, tail: &[u8])
    ensures
        final(bytes)@ == old(bytes)@ + tail@,
{
    for i in 0..tail.len()
        invariant
            bytes@ == old(bytes)@ + tail@.take(i as int),
    {
        bytes.push(tail[i]);
        assert(tail@.take(i + 1) == tail@.take(i as int).push(tail@[i as int]));
    }
    assert(tail@.take(tail@.len() as int) == tail@);
}

/// The ASCII lower-case form of a byte string.
pub fn lowered(bytes: &[u8]) -> (lower: Vec<u8>)
    ensures
        lower@ == lower_bytes(bytes@),
{
    let mut lower: Vec<u8> = Vec::new();
    for i in 0..bytes.len()
        invariant
            lower@ == lower_bytes(bytes@.take(i as int)),
    {
        let byte = bytes[i];
        if 0x41 <= byte && byte <= 0x5a {
            lower.push(byte + 0x20);
        } else {
            lower.push(byte);
        }
        assert(bytes@.take(i + 1) == bytes@.take(i as int).push(byte));
        assert(lower@ == lower_bytes(bytes@.take(i + 1)));
    }
    assert(bytes@.take(bytes@.len() as int) == bytes@);
    lower
}

/// In lower case, the ASCII letters from `A` to `Z` are those from `a` to `z`, and every
/// other byte is itself.
pub proof fn law_bytes_change_one_by_one(bytes: Seq<u8>, i: int)
    requires
        0 <= i < bytes.len(),
    ensures
        lower_bytes(bytes).len() == bytes.len(),
        0x41 <= bytes[i] <= 0x5a ==> lower_bytes(bytes)[i] == bytes[i] + 32,
        !(0x41 <= bytes[i] <= 0x5a) ==> lower_bytes(bytes)[i] == bytes[i],
{
}

} // verus!
