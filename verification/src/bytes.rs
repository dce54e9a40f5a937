//! Numbers as bytes, the least significant byte first.
use vstd::prelude::*;

verus! {

proof fn lemma_low_byte(low: int, rest: int)
    requires
        0 <= low < 256,
        0 <= rest,
    ensures
        (low + 256 * rest) % 256 == low,
        (low + 256 * rest) / 256 == rest,
{
}

/// Two bytes of a number.
pub open spec fn le16(n: u16) -> Seq<u8> {
    seq![
        (n % 256) as u8,
        (n / 256) as u8,
    ]
}

/// The number that two bytes are.
pub open spec fn from_le16(s: Seq<u8>) -> u16 {
    (s[0] + s[1] * 256) as u16
}

/// Writing a number and reading it back undo each other.
pub proof fn lemma_le16()
    ensures
        forall|n: u16| (#[trigger] le16(n)).len() == 2,
        forall|n: u16| from_le16(#[trigger] le16(n)) == n,
        forall|s: Seq<u8>| s.len() == 2 ==> le16(#[trigger] from_le16(s)) == s,
{
    assert forall|n: u16| from_le16(#[trigger] le16(n)) == n by {
        lemma_le16_read(n);
    }
    assert forall|s: Seq<u8>| s.len() == 2 implies le16(#[trigger] from_le16(s)) == s by {
        lemma_le16_write(s);
    }
}

/// Reading a number that was written gives it back.
pub proof fn lemma_le16_read(n: u16)
    ensures
        le16(n).len() == 2,
        from_le16(le16(n)) == n,
{
    let s = le16(n);
    assert(s[0] + s[1] * 256 == n);
}

proof fn lemma_le16_write(s: Seq<u8>)
    requires
        s.len() == 2,
    ensures
        le16(from_le16(s)) == s,
{
    let n = from_le16(s) as int;
    let r1 = s[1] as int;
    let r0 = s[0] + 256 * r1;
    assert(n == r0);
    lemma_low_byte(s[0] as int, r1);
    assert(n / 256 == r1);
    assert(le16(n as u16) =~= s);
}

pub fn le16_bytes(n: u16) -> (bytes: Vec<u8>)
    ensures
        bytes@ == le16(n),
{
    let mut bytes: Vec<u8> = Vec::new();
    bytes.push((n % 256) as u8);
    bytes.push((n / 256) as u8);
    assert(bytes@ =~= le16(n));
    bytes
}

pub fn read_le16(bytes: &[u8]) -> (n: u16)
    requires
        bytes@.len() == 2,
    ensures
        n == from_le16(bytes@),
{
    bytes[0] as u16 + bytes[1] as u16 * 256
}

/// Four bytes of a number.
pub open spec fn le32(n: u32) -> Seq<u8> {
    seq![
        (n % 256) as u8,
        (n / 256 % 256) as u8,
        (n / 65536 % 256) as u8,
        (n / 16777216) as u8,
    ]
}

/// The number that four bytes are.
pub open spec fn from_le32(s: Seq<u8>) -> u32 {
    (s[0] + s[1] * 256 + s[2] * 65536 + s[3] * 16777216) as u32
}

/// Writing a number and reading it back undo each other.
pub proof fn lemma_le32()
    ensures
        forall|n: u32| (#[trigger] le32(n)).len() == 4,
        forall|n: u32| from_le32(#[trigger] le32(n)) == n,
        forall|s: Seq<u8>| s.len() == 4 ==> le32(#[trigger] from_le32(s)) == s,
{
    assert forall|n: u32| from_le32(#[trigger] le32(n)) == n by {
        lemma_le32_read(n);
    }
    assert forall|s: Seq<u8>| s.len() == 4 implies le32(#[trigger] from_le32(s)) == s by {
        lemma_le32_write(s);
    }
}

/// Reading a number that was written gives it back.
pub proof fn lemma_le32_read(n: u32)
    ensures
        le32(n).len() == 4,
        from_le32(le32(n)) == n,
{
    let s = le32(n);
    assert(n / 65536 == (n / 256) / 256);
    assert(n / 16777216 == (n / 65536) / 256);
    assert(s[0] + s[1] * 256 + s[2] * 65536 + s[3] * 16777216 == n);
}

proof fn lemma_le32_write(s: Seq<u8>)
    requires
        s.len() == 4,
    ensures
        le32(from_le32(s)) == s,
{
    let n = from_le32(s) as int;
    let r3 = s[3] as int;
    let r2 = s[2] + 256 * r3;
    let r1 = s[1] + 256 * r2;
    let r0 = s[0] + 256 * r1;
    assert(n == r0);
    lemma_low_byte(s[0] as int, r1);
    assert(n / 256 == r1);
    lemma_low_byte(s[1] as int, r2);
    assert(n / 65536 == (n / 256) / 256);
    assert(n / 65536 == r2);
    lemma_low_byte(s[2] as int, r3);
    assert(n / 16777216 == (n / 65536) / 256);
    assert(n / 16777216 == r3);
    assert(le32(n as u32) =~= s);
}

pub fn le32_bytes(n: u32) -> (bytes: Vec<u8>)
    ensures
        bytes@ == le32(n),
{
    let mut bytes: Vec<u8> = Vec::new();
    bytes.push((n % 256) as u8);
    bytes.push((n / 256 % 256) as u8);
    bytes.push((n / 65536 % 256) as u8);
    bytes.push((n / 16777216) as u8);
    assert(bytes@ =~= le32(n));
    bytes
}

pub fn read_le32(bytes: &[u8]) -> (n: u32)
    requires
        bytes@.len() == 4,
    ensures
        n == from_le32(bytes@),
{
    bytes[0] as u32 + bytes[1] as u32 * 256 + bytes[2] as u32 * 65536 + bytes[3] as u32 * 16777216
}

/// Eight bytes of a number.
pub open spec fn le64(n: u64) -> Seq<u8> {
    seq![
        (n % 256) as u8,
        (n / 256 % 256) as u8,
        (n / 65536 % 256) as u8,
        (n / 16777216 % 256) as u8,
        (n / 4294967296 % 256) as u8,
        (n / 1099511627776 % 256) as u8,
        (n / 281474976710656 % 256) as u8,
        (n / 72057594037927936) as u8,
    ]
}

/// The number that eight bytes are.
pub open spec fn from_le64(s: Seq<u8>) -> u64 {
    (s[0] + s[1] * 256 + s[2] * 65536 + s[3] * 16777216 + s[4] * 4294967296 + s[5] * 1099511627776 + s[6] * 281474976710656 + s[7] * 72057594037927936) as u64
}

/// Writing a number and reading it back undo each other.
pub proof fn lemma_le64()
    ensures
        forall|n: u64| (#[trigger] le64(n)).len() == 8,
        forall|n: u64| from_le64(#[trigger] le64(n)) == n,
        forall|s: Seq<u8>| s.len() == 8 ==> le64(#[trigger] from_le64(s)) == s,
{
    assert forall|n: u64| from_le64(#[trigger] le64(n)) == n by {
        lemma_le64_read(n);
    }
    assert forall|s: Seq<u8>| s.len() == 8 implies le64(#[trigger] from_le64(s)) == s by {
        lemma_le64_write(s);
    }
}

/// Reading a number that was written gives it back.
pub proof fn lemma_le64_read(n: u64)
    ensures
        le64(n).len() == 8,
        from_le64(le64(n)) == n,
{
    let s = le64(n);
    assert(n / 65536 == (n / 256) / 256);
    assert(n / 16777216 == (n / 65536) / 256);
    assert(n / 4294967296 == (n / 16777216) / 256);
    assert(n / 1099511627776 == (n / 4294967296) / 256);
    assert(n / 281474976710656 == (n / 1099511627776) / 256);
    assert(n / 72057594037927936 == (n / 281474976710656) / 256);
    assert(s[0] + s[1] * 256 + s[2] * 65536 + s[3] * 16777216 + s[4] * 4294967296 + s[5] * 1099511627776 + s[6] * 281474976710656 + s[7] * 72057594037927936 == n);
}

proof fn lemma_le64_write(s: Seq<u8>)
    requires
        s.len() == 8,
    ensures
        le64(from_le64(s)) == s,
{
    let n = from_le64(s) as int;
    let r7 = s[7] as int;
    let r6 = s[6] + 256 * r7;
    let r5 = s[5] + 256 * r6;
    let r4 = s[4] + 256 * r5;
    let r3 = s[3] + 256 * r4;
    let r2 = s[2] + 256 * r3;
    let r1 = s[1] + 256 * r2;
    let r0 = s[0] + 256 * r1;
    assert(n == r0);
    lemma_low_byte(s[0] as int, r1);
    assert(n / 256 == r1);
    lemma_low_byte(s[1] as int, r2);
    assert(n / 65536 == (n / 256) / 256);
    assert(n / 65536 == r2);
    lemma_low_byte(s[2] as int, r3);
    assert(n / 16777216 == (n / 65536) / 256);
    assert(n / 16777216 == r3);
    lemma_low_byte(s[3] as int, r4);
    assert(n / 4294967296 == (n / 16777216) / 256);
    assert(n / 4294967296 == r4);
    lemma_low_byte(s[4] as int, r5);
    assert(n / 1099511627776 == (n / 4294967296) / 256);
    assert(n / 1099511627776 == r5);
    lemma_low_byte(s[5] as int, r6);
    assert(n / 281474976710656 == (n / 1099511627776) / 256);
    assert(n / 281474976710656 == r6);
    lemma_low_byte(s[6] as int, r7);
    assert(n / 72057594037927936 == (n / 281474976710656) / 256);
    assert(n / 72057594037927936 == r7);
    assert(le64(n as u64) =~= s);
}

pub fn le64_bytes(n: u64) -> (bytes: Vec<u8>)
    ensures
        bytes@ == le64(n),
{
    let mut bytes: Vec<u8> = Vec::new();
    bytes.push((n % 256) as u8);
    bytes.push((n / 256 % 256) as u8);
    bytes.push((n / 65536 % 256) as u8);
    bytes.push((n / 16777216 % 256) as u8);
    bytes.push((n / 4294967296 % 256) as u8);
    bytes.push((n / 1099511627776 % 256) as u8);
    bytes.push((n / 281474976710656 % 256) as u8);
    bytes.push((n / 72057594037927936) as u8);
    assert(bytes@ =~= le64(n));
    bytes
}

pub fn read_le64(bytes: &[u8]) -> (n: u64)
    requires
        bytes@.len() == 8,
    ensures
        n == from_le64(bytes@),
{
    bytes[0] as u64 + bytes[1] as u64 * 256 + bytes[2] as u64 * 65536 + bytes[3] as u64 * 16777216 + bytes[4] as u64 * 4294967296 + bytes[5] as u64 * 1099511627776 + bytes[6] as u64 * 281474976710656 + bytes[7] as u64 * 72057594037927936
}

} // verus!
