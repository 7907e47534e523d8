//! Fixed-width little-endian numbers, and files as byte sequences.

use vstd::prelude::*;

verus! {

/// `256` to the power of `n`.
pub open spec fn pow256(n: nat) -> nat
    decreases n,
{
    if n == 0 {
        1
    } else {
        256 * pow256((n - 1) as nat)
    }
}

/// The `n` low bytes of `x`, the lowest first.
pub open spec fn le_bytes(x: nat, n: nat) -> Seq<u8>
    decreases n,
{
    if n == 0 {
        Seq::empty()
    } else {
        seq![(x % 256) as u8] + le_bytes(x / 256, (n - 1) as nat)
    }
}

/// The number that bytes stand for, the lowest first.
pub open spec fn le_value(bytes: Seq<u8>) -> nat
    decreases bytes.len(),
{
    if bytes.len() == 0 {
        0
    } else {
        bytes[0] as nat + 256 * le_value(bytes.drop_first())
    }
}

/// A file after `bytes` were written at `offset`. A write beyond the end leaves zeros between.
pub open spec fn write_at(file: Seq<u8>, offset: nat, bytes: Seq<u8>) -> Seq<u8> {
    let end = offset + bytes.len();
    Seq::new(
        if file.len() > end {
            file.len()
        } else {
            end
        },
        |i: int|
            if offset <= i < end {
                bytes[i - offset]
            } else if i < file.len() {
                file[i]
            } else {
                0u8
            },
    )
}

/// The `size` bytes of a file at `offset`, if the file holds that many there.
pub open spec fn read_at(file: Seq<u8>, offset: nat, size: nat) -> Option<Seq<u8>> {
    if offset + size <= file.len() {
        Some(file.subrange(offset as int, (offset + size) as int))
    } else {
        None
    }
}

/// The bytes of a number, decoded, are the number.
pub proof fn law_decode_of_encode(x: nat, n: nat)
    requires
        x < pow256(n),
    ensures
        le_bytes(x, n).len() == n,
        le_value(le_bytes(x, n)) == x,
    decreases n,
{
    if n > 0 {
        law_decode_of_encode(x / 256, (n - 1) as nat);
        assert(le_bytes(x, n).drop_first() =~= le_bytes(x / 256, (n - 1) as nat));
    }
}

/// The number of some bytes, encoded, is the bytes: every byte pattern is one number's.
pub proof fn law_encode_of_decode(bytes: Seq<u8>)
    ensures
        le_value(bytes) < pow256(bytes.len()),
        le_bytes(le_value(bytes), bytes.len()) == bytes,
    decreases bytes.len(),
{
    if bytes.len() > 0 {
        law_encode_of_decode(bytes.drop_first());
        let x = le_value(bytes);
        assert(x % 256 == bytes[0] && x / 256 == le_value(bytes.drop_first()));
        assert(le_bytes(x, bytes.len()) =~= bytes);
    } else {
        assert(le_bytes(le_value(bytes), bytes.len()) =~= bytes);
    }
}

/// Every 64-bit number has eight bytes, every 32-bit number four.
pub(crate) proof fn lemma_widths()
    ensures
        pow256(8) == 0x1_0000_0000_0000_0000,
        pow256(4) == 0x1_0000_0000,
{
    reveal_with_fuel(pow256, 9);
}

/// The eight bytes of a 64-bit number, the lowest first.
pub fn encode_u64(x: u64) -> (bytes: Vec<u8>)
    ensures
        bytes@ == le_bytes(x as nat, 8),
{
    let mut bytes: Vec<u8> = Vec::new();
    let mut rest: u64 = x;
    let mut n: usize = 8;
    while n > 0
        invariant
            n <= 8,
            bytes@ + le_bytes(rest as nat, n as nat) == le_bytes(x as nat, 8),
        decreases n,
    {
        let ghost before = bytes@;
        bytes.push((rest % 256) as u8);
        assert(bytes@ + le_bytes(rest as nat / 256, (n - 1) as nat) =~= before + le_bytes(
            rest as nat,
            n as nat,
        ));
        rest = rest / 256;
        n = n - 1;
    }
    assert(bytes@ + le_bytes(rest as nat, 0) =~= bytes@);
    bytes
}

/// The four bytes of a 32-bit number, the lowest first.
pub fn encode_u32(x: u32) -> (bytes: Vec<u8>)
    ensures
        bytes@ == le_bytes(x as nat, 4),
{
    let mut bytes: Vec<u8> = Vec::new();
    let mut rest: u32 = x;
    let mut n: usize = 4;
    while n > 0
        invariant
            n <= 4,
            bytes@ + le_bytes(rest as nat, n as nat) == le_bytes(x as nat, 4),
        decreases n,
    {
        let ghost before = bytes@;
        bytes.push((rest % 256) as u8);
        assert(bytes@ + le_bytes(rest as nat / 256, (n - 1) as nat) =~= before + le_bytes(
            rest as nat,
            n as nat,
        ));
        rest = rest / 256;
        n = n - 1;
    }
    assert(bytes@ + le_bytes(rest as nat, 0) =~= bytes@);
    bytes
}

/// The 64-bit number of eight bytes, the lowest first.
pub fn decode_u64(bytes: &[u8; 8]) -> (x: u64)
    ensures
        x == le_value(bytes@),
{
    let mut x: u64 = 0;
    let mut n: usize = 8;
    proof {
        lemma_widths();
        assert(bytes@.skip(8) =~= Seq::<u8>::empty());
    }
    while n > 0
        invariant
            n <= 8,
            x == le_value(bytes@.skip(n as int)),
            pow256(8) == 0x1_0000_0000_0000_0000,
        decreases n,
    {
        n = n - 1;
        proof {
            assert(bytes@.skip(n as int).drop_first() =~= bytes@.skip(n + 1));
            law_encode_of_decode(bytes@.skip(n as int));
            lemma_pow256_ordered((8 - n) as nat, 8);
        }
        x = bytes[n] as u64 + 256 * x;
    }
    assert(bytes@.skip(0) =~= bytes@);
    x
}

/// The 32-bit number of four bytes, the lowest first.
pub fn decode_u32(bytes: &[u8; 4]) -> (x: u32)
    ensures
        x == le_value(bytes@),
{
    let mut x: u32 = 0;
    let mut n: usize = 4;
    proof {
        lemma_widths();
        assert(bytes@.skip(4) =~= Seq::<u8>::empty());
    }
    while n > 0
        invariant
            n <= 4,
            x == le_value(bytes@.skip(n as int)),
            pow256(4) == 0x1_0000_0000,
        decreases n,
    {
        n = n - 1;
        proof {
            assert(bytes@.skip(n as int).drop_first() =~= bytes@.skip(n + 1));
            law_encode_of_decode(bytes@.skip(n as int));
            lemma_pow256_ordered((4 - n) as nat, 4);
        }
        x = bytes[n] as u32 + 256 * x;
    }
    assert(bytes@.skip(0) =~= bytes@);
    x
}

/// More bytes hold no fewer numbers.
proof fn lemma_pow256_ordered(m: nat, n: nat)
    requires
        m <= n,
    ensures
        pow256(m) <= pow256(n),
    decreases n,
{
    if m < n {
        lemma_pow256_ordered(m, (n - 1) as nat);
    }
}

/// The eight bytes of a 64-bit number are its digits to the base 256, the lowest first, both as
/// they are written and as they are read; and every number comes back from its bytes.
pub proof fn law_u64_little_endian(x: u64, bytes: Vec<u8>, eight: &[u8; 8], decoded: u64)
    requires
        call_ensures(encode_u64, (x,), bytes),
        call_ensures(decode_u64, (eight,), decoded),
    ensures
        bytes@.len() == 8,
        x == bytes[0] + 0x100 * bytes[1] + 0x1_0000 * bytes[2] + 0x100_0000 * bytes[3]
            + 0x1_0000_0000 * bytes[4] + 0x100_0000_0000 * bytes[5] + 0x1_0000_0000_0000 * bytes[6]
            + 0x100_0000_0000_0000 * bytes[7],
        decoded == eight[0] + 0x100 * eight[1] + 0x1_0000 * eight[2] + 0x100_0000 * eight[3]
            + 0x1_0000_0000 * eight[4] + 0x100_0000_0000 * eight[5] + 0x1_0000_0000_0000 * eight[6]
            + 0x100_0000_0000_0000 * eight[7],
        eight@ == bytes@ ==> decoded == x,
        decoded == x ==> eight@ == bytes@,
{
    lemma_widths();
    law_decode_of_encode(x as nat, 8);
    lemma_eight_bytes(bytes@);
    lemma_eight_bytes(eight@);
    law_encode_of_decode(eight@);
}

/// The bytes from one on are that byte and 256 times what follows it.
proof fn lemma_lowest_byte(b: Seq<u8>, i: int)
    requires
        0 <= i < b.len(),
    ensures
        le_value(b.skip(i)) == b[i] + 256 * le_value(b.skip(i + 1)),
{
    assert(b.skip(i).drop_first() =~= b.skip(i + 1));
}

/// Eight bytes, spelled out.
proof fn lemma_eight_bytes(b: Seq<u8>)
    requires
        b.len() == 8,
    ensures
        le_value(b) == b[0] + 0x100 * b[1] + 0x1_0000 * b[2] + 0x100_0000 * b[3] + 0x1_0000_0000
            * b[4] + 0x100_0000_0000 * b[5] + 0x1_0000_0000_0000 * b[6] + 0x100_0000_0000_0000
            * b[7],
{
    lemma_four_bytes(b.skip(4));
    lemma_lowest_byte(b, 3);
    lemma_lowest_byte(b, 2);
    lemma_lowest_byte(b, 1);
    lemma_lowest_byte(b, 0);
    assert(b.skip(0) =~= b);
}

/// Four bytes, spelled out.
proof fn lemma_four_bytes(b: Seq<u8>)
    requires
        b.len() == 4,
    ensures
        le_value(b) == b[0] + 0x100 * b[1] + 0x1_0000 * b[2] + 0x100_0000 * b[3],
{
    assert(le_value(b.skip(4)) == 0);
    lemma_lowest_byte(b, 3);
    lemma_lowest_byte(b, 2);
    lemma_lowest_byte(b, 1);
    lemma_lowest_byte(b, 0);
    assert(b.skip(0) =~= b);
}

/// The four bytes of a 32-bit number are its digits to the base 256, the lowest first, both as
/// they are written and as they are read; and every number comes back from its bytes.
pub proof fn law_u32_little_endian(x: u32, bytes: Vec<u8>, four: &[u8; 4], decoded: u32)
    requires
        call_ensures(encode_u32, (x,), bytes),
        call_ensures(decode_u32, (four,), decoded),
    ensures
        bytes@.len() == 4,
        x == bytes[0] + 0x100 * bytes[1] + 0x1_0000 * bytes[2] + 0x100_0000 * bytes[3],
        decoded == four[0] + 0x100 * four[1] + 0x1_0000 * four[2] + 0x100_0000 * four[3],
        four@ == bytes@ ==> decoded == x,
        decoded == x ==> four@ == bytes@,
{
    lemma_widths();
    law_decode_of_encode(x as nat, 4);
    lemma_four_bytes(bytes@);
    lemma_four_bytes(four@);
    law_encode_of_decode(four@);
}

/// A write changes the bytes that it covers and no others, and what is read at its place is what
/// was written.
pub proof fn law_write_read(file: Seq<u8>, offset: nat, bytes: Seq<u8>, i: int)
    requires
        0 <= i,
    ensures
        ({
            let after = write_at(file, offset, bytes);
            &&& read_at(after, offset, bytes.len()) == Some(bytes)
            &&& after.len() >= file.len()
            &&& after.len() <= file.len() || after.len() == offset + bytes.len()
            &&& i < file.len() && !(offset <= i < offset + bytes.len()) ==> after[i] == file[i]
        }),
{
    let after = write_at(file, offset, bytes);
    let read = after.subrange(offset as int, (offset + bytes.len()) as int);
    assert(read =~= bytes);
}

} // verus!
