//! Bytes in base 32: small letters and digits, five bits each, without padding.

use vstd::arithmetic::power2::{lemma2_to64, pow2};
use vstd::prelude::*;

verus! {

/// The symbol for a number below thirty-two.
pub open spec fn symbol(n: int) -> char {
    if n < 26 {
        ('a' as u32 + n) as char
    } else {
        ('2' as u32 + n - 26) as char
    }
}

/// The byte at place `j`; behind the last one there are only zeros.
pub open spec fn byte(bytes: Seq<u8>, j: int) -> int {
    if 0 <= j < bytes.len() {
        bytes[j] as int
    } else {
        0
    }
}

/// The number that the five bits from bit `5 * i` on make, the first bit of a byte being its
/// highest.
pub open spec fn group(bytes: Seq<u8>, i: int) -> int {
    (256 * byte(bytes, 5 * i / 8) + byte(bytes, 5 * i / 8 + 1)) / pow2(
        (11 - 5 * i % 8) as nat,
    ) as int % 32
}

/// `bytes` in base 32: a symbol for every five bits, the last ones filled up with zeros.
pub open spec fn base32(bytes: Seq<u8>) -> Seq<char> {
    Seq::new((8 * bytes.len() + 4) / 5, |i: int| symbol(group(bytes, i)))
}

/// The number that a symbol stands for, be it a small letter or a capital; 0 for what is no
/// symbol.
pub open spec fn value(c: char) -> int {
    if 'a' <= c <= 'z' {
        c as int - 'a' as int
    } else if 'A' <= c <= 'Z' {
        c as int - 'A' as int
    } else if '2' <= c <= '7' {
        c as int - '2' as int + 26
    } else {
        0
    }
}

/// The number of the symbol at place `i`; behind the last one there are only zeros.
pub open spec fn value_at(text: Seq<char>, i: int) -> int {
    if 0 <= i < text.len() {
        value(text[i])
    } else {
        0
    }
}

/// The byte that the eight bits from bit `8 * j` on make.
pub open spec fn eight(text: Seq<char>, j: int) -> int {
    let i = 8 * j / 5;
    (1024 * value_at(text, i) + 32 * value_at(text, i + 1) + value_at(text, i + 2)) / pow2(
        (7 - 8 * j % 5) as nat,
    ) as int % 256
}

/// The bytes that the bits of `text` make. Bits that fill no byte are left out.
pub open spec fn decoded(text: Seq<char>) -> Seq<u8> {
    Seq::new(5 * text.len() / 8, |j: int| eight(text, j) as u8)
}

/// The symbol for a number below thirty-two.
fn symbol_of(n: u32) -> (r: char)
    requires
        n < 32,
    ensures
        r == symbol(n as int),
{
    if n < 26 {
        (97 + n as u8) as char
    } else {
        (50 + (n - 26) as u8) as char
    }
}

/// The number that a symbol stands for.
fn value_of(c: char) -> (r: u32)
    ensures
        r == value(c),
        r < 32,
{
    if 'a' <= c && c <= 'z' {
        c as u32 - 'a' as u32
    } else if 'A' <= c && c <= 'Z' {
        c as u32 - 'A' as u32
    } else if '2' <= c && c <= '7' {
        c as u32 - '2' as u32 + 26
    } else {
        0
    }
}

/// Two to the power `n`.
fn two_to(n: u32) -> (r: u32)
    requires
        3 <= n <= 11,
    ensures
        r == pow2(n as nat),
        r > 0,
{
    proof {
        lemma2_to64();
    }
    match n {
        3 => 8,
        4 => 16,
        5 => 32,
        6 => 64,
        7 => 128,
        8 => 256,
        9 => 512,
        10 => 1024,
        _ => 2048,
    }
}

/// Writes `bytes` in base 32.
pub fn encode(bytes: &[u8]) -> (r: String)
    ensures
        r@ == base32(bytes@),
{
    let mut out = String::new();
    let mut j: usize = 0;
    let mut off: u32 = 0;
    while j < bytes.len()
        invariant
            j <= bytes@.len(),
            off < 8,
            j == bytes@.len() ==> off <= 4,
            8 * j + off == 5 * out@.len(),
            forall|i: int| 0 <= i < out@.len() ==> #[trigger] out@[i] == symbol(group(bytes@, i)),
        decreases 8 * (bytes@.len() - j) + 8 - off,
    {
        let high: u32 = bytes[j] as u32;
        let low: u32 = if j < bytes.len() - 1 {
            bytes[j + 1] as u32
        } else {
            0
        };
        let n: u32 = (256 * high + low) / two_to(11 - off) % 32;
        proof {
            let i = out@.len() as int;
            assert(5 * i / 8 == j && 5 * i % 8 == off);
            assert(n == group(bytes@, i));
        }
        out.push(symbol_of(n));
        if off < 3 {
            off = off + 5;
        } else {
            off = off - 3;
            j = j + 1;
        }
    }
    assert(out@ =~= base32(bytes@));
    out
}

/// Reads the bytes that `text` writes in base 32.
pub fn decode(text: &[char]) -> (r: Vec<u8>)
    ensures
        r@ == decoded(text@),
{
    let mut out: Vec<u8> = Vec::new();
    let m: usize = text.len();
    let mut i: usize = 0;
    let mut off: u32 = 0;
    while (off <= 2 && m - i >= 2) || m - i >= 3
        invariant
            m == text@.len(),
            i <= m,
            off < 5,
            5 * i + off == 8 * out@.len(),
            5 * i + off <= 5 * m,
            forall|j: int| 0 <= j < out@.len() ==> #[trigger] out@[j] == eight(text@, j) as u8,
        decreases m - i,
    {
        let third: u32 = if m - i >= 3 {
            value_of(text[i + 2])
        } else {
            0
        };
        let bits: u32 = 1024 * value_of(text[i]) + 32 * value_of(text[i + 1]) + third;
        let n: u32 = bits / two_to(7 - off) % 256;
        proof {
            let j = out@.len() as int;
            assert(8 * j / 5 == i && 8 * j % 5 == off);
            assert(n == eight(text@, j));
        }
        out.push(n as u8);
        if off < 2 {
            off = off + 3;
            i = i + 1;
        } else {
            off = off - 2;
            i = i + 2;
        }
    }
    assert(out@ =~= decoded(text@));
    out
}

/// A symbol stands for its number and is a small letter or a digit.
pub proof fn lemma_symbol(n: int)
    requires
        0 <= n < 32,
    ensures
        value(symbol(n)) == n,
        'a' <= symbol(n) <= 'z' || '2' <= symbol(n) <= '7',
{
}

/// The numbers of the symbols that write `bytes` are its groups of five bits.
proof fn lemma_values(bytes: Seq<u8>, i: int)
    requires
        0 <= i,
    ensures
        value_at(base32(bytes), i) == group(bytes, i),
{
    lemma2_to64();
    let k = 5 * i % 8;
    assert(0 <= group(bytes, i) < 32);
    if i < base32(bytes).len() {
        lemma_symbol(group(bytes, i));
    } else {
        assert(5 * i / 8 >= bytes.len());
        assert(0int / pow2((11 - k) as nat) as int == 0);
    }
}

/// The groups of five bits that a byte reaches into make up the byte.
proof fn lemma_eight(bytes: Seq<u8>, j: int)
    requires
        0 <= j < bytes.len(),
    ensures
        eight(base32(bytes), j) == bytes[j],
{
    lemma2_to64();
    let i = 8 * j / 5;
    let q = j / 5;
    lemma_values(bytes, i);
    lemma_values(bytes, i + 1);
    lemma_values(bytes, i + 2);
    let a = byte(bytes, j - 1) as u32;
    let b = byte(bytes, j) as u32;
    let c = byte(bytes, j + 1) as u32;
    let d = byte(bytes, j + 2) as u32;
    if j % 5 == 0 {
        assert(i == 8 * q);
        assert(group(bytes, i) == (256 * b + c) / 2048 % 32);
        assert(group(bytes, i + 1) == (256 * b + c) / 64 % 32);
        assert(group(bytes, i + 2) == (256 * c + d) / 512 % 32);
        assert((1024 * ((256 * b + c) / 2048 % 32) + 32 * ((256 * b + c) / 64 % 32)
            + ((256 * c + d) / 512 % 32)) / 128 % 256 == b) by (bit_vector)
            requires
                a < 256,
                b < 256,
                c < 256,
                d < 256,
        ;
    } else if j % 5 == 1 {
        assert(i == 8 * q + 1);
        assert(group(bytes, i) == (256 * a + b) / 64 % 32);
        assert(group(bytes, i + 1) == (256 * b + c) / 512 % 32);
        assert(group(bytes, i + 2) == (256 * b + c) / 16 % 32);
        assert((1024 * ((256 * a + b) / 64 % 32) + 32 * ((256 * b + c) / 512 % 32)
            + ((256 * b + c) / 16 % 32)) / 16 % 256 == b) by (bit_vector)
            requires
                a < 256,
                b < 256,
                c < 256,
                d < 256,
        ;
    } else if j % 5 == 2 {
        assert(i == 8 * q + 3);
        assert(group(bytes, i) == (256 * a + b) / 16 % 32);
        assert(group(bytes, i + 1) == (256 * b + c) / 128 % 32);
        assert(group(bytes, i + 2) == (256 * c + d) / 1024 % 32);
        assert((1024 * ((256 * a + b) / 16 % 32) + 32 * ((256 * b + c) / 128 % 32)
            + ((256 * c + d) / 1024 % 32)) / 64 % 256 == b) by (bit_vector)
            requires
                a < 256,
                b < 256,
                c < 256,
                d < 256,
        ;
    } else if j % 5 == 3 {
        assert(i == 8 * q + 4);
        assert(group(bytes, i) == (256 * a + b) / 128 % 32);
        assert(group(bytes, i + 1) == (256 * b + c) / 1024 % 32);
        assert(group(bytes, i + 2) == (256 * b + c) / 32 % 32);
        assert((1024 * ((256 * a + b) / 128 % 32) + 32 * ((256 * b + c) / 1024 % 32)
            + ((256 * b + c) / 32 % 32)) / 8 % 256 == b) by (bit_vector)
            requires
                a < 256,
                b < 256,
                c < 256,
                d < 256,
        ;
    } else {
        assert(i == 8 * q + 6);
        assert(group(bytes, i) == (256 * a + b) / 32 % 32);
        assert(group(bytes, i + 1) == (256 * b + c) / 256 % 32);
        assert(group(bytes, i + 2) == (256 * c + d) / 2048 % 32);
        assert((1024 * ((256 * a + b) / 32 % 32) + 32 * ((256 * b + c) / 256 % 32)
            + ((256 * c + d) / 2048 % 32)) / 32 % 256 == b) by (bit_vector)
            requires
                a < 256,
                b < 256,
                c < 256,
                d < 256,
        ;
    }
}

/// What was written in base 32 reads back as the bytes that were written, all of them.
pub proof fn law_base32_reads_back(bytes: Seq<u8>)
    ensures
        decoded(base32(bytes)) == bytes,
{
    assert forall|j: int| 0 <= j < bytes.len() implies decoded(base32(bytes))[j] == bytes[j] by {
        lemma_eight(bytes, j);
    }
    assert(decoded(base32(bytes)) =~= bytes);
}

/// The bit at place `k`, the first bit of a byte being its highest; behind the last byte there are
/// only zeros.
pub open spec fn bit(bytes: Seq<u8>, k: int) -> int {
    byte(bytes, k / 8) / pow2((7 - k % 8) as nat) as int % 2
}

/// Every five bits are spelled by the letter or digit that they count out: the letters first, then
/// the digits from 2 on. There are no more symbols than it takes to spell all bits.
pub proof fn law_base32_spells_the_bits(bytes: Seq<u8>, i: int)
    requires
        0 <= i < base32(bytes).len(),
    ensures
        8 * bytes.len() <= 5 * base32(bytes).len() < 8 * bytes.len() + 5,
        base32(bytes)[i] == "abcdefghijklmnopqrstuvwxyz234567"@[16 * bit(bytes, 5 * i) + 8 * bit(
            bytes,
            5 * i + 1,
        ) + 4 * bit(bytes, 5 * i + 2) + 2 * bit(bytes, 5 * i + 3) + bit(bytes, 5 * i + 4)],
{
    reveal_strlit("abcdefghijklmnopqrstuvwxyz234567");
    lemma2_to64();
    let j = 5 * i / 8;
    let off = 5 * i % 8;
    let x = byte(bytes, j) as u32;
    let y = byte(bytes, j + 1) as u32;
    assert(group(bytes, i) == (256 * x + y) / pow2((11 - off) as nat) as int % 32);
    if off == 0 {
        assert(bit(bytes, 5 * i + 0) == x / 128 % 2);
        assert(bit(bytes, 5 * i + 1) == x / 64 % 2);
        assert(bit(bytes, 5 * i + 2) == x / 32 % 2);
        assert(bit(bytes, 5 * i + 3) == x / 16 % 2);
        assert(bit(bytes, 5 * i + 4) == x / 8 % 2);
        assert((256 * x + y) / 2048 % 32 == 16 * (x / 128 % 2) + 8 * (x / 64 % 2) + 4 * (x / 32 % 2) + 2 * (x / 16 % 2) + (x / 8 % 2)) by (bit_vector)
            requires
                x < 256,
                y < 256,
        ;
    } else if off == 1 {
        assert(bit(bytes, 5 * i + 0) == x / 64 % 2);
        assert(bit(bytes, 5 * i + 1) == x / 32 % 2);
        assert(bit(bytes, 5 * i + 2) == x / 16 % 2);
        assert(bit(bytes, 5 * i + 3) == x / 8 % 2);
        assert(bit(bytes, 5 * i + 4) == x / 4 % 2);
        assert((256 * x + y) / 1024 % 32 == 16 * (x / 64 % 2) + 8 * (x / 32 % 2) + 4 * (x / 16 % 2) + 2 * (x / 8 % 2) + (x / 4 % 2)) by (bit_vector)
            requires
                x < 256,
                y < 256,
        ;
    } else if off == 2 {
        assert(bit(bytes, 5 * i + 0) == x / 32 % 2);
        assert(bit(bytes, 5 * i + 1) == x / 16 % 2);
        assert(bit(bytes, 5 * i + 2) == x / 8 % 2);
        assert(bit(bytes, 5 * i + 3) == x / 4 % 2);
        assert(bit(bytes, 5 * i + 4) == x / 2 % 2);
        assert((256 * x + y) / 512 % 32 == 16 * (x / 32 % 2) + 8 * (x / 16 % 2) + 4 * (x / 8 % 2) + 2 * (x / 4 % 2) + (x / 2 % 2)) by (bit_vector)
            requires
                x < 256,
                y < 256,
        ;
    } else if off == 3 {
        assert(bit(bytes, 5 * i + 0) == x / 16 % 2);
        assert(bit(bytes, 5 * i + 1) == x / 8 % 2);
        assert(bit(bytes, 5 * i + 2) == x / 4 % 2);
        assert(bit(bytes, 5 * i + 3) == x / 2 % 2);
        assert(bit(bytes, 5 * i + 4) == x / 1 % 2);
        assert((256 * x + y) / 256 % 32 == 16 * (x / 16 % 2) + 8 * (x / 8 % 2) + 4 * (x / 4 % 2) + 2 * (x / 2 % 2) + (x / 1 % 2)) by (bit_vector)
            requires
                x < 256,
                y < 256,
        ;
    } else if off == 4 {
        assert(bit(bytes, 5 * i + 0) == x / 8 % 2);
        assert(bit(bytes, 5 * i + 1) == x / 4 % 2);
        assert(bit(bytes, 5 * i + 2) == x / 2 % 2);
        assert(bit(bytes, 5 * i + 3) == x / 1 % 2);
        assert(bit(bytes, 5 * i + 4) == y / 128 % 2);
        assert((256 * x + y) / 128 % 32 == 16 * (x / 8 % 2) + 8 * (x / 4 % 2) + 4 * (x / 2 % 2) + 2 * (x / 1 % 2) + (y / 128 % 2)) by (bit_vector)
            requires
                x < 256,
                y < 256,
        ;
    } else if off == 5 {
        assert(bit(bytes, 5 * i + 0) == x / 4 % 2);
        assert(bit(bytes, 5 * i + 1) == x / 2 % 2);
        assert(bit(bytes, 5 * i + 2) == x / 1 % 2);
        assert(bit(bytes, 5 * i + 3) == y / 128 % 2);
        assert(bit(bytes, 5 * i + 4) == y / 64 % 2);
        assert((256 * x + y) / 64 % 32 == 16 * (x / 4 % 2) + 8 * (x / 2 % 2) + 4 * (x / 1 % 2) + 2 * (y / 128 % 2) + (y / 64 % 2)) by (bit_vector)
            requires
                x < 256,
                y < 256,
        ;
    } else if off == 6 {
        assert(bit(bytes, 5 * i + 0) == x / 2 % 2);
        assert(bit(bytes, 5 * i + 1) == x / 1 % 2);
        assert(bit(bytes, 5 * i + 2) == y / 128 % 2);
        assert(bit(bytes, 5 * i + 3) == y / 64 % 2);
        assert(bit(bytes, 5 * i + 4) == y / 32 % 2);
        assert((256 * x + y) / 32 % 32 == 16 * (x / 2 % 2) + 8 * (x / 1 % 2) + 4 * (y / 128 % 2) + 2 * (y / 64 % 2) + (y / 32 % 2)) by (bit_vector)
            requires
                x < 256,
                y < 256,
        ;
    } else {
        assert(bit(bytes, 5 * i + 0) == x / 1 % 2);
        assert(bit(bytes, 5 * i + 1) == y / 128 % 2);
        assert(bit(bytes, 5 * i + 2) == y / 64 % 2);
        assert(bit(bytes, 5 * i + 3) == y / 32 % 2);
        assert(bit(bytes, 5 * i + 4) == y / 16 % 2);
        assert((256 * x + y) / 16 % 32 == 16 * (x / 1 % 2) + 8 * (y / 128 % 2) + 4 * (y / 64 % 2) + 2 * (y / 32 % 2) + (y / 16 % 2)) by (bit_vector)
            requires
                x < 256,
                y < 256,
        ;
    }
}

} // verus!
