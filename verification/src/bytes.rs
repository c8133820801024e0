//! Little-endian integers in byte sequences.

use vstd::prelude::*;

verus! {

/// The 16-bit number at position `at`, least significant byte first.
pub open spec fn le2(s: Seq<u8>, at: int) -> int {
    s[at] + 0x100 * s[at + 1]
}

/// The 32-bit number at position `at`, least significant byte first.
pub open spec fn le4(s: Seq<u8>, at: int) -> int {
    le2(s, at) + 0x1_0000 * le2(s, at + 2)
}

/// The 64-bit number at position `at`, least significant byte first.
pub open spec fn le8(s: Seq<u8>, at: int) -> int {
    le4(s, at) + 0x1_0000_0000 * le4(s, at + 4)
}

/// The byte of weight `256^k` of a number, negative numbers in two's complement.
pub open spec fn le_byte(n: int, k: nat) -> u8
    decreases k,
{
    if k == 0 {
        (n % 256) as u8
    } else {
        le_byte(n / 256, (k - 1) as nat)
    }
}

/// The two low bytes of a number.
pub open spec fn le_bytes2(n: int) -> Seq<u8> {
    seq![le_byte(n, 0), le_byte(n, 1)]
}

/// The four low bytes of a number.
pub open spec fn le_bytes4(n: int) -> Seq<u8> {
    seq![le_byte(n, 0), le_byte(n, 1), le_byte(n, 2), le_byte(n, 3)]
}

/// The eight low bytes of a number.
pub open spec fn le_bytes8(n: int) -> Seq<u8> {
    seq![
        le_byte(n, 0),
        le_byte(n, 1),
        le_byte(n, 2),
        le_byte(n, 3),
        le_byte(n, 4),
        le_byte(n, 5),
        le_byte(n, 6),
        le_byte(n, 7),
    ]
}

/// The signed number whose two's complement in a word of `modulus` values is `n`.
pub open spec fn as_signed(n: int, modulus: int) -> int {
    if n >= modulus / 2 {
        n - modulus
    } else {
        n
    }
}

/// Writing a 16-bit number and reading it gives the number modulo 2^16.
pub proof fn lemma_le2_of_bytes(n: int)
    ensures
        le2(le_bytes2(n), 0) == n % 0x1_0000,
{
    reveal_with_fuel(le_byte, 2);
    let q1 = n / 256 / 256;
    vstd::arithmetic::div_mod::lemma_fundamental_div_mod_converse(
        n,
        0x1_0000,
        q1,
        le2(le_bytes2(n), 0),
    );
}

/// Writing a 32-bit number and reading it gives the number modulo 2^32.
pub proof fn lemma_le4_of_bytes(n: int)
    ensures
        le4(le_bytes4(n), 0) == n % 0x1_0000_0000,
{
    reveal_with_fuel(le_byte, 4);
    let q3 = n / 256 / 256 / 256 / 256;
    vstd::arithmetic::div_mod::lemma_fundamental_div_mod_converse(
        n,
        0x1_0000_0000,
        q3,
        le4(le_bytes4(n), 0),
    );
}

/// Writing a 64-bit number and reading it gives the number modulo 2^64.
pub proof fn lemma_le8_of_bytes(n: int)
    ensures
        le8(le_bytes8(n), 0) == n % 0x1_0000_0000_0000_0000,
{
    reveal_with_fuel(le_byte, 8);
    let q7 = n / 256 / 256 / 256 / 256 / 256 / 256 / 256 / 256;
    vstd::arithmetic::div_mod::lemma_fundamental_div_mod_converse(
        n,
        0x1_0000_0000_0000_0000,
        q7,
        le8(le_bytes8(n), 0),
    );
}

/// Reading a 16-bit number from its two bytes.
pub fn u16_le(b0: u8, b1: u8) -> (r: u16)
    ensures
        r == b0 + 0x100 * b1,
{
    b0 as u16 + (b1 as u16) * 0x100
}

/// Reading a 32-bit number from its four bytes.
pub fn u32_le(b0: u8, b1: u8, b2: u8, b3: u8) -> (r: u32)
    ensures
        r == b0 + 0x100 * b1 + 0x1_0000 * b2 + 0x100_0000 * b3,
{
    b0 as u32 + (b1 as u32) * 0x100 + (b2 as u32) * 0x1_0000 + (b3 as u32) * 0x100_0000
}

/// Reading the 64-bit number at position `at`.
pub fn u64_le(s: &[u8], at: usize) -> (r: u64)
    requires
        at + 8 <= s@.len(),
    ensures
        r as int == le8(s@, at as int),
{
    let lo: u32 = u32_le(s[at], s[at + 1], s[at + 2], s[at + 3]);
    let hi: u32 = u32_le(s[at + 4], s[at + 5], s[at + 6], s[at + 7]);
    lo as u64 + (hi as u64) * 0x1_0000_0000
}

/// The signed reading of a byte.
pub fn u8_signed(n: u8) -> (r: i8)
    ensures
        r == as_signed(n as int, 0x100),
{
    if n >= 0x80 {
        (n as i32 - 0x100) as i8
    } else {
        n as i8
    }
}

/// The signed reading of a 16-bit number.
pub fn u16_signed(n: u16) -> (r: i16)
    ensures
        r == as_signed(n as int, 0x1_0000),
{
    if n >= 0x8000 {
        (n as i32 - 0x1_0000) as i16
    } else {
        n as i16
    }
}

/// The signed reading of a 32-bit number.
pub fn u32_signed(n: u32) -> (r: i32)
    ensures
        r == as_signed(n as int, 0x1_0000_0000),
{
    if n >= 0x8000_0000 {
        (n as i64 - 0x1_0000_0000) as i32
    } else {
        n as i32
    }
}

/// The signed reading of a 64-bit number.
pub fn u64_signed(n: u64) -> (r: i64)
    ensures
        r == as_signed(n as int, 0x1_0000_0000_0000_0000),
{
    if n >= 0x8000_0000_0000_0000 {
        (n as i128 - 0x1_0000_0000_0000_0000) as i64
    } else {
        n as i64
    }
}

/// The byte of weight `256^k` of a number.
pub fn byte_at(n: u64, k: u8) -> (r: u8)
    requires
        k < 8,
    ensures
        r == le_byte(n as int, k as nat),
{
    let mut m: u64 = n;
    let mut j: u8 = 0;
    while j < k
        invariant
            j <= k,
            le_byte(m as int, (k - j) as nat) == le_byte(n as int, k as nat),
        decreases k - j,
    {
        m = m / 256;
        j += 1;
    }
    (m % 256) as u8
}

/// The unsigned number with the same 64-bit pattern as `n`.
pub fn two_complement(n: i64) -> (r: u64)
    ensures
        r as int == n as int % 0x1_0000_0000_0000_0000,
{
    if n < 0 {
        (n as i128 + 0x1_0000_0000_0000_0000) as u64
    } else {
        n as u64
    }
}

/// Adding a multiple of `256^(k+1)` leaves the byte of weight `256^k` unchanged.
proof fn lemma_le_byte_wraps(n: int, c: int, k: nat)
    ensures
        le_byte(n + c * pow256(k + 1), k) == le_byte(n, k),
    decreases k,
{
    let x = c * pow256(k);
    assert(c * pow256(k + 1) == 256 * x) by (nonlinear_arith)
        requires
            pow256(k + 1) == 256 * pow256(k),
            x == c * pow256(k),
    ;
    if k > 0 {
        assert((n + 256 * x) / 256 == n / 256 + x);
        lemma_le_byte_wraps(n / 256, c, (k - 1) as nat);
    }
}

/// 256 to the power `k`.
pub open spec fn pow256(k: nat) -> int
    decreases k,
{
    if k == 0 {
        1
    } else {
        256 * pow256((k - 1) as nat)
    }
}

proof fn lemma_pow256_sum(a: nat, b: nat)
    ensures
        pow256(a) * pow256(b) == pow256(a + b),
    decreases a,
{
    if a > 0 {
        lemma_pow256_sum((a - 1) as nat, b);
        assert(pow256(a) * pow256(b) == 256 * (pow256((a - 1) as nat) * pow256(b)))
            by (nonlinear_arith)
            requires
                pow256(a) == 256 * pow256((a - 1) as nat),
        ;
    }
}

proof fn lemma_le_byte_wraps64(n: int, k: nat)
    requires
        k < 8,
    ensures
        le_byte(n + 0x1_0000_0000_0000_0000, k) == le_byte(n, k),
{
    let c = pow256((7 - k) as nat);
    lemma_pow256_sum((7 - k) as nat, k + 1);
    assert(pow256(8) == 0x1_0000_0000_0000_0000) by {
        reveal_with_fuel(pow256, 9);
    }
    lemma_le_byte_wraps(n, c, k);
}

/// The low `len` bytes of a signed number, least significant first.
pub fn signed_bytes(n: i64, len: usize) -> (r: Vec<u8>)
    requires
        len <= 8,
    ensures
        r@ == Seq::new(len as nat, |k: int| le_byte(n as int, k as nat)),
{
    let u: u64 = two_complement(n);
    proof {
        assert forall|k: nat| k < 8 implies #[trigger] le_byte(u as int, k) == le_byte(
            n as int,
            k,
        ) by {
            if n < 0 {
                lemma_le_byte_wraps64(n as int, k);
            }
        }
    }
    unsigned_bytes(u, len)
}

/// The low `len` bytes of a number, least significant first.
pub fn unsigned_bytes(n: u64, len: usize) -> (r: Vec<u8>)
    requires
        len <= 8,
    ensures
        r@ == Seq::new(len as nat, |k: int| le_byte(n as int, k as nat)),
{
    let mut r: Vec<u8> = Vec::new();
    let mut k: usize = 0;
    while k < len
        invariant
            k <= len <= 8,
            r@ == Seq::new(k as nat, |j: int| le_byte(n as int, j as nat)),
        decreases len - k,
    {
        r.push(byte_at(n, k as u8));
        k += 1;
    }
    r
}

/// A copy of the part of `s` from `from` up to `to`.
pub fn copy_range(s: &[u8], from: usize, to: usize) -> (r: Vec<u8>)
    requires
        from <= to <= s@.len(),
    ensures
        r@ == s@.subrange(from as int, to as int),
{
    vstd::slice::slice_to_vec(vstd::slice::slice_subrange(s, from, to))
}

} // verus!
