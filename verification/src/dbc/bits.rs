//! Bit fields in CAN payloads.
//!
//! Bit `p` of a payload is bit `p % 8` (0 = least significant) of byte `p / 8`.

use vstd::prelude::*;

verus! {

/// Two to the power `n`.
pub open spec fn pow2(n: nat) -> int
    decreases n,
{
    if n == 0 {
        1
    } else {
        2 * pow2((n - 1) as nat)
    }
}

/// One for a set bit, zero for a clear one.
pub open spec fn bit_int(b: bool) -> int {
    if b {
        1
    } else {
        0
    }
}

/// Bit `k` of a byte.
pub open spec fn byte_bit(b: u8, k: u8) -> bool {
    (b >> k) & 1 == 1
}

/// Bit `p` of a payload; a bit behind its end is clear.
pub open spec fn payload_bit(data: Seq<u8>, p: int) -> bool {
    0 <= p < 8 * data.len() && byte_bit(data[p / 8], (p % 8) as u8)
}

/// Bit `i` of a number.
pub open spec fn number_bit(n: int, i: nat) -> bool
    decreases i,
{
    if i == 0 {
        n % 2 == 1
    } else {
        number_bit(n / 2, (i - 1) as nat)
    }
}

/// The position of bit `i` (0 = least significant) of an Intel field: positions count upwards
/// from the least significant bit.
pub open spec fn intel_position(start: int, i: int) -> int {
    start + i
}

/// Positions in the order of transmission, byte by byte and most significant bit first. The
/// function is its own inverse.
pub open spec fn transmission_index(p: int) -> int {
    8 * (p / 8) + (7 - p % 8)
}

/// The position of bit `i` (0 = most significant) of a Motorola field: bits follow each other in
/// the order of transmission from the most significant bit on.
pub open spec fn motorola_position(start: int, i: int) -> int {
    transmission_index(transmission_index(start) + i)
}

/// The number in the low `n` bits of an Intel field.
pub open spec fn intel_value(data: Seq<u8>, start: int, n: nat) -> int
    decreases n,
{
    if n == 0 {
        0
    } else {
        intel_value(data, start, (n - 1) as nat) + bit_int(
            payload_bit(data, intel_position(start, n - 1)),
        ) * pow2((n - 1) as nat)
    }
}

/// The number in the high `n` bits of a Motorola field.
pub open spec fn motorola_value(data: Seq<u8>, start: int, n: nat) -> int
    decreases n,
{
    if n == 0 {
        0
    } else {
        2 * motorola_value(data, start, (n - 1) as nat) + bit_int(
            payload_bit(data, motorola_position(start, n - 1)),
        )
    }
}

pub proof fn lemma_pow2_positive(n: nat)
    ensures
        pow2(n) >= 1,
    decreases n,
{
    if n > 0 {
        lemma_pow2_positive((n - 1) as nat);
    }
}

pub proof fn lemma_pow2_monotone(a: nat, b: nat)
    requires
        a <= b,
    ensures
        pow2(a) <= pow2(b),
    decreases b,
{
    if a < b {
        lemma_pow2_monotone(a, (b - 1) as nat);
        lemma_pow2_positive((b - 1) as nat);
    }
}

pub proof fn lemma_pow2_64()
    ensures
        pow2(64) == 0x1_0000_0000_0000_0000,
{
    reveal_with_fuel(pow2, 33);
    assert(pow2(32) == 0x1_0000_0000);
    assert(pow2(64) == 0x1_0000_0000 * pow2(32));
}

/// An `n`-bit field holds a number below 2^n.
pub proof fn lemma_intel_range(data: Seq<u8>, start: int, n: nat)
    ensures
        0 <= intel_value(data, start, n) < pow2(n),
    decreases n,
{
    if n > 0 {
        lemma_intel_range(data, start, (n - 1) as nat);
        let b = bit_int(payload_bit(data, intel_position(start, n - 1)));
        assert(b == 0 || b == 1);
        assert(0 * pow2((n - 1) as nat) == 0);
        assert(1 * pow2((n - 1) as nat) == pow2((n - 1) as nat));
    }
}

/// An `n`-bit field holds a number below 2^n.
pub proof fn lemma_motorola_range(data: Seq<u8>, start: int, n: nat)
    ensures
        0 <= motorola_value(data, start, n) < pow2(n),
    decreases n,
{
    if n > 0 {
        lemma_motorola_range(data, start, (n - 1) as nat);
    }
}

fn read_bit(data: &[u8], p: u128) -> (r: bool)
    requires
        p < 8 * data@.len(),
    ensures
        r == payload_bit(data@, p as int),
{
    let k: u8 = (p % 8) as u8;
    let b: u8 = data[(p / 8) as usize];
    (b >> k) & 1 == 1
}

/// The bit changes of a byte are as intended: bit `k` gets the value, the others stay.
proof fn lemma_set_bit(b: u8, k: u8, j: u8)
    by (bit_vector)
    requires
        k < 8,
        j < 8,
    ensures
        ((b & !(1u8 << k)) >> j) & 1 == (if j == k {
            0u8
        } else {
            (b >> j) & 1
        }),
        ((b & !(1u8 << k) | (1u8 << k)) >> j) & 1 == (if j == k {
            1u8
        } else {
            (b >> j) & 1
        }),
{
}

fn write_bit(data: &mut [u8], p: u128, v: bool)
    requires
        p < 8 * old(data)@.len(),
    ensures
        final(data)@.len() == old(data)@.len(),
        forall|q: int| #[trigger]
            payload_bit(final(data)@, q) == (if q == p {
                v
            } else {
                payload_bit(old(data)@, q)
            }),
{
    let _len: usize = data.len();
    let k: u8 = (p % 8) as u8;
    let i: usize = (p / 8) as usize;
    let b: u8 = data[i];
    let cleared: u8 = b & !(1u8 << k);
    let c: u8 = if v {
        cleared | (1u8 << k)
    } else {
        cleared
    };
    proof {
        assert forall|j: u8| j < 8 implies #[trigger] byte_bit(c, j) == (if j == k {
            v
        } else {
            byte_bit(b, j)
        }) by {
            lemma_set_bit(b, k, j);
        }
    }
    data[i] = c;
    proof {
        assert forall|q: int| #[trigger]
            payload_bit(data@, q) == (if q == p {
                v
            } else {
                payload_bit(old(data)@, q)
            }) by {
            if 0 <= q < 8 * data@.len() {
                assert(q == 8 * (q / 8) + q % 8);
                assert(p == 8 * (p / 8) + p % 8);
                if q / 8 == i {
                    assert(byte_bit(c, (q % 8) as u8) == (if (q % 8) as u8 == k {
                        v
                    } else {
                        byte_bit(b, (q % 8) as u8)
                    }));
                }
            }
        }
    }
}

/// Numbering the positions in the order of transmission is its own inverse.
pub proof fn lemma_transmission_index(p: int)
    requires
        0 <= p,
    ensures
        transmission_index(transmission_index(p)) == p,
        0 <= transmission_index(p) <= p + 7,
        transmission_index(p) / 8 == p / 8,
{
    let q = transmission_index(p);
    assert(q / 8 == p / 8 && q % 8 == 7 - p % 8) by {
        vstd::arithmetic::div_mod::lemma_fundamental_div_mod_converse(q, 8, p / 8, 7 - p % 8);
    }
}

/// Extracts `length` bits with Intel (little-endian) byte order. `start_bit` is the position of
/// the least significant bit. Bits behind the payload read as zero.
pub fn extract_intel(data: &[u8], start_bit: u64, length: u64) -> (r: u64)
    requires
        length <= 64,
    ensures
        r as int == intel_value(data@, start_bit as int, length as nat),
{
    let total: u128 = data.len() as u128 * 8;
    let mut raw: u64 = 0;
    let mut i: u64 = 0;
    proof {
        lemma_pow2_64();
    }
    while i < length
        invariant
            i <= length <= 64,
            total == 8 * data@.len(),
            raw as int == intel_value(data@, start_bit as int, i as nat),
            pow2(64) == 0x1_0000_0000_0000_0000,
        decreases length - i,
    {
        let p: u128 = start_bit as u128 + i as u128;
        proof {
            lemma_intel_range(data@, start_bit as int, i as nat);
            lemma_intel_range(data@, start_bit as int, (i + 1) as nat);
            lemma_pow2_monotone((i + 1) as nat, 64);
            assert(0 * pow2(i as nat) == 0);
            assert(1 * pow2(i as nat) == pow2(i as nat));
            assert(intel_value(data@, start_bit as int, (i + 1) as nat) == intel_value(
                data@,
                start_bit as int,
                i as nat,
            ) + bit_int(payload_bit(data@, p as int)) * pow2(i as nat));
        }
        if p < total && read_bit(data, p) {
            raw = raw + power(i);
        }
        i += 1;
    }
    raw
}

/// Two to the power `i`.
pub fn power(i: u64) -> (r: u64)
    requires
        i < 64,
    ensures
        r as int == pow2(i as nat),
{
    let mut r: u64 = 1;
    let mut j: u64 = 0;
    proof {
        lemma_pow2_64();
    }
    while j < i
        invariant
            j <= i < 64,
            r as int == pow2(j as nat),
            pow2(64) == 0x1_0000_0000_0000_0000,
        decreases i - j,
    {
        proof {
            lemma_pow2_monotone((j + 1) as nat, 64);
            lemma_pow2_monotone((j + 1) as nat, 63);
            assert(pow2(64) == 2 * pow2(63));
            assert(pow2((j + 1) as nat) == 2 * pow2(j as nat));
        }
        r = r * 2;
        j += 1;
    }
    r
}

/// The position after `p` in the order of transmission.
fn following(p: u128) -> (r: u128)
    requires
        p < 0x1_0000_0000_0000_0000_0000,
    ensures
        r as int == transmission_index(transmission_index(p as int) + 1),
{
    if p % 8 == 0 {
        p + 15
    } else {
        p - 1
    }
}

proof fn lemma_motorola_step(start: int, i: int)
    requires
        0 <= start,
        0 <= i,
    ensures
        motorola_position(start, 0) == start,
        transmission_index(transmission_index(motorola_position(start, i)) + 1)
            == motorola_position(start, i + 1),
        0 <= motorola_position(start, i) <= start + i + 14,
{
    let t = transmission_index(start);
    lemma_transmission_index(start);
    lemma_transmission_index(t + i);
}

/// Extracts `length` bits with Motorola (big-endian) byte order. `start_bit` is the position of
/// the most significant bit; within each byte positions go down to bit 0, then on to bit 7 of
/// the next byte. Bits behind the payload read as zero.
pub fn extract_motorola(data: &[u8], start_bit: u64, length: u64) -> (r: u64)
    requires
        length <= 64,
    ensures
        r as int == motorola_value(data@, start_bit as int, length as nat),
{
    let total: u128 = data.len() as u128 * 8;
    let mut raw: u64 = 0;
    let mut i: u64 = 0;
    let mut p: u128 = start_bit as u128;
    proof {
        lemma_pow2_64();
        lemma_motorola_step(start_bit as int, 0);
    }
    while i < length
        invariant
            i <= length <= 64,
            total == 8 * data@.len(),
            raw as int == motorola_value(data@, start_bit as int, i as nat),
            pow2(64) == 0x1_0000_0000_0000_0000,
            p as int == motorola_position(start_bit as int, i as int),
        decreases length - i,
    {
        proof {
            lemma_motorola_range(data@, start_bit as int, i as nat);
            lemma_motorola_range(data@, start_bit as int, (i + 1) as nat);
            lemma_pow2_monotone((i + 1) as nat, 64);
            lemma_motorola_step(start_bit as int, i as int);
        }
        raw = if p < total && read_bit(data, p) {
            raw * 2 + 1
        } else {
            raw * 2
        };
        p = following(p);
        i += 1;
    }
    raw
}

/// Bit `i` of a number.
fn bit_of(n: u64, i: u64) -> (r: bool)
    ensures
        r == number_bit(n as int, i as nat),
{
    let mut m: u64 = n;
    let mut j: u64 = 0;
    while j < i
        invariant
            j <= i,
            number_bit(m as int, (i - j) as nat) == number_bit(n as int, i as nat),
        decreases i - j,
    {
        m = m / 2;
        j += 1;
    }
    m % 2 == 1
}

/// Whether `new` is `old` with `n` bits from position `start` upwards replaced by the low bits of
/// `raw`, as far as the payload goes; all other bits are kept.
pub open spec fn intel_packed(old_data: Seq<u8>, new_data: Seq<u8>, start: int, n: nat, raw: int) -> bool {
    &&& new_data.len() == old_data.len()
    &&& forall|q: int|
        0 <= q < 8 * old_data.len() ==> #[trigger] payload_bit(new_data, q) == (if start <= q
            < start + n {
            number_bit(raw, (q - start) as nat)
        } else {
            payload_bit(old_data, q)
        })
}

/// Whether `new` is `old` with the first `n` bits of the Motorola field of `length` bits at
/// `start` replaced by those of `raw`, as far as the payload goes; all other bits are kept.
pub open spec fn motorola_packed(
    old_data: Seq<u8>,
    new_data: Seq<u8>,
    start: int,
    length: int,
    n: int,
    raw: int,
) -> bool {
    &&& new_data.len() == old_data.len()
    &&& forall|q: int|
        0 <= q < 8 * old_data.len() ==> #[trigger] payload_bit(new_data, q) == (if 0
            <= transmission_index(q) - transmission_index(start) < n {
            number_bit(
                raw,
                (length - 1 - (transmission_index(q) - transmission_index(start))) as nat,
            )
        } else {
            payload_bit(old_data, q)
        })
}

/// Packs the low `length` bits of `raw` with Intel (little-endian) byte order. `start_bit` is the
/// position of the least significant bit. Bits of other signals are left unchanged.
pub fn pack_intel(data: &mut [u8], start_bit: u64, length: u64, raw: u64)
    requires
        length <= 64,
    ensures
        intel_packed(old(data)@, final(data)@, start_bit as int, length as nat, raw as int),
{
    let total: u128 = data.len() as u128 * 8;
    let mut i: u64 = 0;
    while i < length
        invariant
            i <= length <= 64,
            total == 8 * data@.len(),
            intel_packed(old(data)@, data@, start_bit as int, i as nat, raw as int),
        decreases length - i,
    {
        let p: u128 = start_bit as u128 + i as u128;
        if p < total {
            write_bit(data, p, bit_of(raw, i));
        }
        i += 1;
    }
}

/// Packs the low `length` bits of `raw` with Motorola (big-endian) byte order. `start_bit` is the
/// position of the most significant bit. Bits of other signals are left unchanged.
pub fn pack_motorola(data: &mut [u8], start_bit: u64, length: u64, raw: u64)
    requires
        length <= 64,
    ensures
        motorola_packed(
            old(data)@,
            final(data)@,
            start_bit as int,
            length as int,
            length as int,
            raw as int,
        ),
{
    let total: u128 = data.len() as u128 * 8;
    let mut i: u64 = 0;
    let mut p: u128 = start_bit as u128;
    proof {
        lemma_motorola_step(start_bit as int, 0);
    }
    while i < length
        invariant
            i <= length <= 64,
            total == 8 * data@.len(),
            p as int == motorola_position(start_bit as int, i as int),
            motorola_packed(
                old(data)@,
                data@,
                start_bit as int,
                length as int,
                i as int,
                raw as int,
            ),
        decreases length - i,
    {
        let ghost before = data@;
        proof {
            lemma_motorola_step(start_bit as int, i as int);
        }
        if p < total {
            write_bit(data, p, bit_of(raw, length - 1 - i));
        }
        proof {
            let t0 = transmission_index(start_bit as int);
            assert(motorola_packed(
                old(data)@,
                data@,
                start_bit as int,
                length as int,
                i + 1,
                raw as int,
            )) by {
                assert forall|q: int| 0 <= q < 8 * old(data)@.len() implies #[trigger] payload_bit(
                    data@,
                    q,
                ) == (if 0 <= transmission_index(q) - t0 < i + 1 {
                    number_bit(raw as int, (length - 1 - (transmission_index(q) - t0)) as nat)
                } else {
                    payload_bit(old(data)@, q)
                }) by {
                    lemma_transmission_index(q);
                    lemma_transmission_index(start_bit as int);
                    lemma_transmission_index(t0 + i);
                    assert(payload_bit(before, q) == (if 0 <= transmission_index(q) - t0 < i {
                        number_bit(raw as int, (length - 1 - (transmission_index(q) - t0)) as nat)
                    } else {
                        payload_bit(old(data)@, q)
                    }));
                    if transmission_index(q) == t0 + i {
                        assert(q == p);
                    }
                }
            }
        }
        p = following(p);
        i += 1;
    }
}

/// The signed number in the low `length` bits of `raw`; for a length of 0 or from 64 on, `raw`
/// itself read as a signed 64-bit number.
pub open spec fn sign_extended(raw: int, length: nat) -> int {
    if length == 0 || length >= 64 {
        crate::bytes::as_signed(raw, 0x1_0000_0000_0000_0000)
    } else if number_bit(raw, (length - 1) as nat) {
        raw % pow2(length) - pow2(length)
    } else {
        crate::bytes::as_signed(raw, 0x1_0000_0000_0000_0000)
    }
}

/// Sign-extends a two's-complement number of `length` bits.
pub fn to_signed(raw: u64, length: u64) -> (r: i64)
    ensures
        r as int == sign_extended(raw as int, length as nat),
{
    if length == 0 || length >= 64 {
        return crate::bytes::u64_signed(raw);
    }
    if bit_of(raw, length - 1) {
        proof {
            lemma_pow2_64();
            lemma_pow2_monotone(length as nat, 63);
            lemma_pow2_positive(length as nat);
            assert(pow2(64) == 2 * pow2(63));
        }
        let m: u64 = power(length);
        proof {
            vstd::arithmetic::div_mod::lemma_mod_bound(raw as int, m as int);
        }
        ((raw % m) as i128 - m as i128) as i64
    } else {
        crate::bytes::u64_signed(raw)
    }
}

// ─── Laws ───────────────────────────────────────────────────────────────────

proof fn lemma_halved_mod(x: int, n: nat)
    requires
        0 <= x,
        n >= 1,
    ensures
        x % pow2(n) == 2 * ((x / 2) % pow2((n - 1) as nat)) + x % 2,
{
    let m = pow2((n - 1) as nat);
    lemma_pow2_positive((n - 1) as nat);
    let h = x / 2;
    let q = h / m;
    let r = h % m;
    vstd::arithmetic::div_mod::lemma_fundamental_div_mod(h, m);
    vstd::arithmetic::div_mod::lemma_mod_bound(h, m);
    assert(x == q * (2 * m) + (2 * r + x % 2)) by (nonlinear_arith)
        requires
            x == 2 * h + x % 2,
            h == m * q + r,
    ;
    vstd::arithmetic::div_mod::lemma_fundamental_div_mod_converse(x, 2 * m, q, 2 * r + x % 2);
}

/// The bit of weight 2^(n-1) is what the low `n` bits have more than the low `n - 1` bits.
proof fn lemma_mod_by_bits(x: int, n: nat)
    requires
        0 <= x,
        n >= 1,
    ensures
        x % pow2(n) == x % pow2((n - 1) as nat) + bit_int(number_bit(x, (n - 1) as nat)) * pow2(
            (n - 1) as nat,
        ),
    decreases n,
{
    if n == 1 {
        lemma_halved_mod(x, 1);
        assert(pow2(0) == 1);
        assert(x % 1 == 0);
        assert((x / 2) % 1 == 0);
    } else {
        lemma_halved_mod(x, n);
        lemma_halved_mod(x, (n - 1) as nat);
        lemma_mod_by_bits(x / 2, (n - 1) as nat);
        let b = bit_int(number_bit(x, (n - 1) as nat));
        assert(number_bit(x, (n - 1) as nat) == number_bit(x / 2, (n - 2) as nat));
        assert(2 * (b * pow2((n - 2) as nat)) == b * pow2((n - 1) as nat)) by (nonlinear_arith)
            requires
                pow2((n - 1) as nat) == 2 * pow2((n - 2) as nat),
        ;
    }
}

proof fn lemma_number_bit_div(x: int, i: nat)
    requires
        0 <= x,
    ensures
        number_bit(x, i) == ((x / pow2(i)) % 2 == 1),
        x / pow2(i + 1) == (x / pow2(i)) / 2,
        x / pow2(i) >= 0,
    decreases i,
{
    lemma_pow2_positive(i);
    vstd::arithmetic::div_mod::lemma_div_denominator(x, pow2(i), 2);
    assert(pow2(i + 1) == pow2(i) * 2);
    vstd::arithmetic::div_mod::lemma_div_pos_is_pos(x, pow2(i));
    if i > 0 {
        lemma_number_bit_div(x / 2, (i - 1) as nat);
        lemma_pow2_positive((i - 1) as nat);
        vstd::arithmetic::div_mod::lemma_div_denominator(x, 2, pow2((i - 1) as nat));
    }
}

/// A field that lies within the payload reads back as the low bits that were packed into it.
pub proof fn law_intel_round_trip(
    old_data: Seq<u8>,
    new_data: Seq<u8>,
    start: int,
    length: nat,
    n: nat,
    raw: int,
)
    requires
        intel_packed(old_data, new_data, start, length, raw),
        0 <= start,
        start + length <= 8 * old_data.len(),
        n <= length,
        0 <= raw,
    ensures
        intel_value(new_data, start, n) == raw % pow2(n),
    decreases n,
{
    if n > 0 {
        law_intel_round_trip(old_data, new_data, start, length, (n - 1) as nat, raw);
        lemma_mod_by_bits(raw, n);
        assert(payload_bit(new_data, start + n - 1) == number_bit(raw, (n - 1) as nat));
    } else {
        assert(raw % 1 == 0);
    }
}

/// A Motorola field that lies within the payload reads back as the low bits that were packed
/// into it.
pub proof fn law_motorola_round_trip(
    old_data: Seq<u8>,
    new_data: Seq<u8>,
    start: int,
    length: nat,
    raw: int,
)
    requires
        motorola_packed(old_data, new_data, start, length as int, length as int, raw),
        0 <= start,
        transmission_index(start) + length <= 8 * old_data.len(),
        0 <= raw,
    ensures
        motorola_value(new_data, start, length) == raw % pow2(length),
{
    lemma_motorola_prefix(old_data, new_data, start, length, length, raw);
    assert(raw / 1 == raw);
}

proof fn lemma_motorola_prefix(
    old_data: Seq<u8>,
    new_data: Seq<u8>,
    start: int,
    length: nat,
    n: nat,
    raw: int,
)
    requires
        motorola_packed(old_data, new_data, start, length as int, length as int, raw),
        0 <= start,
        transmission_index(start) + length <= 8 * old_data.len(),
        0 <= raw,
        n <= length,
    ensures
        motorola_value(new_data, start, n) == (raw / pow2((length - n) as nat)) % pow2(n),
    decreases n,
{
    if n == 0 {
        assert((raw / pow2(length)) % 1 == 0);
    } else {
        lemma_motorola_prefix(old_data, new_data, start, length, (n - 1) as nat, raw);
        let k = (length - n) as nat;
        let x = raw / pow2(k);
        lemma_number_bit_div(raw, k);
        lemma_halved_mod(x, n);
        let t = transmission_index(start) + (n - 1);
        lemma_transmission_index(start);
        lemma_transmission_index(t);
        let q = motorola_position(start, n - 1);
        assert(q == transmission_index(t));
        assert(transmission_index(q) == t);
        assert(0 <= q < 8 * old_data.len());
        assert(payload_bit(new_data, q) == number_bit(raw, k));
    }
}

/// Packing a field leaves every bit outside the field as it was.
pub proof fn law_packing_preserves_other_bits(
    old_data: Seq<u8>,
    new_data: Seq<u8>,
    start: int,
    length: nat,
    raw: int,
    q: int,
)
    ensures
        intel_packed(old_data, new_data, start, length, raw) && !(start <= q < start + length)
            ==> payload_bit(new_data, q) == payload_bit(old_data, q),
        motorola_packed(old_data, new_data, start, length as int, length as int, raw) && !(0
            <= transmission_index(q) - transmission_index(start) < length) ==> payload_bit(
            new_data,
            q,
        ) == payload_bit(old_data, q),
{
    if 0 <= q < 8 * old_data.len() {
    }
}

/// A signed number within the range of `length` bits is recovered from its two's complement.
pub proof fn law_sign_extension_recovers(n: int, length: nat)
    requires
        1 <= length <= 64,
        -pow2((length - 1) as nat) <= n < pow2((length - 1) as nat),
    ensures
        sign_extended(n % pow2(length), length) == n,
        0 <= n % pow2(length) < pow2(length),
{
    lemma_pow2_64();
    lemma_pow2_positive((length - 1) as nat);
    let h = pow2((length - 1) as nat);
    let m = pow2(length);
    assert(m == 2 * h);
    if n >= 0 {
        vstd::arithmetic::div_mod::lemma_fundamental_div_mod_converse(n, m, 0, n);
    } else {
        vstd::arithmetic::div_mod::lemma_fundamental_div_mod_converse(n, m, -1, n + m);
    }
    let u = n % m;
    assert(u == (if n >= 0 {
        n
    } else {
        n + m
    }));
    if length < 64 {
        lemma_pow2_monotone(length, 63);
        assert(pow2(64) == 2 * pow2(63));
        lemma_number_bit_div(u, (length - 1) as nat);
        vstd::arithmetic::div_mod::lemma_fundamental_div_mod_converse(u, m, 0, u);
        if n >= 0 {
            vstd::arithmetic::div_mod::lemma_fundamental_div_mod_converse(u, h, 0, u);
        } else {
            vstd::arithmetic::div_mod::lemma_fundamental_div_mod_converse(u, h, 1, u - h);
        }
    }
}

/// The low bit of an Intel field is its first, and what is left above it is the field that starts
/// one position further on.
proof fn lemma_intel_from_below(data: Seq<u8>, start: int, n: nat)
    requires
        n >= 1,
    ensures
        intel_value(data, start, n) == bit_int(payload_bit(data, start)) + 2 * intel_value(
            data,
            start + 1,
            (n - 1) as nat,
        ),
    decreases n,
{
    if n == 1 {
        reveal_with_fuel(intel_value, 2);
        assert(pow2(0) == 1);
        assert(bit_int(payload_bit(data, start)) * 1 == bit_int(payload_bit(data, start)));
    } else {
        lemma_intel_from_below(data, start, (n - 1) as nat);
        let b = bit_int(payload_bit(data, start + (n - 1)));
        assert(intel_position(start + 1, n - 2) == start + (n - 1));
        assert(2 * (b * pow2((n - 2) as nat)) == b * pow2((n - 1) as nat)) by (nonlinear_arith)
            requires
                pow2((n - 1) as nat) == 2 * pow2((n - 2) as nat),
        ;
    }
}

/// Bit `i` of the number in an Intel field is bit `start + i` of the payload, counted from the
/// least significant bit of the first byte.
pub proof fn law_intel_bits(data: Seq<u8>, start: int, n: nat, i: nat)
    requires
        0 <= start,
        i < n,
    ensures
        start + i < 8 * data.len() ==> number_bit(intel_value(data, start, n), i) == ((data[(start
            + i) / 8] >> ((start + i) % 8) as u8) & 1 == 1),
        start + i >= 8 * data.len() ==> !number_bit(intel_value(data, start, n), i),
        0 <= intel_value(data, start, n) < pow2(n),
    decreases n,
{
    lemma_intel_range(data, start, n);
    lemma_intel_from_below(data, start, n);
    if i > 0 {
        law_intel_bits(data, start + 1, (n - 1) as nat, (i - 1) as nat);
        assert(start + 1 + (i - 1) == start + i);
    }
}

/// The bit at a place in the order of transmission.
proof fn lemma_transmitted_bit(data: Seq<u8>, place: int)
    requires
        0 <= place,
    ensures
        place < 8 * data.len() ==> payload_bit(data, transmission_index(place)) == ((data[place / 8]
            >> (7 - place % 8) as u8) & 1 == 1),
        place >= 8 * data.len() ==> !payload_bit(data, transmission_index(place)),
{
    let p = transmission_index(place);
    assert(p == 8 * (place / 8) + (7 - place % 8));
    vstd::arithmetic::div_mod::lemma_fundamental_div_mod_converse(p, 8, place / 8, 7 - place % 8);
}

/// Bit `n - 1 - j` of the number in a Motorola field is the field's bit `j`.
proof fn lemma_motorola_bit(data: Seq<u8>, start: int, n: nat, j: nat)
    requires
        j < n,
    ensures
        number_bit(motorola_value(data, start, n), (n - 1 - j) as nat) == payload_bit(
            data,
            motorola_position(start, j as int),
        ),
    decreases n,
{
    let before = motorola_value(data, start, (n - 1) as nat);
    let x = motorola_value(data, start, n);
    assert(x == 2 * before + bit_int(payload_bit(data, motorola_position(start, n - 1))));
    if j + 1 < n {
        lemma_motorola_bit(data, start, (n - 1) as nat, j);
        assert(x / 2 == before);
        assert(number_bit(x, (n - 1 - j) as nat) == number_bit(x / 2, (n - 2 - j) as nat));
    }
}

/// Bit `n - 1 - j` of the number in a Motorola field is the bit that comes `j` places after the
/// field's first in the order of transmission, in which the bytes follow each other and each
/// goes from its most significant bit down.
pub proof fn law_motorola_bits(data: Seq<u8>, start: int, n: nat, j: nat, place: int)
    requires
        0 <= start,
        j < n,
        place == 8 * (start / 8) + 7 - start % 8 + j,
    ensures
        place < 8 * data.len() ==> number_bit(
            motorola_value(data, start, n),
            (n - 1 - j) as nat,
        ) == ((data[place / 8] >> (7 - place % 8) as u8) & 1 == 1),
        place >= 8 * data.len() ==> !number_bit(
            motorola_value(data, start, n),
            (n - 1 - j) as nat,
        ),
        0 <= motorola_value(data, start, n) < pow2(n),
{
    lemma_motorola_range(data, start, n);
    lemma_motorola_bit(data, start, n, j);
    lemma_transmitted_bit(data, place);
    assert(motorola_position(start, j as int) == transmission_index(place));
}

/// The number in a field of `length` bits stands for itself below half the range, and for the
/// negative number one range lower from there on.
pub proof fn law_two_complement_reading(u: int, length: nat)
    requires
        1 <= length <= 64,
        0 <= u < pow2(length),
    ensures
        sign_extended(u, length) == (if u < pow2((length - 1) as nat) {
            u
        } else {
            u - pow2(length)
        }),
{
    let h = pow2((length - 1) as nat);
    let n = if u < h {
        u
    } else {
        u - pow2(length)
    };
    lemma_pow2_positive((length - 1) as nat);
    law_sign_extension_recovers(n, length);
    if u < h {
        vstd::arithmetic::div_mod::lemma_fundamental_div_mod_converse(n, pow2(length), 0, u);
    } else {
        vstd::arithmetic::div_mod::lemma_fundamental_div_mod_converse(n, pow2(length), -1, u);
    }
}

} // verus!
