//! KCAN over TCP: the connection URI, the key check of the handshake, and the framing of the
//! encrypted stream.

use vstd::prelude::*;

use crate::adapters::{AdapterError, AdapterErrorView};
use crate::text;

verus! {

/// TCP port of a device.
pub const NET_PORT: u16 = 3333;

/// Size of an encrypted frame on the wire.
pub const ENCRYPTED_FRAME_SIZE: usize = 108;

/// Where a device is reached, and its public key.
#[derive(Clone, Copy, Debug)]
pub enum K1Uri {
    /// `K1:<8-hex-ip>/<43-base64url-key>`: direct TCP to the device.
    Lan { ip: [u8; 4], device_pk: [u8; 32] },
    /// `K1:r/<6-char-room-id>/<43-base64url-key>`: through a relay.
    Relay { room_id: [u8; 6], device_pk: [u8; 32] },
}

/// The mathematical value of a [`K1Uri`].
pub enum K1UriView {
    Lan { ip: Seq<u8>, device_pk: Seq<u8> },
    Relay { room_id: Seq<u8>, device_pk: Seq<u8> },
}

impl K1Uri {
    /// The URI over views.
    pub open spec fn view(&self) -> K1UriView {
        match self {
            K1Uri::Lan { ip, device_pk } => K1UriView::Lan { ip: ip@, device_pk: device_pk@ },
            K1Uri::Relay { room_id, device_pk } => K1UriView::Relay {
                room_id: room_id@,
                device_pk: device_pk@,
            },
        }
    }
}

/// The value of a hexadecimal digit.
pub open spec fn hex_digit(b: u8) -> Option<u8> {
    if 0x30 <= b <= 0x39 {
        Some((b - 0x30) as u8)
    } else if 0x41 <= b <= 0x46 {
        Some((b - 0x41 + 10) as u8)
    } else if 0x61 <= b <= 0x66 {
        Some((b - 0x61 + 10) as u8)
    } else {
        None
    }
}

/// The value of a hexadecimal digit, in either case.
pub fn hex_val(b: u8) -> (r: Option<u8>)
    ensures
        r == hex_digit(b),
        r matches Some(v) ==> v < 16,
{
    match b {
        0x30..=0x39 => Some(b - 0x30),
        0x41..=0x46 => Some(b - 0x41 + 10),
        0x61..=0x66 => Some(b - 0x61 + 10),
        _ => None,
    }
}

/// The four bytes written by eight hexadecimal digits.
pub open spec fn hex_address(s: Seq<u8>) -> Option<Seq<u8>> {
    if s.len() == 8 && forall|i: int| 0 <= i < 8 ==> hex_digit(#[trigger] s[i]) is Some {
        Some(
            Seq::new(
                4,
                |k: int| (16 * hex_digit(s[2 * k])->0 + hex_digit(s[2 * k + 1])->0) as u8,
            ),
        )
    } else {
        None
    }
}

/// Parses an address of eight hexadecimal digits.
pub fn parse_hex_ip(s: &[u8]) -> (r: Option<[u8; 4]>)
    ensures
        r is Some == hex_address(s@) is Some,
        r matches Some(ip) ==> ip@ == hex_address(s@)->0,
{
    if s.len() != 8 {
        return None;
    }
    let mut ip: [u8; 4] = [0, 0, 0, 0];
    let mut i: usize = 0;
    while i < 4
        invariant
            s@.len() == 8,
            i <= 4,
            forall|j: int| 0 <= j < 2 * i ==> hex_digit(#[trigger] s@[j]) is Some,
            forall|k: int|
                0 <= k < i ==> #[trigger] ip@[k] == (16 * hex_digit(s@[2 * k])->0 + hex_digit(
                    s@[2 * k + 1],
                )->0) as u8,
        decreases 4 - i,
    {
        let hi: u8 = match hex_val(s[2 * i]) {
            Some(v) => v,
            None => {
                return None;
            },
        };
        let lo: u8 = match hex_val(s[2 * i + 1]) {
            Some(v) => v,
            None => {
                return None;
            },
        };
        ip[i] = hi * 16 + lo;
        i += 1;
    }
    assert(ip@ =~= hex_address(s@)->0);
    Some(ip)
}

/// The value of a base64url character.
pub open spec fn sextet(b: u8) -> Option<u8> {
    if 0x41 <= b <= 0x5A {
        Some((b - 0x41) as u8)
    } else if 0x61 <= b <= 0x7A {
        Some((b - 0x61 + 26) as u8)
    } else if 0x30 <= b <= 0x39 {
        Some((b - 0x30 + 52) as u8)
    } else if b == 0x2D {
        Some(62)
    } else if b == 0x5F {
        Some(63)
    } else {
        None
    }
}

/// The value of a base64url character.
pub fn b64v(b: u8) -> (r: Option<u8>)
    ensures
        r == sextet(b),
        r matches Some(v) ==> v < 64,
{
    match b {
        0x41..=0x5A => Some(b - 0x41),
        0x61..=0x7A => Some(b - 0x61 + 26),
        0x30..=0x39 => Some(b - 0x30 + 52),
        0x2D => Some(62),
        0x5F => Some(63),
        _ => None,
    }
}

/// The value of character `i`, zero behind the end.
pub open spec fn sextet_at(s: Seq<u8>, i: int) -> int {
    if 0 <= i < s.len() && sextet(s[i]) is Some {
        sextet(s[i])->0 as int
    } else {
        0
    }
}

/// The 24 bits of four characters from character `4 g` on.
pub open spec fn group_bits(s: Seq<u8>, g: int) -> int {
    0x4_0000 * sextet_at(s, 4 * g) + 0x1000 * sextet_at(s, 4 * g + 1) + 0x40 * sextet_at(
        s,
        4 * g + 2,
    ) + sextet_at(s, 4 * g + 3)
}

/// Byte `r` of 24 bits.
pub open spec fn group_byte(v: int, r: int) -> u8 {
    if r == 0 {
        (v / 0x1_0000 % 0x100) as u8
    } else if r == 1 {
        (v / 0x100 % 0x100) as u8
    } else {
        (v % 0x100) as u8
    }
}

/// Whether all characters are base64url characters.
pub open spec fn is_base64url(s: Seq<u8>) -> bool {
    forall|i: int| 0 <= i < s.len() ==> sextet(#[trigger] s[i]) is Some
}

/// The 32 bytes that 43 base64url characters encode; the last two bits are ignored.
pub open spec fn base64url_32(s: Seq<u8>) -> Option<Seq<u8>> {
    if s.len() == 43 && is_base64url(s) {
        Some(Seq::new(32, |k: int| group_byte(group_bits(s, k / 3), k % 3)))
    } else {
        None
    }
}

fn decode_group(input: &[u8], g: usize) -> (r: Option<u32>)
    requires
        g < 10,
        input@.len() == 43,
    ensures
        r is Some == (forall|i: int|
            4 * g <= i < 4 * g + 4 ==> sextet(#[trigger] input@[i]) is Some),
        r matches Some(v) ==> v as int == group_bits(input@, g as int) && v < 0x100_0000,
{
    let a: u8 = match b64v(input[4 * g]) {
        Some(v) => v,
        None => {
            return None;
        },
    };
    let b: u8 = match b64v(input[4 * g + 1]) {
        Some(v) => v,
        None => {
            return None;
        },
    };
    let c: u8 = match b64v(input[4 * g + 2]) {
        Some(v) => v,
        None => {
            return None;
        },
    };
    let d: u8 = match b64v(input[4 * g + 3]) {
        Some(v) => v,
        None => {
            return None;
        },
    };
    Some(a as u32 * 0x4_0000 + b as u32 * 0x1000 + c as u32 * 0x40 + d as u32)
}

fn store_group(out: &mut [u8; 32], g: usize, v: u32)
    requires
        g < 10,
        v < 0x100_0000,
    ensures
        forall|k: int|
            0 <= k < 32 ==> #[trigger] final(out)@[k] == (if 3 * g <= k < 3 * g + 3 {
                group_byte(v as int, k - 3 * g)
            } else {
                old(out)@[k]
            }),
{
    out[3 * g] = (v / 0x1_0000) as u8;
    out[3 * g + 1] = (v / 0x100 % 0x100) as u8;
    out[3 * g + 2] = (v % 0x100) as u8;
}

/// Decodes exactly 43 base64url characters without padding to 32 bytes.
pub fn decode_base64url_32(input: &[u8]) -> (r: Option<[u8; 32]>)
    ensures
        r is Some == base64url_32(input@) is Some,
        r matches Some(out) ==> out@ == base64url_32(input@)->0,
{
    if input.len() != 43 {
        return None;
    }
    let mut out: [u8; 32] = [
        0, 0, 0, 0, 0, 0, 0, 0, 0, 0, 0, 0, 0, 0, 0, 0, 0, 0, 0, 0, 0, 0, 0, 0, 0, 0, 0, 0, 0, 0, 0,
        0,
    ];
    let mut g: usize = 0;
    while g < 10
        invariant
            g <= 10,
            input@.len() == 43,
            forall|i: int| 0 <= i < 4 * g ==> sextet(#[trigger] input@[i]) is Some,
            forall|j: int, r: int|
                0 <= j < g && 0 <= r < 3 ==> out@[3 * j + r] == #[trigger] group_byte(
                    group_bits(input@, j),
                    r,
                ),
        decreases 10 - g,
    {
        let v: u32 = match decode_group(input, g) {
            Some(v) => v,
            None => {
                return None;
            },
        };
        store_group(&mut out, g, v);
        g += 1;
    }
    let a: u8 = match b64v(input[40]) {
        Some(v) => v,
        None => {
            return None;
        },
    };
    let b: u8 = match b64v(input[41]) {
        Some(v) => v,
        None => {
            return None;
        },
    };
    let c: u8 = match b64v(input[42]) {
        Some(v) => v,
        None => {
            return None;
        },
    };
    let v: u32 = a as u32 * 0x4_0000 + b as u32 * 0x1000 + c as u32 * 0x40;
    assert(v as int == group_bits(input@, 10));
    out[30] = (v / 0x1_0000) as u8;
    out[31] = (v / 0x100 % 0x100) as u8;
    proof {
        assert forall|k: int| 0 <= k < 32 implies #[trigger] out@[k] == group_byte(
            group_bits(input@, k / 3),
            k % 3,
        ) by {
            let j = k / 3;
            let r = k % 3;
            assert(k == 3 * j + r);
            if k < 30 {
                assert(out@[3 * j + r] == group_byte(group_bits(input@, j), r));
            }
        }
    }
    assert(out@ =~= base64url_32(input@)->0);
    Some(out)
}

/// What the bytes of a trimmed URI mean.
pub open spec fn k1_meaning(b: Seq<u8>) -> Option<K1UriView> {
    if b.len() != 55 || b[0] != 0x4B || b[1] != 0x31 || b[2] != 0x3A {
        None
    } else if b[3] == 0x72 && b[4] == 0x2F {
        if b[11] == 0x2F && base64url_32(b.subrange(12, 55)) is Some {
            Some(
                K1UriView::Relay {
                    room_id: b.subrange(5, 11),
                    device_pk: base64url_32(b.subrange(12, 55))->0,
                },
            )
        } else {
            None
        }
    } else {
        if b[11] == 0x2F && hex_address(b.subrange(3, 11)) is Some && base64url_32(
            b.subrange(12, 55),
        ) is Some {
            Some(
                K1UriView::Lan {
                    ip: hex_address(b.subrange(3, 11))->0,
                    device_pk: base64url_32(b.subrange(12, 55))->0,
                },
            )
        } else {
            None
        }
    }
}

/// Parses a connection URI in either format; white space around it is ignored. Both formats have
/// 52 bytes after `K1:`, and `r/` tells the relay format.
pub fn parse_k1_uri(uri: &str) -> (r: Option<K1Uri>)
    ensures
        r is Some == k1_meaning(vstd::utf8::encode_utf8(text::trimmed(uri@))) is Some,
        r matches Some(k) ==> k@ == k1_meaning(vstd::utf8::encode_utf8(text::trimmed(uri@)))->0,
{
    let cs: Vec<char> = text::trim(uri);
    let t: String = text::string_of(cs.as_slice());
    let b: &[u8] = t.as_str().as_bytes();
    if b.len() != 55 || b[0] != 0x4B || b[1] != 0x31 || b[2] != 0x3A {
        return None;
    }
    let relay: bool = b[3] == 0x72 && b[4] == 0x2F;
    if b[11] != 0x2F {
        return None;
    }
    let key: &[u8] = vstd::slice::slice_subrange(b, 12, 55);
    if relay {
        match decode_base64url_32(key) {
            Some(device_pk) => {
                let room_id: [u8; 6] = [b[5], b[6], b[7], b[8], b[9], b[10]];
                assert(room_id@ =~= b@.subrange(5, 11));
                Some(K1Uri::Relay { room_id, device_pk })
            },
            None => None,
        }
    } else {
        let address: &[u8] = vstd::slice::slice_subrange(b, 3, 11);
        match parse_hex_ip(address) {
            Some(ip) => match decode_base64url_32(key) {
                Some(device_pk) => Some(K1Uri::Lan { ip, device_pk }),
                None => None,
            },
            None => None,
        }
    }
}

/// The error about a URI that cannot be parsed.
pub fn bad_uri(uri: &str) -> (r: AdapterError)
    ensures
        r@ == AdapterErrorView::Protocol("bad K1 URI: "@ + uri@),
{
    AdapterError::Protocol(text::join2("bad K1 URI: ", uri))
}

/// An address in dotted notation.
pub open spec fn dotted(ip: Seq<u8>) -> Seq<char> {
    text::decimal(ip[0] as nat) + "."@ + text::decimal(ip[1] as nat) + "."@ + text::decimal(
        ip[2] as nat,
    ) + "."@ + text::decimal(ip[3] as nat)
}

/// The name of a direct connection: `KCanNet 192.168.3.178:3333`.
pub fn lan_name(ip: &[u8; 4]) -> (r: String)
    ensures
        r@ == "KCanNet "@ + dotted(ip@) + ":"@ + text::decimal(NET_PORT as nat),
{
    let mut s: String = "KCanNet ".to_owned();
    text::push_decimal(&mut s, ip[0] as u64);
    text::push_str(&mut s, ".");
    text::push_decimal(&mut s, ip[1] as u64);
    text::push_str(&mut s, ".");
    text::push_decimal(&mut s, ip[2] as u64);
    text::push_str(&mut s, ".");
    text::push_decimal(&mut s, ip[3] as u64);
    text::push_str(&mut s, ":");
    text::push_decimal(&mut s, NET_PORT as u64);
    assert(s@ =~= "KCanNet "@ + dotted(ip@) + ":"@ + text::decimal(NET_PORT as nat));
    s
}

/// Accepts the key that the device sent in the handshake only if it is the one of the URI.
pub fn check_device_key(received: &[u8; 32], expected: &[u8; 32]) -> (r: Result<(), AdapterError>)
    ensures
        r is Ok == (received@ == expected@),
        r matches Err(e) ==> e@ == AdapterErrorView::Protocol(
            "device pubkey from handshake does not match K1 URI \u{2014} possible MITM"@,
        ),
{
    let mut i: usize = 0;
    while i < 32
        invariant
            i <= 32,
            forall|j: int| 0 <= j < i ==> received@[j] == expected@[j],
        decreases 32 - i,
    {
        if received[i] != expected[i] {
            assert(received@[i as int] != expected@[i as int]);
            return Err(
                AdapterError::Protocol(
                    "device pubkey from handshake does not match K1 URI \u{2014} possible MITM".to_owned(),
                ),
            );
        }
        i += 1;
    }
    assert(received@ =~= expected@);
    Ok(())
}

/// What a read from the connection came to.
#[derive(Debug)]
pub enum NetRead {
    /// So many bytes were read into the free part of the buffer.
    Bytes(usize),
    /// No data within the read timeout.
    Idle,
    /// The read failed.
    Failed(String),
}

/// What the reader does next.
#[derive(Debug)]
pub enum NetStep {
    /// Read on behind the given number of bytes.
    Read(usize),
    /// The buffer holds a complete encrypted frame: decrypt it, then read from the start.
    Decrypt,
    /// Stop, for the given reason.
    Stop(String),
}

/// What the reader does after a read that started behind `offset` bytes: a read of nothing means
/// that the connection is closed.
pub fn after_net_read(offset: usize, read: NetRead) -> (r: NetStep)
    requires
        offset < ENCRYPTED_FRAME_SIZE,
        read matches NetRead::Bytes(n) ==> offset + n <= ENCRYPTED_FRAME_SIZE,
    ensures
        match read {
            NetRead::Bytes(n) => if n == 0 {
                r matches NetStep::Stop(s) && s@ == "connection closed"@
            } else if offset + n == ENCRYPTED_FRAME_SIZE {
                r is Decrypt
            } else {
                r == NetStep::Read((offset + n) as usize)
            },
            NetRead::Idle => r == NetStep::Read(offset),
            NetRead::Failed(e) => r matches NetStep::Stop(s) && s@ == "read error: "@ + e@,
        },
{
    match read {
        NetRead::Bytes(n) => if n == 0 {
            NetStep::Stop("connection closed".to_owned())
        } else if offset + n == ENCRYPTED_FRAME_SIZE {
            NetStep::Decrypt
        } else {
            NetStep::Read(offset + n)
        },
        NetRead::Idle => NetStep::Read(offset),
        NetRead::Failed(e) => NetStep::Stop(text::join2("read error: ", e.as_str())),
    }
}

// ─── Laws ───────────────────────────────────────────────────────────────────

/// The base64url character of a value.
pub open spec fn sextet_char(v: int) -> u8 {
    if v < 26 {
        (0x41 + v) as u8
    } else if v < 52 {
        (0x61 + v - 26) as u8
    } else if v < 62 {
        (0x30 + v - 52) as u8
    } else if v == 62 {
        0x2D
    } else {
        0x5F
    }
}

/// Byte `k`, zero behind the end.
pub open spec fn octet_at(b: Seq<u8>, k: int) -> int {
    if 0 <= k < b.len() {
        b[k] as int
    } else {
        0
    }
}

/// The 24 bits of three bytes from byte `3 g` on.
pub open spec fn octet_bits(b: Seq<u8>, g: int) -> int {
    0x1_0000 * octet_at(b, 3 * g) + 0x100 * octet_at(b, 3 * g + 1) + octet_at(b, 3 * g + 2)
}

/// Six bits of 24, from the highest down.
pub open spec fn six_bits(v: int, r: int) -> int {
    if r == 0 {
        v / 0x4_0000 % 0x40
    } else if r == 1 {
        v / 0x1000 % 0x40
    } else if r == 2 {
        v / 0x40 % 0x40
    } else {
        v % 0x40
    }
}

/// The base64url encoding of 32 bytes, without padding: 43 characters.
pub open spec fn base64url_encoded(b: Seq<u8>) -> Seq<u8> {
    Seq::new(43, |i: int| sextet_char(six_bits(octet_bits(b, i / 4), i % 4)))
}

proof fn lemma_sextet_char(v: int)
    requires
        0 <= v < 64,
    ensures
        sextet(sextet_char(v)) == Some(v as u8),
{
}

proof fn lemma_six_bits(v: int)
    requires
        0 <= v < 0x100_0000,
    ensures
        v == 0x4_0000 * six_bits(v, 0) + 0x1000 * six_bits(v, 1) + 0x40 * six_bits(v, 2) + six_bits(
            v,
            3,
        ),
        0 <= six_bits(v, 0) < 64,
        0 <= six_bits(v, 1) < 64,
        0 <= six_bits(v, 2) < 64,
        0 <= six_bits(v, 3) < 64,
{
    let q1 = v / 0x40;
    let q2 = q1 / 0x40;
    let q3 = q2 / 0x40;
    assert(v / 0x1000 == q2);
    assert(v / 0x4_0000 == q3);
}

proof fn lemma_octet_bits(b: Seq<u8>, g: int)
    ensures
        0 <= octet_bits(b, g) < 0x100_0000,
        group_byte(octet_bits(b, g), 0) == octet_at(b, 3 * g),
        group_byte(octet_bits(b, g), 1) == octet_at(b, 3 * g + 1),
        group_byte(octet_bits(b, g), 2) == octet_at(b, 3 * g + 2),
{
}

/// A key reads back from its base64url encoding.
pub proof fn law_key_round_trip(b: Seq<u8>)
    requires
        b.len() == 32,
    ensures
        base64url_32(base64url_encoded(b)) == Some(b),
{
    let s = base64url_encoded(b);
    assert forall|i: int| 0 <= i < 43 implies sextet(#[trigger] s[i]) is Some && sextet_at(s, i)
        == six_bits(octet_bits(b, i / 4), i % 4) by {
        lemma_octet_bits(b, i / 4);
        lemma_six_bits(octet_bits(b, i / 4));
        lemma_sextet_char(six_bits(octet_bits(b, i / 4), i % 4));
    }
    let out = base64url_32(s)->0;
    assert forall|k: int| 0 <= k < 32 implies out[k] == b[k] by {
        let g = k / 3;
        let v = octet_bits(b, g);
        lemma_octet_bits(b, g);
        lemma_six_bits(v);
        assert(sextet(s[4 * g]) is Some);
        assert(sextet(s[4 * g + 1]) is Some);
        assert(sextet(s[4 * g + 2]) is Some);
        if g < 10 {
            assert(sextet(s[4 * g + 3]) is Some);
        } else {
            assert(octet_at(b, 32) == 0);
            assert(v % 0x100 == 0);
            assert(six_bits(v, 3) == 0);
        }
        assert(group_bits(s, g) == v);
    }
    assert(out =~= b);
}

/// The two digits of a byte in lower-case hexadecimal.
pub open spec fn hex_char(v: int) -> u8 {
    if v < 10 {
        (0x30 + v) as u8
    } else {
        (0x61 + v - 10) as u8
    }
}

/// The eight hexadecimal digits of an address.
pub open spec fn address_digits(ip: Seq<u8>) -> Seq<u8> {
    Seq::new(
        8,
        |i: int|
            hex_char(
                if i % 2 == 0 {
                    ip[i / 2] as int / 16
                } else {
                    ip[i / 2] as int % 16
                },
            ),
    )
}

proof fn lemma_address_read(ip: Seq<u8>)
    requires
        ip.len() == 4,
    ensures
        hex_address(address_digits(ip)) == Some(ip),
{
    let s = address_digits(ip);
    assert forall|i: int| 0 <= i < 8 implies hex_digit(#[trigger] s[i]) == Some(
        (if i % 2 == 0 {
            ip[i / 2] as int / 16
        } else {
            ip[i / 2] as int % 16
        }) as u8,
    ) by {}
    let out = hex_address(s)->0;
    assert forall|k: int| 0 <= k < 4 implies out[k] == ip[k] by {
        assert(hex_digit(s[2 * k]) == Some((ip[k] as int / 16) as u8)) by {
            assert((2 * k) % 2 == 0 && (2 * k) / 2 == k);
        }
        assert(hex_digit(s[2 * k + 1]) == Some((ip[k] as int % 16) as u8)) by {
            assert((2 * k + 1) % 2 == 1 && (2 * k + 1) / 2 == k);
        }
    }
    assert(out =~= ip);
}

/// A direct URI is `K1:`, the address in eight hexadecimal digits, a slash and the key in
/// base64url; it is read as that address and key.
pub proof fn law_lan_uri_read(ip: Seq<u8>, key: Seq<u8>)
    requires
        ip.len() == 4,
        key.len() == 32,
    ensures
        k1_meaning(
            seq![0x4Bu8, 0x31, 0x3A] + address_digits(ip) + seq![0x2Fu8] + base64url_encoded(key),
        ) == Some(K1UriView::Lan { ip, device_pk: key }),
{
    let b = seq![0x4Bu8, 0x31, 0x3A] + address_digits(ip) + seq![0x2Fu8] + base64url_encoded(key);
    lemma_address_read(ip);
    law_key_round_trip(key);
    assert(b.subrange(3, 11) =~= address_digits(ip));
    assert(b.subrange(12, 55) =~= base64url_encoded(key));
    assert(b[3] == address_digits(ip)[0]);
}

/// A relay URI is `K1:r/`, the six characters of the room, a slash and the key in base64url; it is
/// read as that room and key.
pub proof fn law_relay_uri_read(room: Seq<u8>, key: Seq<u8>)
    requires
        room.len() == 6,
        key.len() == 32,
    ensures
        k1_meaning(
            seq![0x4Bu8, 0x31, 0x3A, 0x72, 0x2F] + room + seq![0x2Fu8] + base64url_encoded(key),
        ) == Some(K1UriView::Relay { room_id: room, device_pk: key }),
{
    let b = seq![0x4Bu8, 0x31, 0x3A, 0x72, 0x2F] + room + seq![0x2Fu8] + base64url_encoded(key);
    law_key_round_trip(key);
    assert(b.subrange(5, 11) =~= room);
    assert(b.subrange(12, 55) =~= base64url_encoded(key));
}

/// A URI of another length, or with another start than `K1:`, is none.
pub proof fn law_other_uris_refused(b: Seq<u8>)
    ensures
        b.len() != 55 ==> k1_meaning(b) is None,
        b.len() == 55 && b.take(3) != seq![0x4Bu8, 0x31, 0x3A] ==> k1_meaning(b) is None,
        b.len() == 55 && b[11] != 0x2F ==> k1_meaning(b) is None,
{
    if b.len() == 55 && b[0] == 0x4B && b[1] == 0x31 && b[2] == 0x3A {
        assert(b.take(3) =~= seq![0x4Bu8, 0x31, 0x3A]);
    }
}

} // verus!
