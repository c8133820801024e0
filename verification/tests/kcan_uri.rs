use rustycan::adapters::kcan_net::{decode_base64url_32, parse_k1_uri, K1Uri};

// Known-good URI from bench session: 192.168.3.178 + real pubkey bytes.
const A: &[u8] = b"ABCDEFGHIJKLMNOPQRSTUVWXYZabcdefghijklmnopqrstuvwxyz0123456789-_";

const VALID_URI: &str = "K1:C0A803B2/yhRv_Y28dyfXdvgJG4V5XeGNv4NqbVjJqqvy6Y2seig";

#[test]
fn parse_valid_uri() {
    let K1Uri::Lan { ip, .. } = parse_k1_uri(VALID_URI).expect("should parse") else {
        panic!("expected Lan variant");
    };
    assert_eq!(ip, [192, 168, 3, 178]);
}

#[test]
fn parse_valid_relay_uri() {
    let relay_uri = "K1:r/10CDVa/WoLHNmyWW1OlVT3KoOMS9CTdBM6ILy6Q6ywyxZesnW0";
    let K1Uri::Relay { room_id, .. } = parse_k1_uri(relay_uri).expect("relay should parse")
    else {
        panic!("expected Relay variant");
    };
    assert_eq!(&room_id, b"10CDVa");
}

#[test]
fn parse_trims_whitespace() {
    let uri = format!("  {VALID_URI}\n");
    assert!(parse_k1_uri(&uri).is_some());
}

#[test]
fn parse_rejects_wrong_prefix() {
    assert!(parse_k1_uri("K2:C0A803B2/yhRv_Y28dyfXdvgJG4V5XeGNv4NqbVjJqqvy6Y2seig").is_none());
}

#[test]
fn parse_rejects_missing_slash() {
    // Replace the '/' separator with 'X'.
    let bad = VALID_URI.replacen('/', "X", 1);
    assert!(parse_k1_uri(&bad).is_none());
}

#[test]
fn parse_rejects_bad_hex_ip() {
    // 'GG' is not valid hex.
    assert!(parse_k1_uri("K1:GGH803B2/yhRv_Y28dyfXdvgJG4V5XeGNv4NqbVjJqqvy6Y2seig").is_none());
}

#[test]
fn parse_rejects_short_pubkey() {
    // Truncate the base64url section.
    assert!(parse_k1_uri("K1:C0A803B2/yhRv_Y28dyfXdvgJG4V5XeGN").is_none());
}

#[test]
fn parse_rejects_bad_base64_char() {
    // '!' is not a valid base64url character.
    let bad = VALID_URI.replacen('y', "!", 1);
    assert!(parse_k1_uri(&bad).is_none());
}

#[test]
fn decode_base64url_32_roundtrips() {
    let original: [u8; 32] = core::array::from_fn(|i| i as u8);
    let mut encoded = [0u8; 43];
    let mut oi = 0;
    for chunk in original.chunks(3) {
        let (a, b, c) = (
            chunk[0],
            chunk.get(1).copied().unwrap_or(0),
            chunk.get(2).copied().unwrap_or(0),
        );
        let v24 = ((a as u32) << 16) | ((b as u32) << 8) | (c as u32);
        for shift in [18u32, 12, 6, 0] {
            if oi < 43 {
                encoded[oi] = A[((v24 >> shift) & 63) as usize];
                oi += 1;
            }
        }
    }
    let decoded = decode_base64url_32(&encoded).unwrap();
    assert_eq!(decoded, original);
}
