use tiny_keccak::Hasher;
use wartime_penguins::driver::parse_payload;
use wartime_penguins::errors::PipelineError;
use wartime_penguins::hashing::seed_from_payload;
use wartime_penguins::notice::decode_notice;

fn keccak(data: &[u8]) -> [u8; 32] {
    let mut k = tiny_keccak::Keccak::v256();
    let mut out = [0u8; 32];
    k.update(data);
    k.finalize(&mut out);
    out
}

#[test]
fn parse_payload_decodes_prefixed_hex() {
    let field = b"0x0102".to_vec();
    assert_eq!(parse_payload(&field).unwrap(), vec![0x01, 0x02]);
}

#[test]
fn parse_payload_accepts_empty_payload() {
    let field = b"0x".to_vec();
    assert_eq!(parse_payload(&field).unwrap(), Vec::<u8>::new());
}

#[test]
fn parse_payload_accepts_mixed_case_digits() {
    let field = b"0xAb01fF".to_vec();
    assert_eq!(parse_payload(&field).unwrap(), vec![0xab, 0x01, 0xff]);
}

#[test]
fn parse_payload_rejects_missing_prefix() {
    let field = b"0102".to_vec();
    assert_eq!(parse_payload(&field), Err(PipelineError::MalformedPayload));
}

#[test]
fn parse_payload_rejects_odd_length() {
    let field = b"0x012".to_vec();
    assert_eq!(parse_payload(&field), Err(PipelineError::MalformedPayload));
}

#[test]
fn parse_payload_rejects_bad_digit() {
    let field = b"0x01zz".to_vec();
    assert_eq!(parse_payload(&field), Err(PipelineError::MalformedPayload));
}

#[test]
fn parse_payload_rejects_short_field() {
    assert_eq!(parse_payload(&b"0".to_vec()), Err(PipelineError::MalformedPayload));
    assert_eq!(parse_payload(&Vec::new()), Err(PipelineError::MalformedPayload));
}

#[test]
fn parse_payload_inverts_hex_encoding() {
    let data: Vec<u8> = (0u8..=255).collect();
    let field = format!("0x{}", hex::encode(&data)).into_bytes();
    assert_eq!(parse_payload(&field).unwrap(), data);
}

#[test]
fn seed_matches_keccak_prefix() {
    let payload = vec![0x01u8, 0x02];
    let digest = keccak(&payload);
    let expected = u64::from_be_bytes(digest[0..8].try_into().unwrap());
    assert_eq!(seed_from_payload(&payload), expected);
}

#[test]
fn seed_of_empty_payload_matches_known_digest() {
    // Keccak-256 of the empty string starts with c5 d2 46 01 86 f7 23 3c.
    let payload = Vec::new();
    assert_eq!(seed_from_payload(&payload), 0xc5d2460186f7233c);
}

#[test]
fn seed_is_deterministic() {
    let payload = b"same bytes in, same seed out".to_vec();
    assert_eq!(seed_from_payload(&payload), seed_from_payload(&payload));
}

#[test]
fn decode_notice_round_trips_abi_encoding() {
    let address = "bafybeigdyrzt5sfp7udm7hu76uh7y26nf3efuylqabf3oclgtqy55fbzdi";
    let digest = [0x5au8; 32];
    let encoded = ethabi::encode(&[
        ethabi::Token::String(address.to_string()),
        ethabi::Token::FixedBytes(digest.to_vec()),
    ]);
    let (addr_bytes, digest_bytes) = decode_notice(&encoded).unwrap();
    assert_eq!(addr_bytes, address.as_bytes().to_vec());
    assert_eq!(digest_bytes, digest.to_vec());
}

#[test]
fn decode_notice_round_trips_empty_address() {
    let encoded = ethabi::encode(&[
        ethabi::Token::String(String::new()),
        ethabi::Token::FixedBytes(vec![7u8; 32]),
    ]);
    let (addr_bytes, digest_bytes) = decode_notice(&encoded).unwrap();
    assert_eq!(addr_bytes, Vec::<u8>::new());
    assert_eq!(digest_bytes, vec![7u8; 32]);
}

#[test]
fn decode_notice_rejects_truncated_payload() {
    let encoded = ethabi::encode(&[
        ethabi::Token::String("bafy".to_string()),
        ethabi::Token::FixedBytes(vec![1u8; 32]),
    ]);
    let truncated = encoded[..encoded.len() - 1].to_vec();
    assert!(decode_notice(&truncated).is_none());
    assert!(decode_notice(&encoded[..64].to_vec()).is_none());
}
