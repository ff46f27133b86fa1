use base64::Engine;
use transcode_server::b64::{base64url_to_bytes, bytes_to_base64url};
use transcode_server::cid::{
    get_base64_url_encrypted_blob_hash, get_key_from_encrypted_cid, hash_bytes_to_cid,
    number_of_bytes,
};

fn roundtrip(bytes: &[u8]) {
    let text = bytes_to_base64url(bytes);
    let back = base64url_to_bytes(&text).expect("encoder output must decode");
    assert_eq!(back, bytes.to_vec());
}

#[test]
fn base64url_round_trips_all_remainders() {
    roundtrip(&[]);
    roundtrip(&[0]);
    roundtrip(&[255]);
    roundtrip(&[1, 2]);
    roundtrip(&[1, 2, 3]);
    roundtrip(&[1, 2, 3, 4]);
    roundtrip(&[251, 252, 253, 254, 255]);
    let all: Vec<u8> = (0u16..=255).map(|b| b as u8).collect();
    roundtrip(&all);
}

#[test]
fn base64url_matches_reference_encoder() {
    let samples: Vec<Vec<u8>> = vec![
        vec![],
        vec![0xff],
        vec![0xfb, 0xef],
        vec![0x00, 0x10, 0x83, 0x10, 0x51],
        (0u16..=255).map(|b| b as u8).collect(),
    ];
    for bytes in samples {
        let ours = bytes_to_base64url(&bytes);
        let reference = base64::engine::general_purpose::URL_SAFE_NO_PAD.encode(&bytes);
        assert_eq!(ours, reference);
    }
}

#[test]
fn base64url_uses_url_safe_alphabet() {
    // 0xfb 0xef encodes to sextets 62, 62, 60: both substituted characters appear.
    assert_eq!(bytes_to_base64url(&[0xfb, 0xef]), "--8");
    assert_eq!(base64url_to_bytes("--8"), Some(vec![0xfb, 0xef]));
    // The standard-alphabet spelling of the same bytes is not accepted.
    assert_eq!(base64url_to_bytes("++8"), None);
}

#[test]
fn base64url_rejects_malformed_text() {
    // A length of 1 modulo 4 can never arise from whole bytes.
    assert_eq!(base64url_to_bytes("A"), None);
    assert_eq!(base64url_to_bytes("AAAAB"), None);
    // Characters outside the alphabet, padding included.
    assert_eq!(base64url_to_bytes("AA=="), None);
    assert_eq!(base64url_to_bytes("A!A"), None);
    // Nonzero unused low bits in the final character.
    assert_eq!(base64url_to_bytes("AB"), None);
    assert_eq!(base64url_to_bytes("AAB"), None);
    // The canonical spellings of the same prefixes decode.
    assert_eq!(base64url_to_bytes("AA"), Some(vec![0]));
    assert_eq!(base64url_to_bytes("AAA"), Some(vec![0, 0]));
}

/// A 68-byte payload whose field boundaries are recognizable.
fn sample_payload() -> Vec<u8> {
    let mut payload = Vec::new();
    payload.push(1); // type marker
    payload.push(0xa6); // algorithm
    payload.push(18); // chunk size as power of two
    for i in 0..33 {
        payload.push(0x40 + i); // blob hash
    }
    for i in 0..32 {
        payload.push(0x80 + i); // key
    }
    payload
}

#[test]
fn extract_key_slices_bytes_36_to_68() {
    let payload = sample_payload();
    let cid = format!("u{}", bytes_to_base64url(&payload));
    let key = get_key_from_encrypted_cid(&cid).expect("well-formed CID must yield a key");
    assert_eq!(key, bytes_to_base64url(&payload[36..68]));
}

#[test]
fn extract_key_strips_trailing_extension() {
    let payload = sample_payload();
    let cid = format!("u{}.mp4", bytes_to_base64url(&payload));
    let key = get_key_from_encrypted_cid(&cid).expect("extension must be ignored");
    assert_eq!(key, bytes_to_base64url(&payload[36..68]));
}

#[test]
fn extract_blob_hash_slices_bytes_3_to_36() {
    let payload = sample_payload();
    let cid = format!("u{}", bytes_to_base64url(&payload));
    let hash = get_base64_url_encrypted_blob_hash(&cid).expect("well-formed CID must yield a hash");
    assert_eq!(hash, bytes_to_base64url(&payload[3..36]));
}

#[test]
fn extract_rejects_short_payload() {
    let short = vec![7u8; 67];
    let cid = format!("u{}", bytes_to_base64url(&short));
    assert_eq!(get_key_from_encrypted_cid(&cid), None);
    assert_eq!(get_base64_url_encrypted_blob_hash(&cid), None);
}

#[test]
fn extract_rejects_undecodable_cid() {
    assert_eq!(get_key_from_encrypted_cid(""), None);
    assert_eq!(get_key_from_encrypted_cid("u!!!!"), None);
    assert_eq!(get_base64_url_encrypted_blob_hash("u!!!!"), None);
}

#[test]
fn build_cid_prepends_markers() {
    let hash = vec![0xaa; 33];
    let cid = hash_bytes_to_cid(hash.clone(), 0);
    assert_eq!(cid[0], 0x26);
    assert_eq!(cid[1], 0x1f);
    assert_eq!(&cid[2..35], &hash[..]);
}

#[test]
fn build_cid_size_zero_appends_no_size_bytes() {
    let cid = hash_bytes_to_cid(vec![0xaa; 33], 0);
    assert_eq!(cid.len(), 35);
}

#[test]
fn build_cid_size_256_is_two_bytes() {
    // 256 little-endian is 0x00 0x01 followed by zeros; only the trailing
    // zeros are stripped, leaving exactly one nonzero final byte.
    let cid = hash_bytes_to_cid(vec![0xaa; 33], 256);
    assert_eq!(&cid[35..], &[0x00, 0x01]);
}

#[test]
fn build_cid_size_encoding_is_minimal_little_endian() {
    let cid = hash_bytes_to_cid(vec![0; 33], 1);
    assert_eq!(&cid[35..], &[0x01]);
    let cid = hash_bytes_to_cid(vec![0; 33], 0x01020304);
    assert_eq!(&cid[35..], &[0x04, 0x03, 0x02, 0x01]);
    let cid = hash_bytes_to_cid(vec![0; 33], u64::MAX);
    assert_eq!(&cid[35..], &[0xff; 8]);
}

#[test]
fn number_of_bytes_counts_powers_of_256() {
    assert_eq!(number_of_bytes(0), 1);
    assert_eq!(number_of_bytes(255), 1);
    assert_eq!(number_of_bytes(256), 2);
    assert_eq!(number_of_bytes(65535), 2);
    assert_eq!(number_of_bytes(65536), 3);
    assert_eq!(number_of_bytes(u32::MAX), 4);
}
