use nixstore::hash::sha256_digest;
use nixstore::hash::Hash as NixHash;

#[test]
fn decode_encode() {
    let hash_1 =
        NixHash::from_text("sha256:1yh3wfhqrgm27n60qbfdgmyv00z3bwvs8bcmy233cgqy2rq2s19r").unwrap();

    let string = hash_1.to_text();

    assert_eq!(
        "1yh3wfhqrgm27n60qbfdgmyv00z3bwvs8bcmy233cgqy2rq2s19r",
        string
    );
}

#[test]
fn compress_hash() {
    let hash_1 =
        NixHash::from_text("sha256:1yh3wfhqrgm27n60qbfdgmyv00z3bwvs8bcmy233cgqy2rq2s19r").unwrap();
    let hash_1 = hash_1.compress_hash(20).unwrap();
    let hash_1 = hash_1.to_text();

    let hash_2 = "gmyv00z3bwvs9mwn2ckvm0dw5gy22a7l";
    assert_eq!(hash_1, hash_2);
}

#[test]
fn compress_is_deterministic_and_twenty_bytes() {
    let data = b"some bytes to digest";
    let d1 = sha256_digest(data);
    let d2 = sha256_digest(data);
    assert_eq!(d1, d2);
    let c1 = NixHash::from_sha256_vec(&d1).unwrap().compress_hash(20).unwrap();
    let c2 = NixHash::from_sha256_vec(&d2).unwrap().compress_hash(20).unwrap();
    match &c1 {
        NixHash::Compressed(v) => assert_eq!(v.len(), 20),
        _ => panic!("expected a compressed hash"),
    }
    assert!(c1.hash_eq(&c2));
}

#[test]
fn hex_round_trip() {
    let bytes: Vec<u8> = (0u8..32u8).collect();
    let hex = "000102030405060708090a0b0c0d0e0f101112131415161718191a1b1c1d1e1f";
    let parsed = NixHash::from_sha256(hex).unwrap();
    let direct = NixHash::from_sha256_vec(&bytes).unwrap();
    assert!(parsed.hash_eq(&direct));
}

#[test]
fn from_sha256_rejects_wrong_length_and_digits() {
    assert!(NixHash::from_sha256("abcd").is_err());
    assert!(NixHash::from_sha256(
        "zz0102030405060708090a0b0c0d0e0f101112131415161718191a1b1c1d1e1f"
    )
    .is_err());
}

#[test]
fn sql_string_round_trip() {
    let bytes: Vec<u8> = (0u8..32u8).collect();
    let h = NixHash::from_sha256_vec(&bytes).unwrap();
    let s = h.to_sql_string();
    assert!(s.starts_with("sha256:"));
    let back = NixHash::from_sql_string(&s).unwrap();
    assert!(back.hash_eq(&h));
}

#[test]
fn hash_string_requires_four_fields() {
    assert!(NixHash::hash_string("sha256:ab").is_err());
    assert!(NixHash::hash_string("text:sha256:abcd:/nix/store:name").is_ok());
    assert!(NixHash::hash_string("text:md5:abcd:/nix/store:name").is_err());
}
