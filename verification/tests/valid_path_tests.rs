use nixstore::path::StorePath;
use nixstore::store::MockStore;
use nixstore::valid_path::ValidPathInfo;

#[test]
fn from_str() {
    let text = r#"StorePath: /nix/store/m1a7l5663wfrp36myxwmk61yc546zkqf-libnfc-1.7.1
URL: nar/0klbnh0bsy8mc2pc875dfv01n9yc8d9rrchgq1ikfmv7g0p46fbg.nar.xz
Compression: xz
FileHash: sha256:0klbnh0bsy8mc2pc875dfv01n9yc8d9rrchgq1ikfmv7g0p46fbg
FileSize: 121344
NarHash: sha256:1ym9fi02fpy694b8qzx4rzf0ysl24m1783yhj0rijl2cxjd7bbf5
NarSize: 582352
References: bqbg6hb2jsl3kvf6jgmgfdqy06fpjrrn-glibc-2.30 hky7c4s917r4sp5iff5f8vh1qdmys2z8-libusb-compat-0.1.7 m1a7l5663wfrp36myxwmk61yc546zkqf-libnfc-1.7.1
Deriver: kabgla47hqvkq7i83d46x06ljxq042zf-libnfc-1.7.1.drv
Sig: cache.nixos.org-1:k+3WgwIvPX+cgvmpY3aSj6l0zV0D3YKL+8h0DyA4aMmNfRsFJ65Z5GZQKBAA7T5BfNYlvGn9S9b78O1IqHJwDw=="#;

    let store = MockStore::new();

    let info = ValidPathInfo::parse_str(text, &store).unwrap();

    assert_eq!(
        info.path,
        StorePath::new("m1a7l5663wfrp36myxwmk61yc546zkqf-libnfc-1.7.1").unwrap()
    );
    assert_eq!(info.nar_size, Some(582352));
    assert_eq!(info.binary_info.unwrap().file_size, Some(121344));
}

fn sample_info(sigs: Vec<String>, refs: Vec<&str>) -> ValidPathInfo {
    let mut info = ValidPathInfo::new(
        StorePath::new("ffffffffffffffffffffffffffffffff-sample").unwrap(),
    );
    info.nar_hash = nixstore::hash::Hash::from_sha256_vec(&nixstore::hash::sha256_digest(
        b"payload",
    ))
    .unwrap();
    info.nar_size = Some(100);
    info.sigs = sigs;
    for r in refs {
        info.references.push(StorePath::new(r).unwrap());
    }
    info
}

#[test]
fn fingerprint_ignores_sig_order_but_not_reference_order() {
    let store = MockStore::new();
    let r1 = "aaaaaaaaaaaaaaaaaaaaaaaaaaaaaaaa-one";
    let r2 = "bbbbbbbbbbbbbbbbbbbbbbbbbbbbbbbb-two";

    let a = sample_info(vec!["s1:x".to_string(), "s2:y".to_string()], vec![r1, r2]);
    let b = sample_info(vec!["s2:y".to_string(), "s1:x".to_string()], vec![r1, r2]);
    assert_eq!(a.fingerprint(&store).unwrap(), b.fingerprint(&store).unwrap());

    let c = sample_info(vec![], vec![r2, r1]);
    assert_ne!(a.fingerprint(&store).unwrap(), c.fingerprint(&store).unwrap());
}

#[test]
fn fingerprint_requires_hash_and_size() {
    let store = MockStore::new();
    let mut info = sample_info(vec![], vec![]);
    info.nar_size = Some(0);
    assert!(info.fingerprint(&store).is_err());
    let mut info2 = sample_info(vec![], vec![]);
    info2.nar_hash = nixstore::hash::Hash::Empty;
    assert!(info2.fingerprint(&store).is_err());
}

#[test]
fn unknown_signer_is_false_not_an_error() {
    let store = MockStore::new();
    let keys = nixstore::crypto::PublicKeys::new();
    let info = sample_info(vec![], vec![]);
    let ok = info
        .check_signature("unknown-signer:AAAA", &keys, &store)
        .unwrap();
    assert!(!ok);
}

#[test]
fn malformed_signature_is_an_error() {
    let store = MockStore::new();
    let keys = nixstore::crypto::PublicKeys::new();
    let info = sample_info(vec![], vec![]);
    assert!(info.check_signature("no-colon-here", &keys, &store).is_err());
    assert!(info
        .check_signature("name:not base64 at all!!", &keys, &store)
        .is_err());
}

#[test]
fn check_signatures_counts_good_ones() {
    let store = MockStore::new();
    let keys = nixstore::crypto::PublicKeys::new();
    let info = sample_info(vec!["someone:AAAA".to_string()], vec![]);
    assert_eq!(info.check_signatures(&store, &keys).unwrap(), 0);
}

#[test]
fn narinfo_unknown_compression_is_refused() {
    let store = MockStore::new();
    let text = "StorePath: /nix/store/m1a7l5663wfrp36myxwmk61yc546zkqf-libnfc-1.7.1\nCompression: zstd";
    assert!(ValidPathInfo::parse_str(text, &store).is_err());
}
