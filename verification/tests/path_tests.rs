use nixstore::path::{StorePath, StorePathWithOutputs};
use nixstore::store::{FileIngestionMethod, MockStore, Store};

const DUMMY: &str = "ffffffffffffffffffffffffffffffff-x";

#[test]
fn from_store_path() {
    let path_1 = StorePath::new(DUMMY).unwrap();
    let store = MockStore::new();
    let path_2 = store
        .parse_store_path(&format!("/nix/store/{}", DUMMY))
        .unwrap();

    assert_eq!(path_1, path_2);
}

#[test]
fn get_hash_part() {
    let path = StorePath::new(DUMMY).unwrap();

    assert_eq!(path.hash_part(), "ffffffffffffffffffffffffffffffff");
    assert_eq!(path.name(), "x");
}

#[test]
fn print_store_path() {
    let path = StorePath::new(DUMMY).unwrap();
    let store = MockStore::new();
    let path = store.print_store_path(&path);

    assert_eq!(path, "/nix/store/ffffffffffffffffffffffffffffffff-x");
}

#[test]
fn with_outputs() {
    let store = MockStore::new();

    let path = format!("{}/{}!out,dev", "/nix/store", DUMMY);

    let paths = store.parse_store_path_with_outputs(&path).unwrap();
    let paths_2 = StorePathWithOutputs::new_with_outputs(
        StorePath::new(DUMMY).unwrap(),
        vec!["out".to_string(), "dev".to_string()],
    );

    assert_eq!(paths.path, StorePath::new(DUMMY).unwrap());
    assert_eq!(paths, paths_2);
}

#[test]
fn rejects_length_thirty_three() {
    let basename = "fffffffffffffffffffffffffffffff-x";
    assert_eq!(basename.len(), 33);
    assert!(StorePath::new(basename).is_err());
}

#[test]
fn rejects_non_dash_separator() {
    let basename = "ffffffffffffffffffffffffffffffff_x";
    assert_eq!(basename.len(), 34);
    assert!(StorePath::new(basename).is_err());
}

#[test]
fn hash_part_never_holds_forbidden_characters() {
    let good = StorePath::new(DUMMY).unwrap();
    assert!(good
        .hash_part()
        .chars()
        .all(|c| !matches!(c, 'e' | 'o' | 't' | 'u')));
    assert!(StorePath::new("eeeeeeeeeeeeeeeeeeeeeeeeeeeeeeee-x").is_err());
    assert!(StorePath::new("ffffffffffffffffffffffffffffffft-x").is_err());
}

#[test]
fn fixed_output_path_recursive_sha256_uses_source_type() {
    let store = MockStore::new();
    let digest = nixstore::hash::sha256_digest(b"contents");
    let h = nixstore::hash::Hash::SHA256(digest);
    let refs: Vec<StorePath> = Vec::new();

    let recursive = store
        .make_fixed_output_path(FileIngestionMethod::Recursive, &h, "pkg", &refs, false)
        .unwrap();
    let via_source = store.make_store_path("source", &h, "pkg").unwrap();
    assert_eq!(recursive, via_source);

    let flat = store
        .make_fixed_output_path(FileIngestionMethod::Flat, &h, "pkg", &refs, false)
        .unwrap();
    assert_ne!(flat, via_source);
}
