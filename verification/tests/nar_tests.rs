use nixstore::error::NarError;
use nixstore::hash::sha256_digest;
use nixstore::hash::Hash as NixHash;
use nixstore::nar::{parse_into, parse_node, write_str_frame, NarNode};
use nixstore::store::MockStore;

#[test]
fn read_simple_file() {
    let mut store = MockStore::new();

    let data: Vec<u8> = vec![
        13, 0, 0, 0, 0, 0, 0, 0, 110, 105, 120,  45,  97, 114,  99, 104, 105, 118, 101, 45, 49, 0, 0, 0,
         1, 0, 0, 0, 0, 0, 0, 0,  40,   0,   0,   0,   0,   0,   0,   0,
         4, 0, 0, 0, 0, 0, 0, 0, 116, 121, 112, 101,   0,   0,   0,   0,
         7, 0, 0, 0, 0, 0, 0, 0, 114, 101, 103, 117, 108,  97, 114,   0,
         8, 0, 0, 0, 0, 0, 0, 0,  99, 111, 110, 116, 101, 110, 116, 115,
         5, 0, 0, 0, 0, 0, 0, 0, 104, 101, 108, 108, 111,   0,   0,   0,
         1, 0, 0, 0, 0, 0, 0, 0,  41,   0,   0,   0,   0,   0,   0,   0,
    ];

    let _ret = parse_into("/mock/string", &data, &mut store).unwrap();

    assert!(store.file_exists("/mock/string"));
    assert!(store.file_as_string("/mock/string").unwrap().eq("hello"));
    assert!(!store.is_file_executable("/mock/string").unwrap());
}

#[test]
fn read_dir() {
    let mut store = MockStore::new();

    let data: Vec<u8> = vec![
        0x0d, 0x00, 0x00, 0x00, 0x00, 0x00, 0x00, 0x00, 0x6e, 0x69, 0x78, 0x2d, 0x61, 0x72,
        0x63, 0x68, 0x69, 0x76, 0x65, 0x2d, 0x31, 0x00, 0x00, 0x00, 0x01, 0x00, 0x00, 0x00,
        0x00, 0x00, 0x00, 0x00, 0x28, 0x00, 0x00, 0x00, 0x00, 0x00, 0x00, 0x00, 0x04, 0x00,
        0x00, 0x00, 0x00, 0x00, 0x00, 0x00, 0x74, 0x79, 0x70, 0x65, 0x00, 0x00, 0x00, 0x00,
        0x09, 0x00, 0x00, 0x00, 0x00, 0x00, 0x00, 0x00, 0x64, 0x69, 0x72, 0x65, 0x63, 0x74,
        0x6f, 0x72, 0x79, 0x00, 0x00, 0x00, 0x00, 0x00, 0x00, 0x00, 0x05, 0x00, 0x00, 0x00,
        0x00, 0x00, 0x00, 0x00, 0x65, 0x6e, 0x74, 0x72, 0x79, 0x00, 0x00, 0x00, 0x01, 0x00,
        0x00, 0x00, 0x00, 0x00, 0x00, 0x00, 0x28, 0x00, 0x00, 0x00, 0x00, 0x00, 0x00, 0x00,
        0x04, 0x00, 0x00, 0x00, 0x00, 0x00, 0x00, 0x00, 0x6e, 0x61, 0x6d, 0x65, 0x00, 0x00,
        0x00, 0x00, 0x03, 0x00, 0x00, 0x00, 0x00, 0x00, 0x00, 0x00, 0x65, 0x78, 0x65, 0x00,
        0x00, 0x00, 0x00, 0x00, 0x04, 0x00, 0x00, 0x00, 0x00, 0x00, 0x00, 0x00, 0x6e, 0x6f,
        0x64, 0x65, 0x00, 0x00, 0x00, 0x00, 0x01, 0x00, 0x00, 0x00, 0x00, 0x00, 0x00, 0x00,
        0x28, 0x00, 0x00, 0x00, 0x00, 0x00, 0x00, 0x00, 0x04, 0x00, 0x00, 0x00, 0x00, 0x00,
        0x00, 0x00, 0x74, 0x79, 0x70, 0x65, 0x00, 0x00, 0x00, 0x00, 0x07, 0x00, 0x00, 0x00,
        0x00, 0x00, 0x00, 0x00, 0x72, 0x65, 0x67, 0x75, 0x6c, 0x61, 0x72, 0x00, 0x0a, 0x00,
        0x00, 0x00, 0x00, 0x00, 0x00, 0x00, 0x65, 0x78, 0x65, 0x63, 0x75, 0x74, 0x61, 0x62,
        0x6c, 0x65, 0x00, 0x00, 0x00, 0x00, 0x00, 0x00, 0x00, 0x00, 0x00, 0x00, 0x00, 0x00,
        0x00, 0x00, 0x08, 0x00, 0x00, 0x00, 0x00, 0x00, 0x00, 0x00, 0x63, 0x6f, 0x6e, 0x74,
        0x65, 0x6e, 0x74, 0x73, 0x08, 0x00, 0x00, 0x00, 0x00, 0x00, 0x00, 0x00, 0x65, 0x78,
        0x65, 0x63, 0x75, 0x74, 0x65, 0x0a, 0x01, 0x00, 0x00, 0x00, 0x00, 0x00, 0x00, 0x00,
        0x29, 0x00, 0x00, 0x00, 0x00, 0x00, 0x00, 0x00, 0x01, 0x00, 0x00, 0x00, 0x00, 0x00,
        0x00, 0x00, 0x29, 0x00, 0x00, 0x00, 0x00, 0x00, 0x00, 0x00, 0x05, 0x00, 0x00, 0x00,
        0x00, 0x00, 0x00, 0x00, 0x65, 0x6e, 0x74, 0x72, 0x79, 0x00, 0x00, 0x00, 0x01, 0x00,
        0x00, 0x00, 0x00, 0x00, 0x00, 0x00, 0x28, 0x00, 0x00, 0x00, 0x00, 0x00, 0x00, 0x00,
        0x04, 0x00, 0x00, 0x00, 0x00, 0x00, 0x00, 0x00, 0x6e, 0x61, 0x6d, 0x65, 0x00, 0x00,
        0x00, 0x00, 0x0b, 0x00, 0x00, 0x00, 0x00, 0x00, 0x00, 0x00, 0x65, 0x78, 0x65, 0x5f,
        0x73, 0x79, 0x6d, 0x6c, 0x69, 0x6e, 0x6b, 0x00, 0x00, 0x00, 0x00, 0x00, 0x04, 0x00,
        0x00, 0x00, 0x00, 0x00, 0x00, 0x00, 0x6e, 0x6f, 0x64, 0x65, 0x00, 0x00, 0x00, 0x00,
        0x01, 0x00, 0x00, 0x00, 0x00, 0x00, 0x00, 0x00, 0x28, 0x00, 0x00, 0x00, 0x00, 0x00,
        0x00, 0x00, 0x04, 0x00, 0x00, 0x00, 0x00, 0x00, 0x00, 0x00, 0x74, 0x79, 0x70, 0x65,
        0x00, 0x00, 0x00, 0x00, 0x07, 0x00, 0x00, 0x00, 0x00, 0x00, 0x00, 0x00, 0x73, 0x79,
        0x6d, 0x6c, 0x69, 0x6e, 0x6b, 0x00, 0x06, 0x00, 0x00, 0x00, 0x00, 0x00, 0x00, 0x00,
        0x74, 0x61, 0x72, 0x67, 0x65, 0x74, 0x00, 0x00, 0x03, 0x00, 0x00, 0x00, 0x00, 0x00,
        0x00, 0x00, 0x65, 0x78, 0x65, 0x00, 0x00, 0x00, 0x00, 0x00, 0x01, 0x00, 0x00, 0x00,
        0x00, 0x00, 0x00, 0x00, 0x29, 0x00, 0x00, 0x00, 0x00, 0x00, 0x00, 0x00, 0x01, 0x00,
        0x00, 0x00, 0x00, 0x00, 0x00, 0x00, 0x29, 0x00, 0x00, 0x00, 0x00, 0x00, 0x00, 0x00,
        0x05, 0x00, 0x00, 0x00, 0x00, 0x00, 0x00, 0x00, 0x65, 0x6e, 0x74, 0x72, 0x79, 0x00,
        0x00, 0x00, 0x01, 0x00, 0x00, 0x00, 0x00, 0x00, 0x00, 0x00, 0x28, 0x00, 0x00, 0x00,
        0x00, 0x00, 0x00, 0x00, 0x04, 0x00, 0x00, 0x00, 0x00, 0x00, 0x00, 0x00, 0x6e, 0x61,
        0x6d, 0x65, 0x00, 0x00, 0x00, 0x00, 0x04, 0x00, 0x00, 0x00, 0x00, 0x00, 0x00, 0x00,
        0x66, 0x69, 0x6c, 0x65, 0x00, 0x00, 0x00, 0x00, 0x04, 0x00, 0x00, 0x00, 0x00, 0x00,
        0x00, 0x00, 0x6e, 0x6f, 0x64, 0x65, 0x00, 0x00, 0x00, 0x00, 0x01, 0x00, 0x00, 0x00,
        0x00, 0x00, 0x00, 0x00, 0x28, 0x00, 0x00, 0x00, 0x00, 0x00, 0x00, 0x00, 0x04, 0x00,
        0x00, 0x00, 0x00, 0x00, 0x00, 0x00, 0x74, 0x79, 0x70, 0x65, 0x00, 0x00, 0x00, 0x00,
        0x07, 0x00, 0x00, 0x00, 0x00, 0x00, 0x00, 0x00, 0x72, 0x65, 0x67, 0x75, 0x6c, 0x61,
        0x72, 0x00, 0x08, 0x00, 0x00, 0x00, 0x00, 0x00, 0x00, 0x00, 0x63, 0x6f, 0x6e, 0x74,
        0x65, 0x6e, 0x74, 0x73, 0x06, 0x00, 0x00, 0x00, 0x00, 0x00, 0x00, 0x00, 0x68, 0x65,
        0x6c, 0x6c, 0x6f, 0x0a, 0x00, 0x00, 0x01, 0x00, 0x00, 0x00, 0x00, 0x00, 0x00, 0x00,
        0x29, 0x00, 0x00, 0x00, 0x00, 0x00, 0x00, 0x00, 0x01, 0x00, 0x00, 0x00, 0x00, 0x00,
        0x00, 0x00, 0x29, 0x00, 0x00, 0x00, 0x00, 0x00, 0x00, 0x00, 0x01, 0x00, 0x00, 0x00,
        0x00, 0x00, 0x00, 0x00, 0x29, 0x00, 0x00, 0x00, 0x00, 0x00, 0x00, 0x00,
    ];

    let ret = parse_into("/mock/dir", &data, &mut store).unwrap();

    assert!(store.dir_exists("/mock/dir"));
    assert!(store.file_exists("/mock/dir/file"));
    assert_eq!(store.file_as_string("/mock/dir/file").unwrap(), "hello\n");
    assert!(!store.is_file_executable("/mock/dir/file").unwrap());

    assert!(store.file_exists("/mock/dir/exe"));
    assert_eq!(store.file_as_string("/mock/dir/exe").unwrap(), "execute\n");
    assert!(store.is_file_executable("/mock/dir/exe").unwrap());

    assert!(store.link_exists("/mock/dir/exe_symlink"));
    assert_eq!(store.symlinks_points_at("/mock/dir/exe_symlink").unwrap(), "exe");

    assert_eq!(ret.len, 712);
    assert_eq!(
        ret.hash.to_base32().unwrap(),
        "KTDZMKFP5AQGNPGXF5NVF4I3L23V3IQLACSPGYMC44LSA23NNFTQ===="
    );
}

fn encode_archive(node: &NarNode) -> Vec<u8> {
    let mut bytes: Vec<u8> = Vec::new();
    write_str_frame(&mut bytes, "nix-archive-1");
    node.encode(&mut bytes);
    bytes
}

#[test]
fn tree_round_trip() {
    let tree = NarNode::Directory {
        entries: vec![
            (
                "exe".to_string(),
                NarNode::Regular {
                    executable: true,
                    contents: b"execute\n".to_vec(),
                },
            ),
            (
                "file".to_string(),
                NarNode::Regular {
                    executable: false,
                    contents: b"hello\n".to_vec(),
                },
            ),
            (
                "link".to_string(),
                NarNode::Symlink {
                    target: "exe".to_string(),
                },
            ),
        ],
    };
    let bytes = encode_archive(&tree);

    let (node, consumed) = parse_node(&bytes, 24).unwrap();
    assert_eq!(consumed, bytes.len());

    let re_encoded = encode_archive(&node);
    assert_eq!(re_encoded, bytes);

    let mut store = MockStore::new();
    let ret = parse_into("/t", &bytes, &mut store).unwrap();
    assert_eq!(ret.len as usize, bytes.len());
    let expected = NixHash::from_sha256_vec(&sha256_digest(&bytes)).unwrap();
    assert!(ret.hash.hash_eq(&expected));
}

fn directory_with_entries(names: &[&str]) -> Vec<u8> {
    let mut bytes: Vec<u8> = Vec::new();
    write_str_frame(&mut bytes, "nix-archive-1");
    write_str_frame(&mut bytes, "(");
    write_str_frame(&mut bytes, "type");
    write_str_frame(&mut bytes, "directory");
    for name in names {
        write_str_frame(&mut bytes, "entry");
        write_str_frame(&mut bytes, "(");
        write_str_frame(&mut bytes, "name");
        write_str_frame(&mut bytes, name);
        write_str_frame(&mut bytes, "node");
        write_str_frame(&mut bytes, "(");
        write_str_frame(&mut bytes, "type");
        write_str_frame(&mut bytes, "regular");
        write_str_frame(&mut bytes, "contents");
        write_str_frame(&mut bytes, "x");
        write_str_frame(&mut bytes, ")");
        write_str_frame(&mut bytes, ")");
    }
    write_str_frame(&mut bytes, ")");
    bytes
}

#[test]
fn single_entry_parses_duplicate_fails() {
    let mut store = MockStore::new();
    let good = directory_with_entries(&["a"]);
    assert!(parse_into("/d", &good, &mut store).is_ok());

    let bad = directory_with_entries(&["a", "a"]);
    let err = parse_into("/d2", &bad, &mut store).unwrap_err();
    assert!(matches!(err, NarError::NotSorted));
}

#[test]
fn decreasing_entries_fail() {
    let mut store = MockStore::new();
    let bad = directory_with_entries(&["b", "a"]);
    let err = parse_into("/d3", &bad, &mut store).unwrap_err();
    assert!(matches!(err, NarError::NotSorted));
}

#[test]
fn bad_entry_names_fail() {
    let mut store = MockStore::new();
    for name in [".", "..", "a/b"] {
        let bad = directory_with_entries(&[name]);
        let err = parse_into("/d4", &bad, &mut store).unwrap_err();
        assert!(matches!(err, NarError::InvalidFileName { .. }));
    }
}

#[test]
fn wrong_magic_is_refused() {
    let mut store = MockStore::new();
    let mut bytes: Vec<u8> = Vec::new();
    write_str_frame(&mut bytes, "not-an-archive");
    let err = parse_into("/m", &bytes, &mut store).unwrap_err();
    assert!(matches!(err, NarError::NotAArchive));
}
