use nixstore::error::StoreError;
use nixstore::path::{StorePath, StorePathWithOutputs};
use nixstore::valid_path::ValidPathInfo;
use nixstore::worker::{
    build_paths, choose_build_user, prime_cache, query_missing, BuildMode, BuildUserCandidate,
    MemStore, Worker,
};

#[test]
fn query_missing_on_empty_input_is_all_zero() {
    let store = MemStore::new();
    let info = query_missing(&store, &Vec::new()).unwrap();
    assert!(info.done.is_empty());
    assert!(info.will_build.is_empty());
    assert!(info.will_substitute.is_empty());
    assert!(info.unknown.is_empty());
    assert_eq!(info.download_size, 0);
    assert_eq!(info.nar_size, 0);
}

const DRV_A: &str = "aaaaaaaaaaaaaaaaaaaaaaaaaaaaaaaa-a.drv";
const OUT_A: &str = "bbbbbbbbbbbbbbbbbbbbbbbbbbbbbbbb-a";
const DRV_B: &str = "cccccccccccccccccccccccccccccccc-b.drv";

fn drv_a_text() -> String {
    format!(
        "Derive([(\"out\",\"/nix/store/{}\",\"\",\"\")],[(\"/nix/store/{}\",[\"out\"])],[],\"x86_64-linux\",\"/bin/sh\",[],[])",
        OUT_A, DRV_B
    )
}

fn store_with_drv_a() -> MemStore {
    let mut store = MemStore::new();
    let drv_a = StorePath::new(DRV_A).unwrap();
    store.register_path(ValidPathInfo::new(drv_a.clone_path()));
    store.add_drv_text(drv_a, drv_a_text());
    store
}

#[test]
fn query_missing_plan() {
    let store = store_with_drv_a();
    let input = vec![StorePathWithOutputs::new_with_outputs(
        StorePath::new(DRV_A).unwrap(),
        vec!["out".to_string()],
    )];
    let info = query_missing(&store, &input).unwrap();

    assert_eq!(info.will_build.len(), 1);
    assert_eq!(info.will_build[0], StorePath::new(DRV_A).unwrap());
    assert_eq!(info.unknown.len(), 1);
    assert_eq!(info.unknown[0], StorePath::new(DRV_B).unwrap());
    assert!(info.will_substitute.is_empty());
    assert_eq!(info.download_size, 0);
    assert_eq!(info.nar_size, 0);
}

#[test]
fn query_missing_counts_substitutable_paths() {
    let mut store = MemStore::new();
    let plain = StorePath::new("dddddddddddddddddddddddddddddddd-lib").unwrap();
    store.add_substitutable(plain.clone_path(), 10, 30);
    let input = vec![StorePathWithOutputs::new(plain.clone_path())];
    let info = query_missing(&store, &input).unwrap();
    assert_eq!(info.will_substitute.len(), 1);
    assert_eq!(info.download_size, 10);
    assert_eq!(info.nar_size, 30);
}

#[test]
fn build_refusal_with_no_build_slots() {
    let store = store_with_drv_a();
    let input = vec![StorePathWithOutputs::new_with_outputs(
        StorePath::new(DRV_A).unwrap(),
        vec!["out".to_string()],
    )];

    let err = prime_cache(&store, &input, 0).unwrap_err();
    match err {
        StoreError::NoBuildJobs { jobs } => assert_eq!(jobs, 1),
        other => panic!("expected NoBuildJobs, got {:?}", other),
    }

    assert!(prime_cache(&store, &input, 1).is_ok());
    assert!(build_paths(&store, &input, BuildMode::Normal, 1).is_ok());
}

#[test]
fn add_text_round_trip() {
    let mut store = MemStore::new();
    let refs: Vec<StorePath> = Vec::new();
    let info1 = store
        .add_text_to_store("hello", b"world", &refs, false)
        .unwrap();
    assert_eq!(info1.path.name(), "hello");
    assert!(info1.nar_size.is_some());

    let info2 = store
        .add_text_to_store("hello", b"world", &refs, false)
        .unwrap();
    assert_eq!(info1.path, info2.path);

    let different = store
        .add_text_to_store("hello", b"other-data", &refs, false)
        .unwrap();
    assert_ne!(info1.path, different.path);
}

#[test]
fn choose_build_user_policy() {
    let cands = vec![
        BuildUserCandidate {
            name: "nixbld1".to_string(),
            uid: 30001,
            lock_acquired: false,
        },
        BuildUserCandidate {
            name: "nixbld2".to_string(),
            uid: 30002,
            lock_acquired: true,
        },
    ];
    assert_eq!(choose_build_user(&cands, 0, 0).unwrap(), 1);
    assert!(matches!(
        choose_build_user(&cands, 30002, 0),
        Err(nixstore::error::BuildError::UserInGroup { .. })
    ));
    assert!(matches!(
        choose_build_user(&Vec::new(), 0, 0),
        Err(nixstore::error::BuildError::NoBuildUsers)
    ));
    let busy = vec![BuildUserCandidate {
        name: "nixbld1".to_string(),
        uid: 30001,
        lock_acquired: false,
    }];
    assert!(matches!(
        choose_build_user(&busy, 0, 0),
        Err(nixstore::error::BuildError::NoFreeUsers)
    ));
}

#[test]
fn worker_arena_wakes_new_goals() {
    let mut worker = Worker::new();
    let id = worker.make_derivation_goal(
        StorePath::new(DRV_A).unwrap(),
        vec!["out".to_string()],
        BuildMode::Normal,
        "/build",
    );
    assert_eq!(id, 0);
    assert_eq!(worker.awake, vec![0]);
    assert_eq!(worker.get_nr_local_builds(), 0);
    assert!(worker.run().is_ok());
}

#[test]
fn add_to_store_nar_round_trip() {
    let mut store = MemStore::new();

    let mut nar: Vec<u8> = Vec::new();
    nixstore::nar::write_str_frame(&mut nar, "nix-archive-1");
    let node = nixstore::nar::NarNode::Regular {
        executable: false,
        contents: b"hello".to_vec(),
    };
    node.encode(&mut nar);

    let path = StorePath::new("ffffffffffffffffffffffffffffffff-hello").unwrap();
    let digest = nixstore::hash::sha256_digest(&nar);
    let hash = nixstore::hash::Hash::from_sha256_vec(&digest).unwrap();
    let info = ValidPathInfo::now(path.clone_path(), hash, nar.len() as u64).unwrap();

    store.add_to_store(info, &nar, false).unwrap();
    assert!(nixstore::worker::ReadStore::is_valid_path(&store, &path).unwrap());

    let wrong_hash = nixstore::hash::Hash::from_sha256_vec(&nixstore::hash::sha256_digest(
        b"something else",
    ))
    .unwrap();
    let path2 = StorePath::new("aaaaaaaaaaaaaaaaaaaaaaaaaaaaaaaa-bad").unwrap();
    let bad = ValidPathInfo::now(path2, wrong_hash, nar.len() as u64).unwrap();
    assert!(store.add_to_store(bad, &nar, false).is_err());
}
