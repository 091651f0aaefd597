use nixstore::error::CommandError;
use nixstore::wire::Logger;
use nixstore::wire::{
    check_client_magic, check_client_version, read_bool, read_os_string, read_string,
    read_strings, read_u64, write_bool,
    stop_work_frames, tunnel_request, write_string, write_u64, ClientSettings, Verbosity,
    WorkFinish, WorkerOp, STDERR_ERROR, STDERR_LAST, STDERR_READ, WORKER_MAGIC_1,
};

#[test]
fn reader_read_u64() {
    let data = vec![2, 0, 0, 0, 0, 0, 0, 0];
    let (v, pos) = read_u64(&data, 0).unwrap();

    assert_eq!(v, 2);
    assert_eq!(pos, 8);
}

#[test]
fn reader_read_os_string() {
    let data = vec![
        15, 0, 0, 0, 0, 0, 0, 0, 5, 5, 0, 0, 0, 0, 0, 0, 6, 6, 0, 0, 0, 0, 0, 0,
    ];

    let (b, pos) = read_os_string(&data, 0).unwrap();

    assert_eq!(b, vec![5, 5, 0, 0, 0, 0, 0, 0, 6, 6, 0, 0, 0, 0, 0]);
    assert_eq!(pos, 24);
}

#[test]
fn reader_read_string() {
    let data = vec![2, 0, 0, 0, 0, 0, 0, 0, 63, 61, 0, 0, 0, 0, 0, 0];

    let (s, pos) = read_string(&data, 0).unwrap();

    assert_eq!(s, "?=");
    assert_eq!(pos, 16);
}

#[test]
fn reader_read_strings() {
    let data = vec![
         2,   0,   0,   0, 0, 0, 0, 0,
         2,   0,   0,   0, 0, 0, 0, 0,
        63,  61,   0,   0, 0, 0, 0, 0,
         4,   0,   0,   0, 0, 0, 0, 0,
        70, 105, 110, 110, 0, 0, 0, 0,
    ];

    let (strs, pos) = read_strings(&data, 0).unwrap();

    assert_eq!(strs, vec!["?=", "Finn"]);
    assert_eq!(pos, 40);
}

#[test]
fn reader_write_u64() {
    let mut out: Vec<u8> = Vec::new();
    write_u64(&mut out, 2);
    assert_eq!(out, vec![2, 0, 0, 0, 0, 0, 0, 0]);
}

#[test]
fn mod_read_u64() {
    let data = vec![2, 0, 0, 0, 0, 0, 0, 0];
    let (v, pos) = read_u64(&data, 0).unwrap();

    assert_eq!(v, 2);
    assert_eq!(pos, 8);
}

#[test]
fn mod_read_os_string() {
    let data = vec![
        15, 0, 0, 0, 0, 0, 0, 0, 5, 5, 0, 0, 0, 0, 0, 0, 6, 6, 0, 0, 0, 0, 0, 0,
    ];

    let (b, pos) = read_os_string(&data, 0).unwrap();

    assert_eq!(b, vec![5, 5, 0, 0, 0, 0, 0, 0, 6, 6, 0, 0, 0, 0, 0]);
    assert_eq!(pos, 24);
}

#[test]
fn mod_read_string() {
    let data = vec![2, 0, 0, 0, 0, 0, 0, 0, 63, 61, 0, 0, 0, 0, 0, 0];

    let (s, pos) = read_string(&data, 0).unwrap();

    assert_eq!(s, "?=");
    assert_eq!(pos, 16);
}

#[test]
fn mod_read_strings() {
    let data = vec![
         2,   0,   0,   0, 0, 0, 0, 0,
         2,   0,   0,   0, 0, 0, 0, 0,
        63,  61,   0,   0, 0, 0, 0, 0,
         4,   0,   0,   0, 0, 0, 0, 0,
        70, 105, 110, 110, 0, 0, 0, 0,
    ];

    let (strs, pos) = read_strings(&data, 0).unwrap();

    assert_eq!(strs, vec!["?=", "Finn"]);
    assert_eq!(pos, 40);
}

#[test]
fn mod_write_u64() {
    let mut out: Vec<u8> = Vec::new();
    write_u64(&mut out, 2);
    assert_eq!(out, vec![2, 0, 0, 0, 0, 0, 0, 0]);
}

#[test]
fn bool_round_trip() {
    for b in [true, false] {
        let mut out: Vec<u8> = Vec::new();
        write_bool(&mut out, b);
        let (back, pos) = read_bool(&out, 0).unwrap();
        assert_eq!(back, b);
        assert_eq!(pos, 8);
    }
    let (v, _) = read_bool(&vec![7, 0, 0, 0, 0, 0, 0, 0], 0).unwrap();
    assert!(v);
}

#[test]
fn string_round_trip_every_shape() {
    for s in ["", "a", "hello", "exactly8", "length-divisible", "sixteen chars!!!"] {
        let mut out: Vec<u8> = Vec::new();
        write_string(&mut out, s);
        let (back, pos) = read_string(&out, 0).unwrap();
        assert_eq!(back, s);
        assert_eq!(pos, out.len());
    }
}

#[test]
fn aligned_string_has_no_padding_and_reader_stops() {
    let mut out: Vec<u8> = Vec::new();
    write_string(&mut out, "exactly8");
    assert_eq!(out.len(), 16);
    let mut extended = out.clone();
    extended.extend_from_slice(&[7, 7, 7, 7]);
    let (back, pos) = read_string(&extended, 0).unwrap();
    assert_eq!(back, "exactly8");
    assert_eq!(pos, 16);
}

#[test]
fn non_zero_padding_is_refused() {
    let mut out: Vec<u8> = Vec::new();
    write_string(&mut out, "abc");
    assert_eq!(out.len(), 16);
    out[12] = 1;
    assert!(read_string(&out, 0).is_err());
}

#[test]
fn handshake_magic_and_version_checks() {
    assert!(check_client_magic(WORKER_MAGIC_1).is_ok());
    let wrong = check_client_magic(0xdeadbeef);
    assert!(matches!(wrong, Err(CommandError::InvalidMagic)));

    assert!(check_client_version(0x115).is_ok());
    assert!(check_client_version(0x10a).is_ok());
    let old = check_client_version(0x109);
    assert!(matches!(old, Err(CommandError::InvalidVersion)));
    assert_eq!(old.unwrap_err().get_code(), 2);
}

#[test]
fn stop_work_frames_encode_last_and_error() {
    let done = stop_work_frames(&WorkFinish::Done);
    assert_eq!(done, STDERR_LAST.to_le_bytes().to_vec());

    let err = stop_work_frames(&WorkFinish::Error("boom".to_string(), 1));
    let mut expected = STDERR_ERROR.to_le_bytes().to_vec();
    expected.extend_from_slice(&4u64.to_le_bytes());
    expected.extend_from_slice(b"boom");
    expected.extend_from_slice(&[0, 0, 0, 0]);
    expected.extend_from_slice(&1u64.to_le_bytes());
    assert_eq!(err, expected);
}

#[test]
fn tunnel_request_frames() {
    let frames = tunnel_request(8);
    let mut expected = STDERR_READ.to_le_bytes().to_vec();
    expected.extend_from_slice(&8u64.to_le_bytes());
    assert_eq!(frames, expected);
}

#[test]
fn worker_op_codes() {
    assert_eq!(WorkerOp::from_u32(1), WorkerOp::WopIsValidPath);
    assert_eq!(WorkerOp::from_u32(7), WorkerOp::WopAddToStore);
    assert_eq!(WorkerOp::from_u32(8), WorkerOp::WopAddTextToStore);
    assert_eq!(WorkerOp::from_u32(9), WorkerOp::WopBuildPaths);
    assert_eq!(WorkerOp::from_u32(19), WorkerOp::WopSetOptions);
    assert_eq!(WorkerOp::from_u32(26), WorkerOp::WopQueryPathInfo);
    assert_eq!(WorkerOp::from_u32(39), WorkerOp::WopAddToStoreNar);
    assert_eq!(WorkerOp::from_u32(40), WorkerOp::WopQueryMissing);
    assert_eq!(WorkerOp::from_u32(0), WorkerOp::WopInvalidRequest);
    assert_eq!(WorkerOp::from_u32(99), WorkerOp::WopInvalidRequest);
}

#[test]
fn client_settings_parse() {
    let mut data: Vec<u8> = Vec::new();
    for v in [1u64, 0, 1, 2, 4, 60, 0, 0, 0, 0, 8, 1] {
        data.extend_from_slice(&v.to_le_bytes());
    }
    data.extend_from_slice(&1u64.to_le_bytes());
    write_string(&mut data, "narinfo-cache-negative-ttl");
    write_string(&mut data, "0");

    let (cs, end) = ClientSettings::parse(&data, 0).unwrap();
    assert!(cs.keep_failed);
    assert!(!cs.keep_going);
    assert!(cs.try_fallback);
    assert_eq!(cs.verbosity, Verbosity::LVLInfo);
    assert_eq!(cs.max_build_jobs, 4);
    assert_eq!(cs.max_silent_time, 60);
    assert_eq!(cs.build_cores, 8);
    assert!(cs.use_substitutes);
    assert_eq!(cs.overrides.len(), 1);
    assert_eq!(cs.overrides[0].0, "narinfo-cache-negative-ttl");
    assert_eq!(cs.overrides[0].1, "0");
    assert_eq!(end, data.len());
}

#[test]
fn query_path_info_response_encoding() {
    let store = nixstore::store::MockStore::new();

    let miss = nixstore::wire::encode_query_path_info_response(&store, None);
    assert_eq!(miss, 0u64.to_le_bytes().to_vec());

    let path = nixstore::path::StorePath::new("ffffffffffffffffffffffffffffffff-x").unwrap();
    let digest = nixstore::hash::sha256_digest(b"payload");
    let hash = nixstore::hash::Hash::from_sha256_vec(&digest).unwrap();
    let mut info = nixstore::valid_path::ValidPathInfo::now(path, hash, 42).unwrap();
    info.registration_time = 7;
    info.sigs = vec!["k:v".to_string()];

    let out = nixstore::wire::encode_query_path_info_response(&store, Some(&info));
    let (flag, p0) = read_u64(&out, 0).unwrap();
    assert_eq!(flag, 1);
    let (deriver, p1) = read_string(&out, p0).unwrap();
    assert_eq!(deriver, "");
    let (hash_text, p2) = read_string(&out, p1).unwrap();
    assert_eq!(hash_text.len(), 64);
    let (nrefs, p3) = read_u64(&out, p2).unwrap();
    assert_eq!(nrefs, 0);
    let (reg, p4) = read_u64(&out, p3).unwrap();
    assert_eq!(reg, 7);
    let (size, p5) = read_u64(&out, p4).unwrap();
    assert_eq!(size, 42);
    let (ultimate, p6) = read_u64(&out, p5).unwrap();
    assert_eq!(ultimate, 0);
    let (sigs, p7) = read_strings(&out, p6).unwrap();
    assert_eq!(sigs, vec!["k:v"]);
    let (ca, p8) = read_string(&out, p7).unwrap();
    assert_eq!(ca, "");
    assert_eq!(p8, out.len());
}

#[test]
fn add_to_store_nar_request_decoding_forces_signature_checks() {
    let store = nixstore::store::MockStore::new();

    let mut data: Vec<u8> = Vec::new();
    write_string(&mut data, "/nix/store/ffffffffffffffffffffffffffffffff-x");
    write_string(&mut data, "");
    let digest = nixstore::hash::sha256_digest(b"payload");
    let hex: String = digest.iter().map(|b| format!("{:02x}", b)).collect();
    write_string(&mut data, &hex);
    write_u64(&mut data, 0);
    write_u64(&mut data, 77);
    write_u64(&mut data, 42);
    write_u64(&mut data, 1);
    write_u64(&mut data, 0);
    write_string(&mut data, "");
    write_u64(&mut data, 0);
    write_u64(&mut data, 1);

    let (info, repair, dcs, end) =
        nixstore::wire::decode_add_to_store_nar(&store, &data, 0, false).unwrap();
    assert_eq!(end, data.len());
    assert!(!repair);
    assert!(!dcs, "an untrusted peer may not skip signature checks");
    assert!(!info.ultimate, "an untrusted peer may not claim a trusted record");
    assert_eq!(info.registration_time, 77);
    assert_eq!(info.nar_size, Some(42));

    let (info_t, _, dcs_t, _) =
        nixstore::wire::decode_add_to_store_nar(&store, &data, 0, true).unwrap();
    assert!(dcs_t);
    assert!(info_t.ultimate);
}

#[test]
fn queue_logger_holds_messages_until_drained() {
    let mut logger = nixstore::wire::QueueLogger::new();
    assert!(!logger.can_send());
    logger.enqueu("one".to_string());
    logger.enqueu("two".to_string());
    logger.set_can_send(true);
    assert!(logger.can_send());
    let drained = logger.dequeu();
    assert_eq!(drained, vec!["one", "two"]);
    assert!(logger.dequeu().is_empty());
}

#[test]
fn reader_rejects_truncated_string_list() {
    let mut data: Vec<u8> = Vec::new();
    data.extend_from_slice(&2u64.to_le_bytes());
    write_string(&mut data, "a");
    assert!(nixstore::wire::read_strings(&data, 0).is_err());
}

#[test]
fn framed_source_joins_chunks() {
    let mut data: Vec<u8> = Vec::new();
    data.extend_from_slice(&3u64.to_le_bytes());
    data.extend_from_slice(b"abc");
    data.extend_from_slice(&2u64.to_le_bytes());
    data.extend_from_slice(b"de");
    data.extend_from_slice(&0u64.to_le_bytes());
    let (joined, end) = nixstore::wire::read_framed_source(&data, 0).unwrap();
    assert_eq!(joined, b"abcde".to_vec());
    assert_eq!(end, data.len());

    let truncated = data[0..10].to_vec();
    assert!(nixstore::wire::read_framed_source(&truncated, 0).is_err());
}
