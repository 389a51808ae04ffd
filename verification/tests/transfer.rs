use seam_protocol::cli::copy::{
    after_verdict, algorithm, checksum_frame, corrupt_message, data_frame, direction,
    parse_data_frame, recv_command, resume_frame, resume_plan, send_command, sender_verdict,
    start_offset, Direction, FileReceiver, IncrementalHasher, ResumePlan, StagedFile, TokenBucket,
    Verdict,
};
use seam_protocol::cli::proto::{
    file_info, hello, is_dangerous, parse_file_info, parse_hello, pull_step, PullStep, ACK,
    CHECKSUM, DATA, DONE, FILE_INFO, RESUME,
};
use seam_protocol::cli::recv::{
    check_hello, partial_name, received_checked, received_unchecked, resume_notice,
};
use seam_protocol::cli::sync::{
    cached_to_manifest, decode_manifest, delete_frame, delete_step, encode_manifest, file_data,
    file_header, files_to_delete, files_to_send, format_duration, manifest_cache_key,
    parse_file_header, safe_host, sync_step, to_cached, total_size, CachedEntry,
    DeleteStep, ManifestEntry, SyncReceiver, SYNC_DELETE, SYNC_DONE, SYNC_FILE,
    SYNC_FILE_ACK, SYNC_FILE_DATA, SYNC_MANIFEST,
};
use seam_protocol::cli::sync;

fn digest_of(fips: bool, data: &[u8]) -> [u8; 32] {
    let mut h = IncrementalHasher::new(fips);
    h.update(data);
    h.finalize()
}

fn hex(bytes: &[u8]) -> String {
    bytes.iter().map(|b| format!("{b:02x}")).collect()
}

#[test]
fn hashers_give_the_known_digests() {
    assert_eq!(
        hex(&digest_of(true, b"abc")),
        "ba7816bf8f01cfea414140de5dae2223b00361a396177a9cb410ff61f20015ad"
    );
    assert_eq!(
        hex(&digest_of(false, b"")),
        "af1349b9f5f9a1a6a0404dea36dcc9499bcb25c9adc112b7cc9a93cae41f3262"
    );
    assert_eq!(algorithm(true), "SHA-256");
    assert_eq!(algorithm(false), "BLAKE3");
}

#[test]
fn hashing_in_pieces_is_hashing_at_once() {
    for fips in [true, false] {
        let mut h = IncrementalHasher::new(fips);
        h.update(b"hello ");
        h.update(b"world");
        assert_eq!(h.finalize(), digest_of(fips, b"hello world"));
    }
}

#[test]
fn data_frames_are_read_back() {
    let data = vec![7u8; 5000];
    for compress in [true, false] {
        let f = data_frame(&data, compress).unwrap();
        assert_eq!(f[0], DATA);
        assert_eq!(f.len() < 5000, compress);
        assert_eq!(parse_data_frame(&f, compress), Ok(data.clone()));
    }
    assert_eq!(parse_data_frame(&[], false), Err("expected DATA frame".to_string()));
    assert_eq!(parse_data_frame(&[ACK], false), Err("expected DATA frame".to_string()));
    assert_eq!(
        parse_data_frame(&[DATA, 1, 2, 3], true).unwrap_err(),
        zstd::decode_all(&[1u8, 2, 3][..]).unwrap_err().to_string()
    );
}

#[test]
fn transfers_resume_where_they_stopped() {
    assert!(matches!(resume_plan(false, 10, 100), ResumePlan::Fresh));
    assert!(matches!(resume_plan(true, 10, 100), ResumePlan::From(10)));
    assert!(matches!(resume_plan(true, 0, 100), ResumePlan::Restart | ResumePlan::Fresh));
    assert!(matches!(resume_plan(true, 100, 100), ResumePlan::Restart));
    let f = resume_frame(10);
    assert_eq!(f[0], RESUME);
    assert_eq!(start_offset(&f, 100), 10);
    assert_eq!(start_offset(&[ACK], 100), 0);
}

#[test]
fn a_sound_file_is_accepted() {
    for fips in [true, false] {
        for compress in [true, false] {
            let mut r = FileReceiver::new(8, 0, compress, fips);
            assert!(!r.complete());
            assert_eq!(r.on_frame(&data_frame(b"12345", compress).unwrap()), Ok(b"12345".to_vec()));
            assert_eq!(r.on_frame(&data_frame(b"678", compress).unwrap()), Ok(b"678".to_vec()));
            assert!(r.complete());
            let v = r.check(&checksum_frame(&digest_of(fips, b"12345678")));
            assert!(matches!(v, Verdict::Sound));
            assert!(matches!(after_verdict(&v, true), StagedFile::Promote));
            assert!(matches!(after_verdict(&v, false), StagedFile::Keep));
        }
    }
}

#[test]
fn a_corrupt_file_is_removed() {
    let mut r = FileReceiver::new(3, 0, false, true);
    r.on_frame(&data_frame(b"abd", false).unwrap()).unwrap();
    let good = digest_of(true, b"abc");
    let v = r.check(&checksum_frame(&good));
    match &v {
        Verdict::Corrupt { expected, actual } => {
            assert_eq!(*expected, good);
            assert_eq!(*actual, digest_of(true, b"abd"));
            assert_eq!(
                corrupt_message(true, "f", expected, actual, true),
                format!(
                    "SHA-256 integrity check FAILED for f: expected {} got {} — partial deleted, retry transfer",
                    hex(expected),
                    hex(actual)
                )
            );
        }
        _ => panic!(),
    }
    assert!(matches!(after_verdict(&v, true), StagedFile::Remove));
}

#[test]
fn a_file_without_a_digest_is_kept() {
    let r = FileReceiver::new(0, 0, false, false);
    assert!(r.complete());
    let v = r.check(&[DONE]);
    assert!(matches!(v, Verdict::Unchecked));
    assert!(matches!(after_verdict(&v, true), StagedFile::Promote));
}

#[test]
fn refused_frames_change_nothing() {
    let mut r = FileReceiver::new(3, 0, false, false);
    assert!(r.on_frame(&[ACK]).is_err());
    assert_eq!(r.on_frame(&data_frame(b"abc", false).unwrap()), Ok(b"abc".to_vec()));
    assert!(matches!(
        r.check(&checksum_frame(&digest_of(false, b"abc"))),
        Verdict::Sound
    ));
}

#[test]
fn senders_need_an_acknowledgement() {
    assert_eq!(sender_verdict(&[ACK], "f", false), Ok(()));
    assert!(sender_verdict(&[], "f", false).unwrap_err().contains("f"));
    assert!(sender_verdict(&[DONE], "f", true).is_err());
}

#[test]
fn copies_go_one_way() {
    assert!(matches!(direction(false, true), Ok(Direction::Push)));
    assert!(matches!(direction(true, false), Ok(Direction::Pull)));
    assert!(direction(true, true).is_err());
    assert!(direction(false, false).is_err());
    assert!(send_command("a b", true).contains("'a b'"));
    assert!(recv_command("a b", true).contains("'a b'"));
}

#[test]
fn buckets_fill_and_drain() {
    let mut b = TokenBucket::new(8000);
    assert_eq!(b.rate_bps(), 8000);
    let full = {
        let mut probe = TokenBucket::new(8000);
        let mut n: u64 = 0;
        while probe.consume(0, 1) == 0 {
            n += 1;
        }
        n
    };
    assert!(full > 0);
    assert_eq!(b.consume(0, full), 0);
    assert_eq!(b.consume(0, 5), 5);
}

#[test]
fn hellos() {
    assert_eq!(parse_hello(&hello(true)), Ok(true));
    assert_eq!(parse_hello(&hello(false)), Ok(false));
    assert_eq!(parse_hello(&[0xab]), Err("expected HELLO from remote sender".to_string()));
    assert_eq!(check_hello(&hello(true)), Ok(true));
    assert_eq!(check_hello(&hello(false)), Ok(false));
    assert_eq!(check_hello(&[0xab]), Err("expected HELLO, got ab".to_string()));
    assert_eq!(check_hello(&[]), Err("expected HELLO, got 00".to_string()));
}

#[test]
fn frames_between_files() {
    assert!(matches!(pull_step(&[FILE_INFO]), Ok(PullStep::File)));
    assert!(matches!(pull_step(&[DONE]), Ok(PullStep::Done)));
    assert_eq!(pull_step(&[]).unwrap_err(), "empty frame");
    assert_eq!(pull_step(&[0xee]).unwrap_err(), "unexpected frame type 0xee");
}

#[test]
fn file_announcements() {
    let f = file_info(1234, "dir/a.txt");
    let info = parse_file_info(&f).unwrap();
    assert_eq!((info.size, info.name.as_str()), (1234, "dir/a.txt"));
    assert_eq!(parse_file_info(&f[..10]).unwrap_err(), "FILE_INFO too short");
    assert_eq!(parse_file_info(&f[..12]).unwrap_err(), "FILE_INFO name truncated");
    assert_eq!(
        parse_file_info(&file_info(1, "../x")).unwrap_err(),
        "refusing dangerous filename: ../x"
    );
    assert_eq!(
        parse_file_info(&file_info(1, "/etc/passwd")).unwrap_err(),
        "refusing dangerous filename: /etc/passwd"
    );
    assert!(is_dangerous("a/..b"));
    assert!(!is_dangerous("a/.b"));
}

#[test]
fn receivers_report() {
    assert_eq!(partial_name("a"), "a.seam-partial");
    assert_eq!(
        resume_notice("a", 5, 9),
        "  resuming a: found 5 of 9 bytes in partial file"
    );
    assert_eq!(
        received_checked("a", 3, true, &[0x1f; 32]),
        "received: a (3 bytes) [SHA-256 OK: 1f1f1f1f1f1f1f1f]"
    );
    assert_eq!(received_unchecked("a", 3), "received: a (3 bytes) [no integrity check]");
}

fn entry(path: &str, size: u64, fill: u8) -> ManifestEntry {
    ManifestEntry { path: path.to_string(), size, hash: [fill; 32] }
}

#[test]
fn manifests_are_read_back() {
    let list = vec![entry("a", 1, 2), entry("dir/ü", 99, 3), entry("", 0, 0)];
    let bytes = encode_manifest(&list);
    assert_eq!(bytes[0], SYNC_MANIFEST);
    assert_eq!(&bytes[1..5], &[0, 0, 0, 3]);
    assert_eq!(bytes.len(), 5 + (44 + 1) + (44 + 6) + 44);
    for cut in 0..bytes.len() {
        assert!(decode_manifest(&bytes[..cut]).is_err());
    }
    let back = decode_manifest(&bytes).unwrap();
    assert_eq!(back.len(), 3);
    for (x, y) in list.iter().zip(back.iter()) {
        assert_eq!((&x.path, x.size, x.hash), (&y.path, y.size, y.hash));
    }
}

#[test]
fn broken_manifests() {
    let why = |data: &[u8]| decode_manifest(data).unwrap_err();
    let bytes = encode_manifest(&vec![entry("ab", 1, 2)]);
    assert_eq!(why(&[]), "expected SYNC_MANIFEST frame");
    assert_eq!(why(&[SYNC_FILE]), "expected SYNC_MANIFEST frame");
    assert_eq!(why(&bytes[..4]), "manifest too short");
    assert_eq!(why(&bytes[..8]), "manifest truncated at path_len");
    assert_eq!(why(&bytes[..20]), "manifest truncated at path");
    let mut bad = bytes.clone();
    bad[9] = 0xff;
    assert_eq!(why(&bad), String::from_utf8(vec![0xff, b'b']).unwrap_err().to_string());
}

#[test]
fn only_differences_are_sent() {
    let here = vec![entry("same", 1, 1), entry("changed", 20, 2), entry("new", 300, 3)];
    let there = vec![entry("same", 1, 1), entry("changed", 20, 9), entry("gone", 7, 7)];
    let send = files_to_send(&here, &there);
    assert_eq!(send, vec![1, 2]);
    assert_eq!(total_size(&here, &send), 320);
    assert_eq!(files_to_delete(&there, &here), vec![2]);
    assert!(files_to_send(&here, &here).is_empty());
    assert!(files_to_delete(&here, &here).is_empty());
}

#[test]
fn the_last_of_two_equal_paths_counts() {
    let here = vec![entry("p", 1, 5)];
    let there = vec![entry("p", 1, 5), entry("p", 1, 6)];
    assert_eq!(files_to_send(&here, &there), vec![0]);
}

#[test]
fn synced_files_are_announced_and_checked() {
    let (path, size) = parse_file_header(&file_header("d/f", 3)).unwrap();
    assert_eq!((path.as_str(), size), ("d/f", 3));
    for compress in [true, false] {
        let mut r = SyncReceiver::new(&path, size, compress, false);
        assert_eq!(r.on_frame(&file_data(b"abc", compress).unwrap()), Ok(b"abc".to_vec()));
        assert!(r.complete());
        assert_eq!(r.check(&checksum_frame(&digest_of(false, b"abc"))), Ok(()));
    }
}

#[test]
fn sync_faults() {
    assert_eq!(parse_file_header(&[SYNC_FILE; 5]).unwrap_err(), "sync file header too short");
    let f = file_header("long/path", 1);
    assert_eq!(parse_file_header(&f[..14]).unwrap_err(), "sync file header truncated");
    assert_eq!(
        parse_file_header(&file_header("../x", 1)).unwrap_err(),
        "refusing dangerous path: ../x"
    );
    let mut r = SyncReceiver::new("f", 3, false, true);
    assert_eq!(
        r.on_frame(&[]).unwrap_err(),
        "sync: unexpected empty frame while receiving f"
    );
    assert_eq!(
        r.on_frame(&[CHECKSUM]).unwrap_err(),
        "sync: received CHECKSUM before all data for f"
    );
    assert_eq!(
        r.on_frame(&[0x99]).unwrap_err(),
        "sync: expected SYNC_FILE_DATA, got 0x99"
    );
    assert_eq!(r.on_frame(&[SYNC_FILE_DATA, 1, 2, 3]), Ok(vec![1, 2, 3]));
    assert_eq!(
        r.check(&checksum_frame(&[0; 32])).unwrap_err(),
        "sync: SHA-256 mismatch for f"
    );
    let r = SyncReceiver::new("f", 0, false, false);
    assert_eq!(r.check(&[CHECKSUM]).unwrap_err(), "sync: expected CHECKSUM frame");
    assert_eq!(
        sync::sender_verdict(&[0], "f").unwrap_err(),
        "sync: integrity check failed for f"
    );
    assert_eq!(sync::sender_verdict(&[SYNC_FILE_ACK], "f"), Ok(()));
}

#[test]
fn sync_steps() {
    assert!(matches!(sync_step(&[SYNC_FILE], "sync"), Ok(PullStep::File)));
    assert!(matches!(sync_step(&[SYNC_DONE], "sync"), Ok(PullStep::Done)));
    assert_eq!(sync_step(&[], "sync-recv").unwrap_err(), "sync-recv: unexpected empty frame");
    assert_eq!(sync_step(&[0x7f], "sync").unwrap_err(), "sync: unexpected frame 0x7f");
}

#[test]
fn deletions() {
    match delete_step(&delete_frame("old/file")) {
        Ok(DeleteStep::Remove(p)) => assert_eq!(p, "old/file"),
        _ => panic!(),
    }
    assert!(matches!(delete_step(&delete_frame("../x")), Ok(DeleteStep::Skip)));
    assert!(matches!(delete_step(&delete_frame("/x")), Ok(DeleteStep::Skip)));
    assert!(matches!(delete_step(&[SYNC_DELETE, 0, 0]), Ok(DeleteStep::Skip)));
    assert!(matches!(delete_step(&[SYNC_DELETE, 0, 0, 0, 9, 65]), Ok(DeleteStep::Skip)));
    assert!(matches!(delete_step(&[SYNC_DONE]), Ok(DeleteStep::Done)));
    assert!(matches!(delete_step(&[0x55]), Ok(DeleteStep::Skip)));
    assert_eq!(
        delete_step(&[SYNC_DELETE, 0, 0, 0, 1, 0xff]).unwrap_err(),
        String::from_utf8(vec![0xff]).unwrap_err().to_string()
    );
    assert_eq!(
        delete_step(&[]).unwrap_err(),
        "sync-recv: unexpected empty frame in delete phase"
    );
}

#[test]
fn cache_names() {
    assert_eq!(manifest_cache_key("a", "b"), "6783a31eabf68ccc");
    assert_ne!(manifest_cache_key("host", "/x"), manifest_cache_key("host", "/y"));
    assert_eq!(safe_host("ho-st.1"), "ho-st.1");
    assert_eq!(safe_host("a/b:c@d"), "a_b_c_d");
    assert_eq!(safe_host("münchen"), "münchen");
}

#[test]
fn caches_are_read_back() {
    let list = vec![entry("a", 1, 0xab), entry("b", 2, 0x01)];
    let mut cached = to_cached(&list);
    assert_eq!(cached[0].hash_hex, "ab".repeat(32));
    assert_eq!(cached[0].mtime_sec, 0);
    cached.push(CachedEntry {
        path: "short".to_string(),
        size: 1,
        hash_hex: "abcd".to_string(),
        mtime_sec: 0,
    });
    cached.push(CachedEntry {
        path: "odd".to_string(),
        size: 1,
        hash_hex: "zz".repeat(32),
        mtime_sec: 0,
    });
    let back = cached_to_manifest(&cached);
    assert_eq!(back.len(), 2);
    assert_eq!((back[1].path.as_str(), back[1].size, back[1].hash), ("b", 2, [1; 32]));
}

#[test]
fn durations() {
    assert_eq!(format_duration(59), "59s");
    assert_eq!(format_duration(60), "1m");
    assert_eq!(format_duration(3599), "59m");
    assert_eq!(format_duration(7200), "2h");
    assert_eq!(format_duration(86400 * 3 + 5), "3d");
}

#[test]
fn sync_commands() {
    assert_eq!(
        sync::recv_command("/srv/x", true, true),
        "_sync-recv '/srv/x' --port 0 --direction push --delete"
    );
    assert_eq!(
        sync::recv_command("/srv/x", false, false),
        "_sync-recv '/srv/x' --port 0 --direction pull"
    );
    assert_eq!(
        sync::direction(true, true).unwrap_err(),
        "both source and destination cannot be remote"
    );
    assert!(matches!(sync::direction(false, true), Ok(Direction::Push)));
}
