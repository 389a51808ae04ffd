use seam_protocol::cli::bench::{
    self, bar, jitter_grade, loss_grade, next_piece, print_results, stability_grade,
    timeout_lines, total_bytes, Drain, Figures, Pace,
};
use seam_protocol::cli::config::Config;
use seam_protocol::cli::doctor::{
    check_audit, check_binary, check_buffers, check_cc, check_cipher, check_codec, check_config,
    check_config_text, check_connections, check_fec, check_fips, check_identity, check_keys, check_known_hosts,
    check_loopback, check_mtu, check_parsed, check_permissions, check_port, check_relay, check_version,
    conclusion, config_absent, config_unloaded, config_unread, effective_mtu, examine_known_hosts, is_known_key, is_newer, last_stamp,
    looks_like_fingerprint, named_tag, open_to_others, parse_version, relay_host, release_tag, strip_tag, IdentitySeen,
    KnownHostsStatus, Surroundings,
};
use seam_protocol::cli::health::{
    connection_check, echoes, exit_code, fingerprint_check, info_reply, overall, read_info, probe, probe_count, row,
    rtt_check, version_check, CheckStatus, InfoReply,
};
use seam_protocol::cli::key;
use seam_protocol::cli::perf;
use seam_protocol::cli::ping::{
    head_line, next_seq, outcome, outcome_line, tally_line, Outcome, PingStats,
};
use seam_protocol::cli::stats::{flow, print_stats, Event, Flow, Meter, StatsFigures};
use seam_protocol::cli::version::{self, Shaping};
use seam_protocol::handshake::{pk_to_bytes, IdentityKeypair};

fn surroundings() -> Surroundings {
    Surroundings {
        config_path: "/c".to_string(),
        aes_ni: true,
        privileged: false,
        identity_exists: true,
        overhead: "25%".to_string(),
    }
}

#[test]
fn versions_are_ordered() {
    assert_eq!(parse_version("1.2.3"), Some((1, 2, 3)));
    assert!(is_newer("1.2.4", "1.2.3"));
    assert!(is_newer("2.0.0", "1.99.99"));
    assert!(is_newer("1.10.0", "1.9.9"));
    assert!(!is_newer("1.2.3", "1.2.3"));
    assert!(!is_newer("1.2.2", "1.2.3"));
    assert_eq!(strip_tag("v1.0.0"), "1.0.0");
    let f = check_version("1.0.0", &Ok("1.1.0".to_string()));
    assert!(f.lines[0].contains("1.1.0"));
    assert!(!check_version("1.0.0", &Err("offline".to_string())).fatal);
}

#[test]
fn a_default_configuration_passes() {
    let f = check_config(&Config::default(), &surroundings());
    assert!(!f.fatal, "{:?}", f.lines);
    let mut c = Config::default();
    c.cc = "reno".to_string();
    assert!(check_config(&c, &surroundings()).fatal);
    let mut c = Config::default();
    c.cipher = "des".to_string();
    assert!(check_config(&c, &surroundings()).fatal);
}

#[test]
fn findings_of_the_doctor() {
    assert!(!check_binary(&Ok("/usr/bin/seam".to_string())).fatal);
    assert!(!check_cc("bbr").fatal);
    assert!(check_cc("x").fatal);
    assert!(!check_cipher("aes256gcm", false).fatal);
    assert!(check_connections(0).fatal);
    assert!(!check_connections(5).fatal);
    assert!(!check_port(0, false).lines.is_empty() || !check_port(0, false).fatal);
    assert!(!check_fec(Some(8), Some(2), "25%").fatal);
    assert!(!check_buffers(Some((1 << 20, 1 << 20))).fatal);
    assert!(!check_loopback(&Ok(50)).fatal);
    assert!(check_codec(&Err("boom".to_string())).fatal);
    assert!(!check_codec(&Ok(12)).fatal);
    assert!(!check_mtu(&Ok(1400)).lines.is_empty());
    assert!(!check_fips(true).lines.is_empty());
    assert!(!check_permissions(Some(0o600), "/k").fatal);
    assert!(!check_identity(&IdentitySeen::Absent, "/k").fatal);
    assert!(check_identity(&IdentitySeen::Corrupt, "/k").fatal);
    assert!(check_audit("/log", Some(10), None).lines[0].contains("(10 bytes)"));
    assert!(check_audit("/log", None, None).lines[0].contains("not yet created"));
    assert!(is_known_key("cc"));
    assert!(!is_known_key("colour"));
    assert!(check_keys(&vec!["colour".to_string()], "/c").lines[0].contains("colour"));
    assert_eq!(relay_host("u@relay"), "relay");
    assert!(check_relay("u@r", &Ok(12)).lines[0].contains("12"));
    assert!(conclusion(&vec![check_cc("bbr")]).1);
    assert!(!conclusion(&vec![check_cc("bbr"), check_cc("x")]).1);
}

#[test]
fn the_codec_tests_itself() {
    assert!(seam_protocol::fec::self_test::self_test().is_ok());
}

#[test]
fn known_hosts_are_examined() {
    let fp = "a".repeat(64);
    assert!(looks_like_fingerprint(&fp));
    assert!(!looks_like_fingerprint(&"g".repeat(64)));
    assert!(!looks_like_fingerprint(&"a".repeat(63)));
    assert!(matches!(examine_known_hosts("# none\n"), KnownHostsStatus::Empty));
    assert!(matches!(
        examine_known_hosts(&format!("h {fp}\n")),
        KnownHostsStatus::Sound { count: 1 }
    ));
    match examine_known_hosts(&format!("h {fp}\nbad zz\n")) {
        KnownHostsStatus::SuspiciousEntries { hosts } => assert_eq!(hosts.len(), 1),
        other => panic!("{other:?}"),
    }
    assert!(open_to_others(0o644));
    assert!(!open_to_others(0o600));
    assert!(!check_known_hosts(&KnownHostsStatus::Sound { count: 1 }, "/k").fatal);
}

#[test]
fn the_greatest_probe_that_came_back_is_the_mtu() {
    assert_eq!(effective_mtu(&vec![]), 576);
    assert_eq!(effective_mtu(&vec![false, true, true]), 576);
    assert_eq!(effective_mtu(&vec![true, true, true, false]), 1280);
    assert_eq!(effective_mtu(&vec![true; 6]), 1500);
}

#[test]
fn health_checks() {
    let id = IdentityKeypair::generate();
    let ok = connection_check(12);
    assert_eq!(ok.detail, "post-quantum handshake in 12ms");
    let fp = fingerprint_check(Some(id.x25519_public));
    assert_eq!(fp.status, CheckStatus::Pass);
    assert!(fp.detail.starts_with("X25519: "));
    assert_eq!(fingerprint_check(None).status, CheckStatus::Warn);
    let same = version_check(&InfoReply::Version(Some("1.0".to_string())), "1.0");
    assert_eq!((same.status, same.detail.as_str()), (CheckStatus::Pass, "server=1.0 client=1.0"));
    let none = version_check(&InfoReply::Version(None), "1.0");
    assert_eq!(
        (none.status, none.detail.as_str()),
        (CheckStatus::Warn, "server=unknown client=1.0 (mismatch)")
    );
    assert_eq!(version_check(&InfoReply::TimedOut, "1").status, CheckStatus::Fail);
    let bad = version_check(&InfoReply::Unreadable("eof".to_string()), "1");
    assert_eq!(bad.detail, "could not parse info response: eof");
    let lossy = rtt_check(4, 1, 5, "min=1.00ms");
    assert_eq!((lossy.status, lossy.detail.as_str()), (CheckStatus::Warn, "min=1.00ms (4/5 ok)"));
    let dead = rtt_check(0, 5, 5, "");
    assert_eq!((dead.status, dead.detail.as_str()), (CheckStatus::Fail, "all 5 ping(s) failed"));
    assert_eq!(row(&ok), "  [PASS]  connection            post-quantum handshake in 12ms");
    assert_eq!(overall(&vec![ok, none]), CheckStatus::Warn);
    assert_eq!(overall(&vec![lossy, dead]), CheckStatus::Fail);
    assert_eq!(overall(&vec![]), CheckStatus::Pass);
    assert_eq!(exit_code(&vec![connection_check(1)]), 0);
    assert_eq!(exit_code(&vec![rtt_check(0, 1, 1, "")]), 1);
}

#[test]
fn probes_are_echoed() {
    assert_eq!(probe_count(5), 5);
    assert_eq!(probe_count(500), 20);
    assert_eq!(probe(9, 258), vec![9, 0, 0, 1, 2]);
    assert!(echoes(&[0, 0, 1, 2], 258));
    assert!(!echoes(&[0, 0, 1], 258));
    assert_eq!(outcome(false, None, 1), Outcome::SendFailed);
    assert_eq!(outcome(true, Some(&[0, 0, 0, 1]), 1), Outcome::Answered);
    assert_eq!(outcome(true, Some(&[0, 0, 0, 2]), 1), Outcome::Mismatch);
    assert_eq!(outcome(true, None, 1), Outcome::TimedOut);
}

#[test]
fn probes_are_counted() {
    let mut s = PingStats::new();
    s.record(Outcome::Answered);
    s.record(Outcome::TimedOut);
    s.record(Outcome::Mismatch);
    assert_eq!((s.sent, s.received, s.lost), (3, 1, 2));
    assert_eq!(tally_line(&s, "67"), "3 sent, 1 received, 2 lost (67% loss)");
    assert_eq!(next_seq(0, 2), Some(1));
    assert_eq!(next_seq(1, 2), None);
    assert_eq!(next_seq(1000, 0), Some(1001));
    assert_eq!(outcome_line(Outcome::Answered, 3, "1.50"), "seq=3 rtt=1.50ms");
    assert_eq!(outcome_line(Outcome::TimedOut, 3, ""), "seq=3 timeout");
    assert_eq!(head_line("u@h", 1), "PING u@h over Seam (post-quantum UDP)");
    assert!(head_line("u@h", 0).ends_with(" — continuous, Ctrl-C for statistics"));
}

#[test]
fn benchmark_data_comes_in_pieces() {
    assert_eq!(total_bytes(2), 2 * 1024 * 1024);
    let total = 150_000u64;
    let mut sent = 0u64;
    let mut pieces = vec![];
    while sent < total {
        let n = next_piece(total, sent);
        pieces.push(n);
        sent += n;
    }
    assert_eq!(pieces, vec![65536, 65536, 18928]);
    assert_eq!(bench::recv_command(7), "_bench-recv --mib 7 --port 0");
}

#[test]
fn windows_end_after_half_a_second() {
    let mut d = Drain::new();
    let s = d.on_read(100_000_000, 10);
    assert_eq!((s.gap, s.window), (None, None));
    let s = d.on_read(300_000_000, 20);
    assert_eq!((s.gap, s.window), (Some(200_000_000), None));
    let s = d.on_read(500_000_000, 30);
    assert_eq!((s.gap, s.window), (Some(200_000_000), Some((60, 500_000_000))));
    assert_eq!((d.total, d.window_bytes, d.window_start), (60, 0, 500_000_000));
}

#[test]
fn grades() {
    assert_eq!(bar(3, 5), "███░░");
    assert_eq!(bar(9, 2), "██");
    assert_eq!(
        [0, 1, 2, 3, 5, 6].map(loss_grade),
        ["excellent", "good", "good", "fair", "fair", "poor"]
    );
    assert_eq!([0, 1, 4, 5, 19, 20].map(jitter_grade), ["excellent", "good", "good", "fair", "fair", "poor"]);
    assert_eq!([4, 5, 15, 30].map(stability_grade), ["stable", "moderate", "variable", "unstable"]);
    assert!(timeout_lines(None, 0).is_empty());
    assert_eq!(timeout_lines(Some(3), 0).len(), 1);
    assert_eq!(timeout_lines(Some(3), 9)[0], "\n  benchmark timed out after 3s — partial result:");
}

#[test]
fn the_benchmark_report() {
    let lines = print_results(&Figures {
        seam_speed: "800".to_string(),
        seam_gbps: "6.711".to_string(),
        seam_cells: 26,
        scp_cells: 13,
        rsync_cells: 12,
        netcat_cells: 30,
        pace: Pace::Faster("2.0".to_string()),
        mib: 100,
        secs: "0.12".to_string(),
        windows: 3,
        loss: "0.00".to_string(),
        loss_percent: 0,
        jitter: "0.50".to_string(),
        jitter_millis: 0,
        variation: "7.1".to_string(),
        variation_percent: 7,
    });
    assert_eq!(lines.len(), 20);
    assert_eq!(
        lines[4],
        format!("  seam     {}{}       800   6.711 Gbps  ← measured", "█".repeat(26), "░".repeat(6))
    );
    assert_eq!(lines[9], "\n  seam is 2.0× faster than scp on this path");
    assert_eq!(lines[11], "  100 MiB transferred in 0.12s\n");
    assert_eq!(lines[15], "  packet loss (est.)    0.00%   [excellent]");
    assert_eq!(lines[17], "  throughput CV          7.1%   [moderate]");
}

#[test]
fn measurements_end() {
    assert_eq!(flow(1), Flow::Send);
    assert_eq!(flow(2), Flow::Discard);
    assert_eq!(flow(3), Flow::Ignore);
    let mut m = Meter::new();
    m.on_event(Event::Read(100));
    m.on_event(Event::Written(50));
    m.on_event(Event::Read(0));
    assert!(!m.done());
    m.on_event(Event::WriteFailed);
    assert!(m.done());
    assert_eq!((m.received, m.sent), (100, 50));
    let mut m = Meter::new();
    m.on_event(Event::Deadline);
    assert!(m.done());
    m.on_event(Event::Read(5));
    assert!(m.done());
}

#[test]
fn the_statistics_report() {
    let lines = print_stats("u@h", &StatsFigures {
        rtt_millis: "1.5".to_string(),
        download_speed: "10.0".to_string(),
        upload_speed: "5.0".to_string(),
        secs: "5.0".to_string(),
        received: 52_428_800,
        sent: 26_214_400,
        path_mtu: 1400,
        cwnd_bytes: 65536,
    });
    assert_eq!(lines[2], "  Connection statistics: u@h");
    assert_eq!(lines[4], "  Smoothed RTT:                1.5 ms");
    assert_eq!(lines[5], "  Download (recv):             10.0 MiB/s  (50 MiB in 5.0s)");
    assert_eq!(lines[7], "  Path MTU:                    1400 bytes");
    assert_eq!(lines[8], "  cwnd:                        64 KiB");
}

#[test]
fn medians() {
    assert_eq!(perf::median_ns(&vec![5]), 5);
    assert_eq!(perf::median_ns(&vec![9, 1, 5]), 5);
    assert_eq!(perf::median_ns(&vec![4, 1, 3, 2]), 3);
    assert_eq!(perf::median_ns(&vec![7, 7, 7, 1, 1]), 7);
    assert_eq!(perf::row("ML-DSA-65 sign:", "12 ns"), format!("  {:<38} 12 ns", "ML-DSA-65 sign:"));
}

#[test]
fn keys_are_listed() {
    let id = IdentityKeypair::generate();
    let x: String = id.x25519_public.iter().map(|b| format!("{b:02x}")).collect();
    let k: String = pk_to_bytes(&id.kem_pk).iter().map(|b| format!("{b:02x}")).collect();
    let json = key::listing(true, &id.x25519_public, &id.kem_pk, "/id");
    assert_eq!(json[1], format!("  \"x25519\": \"{x}\","));
    assert_eq!(json[2], format!("  \"kem\": \"{k}\","));
    assert_eq!(json[3], "  \"path\": \"/id\"");
    let plain = key::listing(false, &id.x25519_public, &id.kem_pk, "/id");
    assert_eq!(plain[0], "identity key: /id");
    assert_eq!(plain[2], format!("  x25519  {x}"));
    assert_eq!(key::corrupt_message("/id"), "identity key at /id is corrupt");
}

#[test]
fn the_version_report() {
    let off = Shaping { padding: false, cover_kbps: 0, jitter_ms: 0, obfuscate: false };
    let on = Shaping { padding: true, cover_kbps: 64, jitter_ms: 5, obfuscate: true };
    assert_eq!(version::summary(&off), "none (all disabled)");
    assert_eq!(
        version::summary(&on),
        "size-class padding, cover traffic, timing jitter, header obfuscation"
    );
    let lines = version::report("0.1.0", "unknown", &on);
    assert_eq!(lines[0], "seam 0.1.0");
    assert_eq!(lines[1], "Build date   : unknown");
    assert!(lines.contains(&"  cover traffic      : 64 kbps constant rate".to_string()));
    assert_eq!(lines.len(), 16);
    assert_eq!(version::report("0.1.0", "unknown", &off).len(), 12);
    let json: serde_json::Value =
        serde_json::from_str(&version::json("0.1.0", "today", &on)).unwrap();
    assert_eq!(json["version"].as_str(), Some("0.1.0"));
    assert_eq!(json["cipher_suites"][1].as_str(), Some("aes256gcm"));
    assert_eq!(
        json["traffic_analysis_resistance"]["cover_traffic_kbps"].as_u64(),
        Some(64)
    );
    assert_eq!(
        json["traffic_analysis_resistance"]["size_class_padding"].as_bool(),
        Some(true)
    );
}

#[test]
fn configuration_texts_are_examined() {
    let f = check_config_text("cc = \"bbr\"\ncompress = true\n", "/c");
    assert!(f.lines.is_empty() && !f.fatal);
    let f = check_config_text("zeta = 1\ncc = \"bbr\"\nalpha = 2\n[mid]\nx = 3\n", "/c");
    assert!(!f.fatal);
    assert_eq!(f.lines[0], "  !  config at /c has unknown key(s): alpha, mid, zeta");
    assert!(f.lines[1].starts_with("     valid keys: cc, compress, identity, cipher,"));
    assert!(check_config_text("", "/c").lines.is_empty());
    let f = check_config_text("cc = ", "/c");
    assert!(f.fatal);
    assert!(f.lines[0].starts_with("  ✗  config parse error: TOML parse error at line 1"));
    assert_eq!(f.lines[1], "     fix: seam config init  (or edit /c)");
}

#[test]
fn missing_configurations_are_reported() {
    let absent = config_absent("/c");
    assert_eq!(absent.lines, vec!["  ·  no config file — using defaults (/c)".to_string()]);
    assert!(!absent.fatal);
    let unread = config_unread("/c", "denied");
    assert_eq!(unread.lines, vec!["  ✗  cannot read config /c: denied".to_string()]);
    assert!(unread.fatal);
    let unloaded = config_unloaded("bad");
    assert_eq!(unloaded.lines, vec!["  ✗  config load failed: bad".to_string()]);
    assert!(unloaded.fatal);
}

#[test]
fn parsed_configurations_are_examined() {
    let none = check_parsed(&Ok(None), "/c");
    assert_eq!(none.lines, vec!["  ✗  config is not a TOML table: /c".to_string()]);
    assert!(none.fatal);
    let keys = ["b", "cc", "c", "a", "b"].iter().map(|k| k.to_string()).collect();
    let f = check_parsed(&Ok(Some(keys)), "/c");
    assert_eq!(f.lines[0], "  !  config at /c has unknown key(s): a, b, b, c");
    let bad = check_parsed(&Err("why".to_string()), "/c");
    assert_eq!(bad.lines[0], "  ✗  config parse error: why");
    assert!(bad.fatal);
}

#[test]
fn the_last_entry_of_the_log_has_a_time() {
    let line = b"{\"ts\":\"2026-05-04T13:37:00Z\",\"pid\":7}";
    assert_eq!(last_stamp(line), Some("2026-05-04T13:37:00Z".to_string()));
    assert_eq!(last_stamp(b"{\"ts\":7}"), None);
    assert_eq!(last_stamp(b"{\"pid\":7}"), None);
    assert_eq!(last_stamp(b"[1, 2]"), None);
    assert_eq!(last_stamp(b"{\"ts\":"), None);
    assert_eq!(last_stamp(b""), None);
}

#[test]
fn releases_are_named_by_their_tags() {
    assert_eq!(release_tag(b"{\"tag_name\": \"v1.2.3\"}"), Ok("1.2.3".to_string()));
    assert_eq!(release_tag(b"{\"name\": 1}"), Err("no tag_name in response".to_string()));
    let why = release_tag(b"<html>").unwrap_err();
    assert_eq!(why, "Failed to read JSON: expected value at line 1 column 1");
    assert_eq!(named_tag(Ok(Some("vv2".to_string()))), Ok("2".to_string()));
    assert_eq!(named_tag(Err("x".to_string())), Err("Failed to read JSON: x".to_string()));
}

#[test]
fn information_replies_are_read() {
    let named = read_info(b"{\"version\": \"1.0\", \"pty\": true}");
    assert!(matches!(&named, InfoReply::Version(Some(v)) if v == "1.0"));
    assert!(matches!(read_info(b"{\"version\": 1}"), InfoReply::Version(None)));
    assert!(matches!(read_info(b"{}"), InfoReply::Version(None)));
    let bad = read_info(b"");
    let InfoReply::Unreadable(why) = &bad else { panic!("an empty reply was read") };
    assert_eq!(why, "EOF while parsing a value at line 1 column 0");
    let said = version_check(&bad, "1.0");
    assert_eq!(
        said.detail,
        "could not parse info response: EOF while parsing a value at line 1 column 0"
    );
    assert!(matches!(info_reply(Ok(None)), InfoReply::Version(None)));
    assert!(matches!(info_reply(Err("x".to_string())), InfoReply::Unreadable(w) if w == "x"));
}
