use seam_protocol::cli::audit::{
    confirmed, days_to_ymd, fits, header, keeps, last_line, line_count, now_rfc3339, row, shorten,
    show_exit, shown, tail_start, AuditRecord,
};
use seam_protocol::cli::calendar::rfc3339;

fn record(ts: &str, remote: &str) -> AuditRecord {
    AuditRecord {
        ts: ts.to_string(),
        subcommand: "shell".to_string(),
        remote: remote.to_string(),
        exit_code: Some(0),
        bytes_tx: None,
        fips_mode: false,
        pid: 7,
    }
}

#[test]
fn rfc3339_format_looks_right() {
    let ts = now_rfc3339();
    assert_eq!(ts.len(), 20, "unexpected timestamp length: {ts}");
    assert!(ts.ends_with('Z'));
    assert!(ts.contains('T'));
    assert!(ts.starts_with("20"), "unexpected year: {ts}");
}

#[test]
fn days_to_ymd_epoch() {
    let (y, m, d) = days_to_ymd(0);
    assert_eq!((y, m, d), (1970, 1, 1));
}

#[test]
fn days_to_ymd_known_date() {
    let (y, m, d) = days_to_ymd(19797);
    assert_eq!((y, m, d), (2024, 3, 15));
}

#[test]
fn leap_days_are_counted() {
    assert_eq!(days_to_ymd(11016), (2000, 2, 29));
    assert_eq!(days_to_ymd(11017), (2000, 3, 1));
    assert_eq!(days_to_ymd(19782), (2024, 2, 29));
    assert_eq!(days_to_ymd(47540), (2100, 2, 28));
    assert_eq!(days_to_ymd(47541), (2100, 3, 1));
    assert_eq!(days_to_ymd(364), (1970, 12, 31));
}

#[test]
fn consecutive_days_have_consecutive_dates() {
    let mut last = days_to_ymd(0);
    for day in 1..40000u64 {
        let now = days_to_ymd(day);
        assert!(now > last);
        last = now;
    }
}

#[test]
fn seconds_become_a_timestamp() {
    assert_eq!(rfc3339(0), "1970-01-01T00:00:00Z");
    assert_eq!(rfc3339(1_710_506_096), "2024-03-15T12:34:56Z");
}

#[test]
fn filters_keep_what_they_name() {
    let rec = record("2026-05-01T10:00:00Z", "root@alpha.example");
    assert!(keeps(&rec, None, None));
    assert!(keeps(&rec, Some("2026-05-01"), None));
    assert!(keeps(&rec, Some("2026-04"), None));
    assert!(!keeps(&rec, Some("2026-05-02"), None));
    assert!(keeps(&rec, None, Some("alpha")));
    assert!(!keeps(&rec, None, Some("beta")));
    assert!(!keeps(&rec, Some("2026-05-02"), Some("alpha")));
}

#[test]
fn the_last_matching_records_are_shown() {
    let records = vec![
        record("2026-01-01T00:00:00Z", "a@one"),
        record("2026-01-02T00:00:00Z", "a@two"),
        record("2026-01-03T00:00:00Z", "a@one"),
        record("2026-01-04T00:00:00Z", "a@one"),
    ];
    assert_eq!(shown(&records, 0, None, None), vec![0, 1, 2, 3]);
    assert_eq!(shown(&records, 2, None, None), vec![2, 3]);
    assert_eq!(shown(&records, 9, None, Some("one")), vec![0, 2, 3]);
    assert_eq!(shown(&records, 2, None, Some("one")), vec![2, 3]);
    assert_eq!(shown(&records, 2, Some("2026-01-04"), None), vec![3]);
}

#[test]
fn exit_codes_are_shown() {
    assert_eq!(show_exit(Some(0)), "ok");
    assert_eq!(show_exit(Some(-3)), "err(-3)");
    assert_eq!(show_exit(Some(i32::MIN)), "err(-2147483648)");
    assert_eq!(show_exit(None), "-");
}

#[test]
fn long_remotes_are_cut() {
    let long = "a".repeat(29);
    assert!(fits(&long));
    assert_eq!(shorten(&long), format!("{}…", "a".repeat(27)));
    assert_eq!(shorten(&"b".repeat(28)), "b".repeat(28));
    let wide = "é".repeat(20);
    assert!(!fits(&wide));
}

#[test]
fn rows_line_up_with_the_header() {
    let rec = record("2026-05-01T10:00:00Z", "root@alpha");
    let line = row(&rec, "1.5 KiB");
    let head = header();
    assert_eq!(
        line,
        "2026-05-01T10:00:00Z      shell      root@alpha                   ok     1.5 KiB    no"
    );
    assert_eq!(head.find("remote"), line.find("root@alpha"));
    assert_eq!(head.find("fips"), line.rfind("no"));
}

#[test]
fn only_yes_clears_the_log() {
    assert!(confirmed(" yes\n"));
    assert!(!confirmed("y"));
    assert!(!confirmed("YES"));
    assert!(!confirmed(""));
}

#[test]
fn log_lines_are_counted() {
    assert_eq!(line_count(""), 0);
    assert_eq!(line_count("a\nb\n"), 2);
    assert_eq!(line_count("a\r\nb"), 2);
}

#[test]
fn the_tail_of_the_log_is_read() {
    assert_eq!(tail_start(100), 0);
    assert_eq!(tail_start(2048), 0);
    assert_eq!(tail_start(5000), 2952);
    assert_eq!(last_line("cut}\n{\"a\":1}\n{\"b\":2}\n"), "{\"b\":2}");
}

#[test]
fn times_have_a_form_and_sort() {
    assert_eq!(rfc3339(1_710_464_461), "2024-03-15T01:01:01Z");
    assert_eq!(rfc3339(253_402_300_799), "9999-12-31T23:59:59Z");
    let mut earlier = String::new();
    for secs in [0u64, 1, 59, 60, 3599, 86_399, 86_400, 951_782_400, 951_868_800, 4_102_444_800] {
        let t = rfc3339(secs);
        assert_eq!(t.len(), 20);
        assert!(earlier < t);
        earlier = t;
    }
}
