use seam_protocol::cli::config::{parse_relays, unknown_key, Config};
use seam_protocol::cli::known_hosts::PinPolicy;
use seam_protocol::cli::options::{
    check_cipher, log_level, logged, logged_end, logged_exit, pin_policy, LogLevel,
};

#[test]
fn defaults() {
    let c = Config::default();
    assert_eq!(c.cc, "cubic");
    assert!(c.compress);
    assert_eq!(c.identity, None);
    assert_eq!(c.cipher, "chacha20poly1305");
    assert_eq!(c.max_connections, 1024);
    assert_eq!(c.listen_port, 0);
    assert_eq!(c.fec_k, None);
    assert_eq!(c.fec_r, None);
    assert!(!c.fips_mode);
    assert!(c.relays.is_empty());
}

#[test]
fn values_are_set_and_shown() {
    let mut c = Config::default();
    for (key, value) in [
        ("cc", "bbr"),
        ("compress", "false"),
        ("identity", "/tmp/id"),
        ("cipher", "aes256gcm"),
        ("max_connections", "12"),
        ("listen_port", "4433"),
        ("fec_k", "8"),
        ("fec_r", "2"),
        ("fips_mode", "true"),
    ] {
        assert_eq!(c.set(key, value), Ok(()));
        assert_eq!(c.get(key, "/usual"), Ok(vec![value.to_string()]));
    }
    assert_eq!(c.set("relays", " a@b , ,c@d"), Ok(()));
    assert_eq!(c.get("relays", ""), Ok(vec!["a@b".to_string(), "c@d".to_string()]));
    assert_eq!(c.set("relays", "  "), Ok(()));
    assert_eq!(c.get("relays", ""), Ok(vec![]));
    assert_eq!(c.set("fec_k", "auto"), Ok(()));
    assert_eq!(c.get("fec_k", ""), Ok(vec!["auto".to_string()]));
    assert_eq!(c.set("fec_k", "0"), Ok(()));
    assert_eq!(c.fec_k, Some(0));
}

#[test]
fn wrong_values_are_refused_and_change_nothing() {
    let mut c = Config::default();
    for (key, value, why) in [
        ("cc", "reno", "cc must be 'cubic' or 'bbr'"),
        ("compress", "yes", "compress must be true or false"),
        ("cipher", "des", "cipher must be 'chacha20poly1305' or 'aes256gcm'"),
        ("max_connections", "0", "max_connections must be at least 1"),
        ("max_connections", "many", "max_connections must be a positive integer"),
        ("listen_port", "65536", "listen_port must be 0–65535"),
        ("fec_k", "1", "fec_k must be 0 (disabled/auto) or ≥ 2"),
        ("fec_k", "256", "fec_k must be 0–255 or 'auto'"),
        ("fec_r", "0", "fec_r must be ≥ 1 when set (or use 'auto')"),
        ("fec_r", "x", "fec_r must be 1–255 or 'auto'"),
        ("fips_mode", "1", "fips_mode must be true or false"),
    ] {
        assert_eq!(c.set(key, value), Err(why.to_string()), "{key}={value}");
    }
    assert_eq!(c.set("colour", "red"), Err(unknown_key("colour")));
    assert_eq!(c.get("colour", ""), Err(unknown_key("colour")));
    assert!(unknown_key("colour").starts_with("unknown config key: colour\n  valid keys: cc,"));
    assert_eq!(c.cc, "cubic");
    assert_eq!(c.max_connections, 1024);
}

#[test]
fn the_identity_has_a_usual_place() {
    let mut c = Config::default();
    assert_eq!(c.identity_path("/usual"), "/usual");
    c.identity = Some("/other".to_string());
    assert_eq!(c.identity_path("/usual"), "/other");
}

#[test]
fn fips_mode_is_asked_for_in_three_places() {
    assert!(!Config::effective_fips_mode(false, false, None));
    assert!(Config::effective_fips_mode(true, false, None));
    assert!(Config::effective_fips_mode(false, true, None));
    assert!(Config::effective_fips_mode(false, false, Some("1")));
    assert!(Config::effective_fips_mode(false, false, Some("TRUE")));
    assert!(!Config::effective_fips_mode(false, false, Some("0")));
    assert!(Config::fips_banner().contains("AES-256-GCM"));
}

#[test]
fn relays_lose_blanks_and_empty_entries() {
    assert_eq!(parse_relays("a@b,,  c@d  ,"), vec!["a@b", "c@d"]);
    assert!(parse_relays(" , ").is_empty());
}

#[test]
fn the_listing_shows_every_value() {
    let mut c = Config::default();
    assert_eq!(c.set("relays", "a@b,\"q\""), Ok(()));
    let lines = c.listing("/etc/seam", "/usual/id");
    assert_eq!(
        lines,
        vec![
            "# config path: /etc/seam",
            "",
            "cc              = cubic",
            "compress        = true",
            "identity        = /usual/id",
            "cipher          = chacha20poly1305",
            "max_connections = 1024",
            "listen_port     = 0 (OS-assigned)",
            "fec_k           = auto",
            "fec_r           = auto",
            "fips_mode       = false",
            "relays          = [\"a@b\", \"\\\"q\\\"\"]",
        ]
    );
    assert_eq!(Config::default().listing("", "").last().unwrap(), "relays          = []");
}

#[test]
fn verbosity_goes_up() {
    assert_eq!(log_level(0), LogLevel::Warn);
    assert_eq!(log_level(1), LogLevel::Info);
    assert_eq!(log_level(2), LogLevel::Debug);
    assert_eq!(log_level(3), LogLevel::Trace);
    assert_eq!(log_level(255), LogLevel::Trace);
}

#[test]
fn fips_mode_refuses_chacha() {
    assert_eq!(check_cipher(true, Some("aes256gcm")), Ok(()));
    assert_eq!(check_cipher(true, None), Ok(()));
    assert_eq!(check_cipher(false, Some("chacha20poly1305")), Ok(()));
    let why = check_cipher(true, Some("chacha20poly1305")).unwrap_err();
    assert!(why.starts_with("FIPS mode is active: ChaCha20-Poly1305 is not FIPS-approved.\nUse "));
}

#[test]
fn ignoring_pins_wins_over_trusting() {
    assert!(matches!(pin_policy(true, true), PinPolicy::InsecureIgnore));
    assert!(matches!(pin_policy(false, true), PinPolicy::TrustOnFirstUse));
    assert!(matches!(pin_policy(false, false), PinPolicy::Enforce));
}

#[test]
fn the_remote_end_is_logged() {
    assert_eq!(logged_end("a.txt", "u@h:b"), "u@h:b");
    assert_eq!(logged_end("u@h:b", "a.txt"), "u@h:b");
    assert_eq!(logged_exit(true), 0);
    assert_eq!(logged_exit(false), 1);
    assert!(logged("shell"));
    assert!(!logged("_shell-recv"));
    assert!(!logged("recv"));
    assert!(!logged("audit"));
}
