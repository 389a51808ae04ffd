use seam_protocol::cli::known_hosts::{
    check_pin, fingerprint, mismatch_error, pinning_message, short_fp, verify_or_pin, PinPolicy,
    PinVerdict, Pins,
};

#[test]
fn fingerprint_is_deterministic() {
    let key = [42u8; 32];
    assert_eq!(fingerprint(&key), fingerprint(&key));
    assert_eq!(fingerprint(&key).len(), 64);
}

#[test]
fn fingerprint_differs_for_different_keys() {
    let a = [1u8; 32];
    let b = [2u8; 32];
    assert_ne!(fingerprint(&a), fingerprint(&b));
}

#[test]
fn fingerprint_is_the_sha256_of_the_key() {
    assert_eq!(
        fingerprint(&[0u8; 32]),
        "66687aadf862bd776c8fc18b8e9f8e20089714856ee233b3902a591d0d5f2925"
    );
}

#[test]
fn short_fingerprints_are_prefixes() {
    let fp = fingerprint(&[0u8; 32]);
    assert!(fp.starts_with(short_fp(&fp)));
    assert_eq!(short_fp(&fp), "66687aadf862bd77");
    assert_eq!(
        short_fp("0123456789abcdef0123456789abcdef0123456789abcdef0123456789abcdef"),
        "0123456789abcdef"
    );
    assert_eq!(short_fp("0123456789abcde"), "0123456789abcde");
    assert_eq!(short_fp("abc"), "abc");
}

#[test]
fn first_use_pins_and_later_use_compares() {
    let mut pins = Pins::new();
    let key = [5u8; 32];
    let other = [6u8; 32];
    assert!(matches!(
        verify_or_pin(&mut pins, "host", &key, PinPolicy::Enforce),
        PinVerdict::Pinned
    ));
    assert_eq!(pins.get("host"), Some(fingerprint(&key)));
    assert!(matches!(
        verify_or_pin(&mut pins, "host", &key, PinPolicy::Enforce),
        PinVerdict::Matches
    ));
    assert!(matches!(
        verify_or_pin(&mut pins, "host", &other, PinPolicy::TrustOnFirstUse),
        PinVerdict::Mismatch
    ));
    assert_eq!(pins.get("host"), Some(fingerprint(&key)));
}

#[test]
fn ignoring_pins_changes_nothing() {
    let mut pins = Pins::new();
    assert!(matches!(
        check_pin(&mut pins, "host", "aa", PinPolicy::InsecureIgnore),
        PinVerdict::Skipped
    ));
    assert_eq!(pins.get("host"), None);
}

#[test]
fn a_stored_table_is_read_back() {
    let mut pins = Pins::new();
    pins.insert("zeta", "11");
    pins.insert("alpha", "22");
    pins.insert("mid", "33");
    pins.insert("alpha", "44");
    let text = pins.render();
    let again = Pins::parse(&text);
    assert_eq!(again.get("alpha").as_deref(), Some("44"));
    assert_eq!(again.get("mid").as_deref(), Some("33"));
    assert_eq!(again.get("zeta").as_deref(), Some("11"));
    let hosts: Vec<String> = again.list_pins().into_iter().map(|p| p.host).collect();
    assert_eq!(hosts, vec!["alpha", "mid", "zeta"]);
}

#[test]
fn comments_and_broken_lines_are_skipped() {
    let pins = Pins::parse("# note\n\nlonely\nhost  aabb\n");
    assert_eq!(pins.list_pins().len(), 1);
    assert_eq!(pins.get("host").as_deref(), Some("aabb"));
}

#[test]
fn pins_are_removed() {
    let mut pins = Pins::new();
    pins.insert("a", "1");
    pins.insert("b", "2");
    assert!(pins.remove("a"));
    assert!(!pins.remove("a"));
    assert_eq!(pins.get("a"), None);
    assert_eq!(pins.get("b").as_deref(), Some("2"));
}

#[test]
fn messages_name_the_host() {
    assert!(mismatch_error("srv").contains("srv"));
    assert!(pinning_message("srv", "aabb", "aa", PinPolicy::TrustOnFirstUse).contains("srv"));
    assert!(pinning_message("srv", "aabb", "aa", PinPolicy::Enforce).contains("srv"));
}
