//! What the program says of itself: its version, its algorithms, and what hides its traffic.

use vstd::prelude::*;
use vstd::string::*;
use crate::cli::config;
use crate::text;

verus! {

pub const NOISE_PATTERN: &'static str = "Noise_XX_25519_ChaChaPoly_BLAKE2s";

pub const KEM_ALGORITHM: &'static str = "ML-KEM-768 (FIPS 203, CRYSTALS-Kyber)";

pub const HYBRID_KE: &'static str = "X25519 + ML-KEM-768 (hybrid post-quantum)";

pub const IDENTITY_SIG: &'static str =
    "ML-DSA-65 (FIPS 204, CRYSTALS-Dilithium3) — quantum-resistant identity";

pub const DOUBLE_RATCHET: &'static str =
    "Double ratchet: per-epoch forward secrecy (epoch: 1000 packets / 30s)";

pub const CHACHA_DESC: &'static str =
    "ChaCha20-Poly1305 — default, cross-platform, no hardware requirement";

pub const AES_DESC: &'static str =
    "AES-256-GCM — NSA CNSA 2.0 / DoD compliant, hardware-accelerated on AES-NI";

/// What hides the traffic from an observer.
#[derive(Debug, Clone, Copy, PartialEq, Eq, Structural)]
pub struct Shaping {
    /// Whether packets are padded to a few sizes.
    pub padding: bool,
    /// The rate of cover traffic; zero means none.
    pub cover_kbps: u32,
    /// The longest random delay of a packet; zero means none.
    pub jitter_ms: u32,
    /// Whether headers are masked.
    pub obfuscate: bool,
}

/// A text where it applies.
pub open spec fn where_on(on: bool, s: Seq<char>) -> Seq<Seq<char>> {
    if on {
        seq![s]
    } else {
        Seq::empty()
    }
}

/// The names of what is on.
pub open spec fn feature_names(s: Shaping) -> Seq<Seq<char>> {
    where_on(s.padding, "size-class padding"@) + where_on(s.cover_kbps > 0, "cover traffic"@)
        + where_on(s.jitter_ms > 0, "timing jitter"@) + where_on(
        s.obfuscate,
        "header obfuscation"@,
    )
}

fn push_where(out: &mut Vec<String>, on: bool, s: &str)
    ensures
        text::texts(final(out)@) == text::texts(old(out)@) + where_on(on, s@),
{
    if on {
        out.push(text::owned(s));
    }
    assert(text::texts(out@) =~= text::texts(old(out)@) + where_on(on, s@));
}

/// The names of what is on.
pub fn features(s: &Shaping) -> (out: Vec<String>)
    ensures
        text::texts(out@) == feature_names(*s),
{
    let mut out: Vec<String> = Vec::new();
    push_where(&mut out, s.padding, "size-class padding");
    push_where(&mut out, s.cover_kbps > 0, "cover traffic");
    push_where(&mut out, s.jitter_ms > 0, "timing jitter");
    push_where(&mut out, s.obfuscate, "header obfuscation");
    assert(text::texts(out@) =~= feature_names(*s));
    out
}

/// What is on, in a line.
pub open spec fn summary_text(s: Shaping) -> Seq<char> {
    if feature_names(s).len() == 0 {
        "none (all disabled)"@
    } else {
        text::join(feature_names(s), ", "@)
    }
}

/// What is on, in a line.
pub fn summary(s: &Shaping) -> (out: String)
    ensures
        out@ == summary_text(*s),
{
    let names: Vec<String> = features(s);
    assert(text::texts(names@).len() == names@.len());
    if names.len() == 0 {
        text::owned("none (all disabled)")
    } else {
        text::join_texts(&names, ", ")
    }
}

/// The lines on what is on.
pub open spec fn shaping_lines(s: Shaping) -> Seq<Seq<char>> {
    where_on(
        s.padding,
        "  size-class padding : enabled (256/512/1024/1400 byte classes)"@,
    ) + where_on(
        s.cover_kbps > 0,
        "  cover traffic      : "@ + text::decimal(s.cover_kbps as nat) + " kbps constant rate"@,
    ) + where_on(
        s.jitter_ms > 0,
        "  timing jitter      : 0–"@ + text::decimal(s.jitter_ms as nat) + " ms per-packet delay"@,
    ) + where_on(
        s.obfuscate,
        "  header obfuscation : enabled (XOR with per-session secret)"@,
    )
}

/// The lines on the program.
pub open spec fn program_lines(version: Seq<char>, build_date: Seq<char>) -> Seq<Seq<char>> {
    seq![
        "seam "@ + version,
        "Build date   : "@ + build_date,
        "Noise pattern: "@ + NOISE_PATTERN@,
        "KEM          : "@ + KEM_ALGORITHM@,
        "Key exchange : "@ + HYBRID_KE@,
        "Identity sig : "@ + IDENTITY_SIG@,
        "Ratchet      : "@ + DOUBLE_RATCHET@,
        "Cipher suites:"@,
        suite_line("chacha20poly1305"@, CHACHA_DESC@),
        suite_line("aes256gcm"@, AES_DESC@),
        ""@,
    ]
}

/// The line on a cipher suite.
pub open spec fn suite_line(id: Seq<char>, desc: Seq<char>) -> Seq<char> {
    "  "@ + text::padded(id, 22) + " "@ + desc
}

fn suite(id: &str, desc: &str) -> (out: String)
    ensures
        out@ == suite_line(id@, desc@),
{
    let mut out: String = text::owned("  ");
    text::push_padded(&mut out, id, 22);
    out.append(" ");
    out.append(desc);
    assert(out@ =~= suite_line(id@, desc@));
    out
}

fn program(version: &str, build_date: &str) -> (out: Vec<String>)
    ensures
        text::texts(out@) == program_lines(version@, build_date@),
{
    let mut out: Vec<String> = Vec::new();
    out.push(text::joined("seam ", version));
    out.push(text::joined("Build date   : ", build_date));
    out.push(text::joined("Noise pattern: ", NOISE_PATTERN));
    out.push(text::joined("KEM          : ", KEM_ALGORITHM));
    out.push(text::joined("Key exchange : ", HYBRID_KE));
    out.push(text::joined("Identity sig : ", IDENTITY_SIG));
    out.push(text::joined("Ratchet      : ", DOUBLE_RATCHET));
    out.push(text::owned("Cipher suites:"));
    out.push(suite("chacha20poly1305", CHACHA_DESC));
    out.push(suite("aes256gcm", AES_DESC));
    out.push(text::owned(""));
    assert(text::texts(out@) =~= program_lines(version@, build_date@));
    out
}

/// The lines of the report.
pub fn report(version: &str, build_date: &str, s: &Shaping) -> (out: Vec<String>)
    ensures
        text::texts(out@) == program_lines(version@, build_date@).push(
            "Traffic analysis resistance: "@ + summary_text(*s),
        ) + shaping_lines(*s),
{
    let mut out: Vec<String> = program(version, build_date);
    let ghost head = text::texts(out@);
    out.push(text::joined("Traffic analysis resistance: ", summary(s).as_str()));
    let ghost start = text::texts(out@);
    assert(start =~= head.push("Traffic analysis resistance: "@ + summary_text(*s)));
    push_where(
        &mut out,
        s.padding,
        "  size-class padding : enabled (256/512/1024/1400 byte classes)",
    );
    let cover: String = text::glue3(
        "  cover traffic      : ",
        text::decimal_text(s.cover_kbps as u64).as_str(),
        " kbps constant rate",
    );
    push_where(&mut out, s.cover_kbps > 0, cover.as_str());
    let jitter: String = text::glue3(
        "  timing jitter      : 0–",
        text::decimal_text(s.jitter_ms as u64).as_str(),
        " ms per-packet delay",
    );
    push_where(&mut out, s.jitter_ms > 0, jitter.as_str());
    push_where(
        &mut out,
        s.obfuscate,
        "  header obfuscation : enabled (XOR with per-session secret)",
    );
    assert(text::texts(out@) =~= start + shaping_lines(*s));
    out
}

/// What hides the traffic, in JSON.
pub open spec fn shaping_json_text(s: Shaping) -> Seq<char> {
    "{\"cover_traffic_kbps\":"@ + text::decimal(s.cover_kbps as nat) + ",\"header_obfuscation\":"@
        + config::bool_text(s.obfuscate) + ",\"size_class_padding\":"@ + config::bool_text(
        s.padding,
    ) + ",\"timing_jitter_ms\":"@ + text::decimal(s.jitter_ms as nat) + "}"@
}

/// What hides the traffic, in JSON.
pub fn shaping_json(s: &Shaping) -> (out: String)
    ensures
        out@ == shaping_json_text(*s),
{
    let mut out: String = text::owned("{\"cover_traffic_kbps\":");
    text::push_decimal(&mut out, s.cover_kbps as u64);
    out.append(",\"header_obfuscation\":");
    out.append(config::show_bool(s.obfuscate).as_str());
    out.append(",\"size_class_padding\":");
    out.append(config::show_bool(s.padding).as_str());
    out.append(",\"timing_jitter_ms\":");
    text::push_decimal(&mut out, s.jitter_ms as u64);
    out.append("}");
    assert(out@ =~= shaping_json_text(*s));
    out
}

/// A field of the report in JSON, whose value is a text without quotes and backslashes.
pub open spec fn json_field(name: Seq<char>, value: Seq<char>) -> Seq<char> {
    "  \""@ + name + "\": \""@ + value + "\",\n"@
}

/// The report in JSON.
pub open spec fn json_text(version: Seq<char>, build_date: Seq<char>, s: Shaping) -> Seq<char> {
    "{\n"@ + json_field("version"@, version) + json_field("build_date"@, build_date) + json_field(
        "noise_pattern"@,
        NOISE_PATTERN@,
    ) + json_field("kem"@, KEM_ALGORITHM@) + json_field("hybrid_ke"@, HYBRID_KE@) + json_field(
        "identity_sig"@,
        IDENTITY_SIG@,
    ) + json_field("double_ratchet"@, DOUBLE_RATCHET@)
        + "  \"cipher_suites\": [\"chacha20poly1305\", \"aes256gcm\"],\n  \"traffic_analysis_resistance\": "@
        + shaping_json_text(s) + "\n}"@
}

fn push_field(out: &mut String, name: &str, value: &str)
    ensures
        final(out)@ == old(out)@ + json_field(name@, value@),
{
    out.append(text::glue5("  \"", name, "\": \"", value, "\",\n").as_str());
}

/// The report in JSON.
pub fn json(version: &str, build_date: &str, s: &Shaping) -> (out: String)
    ensures
        out@ == json_text(version@, build_date@, *s),
{
    let mut out: String = text::owned("{\n");
    push_field(&mut out, "version", version);
    push_field(&mut out, "build_date", build_date);
    push_field(&mut out, "noise_pattern", NOISE_PATTERN);
    push_field(&mut out, "kem", KEM_ALGORITHM);
    push_field(&mut out, "hybrid_ke", HYBRID_KE);
    push_field(&mut out, "identity_sig", IDENTITY_SIG);
    push_field(&mut out, "double_ratchet", DOUBLE_RATCHET);
    out.append(
        "  \"cipher_suites\": [\"chacha20poly1305\", \"aes256gcm\"],\n  \"traffic_analysis_resistance\": ",
    );
    out.append(shaping_json(s).as_str());
    out.append("\n}");
    out
}

/// A way of hiding traffic is named exactly if it is on.
pub proof fn law_features_named(s: Shaping)
    ensures
        feature_names(s).contains("size-class padding"@) <== s.padding,
        feature_names(s).contains("cover traffic"@) <== s.cover_kbps > 0,
        feature_names(s).contains("timing jitter"@) <== s.jitter_ms > 0,
        feature_names(s).contains("header obfuscation"@) <== s.obfuscate,
        feature_names(s).len() == (if s.padding {
            1int
        } else {
            0
        }) + (if s.cover_kbps > 0 {
            1int
        } else {
            0
        }) + (if s.jitter_ms > 0 {
            1int
        } else {
            0
        }) + (if s.obfuscate {
            1int
        } else {
            0
        }),
        !s.padding && s.cover_kbps == 0 && s.jitter_ms == 0 && !s.obfuscate ==> summary_text(s)
            == "none (all disabled)"@,
        shaping_lines(s).len() == feature_names(s).len(),
{
    let a = where_on(s.padding, "size-class padding"@);
    let b = where_on(s.cover_kbps > 0, "cover traffic"@);
    let c = where_on(s.jitter_ms > 0, "timing jitter"@);
    let d = where_on(s.obfuscate, "header obfuscation"@);
    let f = feature_names(s);
    assert(f =~= a + b + c + d);
    if s.padding {
        assert(f[0] == "size-class padding"@);
    }
    if s.cover_kbps > 0 {
        assert(f[a.len() as int] == "cover traffic"@);
    }
    if s.jitter_ms > 0 {
        assert(f[(a + b).len() as int] == "timing jitter"@);
    }
    if s.obfuscate {
        assert(f[(a + b + c).len() as int] == "header obfuscation"@);
    }
}

} // verus!
