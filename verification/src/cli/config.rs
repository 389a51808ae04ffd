//! The user configuration: its defaults, and the rules for reading and changing its values.

use vstd::prelude::*;
use vstd::string::*;
use crate::text;

verus! {

/// The user configuration.
#[derive(Debug)]
pub struct Config {
    /// The congestion controller: "cubic" or "bbr".
    pub cc: String,
    /// Whether copies are compressed.
    pub compress: bool,
    /// Where the identity key is kept, where not in its usual place.
    pub identity: Option<String>,
    /// The AEAD cipher suite: "chacha20poly1305" or "aes256gcm".
    pub cipher: String,
    /// How many connections a server takes at once.
    pub max_connections: usize,
    /// The port that servers listen on; zero lets the system choose.
    pub listen_port: u16,
    /// The source symbols of an error correction group, where they are fixed; zero means none.
    pub fec_k: Option<u8>,
    /// The repair symbols of an error correction group, where they are fixed.
    pub fec_r: Option<u8>,
    /// Whether only FIPS algorithms are used.
    pub fips_mode: bool,
    /// The hosts whose health is checked.
    pub relays: Vec<String>,
}

/// What a configuration holds.
#[verifier::ext_equal]
pub struct ConfigModel {
    pub cc: Seq<char>,
    pub compress: bool,
    pub identity: Option<Seq<char>>,
    pub cipher: Seq<char>,
    pub max_connections: usize,
    pub listen_port: u16,
    pub fec_k: Option<u8>,
    pub fec_r: Option<u8>,
    pub fips_mode: bool,
    pub relays: Seq<Seq<char>>,
}

impl View for Config {
    type V = ConfigModel;

    open spec fn view(&self) -> ConfigModel {
        ConfigModel {
            cc: self.cc@,
            compress: self.compress,
            identity: match self.identity {
                Some(s) => Some(s@),
                None => None,
            },
            cipher: self.cipher@,
            max_connections: self.max_connections,
            listen_port: self.listen_port,
            fec_k: self.fec_k,
            fec_r: self.fec_r,
            fips_mode: self.fips_mode,
            relays: text::texts(self.relays@),
        }
    }
}

/// The configuration of a user who has set nothing.
pub open spec fn default_model() -> ConfigModel {
    ConfigModel {
        cc: "cubic"@,
        compress: true,
        identity: None,
        cipher: "chacha20poly1305"@,
        max_connections: 1024,
        listen_port: 0,
        fec_k: None,
        fec_r: None,
        fips_mode: false,
        relays: Seq::empty(),
    }
}

/// What is said of a key that there is not.
pub open spec fn unknown_key_text(key: Seq<char>) -> Seq<char> {
    "unknown config key: "@ + key
        + "\n  valid keys: cc, compress, identity, cipher, max_connections, listen_port, fec_k, fec_r, fips_mode, relays"@
}

/// How a switch is shown.
pub open spec fn bool_text(b: bool) -> Seq<char> {
    if b {
        "true"@
    } else {
        "false"@
    }
}

/// How an error correction number is shown.
pub open spec fn fec_text(n: Option<u8>) -> Seq<char> {
    match n {
        Some(v) => text::decimal(v as nat),
        None => "auto"@,
    }
}

/// The switch that a text sets.
pub open spec fn bool_value(s: Seq<char>) -> Option<bool> {
    if s == "true"@ {
        Some(true)
    } else if s == "false"@ {
        Some(false)
    } else {
        None
    }
}

/// The relays that a list names: its entries without the blanks around them, and without the
/// empty ones.
pub open spec fn relay_list(parts: Seq<Seq<char>>) -> Seq<Seq<char>>
    decreases parts.len(),
{
    if parts.len() == 0 {
        Seq::empty()
    } else {
        let before = relay_list(parts.drop_last());
        let entry = text::trimmed(parts.last());
        if entry.len() == 0 {
            before
        } else {
            before.push(entry)
        }
    }
}

impl ConfigModel {
    /// The lines that show a value, or why there is none. The identity is shown as the place
    /// where it is kept.
    pub open spec fn shown(self, key: Seq<char>, identity_path: Seq<char>) -> Result<
        Seq<Seq<char>>,
        Seq<char>,
    > {
        if key == "cc"@ {
            Ok(seq![self.cc])
        } else if key == "compress"@ {
            Ok(seq![bool_text(self.compress)])
        } else if key == "identity"@ {
            Ok(
                seq![
                    match self.identity {
                        Some(p) => p,
                        None => identity_path,
                    },
                ],
            )
        } else if key == "cipher"@ {
            Ok(seq![self.cipher])
        } else if key == "max_connections"@ {
            Ok(seq![text::decimal(self.max_connections as nat)])
        } else if key == "listen_port"@ {
            Ok(seq![text::decimal(self.listen_port as nat)])
        } else if key == "fec_k"@ {
            Ok(seq![fec_text(self.fec_k)])
        } else if key == "fec_r"@ {
            Ok(seq![fec_text(self.fec_r)])
        } else if key == "fips_mode"@ {
            Ok(seq![bool_text(self.fips_mode)])
        } else if key == "relays"@ {
            Ok(self.relays)
        } else {
            Err(unknown_key_text(key))
        }
    }

    /// The configuration with a value changed, or why it cannot be.
    pub open spec fn changed(self, key: Seq<char>, value: Seq<char>) -> Result<
        ConfigModel,
        Seq<char>,
    > {
        if key == "cc"@ {
            if value == "cubic"@ || value == "bbr"@ {
                Ok(ConfigModel { cc: value, ..self })
            } else {
                Err("cc must be 'cubic' or 'bbr'"@)
            }
        } else if key == "compress"@ {
            match bool_value(value) {
                Some(b) => Ok(ConfigModel { compress: b, ..self }),
                None => Err("compress must be true or false"@),
            }
        } else if key == "identity"@ {
            Ok(ConfigModel { identity: Some(value), ..self })
        } else if key == "cipher"@ {
            if value == "chacha20poly1305"@ || value == "aes256gcm"@ {
                Ok(ConfigModel { cipher: value, ..self })
            } else {
                Err("cipher must be 'chacha20poly1305' or 'aes256gcm'"@)
            }
        } else if key == "max_connections"@ {
            match text::number(value, usize::MAX as nat) {
                Some(n) => if n == 0 {
                    Err("max_connections must be at least 1"@)
                } else {
                    Ok(ConfigModel { max_connections: n as usize, ..self })
                },
                None => Err("max_connections must be a positive integer"@),
            }
        } else if key == "listen_port"@ {
            match text::number(value, 65535) {
                Some(n) => Ok(ConfigModel { listen_port: n as u16, ..self }),
                None => Err("listen_port must be 0–65535"@),
            }
        } else if key == "fec_k"@ {
            if value == "auto"@ {
                Ok(ConfigModel { fec_k: None, ..self })
            } else {
                match text::number(value, 255) {
                    Some(n) => if n == 1 {
                        Err("fec_k must be 0 (disabled/auto) or ≥ 2"@)
                    } else {
                        Ok(ConfigModel { fec_k: Some(n as u8), ..self })
                    },
                    None => Err("fec_k must be 0–255 or 'auto'"@),
                }
            }
        } else if key == "fec_r"@ {
            if value == "auto"@ {
                Ok(ConfigModel { fec_r: None, ..self })
            } else {
                match text::number(value, 255) {
                    Some(n) => if n == 0 {
                        Err("fec_r must be ≥ 1 when set (or use 'auto')"@)
                    } else {
                        Ok(ConfigModel { fec_r: Some(n as u8), ..self })
                    },
                    None => Err("fec_r must be 1–255 or 'auto'"@),
                }
            }
        } else if key == "fips_mode"@ {
            match bool_value(value) {
                Some(b) => Ok(ConfigModel { fips_mode: b, ..self }),
                None => Err("fips_mode must be true or false"@),
            }
        } else if key == "relays"@ {
            Ok(ConfigModel { relays: relay_list(text::split(value, ',')), ..self })
        } else {
            Err(unknown_key_text(key))
        }
    }
}

/// What is said of a key that there is not.
pub fn unknown_key(key: &str) -> (out: String)
    ensures
        out@ == unknown_key_text(key@),
{
    let mut out: String = String::new();
    out.append("unknown config key: ");
    out.append(key);
    out.append(
        "\n  valid keys: cc, compress, identity, cipher, max_connections, listen_port, fec_k, fec_r, fips_mode, relays",
    );
    assert(out@ =~= unknown_key_text(key@));
    out
}

/// How a switch is shown.
pub fn show_bool(b: bool) -> (out: String)
    ensures
        out@ == bool_text(b),
{
    if b {
        text::owned("true")
    } else {
        text::owned("false")
    }
}

fn show_fec(n: Option<u8>) -> (out: String)
    ensures
        out@ == fec_text(n),
{
    match n {
        Some(v) => text::decimal_text(v as u64),
        None => text::owned("auto"),
    }
}

fn parse_bool(s: &str) -> (out: Option<bool>)
    ensures
        out == bool_value(s@),
{
    if text::same(s, "true") {
        Some(true)
    } else if text::same(s, "false") {
        Some(false)
    } else {
        None
    }
}

/// The relays that a list names.
pub fn parse_relays(value: &str) -> (out: Vec<String>)
    ensures
        text::texts(out@) == relay_list(text::split(value@, ',')),
{
    let parts: Vec<String> = text::pieces(value, ',');
    let n: usize = parts.len();
    let ghost p = text::split(value@, ',');
    let mut out: Vec<String> = Vec::new();
    assert(p.take(0) =~= Seq::empty());
    assert(text::texts(out@) =~= Seq::empty());
    for i in 0..n
        invariant
            n == parts@.len(),
            text::texts(parts@) == p,
            text::texts(out@) == relay_list(p.take(i as int)),
    {
        let entry: String = text::trim(parts[i].as_str());
        proof {
            assert(p.take(i + 1).drop_last() =~= p.take(i as int));
            assert(p.take(i + 1).last() == parts@[i as int]@);
        }
        if !entry.as_str().is_empty() {
            let ghost before = out@;
            let ghost e = entry@;
            out.push(entry);
            assert(text::texts(out@) =~= text::texts(before).push(e));
        }
    }
    assert(p.take(n as int) =~= p);
    out
}

fn one(s: String) -> (out: Vec<String>)
    ensures
        text::texts(out@) == seq![s@],
{
    let ghost t = s@;
    let mut out: Vec<String> = Vec::new();
    out.push(s);
    assert(text::texts(out@) =~= seq![t]);
    out
}

fn copied(list: &Vec<String>) -> (out: Vec<String>)
    ensures
        text::texts(out@) == text::texts(list@),
{
    let n: usize = list.len();
    let mut out: Vec<String> = Vec::new();
    for i in 0..n
        invariant
            n == list@.len(),
            text::texts(out@) =~= text::texts(list@).take(i as int),
    {
        let ghost before = out@;
        out.push(text::owned(list[i].as_str()));
        assert(text::texts(out@) =~= text::texts(before).push(list@[i as int]@));
    }
    assert(text::texts(list@).take(n as int) =~= text::texts(list@));
    out
}

impl Default for Config {
    fn default() -> (c: Self)
        ensures
            c@ == default_model(),
    {
        let c = Config {
            cc: text::owned("cubic"),
            compress: true,
            identity: None,
            cipher: text::owned("chacha20poly1305"),
            max_connections: 1024,
            listen_port: 0,
            fec_k: None,
            fec_r: None,
            fips_mode: false,
            relays: Vec::new(),
        };
        assert(c@ =~= default_model());
        c
    }
}

impl Config {
    /// Whether FIPS mode is on: the command line, the environment or the configuration asks for
    /// it. The environment variable is given where it is set.
    pub fn effective_fips_mode(config_fips: bool, cli_fips: bool, env_fips: Option<&str>) -> (on:
        bool)
        ensures
            on == (cli_fips || config_fips || match env_fips {
                Some(v) => env_says_yes(v@),
                None => false,
            }),
    {
        if cli_fips {
            return true;
        }
        let env: bool = match env_fips {
            Some(v) => text::same(v, "1") || text::same_ignoring_case(v, "true"),
            None => false,
        };
        env || config_fips
    }

    /// The algorithms that FIPS mode uses.
    pub fn fips_banner() -> (banner: &'static str)
        ensures
            banner@
                == "AES-256-GCM (FIPS 197), ML-KEM-768 (FIPS 203), X25519 (SP 800-186), SHA-256 (FIPS 180-4)"@,
    {
        "AES-256-GCM (FIPS 197), ML-KEM-768 (FIPS 203), X25519 (SP 800-186), SHA-256 (FIPS 180-4)"
    }

    /// The place of the identity key, given its usual place.
    pub fn identity_path(&self, usual: &str) -> (path: String)
        ensures
            path@ == match self@.identity {
                Some(p) => p,
                None => usual@,
            },
    {
        match &self.identity {
            Some(p) => text::owned(p.as_str()),
            None => text::owned(usual),
        }
    }

    /// The lines that show a value.
    pub fn get(&self, key: &str, identity_path: &str) -> (out: Result<Vec<String>, String>)
        ensures
            match (out, self@.shown(key@, identity_path@)) {
                (Ok(v), Ok(w)) => text::texts(v@) == w,
                (Err(e), Err(t)) => e@ == t,
                _ => false,
            },
    {
        if text::same(key, "cc") {
            Ok(one(text::owned(self.cc.as_str())))
        } else if text::same(key, "compress") {
            Ok(one(show_bool(self.compress)))
        } else if text::same(key, "identity") {
            Ok(one(self.identity_path(identity_path)))
        } else if text::same(key, "cipher") {
            Ok(one(text::owned(self.cipher.as_str())))
        } else if text::same(key, "max_connections") {
            Ok(one(text::decimal_text(self.max_connections as u64)))
        } else if text::same(key, "listen_port") {
            Ok(one(text::decimal_text(self.listen_port as u64)))
        } else if text::same(key, "fec_k") {
            Ok(one(show_fec(self.fec_k)))
        } else if text::same(key, "fec_r") {
            Ok(one(show_fec(self.fec_r)))
        } else if text::same(key, "fips_mode") {
            Ok(one(show_bool(self.fips_mode)))
        } else if text::same(key, "relays") {
            Ok(copied(&self.relays))
        } else {
            Err(unknown_key(key))
        }
    }

    /// Changes a value. A value that is refused changes nothing.
    pub fn set(&mut self, key: &str, value: &str) -> (out: Result<(), String>)
        ensures
            match (out, old(self)@.changed(key@, value@)) {
                (Ok(_), Ok(m)) => final(self)@ == m,
                (Err(e), Err(t)) => e@ == t && final(self)@ == old(self)@,
                _ => false,
            },
    {
        if text::same(key, "cc") {
            if !text::same(value, "cubic") && !text::same(value, "bbr") {
                return Err(text::owned("cc must be 'cubic' or 'bbr'"));
            }
            self.cc = text::owned(value);
        } else if text::same(key, "compress") {
            match parse_bool(value) {
                Some(b) => {
                    self.compress = b;
                },
                None => {
                    return Err(text::owned("compress must be true or false"));
                },
            }
        } else if text::same(key, "identity") {
            self.identity = Some(text::owned(value));
        } else if text::same(key, "cipher") {
            if !text::same(value, "chacha20poly1305") && !text::same(value, "aes256gcm") {
                return Err(text::owned("cipher must be 'chacha20poly1305' or 'aes256gcm'"));
            }
            self.cipher = text::owned(value);
        } else if text::same(key, "max_connections") {
            match text::parse_number(value, usize::MAX as u64) {
                Some(n) => {
                    if n == 0 {
                        return Err(text::owned("max_connections must be at least 1"));
                    }
                    self.max_connections = n as usize;
                },
                None => {
                    return Err(text::owned("max_connections must be a positive integer"));
                },
            }
        } else if text::same(key, "listen_port") {
            match text::parse_number(value, 65535) {
                Some(n) => {
                    self.listen_port = n as u16;
                },
                None => {
                    return Err(text::owned("listen_port must be 0–65535"));
                },
            }
        } else if text::same(key, "fec_k") {
            if text::same(value, "auto") {
                self.fec_k = None;
            } else {
                match text::parse_number(value, 255) {
                    Some(n) => {
                        if n == 1 {
                            return Err(text::owned("fec_k must be 0 (disabled/auto) or ≥ 2"));
                        }
                        self.fec_k = Some(n as u8);
                    },
                    None => {
                        return Err(text::owned("fec_k must be 0–255 or 'auto'"));
                    },
                }
            }
        } else if text::same(key, "fec_r") {
            if text::same(value, "auto") {
                self.fec_r = None;
            } else {
                match text::parse_number(value, 255) {
                    Some(n) => {
                        if n == 0 {
                            return Err(
                                text::owned("fec_r must be ≥ 1 when set (or use 'auto')"),
                            );
                        }
                        self.fec_r = Some(n as u8);
                    },
                    None => {
                        return Err(text::owned("fec_r must be 1–255 or 'auto'"));
                    },
                }
            }
        } else if text::same(key, "fips_mode") {
            match parse_bool(value) {
                Some(b) => {
                    self.fips_mode = b;
                },
                None => {
                    return Err(text::owned("fips_mode must be true or false"));
                },
            }
        } else if text::same(key, "relays") {
            self.relays = parse_relays(value);
        } else {
            return Err(unknown_key(key));
        }
        Ok(())
    }
}

/// Whether the environment variable asks for FIPS mode.
pub open spec fn env_says_yes(v: Seq<char>) -> bool {
    v == "1"@ || text::same_case_blind(v, "true"@)
}

/// A value that was set is shown as it was set, where it is one of the texts that are kept as
/// they are.
pub proof fn law_set_texts_are_shown(c: ConfigModel, key: Seq<char>, value: Seq<char>, path: Seq<char>)
    requires
        key == "cc"@ || key == "identity"@ || key == "cipher"@,
        c.changed(key, value) is Ok,
    ensures
        c.changed(key, value)->Ok_0.shown(key, path) == Ok::<Seq<Seq<char>>, Seq<char>>(
            seq![value],
        ),
{
    reveal_strlit("cc");
    reveal_strlit("identity");
    reveal_strlit("cipher");
    reveal_strlit("compress");
    assert("cc"@.len() == 2 && "identity"@.len() == 8 && "cipher"@.len() == 6);
    assert("compress"@.len() == 8);
    assert("identity"@[0] == 'i' && "compress"@[0] == 'c');
}

/// The relays, each in quotes.
pub open spec fn quoted_relays(relays: Seq<Seq<char>>) -> Seq<Seq<char>> {
    Seq::new(relays.len(), |i: int| text::debug_form(relays[i]))
}

impl ConfigModel {
    /// The lines that show the whole configuration, given the place of its file and the usual
    /// place of the identity key.
    pub open spec fn listing(self, config_path: Seq<char>, identity_path: Seq<char>) -> Seq<
        Seq<char>,
    > {
        seq![
            "# config path: "@ + config_path,
            ""@,
            "cc              = "@ + self.cc,
            "compress        = "@ + bool_text(self.compress),
            "identity        = "@ + (match self.identity {
                Some(p) => p,
                None => identity_path,
            }),
            "cipher          = "@ + self.cipher,
            "max_connections = "@ + text::decimal(self.max_connections as nat),
            "listen_port     = "@ + (if self.listen_port == 0 {
                "0 (OS-assigned)"@
            } else {
                text::decimal(self.listen_port as nat)
            }),
            "fec_k           = "@ + fec_text(self.fec_k),
            "fec_r           = "@ + fec_text(self.fec_r),
            "fips_mode       = "@ + bool_text(self.fips_mode),
            "relays          = ["@ + text::join(quoted_relays(self.relays), ", "@) + "]"@,
        ]
    }
}

fn quote_relays(relays: &Vec<String>) -> (out: Vec<String>)
    ensures
        text::texts(out@) == quoted_relays(text::texts(relays@)),
{
    let n: usize = relays.len();
    let mut out: Vec<String> = Vec::new();
    for i in 0..n
        invariant
            n == relays@.len(),
            out@.len() == i,
            forall|j: int| 0 <= j < i ==> (#[trigger] out@[j])@ == text::debug_form(relays@[j]@),
    {
        out.push(text::debug_text(relays[i].as_str()));
    }
    assert(text::texts(out@) =~= quoted_relays(text::texts(relays@)));
    out
}

impl Config {
    /// The lines that show the whole configuration.
    pub fn listing(&self, config_path: &str, identity_path: &str) -> (out: Vec<String>)
        ensures
            text::texts(out@) == self@.listing(config_path@, identity_path@),
    {
        let port: String = if self.listen_port == 0 {
            text::owned("0 (OS-assigned)")
        } else {
            text::decimal_text(self.listen_port as u64)
        };
        let relays: String = text::join_texts(&quote_relays(&self.relays), ", ");
        let mut out: Vec<String> = Vec::new();
        out.push(text::joined("# config path: ", config_path));
        out.push(text::owned(""));
        out.push(text::joined("cc              = ", self.cc.as_str()));
        out.push(text::joined("compress        = ", show_bool(self.compress).as_str()));
        out.push(text::joined("identity        = ", self.identity_path(identity_path).as_str()));
        out.push(text::joined("cipher          = ", self.cipher.as_str()));
        out.push(
            text::joined(
                "max_connections = ",
                text::decimal_text(self.max_connections as u64).as_str(),
            ),
        );
        out.push(text::joined("listen_port     = ", port.as_str()));
        out.push(text::joined("fec_k           = ", show_fec(self.fec_k).as_str()));
        out.push(text::joined("fec_r           = ", show_fec(self.fec_r).as_str()));
        out.push(text::joined("fips_mode       = ", show_bool(self.fips_mode).as_str()));
        out.push(text::glue3("relays          = [", relays.as_str(), "]"));
        assert(text::texts(out@) =~= self@.listing(config_path@, identity_path@));
        out
    }
}

/// The ten keys are ten.
proof fn lemma_keys_differ()
    ensures
        "cc"@.len() == 2,
        "compress"@.len() == 8,
        "identity"@.len() == 8,
        "cipher"@.len() == 6,
        "max_connections"@.len() == 15,
        "listen_port"@.len() == 11,
        "fec_k"@.len() == 5,
        "fec_r"@.len() == 5,
        "fips_mode"@.len() == 9,
        "relays"@.len() == 6,
        "compress"@[0] == 'c',
        "identity"@[0] == 'i',
        "cipher"@[0] == 'c',
        "relays"@[0] == 'r',
        "fec_k"@[4] == 'k',
        "fec_r"@[4] == 'r',
{
    reveal_strlit("cc");
    reveal_strlit("compress");
    reveal_strlit("identity");
    reveal_strlit("cipher");
    reveal_strlit("max_connections");
    reveal_strlit("listen_port");
    reveal_strlit("fec_k");
    reveal_strlit("fec_r");
    reveal_strlit("fips_mode");
    reveal_strlit("relays");
}

/// Setting a key changes what is shown for that key alone.
pub proof fn law_set_keeps_others(
    c: ConfigModel,
    key: Seq<char>,
    value: Seq<char>,
    other: Seq<char>,
    path: Seq<char>,
)
    requires
        c.changed(key, value) is Ok,
        other != key,
    ensures
        c.changed(key, value)->Ok_0.shown(other, path) == c.shown(other, path),
{
    lemma_keys_differ();
}

/// Each key accepts its values and no others: two congestion controllers, two ciphers, two truth
/// values, a positive number of connections, any port, an automatic number of symbols or one that
/// makes sense, and any identity and relays.
pub proof fn law_values_accepted(c: ConfigModel, value: Seq<char>)
    ensures
        c.changed("cc"@, value) is Ok <==> value == "cubic"@ || value == "bbr"@,
        c.changed("cipher"@, value) is Ok <==> value == "chacha20poly1305"@ || value
            == "aes256gcm"@,
        c.changed("compress"@, value) is Ok <==> value == "true"@ || value == "false"@,
        c.changed("fips_mode"@, value) is Ok <==> value == "true"@ || value == "false"@,
        c.changed("identity"@, value) is Ok,
        c.changed("relays"@, value) is Ok,
        c.changed("max_connections"@, value) is Ok <==> (text::number(
            value,
            usize::MAX as nat,
        ) matches Some(n) && n >= 1),
        c.changed("listen_port"@, value) is Ok <==> text::number(value, 65535) is Some,
        c.changed("fec_k"@, value) is Ok <==> value == "auto"@ || (text::number(
            value,
            255,
        ) matches Some(n) && n != 1),
        c.changed("fec_r"@, value) is Ok <==> value == "auto"@ || (text::number(
            value,
            255,
        ) matches Some(n) && n >= 1),
{
    lemma_keys_differ();
    reveal_strlit("true");
    reveal_strlit("false");
    assert("true"@.len() != "false"@.len());
}

/// What is set is shown: truth values, numbers and the automatic choice as they were given.
pub proof fn law_set_values_are_shown(c: ConfigModel, n: u16, b: bool, path: Seq<char>)
    ensures
        c.changed("compress"@, bool_text(b)) matches Ok(m) && m.compress == b && m.shown(
            "compress"@,
            path,
        ) == Ok::<Seq<Seq<char>>, Seq<char>>(seq![bool_text(b)]),
        c.changed("fips_mode"@, bool_text(b)) matches Ok(m) && m.fips_mode == b && m.shown(
            "fips_mode"@,
            path,
        ) == Ok::<Seq<Seq<char>>, Seq<char>>(seq![bool_text(b)]),
        c.changed("listen_port"@, text::decimal(n as nat)) matches Ok(m) && m.listen_port == n
            && m.shown("listen_port"@, path) == Ok::<Seq<Seq<char>>, Seq<char>>(
            seq![text::decimal(n as nat)],
        ),
        n >= 1 ==> (c.changed("max_connections"@, text::decimal(n as nat)) matches Ok(m)
            && m.max_connections == n && m.shown("max_connections"@, path) == Ok::<
            Seq<Seq<char>>,
            Seq<char>,
        >(seq![text::decimal(n as nat)])),
        n <= 255 && n != 1 ==> (c.changed("fec_k"@, text::decimal(n as nat)) matches Ok(m)
            && m.fec_k == Some(n as u8) && m.shown("fec_k"@, path) == Ok::<
            Seq<Seq<char>>,
            Seq<char>,
        >(seq![text::decimal(n as nat)])),
        1 <= n <= 255 ==> (c.changed("fec_r"@, text::decimal(n as nat)) matches Ok(m) && m.fec_r
            == Some(n as u8) && m.shown("fec_r"@, path) == Ok::<Seq<Seq<char>>, Seq<char>>(
            seq![text::decimal(n as nat)],
        )),
        c.changed("fec_k"@, "auto"@) matches Ok(m) && m.fec_k is None && m.shown("fec_k"@, path)
            == Ok::<Seq<Seq<char>>, Seq<char>>(seq!["auto"@]),
{
    lemma_keys_differ();
    reveal_strlit("true");
    reveal_strlit("false");
    reveal_strlit("auto");
    assert("true"@.len() != "false"@.len());
    text::lemma_decimal(n as nat);
    text::law_decimal_round_trip(n as nat, 65535);
    text::law_decimal_round_trip(n as nat, usize::MAX as nat);
    if n <= 255 {
        text::law_decimal_round_trip(n as nat, 255);
    }
    assert("auto"@[0] == 'a');
    assert('0' <= text::decimal(n as nat)[0] <= '9');
}

/// Relays that are not empty, have no white space at their ends and hold no comma are set as they
/// are given, in order.
pub proof fn law_relays_are_kept(c: ConfigModel, relays: Seq<Seq<char>>, path: Seq<char>)
    requires
        relays.len() > 0,
        forall|i: int|
            0 <= i < relays.len() ==> (#[trigger] relays[i]).len() > 0 && text::trimmed(relays[i])
                == relays[i],
        forall|i: int, j: int|
            0 <= i < relays.len() && 0 <= j < relays[i].len() ==> #[trigger] relays[i][j] != ',',
    ensures
        c.changed("relays"@, text::join(relays, seq![','])) matches Ok(m) && m.relays == relays
            && m.shown("relays"@, path) == Ok::<Seq<Seq<char>>, Seq<char>>(relays),
{
    lemma_keys_differ();
    text::law_split_of_joined(relays, ',');
    lemma_relays(relays);
}

proof fn lemma_relays(relays: Seq<Seq<char>>)
    requires
        forall|i: int|
            0 <= i < relays.len() ==> (#[trigger] relays[i]).len() > 0 && text::trimmed(relays[i])
                == relays[i],
    ensures
        relay_list(relays) == relays,
    decreases relays.len(),
{
    if relays.len() > 0 {
        let front = relays.drop_last();
        assert forall|i: int| 0 <= i < front.len() implies (#[trigger] front[i]).len() > 0
            && text::trimmed(front[i]) == front[i] by {
            assert(front[i] == relays[i]);
        }
        lemma_relays(front);
        let last = relays[relays.len() - 1];
        assert(last.len() > 0 && text::trimmed(last) == last);
        assert(front.push(last) =~= relays);
    } else {
        assert(relay_list(relays) =~= relays);
    }
}

/// The environment says yes with a one or with the word true in any case, and with nothing else
/// of another length.
pub proof fn law_env_says_yes(v: Seq<char>)
    ensures
        env_says_yes("1"@),
        env_says_yes("true"@),
        v.len() != 1 && v.len() != 4 ==> !env_says_yes(v),
        !env_says_yes("0"@),
{
    reveal_strlit("1");
    reveal_strlit("0");
    reveal_strlit("true");
    assert("1"@[0] != "0"@[0]);
}

/// A new configuration.
pub proof fn law_defaults()
    ensures
        default_model().cc == "cubic"@,
        default_model().compress,
        default_model().cipher == "chacha20poly1305"@,
        default_model().max_connections == 1024,
        default_model().listen_port == 0,
        default_model().fec_k is None,
        default_model().fec_r is None,
        !default_model().fips_mode,
        default_model().identity is None,
        default_model().relays.len() == 0,
{
}

/// The listing shows for every key but three what is shown for the key alone; a port of zero is
/// explained, and relays are quoted.
pub proof fn law_listing_shows(c: ConfigModel, config_path: Seq<char>, path: Seq<char>)
    ensures
        ({
            let l = c.listing(config_path, path);
            &&& l.len() == 12
            &&& l[0] == "# config path: "@ + config_path
            &&& l[2] == "cc              = "@ + c.shown("cc"@, path)->Ok_0[0]
            &&& l[3] == "compress        = "@ + c.shown("compress"@, path)->Ok_0[0]
            &&& l[4] == "identity        = "@ + c.shown("identity"@, path)->Ok_0[0]
            &&& l[5] == "cipher          = "@ + c.shown("cipher"@, path)->Ok_0[0]
            &&& l[6] == "max_connections = "@ + c.shown("max_connections"@, path)->Ok_0[0]
            &&& c.listen_port > 0 ==> l[7] == "listen_port     = "@ + c.shown(
                "listen_port"@,
                path,
            )->Ok_0[0]
            &&& c.listen_port == 0 ==> l[7] == "listen_port     = "@ + "0 (OS-assigned)"@
            &&& l[8] == "fec_k           = "@ + c.shown("fec_k"@, path)->Ok_0[0]
            &&& l[9] == "fec_r           = "@ + c.shown("fec_r"@, path)->Ok_0[0]
            &&& l[10] == "fips_mode       = "@ + c.shown("fips_mode"@, path)->Ok_0[0]
        }),
{
    lemma_keys_differ();
}

/// What is shown for each key is what the configuration holds.
pub proof fn law_shown(c: ConfigModel, path: Seq<char>)
    ensures
        c.shown("cc"@, path)->Ok_0 == seq![c.cc],
        c.shown("cipher"@, path)->Ok_0 == seq![c.cipher],
        c.shown("compress"@, path)->Ok_0 == seq![
            if c.compress {
                "true"@
            } else {
                "false"@
            },
        ],
        c.shown("fips_mode"@, path)->Ok_0 == seq![
            if c.fips_mode {
                "true"@
            } else {
                "false"@
            },
        ],
        c.identity is None ==> c.shown("identity"@, path)->Ok_0 == seq![path],
        c.identity is Some ==> c.shown("identity"@, path)->Ok_0 == seq![c.identity.unwrap()],
        c.shown("max_connections"@, path)->Ok_0 == seq![text::decimal(c.max_connections as nat)],
        c.shown("listen_port"@, path)->Ok_0 == seq![text::decimal(c.listen_port as nat)],
        c.fec_k is None ==> c.shown("fec_k"@, path)->Ok_0 == seq!["auto"@],
        c.fec_r is None ==> c.shown("fec_r"@, path)->Ok_0 == seq!["auto"@],
        c.fec_k is Some ==> c.shown("fec_k"@, path)->Ok_0 == seq![
            text::decimal(c.fec_k.unwrap() as nat),
        ],
        c.fec_r is Some ==> c.shown("fec_r"@, path)->Ok_0 == seq![
            text::decimal(c.fec_r.unwrap() as nat),
        ],
        c.shown("relays"@, path)->Ok_0 == c.relays,
{
    lemma_keys_differ();
}

} // verus!
