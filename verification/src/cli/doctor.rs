//! The self-examination: what each check finds, given what was observed.

use vstd::prelude::*;
use vstd::string::*;
use crate::cli::audit;
use crate::cli::config;
use crate::cli::config::Config;
use crate::cli::formats;
use crate::cli::known_hosts;
use crate::cli::report;
use crate::cli::report::Finding;
use crate::text;

verus! {

/// The smallest socket buffers that are not worth a remark.
pub const GOOD_BUFFER: u64 = 2_097_152;

/// Finds where the program lies.
pub open spec fn binary_model(location: Result<Seq<char>, Seq<char>>) -> report::FindingModel {
    match location {
        Ok(path) => report::fine(seq!["  ✓  binary: "@ + path]),
        Err(e) => report::fatal(seq!["  ✗  cannot locate own binary: "@ + e]),
    }
}

/// The texts of a result.
pub open spec fn result_text(r: Result<String, String>) -> Result<Seq<char>, Seq<char>> {
    match r {
        Ok(s) => Ok(s@),
        Err(e) => Err(e@),
    }
}

/// Finds where the program lies.
pub fn check_binary(location: &Result<String, String>) -> (f: Finding)
    ensures
        f@ == binary_model(result_text(*location)),
{
    match location {
        Ok(path) => report::one(text::joined("  ✓  binary: ", path.as_str()), false),
        Err(e) => report::one(
            text::joined("  ✗  cannot locate own binary: ", e.as_str()),
            true,
        ),
    }
}

/// Finds whether the tools that are needed can be found: this program itself, `ssh`, and the
/// reading of the `ssh` configuration. Only a missing `ssh` is fatal.
pub open spec fn tools_model(in_path: bool, has_ssh: bool, ssh_config: bool) -> report::FindingModel {
    report::FindingModel {
        lines: seq![
            if in_path {
                "  ✓  seam in PATH"@
            } else {
                "  !  seam not found in PATH — add ~/.local/bin to your shell profile"@
            },
            if has_ssh {
                "  ✓  ssh found"@
            } else {
                "  ✗  ssh not found — required for bootstrap"@
            },
            if ssh_config {
                "  ✓  ssh -G works (config parsing available)"@
            } else {
                "  !  ssh -G failed — ~/.ssh/config aliases may not resolve"@
            },
        ],
        fatal: !has_ssh,
    }
}

/// Finds whether the tools that are needed can be found.
pub fn check_tools(in_path: bool, has_ssh: bool, ssh_config: bool) -> (f: Finding)
    ensures
        f@ == tools_model(in_path, has_ssh, ssh_config),
{
    let first: &str = if in_path {
        "  ✓  seam in PATH"
    } else {
        "  !  seam not found in PATH — add ~/.local/bin to your shell profile"
    };
    let second: &str = if has_ssh {
        "  ✓  ssh found"
    } else {
        "  ✗  ssh not found — required for bootstrap"
    };
    let third: &str = if ssh_config {
        "  ✓  ssh -G works (config parsing available)"
    } else {
        "  !  ssh -G failed — ~/.ssh/config aliases may not resolve"
    };
    report::three(text::owned(first), second, third, !has_ssh)
}

/// What was seen of the identity key.
#[derive(Debug)]
pub enum IdentitySeen {
    /// There is none yet.
    Absent,
    /// It cannot be read.
    Unreadable(String),
    /// It holds no identity.
    Corrupt,
    /// It holds an identity, with this X25519 key in hex.
    Sound(String),
}

/// Finds whether the permissions of a file leave it to its owner alone.
pub open spec fn permissions_model(mode: Option<u32>, path: Seq<char>) -> report::FindingModel {
    match mode {
        Some(m) => if m == 0o600 {
            report::fine(Seq::empty())
        } else {
            report::fine(
                seq![
                    "  !  identity key permissions 0o"@ + text::octal(m as nat)
                        + " — should be 0o600"@,
                    "     fix with: chmod 600 "@ + path,
                ],
            )
        },
        None => report::fine(Seq::empty()),
    }
}

/// Finds the state of the identity key.
pub open spec fn identity_model(seen: IdentitySeen, path: Seq<char>) -> report::FindingModel {
    match seen {
        IdentitySeen::Absent => report::fine(
            seq!["  ·  no persistent identity key — one will be generated on first use"@],
        ),
        IdentitySeen::Unreadable(e) => report::fatal(
            seq!["  ✗  cannot read identity key: "@ + e@],
        ),
        IdentitySeen::Corrupt => report::fatal(
            seq![
                "  ✗  identity key at "@ + path + " is corrupt or wrong version"@,
                "     delete it to generate a fresh key on next use"@,
            ],
        ),
        IdentitySeen::Sound(key) => report::fine(
            seq!["  ✓  identity key at "@ + path + " (X25519: "@ + key@.take(12) + "…)"@],
        ),
    }
}

/// Finds whether the permissions of the identity key leave it to its owner alone.
pub fn check_permissions(mode: Option<u32>, path: &str) -> (f: Finding)
    ensures
        f@ == permissions_model(mode, path@),
{
    match mode {
        Some(m) => {
            if m == 0o600 {
                return report::nothing();
            }
            let fix: String = text::joined("     fix with: chmod 600 ", path);
            report::two(
                text::glue3(
                    "  !  identity key permissions 0o",
                    text::octal_text(m as u64).as_str(),
                    " — should be 0o600",
                ),
                fix.as_str(),
                false,
            )
        },
        None => report::nothing(),
    }
}

/// Finds the state of the identity key.
pub fn check_identity(seen: &IdentitySeen, path: &str) -> (f: Finding)
    requires
        seen matches IdentitySeen::Sound(key) ==> key@.len() >= 12,
    ensures
        f@ == identity_model(*seen, path@),
{
    match seen {
        IdentitySeen::Absent => report::one(
            text::owned("  ·  no persistent identity key — one will be generated on first use"),
            false,
        ),
        IdentitySeen::Unreadable(e) => report::one(
            text::joined("  ✗  cannot read identity key: ", e.as_str()),
            true,
        ),
        IdentitySeen::Corrupt => report::two(
            text::glue3("  ✗  identity key at ", path, " is corrupt or wrong version"),
            "     delete it to generate a fresh key on next use",
            true,
        ),
        IdentitySeen::Sound(key) => {
            let chars: Vec<char> = text::chars_of(key.as_str());
            let short: String = text::cut(&chars, 0, 12);
            assert(short@ =~= key@.take(12));
            report::one(
                text::glue5("  ✓  identity key at ", path, " (X25519: ", short.as_str(), "…)"),
                false,
            )
        },
    }
}

/// Whether the configuration has such a key.
pub open spec fn known_key(key: Seq<char>) -> bool {
    ||| key == "cc"@
    ||| key == "compress"@
    ||| key == "identity"@
    ||| key == "cipher"@
    ||| key == "max_connections"@
    ||| key == "listen_port"@
    ||| key == "fec_k"@
    ||| key == "fec_r"@
    ||| key == "fips_mode"@
    ||| key == "relays"@
}

/// Whether the configuration has such a key.
pub fn is_known_key(key: &str) -> (r: bool)
    ensures
        r == known_key(key@),
{
    text::same(key, "cc") || text::same(key, "compress") || text::same(key, "identity")
        || text::same(key, "cipher") || text::same(key, "max_connections") || text::same(
        key,
        "listen_port",
    ) || text::same(key, "fec_k") || text::same(key, "fec_r") || text::same(key, "fips_mode")
        || text::same(key, "relays")
}

/// The keys of a list that the configuration does not have.
pub open spec fn unknown_keys(keys: Seq<Seq<char>>) -> Seq<Seq<char>>
    decreases keys.len(),
{
    if keys.len() == 0 {
        Seq::empty()
    } else {
        let before = unknown_keys(keys.drop_last());
        if known_key(keys.last()) {
            before
        } else {
            before.push(keys.last())
        }
    }
}

/// A sorted list with one more text, behind those that do not come after it.
pub open spec fn placed(list: Seq<Seq<char>>, key: Seq<char>) -> Seq<Seq<char>>
    decreases list.len(),
{
    if list.len() > 0 && text::before(key, list.last()) {
        placed(list.drop_last(), key).push(list.last())
    } else {
        list.push(key)
    }
}

/// The texts of a list, sorted.
pub open spec fn sorted(list: Seq<Seq<char>>) -> Seq<Seq<char>>
    decreases list.len(),
{
    if list.len() == 0 {
        Seq::empty()
    } else {
        placed(sorted(list.drop_last()), list.last())
    }
}

/// Whether no text of a list comes before an earlier one.
pub open spec fn ascending(list: Seq<Seq<char>>) -> bool {
    forall|i: int, j: int|
        0 <= i < j < list.len() ==> !text::before(#[trigger] list[j], #[trigger] list[i])
}

proof fn lemma_placed(list: Seq<Seq<char>>, key: Seq<char>)
    requires
        ascending(list),
    ensures
        ascending(placed(list, key)),
        placed(list, key).to_multiset() == list.to_multiset().insert(key),
        forall|x: Seq<char>|
            (forall|i: int| 0 <= i < list.len() ==> !text::before(x, #[trigger] list[i]))
                && !text::before(x, key) ==> (forall|i: int|
                0 <= i < placed(list, key).len() ==> !text::before(
                    x,
                    #[trigger] placed(list, key)[i],
                )),
    decreases list.len(),
{
    broadcast use vstd::seq_lib::group_to_multiset_ensures;

    let out = placed(list, key);
    if list.len() > 0 && text::before(key, list.last()) {
        let l = list.last();
        let front = list.drop_last();
        lemma_placed(front, key);
        text::lemma_before_order(key, l);
        assert(list =~= front.push(l));
        assert forall|i: int, j: int| 0 <= i < j < out.len() implies !text::before(
            #[trigger] out[j],
            #[trigger] out[i],
        ) by {
            if j == out.len() - 1 {
                assert(forall|a: int| 0 <= a < front.len() ==> !text::before(l, #[trigger] front[a]))
                    by {
                    assert forall|a: int| 0 <= a < front.len() implies !text::before(
                        l,
                        #[trigger] front[a],
                    ) by {
                        assert(list[a] == front[a]);
                        assert(list[list.len() - 1] == l);
                    }
                }
                assert(out[i] == placed(front, key)[i]);
            } else {
                assert(out[i] == placed(front, key)[i] && out[j] == placed(front, key)[j]);
            }
        }
        assert forall|x: Seq<char>|
            (forall|i: int| 0 <= i < list.len() ==> !text::before(x, #[trigger] list[i]))
                && !text::before(x, key) implies (forall|i: int|
            0 <= i < out.len() ==> !text::before(x, #[trigger] out[i])) by {
            assert forall|i: int| 0 <= i < front.len() implies !text::before(
                x,
                #[trigger] front[i],
            ) by {
                assert(list[i] == front[i]);
            }
            assert(list[list.len() - 1] == l);
            assert forall|i: int| 0 <= i < out.len() implies !text::before(
                x,
                #[trigger] out[i],
            ) by {
                if i < out.len() - 1 {
                    assert(out[i] == placed(front, key)[i]);
                }
            }
        }
        assert(out.to_multiset() =~= list.to_multiset().insert(key));
    } else {
        assert forall|i: int, j: int| 0 <= i < j < out.len() implies !text::before(
            #[trigger] out[j],
            #[trigger] out[i],
        ) by {
            if j == list.len() {
                let l = list.last();
                if i < list.len() - 1 {
                    assert(list[list.len() - 1] == l);
                    assert(!text::before(l, list[i]));
                    if text::before(key, list[i]) {
                        text::lemma_before_order(l, list[i]);
                        text::lemma_before_order(key, l);
                        if l != list[i] && key != l {
                            text::lemma_before_transitive(key, list[i], l);
                        }
                    }
                }
            }
        }
    }
}

/// The unknown keys are listed in order, and each of them as often as it occurs.
pub proof fn law_sorted(list: Seq<Seq<char>>)
    ensures
        ascending(sorted(list)),
        sorted(list).to_multiset() == list.to_multiset(),
    decreases list.len(),
{
    broadcast use vstd::seq_lib::group_to_multiset_ensures;

    if list.len() > 0 {
        law_sorted(list.drop_last());
        lemma_placed(sorted(list.drop_last()), list.last());
        assert(list =~= list.drop_last().push(list.last()));
    } else {
        assert(sorted(list) =~= list);
    }
}

/// Puts a text into a sorted list.
fn place(list: &mut Vec<String>, key: String)
    ensures
        text::texts(final(list)@) == placed(text::texts(old(list)@), key@),
{
    let ghost all = text::texts(list@);
    let ghost k = key@;
    let mut at: usize = list.len();
    assert(all.take(at as int) =~= all);
    assert(all.skip(at as int) =~= Seq::empty());
    assert(placed(all, k) =~= placed(all.take(at as int), k) + all.skip(at as int));
    while at > 0 && text::comes_before(key.as_str(), list[at - 1].as_str())
        invariant
            at <= list@.len(),
            all == text::texts(list@),
            k == key@,
            placed(all, k) == placed(all.take(at as int), k) + all.skip(at as int),
        decreases at,
    {
        proof {
            let a = all.take(at as int);
            assert(a.drop_last() =~= all.take(at - 1));
            assert(a.last() == list@[at - 1]@);
            assert(placed(a.drop_last(), k).push(a.last()) + all.skip(at as int) =~= placed(
                all.take(at - 1),
                k,
            ) + all.skip(at - 1));
        }
        at = at - 1;
    }
    proof {
        let a = all.take(at as int);
        if at > 0 {
            assert(a.last() == list@[at - 1]@);
        }
        assert(placed(a, k) == a.push(k));
    }
    list.insert(at, key);
    assert(text::texts(list@) =~= all.take(at as int).push(k) + all.skip(at as int));
}

/// Finds keys that the configuration does not have.
pub open spec fn keys_model(keys: Seq<Seq<char>>, path: Seq<char>) -> report::FindingModel {
    let unknown = sorted(unknown_keys(keys));
    if unknown.len() == 0 {
        report::fine(Seq::empty())
    } else {
        report::fine(
            seq![
                "  !  config at "@ + path + " has unknown key(s): "@ + text::join(unknown, ", "@),
                "     valid keys: cc, compress, identity, cipher, max_connections, listen_port, fec_k, fec_r, fips_mode, relays"@,
            ],
        )
    }
}

/// Finds keys that the configuration does not have.
pub fn check_keys(keys: &Vec<String>, path: &str) -> (f: Finding)
    ensures
        f@ == keys_model(text::texts(keys@), path@),
{
    let n: usize = keys.len();
    let ghost all = text::texts(keys@);
    let mut unknown: Vec<String> = Vec::new();
    assert(all.take(0) =~= Seq::empty());
    assert(text::texts(unknown@) =~= Seq::empty());
    for i in 0..n
        invariant
            n == keys@.len(),
            all == text::texts(keys@),
            text::texts(unknown@) == sorted(unknown_keys(all.take(i as int))),
    {
        proof {
            assert(all.take(i + 1).drop_last() =~= all.take(i as int));
            assert(all.take(i + 1).last() == keys@[i as int]@);
        }
        if !is_known_key(keys[i].as_str()) {
            place(&mut unknown, text::owned(keys[i].as_str()));
            assert(unknown_keys(all.take(i + 1)).drop_last() =~= unknown_keys(all.take(i as int)));
        }
    }
    assert(all.take(n as int) =~= all);
    if unknown.len() == 0 {
        return report::nothing();
    }
    let list: String = text::join_texts(&unknown, ", ");
    report::two(
        text::glue4("  !  config at ", path, " has unknown key(s): ", list.as_str()),
        "     valid keys: cc, compress, identity, cipher, max_connections, listen_port, fec_k, fec_r, fips_mode, relays",
        false,
    )
}

/// Finds whether a configuration file is a table, and keys that the configuration does not have.
/// The keys of the table are given, or why the file cannot be parsed.
pub open spec fn config_text_model(
    keys: Result<Option<Seq<Seq<char>>>, Seq<char>>,
    path: Seq<char>,
) -> report::FindingModel {
    match keys {
        Ok(Some(k)) => keys_model(k, path),
        Ok(None) => report::fatal(seq!["  ✗  config is not a TOML table: "@ + path]),
        Err(e) => report::fatal(
            seq![
                "  ✗  config parse error: "@ + e,
                "     fix: seam config init  (or edit "@ + path + ")"@,
            ],
        ),
    }
}

/// Finds whether a configuration file is a table, and keys that the configuration does not have,
/// given the keys of the table or why the file cannot be parsed.
pub fn check_parsed(keys: &Result<Option<Vec<String>>, String>, path: &str) -> (f: Finding)
    ensures
        f@ == config_text_model(formats::key_texts(*keys), path@),
{
    match keys {
        Ok(Some(k)) => check_keys(k, path),
        Ok(None) => report::one(text::joined("  ✗  config is not a TOML table: ", path), true),
        Err(e) => report::two(
            text::joined("  ✗  config parse error: ", e.as_str()),
            text::glue3("     fix: seam config init  (or edit ", path, ")").as_str(),
            true,
        ),
    }
}

/// Finds that there is no configuration file.
pub fn config_absent(path: &str) -> (f: Finding)
    ensures
        f@ == report::fine(seq!["  ·  no config file — using defaults ("@ + path@ + ")"@]),
{
    report::one(text::glue3("  ·  no config file — using defaults (", path, ")"), false)
}

/// Finds that a configuration file cannot be read.
pub fn config_unread(path: &str, why: &str) -> (f: Finding)
    ensures
        f@ == report::fatal(seq!["  ✗  cannot read config "@ + path@ + ": "@ + why@]),
{
    report::one(text::glue4("  ✗  cannot read config ", path, ": ", why), true)
}

/// Finds that a configuration cannot be taken over.
pub fn config_unloaded(why: &str) -> (f: Finding)
    ensures
        f@ == report::fatal(seq!["  ✗  config load failed: "@ + why@]),
{
    report::one(text::joined("  ✗  config load failed: ", why), true)
}

/// Finds whether the text of a configuration file is a table, and keys that the configuration
/// does not have.
pub fn check_config_text(src: &str, path: &str) -> (f: Finding)
    ensures
        f@ == config_text_model(formats::toml_keys(src@), path@),
{
    check_parsed(&formats::toml_key_list(src), path)
}

/// Finds a congestion controller that there is not.
pub open spec fn cc_model(cc: Seq<char>) -> report::FindingModel {
    if cc == "cubic"@ || cc == "bbr"@ {
        report::fine(Seq::empty())
    } else {
        report::fatal(
            seq![
                "  ✗  config.cc = "@ + text::debug_form(cc) + " — must be 'cubic' or 'bbr'"@,
                "     fix: seam config set cc cubic"@,
            ],
        )
    }
}

/// Finds a congestion controller that there is not.
pub fn check_cc(cc: &str) -> (f: Finding)
    ensures
        f@ == cc_model(cc@),
{
    if text::same(cc, "cubic") || text::same(cc, "bbr") {
        return report::nothing();
    }
    report::two(
        text::glue3(
            "  ✗  config.cc = ",
            text::debug_text(cc).as_str(),
            " — must be 'cubic' or 'bbr'",
        ),
        "     fix: seam config set cc cubic",
        true,
    )
}

/// Finds whether there is such a cipher, and whether it is fast here.
pub open spec fn cipher_model(cipher: Seq<char>, aes_ni: bool) -> report::FindingModel {
    if cipher == "aes256gcm"@ {
        if aes_ni {
            report::fine(
                seq!["  ✓  cipher: aes256gcm (AES-NI detected — hardware accelerated)"@],
            )
        } else {
            report::fine(
                seq![
                    "  !  cipher: aes256gcm but no AES-NI detected — software fallback may be slow"@,
                    "     consider: seam config set cipher chacha20poly1305"@,
                ],
            )
        }
    } else if cipher == "chacha20poly1305"@ {
        report::fine(seq!["  ✓  cipher: chacha20poly1305 (default)"@])
    } else {
        report::fatal(
            seq![
                "  ✗  config.cipher = "@ + text::debug_form(cipher)
                    + " — must be 'chacha20poly1305' or 'aes256gcm'"@,
            ],
        )
    }
}

/// Finds whether there is such a cipher, and whether it is fast here.
pub fn check_cipher(cipher: &str, aes_ni: bool) -> (f: Finding)
    ensures
        f@ == cipher_model(cipher@, aes_ni),
{
    if text::same(cipher, "aes256gcm") {
        if aes_ni {
            report::one(
                text::owned("  ✓  cipher: aes256gcm (AES-NI detected — hardware accelerated)"),
                false,
            )
        } else {
            report::two(
                text::owned(
                    "  !  cipher: aes256gcm but no AES-NI detected — software fallback may be slow",
                ),
                "     consider: seam config set cipher chacha20poly1305",
                false,
            )
        }
    } else if text::same(cipher, "chacha20poly1305") {
        report::one(text::owned("  ✓  cipher: chacha20poly1305 (default)"), false)
    } else {
        report::one(
            text::glue3(
                "  ✗  config.cipher = ",
                text::debug_text(cipher).as_str(),
                " — must be 'chacha20poly1305' or 'aes256gcm'",
            ),
            true,
        )
    }
}

/// Finds whether the limit on connections makes sense.
pub open spec fn connections_model(max: usize) -> report::FindingModel {
    if max == 0 {
        report::fatal(
            seq![
                "  ✗  config.max_connections = 0 — must be at least 1"@,
                "     fix: seam config set max_connections 1024"@,
            ],
        )
    } else if max >= 65536 {
        report::fine(
            seq![
                "  !  config.max_connections = "@ + text::decimal(max as nat)
                    + " — unusually large (>= 65536); check intent"@,
            ],
        )
    } else {
        report::fine(seq!["  ✓  max_connections: "@ + text::decimal(max as nat)])
    }
}

/// Finds whether the limit on connections makes sense.
pub fn check_connections(max: usize) -> (f: Finding)
    ensures
        f@ == connections_model(max),
{
    if max == 0 {
        report::two(
            text::owned("  ✗  config.max_connections = 0 — must be at least 1"),
            "     fix: seam config set max_connections 1024",
            true,
        )
    } else if max >= 65536 {
        report::one(
            text::glue3(
                "  !  config.max_connections = ",
                text::decimal_text(max as u64).as_str(),
                " — unusually large (>= 65536); check intent",
            ),
            false,
        )
    } else {
        report::one(
            text::joined("  ✓  max_connections: ", text::decimal_text(max as u64).as_str()),
            false,
        )
    }
}

/// Finds whether the port can be listened on.
pub open spec fn port_model(port: u16, privileged: bool) -> report::FindingModel {
    if port == 0 {
        report::fine(seq!["  ✓  listen_port: 0 (OS-assigned, ephemeral)"@])
    } else if port < 1024 {
        if privileged {
            report::fine(
                seq![
                    "  ✓  listen_port: "@ + text::decimal(port as nat)
                        + " (privileged port, running as root)"@,
                ],
            )
        } else {
            report::fine(
                seq![
                    "  !  listen_port: "@ + text::decimal(port as nat)
                        + " — port < 1024 requires root/CAP_NET_BIND_SERVICE"@,
                    "     fix: seam config set listen_port 7474  (or run as root)"@,
                ],
            )
        }
    } else {
        report::fine(seq!["  ✓  listen_port: "@ + text::decimal(port as nat)])
    }
}

/// Finds whether the port can be listened on.
pub fn check_port(port: u16, privileged: bool) -> (f: Finding)
    ensures
        f@ == port_model(port, privileged),
{
    if port == 0 {
        return report::one(text::owned("  ✓  listen_port: 0 (OS-assigned, ephemeral)"), false);
    }
    let number: String = text::decimal_text(port as u64);
    if port < 1024 {
        if privileged {
            report::one(
                text::glue3(
                    "  ✓  listen_port: ",
                    number.as_str(),
                    " (privileged port, running as root)",
                ),
                false,
            )
        } else {
            report::two(
                text::glue3(
                    "  !  listen_port: ",
                    number.as_str(),
                    " — port < 1024 requires root/CAP_NET_BIND_SERVICE",
                ),
                "     fix: seam config set listen_port 7474  (or run as root)",
                false,
            )
        }
    } else {
        report::one(text::joined("  ✓  listen_port: ", number.as_str()), false)
    }
}

/// Finds whether the identity key that the configuration names is there.
pub open spec fn identity_path_model(identity: Option<Seq<char>>, exists: bool) ->
    report::FindingModel {
    match identity {
        Some(id) => if exists {
            report::fine(Seq::empty())
        } else {
            report::fine(
                seq![
                    "  !  config.identity = "@ + text::debug_form(id)
                        + " — file not found (will be generated on first use)"@,
                ],
            )
        },
        None => report::fine(Seq::empty()),
    }
}

/// Finds whether the identity key that the configuration names is there.
pub fn check_identity_path(identity: &Option<String>, exists: bool) -> (f: Finding)
    ensures
        f@ == identity_path_model(
            match *identity {
                Some(s) => Some(s@),
                None => None,
            },
            exists,
        ),
{
    match identity {
        Some(id) => {
            if exists {
                return report::nothing();
            }
            report::one(
                text::glue3(
                    "  !  config.identity = ",
                    text::debug_text(id.as_str()).as_str(),
                    " — file not found (will be generated on first use)",
                ),
                false,
            )
        },
        None => report::nothing(),
    }
}

/// Finds whether the error correction numbers make sense. The overhead comes as text, in percent.
pub open spec fn fec_model(k: Option<u8>, r: Option<u8>, overhead: Seq<char>) ->
    report::FindingModel {
    match (k, r) {
        (Some(a), Some(b)) => if a == 0 {
            report::fine(seq!["  ✓  FEC: disabled (pure ARQ)"@])
        } else if a < 2 {
            report::fatal(
                seq![
                    "  ✗  config.fec_k = "@ + text::decimal(a as nat)
                        + " — must be 0 (disabled) or ≥ 2"@,
                ],
            )
        } else if b == 0 {
            report::fatal(seq!["  ✗  config.fec_r = 0 — must be ≥ 1 when fec_k > 0"@])
        } else {
            report::fine(
                seq![
                    "  ✓  FEC: k="@ + text::decimal(a as nat) + " r="@ + text::decimal(b as nat)
                        + " ("@ + overhead + "% overhead) — manual override"@,
                ],
            )
        },
        (Some(a), None) => if a > 0 {
            report::fine(
                seq![
                    "  !  config.fec_k = "@ + text::decimal(a as nat)
                        + " set but fec_r not set — defaulting fec_r = 2"@,
                    "     fix: seam config set fec_r 2"@,
                ],
            )
        } else {
            report::fine(
                seq!["  ✓  FEC: auto (dynamic arbiter — adapts to link quality)"@],
            )
        },
        (None, Some(_)) => report::fine(
            seq![
                "  !  config.fec_r set without fec_k — fec_r is ignored"@,
                "     fix: seam config set fec_k 8  (or remove fec_r)"@,
            ],
        ),
        (None, None) => report::fine(
            seq!["  ✓  FEC: auto (dynamic arbiter — adapts to link quality)"@],
        ),
    }
}

/// Finds whether the error correction numbers make sense.
pub fn check_fec(k: Option<u8>, r: Option<u8>, overhead: &str) -> (f: Finding)
    ensures
        f@ == fec_model(k, r, overhead@),
{
    match (k, r) {
        (Some(a), Some(b)) => {
            if a == 0 {
                report::one(text::owned("  ✓  FEC: disabled (pure ARQ)"), false)
            } else if a < 2 {
                report::one(
                    text::glue3(
                        "  ✗  config.fec_k = ",
                        text::decimal_text(a as u64).as_str(),
                        " — must be 0 (disabled) or ≥ 2",
                    ),
                    true,
                )
            } else if b == 0 {
                report::one(
                    text::owned("  ✗  config.fec_r = 0 — must be ≥ 1 when fec_k > 0"),
                    true,
                )
            } else {
                report::one(
                    text::glue7(
                        "  ✓  FEC: k=",
                        text::decimal_text(a as u64).as_str(),
                        " r=",
                        text::decimal_text(b as u64).as_str(),
                        " (",
                        overhead,
                        "% overhead) — manual override",
                    ),
                    false,
                )
            }
        },
        (Some(a), None) => {
            if a > 0 {
                report::two(
                    text::glue3(
                        "  !  config.fec_k = ",
                        text::decimal_text(a as u64).as_str(),
                        " set but fec_r not set — defaulting fec_r = 2",
                    ),
                    "     fix: seam config set fec_r 2",
                    false,
                )
            } else {
                report::one(
                    text::owned("  ✓  FEC: auto (dynamic arbiter — adapts to link quality)"),
                    false,
                )
            }
        },
        (None, Some(_)) => report::two(
            text::owned("  !  config.fec_r set without fec_k — fec_r is ignored"),
            "     fix: seam config set fec_k 8  (or remove fec_r)",
            false,
        ),
        (None, None) => report::one(
            text::owned("  ✓  FEC: auto (dynamic arbiter — adapts to link quality)"),
            false,
        ),
    }
}

/// What is observed beside the configuration.
#[derive(Debug)]
pub struct Surroundings {
    /// Where the configuration lies.
    pub config_path: String,
    /// Whether the processor has AES instructions.
    pub aes_ni: bool,
    /// Whether the user may listen on any port.
    pub privileged: bool,
    /// Whether the identity key that the configuration names is there.
    pub identity_exists: bool,
    /// The overhead of the error correction, in percent.
    pub overhead: String,
}

/// Finds whether a configuration makes sense.
pub open spec fn config_model(c: config::ConfigModel, s: Surroundings) -> report::FindingModel {
    report::joined(
        report::joined(
            report::joined(
                report::joined(
                    report::joined(
                        report::joined(
                            report::fine(seq!["  ✓  config at "@ + s.config_path@]),
                            cc_model(c.cc),
                        ),
                        cipher_model(c.cipher, s.aes_ni),
                    ),
                    connections_model(c.max_connections),
                ),
                port_model(c.listen_port, s.privileged),
            ),
            identity_path_model(c.identity, s.identity_exists),
        ),
        fec_model(c.fec_k, c.fec_r, s.overhead@),
    )
}

/// Finds whether a configuration makes sense.
pub fn check_config(c: &Config, s: &Surroundings) -> (f: Finding)
    ensures
        f@ == config_model(c@, *s),
{
    let mut f: Finding = report::one(
        text::joined("  ✓  config at ", s.config_path.as_str()),
        false,
    );
    f.append(check_cc(c.cc.as_str()));
    f.append(check_cipher(c.cipher.as_str(), s.aes_ni));
    f.append(check_connections(c.max_connections));
    f.append(check_port(c.listen_port, s.privileged));
    f.append(check_identity_path(&c.identity, s.identity_exists));
    f.append(check_fec(c.fec_k, c.fec_r, s.overhead.as_str()));
    f
}

/// A configuration fails the examination if and only if one of its values could not be set:
/// a controller, a cipher, a limit or error correction numbers that there are not.
pub proof fn law_config_fatal(c: config::ConfigModel, s: Surroundings)
    ensures
        config_model(c, s).fatal <==> ({
            ||| c.cc != "cubic"@ && c.cc != "bbr"@
            ||| c.cipher != "aes256gcm"@ && c.cipher != "chacha20poly1305"@
            ||| c.max_connections == 0
            ||| c.fec_k == Some(1u8) && c.fec_r is Some
            ||| c.fec_k is Some && c.fec_k->0 >= 2 && c.fec_r == Some(0u8)
        }),
{
}

/// Finds whether the socket buffers are large.
pub open spec fn buffers_model(sizes: Option<(u64, u64)>) -> report::FindingModel {
    match sizes {
        Some((rx, tx)) => {
            let first = "  ✓  UDP socket buffers: rx="@ + text::decimal(rx as nat) + " B, tx="@
                + text::decimal(tx as nat) + " B"@;
            if rx < GOOD_BUFFER || tx < GOOD_BUFFER {
                report::fine(
                    seq![
                        first,
                        "     consider: sysctl -w net.core.rmem_max=8388608"@,
                        "               sysctl -w net.core.wmem_max=8388608"@,
                    ],
                )
            } else {
                report::fine(seq![first])
            }
        },
        None => report::fine(seq!["  !  could not test UDP socket buffers"@]),
    }
}

/// Finds whether the socket buffers are large.
pub fn check_buffers(sizes: Option<(u64, u64)>) -> (f: Finding)
    ensures
        f@ == buffers_model(sizes),
{
    match sizes {
        Some((rx, tx)) => {
            let first: String = text::glue5(
                "  ✓  UDP socket buffers: rx=",
                text::decimal_text(rx).as_str(),
                " B, tx=",
                text::decimal_text(tx).as_str(),
                " B",
            );
            if rx < GOOD_BUFFER || tx < GOOD_BUFFER {
                report::three(
                    first,
                    "     consider: sysctl -w net.core.rmem_max=8388608",
                    "               sysctl -w net.core.wmem_max=8388608",
                    false,
                )
            } else {
                report::one(first, false)
            }
        },
        None => report::one(text::owned("  !  could not test UDP socket buffers"), false),
    }
}

/// Finds whether datagrams come back from the loopback interface.
pub open spec fn loopback_model(rtt_us: Result<u64, Seq<char>>) -> report::FindingModel {
    match rtt_us {
        Ok(us) => report::fine(
            seq!["  ✓  UDP loopback self-test passed (RTT: "@ + text::decimal(us as nat) + "µs)"@],
        ),
        Err(e) => report::fine(
            seq![
                "  !  UDP loopback self-test failed: "@ + e,
                "     Seam requires UDP. Check firewall rules if this is unexpected."@,
            ],
        ),
    }
}

/// A result with its error as text.
pub open spec fn error_text(r: Result<u64, String>) -> Result<u64, Seq<char>> {
    match r {
        Ok(v) => Ok(v),
        Err(e) => Err(e@),
    }
}

/// Finds whether datagrams come back from the loopback interface.
pub fn check_loopback(rtt_us: &Result<u64, String>) -> (f: Finding)
    ensures
        f@ == loopback_model(error_text(*rtt_us)),
{
    match rtt_us {
        Ok(us) => report::one(
            text::glue3(
                "  ✓  UDP loopback self-test passed (RTT: ",
                text::decimal_text(*us).as_str(),
                "µs)",
            ),
            false,
        ),
        Err(e) => report::two(
            text::joined("  !  UDP loopback self-test failed: ", e.as_str()),
            "     Seam requires UDP. Check firewall rules if this is unexpected.",
            false,
        ),
    }
}

/// Finds whether error correction works.
pub open spec fn codec_model(elapsed_us: Result<u64, Seq<char>>) -> report::FindingModel {
    match elapsed_us {
        Ok(us) => report::fine(
            seq![
                "  ✓  FEC self-test passed (k=4, r=2, 1-shard corrupt, recovered in "@
                    + text::decimal(us as nat) + "µs)"@,
            ],
        ),
        Err(e) => report::fatal(
            seq![
                "  ✗  FEC self-test FAILED: "@ + e,
                "     Reed-Solomon codec malfunction — do not use seam on sensitive links"@,
            ],
        ),
    }
}

/// Finds whether error correction works.
pub fn check_codec(elapsed_us: &Result<u64, String>) -> (f: Finding)
    ensures
        f@ == codec_model(error_text(*elapsed_us)),
{
    match elapsed_us {
        Ok(us) => report::one(
            text::glue3(
                "  ✓  FEC self-test passed (k=4, r=2, 1-shard corrupt, recovered in ",
                text::decimal_text(*us).as_str(),
                "µs)",
            ),
            false,
        ),
        Err(e) => report::two(
            text::joined("  ✗  FEC self-test FAILED: ", e.as_str()),
            "     Reed-Solomon codec malfunction — do not use seam on sensitive links",
            true,
        ),
    }
}

/// The sizes of the datagrams that probe a path.
pub open spec fn probe_sizes() -> Seq<u64> {
    seq![576, 1024, 1280, 1400, 1472, 1500]
}

/// The size of a probe.
pub fn probe_size(i: usize) -> (size: u64)
    requires
        i < 6,
    ensures
        size == probe_sizes()[i as int],
{
    let sizes: [u64; 6] = [576, 1024, 1280, 1400, 1472, 1500];
    assert(sizes@ =~= probe_sizes());
    sizes[i]
}

/// How many of the probes came back before the first that did not.
pub open spec fn probes_back(back: Seq<bool>) -> nat
    decreases back.len(),
{
    if back.len() == 0 || !back[0] {
        0
    } else {
        1 + probes_back(back.skip(1))
    }
}

/// The largest datagram that a path carries, as far as the probes show, given which of them came
/// back; they are sent in order until one does not.
pub fn effective_mtu(back: &Vec<bool>) -> (mtu: u64)
    requires
        back@.len() <= 6,
    ensures
        mtu == if probes_back(back@) == 0 {
            576
        } else {
            probe_sizes()[probes_back(back@) - 1]
        },
{
    let n: usize = back.len();
    let mut i: usize = 0;
    assert(back@.skip(0) =~= back@);
    while i < n && back[i]
        invariant
            i <= n,
            n == back@.len(),
            probes_back(back@) == i + probes_back(back@.skip(i as int)),
        decreases n - i,
    {
        assert(back@.skip(i as int).skip(1) =~= back@.skip(i + 1));
        i = i + 1;
    }
    if i == 0 {
        576
    } else {
        probe_size(i - 1)
    }
}

/// Finds whether datagrams of a useful size pass.
pub open spec fn mtu_model(mtu: Result<u64, Seq<char>>) -> report::FindingModel {
    match mtu {
        Ok(m) => {
            let first = "  ✓  path MTU (loopback probe): "@ + text::decimal(m as nat) + " bytes"@;
            if m < 1280 {
                report::fatal(
                    seq![
                        first,
                        "  ✗  effective MTU "@ + text::decimal(m as nat)
                            + " B is below the 1280 B minimum for seam"@,
                        "     satellite/radio links with low MTU require fec_k and fec_r tuning"@,
                        "     recommend: seam config set fec_k 4  &&  seam config set fec_r 4"@,
                    ],
                )
            } else if m < 1400 {
                report::fine(
                    seq![
                        first,
                        "  !  effective MTU "@ + text::decimal(m as nat)
                            + " B — below 1400 B (common on VSAT/radio links)"@,
                        "     consider: seam config set fec_k 4  &&  seam config set fec_r 4"@,
                    ],
                )
            } else if m < 1472 {
                report::fine(
                    seq![
                        first,
                        "  !  effective MTU "@ + text::decimal(m as nat)
                            + " B — standard Ethernet minus PPPoE/VPN headers"@,
                    ],
                )
            } else {
                report::fine(seq![first])
            }
        },
        Err(e) => report::fine(seq!["  !  path MTU probe failed: "@ + e]),
    }
}

/// Finds whether datagrams of a useful size pass.
pub fn check_mtu(mtu: &Result<u64, String>) -> (f: Finding)
    ensures
        f@ == mtu_model(error_text(*mtu)),
{
    match mtu {
        Ok(m) => {
            let number: String = text::decimal_text(*m);
            let first: String = text::glue3(
                "  ✓  path MTU (loopback probe): ",
                number.as_str(),
                " bytes",
            );
            let mut f: Finding = report::one(first, false);
            if *m < 1280 {
                f.append(
                    report::three(
                        text::glue3(
                            "  ✗  effective MTU ",
                            number.as_str(),
                            " B is below the 1280 B minimum for seam",
                        ),
                        "     satellite/radio links with low MTU require fec_k and fec_r tuning",
                        "     recommend: seam config set fec_k 4  &&  seam config set fec_r 4",
                        true,
                    ),
                );
                assert(f@ =~= mtu_model(error_text(*mtu)));
            } else if *m < 1400 {
                f.append(
                    report::two(
                        text::glue3(
                            "  !  effective MTU ",
                            number.as_str(),
                            " B — below 1400 B (common on VSAT/radio links)",
                        ),
                        "     consider: seam config set fec_k 4  &&  seam config set fec_r 4",
                        false,
                    ),
                );
                assert(f@ =~= mtu_model(error_text(*mtu)));
            } else if *m < 1472 {
                f.append(
                    report::one(
                        text::glue3(
                            "  !  effective MTU ",
                            number.as_str(),
                            " B — standard Ethernet minus PPPoE/VPN headers",
                        ),
                        false,
                    ),
                );
                assert(f@ =~= mtu_model(error_text(*mtu)));
            }
            f
        },
        Err(e) => report::one(text::joined("  !  path MTU probe failed: ", e.as_str()), false),
    }
}

/// A version as three numbers; a version of two has a third that is zero.
pub open spec fn version_of(s: Seq<char>) -> Option<(nat, nat, nat)> {
    let p = text::split(s, '.');
    if p.len() < 2 || p.len() > 3 {
        None
    } else {
        let patch = if p.len() == 3 {
            text::number(p[2], u64::MAX as nat)
        } else {
            Some(0nat)
        };
        match (text::number(p[0], u64::MAX as nat), text::number(p[1], u64::MAX as nat), patch) {
            (Some(a), Some(b), Some(c)) => Some((a, b, c)),
            _ => None,
        }
    }
}

/// Whether a version is later than another.
pub open spec fn later(a: (nat, nat, nat), b: (nat, nat, nat)) -> bool {
    a.0 > b.0 || (a.0 == b.0 && (a.1 > b.1 || (a.1 == b.1 && a.2 > b.2)))
}

/// Reads a version.
pub fn parse_version(s: &str) -> (v: Option<(u64, u64, u64)>)
    ensures
        match v {
            Some(t) => version_of(s@) == Some((t.0 as nat, t.1 as nat, t.2 as nat)),
            None => version_of(s@) is None,
        },
{
    let parts: Vec<String> = text::pieces(s, '.');
    let ghost p = text::split(s@, '.');
    assert(p.len() == parts@.len());
    if parts.len() < 2 || parts.len() > 3 {
        return None;
    }
    assert(p[0] == parts@[0]@ && p[1] == parts@[1]@);
    let patch: Option<u64> = if parts.len() == 3 {
        assert(p[2] == parts@[2]@);
        text::parse_number(parts[2].as_str(), u64::MAX)
    } else {
        Some(0)
    };
    match (
        text::parse_number(parts[0].as_str(), u64::MAX),
        text::parse_number(parts[1].as_str(), u64::MAX),
        patch,
    ) {
        (Some(a), Some(b), Some(c)) => Some((a, b, c)),
        _ => None,
    }
}

/// Whether a version is later than the current one; a version that cannot be read is not.
pub open spec fn newer(candidate: Seq<char>, current: Seq<char>) -> bool {
    match (version_of(candidate), version_of(current)) {
        (Some(a), Some(b)) => later(a, b),
        _ => false,
    }
}

/// Whether a version is later than the current one.
pub fn is_newer(candidate: &str, current: &str) -> (r: bool)
    ensures
        r == newer(candidate@, current@),
{
    match (parse_version(candidate), parse_version(current)) {
        (Some(a), Some(b)) => a.0 > b.0 || (a.0 == b.0 && (a.1 > b.1 || (a.1 == b.1 && a.2
            > b.2))),
        _ => false,
    }
}

/// No version is later than itself, and of two versions at most one is later.
pub proof fn law_newer_is_strict(a: Seq<char>, b: Seq<char>)
    ensures
        !newer(a, a),
        newer(a, b) ==> !newer(b, a),
{
}

/// A later version than a later version is later.
pub proof fn law_newer_is_transitive(a: Seq<char>, b: Seq<char>, c: Seq<char>)
    requires
        newer(a, b),
        newer(b, c),
    ensures
        newer(a, c),
{
}

/// A tag without the letters `v` in front of it.
pub open spec fn untagged(tag: Seq<char>) -> Seq<char>
    decreases tag.len(),
{
    if tag.len() > 0 && tag[0] == 'v' {
        untagged(tag.skip(1))
    } else {
        tag
    }
}

/// A tag without the letters `v` in front of it.
pub fn strip_tag(tag: &str) -> (out: String)
    ensures
        out@ == untagged(tag@),
{
    let chars: Vec<char> = text::chars_of(tag);
    let n: usize = chars.len();
    let mut i: usize = 0;
    assert(tag@.skip(0) =~= tag@);
    while i < n && chars[i] == 'v'
        invariant
            i <= n,
            n == chars@.len(),
            chars@ == tag@,
            untagged(tag@) == untagged(tag@.skip(i as int)),
        decreases n - i,
    {
        assert(tag@.skip(i as int).skip(1) =~= tag@.skip(i + 1));
        i = i + 1;
    }
    let out: String = text::cut(&chars, i, n);
    assert(out@ =~= tag@.skip(i as int));
    out
}

/// The tag in a description of the latest release, given what its field holds, or why there is
/// none.
pub open spec fn tag_named(field: Result<Option<Seq<char>>, Seq<char>>) -> Result<
    Seq<char>,
    Seq<char>,
> {
    match field {
        Ok(Some(tag)) => Ok(untagged(tag)),
        Ok(None) => Err("no tag_name in response"@),
        Err(e) => Err("Failed to read JSON: "@ + e),
    }
}

/// The tag in a description of the latest release, given what its field holds.
pub fn named_tag(field: Result<Option<String>, String>) -> (tag: Result<String, String>)
    ensures
        result_text(tag) == tag_named(formats::field_texts(field)),
{
    match field {
        Ok(Some(tag)) => Ok(strip_tag(tag.as_str())),
        Ok(None) => Err(text::owned("no tag_name in response")),
        Err(e) => Err(text::joined("Failed to read JSON: ", e.as_str())),
    }
}

/// The tag in a description of the latest release.
pub fn release_tag(body: &[u8]) -> (tag: Result<String, String>)
    ensures
        result_text(tag) == tag_named(formats::json_text(body@, "tag_name"@)),
{
    named_tag(formats::json_field(body, "tag_name"))
}

/// Finds whether a later version has been released. The tag of the latest release is given, or
/// why it is not known.
pub open spec fn version_model(current: Seq<char>, latest: Result<Seq<char>, Seq<char>>) ->
    report::FindingModel {
    match latest {
        Ok(tag) => if newer(untagged(tag), current) {
            report::fine(
                seq![
                    "  !  update available: "@ + current + " → "@ + untagged(tag),
                    "     upgrade: seam update"@,
                ],
            )
        } else {
            report::fine(seq!["  ✓  seam "@ + current + " is up to date"@])
        },
        Err(e) => report::fine(seq!["  ·  version check skipped (no network: "@ + e + ")"@]),
    }
}

/// Finds whether a later version has been released.
pub fn check_version(current: &str, latest: &Result<String, String>) -> (f: Finding)
    ensures
        f@ == version_model(current@, result_text(*latest)),
{
    match latest {
        Ok(tag) => {
            let tag: String = strip_tag(tag.as_str());
            if is_newer(tag.as_str(), current) {
                report::two(
                    text::glue4("  !  update available: ", current, " → ", tag.as_str()),
                    "     upgrade: seam update",
                    false,
                )
            } else {
                report::one(text::glue3("  ✓  seam ", current, " is up to date"), false)
            }
        },
        Err(e) => report::one(
            text::glue3("  ·  version check skipped (no network: ", e.as_str(), ")"),
            false,
        ),
    }
}

/// Finds whether FIPS mode is on.
pub fn check_fips(active: bool) -> (f: Finding)
    ensures
        f@ == report::fine(
            seq![
                if active {
                    "  ✓  FIPS mode: enabled — algorithms: "@
                        + "AES-256-GCM (FIPS 197), ML-KEM-768 (FIPS 203), X25519 (SP 800-186), SHA-256 (FIPS 180-4)"@
                } else {
                    "  ·  FIPS mode: disabled (set fips_mode = true in config or SEAM_FIPS_MODE=1 to enable)"@
                },
            ],
        ),
{
    if active {
        report::one(
            text::joined("  ✓  FIPS mode: enabled — algorithms: ", Config::fips_banner()),
            false,
        )
    } else {
        report::one(
            text::owned(
                "  ·  FIPS mode: disabled (set fips_mode = true in config or SEAM_FIPS_MODE=1 to enable)",
            ),
            false,
        )
    }
}

/// The state of the table of known hosts.
#[derive(Debug)]
pub enum KnownHostsStatus {
    /// There is none.
    NotFound,
    /// It has no pins.
    Empty,
    /// All its pins are sound.
    Sound { count: usize },
    /// Some pins are not fingerprints.
    SuspiciousEntries { hosts: Vec<String> },
    /// A line is no pin.
    ParseError(String),
    /// Others can read it.
    PermissionsWrong { mode: u32 },
}

/// What the lines of a table of known hosts show.
#[verifier::ext_equal]
pub enum TableModel {
    /// So many pins, and those that are not fingerprints.
    Pins { count: nat, suspicious: Seq<Seq<char>> },
    /// A line is no pin.
    Broken { why: Seq<char> },
}

/// Whether a text is the fingerprint of a key: 64 lower-case hex digits.
pub open spec fn is_fingerprint(fp: Seq<char>) -> bool {
    &&& fp.len() == 64
    &&& forall|i: int|
        0 <= i < fp.len() ==> ('0' <= #[trigger] fp[i] <= '9' || 'a' <= fp[i] <= 'f')
}

/// Whether a text is the fingerprint of a key.
pub fn looks_like_fingerprint(fp: &str) -> (r: bool)
    ensures
        r == is_fingerprint(fp@),
{
    let chars: Vec<char> = text::chars_of(fp);
    let n: usize = chars.len();
    if n != 64 {
        return false;
    }
    for i in 0..n
        invariant
            n == chars@.len(),
            n == 64,
            chars@ == fp@,
            forall|j: int|
                0 <= j < i ==> ('0' <= #[trigger] fp@[j] <= '9' || 'a' <= fp@[j] <= 'f'),
    {
        let c: char = chars[i];
        if !(('0' <= c && c <= '9') || ('a' <= c && c <= 'f')) {
            assert(!('0' <= fp@[i as int] <= '9' || 'a' <= fp@[i as int] <= 'f'));
            return false;
        }
    }
    true
}

/// What is said of a pin that is no fingerprint.
pub open spec fn suspicion(host: Seq<char>, fp: Seq<char>) -> Seq<char> {
    host + " (fingerprint has "@ + text::decimal(vstd::utf8::encode_utf8(fp).len())
        + " chars, expected 64)"@
}

/// What is said of a line that is no pin.
pub open spec fn broken_line(number: nat, line: Seq<char>) -> Seq<char> {
    "line "@ + text::decimal(number) + ": expected 'host fingerprint', got: "@ + text::debug_form(
        line,
    )
}

/// What the lines of a table of known hosts show.
pub open spec fn examined(lines: Seq<Seq<char>>) -> TableModel
    decreases lines.len(),
{
    if lines.len() == 0 {
        TableModel::Pins { count: 0, suspicious: Seq::empty() }
    } else {
        match examined(lines.drop_last()) {
            TableModel::Broken { why } => TableModel::Broken { why },
            TableModel::Pins { count, suspicious } => {
                let line = text::trimmed(lines.last());
                let at = text::position(line, ' ');
                if line.len() == 0 || line[0] == '#' {
                    TableModel::Pins { count, suspicious }
                } else if at >= line.len() {
                    TableModel::Broken { why: broken_line(lines.len(), line) }
                } else {
                    let fp = text::trimmed(line.skip(at + 1));
                    TableModel::Pins {
                        count: count + 1,
                        suspicious: if is_fingerprint(fp) {
                            suspicious
                        } else {
                            suspicious.push(suspicion(line.take(at), fp))
                        },
                    }
                }
            },
        }
    }
}

/// Whether a status is what a table of known hosts shows.
pub open spec fn status_matches(s: KnownHostsStatus, t: TableModel) -> bool {
    match t {
        TableModel::Broken { why } => s matches KnownHostsStatus::ParseError(e) && e@ == why,
        TableModel::Pins { count, suspicious } => if suspicious.len() > 0 {
            s matches KnownHostsStatus::SuspiciousEntries { hosts } && text::texts(hosts@)
                == suspicious
        } else if count == 0 {
            s is Empty
        } else {
            s matches KnownHostsStatus::Sound { count: c } && c == count
        },
    }
}

proof fn lemma_examined_broken(lines: Seq<Seq<char>>, n: int)
    requires
        0 <= n <= lines.len(),
    ensures
        examined(lines.take(n)) matches TableModel::Broken { why } ==> examined(lines) == (
        TableModel::Broken { why }),
    decreases lines.len() - n,
{
    if n < lines.len() {
        lemma_examined_broken(lines, n + 1);
        assert(lines.take(n + 1).drop_last() =~= lines.take(n));
    } else {
        assert(lines.take(n) =~= lines);
    }
}

/// Examines a table of known hosts: every line that is not empty or a comment holds a host and
/// the fingerprint of its key. A shorter fingerprint could stand for many keys.
pub fn examine_known_hosts(stored: &str) -> (s: KnownHostsStatus)
    ensures
        status_matches(s, examined(text::lines(stored@))),
{
    let lines: Vec<String> = text::split_lines(stored);
    let n: usize = lines.len();
    let ghost l = text::lines(stored@);
    let mut count: usize = 0;
    let mut suspicious: Vec<String> = Vec::new();
    assert(l.take(0) =~= Seq::empty());
    assert(text::texts(suspicious@) =~= Seq::empty());
    for i in 0..n
        invariant
            n == lines@.len(),
            l == text::texts(lines@),
            l == text::lines(stored@),
            count <= i,
            examined(l.take(i as int)) == (TableModel::Pins {
                count: count as nat,
                suspicious: text::texts(suspicious@),
            }),
    {
        proof {
            assert(l.take(i + 1).drop_last() =~= l.take(i as int));
            assert(l.take(i + 1).last() == lines@[i as int]@);
            lemma_examined_broken(l, i + 1);
        }
        let line: String = text::trim(lines[i].as_str());
        let chars: Vec<char> = text::chars_of(line.as_str());
        let len: usize = chars.len();
        if len > 0 && chars[0] != '#' {
            match text::find(&chars, ' ') {
                None => {
                    let why: String = text::glue4(
                        "line ",
                        text::decimal_text(i as u64 + 1).as_str(),
                        ": expected 'host fingerprint', got: ",
                        text::debug_text(line.as_str()).as_str(),
                    );
                    assert(why@ =~= broken_line((i + 1) as nat, line@));
                    return KnownHostsStatus::ParseError(why);
                },
                Some(at) => {
                    let host: String = text::cut(&chars, 0, at);
                    let rest: String = text::cut(&chars, at + 1, len);
                    let fp: String = text::trim(rest.as_str());
                    proof {
                        assert(host@ =~= line@.take(at as int));
                        assert(rest@ =~= line@.skip(at + 1));
                    }
                    if !looks_like_fingerprint(fp.as_str()) {
                        let say: String = text::glue4(
                            host.as_str(),
                            " (fingerprint has ",
                            text::decimal_text(fp.as_str().as_bytes().len() as u64).as_str(),
                            " chars, expected 64)",
                        );
                        assert(say@ =~= suspicion(host@, fp@));
                        let ghost before = suspicious@;
                        let ghost said = say@;
                        suspicious.push(say);
                        assert(text::texts(suspicious@) =~= text::texts(before).push(said));
                    }
                    count = count + 1;
                },
            }
        }
    }
    assert(l.take(n as int) =~= l);
    if suspicious.len() > 0 {
        KnownHostsStatus::SuspiciousEntries { hosts: suspicious }
    } else if count == 0 {
        KnownHostsStatus::Empty
    } else {
        KnownHostsStatus::Sound { count }
    }
}

/// Whether the permissions of a file let others at it.
pub fn open_to_others(mode: u32) -> (r: bool)
    ensures
        r == (mode & 0o077 != 0),
{
    mode & 0o077 != 0
}

/// The lines that list the suspicious hosts.
pub open spec fn indented(hosts: Seq<Seq<char>>) -> Seq<Seq<char>> {
    Seq::new(hosts.len(), |i: int| "       "@ + hosts[i])
}

/// Finds whether the table of known hosts can be trusted.
pub open spec fn known_hosts_model(s: KnownHostsStatus, path: Seq<char>) -> report::FindingModel {
    match s {
        KnownHostsStatus::NotFound => report::fine(
            seq!["  ·  known_hosts: not found (no TOFU pins stored yet)"@],
        ),
        KnownHostsStatus::Empty => report::fine(
            seq!["  ✓  known_hosts: exists but empty (no pins yet)"@],
        ),
        KnownHostsStatus::Sound { count } => report::fine(
            seq![
                "  ✓  known_hosts: "@ + text::decimal(count as nat)
                    + " pinned host(s) — integrity OK"@,
            ],
        ),
        KnownHostsStatus::ParseError(e) => report::fatal(
            seq![
                "  ✗  known_hosts: parse error — file may be corrupt: "@ + e@,
                "     This could indicate tampering. Inspect manually:"@,
                "       "@ + path,
            ],
        ),
        KnownHostsStatus::SuspiciousEntries { hosts } => report::fatal(
            seq![
                "  !  known_hosts: "@ + text::decimal(hosts@.len()) + " pinned host(s) found"@,
                "  !  WARNING: the following hosts have malformed fingerprints (possible TOFU bypass):"@,
            ] + indented(text::texts(hosts@)) + seq![
                "     Review and re-pin with: seam key --remove-pin <host>  then reconnect"@,
            ],
        ),
        KnownHostsStatus::PermissionsWrong { mode } => report::fine(
            seq![
                "  !  known_hosts: permissions 0o"@ + text::octal(mode as nat)
                    + " — should be 0o600 (others can read your pins)"@,
                "     fix: chmod 600 "@ + path,
            ],
        ),
    }
}

/// Finds whether the table of known hosts can be trusted.
pub fn check_known_hosts(s: &KnownHostsStatus, path: &str) -> (f: Finding)
    ensures
        f@ == known_hosts_model(*s, path@),
{
    match s {
        KnownHostsStatus::NotFound => report::one(
            text::owned("  ·  known_hosts: not found (no TOFU pins stored yet)"),
            false,
        ),
        KnownHostsStatus::Empty => report::one(
            text::owned("  ✓  known_hosts: exists but empty (no pins yet)"),
            false,
        ),
        KnownHostsStatus::Sound { count } => report::one(
            text::glue3(
                "  ✓  known_hosts: ",
                text::decimal_text(*count as u64).as_str(),
                " pinned host(s) — integrity OK",
            ),
            false,
        ),
        KnownHostsStatus::ParseError(e) => report::three(
            text::joined("  ✗  known_hosts: parse error — file may be corrupt: ", e.as_str()),
            "     This could indicate tampering. Inspect manually:",
            text::joined("       ", path).as_str(),
            true,
        ),
        KnownHostsStatus::SuspiciousEntries { hosts } => {
            let n: usize = hosts.len();
            let mut f: Finding = report::two(
                text::glue3(
                    "  !  known_hosts: ",
                    text::decimal_text(n as u64).as_str(),
                    " pinned host(s) found",
                ),
                "  !  WARNING: the following hosts have malformed fingerprints (possible TOFU bypass):",
                true,
            );
            let ghost head = f@.lines;
            let ghost all = indented(text::texts(hosts@));
            assert(head + all.take(0) =~= head);
            for i in 0..n
                invariant
                    n == hosts@.len(),
                    all == indented(text::texts(hosts@)),
                    f@.lines == head + all.take(i as int),
                    f@.fatal,
            {
                f.append(report::one(text::joined("       ", hosts[i].as_str()), true));
                assert(f@.lines =~= head + all.take(i + 1));
            }
            assert(all.take(n as int) =~= all);
            f.append(
                report::one(
                    text::owned(
                        "     Review and re-pin with: seam key --remove-pin <host>  then reconnect",
                    ),
                    true,
                ),
            );
            f
        },
        KnownHostsStatus::PermissionsWrong { mode } => {
            let fix: String = text::joined("     fix: chmod 600 ", path);
            report::two(
                text::glue3(
                    "  !  known_hosts: permissions 0o",
                    text::octal_text(*mode as u64).as_str(),
                    " — should be 0o600 (others can read your pins)",
                ),
                fix.as_str(),
                false,
            )
        },
    }
}

/// The time in the last entry of an audit log, given what its field holds.
pub open spec fn stamp(field: Result<Option<Seq<char>>, Seq<char>>) -> Option<Seq<char>> {
    match field {
        Ok(ts) => ts,
        Err(_) => None,
    }
}

/// The time in an entry of an audit log; an entry that cannot be read has none.
pub fn last_stamp(line: &[u8]) -> (ts: Option<String>)
    ensures
        match ts {
            Some(t) => stamp(formats::json_text(line@, "ts"@)) == Some(t@),
            None => stamp(formats::json_text(line@, "ts"@)) is None,
        },
{
    match formats::json_field(line, "ts") {
        Ok(ts) => ts,
        Err(_) => None,
    }
}

/// Finds whether there is an audit log, and when it was last written.
pub open spec fn audit_model(path: Seq<char>, size: Option<u64>, last: Option<Seq<char>>) ->
    report::FindingModel {
    match size {
        Some(n) => {
            let first = "  ✓  audit log: "@ + path + " ("@ + text::decimal(n as nat) + " bytes)"@;
            match last {
                Some(ts) => report::fine(seq![first, "     last entry: "@ + ts]),
                None => report::fine(seq![first]),
            }
        },
        None => report::fine(
            seq!["  ·  audit log: not yet created (will be at "@ + path + ")"@],
        ),
    }
}

/// Finds whether there is an audit log, and when it was last written.
pub fn check_audit(path: &str, size: Option<u64>, last: Option<&str>) -> (f: Finding)
    ensures
        f@ == audit_model(path@, size, audit::opt_text(last)),
{
    match size {
        Some(n) => {
            let first: String = text::glue5(
                "  ✓  audit log: ",
                path,
                " (",
                text::decimal_text(n).as_str(),
                " bytes)",
            );
            match last {
                Some(ts) => {
                    let second: String = text::joined("     last entry: ", ts);
                    report::two(first, second.as_str(), false)
                },
                None => report::one(first, false),
            }
        },
        None => report::one(
            text::glue3("  ·  audit log: not yet created (will be at ", path, ")"),
            false,
        ),
    }
}

/// The host of a relay: what follows the last at sign, or all of it.
pub open spec fn relay_host_part(relay: Seq<char>) -> Seq<char> {
    relay.skip(text::last_position(relay, '@') + 1)
}

/// The host of a relay.
pub fn relay_host(relay: &str) -> (host: String)
    ensures
        host@ == relay_host_part(relay@),
{
    let chars: Vec<char> = text::chars_of(relay);
    let n: usize = chars.len();
    proof {
        text::lemma_positions(relay@, '@');
    }
    match text::find_last(&chars, '@') {
        Some(at) => {
            let host: String = text::cut(&chars, at + 1, n);
            assert(host@ =~= relay_host_part(relay@));
            host
        },
        None => {
            assert(relay@.skip(0) =~= relay@);
            text::owned(relay)
        },
    }
}

/// Finds whether a relay can be reached. The time is in milliseconds.
pub open spec fn relay_model(relay: Seq<char>, rtt_ms: Result<u64, Seq<char>>) ->
    report::FindingModel {
    match rtt_ms {
        Ok(ms) => report::fine(
            seq![
                "  ✓  relay "@ + relay + "  SSH port reachable  (TCP RTT: "@ + text::decimal(
                    ms as nat,
                ) + "ms)"@,
            ],
        ),
        Err(e) => report::fatal(seq!["  ✗  relay "@ + relay + "  unreachable: "@ + e]),
    }
}

/// Finds whether a relay can be reached.
pub fn check_relay(relay: &str, rtt_ms: &Result<u64, String>) -> (f: Finding)
    ensures
        f@ == relay_model(relay@, error_text(*rtt_ms)),
{
    match rtt_ms {
        Ok(ms) => report::one(
            text::glue5(
                "  ✓  relay ",
                relay,
                "  SSH port reachable  (TCP RTT: ",
                text::decimal_text(*ms).as_str(),
                "ms)",
            ),
            false,
        ),
        Err(e) => report::one(
            text::glue4("  ✗  relay ", relay, "  unreachable: ", e.as_str()),
            true,
        ),
    }
}

/// Says how many relays there are to reach.
pub fn relays_head(count: usize) -> (f: Finding)
    ensures
        f@ == report::fine(
            seq![
                if count == 0 {
                    "  ·  relay hosts: none configured (add relays = [\"user@host\", ...] in config)"@
                } else {
                    "  ── relay connectivity ("@ + text::decimal(count as nat)
                        + " host(s)) ─────────────────────"@
                },
            ],
        ),
{
    if count == 0 {
        report::one(
            text::owned(
                "  ·  relay hosts: none configured (add relays = [\"user@host\", ...] in config)",
            ),
            false,
        )
    } else {
        report::one(
            text::glue3(
                "  ── relay connectivity (",
                text::decimal_text(count as u64).as_str(),
                " host(s)) ─────────────────────",
            ),
            false,
        )
    }
}

/// The last line of the examination.
pub fn conclusion(findings: &Vec<Finding>) -> (out: (&'static str, bool))
    ensures
        out.1 == report::all_pass(findings@),
        out.0@ == if out.1 {
            "  All critical checks passed."@
        } else {
            "  Some checks failed — see ✗ items above."@
        },
{
    if report::passed(findings) {
        ("  All critical checks passed.", true)
    } else {
        ("  Some checks failed — see ✗ items above.", false)
    }
}

/// A check fails exactly on these findings: the program cannot be located, there is no ssh, the
/// identity cannot be read or is corrupt, the codec fails, the datagrams that pass are smaller
/// than 1280 bytes, the table of known hosts cannot be read or has malformed fingerprints, or the
/// configuration is no table.
pub proof fn law_fatal_findings(
    text: Result<Seq<char>, Seq<char>>,
    flags: (bool, bool, bool),
    seen: IdentitySeen,
    number: Result<u64, Seq<char>>,
    status: KnownHostsStatus,
    keys: Result<Option<Seq<Seq<char>>>, Seq<char>>,
    path: Seq<char>,
)
    ensures
        binary_model(text).fatal <==> text is Err,
        tools_model(flags.0, flags.1, flags.2).fatal <==> !flags.1,
        identity_model(seen, path).fatal <==> seen is Unreadable || seen is Corrupt,
        codec_model(number).fatal <==> number is Err,
        mtu_model(number).fatal <==> (number matches Ok(m) && m < 1280),
        !loopback_model(number).fatal,
        !version_model(path, text).fatal,
        known_hosts_model(status, path).fatal <==> status is ParseError
            || status is SuspiciousEntries,
        config_text_model(keys, path).fatal <==> !(keys matches Ok(Some(_))),
{
}

/// A key is known exactly if the configuration can show it.
pub proof fn law_known_keys_are_shown(c: config::ConfigModel, key: Seq<char>, path: Seq<char>)
    ensures
        known_key(key) <==> c.shown(key, path) is Ok,
{
}

/// Among keys exactly those are unknown that are not known, and no finding comes where all are
/// known.
pub proof fn law_unknown_keys(keys: Seq<Seq<char>>, key: Seq<char>, path: Seq<char>)
    ensures
        unknown_keys(keys).contains(key) <==> keys.contains(key) && !known_key(key),
        (forall|i: int| 0 <= i < keys.len() ==> known_key(#[trigger] keys[i])) ==> keys_model(
            keys,
            path,
        ).lines.len() == 0,
        !keys_model(keys, path).fatal,
    decreases keys.len(),
{
    let u = unknown_keys(keys);
    if keys.len() > 0 {
        let front = keys.drop_last();
        let last = keys.last();
        let v = unknown_keys(front);
        law_unknown_keys(front, key, path);
        if v.contains(key) {
            let i = choose|i: int| 0 <= i < v.len() && v[i] == key;
            assert(u[i] == key);
        }
        if front.contains(key) {
            let i = choose|i: int| 0 <= i < front.len() && front[i] == key;
            assert(keys[i] == key);
        }
        if !known_key(last) {
            assert(u[u.len() - 1] == last);
            if u.contains(key) && key != last {
                let i = choose|i: int| 0 <= i < u.len() && u[i] == key;
                assert(v[i] == key);
            }
        }
        assert(keys[keys.len() - 1] == last);
        if keys.contains(key) && key != last {
            let i = choose|i: int| 0 <= i < keys.len() && keys[i] == key;
            assert(front[i] == key);
        }
    }
    if forall|i: int| 0 <= i < keys.len() ==> known_key(#[trigger] keys[i]) {
        lemma_none_unknown(keys);
    }
}

proof fn lemma_none_unknown(keys: Seq<Seq<char>>)
    requires
        forall|i: int| 0 <= i < keys.len() ==> known_key(#[trigger] keys[i]),
    ensures
        unknown_keys(keys) == Seq::<Seq<char>>::empty(),
    decreases keys.len(),
{
    if keys.len() > 0 {
        let front = keys.drop_last();
        assert forall|i: int| 0 <= i < front.len() implies known_key(#[trigger] front[i]) by {
            assert(front[i] == keys[i]);
        }
        lemma_none_unknown(front);
        assert(known_key(keys[keys.len() - 1]));
    }
}

/// The probes have six sizes, ascending; the largest datagram that passes is that of the last
/// probe before the first that does not come back.
pub proof fn law_probes(back: Seq<bool>, n: int)
    requires
        0 <= n <= back.len(),
        forall|i: int| 0 <= i < n ==> #[trigger] back[i],
        n < back.len() ==> !back[n],
    ensures
        probes_back(back) == n,
        probe_sizes().len() == 6,
        probe_sizes()[0] == 576,
        probe_sizes()[5] == 1500,
        forall|i: int, j: int| 0 <= i < j < 6 ==> probe_sizes()[i] < probe_sizes()[j],
    decreases n,
{
    if n > 0 {
        assert(back[0]);
        let rest = back.skip(1);
        assert forall|i: int| 0 <= i < n - 1 implies #[trigger] rest[i] by {
            assert(rest[i] == back[i + 1]);
        }
        law_probes(rest, n - 1);
    }
}

/// A version of three numbers, or of two, is read as these, and versions are compared number by
/// number.
pub proof fn law_versions_compared(a: (u64, u64, u64), b: (u64, u64, u64))
    ensures
        version_of(version_text(a)) == Some((a.0 as nat, a.1 as nat, a.2 as nat)),
        newer(version_text(a), version_text(b)) <==> a.0 > b.0 || (a.0 == b.0 && (a.1 > b.1 || (a.1
            == b.1 && a.2 > b.2))),
{
    lemma_version_read(a);
    lemma_version_read(b);
}

/// Three numbers with dots between them.
pub open spec fn version_text(v: (u64, u64, u64)) -> Seq<char> {
    text::join(
        seq![
            text::decimal(v.0 as nat),
            text::decimal(v.1 as nat),
            text::decimal(v.2 as nat),
        ],
        seq!['.'],
    )
}

proof fn lemma_version_read(v: (u64, u64, u64))
    ensures
        version_of(version_text(v)) == Some((v.0 as nat, v.1 as nat, v.2 as nat)),
{
    let list = seq![
        text::decimal(v.0 as nat),
        text::decimal(v.1 as nat),
        text::decimal(v.2 as nat),
    ];
    text::lemma_decimal(v.0 as nat);
    text::lemma_decimal(v.1 as nat);
    text::lemma_decimal(v.2 as nat);
    text::law_decimal_round_trip(v.0 as nat, u64::MAX as nat);
    text::law_decimal_round_trip(v.1 as nat, u64::MAX as nat);
    text::law_decimal_round_trip(v.2 as nat, u64::MAX as nat);
    assert forall|i: int, j: int| 0 <= i < list.len() && 0 <= j < list[i].len() implies #[trigger] list[i][j]
        != '.' by {
        assert(text::all_digits(list[i]));
    }
    text::law_split_of_joined(list, '.');
}

/// Every letter v in front of a tag is taken off, and nothing else.
pub proof fn law_untagged(n: nat, tag: Seq<char>)
    requires
        tag.len() == 0 || tag[0] != 'v',
    ensures
        untagged(text::repeated('v', n) + tag) == tag,
    decreases n,
{
    let s = text::repeated('v', n) + tag;
    if n == 0 {
        assert(s =~= tag);
    } else {
        law_untagged((n - 1) as nat, tag);
        assert(s.skip(1) =~= text::repeated('v', (n - 1) as nat) + tag);
    }
}

/// The fingerprint of every key looks like one.
pub proof fn law_digests_are_fingerprints(digest: Seq<u8>)
    requires
        digest.len() == 32,
    ensures
        is_fingerprint(text::hex(digest)),
{
}

/// A line with a host and a fingerprint counts as a pin, which is suspicious exactly if the
/// fingerprint is not one of 64 lower-case hex digits; an empty line counts as nothing; a line
/// without a blank breaks the table.
pub proof fn law_known_hosts_line(lines: Seq<Seq<char>>, host: Seq<char>, fp: Seq<char>)
    requires
        examined(lines) is Pins,
        known_hosts::storable((host, fp)),
    ensures
        examined(lines.push(host + seq![' '] + fp)) == (TableModel::Pins {
            count: examined(lines)->count + 1,
            suspicious: if is_fingerprint(fp) {
                examined(lines)->suspicious
            } else {
                examined(lines)->suspicious.push(suspicion(host, fp))
            },
        }),
        examined(lines.push(Seq::empty())) == examined(lines),
        examined(lines.push(host)) is Broken,
{
    let line = host + seq![' '] + fp;
    assert(lines.push(line).drop_last() =~= lines);
    assert(lines.push(host).drop_last() =~= lines);
    assert(lines.push(Seq::empty()).drop_last() =~= lines);
    known_hosts::lemma_stored_line((host, fp));
    assert(!text::is_space(host[0]));
    assert(!text::is_space(host[host.len() - 1]));
    assert(text::trimmed(host) == host);
    text::lemma_positions(host, ' ');
    let at = text::position(host, ' ');
    if at < host.len() {
        assert(!text::is_space(host[at]));
    }
}

/// The host of a relay is what follows its last at sign, or all of it.
pub proof fn law_relay_host(user: Seq<char>, host: Seq<char>)
    requires
        forall|i: int| 0 <= i < host.len() ==> #[trigger] host[i] != '@',
    ensures
        relay_host_part(user + seq!['@'] + host) == host,
        relay_host_part(host) == host,
{
    crate::cli::forward::lemma_last_sign(user, '@', host);
    text::lemma_positions(host, '@');
    assert(host.skip(0) =~= host);
}

/// What is in order needs few words, and what is worth a remark has one.
pub proof fn law_remarks(
    mode: u32,
    path: Seq<char>,
    cipher: Seq<char>,
    max: usize,
    port: u16,
    privileged: bool,
    sizes: (u64, u64),
)
    ensures
        permissions_model(Some(mode), path).lines.len() == 0 <==> mode == 0o600,
        permissions_model(None, path).lines.len() == 0,
        cc_model("cubic"@).lines.len() == 0,
        cc_model("bbr"@).lines.len() == 0,
        cipher_model("aes256gcm"@, true).lines.len() == 1,
        cipher_model("aes256gcm"@, false).lines.len() == 2,
        port_model(port, privileged).lines.len() == 2 <==> 0 < port < 1024 && !privileged,
        connections_model(max).lines.len() == 2 <==> max == 0,
        buffers_model(Some(sizes)).lines.len() == 3 <==> sizes.0 < 2_097_152 || sizes.1
            < 2_097_152,
        !buffers_model(Some(sizes)).fatal,
        !port_model(port, privileged).fatal,
{
}

/// A fingerprint has 64 lower-case hex digits: one that is shorter or longer, or holds any other
/// sign, is none.
pub proof fn law_fingerprints(fp: Seq<char>, i: int)
    ensures
        is_fingerprint(fp) ==> fp.len() == 64,
        is_fingerprint(fp) && 0 <= i < 64 ==> '0' <= fp[i] <= '9' || 'a' <= fp[i] <= 'f',
        fp.len() == 64 && (forall|j: int|
            0 <= j < 64 ==> '0' <= #[trigger] fp[j] <= '9' || 'a' <= fp[j] <= 'f')
            ==> is_fingerprint(fp),
{
}

/// The time of an entry is that of its field, and the tag of a release is that of its field
/// without the letters in front; where there is none, the reason is told.
pub proof fn law_fields_used(s: Seq<char>)
    ensures
        stamp(Ok(Some(s))) == Some(s),
        stamp(Ok(None)) is None,
        stamp(Err(s)) is None,
        tag_named(Ok(Some(s))) == Ok::<Seq<char>, Seq<char>>(untagged(s)),
        tag_named(Ok(None)) is Err,
        tag_named(Err(s)) == Err::<Seq<char>, Seq<char>>("Failed to read JSON: "@ + s),
{
}

/// A release that is newer than this version is announced with both versions, and any other
/// release is none to speak of.
pub proof fn law_update_announced(current: Seq<char>, tag: Seq<char>, why: Seq<char>)
    ensures
        version_model(current, Ok(tag)).lines.len() == 2 <==> newer(untagged(tag), current),
        newer(untagged(tag), current) ==> version_model(current, Ok(tag)).lines[0]
            == "  !  update available: "@ + current + " → "@ + untagged(tag),
        version_model(current, Err(why)).lines.len() == 1,
{
}

} // verus!
