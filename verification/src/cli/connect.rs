//! How a client learns where a server listens: the line in which the server announces itself,
//! and the quoting of the command that starts it.

use vstd::prelude::*;
use vstd::string::*;
use crate::bytes;
use crate::crypto::CipherSuite;
use crate::handshake::hybrid_keys;
use crate::handshake::hybrid_keys::KemPublicKey;
use crate::handshake::quantum;
use crate::text;

verus! {

/// The inside of a quoted argument: a quote ends the quoted part, stands behind a backslash, and
/// starts the next part.
pub open spec fn quoted_body(s: Seq<char>) -> Seq<char>
    decreases s.len(),
{
    if s.len() == 0 {
        Seq::empty()
    } else {
        quoted_body(s.drop_last()) + (if s.last() == '\'' {
            seq!['\'', '\\', '\'', '\'']
        } else {
            seq![s.last()]
        })
    }
}

/// An argument quoted for a shell.
pub open spec fn quoted(s: Seq<char>) -> Seq<char> {
    seq!['\''] + quoted_body(s) + seq!['\'']
}

/// Quotes an argument for a shell.
pub fn shell_quote(s: &str) -> (out: String)
    ensures
        out@ == quoted(s@),
{
    let chars: Vec<char> = text::chars_of(s);
    let n: usize = chars.len();
    let mut out: String = String::new();
    out.push('\'');
    assert(s@.take(0) =~= Seq::empty());
    assert(out@ =~= seq!['\''] + quoted_body(s@.take(0)));
    for i in 0..n
        invariant
            n == chars@.len(),
            chars@ == s@,
            out@ == seq!['\''] + quoted_body(s@.take(i as int)),
    {
        proof {
            assert(s@.take(i + 1).drop_last() =~= s@.take(i as int));
            assert(s@.take(i + 1).last() == s@[i as int]);
        }
        if chars[i] == '\'' {
            out.push('\'');
            out.push('\\');
            out.push('\'');
            out.push('\'');
        } else {
            out.push(chars[i]);
        }
        assert(out@ =~= seq!['\''] + quoted_body(s@.take(i + 1)));
    }
    out.push('\'');
    assert(s@.take(n as int) =~= s@);
    assert(out@ =~= quoted(s@));
    out
}

/// The word that a shell makes of a text of quoted parts and escaped characters, starting inside
/// or outside quotes; nothing where a quote or an escape is open at the end, or where a character
/// stands bare.
pub open spec fn shell_word(s: Seq<char>, inside: bool) -> Option<Seq<char>>
    decreases s.len(),
{
    if s.len() == 0 {
        if inside {
            None
        } else {
            Some(Seq::empty())
        }
    } else if s[0] == '\'' {
        shell_word(s.skip(1), !inside)
    } else if inside {
        match shell_word(s.skip(1), true) {
            Some(w) => Some(seq![s[0]] + w),
            None => None,
        }
    } else if s[0] == '\\' && s.len() >= 2 {
        match shell_word(s.skip(2), false) {
            Some(w) => Some(seq![s[1]] + w),
            None => None,
        }
    } else {
        None
    }
}

proof fn lemma_quoted_read(s: Seq<char>, rest: Seq<char>, w: Seq<char>)
    requires
        shell_word(rest, true) == Some(w),
    ensures
        shell_word(quoted_body(s) + rest, true) == Some(s + w),
    decreases s.len(),
{
    if s.len() == 0 {
        assert(quoted_body(s) + rest =~= rest);
        assert(s + w =~= w);
    } else {
        let c = s.last();
        let piece = if c == '\'' {
            seq!['\'', '\\', '\'', '\'']
        } else {
            seq![c]
        };
        let next = piece + rest;
        if c == '\'' {
            let s1 = next.skip(1);
            let s3 = s1.skip(2);
            let s4 = s3.skip(1);
            assert(s4 =~= rest);
            assert(s3[0] == '\'');
            assert(shell_word(s3, false) == Some(w));
            assert(s1[0] == '\\' && s1[1] == '\'');
            assert(shell_word(s1, false) == Some(seq!['\''] + w));
            assert(shell_word(next, true) == Some(seq![c] + w));
        } else {
            assert(next.skip(1) =~= rest);
            assert(shell_word(next, true) == Some(seq![c] + w));
        }
        lemma_quoted_read(s.drop_last(), next, seq![c] + w);
        assert(quoted_body(s) + rest =~= quoted_body(s.drop_last()) + next);
        assert(s.drop_last() + (seq![c] + w) =~= s + w);
    }
}

/// A shell reads a quoted argument as one word, and the word is the argument.
pub proof fn law_shell_reads_quoted(s: Seq<char>)
    ensures
        shell_word(quoted(s), false) == Some(s),
{
    let end = seq!['\''];
    assert(end.skip(1) =~= Seq::empty());
    assert(shell_word(end.skip(1), false) == Some(Seq::<char>::empty()));
    assert(shell_word(end, true) == Some(Seq::<char>::empty()));
    lemma_quoted_read(s, end, Seq::empty());
    assert(quoted(s).skip(1) =~= quoted_body(s) + end);
    assert(s + Seq::<char>::empty() =~= s);
}

/// What has been read of an announcement.
#[verifier::ext_equal]
pub struct Announced {
    pub port: Option<u16>,
    pub x25519: Option<Seq<u8>>,
    pub kem: Option<Seq<u8>>,
}

/// What an announcement gives, once one more word has been read.
pub open spec fn with_word(a: Announced, word: Seq<char>) -> Result<Announced, Seq<char>> {
    if text::has_prefix(word, "PORT="@) {
        match text::number(word.skip(5), 65535) {
            Some(n) => Ok(Announced { port: Some(n as u16), ..a }),
            None => Err("bad PORT"@),
        }
    } else if text::has_prefix(word, "X25519="@) {
        let v = word.skip(7);
        if !text::is_hex(v) {
            Err("bad X25519 hex"@)
        } else if v.len() != 64 {
            Err("X25519 must be 32 bytes"@)
        } else {
            Ok(Announced { x25519: Some(text::unhex(v)), ..a })
        }
    } else if text::has_prefix(word, "KEM="@) {
        let v = word.skip(4);
        if !text::is_hex(v) {
            Err("bad KEM hex"@)
        } else if v.len() != 2 * quantum::KEM_PK_LEN || !quantum::kem_key_valid(text::unhex(v)) {
            Err("invalid KEM public key"@)
        } else {
            Ok(Announced { kem: Some(text::unhex(v)), ..a })
        }
    } else {
        Ok(a)
    }
}

/// What the words of an announcement give; the first word is skipped.
pub open spec fn announced(words: Seq<Seq<char>>) -> Result<Announced, Seq<char>>
    decreases words.len(),
{
    if words.len() <= 1 {
        Ok(Announced { port: None, x25519: None, kem: None })
    } else {
        match announced(words.drop_last()) {
            Ok(a) => with_word(a, words.last()),
            Err(e) => Err(e),
        }
    }
}

/// Where a server listens, and its keys, as an announcement gives them.
pub open spec fn announcement(line: Seq<char>) -> Result<(u16, Seq<u8>, Seq<u8>), Seq<char>> {
    match announced(text::words(line)) {
        Err(e) => Err(e),
        Ok(a) => if a.port is None {
            Err("missing PORT in SEAM line"@)
        } else if a.x25519 is None {
            Err("missing X25519 in SEAM line"@)
        } else if a.kem is None {
            Err("missing KEM in SEAM line"@)
        } else {
            Ok((a.port->0, a.x25519->0, a.kem->0))
        },
    }
}

/// The part of a word behind a prefix.
fn behind(word: &str, prefix: &str) -> (rest: Option<String>)
    ensures
        rest is Some <==> text::has_prefix(word@, prefix@),
        rest matches Some(r) ==> r@ == word@.skip(prefix@.len() as int),
{
    if !text::starts_with(word, prefix) {
        return None;
    }
    let chars: Vec<char> = text::chars_of(word);
    let from: usize = text::chars_of(prefix).len();
    let rest: String = text::cut(&chars, from, chars.len());
    assert(rest@ =~= word@.skip(prefix@.len() as int));
    Some(rest)
}

/// Reads an announcement: "SEAM PORT=.. X25519=.. KEM=..", the keys in hex.
pub fn parse_seam_line(line: &str) -> (out: Result<(u16, [u8; 32], KemPublicKey), String>)
    ensures
        match (out, announcement(line@)) {
            (Ok(t), Ok(m)) => t.0 == m.0 && t.1@ == m.1 && t.2.bytes() == m.2,
            (Err(e), Err(w)) => e@ == w,
            _ => false,
        },
{
    let words: Vec<String> = text::split_words(line);
    let n: usize = words.len();
    let ghost w = text::words(line@);
    let mut port: Option<u16> = None;
    let mut x25519: Option<[u8; 32]> = None;
    let mut kem: Option<KemPublicKey> = None;
    proof {
        reveal_strlit("PORT=");
        reveal_strlit("X25519=");
        reveal_strlit("KEM=");
        assert("PORT="@.len() == 5 && "X25519="@.len() == 7 && "KEM="@.len() == 4);
    }
    let mut i: usize = 1;
    while i < n
        invariant
            n == words@.len(),
            text::texts(words@) == w,
            w == text::words(line@),
            1 <= i,
            i <= n || n == 0,
            "PORT="@.len() == 5,
            "X25519="@.len() == 7,
            "KEM="@.len() == 4,
            announced(w.take(if i <= n {
                i as int
            } else {
                0
            })) == Ok::<Announced, Seq<char>>(
                Announced {
                    port,
                    x25519: match x25519 {
                        Some(a) => Some(a@),
                        None => None,
                    },
                    kem: match kem {
                        Some(k) => Some(k.bytes()),
                        None => None,
                    },
                },
            ),
        decreases n - i,
    {
        let word: &str = words[i].as_str();
        proof {
            assert(word@ == w[i as int]);
            assert(w.take(i + 1).drop_last() =~= w.take(i as int));
            assert(w.take(i + 1).last() == word@);
            lemma_announced_error(w, i + 1);
        }
        if let Some(v) = behind(word, "PORT=") {
            match text::parse_number(v.as_str(), 65535) {
                Some(p) => {
                    port = Some(p as u16);
                },
                None => {
                    return Err(text::owned("bad PORT"));
                },
            }
        } else if let Some(v) = behind(word, "X25519=") {
            match text::from_hex(v.as_str()) {
                None => {
                    return Err(text::owned("bad X25519 hex"));
                },
                Some(b) => {
                    if b.len() != 32 {
                        return Err(text::owned("X25519 must be 32 bytes"));
                    }
                    let key: [u8; 32] = bytes::array::<32>(&b, 0);
                    assert(key@ =~= b@);
                    x25519 = Some(key);
                },
            }
        } else if let Some(v) = behind(word, "KEM=") {
            match text::from_hex(v.as_str()) {
                None => {
                    return Err(text::owned("bad KEM hex"));
                },
                Some(b) => match hybrid_keys::pk_from_bytes(&b) {
                    Some(pk) => {
                        kem = Some(pk);
                    },
                    None => {
                        return Err(text::owned("invalid KEM public key"));
                    },
                },
            }
        }
        i = i + 1;
    }
    assert(n > 0 ==> w.take(n as int) =~= w);
    assert(n == 0 ==> w =~= w.take(0));
    match port {
        None => Err(text::owned("missing PORT in SEAM line")),
        Some(p) => match x25519 {
            None => Err(text::owned("missing X25519 in SEAM line")),
            Some(x) => match kem {
                None => Err(text::owned("missing KEM in SEAM line")),
                Some(k) => Ok((p, x, k)),
            },
        },
    }
}

/// A word that is refused settles the announcement.
proof fn lemma_announced_error(words: Seq<Seq<char>>, n: int)
    requires
        0 <= n <= words.len(),
    ensures
        announced(words.take(n)) matches Err(e) ==> announced(words) == Err::<
            Announced,
            Seq<char>,
        >(e),
    decreases words.len() - n,
{
    if n < words.len() {
        lemma_announced_error(words, n + 1);
        assert(words.take(n + 1).drop_last() =~= words.take(n));
    } else {
        assert(words.take(n) =~= words);
    }
}

/// The line in which a server announces itself.
pub open spec fn seam_line_text(port: u16, x25519: Seq<u8>, kem: Seq<u8>) -> Seq<char> {
    "SEAM PORT="@ + text::decimal(port as nat) + " X25519="@ + text::hex(x25519) + " KEM="@
        + text::hex(kem)
}

/// The line in which a server announces itself.
pub fn seam_line(port: u16, x25519: &[u8; 32], kem: &KemPublicKey) -> (out: String)
    ensures
        out@ == seam_line_text(port, x25519@, kem.bytes()),
{
    let mut out: String = String::new();
    out.append("SEAM PORT=");
    text::push_decimal(&mut out, port as u64);
    out.append(" X25519=");
    out.append(text::to_hex(x25519).as_str());
    out.append(" KEM=");
    out.append(text::to_hex(&hybrid_keys::pk_to_bytes(kem)).as_str());
    assert(out@ =~= seam_line_text(port, x25519@, kem.bytes()));
    out
}

proof fn lemma_port_word(a: Announced, port: u16)
    ensures
        with_word(a, "PORT="@ + text::decimal(port as nat)) == Ok::<Announced, Seq<char>>(
            Announced { port: Some(port), ..a },
        ),
        text::no_space("PORT="@ + text::decimal(port as nat)),
{
    reveal_strlit("PORT=");
    let d = text::decimal(port as nat);
    let w = "PORT="@ + d;
    text::lemma_decimal(port as nat);
    assert forall|i: int| 0 <= i < w.len() implies !text::is_space(#[trigger] w[i]) by {
        if i >= 5 {
            assert('0' <= d[i - 5] <= '9');
        }
    }
    assert(w.take(5) =~= "PORT="@);
    assert(w.skip(5) =~= d);
    assert(text::unsigned_part(d) =~= d) by {
        assert('0' <= d[0] <= '9');
    }
}

proof fn lemma_x25519_word(a: Announced, key: Seq<u8>)
    requires
        key.len() == 32,
    ensures
        with_word(a, "X25519="@ + text::hex(key)) == Ok::<Announced, Seq<char>>(
            Announced { x25519: Some(key), ..a },
        ),
        text::no_space("X25519="@ + text::hex(key)),
{
    reveal_strlit("PORT=");
    reveal_strlit("X25519=");
    let h = text::hex(key);
    let w = "X25519="@ + h;
    text::law_hex_round_trip(key);
    assert forall|i: int| 0 <= i < w.len() implies !text::is_space(#[trigger] w[i]) by {
        if i >= 7 {
            assert(text::hex_value(h[i - 7]) is Some);
        }
    }
    assert(w.take(7) =~= "X25519="@);
    assert(w.skip(7) =~= h);
    assert(w.take(5)[0] == 'X' && "PORT="@[0] == 'P');
}

proof fn lemma_kem_word(a: Announced, key: Seq<u8>)
    requires
        key.len() == quantum::KEM_PK_LEN,
        quantum::kem_key_valid(key),
    ensures
        with_word(a, "KEM="@ + text::hex(key)) == Ok::<Announced, Seq<char>>(
            Announced { kem: Some(key), ..a },
        ),
        text::no_space("KEM="@ + text::hex(key)),
{
    reveal_strlit("PORT=");
    reveal_strlit("X25519=");
    reveal_strlit("KEM=");
    let h = text::hex(key);
    let w = "KEM="@ + h;
    text::law_hex_round_trip(key);
    assert forall|i: int| 0 <= i < w.len() implies !text::is_space(#[trigger] w[i]) by {
        if i >= 4 {
            assert(text::hex_value(h[i - 4]) is Some);
        }
    }
    assert(w.take(4) =~= "KEM="@);
    assert(w.skip(4) =~= h);
    assert(w.take(5)[0] == 'K' && "PORT="@[0] == 'P');
    assert(w.take(7)[0] == 'K' && "X25519="@[0] == 'X');
}

proof fn lemma_four_words(w0: Seq<char>, w1: Seq<char>, w2: Seq<char>, w3: Seq<char>)
    requires
        text::no_space(w0),
        text::no_space(w1),
        text::no_space(w2),
        text::no_space(w3),
        w0.len() > 0,
        w1.len() > 0,
        w2.len() > 0,
        w3.len() > 0,
    ensures
        text::words(w0 + seq![' '] + w1 + seq![' '] + w2 + seq![' '] + w3) == seq![w0, w1, w2, w3],
{
    text::lemma_words_first(w0);
    text::lemma_words_more(w0, w1);
    text::lemma_words_more(w0 + seq![' '] + w1, w2);
    text::lemma_words_more(w0 + seq![' '] + w1 + seq![' '] + w2, w3);
    assert(seq![w0].push(w1).push(w2).push(w3) =~= seq![w0, w1, w2, w3]);
}

proof fn lemma_line_parts(d: Seq<char>, hx: Seq<char>, hk: Seq<char>)
    ensures
        "SEAM PORT="@ + d + " X25519="@ + hx + " KEM="@ + hk == "SEAM"@ + seq![' '] + ("PORT="@ + d)
            + seq![' '] + ("X25519="@ + hx) + seq![' '] + ("KEM="@ + hk),
        text::no_space("SEAM"@),
        "SEAM"@.len() > 0,
        "PORT="@.len() > 0,
        "X25519="@.len() > 0,
        "KEM="@.len() > 0,
{
    reveal_strlit("SEAM PORT=");
    reveal_strlit("SEAM");
    reveal_strlit("PORT=");
    reveal_strlit(" X25519=");
    reveal_strlit("X25519=");
    reveal_strlit(" KEM=");
    reveal_strlit("KEM=");
    let blank = seq![' '];
    assert("SEAM PORT="@ =~= "SEAM"@ + blank + "PORT="@);
    assert(" X25519="@ =~= blank + "X25519="@);
    assert(" KEM="@ =~= blank + "KEM="@);
    let p = "SEAM PORT="@ + d;
    assert(p =~= "SEAM"@ + blank + ("PORT="@ + d));
    let q = p + " X25519="@ + hx;
    assert(q =~= p + blank + ("X25519="@ + hx));
    assert(q + " KEM="@ + hk =~= q + blank + ("KEM="@ + hk));
}

proof fn lemma_three_announced(
    w0: Seq<char>,
    w1: Seq<char>,
    w2: Seq<char>,
    w3: Seq<char>,
    a1: Announced,
    a2: Announced,
    a3: Announced,
)
    requires
        with_word(Announced { port: None, x25519: None, kem: None }, w1) == Ok::<
            Announced,
            Seq<char>,
        >(a1),
        with_word(a1, w2) == Ok::<Announced, Seq<char>>(a2),
        with_word(a2, w3) == Ok::<Announced, Seq<char>>(a3),
    ensures
        announced(seq![w0, w1, w2, w3]) == Ok::<Announced, Seq<char>>(a3),
{
    assert(seq![w0, w1, w2, w3].drop_last() =~= seq![w0, w1, w2]);
    assert(seq![w0, w1, w2].drop_last() =~= seq![w0, w1]);
    assert(seq![w0, w1].drop_last() =~= seq![w0]);
    let a0 = Announced { port: None, x25519: None, kem: None };
    assert(announced(seq![w0]) == Ok::<Announced, Seq<char>>(a0));
    assert(seq![w0, w1].last() == w1);
    assert(announced(seq![w0, w1]) == Ok::<Announced, Seq<char>>(a1));
    assert(seq![w0, w1, w2].last() == w2);
    assert(announced(seq![w0, w1, w2]) == Ok::<Announced, Seq<char>>(a2));
    assert(seq![w0, w1, w2, w3].last() == w3);
}

/// What a server announces, a client reads.
pub proof fn law_announcement_round_trip(port: u16, x25519: Seq<u8>, kem: Seq<u8>)
    requires
        x25519.len() == 32,
        kem.len() == quantum::KEM_PK_LEN,
        quantum::kem_key_valid(kem),
    ensures
        announcement(seam_line_text(port, x25519, kem)) == Ok::<(u16, Seq<u8>, Seq<u8>), Seq<char>>(
            (port, x25519, kem),
        ),
{
    let w0 = "SEAM"@;
    let w1 = "PORT="@ + text::decimal(port as nat);
    let w2 = "X25519="@ + text::hex(x25519);
    let w3 = "KEM="@ + text::hex(kem);
    let a0 = Announced { port: None, x25519: None, kem: None };
    let a1 = Announced { port: Some(port), ..a0 };
    let a2 = Announced { x25519: Some(x25519), ..a1 };
    let a3 = Announced { kem: Some(kem), ..a2 };
    let line = seam_line_text(port, x25519, kem);
    assert(text::words(line) == seq![w0, w1, w2, w3]) by {
        lemma_port_word(a0, port);
        lemma_x25519_word(a1, x25519);
        lemma_kem_word(a2, kem);
        lemma_line_parts(text::decimal(port as nat), text::hex(x25519), text::hex(kem));
        lemma_four_words(w0, w1, w2, w3);
    }
    assert(announced(seq![w0, w1, w2, w3]) == Ok::<Announced, Seq<char>>(a3)) by {
        lemma_port_word(a0, port);
        lemma_x25519_word(a1, x25519);
        lemma_kem_word(a2, kem);
        lemma_three_announced(w0, w1, w2, w3, a1, a2, a3);
    }
}

/// The suite of a session: AES-256-GCM in FIPS mode, else the configured one, or the default
/// where that names none.
pub fn session_cipher(fips_mode: bool, configured: &str) -> (suite: CipherSuite)
    ensures
        suite == if fips_mode {
            CipherSuite::Aes256Gcm
        } else {
            match CipherSuite::named(configured@) {
                Some(s) => s,
                None => CipherSuite::ChaCha20Poly1305,
            }
        },
{
    if fips_mode {
        return CipherSuite::Aes256Gcm;
    }
    match CipherSuite::parse(configured) {
        Some(s) => s,
        None => CipherSuite::default(),
    }
}

/// The host part of a remote target: what follows the first at sign, or all of it.
pub open spec fn host_part(remote: Seq<char>) -> Seq<char> {
    let at = text::position(remote, '@');
    if at < remote.len() {
        remote.skip(at + 1)
    } else {
        remote
    }
}

/// The host part of a remote target.
pub fn host_of(remote: &str) -> (host: String)
    ensures
        host@ == host_part(remote@),
{
    let chars: Vec<char> = text::chars_of(remote);
    let n: usize = chars.len();
    match text::find(&chars, '@') {
        Some(at) => {
            let host: String = text::cut(&chars, at + 1, n);
            assert(host@ =~= host_part(remote@));
            host
        },
        None => text::owned(remote),
    }
}

/// The host of a remote is what stands behind the first at sign, or all of it.
pub proof fn law_host_of_remote(user: Seq<char>, host: Seq<char>)
    requires
        forall|i: int| 0 <= i < user.len() ==> #[trigger] user[i] != '@',
    ensures
        host_part(user + seq!['@'] + host) == host,
        host_part(user) == user,
{
    let r = user + seq!['@'] + host;
    text::lemma_positions(r, '@');
    text::lemma_positions(user, '@');
    let n = user.len() as int;
    assert(r[n] == '@');
    let at = text::position(r, '@');
    if at < n {
        assert(r[at] == user[at]);
    }
    assert(at == n);
    assert(r.skip(n + 1) =~= host);
}

/// An announcement needs its three parts: without the port, the key or the KEM key it is refused,
/// and words that are none of them are passed over.
pub proof fn law_announcement_needs_parts(line: Seq<char>)
    requires
        announcement(line) is Ok,
    ensures
        exists|i: int|
            1 <= i < text::words(line).len() && text::has_prefix(
                #[trigger] text::words(line)[i],
                "PORT="@,
            ),
        exists|i: int|
            1 <= i < text::words(line).len() && text::has_prefix(
                #[trigger] text::words(line)[i],
                "X25519="@,
            ),
        exists|i: int|
            1 <= i < text::words(line).len() && text::has_prefix(
                #[trigger] text::words(line)[i],
                "KEM="@,
            ),
{
    lemma_parts_come(text::words(line));
}

proof fn lemma_parts_come(words: Seq<Seq<char>>)
    requires
        announced(words) is Ok,
    ensures
        announced(words)->Ok_0.port is Some ==> exists|i: int|
            1 <= i < words.len() && text::has_prefix(#[trigger] words[i], "PORT="@),
        announced(words)->Ok_0.x25519 is Some ==> exists|i: int|
            1 <= i < words.len() && text::has_prefix(#[trigger] words[i], "X25519="@),
        announced(words)->Ok_0.kem is Some ==> exists|i: int|
            1 <= i < words.len() && text::has_prefix(#[trigger] words[i], "KEM="@),
    decreases words.len(),
{
    if words.len() > 1 {
        let front = words.drop_last();
        let n = words.len() - 1;
        lemma_parts_come(front);
        let a = announced(front)->Ok_0;
        let b = announced(words)->Ok_0;
        if b.port is Some && !text::has_prefix(words[n], "PORT="@) {
            let i = choose|i: int|
                1 <= i < front.len() && text::has_prefix(#[trigger] front[i], "PORT="@);
            assert(words[i] == front[i]);
        }
        if b.x25519 is Some && (text::has_prefix(words[n], "PORT="@) || !text::has_prefix(
            words[n],
            "X25519="@,
        )) {
            let i = choose|i: int|
                1 <= i < front.len() && text::has_prefix(#[trigger] front[i], "X25519="@);
            assert(words[i] == front[i]);
        }
        if b.kem is Some && (text::has_prefix(words[n], "PORT="@) || text::has_prefix(
            words[n],
            "X25519="@,
        ) || !text::has_prefix(words[n], "KEM="@)) {
            let i = choose|i: int|
                1 <= i < front.len() && text::has_prefix(#[trigger] front[i], "KEM="@);
            assert(words[i] == front[i]);
        }
    }
}

/// A key of the wrong length, or one that is not in hex, is refused, and so is a port that is no
/// number.
pub proof fn law_announced_parts_checked(a: Announced, v: Seq<char>)
    ensures
        with_word(a, "PORT="@ + v) is Ok <==> text::number(v, 65535) is Some,
        with_word(a, "X25519="@ + v) is Ok <==> text::is_hex(v) && v.len() == 64,
        with_word(a, "KEM="@ + v) is Ok <==> text::is_hex(v) && v.len() == 2368
            && quantum::kem_key_valid(text::unhex(v)),
{
    reveal_strlit("PORT=");
    reveal_strlit("X25519=");
    reveal_strlit("KEM=");
    let p = "PORT="@ + v;
    let x = "X25519="@ + v;
    let k = "KEM="@ + v;
    assert(p.take(5) =~= "PORT="@);
    assert(p.skip(5) =~= v);
    assert(x.take(7) =~= "X25519="@);
    assert(x.skip(7) =~= v);
    assert(k.take(4) =~= "KEM="@);
    assert(k.skip(4) =~= v);
    assert(x[0] == 'X' && k[0] == 'K' && "PORT="@[0] == 'P' && "X25519="@[0] == 'X');
    if x.len() >= 5 {
        assert(x.take(5)[0] == 'X');
    }
    if k.len() >= 5 {
        assert(k.take(5)[0] == 'K');
    }
    if k.len() >= 7 {
        assert(k.take(7)[0] == 'K');
    }
}

} // verus!
