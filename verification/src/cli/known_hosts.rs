//! Known hosts: the key of a server is pinned when it is first seen, and from then on only that
//! key is accepted.
//!
//! The table has one line for each host: its name, a blank, and the fingerprint of its key.

use vstd::prelude::*;
use vstd::string::*;
use vstd::utf8;
use crate::crypto::digest;
use crate::text;

verus! {

/// The SHA-256 fingerprint of an X25519 public key, in hex.
pub fn fingerprint(x25519_pub: &[u8; 32]) -> (fp: String)
    ensures
        fp@ == text::hex(digest::sha256_digest(x25519_pub@)),
        fp@.len() == 64,
{
    let d: [u8; 32] = digest::sha256(x25519_pub);
    text::to_hex(&d)
}

/// How much of a fingerprint is shown.
pub open spec fn short_len(fp: Seq<char>) -> int {
    let n = utf8::encode_utf8(fp).len();
    if n < 16 {
        n as int
    } else {
        16
    }
}

/// The start of a fingerprint, for display.
pub fn short_fp(fp: &str) -> (out: &str)
    requires
        utf8::is_char_boundary(fp.spec_bytes(), short_len(fp@)),
    ensures
        out.spec_bytes() == fp.spec_bytes().subrange(0, short_len(fp@)),
{
    let n: usize = fp.as_bytes().len();
    let k: usize = if n < 16 {
        n
    } else {
        16
    };
    let (head, _tail) = fp.split_at(k);
    head
}

/// How pins are treated.
#[derive(Debug, Clone, Copy, PartialEq, Eq, Structural)]
pub enum PinPolicy {
    /// Pin at first use, verify afterwards.
    Enforce,
    /// The same, and say clearly that a key is pinned.
    TrustOnFirstUse,
    /// Do not verify.
    InsecureIgnore,
}

/// A host and its fingerprint.
#[derive(Debug)]
pub struct Pin {
    pub host: String,
    pub fp: String,
}

/// The hosts and fingerprints of a list of pins.
pub open spec fn pairs(list: Seq<Pin>) -> Seq<(Seq<char>, Seq<char>)> {
    Seq::new(list.len(), |i: int| (list[i].host@, list[i].fp@))
}

/// Whether the hosts of a list come one after the other, each once.
pub open spec fn ordered(list: Seq<(Seq<char>, Seq<char>)>) -> bool {
    forall|i: int, j: int|
        0 <= i < j < list.len() ==> text::before((#[trigger] list[i]).0, (#[trigger] list[j]).0)
}

/// The fingerprints of a list by host.
pub open spec fn table(list: Seq<(Seq<char>, Seq<char>)>) -> Map<Seq<char>, Seq<char>>
    decreases list.len(),
{
    if list.len() == 0 {
        Map::empty()
    } else {
        table(list.drop_last()).insert(list.last().0, list.last().1)
    }
}

/// The pin in a line of the table; lines that are empty or comments hold none.
pub open spec fn line_pin(line: Seq<char>) -> Option<(Seq<char>, Seq<char>)> {
    let l = text::trimmed(line);
    let at = text::position(l, ' ');
    if l.len() == 0 || l[0] == '#' || at >= l.len() {
        None
    } else {
        Some((l.take(at), text::trimmed(l.skip(at + 1))))
    }
}

/// The pins in the lines of a table; the last line for a host counts.
pub open spec fn pinned(lines: Seq<Seq<char>>) -> Map<Seq<char>, Seq<char>>
    decreases lines.len(),
{
    if lines.len() == 0 {
        Map::empty()
    } else {
        let before = pinned(lines.drop_last());
        match line_pin(lines.last()) {
            Some(p) => before.insert(p.0, p.1),
            None => before,
        }
    }
}

/// The head of a stored table.
pub open spec fn table_head() -> Seq<char> {
    "# Seam known_hosts — DO NOT EDIT manually unless you know what you are doing.\n# Format: <host> <sha256-of-x25519-public-key-hex>\n"@
}

/// A stored table.
pub open spec fn table_text(list: Seq<(Seq<char>, Seq<char>)>) -> Seq<char>
    decreases list.len(),
{
    if list.len() == 0 {
        table_head()
    } else {
        table_text(list.drop_last()) + (list.last().0 + seq![' '] + list.last().1) + seq!['\n']
    }
}

proof fn lemma_table(list: Seq<(Seq<char>, Seq<char>)>)
    requires
        ordered(list),
    ensures
        forall|i: int|
            0 <= i < list.len() ==> table(list).dom().contains((#[trigger] list[i]).0) && table(
                list,
            )[list[i].0] == list[i].1,
        forall|h: Seq<char>| #[trigger]
            table(list).dom().contains(h) ==> exists|i: int|
                0 <= i < list.len() && (#[trigger] list[i]).0 == h,
    decreases list.len(),
{
    if list.len() > 0 {
        let rest = list.drop_last();
        assert(ordered(rest)) by {
            assert forall|i: int, j: int| 0 <= i < j < rest.len() implies text::before(
                (#[trigger] rest[i]).0,
                (#[trigger] rest[j]).0,
            ) by {
                assert(text::before(list[i].0, list[j].0));
            }
        }
        lemma_table(rest);
        assert forall|i: int| 0 <= i < list.len() implies table(list).dom().contains(
            (#[trigger] list[i]).0,
        ) && table(list)[list[i].0] == list[i].1 by {
            if i < rest.len() {
                assert(rest[i] == list[i]);
                assert(text::before(list[i].0, list[list.len() - 1].0));
                text::lemma_before_order(list[i].0, list[i].0);
            }
        }
        assert forall|h: Seq<char>| #[trigger] table(list).dom().contains(h) implies exists|i: int|
            0 <= i < list.len() && (#[trigger] list[i]).0 == h by {
            if h == list.last().0 {
                assert(list[list.len() - 1].0 == h);
            } else {
                assert(table(rest).dom().contains(h));
                let i = choose|i: int| 0 <= i < rest.len() && (#[trigger] rest[i]).0 == h;
                assert(list[i].0 == h);
            }
        }
    }
}

/// Two ordered lists with the same table are equal as tables; a table is known by its entries.
proof fn lemma_same_table(
    list: Seq<(Seq<char>, Seq<char>)>,
    m: Map<Seq<char>, Seq<char>>,
)
    requires
        ordered(list),
        forall|i: int|
            0 <= i < list.len() ==> m.dom().contains((#[trigger] list[i]).0) && m[list[i].0]
                == list[i].1,
        forall|h: Seq<char>| #[trigger]
            m.dom().contains(h) ==> exists|i: int|
                0 <= i < list.len() && (#[trigger] list[i]).0 == h,
    ensures
        table(list) == m,
{
    lemma_table(list);
    assert forall|h: Seq<char>| m.dom().contains(h) <==> #[trigger] table(list).dom().contains(
        h,
    ) by {
        if m.dom().contains(h) {
            let i = choose|i: int| 0 <= i < list.len() && (#[trigger] list[i]).0 == h;
            assert(table(list).dom().contains(list[i].0));
        }
        if table(list).dom().contains(h) {
            let i = choose|i: int| 0 <= i < list.len() && (#[trigger] list[i]).0 == h;
            assert(m.dom().contains(list[i].0));
        }
    }
    assert forall|h: Seq<char>| #[trigger] m.dom().contains(h) implies m[h] == table(list)[h] by {
        let i = choose|i: int| 0 <= i < list.len() && (#[trigger] list[i]).0 == h;
        assert(table(list)[list[i].0] == list[i].1);
    }
    assert(table(list) =~= m);
}

/// The pinned hosts.
pub struct Pins {
    list: Vec<Pin>,
}

impl View for Pins {
    type V = Map<Seq<char>, Seq<char>>;

    open spec fn view(&self) -> Map<Seq<char>, Seq<char>> {
        table(self.entries())
    }
}

impl Pins {
    /// The hosts and fingerprints, in order.
    pub closed spec fn entries(&self) -> Seq<(Seq<char>, Seq<char>)> {
        pairs(self.list@)
    }

    /// The hosts are in order, each once.
    pub open spec fn wf(&self) -> bool {
        ordered(self.entries())
    }

    /// No pins.
    pub fn new() -> (p: Self)
        ensures
            p.wf(),
            p@ == Map::<Seq<char>, Seq<char>>::empty(),
            p.entries() == Seq::<(Seq<char>, Seq<char>)>::empty(),
    {
        let p = Pins { list: Vec::new() };
        assert(p.entries() =~= Seq::empty());
        p
    }

    /// The first place whose host does not come before `host`, and whether it is `host`.
    fn place(&self, host: &str) -> (out: (usize, bool))
        requires
            self.wf(),
        ensures
            out.0 <= self.entries().len(),
            forall|i: int|
                0 <= i < out.0 ==> text::before((#[trigger] self.entries()[i]).0, host@),
            forall|i: int|
                out.0 <= i < self.entries().len() && (out.1 ==> i > out.0) ==> text::before(
                    host@,
                    (#[trigger] self.entries()[i]).0,
                ),
            out.1 ==> out.0 < self.entries().len() && self.entries()[out.0 as int].0 == host@,
    {
        let n: usize = self.list.len();
        let ghost e = self.entries();
        let mut i: usize = 0;
        while i < n && text::comes_before(self.list[i].host.as_str(), host)
            invariant
                i <= n,
                n == self.list@.len(),
                e == self.entries(),
                forall|j: int| 0 <= j < i ==> text::before((#[trigger] e[j]).0, host@),
            decreases n - i,
        {
            i = i + 1;
        }
        if i < n {
            let found: bool = text::same(self.list[i].host.as_str(), host);
            proof {
                assert(e[i as int].0 == self.list@[i as int].host@);
                text::lemma_before_order(e[i as int].0, host@);
                assert forall|j: int| i <= j < e.len() && (found ==> j > i) implies text::before(
                    host@,
                    (#[trigger] e[j]).0,
                ) by {
                    if j > i {
                        assert(text::before(e[i as int].0, e[j].0));
                        if !found {
                            text::lemma_before_transitive(host@, e[i as int].0, e[j].0);
                        }
                    }
                }
            }
            (i, found)
        } else {
            (i, false)
        }
    }

    /// The fingerprint pinned for a host.
    pub fn get(&self, host: &str) -> (fp: Option<String>)
        requires
            self.wf(),
        ensures
            fp is Some <==> self@.dom().contains(host@),
            fp matches Some(f) ==> f@ == self@[host@],
    {
        let (i, found) = self.place(host);
        proof {
            lemma_table(self.entries());
            if !found && self@.dom().contains(host@) {
                let j = choose|j: int|
                    0 <= j < self.entries().len() && (#[trigger] self.entries()[j]).0 == host@;
                text::lemma_before_order(host@, host@);
                assert(j < i || j >= i);
            }
        }
        if found {
            assert(self.entries()[i as int] == (self.list@[i as int].host@, self.list@[i as int].fp@));
            Some(text::owned(self.list[i].fp.as_str()))
        } else {
            None
        }
    }

    /// Pins a fingerprint for a host.
    pub fn insert(&mut self, host: &str, fp: &str)
        requires
            old(self).wf(),
        ensures
            final(self).wf(),
            final(self)@ == old(self)@.insert(host@, fp@),
    {
        let (i, found) = self.place(host);
        let ghost e = self.entries();
        let pin = Pin { host: text::owned(host), fp: text::owned(fp) };
        let ghost pair = (host@, fp@);
        if found {
            self.list.set(i, pin);
            assert(self.entries() =~= e.update(i as int, pair));
        } else {
            self.list.insert(i, pin);
            assert(self.entries() =~= e.insert(i as int, pair));
        }
        proof {
            let f = self.entries();
            assert forall|a: int, b: int| 0 <= a < b < f.len() implies text::before(
                (#[trigger] f[a]).0,
                (#[trigger] f[b]).0,
            ) by {
                let shift: int = if found {
                    0
                } else {
                    1
                };
                let x = if a <= i {
                    a
                } else {
                    a - shift
                };
                let y = if b <= i {
                    b
                } else {
                    b - shift
                };
                if a != i && b != i {
                    assert(text::before(e[x].0, e[y].0));
                } else if a == i {
                    assert(text::before(host@, e[y].0));
                } else {
                    assert(text::before(e[x].0, host@));
                }
            }
            lemma_table(e);
            let m = table(e).insert(host@, fp@);
            assert forall|a: int| 0 <= a < f.len() implies m.dom().contains((#[trigger] f[a]).0)
                && m[f[a].0] == f[a].1 by {
                if a != i {
                    let x = if a < i || found {
                        a
                    } else {
                        a - 1
                    };
                    assert(f[a] == e[x]);
                    text::lemma_before_order(host@, e[x].0);
                    text::lemma_before_order(host@, host@);
                    assert(x < i || x >= i);
                }
            }
            assert forall|h: Seq<char>| #[trigger] m.dom().contains(h) implies exists|a: int|
                0 <= a < f.len() && (#[trigger] f[a]).0 == h by {
                if h == host@ {
                    assert(f[i as int].0 == h);
                } else {
                    let x = choose|x: int| 0 <= x < e.len() && (#[trigger] e[x]).0 == h;
                    let a = if x < i || found {
                        x
                    } else {
                        x + 1
                    };
                    assert(f[a] == e[x]);
                }
            }
            lemma_same_table(f, m);
        }
    }

    /// Forgets the pin of a host, and says whether there was one.
    pub fn remove(&mut self, host: &str) -> (removed: bool)
        requires
            old(self).wf(),
        ensures
            final(self).wf(),
            removed == old(self)@.dom().contains(host@),
            final(self)@ == old(self)@.remove(host@),
    {
        let (i, found) = self.place(host);
        let ghost e = self.entries();
        if found {
            let _gone = self.list.remove(i);
            assert(self.entries() =~= e.remove(i as int));
        }
        proof {
            let f = self.entries();
            lemma_table(e);
            if !found {
                assert(!table(e).dom().contains(host@)) by {
                    if table(e).dom().contains(host@) {
                        let j = choose|j: int| 0 <= j < e.len() && (#[trigger] e[j]).0 == host@;
                        text::lemma_before_order(host@, host@);
                        assert(j < i || j >= i);
                    }
                }
                assert(table(e).remove(host@) =~= table(e));
            } else {
                assert forall|a: int, b: int| 0 <= a < b < f.len() implies text::before(
                    (#[trigger] f[a]).0,
                    (#[trigger] f[b]).0,
                ) by {
                    let x = if a < i {
                        a
                    } else {
                        a + 1
                    };
                    let y = if b < i {
                        b
                    } else {
                        b + 1
                    };
                    assert(text::before(e[x].0, e[y].0));
                }
                assert(table(e).dom().contains(e[i as int].0));
                let m = table(e).remove(host@);
                assert forall|a: int| 0 <= a < f.len() implies m.dom().contains(
                    (#[trigger] f[a]).0,
                ) && m[f[a].0] == f[a].1 by {
                    let x = if a < i {
                        a
                    } else {
                        a + 1
                    };
                    assert(f[a] == e[x]);
                    text::lemma_before_order(host@, host@);
                }
                assert forall|h: Seq<char>| #[trigger] m.dom().contains(h) implies exists|a: int|
                    0 <= a < f.len() && (#[trigger] f[a]).0 == h by {
                    let x = choose|x: int| 0 <= x < e.len() && (#[trigger] e[x]).0 == h;
                    let a = if x < i {
                        x
                    } else {
                        x - 1
                    };
                    assert(f[a] == e[x]);
                }
                lemma_same_table(f, m);
            }
        }
        found
    }

    /// Reads a stored table.
    pub fn parse(stored: &str) -> (p: Self)
        ensures
            p.wf(),
            p@ == pinned(text::lines(stored@)),
    {
        let lines: Vec<String> = text::split_lines(stored);
        let n: usize = lines.len();
        let ghost l = text::lines(stored@);
        let mut p = Pins::new();
        assert(l.take(0) =~= Seq::empty());
        for i in 0..n
            invariant
                n == lines@.len(),
                l == text::texts(lines@),
                p.wf(),
                p@ == pinned(l.take(i as int)),
        {
            proof {
                assert(l.take(i + 1).drop_last() =~= l.take(i as int));
                assert(l.take(i + 1).last() == lines@[i as int]@);
            }
            let line: String = text::trim(lines[i].as_str());
            let chars: Vec<char> = text::chars_of(line.as_str());
            let len: usize = chars.len();
            if len > 0 && chars[0] != '#' {
                match text::find(&chars, ' ') {
                    Some(at) => {
                        let host: String = text::cut(&chars, 0, at);
                        let rest: String = text::cut(&chars, at + 1, len);
                        let fp: String = text::trim(rest.as_str());
                        proof {
                            assert(host@ =~= line@.take(at as int));
                            assert(rest@ =~= line@.skip(at + 1));
                        }
                        p.insert(host.as_str(), fp.as_str());
                    },
                    None => {},
                }
            }
        }
        assert(l.take(n as int) =~= l);
        p
    }

    /// The table as it is stored.
    pub fn render(&self) -> (out: String)
        ensures
            out@ == table_text(self.entries()),
    {
        let n: usize = self.list.len();
        let ghost e = self.entries();
        let mut out: String = text::owned(
            "# Seam known_hosts — DO NOT EDIT manually unless you know what you are doing.\n# Format: <host> <sha256-of-x25519-public-key-hex>\n",
        );
        assert(e.take(0) =~= Seq::empty());
        for i in 0..n
            invariant
                n == self.list@.len(),
                e == self.entries(),
                out@ == table_text(e.take(i as int)),
        {
            let ghost before = out@;
            out.append(self.list[i].host.as_str());
            out.push(' ');
            out.append(self.list[i].fp.as_str());
            out.push('\n');
            proof {
                assert(e.take(i + 1).drop_last() =~= e.take(i as int));
                assert(e.take(i + 1).last() == e[i as int]);
                assert(out@ =~= before + (e[i as int].0 + seq![' '] + e[i as int].1)
                    + seq!['\n']);
            }
        }
        assert(e.take(n as int) =~= e);
        out
    }

    /// The pinned hosts and their fingerprints, in order.
    pub fn list_pins(&self) -> (out: Vec<Pin>)
        ensures
            pairs(out@) == self.entries(),
    {
        let n: usize = self.list.len();
        let mut out: Vec<Pin> = Vec::new();
        for i in 0..n
            invariant
                n == self.list@.len(),
                pairs(out@) =~= self.entries().take(i as int),
        {
            let ghost before = out@;
            out.push(
                Pin {
                    host: text::owned(self.list[i].host.as_str()),
                    fp: text::owned(self.list[i].fp.as_str()),
                },
            );
            assert(pairs(out@) =~= pairs(before).push(self.entries()[i as int]));
        }
        assert(self.entries().take(n as int) =~= self.entries());
        out
    }
}

/// What becomes of a connection, as far as pins go.
#[derive(Debug, PartialEq, Eq, Structural, Clone, Copy)]
pub enum PinVerdict {
    /// Pins are ignored.
    Skipped,
    /// The key is the pinned one.
    Matches,
    /// The host was unknown, and its key is pinned now.
    Pinned,
    /// The key is not the pinned one: the connection is refused.
    Mismatch,
}

/// What becomes of a connection to a host with a key of this fingerprint.
pub open spec fn verdict(
    pins: Map<Seq<char>, Seq<char>>,
    host: Seq<char>,
    fp: Seq<char>,
    policy: PinPolicy,
) -> PinVerdict {
    if policy == PinPolicy::InsecureIgnore {
        PinVerdict::Skipped
    } else if !pins.dom().contains(host) {
        PinVerdict::Pinned
    } else if pins[host] == fp {
        PinVerdict::Matches
    } else {
        PinVerdict::Mismatch
    }
}

/// The pins after a connection.
pub open spec fn pins_after(
    pins: Map<Seq<char>, Seq<char>>,
    host: Seq<char>,
    fp: Seq<char>,
    policy: PinPolicy,
) -> Map<Seq<char>, Seq<char>> {
    if verdict(pins, host, fp, policy) == PinVerdict::Pinned {
        pins.insert(host, fp)
    } else {
        pins
    }
}

/// Verifies the key of a host, or pins it where the host is unknown.
pub fn verify_or_pin(pins: &mut Pins, host: &str, x25519_pub: &[u8; 32], policy: PinPolicy) -> (v:
    PinVerdict)
    requires
        old(pins).wf(),
    ensures
        final(pins).wf(),
        v == verdict(
            old(pins)@,
            host@,
            text::hex(digest::sha256_digest(x25519_pub@)),
            policy,
        ),
        final(pins)@ == pins_after(
            old(pins)@,
            host@,
            text::hex(digest::sha256_digest(x25519_pub@)),
            policy,
        ),
{
    let fp: String = fingerprint(x25519_pub);
    check_pin(pins, host, fp.as_str(), policy)
}

/// Verifies the fingerprint of a host, or pins it where the host is unknown.
pub fn check_pin(pins: &mut Pins, host: &str, fp: &str, policy: PinPolicy) -> (v: PinVerdict)
    requires
        old(pins).wf(),
    ensures
        final(pins).wf(),
        v == verdict(old(pins)@, host@, fp@, policy),
        final(pins)@ == pins_after(old(pins)@, host@, fp@, policy),
{
    match policy {
        PinPolicy::InsecureIgnore => {
            return PinVerdict::Skipped;
        },
        _ => {},
    }
    match pins.get(host) {
        Some(f) => {
            if text::same(f.as_str(), fp) {
                PinVerdict::Matches
            } else {
                PinVerdict::Mismatch
            }
        },
        None => {
            pins.insert(host, fp);
            PinVerdict::Pinned
        },
    }
}

/// The error of a refused connection.
pub fn mismatch_error(host: &str) -> (out: String)
    ensures
        out@ == "server identity mismatch for "@ + host@
            + ": remote host identification has changed"@,
{
    let mut out: String = String::new();
    out.append("server identity mismatch for ");
    out.append(host);
    out.append(": remote host identification has changed");
    assert(out@ =~= "server identity mismatch for "@ + host@
        + ": remote host identification has changed"@);
    out
}

/// What is said when a key is pinned, given the fingerprint and its short form.
pub fn pinning_message(host: &str, fp: &str, short: &str, policy: PinPolicy) -> (out: String)
    ensures
        out@ == if policy == PinPolicy::TrustOnFirstUse {
            "  pinning server key for "@ + host@ + ": SHA256:"@ + fp@
        } else {
            "  first connection to "@ + host@ + " — pinning server key: SHA256:"@ + short@ + "…"@
        },
{
    let mut out: String = String::new();
    match policy {
        PinPolicy::TrustOnFirstUse => {
            out.append("  pinning server key for ");
            out.append(host);
            out.append(": SHA256:");
            out.append(fp);
            assert(out@ =~= "  pinning server key for "@ + host@ + ": SHA256:"@ + fp@);
        },
        _ => {
            out.append("  first connection to ");
            out.append(host);
            out.append(" — pinning server key: SHA256:");
            out.append(short);
            out.append("…");
            assert(out@ =~= "  first connection to "@ + host@ + " — pinning server key: SHA256:"@
                + short@ + "…"@);
        },
    }
    out
}

/// A key that was pinned is accepted from then on, and every other key is refused.
pub proof fn law_pin_holds(
    pins: Map<Seq<char>, Seq<char>>,
    host: Seq<char>,
    fp: Seq<char>,
    other: Seq<char>,
    policy: PinPolicy,
)
    requires
        policy != PinPolicy::InsecureIgnore,
        verdict(pins, host, fp, policy) != PinVerdict::Mismatch,
        other != fp,
    ensures
        verdict(pins_after(pins, host, fp, policy), host, fp, policy) == PinVerdict::Matches,
        verdict(pins_after(pins, host, fp, policy), host, other, policy) == PinVerdict::Mismatch,
{
}

/// A refused connection changes no pin, and no connection changes the pin of another host.
pub proof fn law_pins_kept(
    pins: Map<Seq<char>, Seq<char>>,
    host: Seq<char>,
    fp: Seq<char>,
    policy: PinPolicy,
    another: Seq<char>,
)
    requires
        another != host,
    ensures
        verdict(pins, host, fp, policy) == PinVerdict::Mismatch ==> pins_after(
            pins,
            host,
            fp,
            policy,
        ) == pins,
        pins.dom().contains(another) ==> pins_after(pins, host, fp, policy).dom().contains(another)
            && pins_after(pins, host, fp, policy)[another] == pins[another],
{
}

/// Whether a pin survives being stored: neither its host nor its fingerprint is empty or has
/// white space, and its host does not look like a comment.
pub open spec fn storable(pin: (Seq<char>, Seq<char>)) -> bool {
    &&& pin.0.len() > 0
    &&& pin.1.len() > 0
    &&& pin.0[0] != '#'
    &&& text::no_space(pin.0)
    &&& text::no_space(pin.1)
}

/// A stored pin is read from its line.
pub proof fn lemma_stored_line(pin: (Seq<char>, Seq<char>))
    requires
        storable(pin),
    ensures
        line_pin(pin.0 + seq![' '] + pin.1) == Some(pin),
        forall|i: int|
            0 <= i < (pin.0 + seq![' '] + pin.1).len() ==> #[trigger] (pin.0 + seq![' ']
                + pin.1)[i] != '\n',
        text::strip_cr(pin.0 + seq![' '] + pin.1) == pin.0 + seq![' '] + pin.1,
{
    let l = pin.0 + seq![' '] + pin.1;
    let k = pin.0.len() as int;
    assert(!text::is_space(pin.0[0]));
    assert(!text::is_space(pin.1[pin.1.len() - 1]));
    assert(l[0] == pin.0[0]);
    assert(l.last() == pin.1[pin.1.len() - 1]);
    assert(text::trimmed(l) == l);
    text::lemma_positions(l, ' ');
    let at = text::position(l, ' ');
    assert(l[k] == ' ');
    assert(at <= k);
    assert(at == k) by {
        if at < k {
            assert(l[at] == pin.0[at]);
            assert(!text::is_space(pin.0[at]));
        }
    }
    assert(l.take(at) =~= pin.0);
    assert(l.skip(at + 1) =~= pin.1);
    assert(!text::is_space(pin.1[0]));
    assert(text::trimmed(pin.1) == pin.1);
    assert forall|i: int| 0 <= i < l.len() implies #[trigger] l[i] != '\n' by {
        if i < k {
            assert(!text::is_space(pin.0[i]));
        } else if i > k {
            assert(!text::is_space(pin.1[i - k - 1]));
        }
    }
}

proof fn lemma_head_lines()
    ensures
        text::split(table_head(), '\n').last().len() == 0,
        pinned(text::lines(table_head())) == Map::<Seq<char>, Seq<char>>::empty(),
{
    reveal_strlit("# Seam known_hosts — DO NOT EDIT manually unless you know what you are doing.\n# Format: <host> <sha256-of-x25519-public-key-hex>\n");
    let head = table_head();
    let empty = Seq::<char>::empty();
    assert(text::split(empty, '\n') == seq![empty]);
    assert(text::lines(empty) =~= Seq::<Seq<char>>::empty());
    let a = head.take(77);
    let b = head.subrange(78, head.len() - 1);
    assert(head[77] == '\n');
    assert(head.last() == '\n');
    assert forall|i: int| 0 <= i < a.len() implies #[trigger] a[i] != '\n' by {}
    assert forall|i: int| 0 <= i < b.len() implies #[trigger] b[i] != '\n' by {}
    text::lemma_lines_more(empty, a);
    let first = empty + a + seq!['\n'];
    text::lemma_lines_more(first, b);
    assert(first + b + seq!['\n'] =~= head);
    let ls = text::lines(head);
    assert(ls =~= seq![text::strip_cr(a), text::strip_cr(b)]);
    assert(text::strip_cr(a)[0] == '#');
    assert(text::strip_cr(b)[0] == '#');
    lemma_comment(text::strip_cr(a));
    lemma_comment(text::strip_cr(b));
    assert(ls.drop_last() =~= seq![text::strip_cr(a)]);
    assert(ls.drop_last().drop_last() =~= Seq::<Seq<char>>::empty());
    assert(pinned(ls.drop_last().drop_last()) == Map::<Seq<char>, Seq<char>>::empty());
    assert(pinned(ls.drop_last()) == Map::<Seq<char>, Seq<char>>::empty());
}

proof fn lemma_comment(line: Seq<char>)
    requires
        line.len() > 0,
        line[0] == '#',
    ensures
        line_pin(line) is None,
{
    assert(text::trim_start(line) == line);
    lemma_trim_end_start(line);
}

proof fn lemma_trim_end_start(s: Seq<char>)
    requires
        s.len() > 0,
        !text::is_space(s[0]),
    ensures
        text::trim_end(s).len() > 0,
        text::trim_end(s)[0] == s[0],
    decreases s.len(),
{
    if text::is_space(s.last()) {
        assert(s.len() > 1);
        lemma_trim_end_start(s.drop_last());
    }
}

/// Reading a stored table gives the pins back.
pub proof fn law_table_round_trip(list: Seq<(Seq<char>, Seq<char>)>)
    requires
        forall|i: int| 0 <= i < list.len() ==> storable(#[trigger] list[i]),
    ensures
        pinned(text::lines(table_text(list))) == table(list),
        text::split(table_text(list), '\n').last().len() == 0,
    decreases list.len(),
{
    if list.len() == 0 {
        lemma_head_lines();
    } else {
        let rest = list.drop_last();
        assert forall|i: int| 0 <= i < rest.len() implies storable(#[trigger] rest[i]) by {
            assert(storable(list[i]));
        }
        law_table_round_trip(rest);
        let pin = list.last();
        assert(storable(list[list.len() - 1]));
        let line = pin.0 + seq![' '] + pin.1;
        lemma_stored_line(pin);
        text::lemma_lines_more(table_text(rest), line);
        let ls = text::lines(table_text(list));
        assert(ls.drop_last() =~= text::lines(table_text(rest)));
        assert(ls.last() == line);
    }
}

/// A list that has every host once holds exactly the pins of its table.
proof fn lemma_table_holds(list: Seq<(Seq<char>, Seq<char>)>)
    requires
        ordered(list),
    ensures
        forall|i: int|
            0 <= i < list.len() ==> table(list).contains_key((#[trigger] list[i]).0) && table(
                list,
            )[list[i].0] == list[i].1,
        forall|h: Seq<char>| #[trigger]
            table(list).contains_key(h) ==> exists|i: int|
                0 <= i < list.len() && (#[trigger] list[i]).0 == h,
    decreases list.len(),
{
    if list.len() > 0 {
        let rest = list.drop_last();
        let n = list.len() - 1;
        assert(ordered(rest)) by {
            assert forall|i: int, j: int| 0 <= i < j < rest.len() implies text::before(
                (#[trigger] rest[i]).0,
                (#[trigger] rest[j]).0,
            ) by {
                assert(text::before(list[i].0, list[j].0));
            }
        }
        lemma_table_holds(rest);
        assert forall|i: int| 0 <= i < list.len() implies table(list).contains_key(
            (#[trigger] list[i]).0,
        ) && table(list)[list[i].0] == list[i].1 by {
            if i < n {
                assert(rest[i] == list[i]);
                assert(text::before(list[i].0, list[n].0));
                text::lemma_before_order(list[i].0, list[i].0);
            }
        }
        assert forall|h: Seq<char>| #[trigger] table(list).contains_key(h) implies exists|i: int|
            0 <= i < list.len() && (#[trigger] list[i]).0 == h by {
            if h == list[n].0 {
                assert(list[n].0 == h);
            } else {
                assert(table(rest).contains_key(h));
                let i = choose|i: int| 0 <= i < rest.len() && (#[trigger] rest[i]).0 == h;
                assert(list[i].0 == h);
            }
        }
    }
}

/// The list of pins holds exactly the pinned hosts with their fingerprints, each once, in the
/// order of the hosts.
pub proof fn law_pins_listed(pins: Pins)
    requires
        pins.wf(),
    ensures
        ordered(pins.entries()),
        pins@ == table(pins.entries()),
        forall|i: int|
            0 <= i < pins.entries().len() ==> pins@.contains_key((#[trigger] pins.entries()[i]).0)
                && pins@[pins.entries()[i].0] == pins.entries()[i].1,
        forall|h: Seq<char>| #[trigger]
            pins@.contains_key(h) ==> exists|i: int|
                0 <= i < pins.entries().len() && (#[trigger] pins.entries()[i]).0 == h,
{
    lemma_table_holds(pins.entries());
}

/// Pins that are stored are read back.
pub proof fn law_stored_pins_read_back(pins: Pins)
    requires
        pins.wf(),
        forall|h: Seq<char>| #[trigger] pins@.contains_key(h) ==> storable((h, pins@[h])),
    ensures
        pinned(text::lines(table_text(pins.entries()))) == pins@,
{
    let list = pins.entries();
    lemma_table_holds(list);
    assert forall|i: int| 0 <= i < list.len() implies storable(#[trigger] list[i]) by {
        assert(pins@.contains_key(list[i].0));
        assert(list[i] == (list[i].0, pins@[list[i].0]));
    }
    law_table_round_trip(list);
}

/// A host without a pin is never refused: unless pins are ignored, its key is pinned, whatever
/// the policy, and no other pin changes.
pub proof fn law_unknown_host_is_pinned(
    pins: Map<Seq<char>, Seq<char>>,
    host: Seq<char>,
    fp: Seq<char>,
    policy: PinPolicy,
)
    requires
        !pins.dom().contains(host),
        policy != PinPolicy::InsecureIgnore,
    ensures
        verdict(pins, host, fp, policy) == PinVerdict::Pinned,
        pins_after(pins, host, fp, policy) == pins.insert(host, fp),
{
}

/// A connection is refused exactly when the host is pinned to another key and pins are not
/// ignored; it is let through as known exactly when the host is pinned to this key.
pub proof fn law_refused_only_on_other_key(
    pins: Map<Seq<char>, Seq<char>>,
    host: Seq<char>,
    fp: Seq<char>,
    policy: PinPolicy,
)
    ensures
        verdict(pins, host, fp, policy) == PinVerdict::Mismatch <==> policy
            != PinPolicy::InsecureIgnore && pins.dom().contains(host) && pins[host] != fp,
        verdict(pins, host, fp, policy) == PinVerdict::Matches <==> policy
            != PinPolicy::InsecureIgnore && pins.dom().contains(host) && pins[host] == fp,
        verdict(pins, host, fp, policy) == PinVerdict::Skipped <==> policy
            == PinPolicy::InsecureIgnore,
        pins.dom().contains(host) || policy == PinPolicy::InsecureIgnore ==> pins_after(
            pins,
            host,
            fp,
            policy,
        ) == pins,
{
}

/// Whether pins are verified quietly or with a word, the verdict is the same.
pub proof fn law_policies_agree(
    pins: Map<Seq<char>, Seq<char>>,
    host: Seq<char>,
    fp: Seq<char>,
)
    ensures
        verdict(pins, host, fp, PinPolicy::Enforce) == verdict(
            pins,
            host,
            fp,
            PinPolicy::TrustOnFirstUse,
        ),
        pins_after(pins, host, fp, PinPolicy::Enforce) == pins_after(
            pins,
            host,
            fp,
            PinPolicy::TrustOnFirstUse,
        ),
{
}

/// Of a line with a host and a fingerprint the table takes the pin, the last line for a host
/// counts, and empty lines and comments hold none.
pub proof fn law_lines_pin(lines: Seq<Seq<char>>, host: Seq<char>, fp: Seq<char>, c: Seq<char>)
    requires
        storable((host, fp)),
    ensures
        pinned(lines.push(host + seq![' '] + fp)) == pinned(lines).insert(host, fp),
        pinned(lines.push(seq!['#'] + c)) == pinned(lines),
        pinned(lines.push(Seq::empty())) == pinned(lines),
        pinned(Seq::empty()) == Map::<Seq<char>, Seq<char>>::empty(),
{
    let line = host + seq![' '] + fp;
    lemma_stored_line((host, fp));
    lemma_comment(seq!['#'] + c);
    assert(lines.push(line).drop_last() =~= lines);
    assert(lines.push(seq!['#'] + c).drop_last() =~= lines);
    assert(lines.push(Seq::empty()).drop_last() =~= lines);
    assert(line_pin(Seq::empty()) is None);
}

/// Of a fingerprint the first sixteen bytes are shown, or all of it where it has fewer.
pub proof fn law_short_len(fp: Seq<char>)
    ensures
        utf8::encode_utf8(fp).len() >= 16 ==> short_len(fp) == 16,
        utf8::encode_utf8(fp).len() < 16 ==> short_len(fp) == utf8::encode_utf8(fp).len(),
{
}

} // verus!
