//! The port scanner: what is to be scanned, and how banners are shown.

use vstd::prelude::*;
use vstd::string::*;
use crate::cli::forward;
use crate::text;

verus! {

/// The longest banner that is shown.
pub const BANNER_LEN: usize = 120;

/// A number that a text stands for, or zero.
pub open spec fn port_or_zero(s: Seq<char>) -> nat {
    match text::number(text::trimmed(s), 65535) {
        Some(n) => n,
        None => 0,
    }
}

/// Whether one part of a description names a port: a port, or a range with a hyphen.
pub open spec fn part_names(part: Seq<char>, port: int) -> bool {
    let p = text::trimmed(part);
    let at = text::position(p, '-');
    if p.len() == 0 {
        false
    } else if at < p.len() {
        port_or_zero(p.take(at)) <= port <= port_or_zero(p.skip(at + 1))
    } else {
        text::number(p, 65535) == Some(port as nat)
    }
}

/// Whether one of the parts of a description names a port.
pub open spec fn parts_name(parts: Seq<Seq<char>>, port: int) -> bool {
    exists|i: int| 0 <= i < parts.len() && part_names(#[trigger] parts[i], port)
}

/// Whether a description names a port.
pub open spec fn names(spec: Seq<char>, port: int) -> bool {
    parts_name(text::split(spec, ','), port)
}

fn number_or_zero(s: &str) -> (n: u16)
    ensures
        n == port_or_zero(s@),
{
    let t: String = text::trim(s);
    match text::parse_number(t.as_str(), 65535) {
        Some(v) => v as u16,
        None => 0,
    }
}

fn mark(table: &mut Vec<bool>, part: &str)
    requires
        old(table)@.len() == 65536,
    ensures
        final(table)@.len() == 65536,
        forall|p: int|
            0 <= p < 65536 ==> #[trigger] final(table)@[p] == (old(table)@[p] || part_names(
                part@,
                p,
            )),
{
    let t: String = text::trim(part);
    let chars: Vec<char> = text::chars_of(t.as_str());
    let n: usize = chars.len();
    if n == 0 {
        return;
    }
    match text::find(&chars, '-') {
        Some(at) => {
            let a: String = text::cut(&chars, 0, at);
            let b: String = text::cut(&chars, at + 1, n);
            assert(a@ =~= t@.take(at as int));
            assert(b@ =~= t@.skip(at + 1));
            let from: usize = number_or_zero(a.as_str()) as usize;
            let to: usize = number_or_zero(b.as_str()) as usize;
            let ghost start = table@;
            if from <= to {
                let mut p: usize = from;
                while p <= to
                    invariant
                        from <= p <= to + 1,
                        to <= 65535,
                        table@.len() == 65536,
                        forall|q: int|
                            0 <= q < 65536 ==> #[trigger] table@[q] == (start[q] || from <= q < p),
                    decreases to + 1 - p,
                {
                    table.set(p, true);
                    p = p + 1;
                }
            }
        },
        None => {
            match text::parse_number(t.as_str(), 65535) {
                Some(v) => {
                    table.set(v as usize, true);
                },
                None => {},
            }
        },
    }
}

/// The ports that a description names, ascending and each once.
pub fn parse_ports(spec: &str) -> (ports: Vec<u16>)
    ensures
        forall|i: int, j: int| 0 <= i < j < ports@.len() ==> ports@[i] < ports@[j],
        forall|p: u16| #[trigger] ports@.contains(p) <==> names(spec@, p as int),
{
    let parts: Vec<String> = text::pieces(spec, ',');
    let n: usize = parts.len();
    let ghost all = text::split(spec@, ',');
    let mut table: Vec<bool> = vec![false; 65536];
    for i in 0..n
        invariant
            n == parts@.len(),
            all == text::texts(parts@),
            table@.len() == 65536,
            forall|p: int|
                0 <= p < 65536 ==> #[trigger] table@[p] == parts_name(all.take(i as int), p),
    {
        let ghost before = table@;
        mark(&mut table, parts[i].as_str());
        assert forall|p: int| 0 <= p < 65536 implies #[trigger] table@[p] == parts_name(
            all.take(i + 1),
            p,
        ) by {
            let a = all.take(i as int);
            let b = all.take(i + 1);
            assert(b[i as int] == parts@[i as int]@);
            assert(before[p] == parts_name(a, p));
            if parts_name(a, p) {
                let k = choose|k: int| 0 <= k < a.len() && part_names(#[trigger] a[k], p);
                assert(b[k] == a[k]);
            }
            if parts_name(b, p) {
                let k = choose|k: int| 0 <= k < b.len() && part_names(#[trigger] b[k], p);
                if k < i {
                    assert(a[k] == b[k]);
                }
            }
        }
    }
    assert(all.take(n as int) =~= all);
    let mut ports: Vec<u16> = Vec::new();
    let mut p: usize = 0;
    while p < 65536
        invariant
            p <= 65536,
            table@.len() == 65536,
            forall|q: int| 0 <= q < 65536 ==> #[trigger] table@[q] == names(spec@, q),
            forall|i: int, j: int| 0 <= i < j < ports@.len() ==> ports@[i] < ports@[j],
            forall|i: int| 0 <= i < ports@.len() ==> #[trigger] ports@[i] < p,
            forall|i: int| 0 <= i < ports@.len() ==> names(spec@, #[trigger] ports@[i] as int),
            forall|q: u16| q < p && names(spec@, q as int) ==> #[trigger] ports@.contains(q),
        decreases 65536 - p,
    {
        let ghost before = ports@;
        if table[p] {
            ports.push(p as u16);
            assert forall|q: u16| q < p + 1 && names(spec@, q as int) implies #[trigger]
                ports@.contains(q) by {
                if q < p {
                    assert(before.contains(q));
                    let k = choose|k: int| 0 <= k < before.len() && before[k] == q;
                    assert(ports@[k] == q);
                } else {
                    assert(ports@[before.len() as int] == q);
                }
            }
        } else {
            assert(!table@[p as int]);
        }
        p = p + 1;
    }
    ports
}

/// How many addresses have the last `bits` bits free.
pub open spec fn block_size(bits: int) -> int
    decreases bits,
{
    if bits <= 0 {
        1
    } else {
        2 * block_size(bits - 1)
    }
}

proof fn lemma_block_size(bits: int)
    requires
        0 <= bits <= 31,
    ensures
        1 <= block_size(bits) <= 0x8000_0000,
        0x1_0000_0000int % block_size(bits) == 0,
    decreases bits,
{
    if bits > 0 {
        lemma_block_size(bits - 1);
        assert(block_size(bits) <= 0x8000_0000) by {
            reveal_with_fuel(block_size, 33);
        }
    }
    lemma_block_product(bits);
    vstd::arithmetic::div_mod::lemma_mod_multiples_basic(block_size(32 - bits), block_size(bits));
    assert(block_size(32 - bits) * block_size(bits) == block_size(bits) * block_size(32 - bits))
        by (nonlinear_arith);
}

proof fn lemma_block_product(bits: int)
    requires
        0 <= bits <= 32,
    ensures
        block_size(bits) * block_size(32 - bits) == 0x1_0000_0000,
    decreases bits,
{
    if bits == 0 {
        reveal_with_fuel(block_size, 34);
    } else {
        lemma_block_product(bits - 1);
        let a = block_size(bits - 1);
        let b = block_size(32 - bits);
        assert(block_size(bits) == 2 * a);
        assert(block_size(33 - bits) == 2 * b);
        assert((2 * a) * b == a * (2 * b)) by (nonlinear_arith);
    }
}

/// The first address of the block that an address lies in.
pub open spec fn network(base: u32, bits: int) -> int {
    base - base as int % block_size(bits)
}

/// The hosts of a block: every address but the first, or the one address of a block of one.
pub open spec fn hosts(base: u32, prefix: u8) -> (int, int) {
    let bits = if prefix >= 32 {
        0
    } else {
        32 - prefix
    };
    if bits == 0 {
        (base as int, base as int)
    } else {
        (network(base, bits) + 1, network(base, bits) + block_size(bits) - 1)
    }
}

/// The addresses of the hosts in a block, ascending. A prefix longer than an address counts as
/// one of full length.
pub fn expand_cidr(base: u32, prefix: u8) -> (out: Vec<u32>)
    requires
        prefix >= 1,
    ensures
        out@ == Seq::new(
            (hosts(base, prefix).1 - hosts(base, prefix).0 + 1) as nat,
            |i: int| (hosts(base, prefix).0 + i) as u32,
        ),
{
    if prefix >= 32 {
        let mut out: Vec<u32> = Vec::new();
        out.push(base);
        assert(out@ =~= Seq::new(1, |i: int| (base + i) as u32));
        return out;
    }
    let bits: u8 = 32 - prefix;
    let mut size: u32 = 1;
    let mut k: u8 = 0;
    while k < bits
        invariant
            k <= bits,
            1 <= bits <= 31,
            size == block_size(k as int),
        decreases bits - k,
    {
        proof {
            lemma_block_size(k as int + 1);
            lemma_block_size(k as int);
        }
        size = 2 * size;
        k = k + 1;
    }
    proof {
        lemma_block_size(bits as int);
    }
    proof {
        vstd::arithmetic::div_mod::lemma_mod_decreases(base as nat, size as nat);
    }
    let first: u32 = base - base % size;
    let ghost net = network(base, bits as int);
    assert(first == net);
    assert(net + size <= 0x1_0000_0000) by {
        lemma_block_end(base as int, size as int);
    }
    let last: u32 = first + (size - 1);
    let count: u32 = size - 1;
    let mut out: Vec<u32> = Vec::new();
    let mut i: u32 = 0;
    while i < count
        invariant
            i <= count,
            count == size - 1,
            first + count == last,
            out@ == Seq::new(i as nat, |j: int| (first + 1 + j) as u32),
        decreases count - i,
    {
        out.push(first + 1 + i);
        i = i + 1;
        assert(out@ =~= Seq::new(i as nat, |j: int| (first + 1 + j) as u32));
    }
    assert(out@ =~= Seq::new(
        (hosts(base, prefix).1 - hosts(base, prefix).0 + 1) as nat,
        |i: int| (hosts(base, prefix).0 + i) as u32,
    ));
    out
}

/// Every address that a block is expanded to lies in the block of the address it was named by.
pub proof fn law_hosts_share_network(base: u32, prefix: u8, host: u32)
    requires
        1 <= prefix <= 32,
        hosts(base, prefix).0 <= host <= hosts(base, prefix).1,
    ensures
        network(host, 32 - prefix) == network(base, 32 - prefix),
{
    let bits = 32 - prefix;
    let size = block_size(bits);
    if bits > 0 {
        lemma_block_size(bits);
        let q = base as int / size;
        let k = host - network(base, bits);
        vstd::arithmetic::div_mod::lemma_fundamental_div_mod(base as int, size);
        assert(network(base, bits) == size * q);
        vstd::arithmetic::div_mod::lemma_mod_multiples_vanish(q, k, size);
        vstd::arithmetic::div_mod::lemma_small_mod(k as nat, size as nat);
        assert(host as int % size == k);
    }
}

/// A part of a dotted address: a number up to 255, without leading zeros.
pub open spec fn octet(s: Seq<char>) -> Option<nat> {
    if s.len() == 0 || s.len() > 3 || !text::all_digits(s) || (s.len() > 1 && s[0] == '0') {
        None
    } else if text::digits_value(s) > 255 {
        None
    } else {
        Some(text::digits_value(s))
    }
}

/// The address that four numbers with dots between them stand for.
pub open spec fn dotted_address(s: Seq<char>) -> Option<u32> {
    let p = text::split(s, '.');
    if p.len() == 4 && octet(p[0]) is Some && octet(p[1]) is Some && octet(p[2]) is Some && octet(
        p[3],
    ) is Some {
        Some(
            (octet(p[0]).unwrap() * 0x100_0000 + octet(p[1]).unwrap() * 0x1_0000 + octet(
                p[2],
            ).unwrap() * 0x100 + octet(p[3]).unwrap()) as u32,
        )
    } else {
        None
    }
}

fn parse_octet(s: &str) -> (out: Option<u32>)
    ensures
        match out {
            Some(v) => octet(s@) == Some(v as nat) && v <= 255,
            None => octet(s@) is None,
        },
{
    let chars: Vec<char> = text::chars_of(s);
    let n: usize = chars.len();
    if n == 0 || n > 3 || (n > 1 && chars[0] == '0') {
        return None;
    }
    let mut value: u32 = 0;
    assert(s@.take(0) =~= Seq::empty());
    for i in 0..n
        invariant
            n == chars@.len(),
            n <= 3,
            chars@ == s@,
            text::all_digits(s@.take(i as int)),
            value == text::digits_value(s@.take(i as int)),
            i == 0 ==> value == 0,
            i == 1 ==> value <= 9,
            i == 2 ==> value <= 99,
            i == 3 ==> value <= 999,
    {
        let c: char = chars[i];
        proof {
            assert(s@.take(i + 1).drop_last() =~= s@.take(i as int));
            assert(s@.take(i + 1).last() == c);
        }
        if c < '0' || c > '9' {
            assert(!text::all_digits(s@)) by {
                assert(s@[i as int] == c);
            }
            return None;
        }
        value = 10 * value + (c as u32 - 48);
    }
    assert(s@.take(n as int) =~= s@);
    if value > 255 {
        None
    } else {
        Some(value)
    }
}

/// The address that four numbers with dots between them stand for.
pub fn parse_ipv4(s: &str) -> (out: Option<u32>)
    ensures
        out == dotted_address(s@),
{
    let p: Vec<String> = text::pieces(s, '.');
    assert(text::texts(p@).len() == p@.len());
    if p.len() != 4 {
        return None;
    }
    assert(text::texts(p@)[0] == p@[0]@ && text::texts(p@)[1] == p@[1]@ && text::texts(p@)[2]
        == p@[2]@ && text::texts(p@)[3] == p@[3]@);
    match (
        parse_octet(p[0].as_str()),
        parse_octet(p[1].as_str()),
        parse_octet(p[2].as_str()),
        parse_octet(p[3].as_str()),
    ) {
        (Some(a), Some(b), Some(c), Some(d)) => Some(
            a * 0x100_0000 + b * 0x1_0000 + c * 0x100 + d,
        ),
        _ => None,
    }
}

/// The block that a target names: an address, a slash, and the length of the prefix. A length
/// that is no number up to 255 counts as a full address.
pub open spec fn named_block(target: Seq<char>) -> Option<(u32, u8)> {
    let at = text::position(target, '/');
    if at >= target.len() {
        None
    } else {
        match dotted_address(target.take(at)) {
            Some(base) => Some(
                (
                    base,
                    match text::number(target.skip(at + 1), 255) {
                        Some(n) => n as u8,
                        None => 32u8,
                    },
                ),
            ),
            None => None,
        }
    }
}

/// The block that a target names.
pub fn block_named(target: &str) -> (out: Option<(u32, u8)>)
    ensures
        out == named_block(target@),
{
    match forward::split_first(target, '/') {
        Some((base, prefix)) => match parse_ipv4(base.as_str()) {
            Some(a) => {
                let n: u8 = match text::parse_number(prefix.as_str(), 255) {
                    Some(n) => n as u8,
                    None => 32,
                };
                Some((a, n))
            },
            None => None,
        },
        None => None,
    }
}

/// What a target stands for.
#[derive(Debug)]
pub enum Targets {
    /// These addresses.
    Addresses(Vec<u32>),
    /// A name, or an address of another kind.
    Name,
}

/// What a target stands for: a block of addresses, an address, or something that has to be looked
/// up.
pub fn parse_targets(target: &str) -> (out: Targets)
    requires
        named_block(target@) is Some ==> named_block(target@).unwrap().1 >= 1,
    ensures
        match named_block(target@) {
            Some((base, prefix)) => {
                &&& out matches Targets::Addresses(v)
                &&& v@ == Seq::new(
                    (hosts(base, prefix).1 - hosts(base, prefix).0 + 1) as nat,
                    |i: int| (hosts(base, prefix).0 + i) as u32,
                )
            },
            None => match dotted_address(target@) {
                Some(a) => out matches Targets::Addresses(v) && v@ == seq![a],
                None => out is Name,
            },
        },
{
    match block_named(target) {
        Some((base, prefix)) => Targets::Addresses(expand_cidr(base, prefix)),
        None => match parse_ipv4(target) {
            Some(a) => {
                let mut v: Vec<u32> = Vec::new();
                v.push(a);
                assert(v@ =~= seq![a]);
                Targets::Addresses(v)
            },
            None => Targets::Name,
        },
    }
}

proof fn lemma_block_end(base: int, size: int)
    requires
        0 <= base < 0x1_0000_0000,
        1 <= size <= 0x1_0000_0000,
        0x1_0000_0000int % size == 0,
    ensures
        base - base % size + size <= 0x1_0000_0000,
{
    let q = base / size;
    let n = 0x1_0000_0000int / size;
    vstd::arithmetic::div_mod::lemma_fundamental_div_mod(base, size);
    vstd::arithmetic::div_mod::lemma_fundamental_div_mod(0x1_0000_0000, size);
    assert(base - base % size == size * q);
    assert(0x1_0000_0000 == size * n);
    assert(q < n) by {
        if q >= n {
            assert(size * q >= size * n) by (nonlinear_arith)
                requires
                    q >= n,
                    size >= 1,
            ;
        }
    }
    assert(size * (q + 1) <= size * n) by (nonlinear_arith)
        requires
            q + 1 <= n,
            size >= 1,
    ;
    assert(size * (q + 1) == size * q + size) by (nonlinear_arith);
}

/// A text without white space and zero characters at its end.
pub open spec fn trim_tail(s: Seq<char>) -> Seq<char>
    decreases s.len(),
{
    if s.len() > 0 && (text::is_space(s.last()) || s.last() == '\0') {
        trim_tail(s.drop_last())
    } else {
        s
    }
}

/// What is shown of a banner: printable ASCII, with a blank for each line feed.
pub open spec fn printable(s: Seq<char>) -> Seq<char>
    decreases s.len(),
{
    if s.len() == 0 {
        Seq::empty()
    } else {
        let before = printable(s.drop_last());
        let c = if s.last() == '\n' {
            ' '
        } else {
            s.last()
        };
        if ' ' <= c <= '~' {
            before.push(c)
        } else {
            before
        }
    }
}

/// A banner as it is shown, given the bytes that came.
pub open spec fn banner_text(raw: Seq<u8>) -> Seq<char> {
    let p = printable(trim_tail(text::lossy(raw)));
    if p.len() > BANNER_LEN {
        p.take(BANNER_LEN as int)
    } else {
        p
    }
}

/// A banner as it is shown, where there is something to show.
pub fn clean_banner(raw: &[u8]) -> (out: Option<String>)
    ensures
        match out {
            Some(s) => s@ == banner_text(raw@) && s@.len() > 0,
            None => banner_text(raw@).len() == 0,
        },
{
    let s: String = text::from_utf8_lossy(raw);
    let chars: Vec<char> = text::chars_of(s.as_str());
    let n: usize = chars.len();
    let mut to: usize = n;
    assert(s@.take(n as int) =~= s@);
    while to > 0 && (text::space(chars[to - 1]) || chars[to - 1] == '\0')
        invariant
            to <= n,
            n == chars@.len(),
            chars@ == s@,
            trim_tail(s@) == trim_tail(s@.take(to as int)),
        decreases to,
    {
        assert(s@.take(to as int).drop_last() =~= s@.take(to - 1));
        assert(s@.take(to as int).last() == s@[to - 1]);
        to = to - 1;
    }
    let ghost t = s@.take(to as int);
    proof {
        if to > 0 {
            assert(t.last() == s@[to - 1]);
        }
        assert(trim_tail(s@) == t);
        assert(t.take(0) =~= Seq::empty());
    }
    let mut shown: Vec<char> = Vec::new();
    for i in 0..to
        invariant
            to <= n,
            n == chars@.len(),
            chars@ == s@,
            t == s@.take(to as int),
            shown@ == printable(t.take(i as int)),
    {
        let c: char = if chars[i] == '\n' {
            ' '
        } else {
            chars[i]
        };
        proof {
            assert(t.take(i + 1).drop_last() =~= t.take(i as int));
            assert(t.take(i + 1).last() == s@[i as int]);
        }
        if ' ' <= c && c <= '~' {
            shown.push(c);
        }
    }
    assert(t.take(to as int) =~= t);
    let len: usize = shown.len();
    let keep: usize = if len > BANNER_LEN {
        BANNER_LEN
    } else {
        len
    };
    if keep == 0 {
        return None;
    }
    let out: String = text::cut(&shown, 0, keep);
    assert(out@ =~= banner_text(raw@));
    Some(out)
}

/// The ending of a plural.
pub open spec fn plural_text(n: nat) -> Seq<char> {
    if n == 1 {
        ""@
    } else {
        "s"@
    }
}

/// The ending of a plural.
pub fn plural(n: usize) -> (s: &'static str)
    ensures
        s@ == plural_text(n as nat),
{
    if n == 1 {
        ""
    } else {
        "s"
    }
}

/// What is said before a scan.
pub open spec fn scan_head_text(hosts: nat, ports: nat, probes: nat) -> Seq<char> {
    "Scanning "@ + text::decimal(hosts) + " host"@ + plural_text(hosts) + ", "@ + (text::decimal(
        ports,
    ) + " port"@ + plural_text(ports) + " ("@ + text::decimal(probes) + " total probes)"@)
}

/// What is said before a scan; it is refused where nothing is to be scanned.
pub fn scan_head(hosts: usize, ports: usize, target: &str) -> (out: Result<String, String>)
    requires
        hosts * ports <= u64::MAX,
    ensures
        match out {
            Ok(s) => hosts > 0 && ports > 0 && s@ == scan_head_text(
                hosts as nat,
                ports as nat,
                (hosts * ports) as nat,
            ),
            Err(e) => e@ == if hosts == 0 {
                "could not resolve target: "@ + target@
            } else {
                "no valid ports specified"@
            } && (hosts == 0 || ports == 0),
        },
{
    if hosts == 0 {
        return Err(text::joined("could not resolve target: ", target));
    }
    if ports == 0 {
        return Err(text::owned("no valid ports specified"));
    }
    let probes: u64 = hosts as u64 * ports as u64;
    let tail: String = text::glue5(
        text::decimal_text(ports as u64).as_str(),
        " port",
        plural(ports),
        " (",
        text::joined(text::decimal_text(probes).as_str(), " total probes)").as_str(),
    );
    let out: String = text::glue7(
        "Scanning ",
        text::decimal_text(hosts as u64).as_str(),
        " host",
        plural(hosts),
        ", ",
        tail.as_str(),
        "",
    );
    assert(""@ =~= Seq::empty()) by {
        reveal_strlit("");
    }
    assert(out@ =~= scan_head_text(hosts as nat, ports as nat, (hosts * ports) as nat));
    Ok(out)
}

/// The row of an open port: host, port, latency and banner.
pub open spec fn scan_row_text(
    host: Seq<char>,
    port: u16,
    latency_ms: Option<u64>,
    banner: Seq<char>,
) -> Seq<char> {
    text::padded(host, 20) + " "@ + text::padded(text::decimal(port as nat), 8) + " "@
        + text::padded(
        match latency_ms {
            Some(ms) => text::decimal(ms as nat) + "ms"@,
            None => ""@,
        },
        12,
    ) + " "@ + banner
}

/// The row of an open port.
pub fn scan_row(host: &str, port: u16, latency_ms: Option<u64>, banner: &str) -> (out: String)
    ensures
        out@ == scan_row_text(host@, port, latency_ms, banner@),
{
    let latency: String = match latency_ms {
        Some(ms) => text::joined(text::decimal_text(ms).as_str(), "ms"),
        None => text::owned(""),
    };
    let mut out: String = String::new();
    text::push_padded(&mut out, host, 20);
    out.append(" ");
    text::push_padded(&mut out, text::decimal_text(port as u64).as_str(), 8);
    out.append(" ");
    text::push_padded(&mut out, latency.as_str(), 12);
    out.append(" ");
    out.append(banner);
    assert(out@ =~= scan_row_text(host@, port, latency_ms, banner@));
    out
}

/// A port alone names that port, a range names every port in it and its ends, and a list names
/// what its parts name.
pub proof fn law_ports_named(a: u16, b: u16, port: u16)
    ensures
        part_names(text::decimal(a as nat), port as int) <==> port == a,
        part_names(
            text::decimal(a as nat) + seq!['-'] + text::decimal(b as nat),
            port as int,
        ) <==> a <= port <= b,
        !part_names(Seq::empty(), port as int),
{
    let x = text::decimal(a as nat);
    let y = text::decimal(b as nat);
    let r = x + seq!['-'] + y;
    text::lemma_decimal(a as nat);
    text::lemma_decimal(b as nat);
    text::law_decimal_round_trip(a as nat, 65535);
    text::law_decimal_round_trip(b as nat, 65535);
    lemma_untrimmed(x);
    lemma_untrimmed(y);
    assert('0' <= x[0] <= '9');
    assert('0' <= y[y.len() - 1] <= '9');
    lemma_ends_untrimmed(r);
    text::lemma_positions(x, '-');
    text::lemma_positions(r, '-');
    let n = x.len() as int;
    assert(r[n] == '-');
    let at = text::position(r, '-');
    if at < n {
        assert(r[at] == x[at]);
    }
    assert(at == n);
    assert(r.take(n) =~= x);
    assert(r.skip(n + 1) =~= y);
    let px = text::position(x, '-');
    if px < n {
        assert('0' <= x[px] <= '9');
    }
    assert(text::trimmed(Seq::empty()) =~= Seq::<char>::empty());
}

proof fn lemma_untrimmed(d: Seq<char>)
    requires
        d.len() > 0,
        text::all_digits(d),
    ensures
        text::trimmed(d) == d,
{
    assert('0' <= d[0] <= '9');
    assert('0' <= d[d.len() - 1] <= '9');
    lemma_ends_untrimmed(d);
}

proof fn lemma_ends_untrimmed(d: Seq<char>)
    requires
        d.len() > 0,
        !text::is_space(d[0]),
        !text::is_space(d.last()),
    ensures
        text::trimmed(d) == d,
{
}

/// A list names a port exactly if one of its parts does.
pub proof fn law_list_names(spec: Seq<char>, port: int)
    ensures
        names(spec, port) <==> exists|i: int|
            0 <= i < text::split(spec, ',').len() && part_names(
                #[trigger] text::split(spec, ',')[i],
                port,
            ),
        text::join(text::split(spec, ','), seq![',']) == spec,
{
    text::law_split_joins(spec, ',');
}

/// The addresses of a block are all those that share its leading bits, but for the first: with 32
/// leading bits the address itself.
pub proof fn law_block_addresses(base: u32, prefix: u8, a: u32)
    requires
        1 <= prefix <= 32,
    ensures
        ({
            let size = vstd::arithmetic::power2::pow2((32 - prefix) as nat) as int;
            hosts(base, prefix).0 <= a <= hosts(base, prefix).1 <==> if prefix == 32 {
                a == base
            } else {
                a as int / size == base as int / size && a as int % size != 0
            }
        }),
        hosts(base, 32) == (base as int, base as int),
{
    let bits = 32 - prefix;
    let size = vstd::arithmetic::power2::pow2(bits as nat) as int;
    lemma_block_is_power(bits);
    vstd::arithmetic::power2::lemma_pow2_pos(bits as nat);
    if prefix < 32 {
        let n = base as int / size;
        vstd::arithmetic::div_mod::lemma_fundamental_div_mod(base as int, size);
        vstd::arithmetic::div_mod::lemma_fundamental_div_mod(a as int, size);
        let q = a as int / size;
        let r = a as int % size;
        assert(0 <= r < size) by {
            vstd::arithmetic::div_mod::lemma_mod_bound(a as int, size);
        }
        assert(network(base, bits) == size * n);
        if size * n + 1 <= a <= size * n + size - 1 {
            vstd::arithmetic::div_mod::lemma_fundamental_div_mod_converse(
                a as int,
                size,
                n,
                a - size * n,
            );
        }
    }
}

proof fn lemma_block_is_power(bits: int)
    requires
        0 <= bits,
    ensures
        block_size(bits) == vstd::arithmetic::power2::pow2(bits as nat),
    decreases bits,
{
    if bits == 0 {
        vstd::arithmetic::power2::lemma2_to64();
    } else {
        lemma_block_is_power(bits - 1);
        vstd::arithmetic::power2::lemma_pow2_unfold(bits as nat);
    }
}

/// An address is read from its four numbers, and a number that is too great, has a zero in front
/// or is no number makes it no address.
pub proof fn law_octets(n: nat, s: Seq<char>)
    ensures
        n <= 255 ==> octet(text::decimal(n)) == Some(n),
        n > 255 ==> octet(text::decimal(n)) is None,
        octet(Seq::empty()) is None,
        s.len() > 0 ==> octet(seq!['0'] + s) is None,
{
    text::lemma_decimal(n);
    reveal_with_fuel(text::decimal, 4);
    assert((seq!['0'] + s)[0] == '0');
}

/// A banner shows printable characters only, at most 120 of them.
pub proof fn law_banner_printable(raw: Seq<u8>)
    ensures
        banner_text(raw).len() <= 120,
        forall|i: int| 0 <= i < banner_text(raw).len() ==> ' ' <= #[trigger] banner_text(raw)[i] <= '~',
{
    lemma_printable(trim_tail(text::lossy(raw)));
}

proof fn lemma_printable(s: Seq<char>)
    ensures
        forall|i: int| 0 <= i < printable(s).len() ==> ' ' <= #[trigger] printable(s)[i] <= '~',
        (forall|i: int| 0 <= i < s.len() ==> ' ' <= #[trigger] s[i] <= '~') ==> printable(s) == s,
    decreases s.len(),
{
    if s.len() > 0 {
        let front = s.drop_last();
        lemma_printable(front);
        assert forall|i: int| 0 <= i < printable(s).len() implies ' ' <= #[trigger] printable(s)[i]
            <= '~' by {
            if i < printable(front).len() {
                assert(printable(s)[i] == printable(front)[i]);
            }
        }
        if forall|i: int| 0 <= i < s.len() ==> ' ' <= #[trigger] s[i] <= '~' {
            assert forall|i: int| 0 <= i < front.len() implies ' ' <= #[trigger] front[i] <= '~' by {
                assert(front[i] == s[i]);
            }
            assert(' ' <= s[s.len() - 1] <= '~');
            assert(front.push(s.last()) =~= s);
        }
    } else {
        assert(printable(s) =~= s);
    }
}

/// A banner of printable characters that does not end in white space is shown as it is.
pub proof fn law_plain_banner_shown(raw: Seq<u8>)
    requires
        0 < text::lossy(raw).len() <= 120,
        forall|i: int|
            0 <= i < text::lossy(raw).len() ==> ' ' <= #[trigger] text::lossy(raw)[i] <= '~',
        text::lossy(raw).last() != ' ',
    ensures
        banner_text(raw) == text::lossy(raw),
{
    let s = text::lossy(raw);
    assert(' ' <= s[s.len() - 1] <= '~');
    lemma_printable(s);
}

/// An address in dots is read as its number.
pub proof fn law_address_read(a: u8, b: u8, c: u8, d: u8)
    ensures
        dotted_address(
            text::join(
                seq![
                    text::decimal(a as nat),
                    text::decimal(b as nat),
                    text::decimal(c as nat),
                    text::decimal(d as nat),
                ],
                seq!['.'],
            ),
        ) == Some((a * 0x100_0000 + b * 0x1_0000 + c * 0x100 + d) as u32),
{
    let list = seq![
        text::decimal(a as nat),
        text::decimal(b as nat),
        text::decimal(c as nat),
        text::decimal(d as nat),
    ];
    text::lemma_decimal(a as nat);
    text::lemma_decimal(b as nat);
    text::lemma_decimal(c as nat);
    text::lemma_decimal(d as nat);
    law_octets(a as nat, Seq::empty());
    law_octets(b as nat, Seq::empty());
    law_octets(c as nat, Seq::empty());
    law_octets(d as nat, Seq::empty());
    assert forall|i: int, j: int| 0 <= i < list.len() && 0 <= j < list[i].len() implies #[trigger] list[i][j]
        != '.' by {
        assert(text::all_digits(list[i]));
    }
    text::law_split_of_joined(list, '.');
}

/// A block is an address, a slash and the number of its leading bits; without a slash there is no
/// block, and where there is no number behind it all bits lead.
pub proof fn law_block_read(address: Seq<char>, bits: u8, other: Seq<char>)
    requires
        forall|i: int| 0 <= i < address.len() ==> #[trigger] address[i] != '/',
        text::number(other, 255) is None,
    ensures
        dotted_address(address) matches Some(base) ==> named_block(
            address + seq!['/'] + text::decimal(bits as nat),
        ) == Some((base, bits)) && named_block(address + seq!['/'] + other) == Some((base, 32u8)),
        dotted_address(address) is None ==> named_block(address + seq!['/'] + other) is None,
        named_block(address) is None,
{
    text::law_decimal_round_trip(bits as nat, 255);
    crate::cli::forward::lemma_first_sign(address, '/', text::decimal(bits as nat));
    crate::cli::forward::lemma_first_sign(address, '/', other);
}

/// Blanks around a part of a list do not count.
pub proof fn law_blanks_in_lists(a: Seq<char>, part: Seq<char>, b: Seq<char>, port: int)
    requires
        forall|i: int| 0 <= i < a.len() ==> text::is_space(#[trigger] a[i]),
        forall|i: int| 0 <= i < b.len() ==> text::is_space(#[trigger] b[i]),
        part.len() > 0,
        !text::is_space(part[0]),
        !text::is_space(part.last()),
    ensures
        part_names(a + part + b, port) == part_names(part, port),
        !part_names(a, port),
{
    text::law_space_around(a, part, b);
    lemma_ends_untrimmed(part);
}

} // verus!
