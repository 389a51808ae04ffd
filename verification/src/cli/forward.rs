//! Port forwarding: the descriptions of tunnels, and the header that tells the far end where
//! to connect.

use vstd::prelude::*;
use vstd::slice::slice_subrange;
use vstd::string::*;
use vstd::utf8;
use crate::bytes;
use crate::cli::connect;
use crate::text;

verus! {

/// The longest header that is accepted.
pub const MAX_HEADER: usize = 4096;

/// A user, where one is named, and a host.
pub open spec fn user_host_of(remote: Seq<char>) -> (Option<Seq<char>>, Seq<char>) {
    let at = text::position(remote, '@');
    if at < remote.len() {
        (Some(remote.take(at)), remote.skip(at + 1))
    } else {
        (None, remote)
    }
}

/// The text of an optional string.
pub open spec fn opt_text(s: Option<String>) -> Option<Seq<char>> {
    match s {
        Some(t) => Some(t@),
        None => None,
    }
}

/// A user, where one is named, and a host.
pub fn user_host(remote: &str) -> (out: (Option<String>, String))
    ensures
        (opt_text(out.0), out.1@) == user_host_of(remote@),
{
    let chars: Vec<char> = text::chars_of(remote);
    let n: usize = chars.len();
    match text::find(&chars, '@') {
        Some(at) => {
            let user: String = text::cut(&chars, 0, at);
            let host: String = text::cut(&chars, at + 1, n);
            assert(user@ =~= remote@.take(at as int));
            assert(host@ =~= remote@.skip(at + 1));
            (Some(user), host)
        },
        None => (None, text::owned(remote)),
    }
}

/// What a description says: the local port, the remote host and the remote port; or why it
/// says nothing.
pub open spec fn forward_spec(spec: Seq<char>) -> Result<(u16, Seq<char>, u16), Seq<char>> {
    let a = text::position(spec, ':');
    if a >= spec.len() {
        Err("forward spec must be LOCAL_PORT:REMOTE_HOST:REMOTE_PORT"@)
    } else if text::number(spec.take(a), 65535) is None {
        Err("invalid local port: "@ + spec.take(a))
    } else {
        let rest = spec.skip(a + 1);
        let b = text::last_position(rest, ':');
        if b < 0 {
            Err("forward spec must be LOCAL_PORT:REMOTE_HOST:REMOTE_PORT"@)
        } else if b == 0 {
            Err("remote_host must not be empty in forward spec"@)
        } else if text::number(rest.skip(b + 1), 65535) is None {
            Err("invalid remote port: "@ + rest.skip(b + 1))
        } else {
            Ok(
                (
                    text::number(spec.take(a), 65535)->0 as u16,
                    rest.take(b),
                    text::number(rest.skip(b + 1), 65535)->0 as u16,
                ),
            )
        }
    }
}

/// The two sides of the first separator.
pub(crate) fn split_first(s: &str, sep: char) -> (out: Option<(String, String)>)
    ensures
        match out {
            Some(p) => text::position(s@, sep) < s@.len() && p.0@ == s@.take(
                text::position(s@, sep),
            ) && p.1@ == s@.skip(text::position(s@, sep) + 1),
            None => text::position(s@, sep) >= s@.len(),
        },
{
    let chars: Vec<char> = text::chars_of(s);
    let n: usize = chars.len();
    match text::find(&chars, sep) {
        Some(at) => {
            let a: String = text::cut(&chars, 0, at);
            let b: String = text::cut(&chars, at + 1, n);
            assert(a@ =~= s@.take(at as int));
            assert(b@ =~= s@.skip(at + 1));
            Some((a, b))
        },
        None => None,
    }
}

/// The two sides of the last separator.
pub(crate) fn split_last(s: &str, sep: char) -> (out: Option<(String, String)>)
    ensures
        match out {
            Some(p) => text::last_position(s@, sep) >= 0 && p.0@ == s@.take(
                text::last_position(s@, sep),
            ) && p.1@ == s@.skip(text::last_position(s@, sep) + 1),
            None => text::last_position(s@, sep) < 0,
        },
{
    let chars: Vec<char> = text::chars_of(s);
    let n: usize = chars.len();
    proof {
        text::lemma_positions(s@, sep);
    }
    match text::find_last(&chars, sep) {
        Some(at) => {
            let a: String = text::cut(&chars, 0, at);
            let b: String = text::cut(&chars, at + 1, n);
            assert(a@ =~= s@.take(at as int));
            assert(b@ =~= s@.skip(at + 1));
            Some((a, b))
        },
        None => None,
    }
}

/// Reads a description: local port, remote host and remote port, separated by colons.
pub fn parse_forward_spec(spec: &str) -> (out: Result<(u16, String, u16), String>)
    ensures
        match (out, forward_spec(spec@)) {
            (Ok(t), Ok(m)) => t.0 == m.0 && t.1@ == m.1 && t.2 == m.2,
            (Err(e), Err(w)) => e@ == w,
            _ => false,
        },
{
    let (local, rest) = match split_first(spec, ':') {
        Some(p) => p,
        None => {
            return Err(
                text::owned("forward spec must be LOCAL_PORT:REMOTE_HOST:REMOTE_PORT"),
            );
        },
    };
    let local_port: u16 = match text::parse_number(local.as_str(), 65535) {
        Some(p) => p as u16,
        None => {
            return Err(text::joined("invalid local port: ", local.as_str()));
        },
    };
    proof {
        text::lemma_positions(rest@, ':');
    }
    let (host, port) = match split_last(rest.as_str(), ':') {
        Some(p) => p,
        None => {
            return Err(
                text::owned("forward spec must be LOCAL_PORT:REMOTE_HOST:REMOTE_PORT"),
            );
        },
    };
    if host.as_str().is_empty() {
        return Err(text::owned("remote_host must not be empty in forward spec"));
    }
    match text::parse_number(port.as_str(), 65535) {
        Some(p) => Ok((local_port, host, p as u16)),
        None => Err(text::joined("invalid remote port: ", port.as_str())),
    }
}

/// The header that tells the far end where to connect: the length of the host, the host, and the
/// port.
pub open spec fn header_bytes(host: Seq<u8>, port: u16) -> Seq<u8> {
    bytes::be16((host.len() % 65536) as u16) + host + bytes::be16(port)
}

/// A header with its length in front.
pub open spec fn framed_header(header: Seq<u8>) -> Seq<u8> {
    bytes::be32((header.len() % 0x1_0000_0000) as u32) + header
}

/// The header that tells the far end where to connect.
pub fn header(host: &str, port: u16) -> (out: Vec<u8>)
    ensures
        out@ == header_bytes(host.spec_bytes(), port),
{
    let host_bytes: &[u8] = host.as_bytes();
    let mut out: Vec<u8> = Vec::new();
    bytes::put_be16(&mut out, (host_bytes.len() % 65536) as u16);
    bytes::append(&mut out, host_bytes);
    bytes::put_be16(&mut out, port);
    assert(out@ =~= header_bytes(host.spec_bytes(), port));
    out
}

/// A header with its length in front.
pub fn frame_header(header: &[u8]) -> (out: Vec<u8>)
    ensures
        out@ == framed_header(header@),
{
    let mut out: Vec<u8> = Vec::new();
    bytes::put_be32(&mut out, (header.len() as u64 % 0x1_0000_0000) as u32);
    bytes::append(&mut out, header);
    assert(out@ =~= framed_header(header@));
    out
}

/// The length of the header that follows, where it is acceptable.
pub fn header_len(prefix: &[u8; 4]) -> (out: Result<usize, u32>)
    ensures
        match out {
            Ok(n) => 4 <= n <= MAX_HEADER && n == bytes::un_be32(prefix@),
            Err(n) => !(4 <= n <= MAX_HEADER) && n == bytes::un_be32(prefix@),
        },
{
    let n: u32 = bytes::get_be32(prefix, 0);
    assert(prefix@.subrange(0, 4) =~= prefix@);
    if 4 <= n && n <= 4096 {
        Ok(n as usize)
    } else {
        Err(n)
    }
}

/// What can be wrong with a header.
#[derive(Debug, Clone, Copy, PartialEq, Eq, Structural)]
pub enum HeaderFault {
    TooShort,
    Truncated,
    NotUtf8,
}

/// Where the host in a header ends.
pub open spec fn host_end(header: Seq<u8>) -> int {
    2 + bytes::un_be16(header.subrange(0, 2))
}

/// The host in a header, as bytes.
pub open spec fn host_bytes_of(header: Seq<u8>) -> Seq<u8> {
    header.subrange(2, host_end(header))
}

/// The port in a header.
pub open spec fn port_of(header: Seq<u8>) -> u16 {
    bytes::un_be16(header.subrange(host_end(header), host_end(header) + 2))
}

/// Where a header says to connect, or what is wrong with it.
pub open spec fn destination(header: Seq<u8>) -> Result<(Seq<char>, u16), HeaderFault> {
    if header.len() < 4 {
        Err(HeaderFault::TooShort)
    } else if header.len() < host_end(header) + 2 {
        Err(HeaderFault::Truncated)
    } else if !utf8::valid_utf8(host_bytes_of(header)) {
        Err(HeaderFault::NotUtf8)
    } else {
        Ok((utf8::decode_utf8(host_bytes_of(header)), port_of(header)))
    }
}

/// Reads a header: the host, and the port.
pub fn parse_header(header: &[u8]) -> (out: Result<(String, u16), HeaderFault>)
    ensures
        match (out, destination(header@)) {
            (Ok(t), Ok(m)) => t.0@ == m.0 && t.1 == m.1,
            (Err(e), Err(f)) => e == f,
            _ => false,
        },
{
    let len: usize = header.len();
    if len < 4 {
        return Err(HeaderFault::TooShort);
    }
    let end: usize = 2 + bytes::get_be16(header, 0) as usize;
    if len < end + 2 {
        return Err(HeaderFault::Truncated);
    }
    match text::from_utf8(slice_subrange(header, 2, end)) {
        Ok(host) => Ok((host, bytes::get_be16(header, end))),
        Err(_) => Err(HeaderFault::NotUtf8),
    }
}

/// A host and a port, as an address.
pub open spec fn address_text(host: Seq<char>, port: u16) -> Seq<char> {
    host + ":"@ + text::decimal(port as nat)
}

/// A host and a port, as an address.
pub fn address(host: &str, port: u16) -> (out: String)
    ensures
        out@ == address_text(host@, port),
{
    text::glue3(host, ":", text::decimal_text(port as u64).as_str())
}

/// What is said of a header that is refused.
pub open spec fn fault_text(who: Seq<char>, fault: HeaderFault) -> Seq<char> {
    who + match fault {
        HeaderFault::TooShort => ": header too short"@,
        HeaderFault::Truncated => ": header truncated"@,
        HeaderFault::NotUtf8 => ": invalid UTF-8 in host"@,
    }
}

/// What is said of a header that is refused.
pub fn fault_message(who: &str, fault: HeaderFault) -> (out: String)
    ensures
        out@ == fault_text(who@, fault),
{
    match fault {
        HeaderFault::TooShort => text::joined(who, ": header too short"),
        HeaderFault::Truncated => text::joined(who, ": header truncated"),
        HeaderFault::NotUtf8 => text::joined(who, ": invalid UTF-8 in host"),
    }
}

/// What is said of a header whose length is refused.
pub fn length_message(who: &str, len: u32) -> (out: String)
    ensures
        out@ == who@ + ": invalid header length "@ + text::decimal(len as nat),
{
    text::glue3(who, ": invalid header length ", text::decimal_text(len as u64).as_str())
}

/// Where a relay says that a header leads, for its log.
pub open spec fn hop_text(header: Seq<u8>) -> Seq<char> {
    if header.len() >= 4 && header.len() >= host_end(header) + 2 {
        address_text(text::lossy(host_bytes_of(header)), port_of(header))
    } else {
        "?"@
    }
}

/// Where a relay says that a header leads, for its log.
pub fn hop_destination(header: &[u8]) -> (out: String)
    ensures
        out@ == hop_text(header@),
{
    let len: usize = header.len();
    if len < 4 {
        return text::owned("?");
    }
    let end: usize = 2 + bytes::get_be16(header, 0) as usize;
    if len < end + 2 {
        return text::owned("?");
    }
    let host: String = text::from_utf8_lossy(slice_subrange(header, 2, end));
    address(host.as_str(), bytes::get_be16(header, end))
}

/// The address to listen on: all interfaces, or the loopback interface.
pub fn bind_address(bind_all: bool, port: u16) -> (out: String)
    ensures
        out@ == address_text(
            if bind_all {
                "0.0.0.0"@
            } else {
                "127.0.0.1"@
            },
            port,
        ),
{
    address(
        if bind_all {
            "0.0.0.0"
        } else {
            "127.0.0.1"
        },
        port,
    )
}

/// The command that a relay runs to reach a target.
pub open spec fn hop_command_text(target: Seq<char>, port: Option<u16>) -> Seq<char> {
    "_forward-hop-recv --port 0 --target "@ + connect::quoted(target) + " "@ + match port {
        Some(p) => "--target-port "@ + text::decimal(p as nat) + " "@,
        None => ""@,
    }
}

/// The command that a relay runs to reach a target.
pub fn hop_command(target: &str, port: Option<u16>) -> (out: String)
    ensures
        out@ == hop_command_text(target@, port),
{
    let tail: String = match port {
        Some(p) => text::glue3("--target-port ", text::decimal_text(p as u64).as_str(), " "),
        None => text::owned(""),
    };
    let out: String = text::glue4(
        "_forward-hop-recv --port 0 --target ",
        connect::shell_quote(target).as_str(),
        " ",
        tail.as_str(),
    );
    assert(out@ =~= hop_command_text(target@, port));
    out
}

/// The far end connects where the near end says, and accepts the header if it is not too long.
pub proof fn law_header_round_trip(host: Seq<char>, port: u16)
    requires
        utf8::encode_utf8(host).len() <= 65535,
    ensures
        destination(header_bytes(utf8::encode_utf8(host), port)) == Ok::<
            (Seq<char>, u16),
            HeaderFault,
        >((host, port)),
        header_bytes(utf8::encode_utf8(host), port).len() == utf8::encode_utf8(host).len() + 4,
{
    let h = utf8::encode_utf8(host);
    let b = header_bytes(h, port);
    bytes::law_be16_read_write(h.len() as u16);
    bytes::law_be16_read_write(port);
    assert(b.subrange(0, 2) =~= bytes::be16(h.len() as u16));
    assert(host_bytes_of(b) =~= h);
    assert(b.subrange(2 + h.len() as int, 4 + h.len() as int) =~= bytes::be16(port));
    utf8::encode_utf8_valid_utf8(host);
    utf8::encode_utf8_decode_utf8(host);
}

/// The length in front of a header is that of the header.
pub proof fn law_header_framed(header: Seq<u8>)
    requires
        header.len() < 0x1_0000_0000,
    ensures
        bytes::un_be32(framed_header(header).take(4)) == header.len(),
        framed_header(header).skip(4) == header,
{
    bytes::law_be32_read_write(header.len() as u32);
    assert(framed_header(header).take(4) =~= bytes::be32(header.len() as u32));
    assert(framed_header(header).skip(4) =~= header);
}

/// A text without a sign, the sign, and whatever follows: the first such sign stands behind the
/// text.
pub proof fn lemma_first_sign(a: Seq<char>, sign: char, b: Seq<char>)
    requires
        forall|i: int| 0 <= i < a.len() ==> #[trigger] a[i] != sign,
    ensures
        text::position(a + seq![sign] + b, sign) == a.len(),
        (a + seq![sign] + b).take(a.len() as int) == a,
        (a + seq![sign] + b).skip(a.len() as int + 1) == b,
        text::position(a, sign) == a.len(),
{
    let s = a + seq![sign] + b;
    let n = a.len() as int;
    text::lemma_positions(s, sign);
    text::lemma_positions(a, sign);
    assert(s[n] == sign);
    let at = text::position(s, sign);
    if at < n {
        assert(s[at] == a[at]);
    }
    assert(s.take(n) =~= a);
    assert(s.skip(n + 1) =~= b);
}

/// Whatever comes before, a sign, and a text without the sign: the last such sign stands before
/// the text.
pub proof fn lemma_last_sign(a: Seq<char>, sign: char, b: Seq<char>)
    requires
        forall|i: int| 0 <= i < b.len() ==> #[trigger] b[i] != sign,
    ensures
        text::last_position(a + seq![sign] + b, sign) == a.len(),
        (a + seq![sign] + b).take(a.len() as int) == a,
        (a + seq![sign] + b).skip(a.len() as int + 1) == b,
{
    let s = a + seq![sign] + b;
    let n = a.len() as int;
    text::lemma_positions(s, sign);
    assert(s[n] == sign);
    let at = text::last_position(s, sign);
    if at > n {
        assert(s[at] == b[at - n - 1]);
    }
    assert(s.take(n) =~= a);
    assert(s.skip(n + 1) =~= b);
}

/// A number is written without a sign.
pub proof fn lemma_port_text(port: u16, sign: char)
    requires
        sign == ':' || sign == '@',
    ensures
        forall|i: int|
            0 <= i < text::decimal(port as nat).len() ==> #[trigger] text::decimal(port as nat)[i]
                != sign,
        text::number(text::decimal(port as nat), 65535) == Some(port as nat),
        text::decimal(port as nat).len() > 0,
{
    text::lemma_decimal(port as nat);
    text::law_decimal_round_trip(port as nat, 65535);
}

/// A description of two ports with a host between them is read as these, even if the host holds
/// colons, and only if there is a host.
pub proof fn law_forward_spec_read(local: u16, host: Seq<char>, remote: u16)
    ensures
        ({
            let spec = text::decimal(local as nat) + seq![':'] + (host + seq![':'] + text::decimal(
                remote as nat,
            ));
            &&& host.len() > 0 ==> forward_spec(spec) == Ok::<(u16, Seq<char>, u16), Seq<char>>(
                (local, host, remote),
            )
            &&& host.len() == 0 ==> forward_spec(spec) is Err
        }),
{
    let l = text::decimal(local as nat);
    let r = text::decimal(remote as nat);
    let rest = host + seq![':'] + r;
    lemma_port_text(local, ':');
    lemma_port_text(remote, ':');
    lemma_first_sign(l, ':', rest);
    lemma_last_sign(host, ':', r);
}

/// A description without a colon, or with a port that is no number, is refused.
pub proof fn law_forward_spec_refused(spec: Seq<char>)
    ensures
        (forall|i: int| 0 <= i < spec.len() ==> spec[i] != ':') ==> forward_spec(spec) is Err,
        forward_spec(spec) matches Ok(t) ==> t.1.len() > 0 && text::position(spec, ':')
            < spec.len() && text::number(spec.take(text::position(spec, ':')), 65535) == Some(
            t.0 as nat,
        ),
{
    text::lemma_positions(spec, ':');
    let a = text::position(spec, ':');
    if a < spec.len() {
        text::lemma_positions(spec.skip(a + 1), ':');
    }
}

/// The user stands before the first at sign, and where there is none all of it is the host.
pub proof fn law_user_and_host(user: Seq<char>, host: Seq<char>)
    requires
        forall|i: int| 0 <= i < user.len() ==> #[trigger] user[i] != '@',
    ensures
        user_host_of(user + seq!['@'] + host) == (Some(user), host),
        user_host_of(user) == (None::<Seq<char>>, user),
{
    lemma_first_sign(user, '@', host);
}

/// A header that is too short, cut off, or not text is refused as such.
pub proof fn law_header_refused(header: Seq<u8>)
    ensures
        header.len() < 4 <==> destination(header) == Err::<(Seq<char>, u16), HeaderFault>(
            HeaderFault::TooShort,
        ),
        destination(header) == Err::<(Seq<char>, u16), HeaderFault>(HeaderFault::Truncated) <==> 4
            <= header.len() < 4 + bytes::un_be16(header.subrange(0, 2)),
{
}

/// A relay names the destination that the far end reads.
pub proof fn law_hop_names_destination(host: Seq<char>, port: u16)
    requires
        utf8::encode_utf8(host).len() <= 65535,
    ensures
        hop_text(header_bytes(utf8::encode_utf8(host), port)) == text::lossy(
            utf8::encode_utf8(host),
        ) + ":"@ + text::decimal(port as nat),
{
    law_header_round_trip(host, port);
    let h = utf8::encode_utf8(host);
    let b = header_bytes(h, port);
    bytes::law_be16_read_write(h.len() as u16);
    bytes::law_be16_read_write(port);
    assert(b.subrange(0, 2) =~= bytes::be16(h.len() as u16));
    assert(host_bytes_of(b) =~= h);
    assert(b.subrange(2 + h.len() as int, 4 + h.len() as int) =~= bytes::be16(port));
}

/// The longest header that is read.
pub proof fn law_header_limit()
    ensures
        MAX_HEADER == 4096,
{
}

} // verus!
