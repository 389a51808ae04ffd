//! The SOCKS5 proxy: what it answers to its clients.

use vstd::prelude::*;
use vstd::string::*;
use vstd::utf8;
use crate::cli::forward;
use crate::text;

verus! {

pub const SOCKS5_VERSION: u8 = 0x05;

pub const NO_AUTH: u8 = 0x00;

pub const AUTH_NONE_ACCEPTABLE: u8 = 0xFF;

pub const CMD_CONNECT: u8 = 0x01;

pub const ATYP_IPV4: u8 = 0x01;

pub const ATYP_DOMAIN: u8 = 0x03;

pub const ATYP_IPV6: u8 = 0x04;

pub const REP_SUCCESS: u8 = 0x00;

pub const REP_GENERAL_FAILURE: u8 = 0x01;

pub const REP_CMD_NOT_SUPPORTED: u8 = 0x07;

pub const REP_ATYP_NOT_SUPPORTED: u8 = 0x08;

/// Two hex digits.
pub open spec fn hex_byte(b: u8) -> Seq<char> {
    seq![text::hex_digit(b as int / 16), text::hex_digit(b as int % 16)]
}

fn with_hex(before: &str, b: u8, after: &str) -> (out: String)
    ensures
        out@ == before@ + hex_byte(b) + after@,
{
    let mut out: String = String::new();
    out.append(before);
    out.push(text::hex_char(b / 16));
    out.push(text::hex_char(b % 16));
    out.append(after);
    assert(out@ =~= before@ + hex_byte(b) + after@);
    out
}

/// Reads the first two bytes of a client: how many methods it offers.
pub fn greeting(header: &[u8; 2]) -> (out: Result<usize, String>)
    ensures
        match out {
            Ok(n) => header@[0] == SOCKS5_VERSION && n == header@[1],
            Err(e) => header@[0] != SOCKS5_VERSION && e@ == "not a SOCKS5 client (version byte 0x"@
                + hex_byte(header@[0]) + ")"@,
        },
{
    if header[0] != SOCKS5_VERSION {
        return Err(with_hex("not a SOCKS5 client (version byte 0x", header[0], ")"));
    }
    Ok(header[1] as usize)
}

/// Answers the methods that a client offers: the reply, and whether the client may go on. Only
/// clients without authentication may.
pub fn choose_method(methods: &[u8]) -> (out: ([u8; 2], bool))
    ensures
        out.1 == methods@.contains(NO_AUTH),
        out.0@ == seq![SOCKS5_VERSION, if out.1 {
            NO_AUTH
        } else {
            AUTH_NONE_ACCEPTABLE
        }],
{
    let n: usize = methods.len();
    let mut found: bool = false;
    let mut i: usize = 0;
    while i < n && !found
        invariant
            i <= n,
            n == methods@.len(),
            found == exists|j: int| 0 <= j < i && methods@[j] == NO_AUTH,
        decreases n - i,
    {
        if methods[i] == NO_AUTH {
            found = true;
        }
        i = i + 1;
    }
    let reply: [u8; 2] = [
        SOCKS5_VERSION,
        if found {
            NO_AUTH
        } else {
            AUTH_NONE_ACCEPTABLE
        },
    ];
    assert(reply@ =~= seq![SOCKS5_VERSION, if found {
        NO_AUTH
    } else {
        AUTH_NONE_ACCEPTABLE
    }]);
    (reply, found)
}

/// The kinds of addresses.
#[derive(Debug, Clone, Copy, PartialEq, Eq, Structural)]
pub enum AddressKind {
    /// Four bytes.
    Ipv4,
    /// A length, and a name.
    Domain,
    /// Sixteen bytes.
    Ipv6,
}

/// What becomes of a request.
#[derive(Debug)]
pub enum Request {
    /// A connection is wanted; an address of this kind follows.
    Connect(AddressKind),
    /// The request is refused with a reply.
    Refuse { reply: u8, why: String },
    /// The client is dropped.
    Drop { why: String },
}

/// Whether an answer is the one to the head of a request.
pub open spec fn answers(r: Request, head: Seq<u8>) -> bool {
    if head[0] != SOCKS5_VERSION {
        r matches Request::Drop { why } && why@ == "SOCKS5 request version mismatch"@
    } else if head[1] != CMD_CONNECT {
        r matches Request::Refuse { reply, why } && reply == REP_CMD_NOT_SUPPORTED && why@
            == "only CONNECT is supported (got CMD 0x"@ + hex_byte(head[1]) + ")"@
    } else if head[3] == ATYP_IPV4 {
        r matches Request::Connect(k) && k == AddressKind::Ipv4
    } else if head[3] == ATYP_DOMAIN {
        r matches Request::Connect(k) && k == AddressKind::Domain
    } else if head[3] == ATYP_IPV6 {
        r matches Request::Connect(k) && k == AddressKind::Ipv6
    } else {
        r matches Request::Refuse { reply, why } && reply == REP_ATYP_NOT_SUPPORTED && why@
            == "unsupported ATYP 0x"@ + hex_byte(head[3]) + ""@
    }
}

/// Answers the head of a request: version, command, a reserved byte, and the kind of address.
pub fn request(head: &[u8; 4]) -> (r: Request)
    ensures
        answers(r, head@),
{
    if head[0] != SOCKS5_VERSION {
        return Request::Drop { why: text::owned("SOCKS5 request version mismatch") };
    }
    if head[1] != CMD_CONNECT {
        return Request::Refuse {
            reply: REP_CMD_NOT_SUPPORTED,
            why: with_hex("only CONNECT is supported (got CMD 0x", head[1], ")"),
        };
    }
    let kind: u8 = head[3];
    if kind == ATYP_IPV4 {
        Request::Connect(AddressKind::Ipv4)
    } else if kind == ATYP_DOMAIN {
        Request::Connect(AddressKind::Domain)
    } else if kind == ATYP_IPV6 {
        Request::Connect(AddressKind::Ipv6)
    } else {
        Request::Refuse {
            reply: REP_ATYP_NOT_SUPPORTED,
            why: with_hex("unsupported ATYP 0x", kind, ""),
        }
    }
}

/// Four bytes as a dotted address.
pub open spec fn dotted(a: Seq<u8>) -> Seq<char> {
    text::decimal(a[0] as nat) + "."@ + text::decimal(a[1] as nat) + "."@ + text::decimal(
        a[2] as nat,
    ) + "."@ + text::decimal(a[3] as nat)
}

/// Four bytes as a dotted address.
pub fn ipv4_text(a: &[u8; 4]) -> (out: String)
    ensures
        out@ == dotted(a@),
{
    text::glue7(
        text::decimal_text(a[0] as u64).as_str(),
        ".",
        text::decimal_text(a[1] as u64).as_str(),
        ".",
        text::decimal_text(a[2] as u64).as_str(),
        ".",
        text::decimal_text(a[3] as u64).as_str(),
    )
}

/// The name in a request.
pub fn domain_text(name: &[u8]) -> (out: Result<String, String>)
    ensures
        match out {
            Ok(s) => utf8::valid_utf8(name@) && s@ == utf8::decode_utf8(name@),
            Err(e) => !utf8::valid_utf8(name@) && e@ == "invalid domain encoding"@,
        },
{
    match text::from_utf8(name) {
        Ok(s) => Ok(s),
        Err(_) => Err(text::owned("invalid domain encoding")),
    }
}

/// The reply to a request; the address in it is always empty.
pub open spec fn reply_bytes(rep: u8) -> Seq<u8> {
    seq![SOCKS5_VERSION, rep, 0u8, ATYP_IPV4, 0u8, 0u8, 0u8, 0u8, 0u8, 0u8]
}

/// The reply to a request.
pub fn socks5_reply(rep: u8) -> (out: [u8; 10])
    ensures
        out@ == reply_bytes(rep),
{
    let out: [u8; 10] = [SOCKS5_VERSION, rep, 0, ATYP_IPV4, 0, 0, 0, 0, 0, 0];
    assert(out@ =~= reply_bytes(rep));
    out
}

/// Answers a client once the far end has said whether it could connect: the reply, and the error
/// where it could not.
pub fn conclude(rep: u8, host: &str, port: u16) -> (out: ([u8; 10], Option<String>))
    ensures
        if rep == REP_SUCCESS {
            out.0@ == reply_bytes(REP_SUCCESS) && out.1 is None
        } else {
            &&& out.0@ == reply_bytes(REP_GENERAL_FAILURE)
            &&& out.1 matches Some(e)
            &&& e@ == "remote could not connect to "@ + forward::address_text(host@, port)
        },
{
    if rep == REP_SUCCESS {
        (socks5_reply(REP_SUCCESS), None)
    } else {
        (
            socks5_reply(REP_GENERAL_FAILURE),
            Some(
                text::joined(
                    "remote could not connect to ",
                    forward::address(host, port).as_str(),
                ),
            ),
        )
    }
}

/// What the far end says of its attempt to connect.
pub fn connect_report(connected: bool) -> (rep: u8)
    ensures
        rep == if connected {
            REP_SUCCESS
        } else {
            REP_GENERAL_FAILURE
        },
{
    if connected {
        REP_SUCCESS
    } else {
        REP_GENERAL_FAILURE
    }
}

/// A request is answered with a connection exactly if it is a connect request of this version for
/// one of the three kinds of addresses; a request of another version is dropped, and all others
/// are refused.
pub proof fn law_requests(r: Request, head: Seq<u8>)
    requires
        answers(r, head),
    ensures
        r is Connect <==> head[0] == 5 && head[1] == 1 && (head[3] == 1 || head[3] == 3 || head[3]
            == 4),
        r is Drop <==> head[0] != 5,
        r matches Request::Connect(k) ==> (k == AddressKind::Ipv4 <==> head[3] == 1) && (k
            == AddressKind::Domain <==> head[3] == 3) && (k == AddressKind::Ipv6 <==> head[3] == 4),
        r matches Request::Refuse { reply, why } ==> reply == if head[1] != 1 {
            7u8
        } else {
            8u8
        },
{
}

/// An answer has ten bytes: the version, what became of the request, and an empty address.
pub proof fn law_replies(rep: u8)
    ensures
        reply_bytes(rep).len() == 10,
        reply_bytes(rep)[0] == 5,
        reply_bytes(rep)[1] == rep,
        reply_bytes(rep)[2] == 0,
        reply_bytes(rep)[3] == 1,
        forall|i: int| 4 <= i < 10 ==> reply_bytes(rep)[i] == 0,
{
}

/// An address is written as its four numbers with dots between them.
pub proof fn law_dotted(a: Seq<u8>)
    requires
        a.len() == 4,
    ensures
        dotted(a) == text::join(
            seq![
                text::decimal(a[0] as nat),
                text::decimal(a[1] as nat),
                text::decimal(a[2] as nat),
                text::decimal(a[3] as nat),
            ],
            "."@,
        ),
{
    let l = seq![
        text::decimal(a[0] as nat),
        text::decimal(a[1] as nat),
        text::decimal(a[2] as nat),
        text::decimal(a[3] as nat),
    ];
    reveal_with_fuel(text::join, 5);
    assert(l.drop_last().drop_last().drop_last()[0] == l[0]);
    assert(dotted(a) =~= text::join(l, "."@));
}

} // verus!
