//! Tunnels: a local port leads to a service that the remote host can reach.

use vstd::prelude::*;
use vstd::string::*;
use crate::cli::connect;
use crate::cli::forward;
use crate::text;

verus! {

/// A tunnel.
#[derive(Debug)]
pub struct TunnelSpec {
    pub local_port: u16,
    pub user: Option<String>,
    pub host: String,
    pub remote_host: String,
    pub remote_port: u16,
}

/// What a description says.
#[verifier::ext_equal]
pub struct TunnelModel {
    pub local_port: u16,
    pub user: Option<Seq<char>>,
    pub host: Seq<char>,
    pub remote_host: Seq<char>,
    pub remote_port: u16,
}

impl View for TunnelSpec {
    type V = TunnelModel;

    open spec fn view(&self) -> TunnelModel {
        TunnelModel {
            local_port: self.local_port,
            user: forward::opt_text(self.user),
            host: self.host@,
            remote_host: self.remote_host@,
            remote_port: self.remote_port,
        }
    }
}

/// The service at the far end: a host and a port, or a port of the remote host itself.
pub open spec fn far_end(s: Seq<char>) -> Result<(Seq<char>, u16), Seq<char>> {
    let at = text::position(s, ':');
    let (host, port) = if at < s.len() {
        (s.take(at), s.skip(at + 1))
    } else {
        ("localhost"@, s)
    };
    match text::number(port, 65535) {
        Some(p) => Ok((host, p as u16)),
        None => Err("invalid remote port: "@ + port),
    }
}

/// What a description says, or why it says nothing.
pub open spec fn tunnel_spec(spec: Seq<char>) -> Result<TunnelModel, Seq<char>> {
    let a = text::position(spec, ':');
    if a >= spec.len() {
        Err("tunnel spec must be LOCAL:user@host:RPORT"@)
    } else {
        match text::number(spec.take(a), 65535) {
            None => Err("invalid local port: "@ + spec.take(a)),
            Some(local) => {
                let rest = spec.skip(a + 1);
                let b = text::position(rest, ':');
                if b >= rest.len() {
                    Err("tunnel spec missing remote port"@)
                } else {
                    match far_end(rest.skip(b + 1)) {
                        Err(e) => Err(e),
                        Ok((remote_host, remote_port)) => {
                            let (user, host) = forward::user_host_of(rest.take(b));
                            Ok(
                                TunnelModel {
                                    local_port: local as u16,
                                    user,
                                    host,
                                    remote_host,
                                    remote_port,
                                },
                            )
                        },
                    }
                }
            },
        }
    }
}

/// Reads the service at the far end.
pub fn parse_far_end(s: &str) -> (out: Result<(String, u16), String>)
    ensures
        match (out, far_end(s@)) {
            (Ok(t), Ok(m)) => t.0@ == m.0 && t.1 == m.1,
            (Err(e), Err(w)) => e@ == w,
            _ => false,
        },
{
    let (host, port) = match forward::split_first(s, ':') {
        Some(p) => p,
        None => (text::owned("localhost"), text::owned(s)),
    };
    match text::parse_number(port.as_str(), 65535) {
        Some(p) => Ok((host, p as u16)),
        None => Err(text::joined("invalid remote port: ", port.as_str())),
    }
}

/// Reads a description: local port, user and host, and the service at the far end, separated
/// by colons.
pub fn parse_tunnel_spec(spec: &str) -> (out: Result<TunnelSpec, String>)
    ensures
        match (out, tunnel_spec(spec@)) {
            (Ok(t), Ok(m)) => t@ == m,
            (Err(e), Err(w)) => e@ == w,
            _ => false,
        },
{
    let (local, rest) = match forward::split_first(spec, ':') {
        Some(p) => p,
        None => {
            return Err(text::owned("tunnel spec must be LOCAL:user@host:RPORT"));
        },
    };
    let local_port: u16 = match text::parse_number(local.as_str(), 65535) {
        Some(p) => p as u16,
        None => {
            return Err(text::joined("invalid local port: ", local.as_str()));
        },
    };
    let (userhost, remainder) = match forward::split_first(rest.as_str(), ':') {
        Some(p) => p,
        None => {
            return Err(text::owned("tunnel spec missing remote port"));
        },
    };
    match parse_far_end(remainder.as_str()) {
        Err(e) => Err(e),
        Ok((remote_host, remote_port)) => {
            let (user, host) = forward::user_host(userhost.as_str());
            Ok(TunnelSpec { local_port, user, host, remote_host, remote_port })
        },
    }
}

/// Reads the description of a tunnel to a server that is already known: a local port alone.
pub fn parse_direct_spec(spec: &str) -> (out: Result<u16, String>)
    ensures
        match out {
            Ok(p) => text::number(spec@, 65535) == Some(p as nat),
            Err(e) => text::number(spec@, 65535) is None && e@
                == "with --direct, spec should be just LOCAL_PORT"@,
        },
{
    match text::parse_number(spec, 65535) {
        Some(p) => Ok(p as u16),
        None => Err(text::owned("with --direct, spec should be just LOCAL_PORT")),
    }
}

/// The command that serves a tunnel on the remote host.
pub fn recv_command(remote_host: &str, remote_port: u16) -> (out: String)
    ensures
        out@ == "_tunnel-recv "@ + connect::quoted(remote_host@) + " "@ + text::decimal(
            remote_port as nat,
        ) + " --port 0"@,
{
    text::glue5(
        "_tunnel-recv ",
        connect::shell_quote(remote_host).as_str(),
        " ",
        text::decimal_text(remote_port as u64).as_str(),
        " --port 0",
    )
}

/// The far end of a tunnel is a host and a port, or a port alone, which is one of the far host
/// itself.
pub proof fn law_far_end_read(host: Seq<char>, port: u16)
    requires
        forall|i: int| 0 <= i < host.len() ==> #[trigger] host[i] != ':',
    ensures
        far_end(host + seq![':'] + text::decimal(port as nat)) == Ok::<
            (Seq<char>, u16),
            Seq<char>,
        >((host, port)),
        far_end(text::decimal(port as nat)) == Ok::<(Seq<char>, u16), Seq<char>>(
            ("localhost"@, port),
        ),
{
    let p = text::decimal(port as nat);
    forward::lemma_port_text(port, ':');
    forward::lemma_first_sign(host, ':', p);
    forward::lemma_first_sign(p, ':', p);
}

/// A description of a tunnel is read as its parts: the local port, the user and the host, and the
/// far end.
pub proof fn law_tunnel_spec_read(
    local: u16,
    user: Seq<char>,
    host: Seq<char>,
    far_host: Seq<char>,
    port: u16,
)
    requires
        forall|i: int| 0 <= i < user.len() ==> #[trigger] user[i] != '@' && user[i] != ':',
        forall|i: int| 0 <= i < host.len() ==> #[trigger] host[i] != ':',
        forall|i: int| 0 <= i < far_host.len() ==> #[trigger] far_host[i] != ':',
    ensures
        ({
            let remote = user + seq!['@'] + host;
            let p = text::decimal(port as nat);
            let head = text::decimal(local as nat);
            &&& tunnel_spec(head + seq![':'] + (remote + seq![':'] + (far_host + seq![':'] + p)))
                == Ok::<TunnelModel, Seq<char>>(
                TunnelModel {
                    local_port: local,
                    user: Some(user),
                    host,
                    remote_host: far_host,
                    remote_port: port,
                },
            )
            &&& tunnel_spec(head + seq![':'] + (remote + seq![':'] + p)) == Ok::<
                TunnelModel,
                Seq<char>,
            >(
                TunnelModel {
                    local_port: local,
                    user: Some(user),
                    host,
                    remote_host: "localhost"@,
                    remote_port: port,
                },
            )
            &&& tunnel_spec(head) is Err
            &&& tunnel_spec(head + seq![':'] + remote) is Err
        }),
{
    let remote = user + seq!['@'] + host;
    let p = text::decimal(port as nat);
    let head = text::decimal(local as nat);
    assert forall|i: int| 0 <= i < remote.len() implies #[trigger] remote[i] != ':' by {
        if i < user.len() {
            assert(remote[i] == user[i]);
        } else if i > user.len() {
            assert(remote[i] == host[i - user.len() - 1]);
        }
    }
    assert forall|i: int| 0 <= i < user.len() implies #[trigger] user[i] != '@' by {}
    forward::lemma_port_text(local, ':');
    forward::lemma_first_sign(head, ':', remote + seq![':'] + (far_host + seq![':'] + p));
    forward::lemma_first_sign(head, ':', remote + seq![':'] + p);
    forward::lemma_first_sign(head, ':', remote);
    forward::lemma_first_sign(remote, ':', far_host + seq![':'] + p);
    forward::lemma_first_sign(remote, ':', p);
    forward::law_user_and_host(user, host);
    law_far_end_read(far_host, port);
}

} // verus!
