//! Reverse tunnels: a port of the remote host leads to a local service.

use vstd::prelude::*;
use vstd::string::*;
use crate::cli::forward;
use crate::text;

verus! {

/// What a description says: the user, where one is named, the host and the remote port; or why
/// it says nothing.
pub open spec fn fwd_spec(spec: Seq<char>) -> Result<
    (Option<Seq<char>>, Seq<char>, u16),
    Seq<char>,
> {
    let at = text::last_position(spec, ':');
    if at < 0 {
        Err("fwd spec must be user@host:REMOTE_PORT"@)
    } else {
        match text::number(spec.skip(at + 1), 65535) {
            None => Err("invalid remote port: "@ + spec.skip(at + 1)),
            Some(p) => {
                let (user, host) = forward::user_host_of(spec.take(at));
                Ok((user, host, p as u16))
            },
        }
    }
}

/// Reads a description: user and host, and the remote port behind the last colon.
pub fn parse_fwd_spec(spec: &str) -> (out: Result<(Option<String>, String, u16), String>)
    ensures
        match (out, fwd_spec(spec@)) {
            (Ok(t), Ok(m)) => forward::opt_text(t.0) == m.0 && t.1@ == m.1 && t.2 == m.2,
            (Err(e), Err(w)) => e@ == w,
            _ => false,
        },
{
    match forward::split_last(spec, ':') {
        None => Err(text::owned("fwd spec must be user@host:REMOTE_PORT")),
        Some((userhost, port)) => match text::parse_number(port.as_str(), 65535) {
            None => Err(text::joined("invalid remote port: ", port.as_str())),
            Some(p) => {
                let (user, host) = forward::user_host(userhost.as_str());
                Ok((user, host, p as u16))
            },
        },
    }
}

/// How long to wait before the next attempt, in milliseconds, after so many failures in a row.
pub fn backoff_ms(failures: u32) -> (ms: u64)
    ensures
        ms == if failures == 0 {
            0int
        } else if failures <= 2 {
            100
        } else if failures <= 5 {
            500
        } else {
            2000
        },
{
    if failures == 0 {
        0
    } else if failures <= 2 {
        100
    } else if failures <= 5 {
        500
    } else {
        2000
    }
}

/// How many attempts have failed in a row, after one more. The count starts anew after the
/// greatest number.
pub fn failures_after(failures: u32, connected: bool) -> (n: u32)
    ensures
        n == if connected {
            0int
        } else if failures == u32::MAX {
            0
        } else {
            failures + 1
        },
{
    if connected {
        0
    } else if failures == u32::MAX {
        0
    } else {
        failures + 1
    }
}

/// The command that listens on the remote host.
pub fn recv_command(listen_port: u16) -> (out: String)
    ensures
        out@ == "_fwd-recv --listen-port "@ + text::decimal(listen_port as nat) + " --port 0"@,
{
    text::glue3(
        "_fwd-recv --listen-port ",
        text::decimal_text(listen_port as u64).as_str(),
        " --port 0",
    )
}

/// A description of a user, a host and a port is read as these.
pub proof fn law_fwd_spec_read(user: Seq<char>, host: Seq<char>, port: u16)
    requires
        forall|i: int| 0 <= i < user.len() ==> #[trigger] user[i] != '@',
    ensures
        fwd_spec(user + seq!['@'] + host + seq![':'] + text::decimal(port as nat)) == Ok::<
            (Option<Seq<char>>, Seq<char>, u16),
            Seq<char>,
        >((Some(user), host, port)),
        fwd_spec(user + seq![':'] + text::decimal(port as nat)) == Ok::<
            (Option<Seq<char>>, Seq<char>, u16),
            Seq<char>,
        >((None, user, port)),
{
    let p = text::decimal(port as nat);
    forward::lemma_port_text(port, ':');
    forward::lemma_last_sign(user + seq!['@'] + host, ':', p);
    forward::lemma_last_sign(user, ':', p);
    forward::law_user_and_host(user, host);
}

/// A description without a colon, or whose last part is no port, is refused.
pub proof fn law_fwd_spec_refused(spec: Seq<char>)
    ensures
        (forall|i: int| 0 <= i < spec.len() ==> spec[i] != ':') ==> fwd_spec(spec) is Err,
{
    text::lemma_positions(spec, ':');
}

} // verus!
