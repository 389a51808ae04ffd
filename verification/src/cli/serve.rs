//! The server: which service a stream asks for, and what it sends to begin.

use vstd::prelude::*;
use vstd::string::*;
use crate::bytes;
use crate::cli::forward::HeaderFault;
use crate::cli::shell;
use crate::text;

verus! {

/// Runs a command.
pub const SVC_SHELL: u8 = 0x01;

/// Connects to a destination.
pub const SVC_FORWARD: u8 = 0x02;

/// Tells about the server.
pub const SVC_INFO: u8 = 0x03;

/// What a stream asks for.
#[derive(Debug, Clone, Copy, PartialEq, Eq, Structural)]
pub enum Service {
    Shell,
    /// A shell, where there is none: the client is told.
    ShellDisabled,
    Forward,
    Info,
    Unknown,
}

/// What a stream asks for, by its first byte.
pub open spec fn service_of(tag: u8, no_shell: bool) -> Service {
    if tag == SVC_SHELL {
        if no_shell {
            Service::ShellDisabled
        } else {
            Service::Shell
        }
    } else if tag == SVC_FORWARD {
        Service::Forward
    } else if tag == SVC_INFO {
        Service::Info
    } else {
        Service::Unknown
    }
}

/// What a stream asks for, by its first byte.
pub fn service(tag: u8, no_shell: bool) -> (s: Service)
    ensures
        s == service_of(tag, no_shell),
{
    if tag == SVC_SHELL {
        if no_shell {
            Service::ShellDisabled
        } else {
            Service::Shell
        }
    } else if tag == SVC_FORWARD {
        Service::Forward
    } else if tag == SVC_INFO {
        Service::Info
    } else {
        Service::Unknown
    }
}

/// A server without shells starts none.
pub proof fn law_no_shell_is_kept(tag: u8)
    ensures
        service_of(tag, true) != Service::Shell,
{
}

/// What a client is told where there are no shells.
pub fn disabled_frame() -> (out: Vec<u8>)
    ensures
        out@ == shell::error_bytes("shell service is disabled on this server".spec_bytes()),
{
    shell::error_frame("shell service is disabled on this server".as_bytes())
}

/// Whether one more connection is taken, given how many there are; a limit of zero is none.
pub fn admits(active: usize, max: usize) -> (r: bool)
    ensures
        r == (max == 0 || active < max),
{
    max == 0 || active < max
}

/// The next `n` arguments of a command, from `at` on, and where they end; nothing where more
/// must come first. Each argument is a length of one byte, and so many bytes.
pub open spec fn args_at(buf: Seq<u8>, at: int, n: int) -> Option<(Seq<Seq<u8>>, int)>
    decreases n,
{
    if n <= 0 {
        Some((Seq::empty(), at))
    } else {
        match args_at(buf, at, n - 1) {
            None => None,
            Some((args, end)) => if end >= buf.len() || end + 1 + buf[end] > buf.len() {
                None
            } else {
                Some((args.push(buf.subrange(end + 1, end + 1 + buf[end])), end + 1 + buf[end]))
            },
        }
    }
}

/// What a request for a shell says: whether it wants a terminal, the arguments of its command,
/// and how long it is; nothing where more must come first.
pub open spec fn shell_request(buf: Seq<u8>) -> Option<(bool, Seq<Seq<u8>>, int)> {
    if buf.len() < 2 {
        None
    } else {
        match args_at(buf, 2, buf[1] as int) {
            None => None,
            Some((args, end)) => Some((buf[0] != 0, args, end)),
        }
    }
}

/// The byte strings of a list.
pub open spec fn blobs(list: Seq<Vec<u8>>) -> Seq<Seq<u8>> {
    Seq::new(list.len(), |i: int| list[i]@)
}

proof fn lemma_args_stop(buf: Seq<u8>, at: int, k: int, n: int)
    requires
        0 <= k <= n,
        args_at(buf, at, k) is None,
    ensures
        args_at(buf, at, n) is None,
    decreases n - k,
{
    if k < n {
        lemma_args_stop(buf, at, k, n - 1);
    }
}

/// Reads a request for a shell.
pub fn parse_shell_request(buf: &[u8]) -> (out: Option<(bool, Vec<Vec<u8>>, usize)>)
    ensures
        match out {
            Some(t) => shell_request(buf@) == Some((t.0, blobs(t.1@), t.2 as int)) && t.2
                <= buf@.len(),
            None => shell_request(buf@) is None,
        },
{
    let len: usize = buf.len();
    if len < 2 {
        return None;
    }
    let count: u8 = buf[1];
    let mut args: Vec<Vec<u8>> = Vec::new();
    let mut at: usize = 2;
    let mut i: u8 = 0;
    assert(blobs(args@) =~= Seq::empty());
    while i < count
        invariant
            i <= count,
            len == buf@.len(),
            2 <= at <= len,
            count == buf@[1],
            args_at(buf@, 2, i as int) == Some((blobs(args@), at as int)),
        decreases count - i,
    {
        if at >= len {
            proof {
                lemma_args_stop(buf@, 2, i + 1, count as int);
            }
            return None;
        }
        let n: usize = buf[at] as usize;
        if n > len - at - 1 {
            proof {
                lemma_args_stop(buf@, 2, i + 1, count as int);
            }
            return None;
        }
        let ghost before = args@;
        let arg: Vec<u8> = bytes::piece(buf, at + 1, at + 1 + n);
        let ghost a = arg@;
        args.push(arg);
        assert(blobs(args@) =~= blobs(before).push(a));
        at = at + 1 + n;
        i = i + 1;
    }
    Some((buf[0] != 0, args, at))
}

/// The arguments of a command as texts.
pub open spec fn lossy_args(args: Seq<Seq<u8>>) -> Seq<Seq<char>> {
    Seq::new(args.len(), |i: int| text::lossy(args[i]))
}

/// The command to run: the one asked for, or the login shell.
pub fn requested_command(args: &Vec<Vec<u8>>, login: Option<&str>) -> (out: Vec<String>)
    ensures
        text::texts(out@) == if args@.len() == 0 {
            seq![shell::shell_or_default(shell::opt_text(login)), "-l"@]
        } else {
            lossy_args(blobs(args@))
        },
        out@.len() > 0,
{
    let n: usize = args.len();
    let mut out: Vec<String> = Vec::new();
    if n == 0 {
        out.push(
            match login {
                Some(s) => text::owned(s),
                None => text::owned("/bin/sh"),
            },
        );
        out.push(text::owned("-l"));
        assert(text::texts(out@) =~= seq![
            shell::shell_or_default(shell::opt_text(login)),
            "-l"@,
        ]);
        return out;
    }
    let ghost all = lossy_args(blobs(args@));
    for i in 0..n
        invariant
            n == args@.len(),
            all == lossy_args(blobs(args@)),
            text::texts(out@) =~= all.take(i as int),
            out@.len() == i,
    {
        let ghost before = out@;
        out.push(text::from_utf8_lossy(&args[i]));
        assert(text::texts(out@) =~= text::texts(before).push(all[i as int]));
    }
    assert(all.take(n as int) =~= all);
    out
}

/// What the server says of a destination that it refuses.
pub open spec fn forward_fault_text(fault: HeaderFault) -> Seq<char> {
    match fault {
        HeaderFault::TooShort => "forward header too short"@,
        HeaderFault::Truncated => "forward header truncated"@,
        HeaderFault::NotUtf8 => "invalid UTF-8 in forward host"@,
    }
}

/// What the server says of a destination that it refuses.
pub fn forward_fault(fault: HeaderFault) -> (out: &'static str)
    ensures
        out@ == forward_fault_text(fault),
{
    match fault {
        HeaderFault::TooShort => "forward header too short",
        HeaderFault::Truncated => "forward header truncated",
        HeaderFault::NotUtf8 => "invalid UTF-8 in forward host",
    }
}

/// What the server says of a destination whose length it refuses.
pub fn forward_length_fault(len: u32, peer: &str) -> (out: String)
    ensures
        out@ == "invalid forward header length "@ + text::decimal(len as nat) + " from "@ + peer@,
{
    text::glue4(
        "invalid forward header length ",
        text::decimal_text(len as u64).as_str(),
        " from ",
        peer,
    )
}

/// Three tags ask for services: the shell, where there is one, forwarding and information.
pub proof fn law_services(tag: u8, no_shell: bool)
    ensures
        service_of(tag, no_shell) == Service::Shell <==> tag == 1 && !no_shell,
        service_of(tag, no_shell) == Service::ShellDisabled <==> tag == 1 && no_shell,
        service_of(tag, no_shell) == Service::Forward <==> tag == 2,
        service_of(tag, no_shell) == Service::Info <==> tag == 3,
        service_of(tag, no_shell) == Service::Unknown <==> tag == 0 || tag > 3,
{
}

/// Arguments on the wire, each with its length in front.
pub open spec fn args_bytes(args: Seq<Seq<u8>>) -> Seq<u8>
    decreases args.len(),
{
    if args.len() == 0 {
        Seq::empty()
    } else {
        args_bytes(args.drop_last()) + seq![args.last().len() as u8] + args.last()
    }
}

/// A request for a command is read as it was written, and what follows it is left.
pub proof fn law_request_round_trip(pty: bool, args: Seq<Seq<u8>>, rest: Seq<u8>)
    requires
        args.len() <= 255,
        forall|i: int| 0 <= i < args.len() ==> (#[trigger] args[i]).len() <= 255,
    ensures
        ({
            let head = seq![
                if pty {
                    1u8
                } else {
                    0u8
                },
                args.len() as u8,
            ];
            shell_request(head + args_bytes(args) + rest) == Some(
                (pty, args, 2 + args_bytes(args).len() as int),
            )
        }),
{
    let head = seq![
        if pty {
            1u8
        } else {
            0u8
        },
        args.len() as u8,
    ];
    lemma_args_read(head, args, rest);
    let buf = head + args_bytes(args) + rest;
    assert(buf[1] == args.len());
}

proof fn lemma_args_read(head: Seq<u8>, args: Seq<Seq<u8>>, rest: Seq<u8>)
    requires
        head.len() == 2,
        forall|i: int| 0 <= i < args.len() ==> (#[trigger] args[i]).len() <= 255,
    ensures
        args_at(head + args_bytes(args) + rest, 2, args.len() as int) == Some(
            (args, 2 + args_bytes(args).len() as int),
        ),
    decreases args.len(),
{
    if args.len() > 0 {
        let front = args.drop_last();
        let last = args[args.len() - 1];
        assert(last.len() <= 255);
        assert forall|i: int| 0 <= i < front.len() implies (#[trigger] front[i]).len() <= 255 by {
            assert(front[i] == args[i]);
        }
        let more = seq![last.len() as u8] + last + rest;
        lemma_args_read(head, front, more);
        let buf = head + args_bytes(args) + rest;
        assert(buf =~= head + args_bytes(front) + more);
        let end = 2 + args_bytes(front).len() as int;
        assert(buf[end] == last.len());
        assert(buf.subrange(end + 1, end + 1 + last.len() as int) =~= last);
        assert(front.push(last) =~= args);
    }
}

} // verus!
