//! A pipe to a remote command.

use vstd::prelude::*;
use vstd::string::*;
use crate::cli::shell;
use crate::text;

verus! {

/// The command that serves a pipe on the remote host.
pub open spec fn recv_command_text(args: Seq<Seq<char>>) -> Seq<char> {
    if args.len() == 0 {
        "_pipe-recv --port 0"@
    } else {
        "_pipe-recv --port 0 --"@ + shell::quoted_args(args)
    }
}

/// The command that serves a pipe on the remote host, with the command to run there, if any.
pub fn recv_command(args: &Vec<String>) -> (out: String)
    ensures
        out@ == recv_command_text(text::texts(args@)),
{
    if args.len() == 0 {
        return text::owned("_pipe-recv --port 0");
    }
    let mut out: String = text::owned("_pipe-recv --port 0 --");
    shell::append_args(&mut out, args);
    out
}

} // verus!
