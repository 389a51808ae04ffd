//! Remote shells: the frames between client and server, and the steps of both sides.
//!
//! The client sends input, the end of input, the size of its terminal and its kind, each in a
//! frame with a tag. The server sends output as it is, and frames for the end of the command and
//! for a command that does not start.

use vstd::prelude::*;
use vstd::slice::slice_subrange;
use vstd::string::*;
use crate::bytes;
use crate::cli::connect;
use crate::text;

verus! {

/// The command has ended; the exit code follows.
pub const SHELL_EXIT: u8 = 0x01;

/// The command did not start; a length of two bytes and a message follow.
pub const SHELL_ERR: u8 = 0x02;

/// Input; a length of two bytes and the input follow.
pub const SHELL_STDIN: u8 = 0x10;

/// The end of input.
pub const SHELL_STDIN_EOF: u8 = 0x11;

/// The size of the terminal; columns and rows follow.
pub const SHELL_RESIZE: u8 = 0x12;

/// The kind of the terminal; a length of one byte and the name follow.
pub const SHELL_TERM: u8 = 0x13;

/// How much output is gathered before it is written.
pub const OUTPUT_CHUNK: usize = 4096;

/// A frame of input.
pub open spec fn stdin_bytes(data: Seq<u8>) -> Seq<u8> {
    seq![SHELL_STDIN] + bytes::be16((data.len() % 65536) as u16) + data
}

/// A frame of input.
pub fn stdin_frame(data: &[u8]) -> (out: Vec<u8>)
    ensures
        out@ == stdin_bytes(data@),
{
    let mut out: Vec<u8> = Vec::new();
    out.push(SHELL_STDIN);
    bytes::put_be16(&mut out, (data.len() % 65536) as u16);
    bytes::append(&mut out, data);
    assert(out@ =~= stdin_bytes(data@));
    out
}

/// A frame with the size of the terminal.
pub open spec fn resize_bytes(cols: u16, rows: u16) -> Seq<u8> {
    seq![SHELL_RESIZE] + bytes::be16(cols) + bytes::be16(rows)
}

/// A frame with the size of the terminal.
pub fn resize_frame(cols: u16, rows: u16) -> (out: Vec<u8>)
    ensures
        out@ == resize_bytes(cols, rows),
{
    let mut out: Vec<u8> = Vec::new();
    out.push(SHELL_RESIZE);
    bytes::put_be16(&mut out, cols);
    bytes::put_be16(&mut out, rows);
    assert(out@ =~= resize_bytes(cols, rows));
    out
}

/// The first bytes of a byte string, no more than `max`.
pub open spec fn at_most(data: Seq<u8>, max: int) -> Seq<u8> {
    if data.len() > max {
        data.take(max)
    } else {
        data
    }
}

/// A frame with the kind of the terminal; long names are cut.
pub open spec fn term_bytes(term: Seq<u8>) -> Seq<u8> {
    seq![SHELL_TERM, at_most(term, 255).len() as u8] + at_most(term, 255)
}

/// A frame with the kind of the terminal.
pub fn term_frame(term: &str) -> (out: Vec<u8>)
    ensures
        out@ == term_bytes(term.spec_bytes()),
{
    let name: &[u8] = term.as_bytes();
    let n: usize = if name.len() > 255 {
        255
    } else {
        name.len()
    };
    let mut out: Vec<u8> = Vec::new();
    out.push(SHELL_TERM);
    out.push(n as u8);
    bytes::append(&mut out, slice_subrange(name, 0, n));
    assert(name@.subrange(0, n as int) =~= at_most(name@, 255));
    assert(out@ =~= term_bytes(term.spec_bytes()));
    out
}

/// A frame that says why a command did not start; long messages are cut.
pub open spec fn error_bytes(msg: Seq<u8>) -> Seq<u8> {
    seq![SHELL_ERR] + bytes::be16(at_most(msg, 65535).len() as u16) + at_most(msg, 65535)
}

/// A frame that says why a command did not start.
pub fn error_frame(msg: &[u8]) -> (out: Vec<u8>)
    ensures
        out@ == error_bytes(msg@),
{
    let n: usize = if msg.len() > 65535 {
        65535
    } else {
        msg.len()
    };
    let mut out: Vec<u8> = Vec::new();
    out.push(SHELL_ERR);
    bytes::put_be16(&mut out, n as u16);
    bytes::append(&mut out, slice_subrange(msg, 0, n));
    assert(msg@.subrange(0, n as int) =~= at_most(msg@, 65535));
    assert(out@ =~= error_bytes(msg@));
    out
}

/// The frame that ends a session.
pub fn exit_frame(code: u8) -> (out: [u8; 2])
    ensures
        out@ == seq![SHELL_EXIT, code],
{
    let out: [u8; 2] = [SHELL_EXIT, code];
    assert(out@ =~= seq![SHELL_EXIT, code]);
    out
}

/// What a server receives.
#[derive(Debug)]
pub enum Input {
    /// Input for the command.
    Data(Vec<u8>),
    /// The end of input.
    Eof,
    /// The terminal has a new size.
    Resize { cols: u16, rows: u16 },
    /// Something else.
    Other,
}

/// What a server receives.
pub enum InputModel {
    Data { data: Seq<u8> },
    Eof,
    Resize { cols: u16, rows: u16 },
    Other,
}

impl View for Input {
    type V = InputModel;

    open spec fn view(&self) -> InputModel {
        match *self {
            Input::Data(d) => InputModel::Data { data: d@ },
            Input::Eof => InputModel::Eof,
            Input::Resize { cols, rows } => InputModel::Resize { cols, rows },
            Input::Other => InputModel::Other,
        }
    }
}

/// The first frame in what has come, and how long it is; nothing where more must come first.
/// Sizes count only where there is a terminal.
pub open spec fn first_input(buf: Seq<u8>, terminal: bool) -> Option<(InputModel, int)> {
    if buf.len() == 0 {
        None
    } else if buf[0] == SHELL_STDIN {
        if buf.len() < 3 {
            None
        } else {
            let n = bytes::un_be16(buf.subrange(1, 3)) as int;
            if buf.len() < 3 + n {
                None
            } else {
                Some((InputModel::Data { data: buf.subrange(3, 3 + n) }, 3 + n))
            }
        }
    } else if buf[0] == SHELL_STDIN_EOF {
        Some((InputModel::Eof, 1))
    } else if buf[0] == SHELL_RESIZE && terminal {
        if buf.len() < 5 {
            None
        } else {
            Some(
                (
                    InputModel::Resize {
                        cols: bytes::un_be16(buf.subrange(1, 3)),
                        rows: bytes::un_be16(buf.subrange(3, 5)),
                    },
                    5,
                ),
            )
        }
    } else {
        Some((InputModel::Other, 1))
    }
}

/// The first frame in what has come, and how long it is.
pub fn next_input(buf: &[u8], terminal: bool) -> (out: Option<(Input, usize)>)
    ensures
        match out {
            Some(p) => first_input(buf@, terminal) == Some((p.0@, p.1 as int)) && 0 < p.1
                <= buf@.len(),
            None => first_input(buf@, terminal) is None,
        },
{
    let len: usize = buf.len();
    if len == 0 {
        return None;
    }
    let tag: u8 = buf[0];
    if tag == SHELL_STDIN {
        if len < 3 {
            return None;
        }
        let n: usize = bytes::get_be16(buf, 1) as usize;
        if len < 3 + n {
            return None;
        }
        Some((Input::Data(bytes::piece(buf, 3, 3 + n)), 3 + n))
    } else if tag == SHELL_STDIN_EOF {
        Some((Input::Eof, 1))
    } else if tag == SHELL_RESIZE && terminal {
        if len < 5 {
            return None;
        }
        Some((Input::Resize { cols: bytes::get_be16(buf, 1), rows: bytes::get_be16(buf, 3) }, 5))
    } else {
        Some((Input::Other, 1))
    }
}

/// A server receives the input that a client sends, whatever follows it.
pub proof fn law_input_round_trip(data: Seq<u8>, rest: Seq<u8>, terminal: bool)
    requires
        data.len() <= 65535,
    ensures
        first_input(stdin_bytes(data) + rest, terminal) == Some(
            (InputModel::Data { data }, 3 + data.len() as int),
        ),
{
    let b = stdin_bytes(data) + rest;
    bytes::law_be16_read_write(data.len() as u16);
    assert(b.subrange(1, 3) =~= bytes::be16(data.len() as u16));
    assert(b.subrange(3, 3 + data.len() as int) =~= data);
}

/// A server with a terminal receives the size that a client sends, whatever follows it.
pub proof fn law_resize_round_trip(cols: u16, rows: u16, rest: Seq<u8>)
    ensures
        first_input(resize_bytes(cols, rows) + rest, true) == Some(
            (InputModel::Resize { cols, rows }, 5int),
        ),
{
    let b = resize_bytes(cols, rows) + rest;
    bytes::law_be16_read_write(cols);
    bytes::law_be16_read_write(rows);
    assert(b.subrange(1, 3) =~= bytes::be16(cols));
    assert(b.subrange(3, 5) =~= bytes::be16(rows));
}

/// What a server with a terminal does next.
#[derive(Debug)]
pub enum BridgeAction {
    /// Sends output to the client.
    Send(Vec<u8>),
    /// Gives input to the command.
    Feed(Vec<u8>),
    /// Sets the size of the terminal.
    Resize { cols: u16, rows: u16 },
    /// Goes on.
    Ignore,
    /// Stops, and waits for the command to end.
    Stop,
}

/// What a server with a terminal does with output; nothing more comes once the command has
/// closed it.
pub fn pty_on_output(output: Option<Vec<u8>>) -> (a: BridgeAction)
    ensures
        match output {
            Some(v) => a == BridgeAction::Send(v),
            None => a == BridgeAction::Stop,
        },
{
    match output {
        Some(v) => BridgeAction::Send(v),
        None => BridgeAction::Stop,
    }
}

/// What a server with a terminal does with what a client sends; a lost client is given as
/// nothing.
pub fn pty_on_input(input: Option<Input>) -> (a: BridgeAction)
    ensures
        match input {
            Some(Input::Data(d)) => a == BridgeAction::Feed(d),
            Some(Input::Eof) => a == BridgeAction::Stop,
            Some(Input::Resize { cols, rows }) => a == (BridgeAction::Resize { cols, rows }),
            Some(Input::Other) => a == BridgeAction::Ignore,
            None => a == BridgeAction::Stop,
        },
{
    match input {
        Some(Input::Data(d)) => BridgeAction::Feed(d),
        Some(Input::Eof) => BridgeAction::Stop,
        Some(Input::Resize { cols, rows }) => BridgeAction::Resize { cols, rows },
        Some(Input::Other) => BridgeAction::Ignore,
        None => BridgeAction::Stop,
    }
}

/// A server without a terminal: which of the channels of the command are open.
#[derive(Debug, Clone, Copy, PartialEq, Eq, Structural)]
pub struct PlainBridge {
    pub stdout_done: bool,
    pub stderr_done: bool,
    pub stdin_open: bool,
}

impl PlainBridge {
    /// A server whose command has just started.
    pub fn new() -> (b: Self)
        ensures
            b == (PlainBridge { stdout_done: false, stderr_done: false, stdin_open: true }),
    {
        PlainBridge { stdout_done: false, stderr_done: false, stdin_open: true }
    }

    /// Whether the command has closed all its output.
    pub fn finished(&self) -> (r: bool)
        ensures
            r == (self.stdout_done && self.stderr_done),
    {
        self.stdout_done && self.stderr_done
    }

    /// Takes in what was read from one of the two outputs, and gives what is sent to the client.
    /// An output from which nothing comes is done.
    pub fn on_output(&mut self, from_stderr: bool, read: Option<Vec<u8>>) -> (send: Option<
        Vec<u8>,
    >)
        ensures
            final(self).stdin_open == old(self).stdin_open,
            match read {
                Some(v) => if v@.len() > 0 {
                    send == Some(v) && *final(self) == *old(self)
                } else {
                    send is None && final(self).stdout_done == (old(self).stdout_done
                        || !from_stderr) && final(self).stderr_done == (old(self).stderr_done
                        || from_stderr)
                },
                None => send is None && final(self).stdout_done == (old(self).stdout_done
                    || !from_stderr) && final(self).stderr_done == (old(self).stderr_done
                    || from_stderr),
            },
    {
        match read {
            Some(v) => {
                if v.len() > 0 {
                    return Some(v);
                }
            },
            None => {},
        }
        if from_stderr {
            self.stderr_done = true;
        } else {
            self.stdout_done = true;
        }
        None
    }

    /// Takes in what a client sends, and gives what the command gets. Anything but input closes
    /// the input of the command, and so does a lost client, which is given as nothing.
    pub fn on_input(&mut self, input: Option<Input>) -> (feed: Option<Vec<u8>>)
        ensures
            final(self).stdout_done == old(self).stdout_done,
            final(self).stderr_done == old(self).stderr_done,
            match input {
                Some(Input::Data(d)) => feed == Some(d) && final(self).stdin_open == old(
                    self,
                ).stdin_open,
                _ => feed is None && !final(self).stdin_open,
            },
    {
        match input {
            Some(Input::Data(d)) => Some(d),
            _ => {
                self.stdin_open = false;
                None
            },
        }
    }
}

/// What a server learns about the terminal of its client.
#[derive(Debug)]
pub struct Terminal {
    pub term: String,
    pub cols: u16,
    pub rows: u16,
}

/// The frames with which a client describes its terminal.
#[derive(Debug)]
pub enum Control {
    /// The kind of the terminal.
    Term(Vec<u8>),
    /// The size of the terminal; nothing about it follows.
    Size { cols: u16, rows: u16 },
    /// Something else: nothing about the terminal follows.
    Stop,
}

/// The frames with which a client describes its terminal.
pub enum ControlModel {
    Term { name: Seq<u8> },
    Size { cols: u16, rows: u16 },
    Stop,
}

impl View for Control {
    type V = ControlModel;

    open spec fn view(&self) -> ControlModel {
        match *self {
            Control::Term(d) => ControlModel::Term { name: d@ },
            Control::Size { cols, rows } => ControlModel::Size { cols, rows },
            Control::Stop => ControlModel::Stop,
        }
    }
}

/// The first of these frames in what has come, and how long it is; nothing where more must come
/// first.
pub open spec fn first_control(buf: Seq<u8>) -> Option<(ControlModel, int)> {
    if buf.len() == 0 {
        None
    } else if buf[0] == SHELL_TERM {
        if buf.len() < 2 || buf.len() < 2 + buf[1] {
            None
        } else {
            Some((ControlModel::Term { name: buf.subrange(2, 2 + buf[1]) }, 2 + buf[1]))
        }
    } else if buf[0] == SHELL_RESIZE {
        if buf.len() < 5 {
            None
        } else {
            Some(
                (
                    ControlModel::Size {
                        cols: bytes::un_be16(buf.subrange(1, 3)),
                        rows: bytes::un_be16(buf.subrange(3, 5)),
                    },
                    5,
                ),
            )
        }
    } else {
        Some((ControlModel::Stop, 1))
    }
}

/// The first of these frames in what has come, and how long it is.
pub fn next_control(buf: &[u8]) -> (out: Option<(Control, usize)>)
    ensures
        match out {
            Some(p) => first_control(buf@) == Some((p.0@, p.1 as int)) && 0 < p.1 <= buf@.len(),
            None => first_control(buf@) is None,
        },
{
    let len: usize = buf.len();
    if len == 0 {
        return None;
    }
    if buf[0] == SHELL_TERM {
        if len < 2 {
            return None;
        }
        let n: usize = buf[1] as usize;
        if len < 2 + n {
            return None;
        }
        Some((Control::Term(bytes::piece(buf, 2, 2 + n)), 2 + n))
    } else if buf[0] == SHELL_RESIZE {
        if len < 5 {
            return None;
        }
        Some((Control::Size { cols: bytes::get_be16(buf, 1), rows: bytes::get_be16(buf, 3) }, 5))
    } else {
        Some((Control::Stop, 1))
    }
}

impl Terminal {
    /// A terminal of which nothing is known.
    pub fn new() -> (t: Self)
        ensures
            t.term@ == "xterm-256color"@,
            t.cols == 80,
            t.rows == 24,
    {
        Terminal { term: text::owned("xterm-256color"), cols: 80, rows: 24 }
    }

    /// Takes in a frame, and says whether another may follow.
    pub fn learn(&mut self, c: Control) -> (more: bool)
        ensures
            match c@ {
                ControlModel::Term { name } => more && final(self).term@ == text::lossy(name)
                    && final(self).cols == old(self).cols && final(self).rows == old(self).rows,
                ControlModel::Size { cols, rows } => !more && final(self).term@ == old(self).term@
                    && final(self).cols == cols && final(self).rows == rows,
                ControlModel::Stop => !more && *final(self) == *old(self),
            },
    {
        match c {
            Control::Term(name) => {
                self.term = text::from_utf8_lossy(&name);
                true
            },
            Control::Size { cols, rows } => {
                self.cols = cols;
                self.rows = rows;
                false
            },
            Control::Stop => false,
        }
    }
}

/// A server learns the kind of terminal that a client sends, whatever follows.
pub proof fn law_term_round_trip(name: Seq<u8>, rest: Seq<u8>)
    requires
        name.len() <= 255,
    ensures
        first_control(term_bytes(name) + rest) == Some(
            (ControlModel::Term { name }, 2 + name.len() as int),
        ),
{
    let b = term_bytes(name) + rest;
    assert(b[1] == name.len());
    assert(b.subrange(2, 2 + name.len() as int) =~= name);
}

/// What a client sends for what it reads; the end of its input is given as nothing, or as
/// nothing read.
pub open spec fn sent_for(chunk: Option<Seq<u8>>) -> Seq<u8> {
    match chunk {
        Some(d) => if d.len() > 0 {
            stdin_bytes(d)
        } else {
            seq![SHELL_STDIN_EOF]
        },
        None => seq![SHELL_STDIN_EOF],
    }
}

/// What a client sends for what it reads.
pub fn client_on_stdin(chunk: &Option<Vec<u8>>) -> (send: Vec<u8>)
    ensures
        send@ == sent_for(
            match *chunk {
                Some(v) => Some(v@),
                None => None,
            },
        ),
{
    match chunk {
        Some(d) => {
            if d.len() > 0 {
                return stdin_frame(d);
            }
        },
        None => {},
    }
    let mut out: Vec<u8> = Vec::new();
    out.push(SHELL_STDIN_EOF);
    assert(out@ =~= seq![SHELL_STDIN_EOF]);
    out
}

/// What a client does with a byte from the server.
#[derive(Debug)]
pub enum ClientStep {
    /// Goes on.
    Keep,
    /// Writes the output that has gathered.
    Write(Vec<u8>),
    /// The exit code follows.
    AwaitCode,
    /// A message follows: the command did not start.
    AwaitMessage,
}

/// A client without a terminal, with the output that it has not written yet.
pub struct PipeClient {
    out: Vec<u8>,
}

impl View for PipeClient {
    type V = Seq<u8>;

    closed spec fn view(&self) -> Seq<u8> {
        self.out@
    }
}

impl PipeClient {
    /// Less than a chunk of output waits.
    pub open spec fn wf(&self) -> bool {
        self@.len() < OUTPUT_CHUNK
    }

    /// A client that has received nothing.
    pub fn new() -> (c: Self)
        ensures
            c.wf(),
            c@ == Seq::<u8>::empty(),
    {
        PipeClient { out: Vec::new() }
    }

    /// Takes in a byte from the server.
    pub fn on_byte(&mut self, byte: u8) -> (step: ClientStep)
        requires
            old(self).wf(),
        ensures
            final(self).wf(),
            if byte == SHELL_EXIT {
                step is AwaitCode && final(self)@ == old(self)@
            } else if byte == SHELL_ERR {
                step is AwaitMessage && final(self)@ == old(self)@
            } else if old(self)@.len() + 1 >= OUTPUT_CHUNK {
                &&& step matches ClientStep::Write(v)
                &&& v@ == old(self)@.push(byte)
                &&& final(self)@ == Seq::<u8>::empty()
            } else {
                step is Keep && final(self)@ == old(self)@.push(byte)
            },
    {
        if byte == SHELL_EXIT {
            return ClientStep::AwaitCode;
        }
        if byte == SHELL_ERR {
            return ClientStep::AwaitMessage;
        }
        self.out.push(byte);
        if self.out.len() >= OUTPUT_CHUNK {
            let mut full: Vec<u8> = Vec::new();
            full.append(&mut self.out);
            assert(full@ =~= old(self)@.push(byte));
            ClientStep::Write(full)
        } else {
            ClientStep::Keep
        }
    }

    /// Ends with the code of the command: the output that waits, and the exit code. Where the
    /// code does not come, a client that sends input fails, and one that does not ends well.
    pub fn on_exit(self, code: Option<u8>, piped: bool) -> (out: (Vec<u8>, i32))
        ensures
            out.0@ == self@,
            out.1 == match code {
                Some(c) => c as int,
                None => if piped {
                    1
                } else {
                    0
                },
            },
    {
        let PipeClient { out } = self;
        let exit: i32 = match code {
            Some(c) => c as i32,
            None => if piped {
                1
            } else {
                0
            },
        };
        (out, exit)
    }
}

/// The exit code of a client that loses the server before the command has ended. What waits is
/// not written.
pub fn lost_exit() -> (exit: i32)
    ensures
        exit == 0,
{
    0
}

/// The exit code of a client that sends input, where the command did not start or the server
/// takes no more input.
pub fn refused_exit() -> (exit: i32)
    ensures
        exit == 1,
{
    1
}

/// The exit code of a client with a terminal; it fails where the code of the command does not
/// come.
pub fn interactive_exit(code: Option<u8>) -> (exit: i32)
    ensures
        exit == match code {
            Some(c) => c as int,
            None => 1,
        },
{
    match code {
        Some(c) => c as i32,
        None => 1,
    }
}

/// What a client says of a command that did not start.
pub fn start_failure(msg: &[u8]) -> (out: String)
    ensures
        out@ == "remote command failed to start: "@ + text::lossy(msg@),
{
    let why: String = text::from_utf8_lossy(msg);
    text::joined("remote command failed to start: ", why.as_str())
}

/// How a command has ended.
#[derive(Debug, Clone, Copy, PartialEq, Eq, Structural)]
pub enum WaitStatus {
    /// With an exit code.
    Exited(u8),
    /// By a signal.
    Signaled(u8),
    /// Otherwise.
    Unknown,
}

/// The exit code that a server with a terminal reports; a signal counts from 128 on.
pub fn exit_byte(status: WaitStatus) -> (code: u8)
    requires
        status matches WaitStatus::Signaled(s) ==> s < 128,
    ensures
        code == match status {
            WaitStatus::Exited(c) => c as int,
            WaitStatus::Signaled(s) => 128 + s,
            WaitStatus::Unknown => 0,
        },
{
    match status {
        WaitStatus::Exited(c) => c,
        WaitStatus::Signaled(s) => 128 + s,
        WaitStatus::Unknown => 0,
    }
}

/// The exit code that a server without a terminal reports: the last byte of the code of the
/// command, or one where there is no code.
pub fn code_byte(code: Option<i32>) -> (out: u8)
    ensures
        out == match code {
            Some(c) => c as int % 256,
            None => 1,
        },
{
    match code {
        Some(c) => ((c as i64 + 4294967296) % 256) as u8,
        None => 1,
    }
}

/// The arguments of a command, quoted, each behind a blank.
pub open spec fn quoted_args(args: Seq<Seq<char>>) -> Seq<char>
    decreases args.len(),
{
    if args.len() == 0 {
        Seq::empty()
    } else {
        quoted_args(args.drop_last()) + seq![' '] + connect::quoted(args.last())
    }
}

/// Appends the arguments of a command, quoted, each behind a blank.
pub fn append_args(out: &mut String, args: &Vec<String>)
    ensures
        final(out)@ == old(out)@ + quoted_args(text::texts(args@)),
{
    let n: usize = args.len();
    let ghost all = text::texts(args@);
    let ghost head = out@;
    assert(all.take(0) =~= Seq::empty());
    assert(out@ =~= head + quoted_args(all.take(0)));
    for i in 0..n
        invariant
            n == args@.len(),
            all == text::texts(args@),
            out@ == head + quoted_args(all.take(i as int)),
    {
        out.push(' ');
        out.append(connect::shell_quote(args[i].as_str()).as_str());
        proof {
            assert(all.take(i + 1).drop_last() =~= all.take(i as int));
            assert(all.take(i + 1).last() == args@[i as int]@);
            assert(out@ =~= head + quoted_args(all.take(i + 1)));
        }
    }
    assert(all.take(n as int) =~= all);
}

/// The command that serves a shell on the remote host.
pub fn recv_command(use_pty: bool, args: &Vec<String>) -> (out: String)
    ensures
        out@ == "_shell-recv --port 0 "@ + (if use_pty {
            "--pty "@
        } else {
            ""@
        }) + "--"@ + quoted_args(text::texts(args@)),
{
    let mut out: String = text::glue3(
        "_shell-recv --port 0 ",
        if use_pty {
            "--pty "
        } else {
            ""
        },
        "--",
    );
    append_args(&mut out, args);
    out
}

/// The command to run: the given one, or the login shell.
pub open spec fn wanted(args: Seq<Seq<char>>) -> Seq<Seq<char>> {
    if args.len() == 0 {
        seq!["$SHELL"@, "-l"@]
    } else {
        args
    }
}

/// The command to run: the given one, or the login shell.
pub fn command_or_login(args: Vec<String>) -> (out: Vec<String>)
    ensures
        text::texts(out@) == wanted(text::texts(args@)),
{
    if args.len() > 0 {
        return args;
    }
    let mut out: Vec<String> = Vec::new();
    out.push(text::owned("$SHELL"));
    out.push(text::owned("-l"));
    assert(text::texts(out@) =~= seq!["$SHELL"@, "-l"@]);
    out
}

/// The login shell, given the variable that names it.
pub open spec fn shell_or_default(shell: Option<Seq<char>>) -> Seq<char> {
    match shell {
        Some(s) => s,
        None => "/bin/sh"@,
    }
}

/// The text of an optional string.
pub open spec fn opt_text(s: Option<&str>) -> Option<Seq<char>> {
    match s {
        Some(t) => Some(t@),
        None => None,
    }
}

/// The command with the login shell in its place.
pub fn resolve_shell(args: Vec<String>, shell: Option<&str>) -> (out: Result<Vec<String>, String>)
    ensures
        match out {
            Ok(v) => args@.len() > 0 && text::texts(v@) == if args@[0]@ == "$SHELL"@ {
                text::texts(args@).update(0, shell_or_default(opt_text(shell)))
            } else {
                text::texts(args@)
            },
            Err(e) => args@.len() == 0 && e@ == "_shell-recv: no command specified"@,
        },
{
    if args.len() == 0 {
        return Err(text::owned("_shell-recv: no command specified"));
    }
    let ghost start = args@;
    let mut out: Vec<String> = args;
    if text::same(out[0].as_str(), "$SHELL") {
        let s: String = match shell {
            Some(t) => text::owned(t),
            None => text::owned("/bin/sh"),
        };
        let ghost t = s@;
        out.set(0, s);
        assert(text::texts(out@) =~= text::texts(start).update(0, t));
    }
    Ok(out)
}

/// The end of input is one byte, and any other byte that begins no frame is passed over by itself.
pub proof fn law_single_bytes(rest: Seq<u8>, byte: u8, terminal: bool)
    ensures
        first_input(seq![0x11u8] + rest, terminal) == Some((InputModel::Eof, 1int)),
        byte != 0x10 && byte != 0x11 && byte != 0x12 ==> first_input(seq![byte] + rest, terminal)
            == Some((InputModel::Other, 1int)),
        first_input(seq![0x12u8] + rest, false) == Some((InputModel::Other, 1int)),
        first_input(Seq::empty(), terminal) is None,
{
}

/// Of a frame of which not all has come, nothing is read.
pub proof fn law_input_waits(data: Seq<u8>, cols: u16, rows: u16, cut: int, terminal: bool)
    requires
        data.len() <= 65535,
    ensures
        0 <= cut < stdin_bytes(data).len() ==> first_input(
            stdin_bytes(data).take(cut),
            terminal,
        ) is None,
        0 <= cut < 5 ==> first_input(resize_bytes(cols, rows).take(cut), true) is None,
{
    let f = stdin_bytes(data);
    if 3 <= cut < f.len() {
        bytes::law_be16_read_write(data.len() as u16);
        assert(f.take(cut).subrange(1, 3) =~= bytes::be16(data.len() as u16));
    }
}

/// What a client reads reaches the server as it was read, and the end of it as the end.
pub proof fn law_client_input_arrives(data: Seq<u8>, rest: Seq<u8>)
    requires
        data.len() <= 65535,
    ensures
        data.len() > 0 ==> first_input(sent_for(Some(data)) + rest, false) == Some(
            (InputModel::Data { data }, 3 + data.len() as int),
        ),
        first_input(sent_for(None) + rest, false) == Some((InputModel::Eof, 1int)),
        first_input(sent_for(Some(Seq::empty())) + rest, false) == Some((InputModel::Eof, 1int)),
{
    law_input_round_trip(data, rest, false);
}

/// The size of a terminal is read as it was sent, and anything that is neither a kind nor a size
/// ends the description.
pub proof fn law_control_round_trip(cols: u16, rows: u16, rest: Seq<u8>, byte: u8)
    ensures
        first_control(resize_bytes(cols, rows) + rest) == Some(
            (ControlModel::Size { cols, rows }, 5int),
        ),
        byte != 0x12 && byte != 0x13 ==> first_control(seq![byte] + rest) == Some(
            (ControlModel::Stop, 1int),
        ),
{
    let b = resize_bytes(cols, rows) + rest;
    bytes::law_be16_read_write(cols);
    bytes::law_be16_read_write(rows);
    assert(b.subrange(1, 3) =~= bytes::be16(cols));
    assert(b.subrange(3, 5) =~= bytes::be16(rows));
}

/// A message that fits is sent whole with its length, and a longer one is cut to the greatest
/// length.
pub proof fn law_error_frames(msg: Seq<u8>)
    ensures
        error_bytes(msg)[0] == 2,
        msg.len() <= 65535 ==> error_bytes(msg).skip(3) == msg && bytes::un_be16(
            error_bytes(msg).subrange(1, 3),
        ) == msg.len(),
        msg.len() > 65535 ==> error_bytes(msg).skip(3) == msg.take(65535) && bytes::un_be16(
            error_bytes(msg).subrange(1, 3),
        ) == 65535,
{
    let n = if msg.len() > 65535 {
        65535u16
    } else {
        msg.len() as u16
    };
    bytes::law_be16_read_write(n);
    assert(error_bytes(msg).subrange(1, 3) =~= bytes::be16(n));
    assert(error_bytes(msg).skip(3) =~= at_most(msg, 65535));
}

/// The name of a terminal is cut to 255 bytes.
pub proof fn law_term_cut(name: Seq<u8>)
    ensures
        term_bytes(name).len() == 2 + (if name.len() > 255 {
            255
        } else {
            name.len()
        }),
        term_bytes(name)[0] == 0x13,
        name.len() > 255 ==> term_bytes(name).skip(2) == name.take(255),
{
    assert(term_bytes(name).skip(2) =~= at_most(name, 255));
}

/// Every argument comes behind a blank, quoted, so that a shell reads it as it was given.
pub proof fn law_arguments_quoted(args: Seq<Seq<char>>, last: Seq<char>)
    ensures
        quoted_args(Seq::empty()) == Seq::<char>::empty(),
        quoted_args(args.push(last)) == quoted_args(args) + seq![' '] + connect::quoted(last),
        connect::shell_word(connect::quoted(last), false) == Some(last),
{
    assert(args.push(last).drop_last() =~= args);
    connect::law_shell_reads_quoted(last);
}

/// Without a command the login shell is asked for, and a command is asked for as it is. The shell
/// is the one that is set, or else the usual one.
pub proof fn law_login_shell(args: Seq<Seq<char>>, shell: Seq<char>)
    ensures
        args.len() == 0 ==> wanted(args) == seq!["$SHELL"@, "-l"@],
        args.len() > 0 ==> wanted(args) == args,
        shell_or_default(Some(shell)) == shell,
        shell_or_default(None) == "/bin/sh"@,
{
}

/// The tags of the frames, and how much output is gathered before it is written.
pub proof fn law_shell_protocol()
    ensures
        SHELL_EXIT == 0x01,
        SHELL_ERR == 0x02,
        SHELL_STDIN == 0x10,
        SHELL_STDIN_EOF == 0x11,
        SHELL_RESIZE == 0x12,
        SHELL_TERM == 0x13,
        OUTPUT_CHUNK == 4096,
{
}

} // verus!
