//! The interactive form: what it holds, what each key does, and what is drawn.

use vstd::prelude::*;
use vstd::string::*;
use vstd::utf8;
use crate::cli::formats;
use crate::text;

verus! {

/// What the form can start.
#[derive(Debug, Clone, Copy, PartialEq, Eq, Structural)]
pub enum Action {
    Shell,
    Forward,
    Tunnel,
    Fwd,
    Copy,
    Sync,
    Ping,
    Proxy,
    Scan,
}

/// How many actions there are.
pub const ACTION_COUNT: usize = 9;

/// The action in a row of the list.
pub open spec fn action_in(row: int) -> Action {
    if row == 0 {
        Action::Shell
    } else if row == 1 {
        Action::Forward
    } else if row == 2 {
        Action::Tunnel
    } else if row == 3 {
        Action::Fwd
    } else if row == 4 {
        Action::Copy
    } else if row == 5 {
        Action::Sync
    } else if row == 6 {
        Action::Ping
    } else if row == 7 {
        Action::Proxy
    } else {
        Action::Scan
    }
}

/// The action in a row of the list.
pub fn action_at(row: usize) -> (a: Action)
    requires
        row < ACTION_COUNT,
    ensures
        a == action_in(row as int),
{
    if row == 0 {
        Action::Shell
    } else if row == 1 {
        Action::Forward
    } else if row == 2 {
        Action::Tunnel
    } else if row == 3 {
        Action::Fwd
    } else if row == 4 {
        Action::Copy
    } else if row == 5 {
        Action::Sync
    } else if row == 6 {
        Action::Ping
    } else if row == 7 {
        Action::Proxy
    } else {
        Action::Scan
    }
}

impl Action {
    /// The name of the action.
    pub open spec fn name_text(self) -> Seq<char> {
        match self {
            Action::Shell => "Shell"@,
            Action::Forward => "Forward"@,
            Action::Tunnel => "Tunnel"@,
            Action::Fwd => "Fwd"@,
            Action::Copy => "Copy"@,
            Action::Sync => "Sync"@,
            Action::Ping => "Ping"@,
            Action::Proxy => "Proxy"@,
            Action::Scan => "Scan"@,
        }
    }

    /// The name of the action.
    pub fn name(self) -> (s: &'static str)
        ensures
            s@ == self.name_text(),
    {
        match self {
            Action::Shell => "Shell",
            Action::Forward => "Forward",
            Action::Tunnel => "Tunnel",
            Action::Fwd => "Fwd",
            Action::Copy => "Copy",
            Action::Sync => "Sync",
            Action::Ping => "Ping",
            Action::Proxy => "Proxy",
            Action::Scan => "Scan",
        }
    }

    /// What the action is for.
    pub open spec fn desc_text(self) -> Seq<char> {
        match self {
            Action::Shell => "interactive remote terminal"@,
            Action::Forward => "local port → remote  (ssh -L)"@,
            Action::Tunnel => "expose local port to remote"@,
            Action::Fwd => "remote port → local  (ssh -R)"@,
            Action::Copy => "transfer files"@,
            Action::Sync => "mirror directory (rsync-style)"@,
            Action::Ping => "measure round-trip latency"@,
            Action::Proxy => "SOCKS5 proxy via remote host"@,
            Action::Scan => "TCP port scanner"@,
        }
    }

    /// What the action is for.
    pub fn desc(self) -> (s: &'static str)
        ensures
            s@ == self.desc_text(),
    {
        match self {
            Action::Shell => "interactive remote terminal",
            Action::Forward => "local port → remote  (ssh -L)",
            Action::Tunnel => "expose local port to remote",
            Action::Fwd => "remote port → local  (ssh -R)",
            Action::Copy => "transfer files",
            Action::Sync => "mirror directory (rsync-style)",
            Action::Ping => "measure round-trip latency",
            Action::Proxy => "SOCKS5 proxy via remote host",
            Action::Scan => "TCP port scanner",
        }
    }

    /// What the parameter of the action is called, where it takes one.
    pub open spec fn label(self) -> Option<Seq<char>> {
        match self {
            Action::Forward | Action::Fwd => Some("Spec"@),
            Action::Tunnel | Action::Scan => Some("Ports"@),
            Action::Copy | Action::Sync => Some("Path"@),
            Action::Proxy => Some("Local port"@),
            Action::Shell | Action::Ping => None,
        }
    }

    /// What the parameter of the action is called, where it takes one.
    pub fn param_label(self) -> (s: Option<&'static str>)
        ensures
            match s {
                Some(l) => self.label() == Some(l@),
                None => self.label() is None,
            },
    {
        match self {
            Action::Forward | Action::Fwd => Some("Spec"),
            Action::Tunnel | Action::Scan => Some("Ports"),
            Action::Copy | Action::Sync => Some("Path"),
            Action::Proxy => Some("Local port"),
            Action::Shell | Action::Ping => None,
        }
    }

    /// An example of the parameter.
    pub open spec fn placeholder(self) -> Seq<char> {
        match self {
            Action::Forward => "8080:localhost:80"@,
            Action::Tunnel => "8080 8443"@,
            Action::Fwd => "3000:8080"@,
            Action::Copy => "./file.txt"@,
            Action::Sync => "./mydir"@,
            Action::Proxy => "1080"@,
            Action::Scan => "22,80,443"@,
            Action::Shell | Action::Ping => ""@,
        }
    }

    /// An example of the parameter.
    pub fn param_placeholder(self) -> (s: &'static str)
        ensures
            s@ == self.placeholder(),
    {
        match self {
            Action::Forward => "8080:localhost:80",
            Action::Tunnel => "8080 8443",
            Action::Fwd => "3000:8080",
            Action::Copy => "./file.txt",
            Action::Sync => "./mydir",
            Action::Proxy => "1080",
            Action::Scan => "22,80,443",
            Action::Shell | Action::Ping => "",
        }
    }

    /// Whether the action takes a parameter.
    pub fn needs_param(self) -> (r: bool)
        ensures
            r == self.label() is Some,
    {
        match self.param_label() {
            Some(_) => true,
            None => false,
        }
    }

    /// The arguments with which the action is started, for a trimmed host and parameter.
    pub open spec fn trimmed_arguments(self, host: Seq<char>, param: Seq<char>) -> Seq<Seq<char>> {
        match self {
            Action::Shell => seq!["shell"@, host],
            Action::Forward => seq!["forward"@, param, host],
            Action::Tunnel => seq!["tunnel"@] + text::words(param) + seq![host],
            Action::Fwd => {
                let at = text::position(param, ':');
                if at < param.len() {
                    let port = text::number(param.skip(at + 1), 65535);
                    seq![
                        "fwd"@,
                        host + ":"@ + param.take(at),
                        match port {
                            Some(p) => text::decimal(p),
                            None => "8080"@,
                        },
                    ]
                } else {
                    seq!["fwd"@, host + ":"@ + param, "8080"@]
                }
            },
            Action::Copy => if param.contains('@') || (param.len() > 0 && param[0] == '/'
                && host.contains(':')) {
                seq!["cp"@, param, host]
            } else {
                seq!["cp"@, param, host + ":"@]
            },
            Action::Sync => if param.contains('@') {
                seq!["sync"@, param, host]
            } else {
                seq!["sync"@, param, host + ":"@]
            },
            Action::Ping => seq!["ping"@, host],
            Action::Proxy => seq![
                "proxy"@,
                host,
                "--port"@,
                if param.len() == 0 {
                    "1080"@
                } else {
                    param
                },
            ],
            Action::Scan => if param.len() == 0 {
                seq!["scan"@, host]
            } else {
                seq!["scan"@, host, "--ports"@, param]
            },
        }
    }

    /// The arguments with which the action is started.
    pub open spec fn arguments(self, host: Seq<char>, param: Seq<char>) -> Seq<Seq<char>> {
        self.trimmed_arguments(text::trimmed(host), text::trimmed(param))
    }

    /// The arguments with which the action is started.
    pub fn to_args(self, host: &str, param: &str) -> (out: Vec<String>)
        ensures
            text::texts(out@) == self.arguments(host@, param@),
    {
        let host: String = text::trim(host);
        let param: String = text::trim(param);
        let chars: Vec<char> = text::chars_of(param.as_str());
        let mut out: Vec<String> = Vec::new();
        match self {
            Action::Shell => {
                out.push(text::owned("shell"));
                out.push(host);
            },
            Action::Forward => {
                out.push(text::owned("forward"));
                out.push(param);
                out.push(host);
            },
            Action::Tunnel => {
                out.push(text::owned("tunnel"));
                let ghost first = text::texts(out@);
                let mut words: Vec<String> = text::split_words(param.as_str());
                let ghost w = text::texts(words@);
                out.append(&mut words);
                assert(text::texts(out@) =~= first + w);
                out.push(host);
            },
            Action::Fwd => {
                out.push(text::owned("fwd"));
                match text::find(&chars, ':') {
                    Some(at) => {
                        let n: usize = chars.len();
                        let remote: String = text::cut(&chars, 0, at);
                        let local: String = text::cut(&chars, at + 1, n);
                        assert(param@.subrange(0, at as int) =~= param@.take(at as int));
                        assert(param@.subrange(at + 1, n as int) =~= param@.skip(at + 1));
                        out.push(text::glue3(host.as_str(), ":", remote.as_str()));
                        match text::parse_number(local.as_str(), 65535) {
                            Some(p) => out.push(text::decimal_text(p)),
                            None => out.push(text::owned("8080")),
                        }
                    },
                    None => {
                        out.push(text::glue3(host.as_str(), ":", param.as_str()));
                        out.push(text::owned("8080"));
                    },
                }
            },
            Action::Copy => {
                out.push(text::owned("cp"));
                let hosts: Vec<char> = text::chars_of(host.as_str());
                if holds(&chars, '@') || (chars.len() > 0 && chars[0] == '/' && holds(
                    &hosts,
                    ':',
                )) {
                    out.push(param);
                    out.push(host);
                } else {
                    out.push(param);
                    out.push(text::joined(host.as_str(), ":"));
                }
            },
            Action::Sync => {
                out.push(text::owned("sync"));
                if holds(&chars, '@') {
                    out.push(param);
                    out.push(host);
                } else {
                    out.push(param);
                    out.push(text::joined(host.as_str(), ":"));
                }
            },
            Action::Ping => {
                out.push(text::owned("ping"));
                out.push(host);
            },
            Action::Proxy => {
                out.push(text::owned("proxy"));
                out.push(host);
                out.push(text::owned("--port"));
                if chars.len() == 0 {
                    out.push(text::owned("1080"));
                } else {
                    out.push(param);
                }
            },
            Action::Scan => {
                out.push(text::owned("scan"));
                out.push(host);
                if chars.len() > 0 {
                    out.push(text::owned("--ports"));
                    out.push(param);
                }
            },
        }
        assert(text::texts(out@) =~= self.trimmed_arguments(host@, param@));
        out
    }
}

fn holds(chars: &Vec<char>, c: char) -> (r: bool)
    ensures
        r == chars@.contains(c),
{
    proof {
        text::lemma_positions(chars@, c);
    }
    match text::find(chars, c) {
        Some(at) => {
            assert(chars@[at as int] == c);
            true
        },
        None => false,
    }
}

/// A connection of the past.
#[derive(Debug)]
pub struct Recent {
    pub remote: String,
    pub subcommand: String,
    pub ts: String,
}

/// A connection of the past.
#[verifier::ext_equal]
pub struct RecentModel {
    pub remote: Seq<char>,
    pub subcommand: Seq<char>,
    pub ts: Seq<char>,
}

impl View for Recent {
    type V = RecentModel;

    open spec fn view(&self) -> RecentModel {
        RecentModel { remote: self.remote@, subcommand: self.subcommand@, ts: self.ts@ }
    }
}

/// Connections of the past.
pub open spec fn recents(list: Seq<Recent>) -> Seq<RecentModel> {
    Seq::new(list.len(), |i: int| list[i]@)
}

/// How many connections of the past are listed.
pub const RECENT_MAX: usize = 8;

/// Whether a connection can be listed: a user asked for it, on a named host.
pub open spec fn listable(r: RecentModel) -> bool {
    &&& r.remote.contains('@')
    &&& !text::has_prefix(r.subcommand, "_"@)
    &&& r.subcommand != "recv"@
    &&& r.subcommand != "serve"@
}

/// What tells two connections apart.
pub open spec fn recent_key(r: RecentModel) -> Seq<char> {
    r.remote + ":"@ + r.subcommand
}

/// Whether one of the connections at some places has a key.
pub open spec fn has_key(log: Seq<RecentModel>, places: Seq<usize>, key: Seq<char>) -> bool {
    exists|a: int| 0 <= a < places.len() && recent_key(log[#[trigger] places[a] as int]) == key
}

/// The places of the connections that are listed, out of those from place `i` on: the latest
/// come first, each key comes once, and no more than fit are taken.
pub open spec fn listed_from(log: Seq<RecentModel>, i: int) -> Seq<usize>
    decreases log.len() - i,
{
    if i >= log.len() {
        Seq::empty()
    } else {
        let later = listed_from(log, i + 1);
        if later.len() < RECENT_MAX && listable(log[i]) && !has_key(log, later, recent_key(log[i])) {
            later.push(i as usize)
        } else {
            later
        }
    }
}

fn can_list(r: &Recent) -> (ok: bool)
    ensures
        ok == listable(r@),
{
    holds(&text::chars_of(r.remote.as_str()), '@') && !text::starts_with(
        r.subcommand.as_str(),
        "_",
    ) && !text::same(r.subcommand.as_str(), "recv") && !text::same(r.subcommand.as_str(), "serve")
}

fn key_of(r: &Recent) -> (key: String)
    ensures
        key@ == recent_key(r@),
{
    text::glue3(r.remote.as_str(), ":", r.subcommand.as_str())
}

fn key_listed(log: &Vec<Recent>, places: &Vec<usize>, key: &str) -> (r: bool)
    requires
        forall|a: int| 0 <= a < places@.len() ==> #[trigger] places@[a] < log@.len(),
    ensures
        r == has_key(recents(log@), places@, key@),
{
    let n: usize = places.len();
    for i in 0..n
        invariant
            n == places@.len(),
            forall|a: int| 0 <= a < places@.len() ==> #[trigger] places@[a] < log@.len(),
            forall|a: int|
                0 <= a < i ==> recent_key(recents(log@)[#[trigger] places@[a] as int]) != key@,
    {
        let p: usize = places[i];
        assert(recents(log@)[p as int] == log@[p as int]@);
        if text::same(key_of(&log[p]).as_str(), key) {
            assert(recent_key(recents(log@)[places@[i as int] as int]) == key@);
            return true;
        }
    }
    false
}

/// The places of the connections that are listed, the latest first. The log has the latest last.
pub fn list_recent(log: &Vec<Recent>) -> (places: Vec<usize>)
    ensures
        places@ == listed_from(recents(log@), 0),
        places@.len() <= RECENT_MAX,
        forall|a: int| 0 <= a < places@.len() ==> #[trigger] places@[a] < log@.len(),
{
    let n: usize = log.len();
    let ghost all = recents(log@);
    let mut places: Vec<usize> = Vec::new();
    let mut i: usize = n;
    while i > 0
        invariant
            i <= n,
            n == log@.len(),
            all == recents(log@),
            places@ == listed_from(all, i as int),
            places@.len() <= RECENT_MAX,
            forall|a: int| 0 <= a < places@.len() ==> #[trigger] places@[a] < log@.len(),
        decreases i,
    {
        i = i - 1;
        assert(all[i as int] == log@[i as int]@);
        if places.len() < RECENT_MAX && can_list(&log[i]) && !key_listed(
            log,
            &places,
            key_of(&log[i]).as_str(),
        ) {
            places.push(i);
        }
    }
    places
}

/// No two listed connections have the same key.
pub proof fn law_recent_distinct(log: Seq<RecentModel>, i: int, a: int, b: int)
    requires
        0 <= i,
        log.len() <= usize::MAX,
        0 <= a < b < listed_from(log, i).len(),
    ensures
        recent_key(log[listed_from(log, i)[a] as int]) != recent_key(
            log[listed_from(log, i)[b] as int],
        ),
    decreases log.len() - i,
{
    if i < log.len() {
        let later = listed_from(log, i + 1);
        let now = listed_from(log, i);
        if b < later.len() {
            law_recent_distinct(log, i + 1, a, b);
            assert(now[a] == later[a] && now[b] == later[b]);
        } else {
            assert(now[b] == i);
            assert(now[a] == later[a]);
            assert(recent_key(log[later[a] as int]) != recent_key(log[i]));
        }
    }
}

/// The connections that are listed, the latest first.
pub open spec fn listed(log: Seq<RecentModel>) -> Seq<RecentModel> {
    Seq::new(listed_from(log, 0).len(), |a: int| log[listed_from(log, 0)[a] as int])
}

/// The connections that are listed, the latest first.
pub fn newest(log: &Vec<Recent>) -> (out: Vec<Recent>)
    ensures
        recents(out@) == listed(recents(log@)),
{
    let places: Vec<usize> = list_recent(log);
    let n: usize = places.len();
    let mut out: Vec<Recent> = Vec::new();
    for a in 0..n
        invariant
            n == places@.len(),
            places@ == listed_from(recents(log@), 0),
            forall|b: int| 0 <= b < places@.len() ==> #[trigger] places@[b] < log@.len(),
            recents(out@) == listed(recents(log@)).take(a as int),
    {
        let r: &Recent = &log[places[a]];
        let ghost before = out@;
        out.push(
            Recent {
                remote: text::owned(r.remote.as_str()),
                subcommand: text::owned(r.subcommand.as_str()),
                ts: text::owned(r.ts.as_str()),
            },
        );
        assert(recents(out@) =~= recents(before).push(r@));
        assert(recents(out@) =~= listed(recents(log@)).take(a + 1));
    }
    assert(recents(out@) =~= listed(recents(log@)));
    out
}

/// The text in a field of a line, which is empty where there is none.
pub open spec fn field_of(line: Seq<char>, field: Seq<char>) -> Seq<char> {
    match formats::json_text(utf8::encode_utf8(line), field) {
        Ok(Some(s)) => s,
        _ => Seq::empty(),
    }
}

/// Whether a line of a log can be read.
pub open spec fn readable(line: Seq<char>) -> bool {
    formats::json_text(utf8::encode_utf8(line), "remote"@) is Ok
}

/// The connection in a line of a log.
pub open spec fn recorded(line: Seq<char>) -> RecentModel {
    RecentModel {
        remote: field_of(line, "remote"@),
        subcommand: field_of(line, "subcommand"@),
        ts: field_of(line, "ts"@),
    }
}

/// The connections in the lines of a log that can be read.
pub open spec fn records(lines: Seq<Seq<char>>) -> Seq<RecentModel>
    decreases lines.len(),
{
    if lines.len() == 0 {
        Seq::empty()
    } else if readable(lines.last()) {
        records(lines.drop_last()).push(recorded(lines.last()))
    } else {
        records(lines.drop_last())
    }
}

/// The connections that are listed out of the lines of a log.
pub open spec fn recent_model(lines: Seq<Seq<char>>) -> Seq<RecentModel> {
    listed(records(lines))
}

fn read_field(line: &str, field: &str) -> (out: String)
    ensures
        out@ == field_of(line@, field@),
{
    match formats::json_field(line.as_bytes(), field) {
        Ok(Some(s)) => s,
        _ => {
            let out: String = String::new();
            assert(out@ =~= Seq::empty());
            out
        },
    }
}

/// The connections that are listed out of an audit log, the latest first.
pub fn recent_of(log: &str) -> (out: Vec<Recent>)
    ensures
        recents(out@) == recent_model(text::lines(log@)),
{
    let lines: Vec<String> = text::split_lines(log);
    let n: usize = lines.len();
    let ghost all = text::lines(log@);
    let mut found: Vec<Recent> = Vec::new();
    assert(all.take(0) =~= Seq::empty());
    assert(recents(found@) =~= Seq::empty());
    for i in 0..n
        invariant
            n == lines@.len(),
            all == text::texts(lines@),
            recents(found@) == records(all.take(i as int)),
    {
        let line: &str = lines[i].as_str();
        proof {
            assert(all.take(i + 1).drop_last() =~= all.take(i as int));
            assert(all.take(i + 1).last() == line@);
        }
        match formats::json_field(line.as_bytes(), "remote") {
            Ok(_) => {
                let r: Recent = Recent {
                    remote: read_field(line, "remote"),
                    subcommand: read_field(line, "subcommand"),
                    ts: read_field(line, "ts"),
                };
                let ghost before = found@;
                let ghost one = r@;
                found.push(r);
                assert(recents(found@) =~= recents(before).push(one));
            },
            Err(_) => {},
        }
    }
    assert(all.take(n as int) =~= all);
    newest(&found)
}

/// Whether the parts of a time can be cut out of it.
pub open spec fn ts_cuttable(ts: Seq<char>) -> bool {
    let b = utf8::encode_utf8(ts);
    b.len() >= 16 ==> {
        &&& utf8::is_char_boundary(b, 5)
        &&& utf8::is_char_boundary(b, 10)
        &&& utf8::is_char_boundary(b, 11)
        &&& utf8::is_char_boundary(b, 16)
    }
}

/// A time in short: the month and the day, and the hour and the minute.
pub open spec fn short_ts(ts: Seq<char>) -> Seq<char> {
    let b = utf8::encode_utf8(ts);
    if b.len() >= 16 {
        utf8::decode_utf8(b.subrange(5, 10)) + " "@ + utf8::decode_utf8(b.subrange(11, 16))
    } else {
        ts
    }
}

/// Whether the parts of a time can be cut out of it.
pub fn can_cut_ts(ts: &str) -> (r: bool)
    ensures
        r == ts_cuttable(ts@),
{
    ts.as_bytes().len() < 16 || (ts.is_char_boundary(5) && ts.is_char_boundary(10)
        && ts.is_char_boundary(11) && ts.is_char_boundary(16))
}

fn byte_cut<'a>(s: &'a str, from: usize, to: usize) -> (out: &'a str)
    requires
        from <= to <= s.spec_bytes().len(),
        utf8::is_char_boundary(s.spec_bytes(), from as int),
        utf8::is_char_boundary(s.spec_bytes(), to as int),
    ensures
        out@ == utf8::decode_utf8(s.spec_bytes().subrange(from as int, to as int)),
{
    let (head, _after) = s.split_at(to);
    assert(head.spec_bytes() == s.spec_bytes().subrange(0, to as int));
    assert(utf8::is_char_boundary(head.spec_bytes(), from as int)) by {
        utf8::encode_utf8_valid_utf8(s@);
        utf8::encode_utf8_valid_utf8(head@);
        if from < to {
            utf8::is_char_boundary_iff_not_is_continuation_byte(s.spec_bytes(), from as int);
            utf8::is_char_boundary_iff_not_is_continuation_byte(head.spec_bytes(), from as int);
        } else {
            utf8::is_char_boundary_start_end_of_seq(head.spec_bytes());
        }
    }
    let (_before, out) = head.split_at(from);
    proof {
        assert(out.spec_bytes() =~= s.spec_bytes().subrange(from as int, to as int));
        utf8::encode_utf8_decode_utf8(out@);
    }
    out
}

/// A time in short.
pub fn format_ts(ts: &str) -> (out: String)
    requires
        ts_cuttable(ts@),
    ensures
        out@ == short_ts(ts@),
{
    if ts.as_bytes().len() >= 16 {
        text::glue3(byte_cut(ts, 5, 10), " ", byte_cut(ts, 11, 16))
    } else {
        text::owned(ts)
    }
}

/// Whether a text can be shortened: it fits, or it can be cut before the last place.
pub open spec fn cuttable(s: Seq<char>, max: int) -> bool {
    let b = utf8::encode_utf8(s);
    b.len() <= max || max == 0 || utf8::is_char_boundary(b, max - 1)
}

/// A text that takes at most `max` places, with an ellipsis where it was cut.
pub open spec fn short_text(s: Seq<char>, max: int) -> Seq<char> {
    let b = utf8::encode_utf8(s);
    if b.len() <= max {
        s
    } else if max == 0 {
        "…"@
    } else {
        utf8::decode_utf8(b.subrange(0, max - 1)) + "…"@
    }
}

/// Whether a text can be shortened.
pub fn can_truncate(s: &str, max: usize) -> (r: bool)
    ensures
        r == cuttable(s@, max as int),
{
    s.as_bytes().len() <= max || max == 0 || s.is_char_boundary(max - 1)
}

/// A text that takes at most `max` places.
pub fn truncate(s: &str, max: usize) -> (out: String)
    requires
        cuttable(s@, max as int),
    ensures
        out@ == short_text(s@, max as int),
{
    if s.as_bytes().len() <= max {
        text::owned(s)
    } else if max == 0 {
        text::owned("…")
    } else {
        let (head, _tail) = s.split_at(max - 1);
        proof {
            utf8::encode_utf8_decode_utf8(head@);
            assert(head.spec_bytes() == s.spec_bytes().subrange(0, max - 1));
        }
        text::joined(head, "…")
    }
}

/// A line of text that is being edited.
#[derive(Debug)]
pub struct Field {
    pub text: Vec<char>,
    pub cursor: usize,
}

/// A line of text, and where its cursor stands.
#[verifier::ext_equal]
pub struct FieldModel {
    pub text: Seq<char>,
    pub cursor: int,
}

impl View for Field {
    type V = FieldModel;

    open spec fn view(&self) -> FieldModel {
        FieldModel { text: self.text@, cursor: self.cursor as int }
    }
}

/// The text before the last word, and the blanks and slashes that end it: what is left of it when
/// its last word is removed.
pub open spec fn without_word(s: Seq<char>) -> Seq<char>
    decreases s.len(),
{
    if s.len() > 0 && s.last() != ' ' && s.last() != '/' {
        without_word(s.drop_last())
    } else {
        s
    }
}

/// The text before the blanks and slashes that end it.
pub open spec fn without_gap(s: Seq<char>) -> Seq<char>
    decreases s.len(),
{
    if s.len() > 0 && (s.last() == ' ' || s.last() == '/') {
        without_gap(s.drop_last())
    } else {
        s
    }
}

impl FieldModel {
    /// Whether the cursor stands in the text.
    pub open spec fn wf(self) -> bool {
        0 <= self.cursor <= self.text.len()
    }

    /// With a character typed.
    pub open spec fn inserted(self, c: char) -> FieldModel {
        FieldModel { text: self.text.insert(self.cursor, c), cursor: self.cursor + 1 }
    }

    /// With the character before the cursor removed.
    pub open spec fn backspaced(self) -> FieldModel {
        if self.cursor > 0 {
            FieldModel { text: self.text.remove(self.cursor - 1), cursor: self.cursor - 1 }
        } else {
            self
        }
    }

    /// With the cursor one character to the left.
    pub open spec fn left(self) -> FieldModel {
        FieldModel {
            cursor: if self.cursor > 0 {
                self.cursor - 1
            } else {
                0
            },
            ..self
        }
    }

    /// With the cursor one character to the right.
    pub open spec fn right(self) -> FieldModel {
        FieldModel {
            cursor: if self.cursor < self.text.len() {
                self.cursor + 1
            } else {
                self.text.len() as int
            },
            ..self
        }
    }

    /// With the cursor at the beginning.
    pub open spec fn home(self) -> FieldModel {
        FieldModel { cursor: 0, ..self }
    }

    /// With the cursor at the end.
    pub open spec fn end(self) -> FieldModel {
        FieldModel { cursor: self.text.len() as int, ..self }
    }

    /// With the word before the cursor removed.
    pub open spec fn word_deleted(self) -> FieldModel {
        let kept = without_gap(without_word(self.text.take(self.cursor)));
        FieldModel { text: kept + self.text.skip(self.cursor), cursor: kept.len() as int }
    }

    /// A field without text.
    pub open spec fn empty() -> FieldModel {
        FieldModel { text: Seq::empty(), cursor: 0 }
    }
}

proof fn lemma_without(s: Seq<char>, n: int)
    requires
        0 <= n <= s.len(),
    ensures
        without_word(s.take(n)).len() <= n,
        without_word(s.take(n)) == s.take(without_word(s.take(n)).len() as int),
        without_gap(s.take(n)).len() <= n,
        without_gap(s.take(n)) == s.take(without_gap(s.take(n)).len() as int),
    decreases n,
{
    if n > 0 {
        assert(s.take(n).drop_last() =~= s.take(n - 1));
        lemma_without(s, n - 1);
    }
}

/// A character that is typed and removed again leaves the field as it was.
pub proof fn law_insert_undone(f: FieldModel, c: char)
    requires
        f.wf(),
    ensures
        f.inserted(c).backspaced() == f,
{
    assert(f.inserted(c).backspaced().text =~= f.text);
}

impl Field {
    /// A field without text.
    pub fn new() -> (f: Self)
        ensures
            f@ == FieldModel::empty(),
    {
        let f = Field { text: Vec::new(), cursor: 0 };
        assert(f@ =~= FieldModel::empty());
        f
    }

    /// A field with a text, and the cursor at its end.
    pub fn holding(s: &str) -> (f: Self)
        ensures
            f@ == (FieldModel { text: s@, cursor: s@.len() as int }),
    {
        let text: Vec<char> = text::chars_of(s);
        let cursor: usize = text.len();
        Field { text, cursor }
    }

    /// Types a character.
    pub fn insert_char(&mut self, c: char)
        requires
            old(self)@.wf(),
        ensures
            final(self)@ == old(self)@.inserted(c),
    {
        self.text.insert(self.cursor, c);
        let n: usize = self.text.len();
        assert(self.cursor < n);
        self.cursor = self.cursor + 1;
    }

    /// Removes the character before the cursor.
    pub fn backspace(&mut self)
        requires
            old(self)@.wf(),
        ensures
            final(self)@ == old(self)@.backspaced(),
    {
        if self.cursor > 0 {
            let _c: char = self.text.remove(self.cursor - 1);
            self.cursor = self.cursor - 1;
        }
    }

    /// Moves the cursor to the left.
    pub fn cursor_left(&mut self)
        ensures
            final(self)@ == old(self)@.left(),
    {
        if self.cursor > 0 {
            self.cursor = self.cursor - 1;
        }
    }

    /// Moves the cursor to the right.
    pub fn cursor_right(&mut self)
        ensures
            final(self)@ == old(self)@.right(),
    {
        let n: usize = self.text.len();
        if self.cursor < n {
            self.cursor = self.cursor + 1;
        } else {
            self.cursor = n;
        }
    }

    /// Moves the cursor to the beginning.
    pub fn cursor_home(&mut self)
        ensures
            final(self)@ == old(self)@.home(),
    {
        self.cursor = 0;
    }

    /// Moves the cursor to the end.
    pub fn cursor_end(&mut self)
        ensures
            final(self)@ == old(self)@.end(),
    {
        self.cursor = self.text.len();
    }

    /// Removes the word before the cursor.
    pub fn delete_word(&mut self)
        requires
            old(self)@.wf(),
        ensures
            final(self)@ == old(self)@.word_deleted(),
    {
        let n: usize = self.text.len();
        let cursor: usize = self.cursor;
        let ghost all = self.text@;
        let mut keep: usize = cursor;
        proof {
            lemma_without(all, cursor as int);
        }
        while keep > 0 && self.text[keep - 1] != ' ' && self.text[keep - 1] != '/'
            invariant
                keep <= cursor <= n,
                self.text@ == all,
                n == all.len(),
                without_word(all.take(keep as int)) == without_word(all.take(cursor as int)),
            decreases keep,
        {
            assert(all.take(keep as int).drop_last() =~= all.take(keep - 1));
            keep = keep - 1;
        }
        let ghost word = keep;
        assert(without_word(all.take(cursor as int)) == all.take(keep as int));
        while keep > 0 && (self.text[keep - 1] == ' ' || self.text[keep - 1] == '/')
            invariant
                keep <= word <= cursor <= n,
                self.text@ == all,
                n == all.len(),
                without_gap(all.take(keep as int)) == without_gap(all.take(word as int)),
            decreases keep,
        {
            assert(all.take(keep as int).drop_last() =~= all.take(keep - 1));
            keep = keep - 1;
        }
        assert(without_gap(all.take(word as int)) == all.take(keep as int));
        let mut out: Vec<char> = Vec::new();
        for i in 0..keep
            invariant
                keep <= n,
                self.text@ == all,
                n == all.len(),
                out@ == all.take(i as int),
        {
            out.push(self.text[i]);
            assert(out@ =~= all.take(i + 1));
        }
        for i in cursor..n
            invariant
                keep <= cursor <= n,
                self.text@ == all,
                n == all.len(),
                out@ == all.take(keep as int) + all.subrange(cursor as int, i as int),
        {
            out.push(self.text[i]);
            assert(out@ =~= all.take(keep as int) + all.subrange(cursor as int, i + 1));
        }
        assert(out@ =~= all.take(keep as int) + all.skip(cursor as int));
        self.text = out;
        self.cursor = keep;
    }
}

/// What the keys go to.
#[derive(Debug, Clone, Copy, PartialEq, Eq, Structural)]
pub enum Focus {
    Host,
    Actions,
    Param,
    Recent,
}

/// The form.
#[derive(Debug)]
pub struct App {
    pub focus: Focus,
    pub host: Field,
    pub action_idx: usize,
    pub param: Field,
    pub recent: Vec<Recent>,
    pub selected: Option<usize>,
    pub last_run: Option<(String, i32)>,
    pub validation: Option<String>,
}

/// The form.
#[verifier::ext_equal]
pub struct AppModel {
    pub focus: Focus,
    pub host: FieldModel,
    pub action_idx: int,
    pub param: FieldModel,
    pub recent: Seq<RecentModel>,
    pub selected: Option<int>,
    pub last_run: Option<(Seq<char>, i32)>,
    pub validation: Option<Seq<char>>,
}

impl View for App {
    type V = AppModel;

    open spec fn view(&self) -> AppModel {
        AppModel {
            focus: self.focus,
            host: self.host@,
            action_idx: self.action_idx as int,
            param: self.param@,
            recent: recents(self.recent@),
            selected: match self.selected {
                Some(i) => Some(i as int),
                None => None,
            },
            last_run: match self.last_run {
                Some(t) => Some((t.0@, t.1)),
                None => None,
            },
            validation: match self.validation {
                Some(s) => Some(s@),
                None => None,
            },
        }
    }
}

impl AppModel {
    /// Whether the cursors stand in their texts, and an action is chosen.
    pub open spec fn wf(self) -> bool {
        &&& self.host.wf()
        &&& self.param.wf()
        &&& 0 <= self.action_idx < ACTION_COUNT
    }

    /// The chosen action.
    pub open spec fn action(self) -> Action {
        action_in(self.action_idx)
    }

    /// Whether the chosen action takes a parameter.
    pub open spec fn needs_param(self) -> bool {
        self.action().label() is Some
    }

    /// Whether no host is given.
    pub open spec fn no_host(self) -> bool {
        text::trimmed(self.host.text).len() == 0
    }

    /// Whether a parameter has to be given and is not.
    pub open spec fn no_param(self) -> bool {
        self.needs_param() && text::trimmed(self.param.text).len() == 0
    }

    /// Whether the action can be started: there is a host, and a parameter where one is needed.
    pub open spec fn ready(self) -> bool {
        !self.no_host() && (self.action() is Proxy || self.action() is Scan || !self.no_param())
    }

    /// The arguments with which the action is started.
    pub open spec fn arguments(self) -> Seq<Seq<char>> {
        self.action().arguments(self.host.text, self.param.text)
    }

    /// The command line with which the action is started.
    pub open spec fn command(self) -> Seq<char> {
        "seam "@ + text::join(self.arguments(), " "@)
    }

    /// With an action chosen, and the parameter of the one before forgotten.
    pub open spec fn with_action(self, row: int) -> AppModel {
        AppModel { action_idx: row, param: FieldModel::empty(), ..self }
    }

    /// With the action above.
    pub open spec fn action_up(self) -> AppModel {
        if self.action_idx > 0 {
            self.with_action(self.action_idx - 1)
        } else {
            self
        }
    }

    /// With the action below.
    pub open spec fn action_down(self) -> AppModel {
        if self.action_idx + 1 < ACTION_COUNT {
            self.with_action(self.action_idx + 1)
        } else {
            self
        }
    }

    /// With the connection above.
    pub open spec fn recent_up(self) -> AppModel {
        match self.selected {
            Some(i) => if i > 0 {
                AppModel { selected: Some(i - 1), ..self }
            } else {
                self
            },
            None => self,
        }
    }

    /// With the connection below.
    pub open spec fn recent_down(self) -> AppModel {
        match self.selected {
            Some(i) => if i + 1 < self.recent.len() {
                AppModel { selected: Some(i + 1), ..self }
            } else {
                self
            },
            None => self,
        }
    }

    /// With the host of the selected connection.
    pub open spec fn select_recent(self) -> AppModel {
        match self.selected {
            Some(i) => if i < self.recent.len() {
                AppModel {
                    host: FieldModel {
                        text: self.recent[i].remote,
                        cursor: self.recent[i].remote.len() as int,
                    },
                    focus: Focus::Actions,
                    validation: None,
                    ..self
                }
            } else {
                self
            },
            None => self,
        }
    }

    /// Which panel comes next.
    pub open spec fn next_focus(self) -> Focus {
        match self.focus {
            Focus::Host => Focus::Actions,
            Focus::Actions => if self.needs_param() {
                Focus::Param
            } else if self.recent.len() > 0 {
                Focus::Recent
            } else {
                Focus::Host
            },
            Focus::Param => if self.recent.len() > 0 {
                Focus::Recent
            } else {
                Focus::Host
            },
            Focus::Recent => Focus::Host,
        }
    }

    /// Which panel comes before.
    pub open spec fn prev_focus(self) -> Focus {
        match self.focus {
            Focus::Host => if self.recent.len() > 0 {
                Focus::Recent
            } else if self.needs_param() {
                Focus::Param
            } else {
                Focus::Actions
            },
            Focus::Actions => Focus::Host,
            Focus::Param => Focus::Actions,
            Focus::Recent => if self.needs_param() {
                Focus::Param
            } else {
                Focus::Actions
            },
        }
    }

    /// With the next panel.
    pub open spec fn tab_next(self) -> AppModel {
        AppModel { focus: self.next_focus(), ..self }
    }

    /// With the panel before.
    pub open spec fn tab_prev(self) -> AppModel {
        AppModel { focus: self.prev_focus(), ..self }
    }

    /// Whether the keys go to a panel that is shown.
    pub open spec fn focus_shown(self) -> bool {
        &&& self.focus is Param ==> self.needs_param()
        &&& self.focus is Recent ==> self.recent.len() > 0
    }

    /// With the field that is being edited changed.
    pub open spec fn edited(self, change: spec_fn(FieldModel) -> FieldModel) -> AppModel {
        match self.focus {
            Focus::Host => AppModel { host: change(self.host), ..self },
            Focus::Param => AppModel { param: change(self.param), ..self },
            _ => self,
        }
    }

    /// With a message.
    pub open spec fn told(self, message: Option<Seq<char>>) -> AppModel {
        AppModel { validation: message, ..self }
    }

    /// When a command has ended: what ran and how, and the connections of the past as they are
    /// now.
    pub open spec fn returned(
        self,
        command: Seq<char>,
        code: i32,
        recent: Seq<RecentModel>,
    ) -> AppModel {
        AppModel {
            last_run: Some((command, code)),
            validation: None,
            recent,
            selected: if recent.len() == 0 {
                self.selected
            } else if self.recent.len() == 0 {
                Some(0)
            } else {
                let before = match self.selected {
                    Some(i) => i,
                    None => 0,
                };
                Some(
                    if before < recent.len() {
                        before
                    } else {
                        recent.len() - 1
                    },
                )
            },
            ..self
        }
    }
}

/// Going to the next panel and back, or back and to the next, changes nothing.
pub proof fn law_tab_round_trip(m: AppModel)
    requires
        m.focus_shown(),
    ensures
        m.tab_next().tab_prev() == m,
        m.tab_prev().tab_next() == m,
{
}

impl App {
    /// The form at its start.
    pub fn new(recent: Vec<Recent>) -> (app: Self)
        ensures
            app@.wf(),
            app@.focus_shown(),
            app@ == (AppModel {
                focus: Focus::Host,
                host: FieldModel::empty(),
                action_idx: 0,
                param: FieldModel::empty(),
                recent: recents(recent@),
                selected: if recent@.len() > 0 {
                    Some(0)
                } else {
                    None
                },
                last_run: None,
                validation: None,
            }),
    {
        let selected: Option<usize> = if recent.len() > 0 {
            Some(0)
        } else {
            None
        };
        App {
            focus: Focus::Host,
            host: Field::new(),
            action_idx: 0,
            param: Field::new(),
            recent,
            selected,
            last_run: None,
            validation: None,
        }
    }

    /// The chosen action.
    pub fn action(&self) -> (a: Action)
        requires
            self@.wf(),
        ensures
            a == self@.action(),
    {
        action_at(self.action_idx)
    }

    /// Whether the chosen action takes a parameter.
    pub fn needs_param(&self) -> (r: bool)
        requires
            self@.wf(),
        ensures
            r == self@.needs_param(),
    {
        self.action().needs_param()
    }

    fn no_host(&self) -> (r: bool)
        ensures
            r == self@.no_host(),
    {
        let h: String = text::trim(text::string_of(&self.host.text).as_str());
        text::chars_of(h.as_str()).len() == 0
    }

    fn no_param(&self) -> (r: bool)
        requires
            self@.wf(),
        ensures
            r == self@.no_param(),
    {
        let p: String = text::trim(text::string_of(&self.param.text).as_str());
        self.needs_param() && text::chars_of(p.as_str()).len() == 0
    }

    /// Whether the action can be started.
    pub fn ready(&self) -> (r: bool)
        requires
            self@.wf(),
        ensures
            r == self@.ready(),
    {
        if self.no_host() {
            return false;
        }
        match self.action() {
            Action::Proxy | Action::Scan => true,
            _ => !self.no_param(),
        }
    }

    /// The arguments with which the action is started.
    pub fn build_args(&self) -> (out: Vec<String>)
        requires
            self@.wf(),
        ensures
            text::texts(out@) == self@.arguments(),
    {
        let host: String = text::string_of(&self.host.text);
        let param: String = text::string_of(&self.param.text);
        self.action().to_args(host.as_str(), param.as_str())
    }

    /// The command line with which the action is started.
    pub fn preview_command(&self) -> (out: String)
        requires
            self@.wf(),
        ensures
            out@ == self@.command(),
    {
        let args: Vec<String> = self.build_args();
        text::joined("seam ", text::join_texts(&args, " ").as_str())
    }

    /// Takes note of a command that has ended.
    pub fn on_command_return(&mut self, cmd: String, exit_code: i32, recent: Vec<Recent>)
        ensures
            final(self)@ == old(self)@.returned(cmd@, exit_code, recents(recent@)),
    {
        let had_recent: bool = self.recent.len() > 0;
        let n: usize = recent.len();
        let before: usize = match self.selected {
            Some(i) => i,
            None => 0,
        };
        self.last_run = Some((cmd, exit_code));
        self.validation = None;
        self.recent = recent;
        if n > 0 {
            self.selected = Some(
                if !had_recent {
                    0
                } else if before < n {
                    before
                } else {
                    n - 1
                },
            );
        }
    }

    /// Types a character.
    pub fn insert_char(&mut self, c: char)
        requires
            old(self)@.wf(),
        ensures
            final(self)@ == old(self)@.edited(|f: FieldModel| f.inserted(c)),
    {
        match self.focus {
            Focus::Host => self.host.insert_char(c),
            Focus::Param => self.param.insert_char(c),
            _ => {},
        }
    }

    /// Removes the character before the cursor.
    pub fn backspace(&mut self)
        requires
            old(self)@.wf(),
        ensures
            final(self)@ == old(self)@.edited(|f: FieldModel| f.backspaced()),
    {
        match self.focus {
            Focus::Host => self.host.backspace(),
            Focus::Param => self.param.backspace(),
            _ => {},
        }
    }

    /// Moves the cursor to the left.
    pub fn cursor_left(&mut self)
        ensures
            final(self)@ == old(self)@.edited(|f: FieldModel| f.left()),
    {
        match self.focus {
            Focus::Host => self.host.cursor_left(),
            Focus::Param => self.param.cursor_left(),
            _ => {},
        }
    }

    /// Moves the cursor to the right.
    pub fn cursor_right(&mut self)
        ensures
            final(self)@ == old(self)@.edited(|f: FieldModel| f.right()),
    {
        match self.focus {
            Focus::Host => self.host.cursor_right(),
            Focus::Param => self.param.cursor_right(),
            _ => {},
        }
    }

    /// Moves the cursor to the beginning.
    pub fn cursor_home(&mut self)
        ensures
            final(self)@ == old(self)@.edited(|f: FieldModel| f.home()),
    {
        match self.focus {
            Focus::Host => self.host.cursor_home(),
            Focus::Param => self.param.cursor_home(),
            _ => {},
        }
    }

    /// Moves the cursor to the end.
    pub fn cursor_end(&mut self)
        ensures
            final(self)@ == old(self)@.edited(|f: FieldModel| f.end()),
    {
        match self.focus {
            Focus::Host => self.host.cursor_end(),
            Focus::Param => self.param.cursor_end(),
            _ => {},
        }
    }

    /// Removes the word before the cursor.
    pub fn delete_word(&mut self)
        requires
            old(self)@.wf(),
        ensures
            final(self)@ == old(self)@.edited(|f: FieldModel| f.word_deleted()),
    {
        match self.focus {
            Focus::Host => self.host.delete_word(),
            Focus::Param => self.param.delete_word(),
            _ => {},
        }
    }

    /// Goes to the action above.
    pub fn action_up(&mut self)
        ensures
            final(self)@ == old(self)@.action_up(),
    {
        if self.action_idx > 0 {
            self.action_idx = self.action_idx - 1;
            self.param = Field::new();
        }
    }

    /// Goes to the action below.
    pub fn action_down(&mut self)
        ensures
            final(self)@ == old(self)@.action_down(),
    {
        if self.action_idx < ACTION_COUNT - 1 {
            self.action_idx = self.action_idx + 1;
            self.param = Field::new();
        }
    }

    /// Goes to the connection above.
    pub fn recent_up(&mut self)
        ensures
            final(self)@ == old(self)@.recent_up(),
    {
        match self.selected {
            Some(i) => {
                if i > 0 {
                    self.selected = Some(i - 1);
                }
            },
            None => {},
        }
    }

    /// Goes to the connection below.
    pub fn recent_down(&mut self)
        ensures
            final(self)@ == old(self)@.recent_down(),
    {
        let n: usize = self.recent.len();
        match self.selected {
            Some(i) => {
                if i < n && i + 1 < n {
                    self.selected = Some(i + 1);
                }
            },
            None => {},
        }
    }

    /// Takes over the host of the selected connection.
    pub fn select_recent(&mut self)
        ensures
            final(self)@ == old(self)@.select_recent(),
    {
        match self.selected {
            Some(i) => {
                if i < self.recent.len() {
                    assert(recents(self.recent@)[i as int] == self.recent@[i as int]@);
                    let host: Field = Field::holding(self.recent[i].remote.as_str());
                    self.host = host;
                    self.focus = Focus::Actions;
                    self.validation = None;
                }
            },
            None => {},
        }
    }

    /// Goes to the next panel.
    pub fn tab_next(&mut self)
        requires
            old(self)@.wf(),
        ensures
            final(self)@ == old(self)@.tab_next(),
    {
        let any: bool = self.recent.len() > 0;
        self.focus = match self.focus {
            Focus::Host => Focus::Actions,
            Focus::Actions => {
                if self.needs_param() {
                    Focus::Param
                } else if any {
                    Focus::Recent
                } else {
                    Focus::Host
                }
            },
            Focus::Param => {
                if any {
                    Focus::Recent
                } else {
                    Focus::Host
                }
            },
            Focus::Recent => Focus::Host,
        };
    }

    /// Goes to the panel before.
    pub fn tab_prev(&mut self)
        requires
            old(self)@.wf(),
        ensures
            final(self)@ == old(self)@.tab_prev(),
    {
        let any: bool = self.recent.len() > 0;
        self.focus = match self.focus {
            Focus::Host => {
                if any {
                    Focus::Recent
                } else if self.needs_param() {
                    Focus::Param
                } else {
                    Focus::Actions
                }
            },
            Focus::Actions => Focus::Host,
            Focus::Param => Focus::Actions,
            Focus::Recent => {
                if self.needs_param() {
                    Focus::Param
                } else {
                    Focus::Actions
                }
            },
        };
    }
}

/// A key that was pressed.
#[derive(Debug, Clone, Copy, PartialEq, Eq, Structural)]
pub enum Key {
    Char(char),
    Tab,
    Up,
    Down,
    Left,
    Right,
    Home,
    End,
    Backspace,
    Delete,
    Enter,
    Esc,
    Other,
}

/// What is done after a key.
#[derive(Debug)]
pub enum Step {
    /// The form is left.
    Quit,
    /// The form stays.
    Stay,
    /// A command is run, with these arguments and this command line.
    Run(Vec<String>, String),
}

/// What is done after a key.
#[verifier::ext_equal]
pub enum StepModel {
    Quit,
    Stay,
    Run(Seq<Seq<char>>, Seq<char>),
}

impl View for Step {
    type V = StepModel;

    open spec fn view(&self) -> StepModel {
        match self {
            Step::Quit => StepModel::Quit,
            Step::Stay => StepModel::Stay,
            Step::Run(args, command) => StepModel::Run(text::texts(args@), command@),
        }
    }
}

impl AppModel {
    /// Whether a field is being edited.
    pub open spec fn in_text(self) -> bool {
        self.focus is Host || self.focus is Param
    }

    /// With the row above in the list that has the keys.
    pub open spec fn up(self) -> AppModel {
        match self.focus {
            Focus::Actions => self.action_up(),
            Focus::Recent => self.recent_up(),
            _ => self,
        }
    }

    /// With the row below in the list that has the keys.
    pub open spec fn down(self) -> AppModel {
        match self.focus {
            Focus::Actions => self.action_down(),
            Focus::Recent => self.recent_down(),
            _ => self,
        }
    }

    /// What is asked for before the action can be started.
    pub open spec fn asked(self) -> AppModel {
        if self.no_host() {
            AppModel {
                focus: Focus::Host,
                validation: Some("Enter a host first  (user@hostname)"@),
                ..self
            }
        } else if self.no_param() {
            AppModel {
                focus: Focus::Param,
                validation: Some(
                    "Enter "@ + self.action().label().unwrap() + "  (e.g. "@
                        + self.action().placeholder() + ")"@,
                ),
                ..self
            }
        } else {
            self
        }
    }

    /// The form after a key.
    pub open spec fn after_key(self, key: Key, ctrl: bool, shift: bool) -> AppModel {
        match key {
            Key::Char(c) => if ctrl && c == 'c' {
                self
            } else if self.in_text() {
                if ctrl && c == 'w' {
                    self.edited(|f: FieldModel| f.word_deleted())
                } else {
                    self.told(None).edited(|f: FieldModel| f.inserted(c))
                }
            } else if c == 'j' {
                self.down()
            } else if c == 'k' {
                self.up()
            } else {
                self
            },
            Key::Tab => if shift {
                self.tab_prev()
            } else {
                self.tab_next()
            },
            Key::Up => self.up(),
            Key::Down => self.down(),
            Key::Left => self.edited(|f: FieldModel| f.left()),
            Key::Right => self.edited(|f: FieldModel| f.right()),
            Key::Home => self.edited(|f: FieldModel| f.home()),
            Key::End => self.edited(|f: FieldModel| f.end()),
            Key::Backspace => self.edited(|f: FieldModel| f.backspaced()).told(None),
            Key::Delete => self.edited(|f: FieldModel| f.right().backspaced()),
            Key::Enter => if self.focus is Recent {
                self.select_recent()
            } else if self.ready() {
                self
            } else {
                self.asked()
            },
            Key::Esc | Key::Other => self,
        }
    }

    /// What is done after a key.
    pub open spec fn step(self, key: Key, ctrl: bool) -> StepModel {
        match key {
            Key::Char(c) => if (ctrl && c == 'c') || (c == 'q' && !self.in_text()) {
                StepModel::Quit
            } else {
                StepModel::Stay
            },
            Key::Esc => StepModel::Quit,
            Key::Enter => if !(self.focus is Recent) && self.ready() {
                StepModel::Run(self.arguments(), self.command())
            } else {
                StepModel::Stay
            },
            _ => StepModel::Stay,
        }
    }
}

/// Every key leaves the cursors in their texts, and an action chosen.
pub proof fn law_form_stays_sound(m: AppModel, key: Key, ctrl: bool, shift: bool)
    requires
        m.wf(),
    ensures
        m.after_key(key, ctrl, shift).wf(),
{
    lemma_word_deleted_wf(m.host);
    lemma_word_deleted_wf(m.param);
}

proof fn lemma_word_deleted_wf(f: FieldModel)
    requires
        f.wf(),
    ensures
        f.word_deleted().wf(),
{
    let head = f.text.take(f.cursor);
    lemma_without(f.text, f.cursor);
    lemma_without(f.text, without_word(head).len() as int);
}

/// The keys always go to a panel that is shown.
pub proof fn law_focus_stays_shown(m: AppModel, key: Key, ctrl: bool, shift: bool)
    requires
        m.wf(),
        m.focus_shown(),
    ensures
        m.after_key(key, ctrl, shift).focus_shown(),
{
}

/// A command is run only where there is a host, and a parameter where one is needed.
pub proof fn law_run_only_when_ready(m: AppModel, key: Key, ctrl: bool)
    ensures
        m.step(key, ctrl) is Run ==> m.ready() && key is Enter,
{
}

impl App {
    fn list_up(&mut self)
        requires
            old(self)@.wf(),
        ensures
            final(self)@ == old(self)@.up(),
    {
        match self.focus {
            Focus::Actions => self.action_up(),
            Focus::Recent => self.recent_up(),
            _ => {},
        }
    }

    fn list_down(&mut self)
        requires
            old(self)@.wf(),
        ensures
            final(self)@ == old(self)@.down(),
    {
        match self.focus {
            Focus::Actions => self.action_down(),
            Focus::Recent => self.recent_down(),
            _ => {},
        }
    }

    fn ask(&mut self)
        requires
            old(self)@.wf(),
        ensures
            final(self)@ == old(self)@.asked(),
    {
        if self.no_host() {
            self.validation = Some(text::owned("Enter a host first  (user@hostname)"));
            self.focus = Focus::Host;
        } else if self.no_param() {
            let label: &str = match self.action().param_label() {
                Some(l) => l,
                None => "param",
            };
            self.validation = Some(
                text::glue5(
                    "Enter ",
                    label,
                    "  (e.g. ",
                    self.action().param_placeholder(),
                    ")",
                ),
            );
            self.focus = Focus::Param;
        }
    }

    fn delete(&mut self)
        requires
            old(self)@.wf(),
        ensures
            final(self)@ == old(self)@.edited(|f: FieldModel| f.right().backspaced()),
    {
        match self.focus {
            Focus::Host => {
                self.host.cursor_right();
                self.host.backspace();
            },
            Focus::Param => {
                self.param.cursor_right();
                self.param.backspace();
            },
            _ => {},
        }
    }

    /// Whether a field is being edited.
    pub fn in_text(&self) -> (r: bool)
        ensures
            r == self@.in_text(),
    {
        match self.focus {
            Focus::Host | Focus::Param => true,
            _ => false,
        }
    }

    fn on_char(&mut self, c: char, ctrl: bool) -> (step: Step)
        requires
            old(self)@.wf(),
        ensures
            final(self)@ == old(self)@.after_key(Key::Char(c), ctrl, false),
            step@ == old(self)@.step(Key::Char(c), ctrl),
    {
        if ctrl && c == 'c' {
            return Step::Quit;
        }
        if self.in_text() {
            if ctrl && c == 'w' {
                self.delete_word();
            } else {
                self.validation = None;
                self.insert_char(c);
            }
        } else if c == 'q' {
            return Step::Quit;
        } else if c == 'j' {
            self.list_down();
        } else if c == 'k' {
            self.list_up();
        }
        Step::Stay
    }

    /// Does what a key asks for.
    pub fn on_key(&mut self, key: Key, ctrl: bool, shift: bool) -> (step: Step)
        requires
            old(self)@.wf(),
        ensures
            final(self)@ == old(self)@.after_key(key, ctrl, shift),
            final(self)@.wf(),
            step@ == old(self)@.step(key, ctrl),
    {
        proof {
            law_form_stays_sound(self@, key, ctrl, shift);
        }
        match key {
            Key::Char(c) => {
                return self.on_char(c, ctrl);
            },
            Key::Tab => {
                if shift {
                    self.tab_prev();
                } else {
                    self.tab_next();
                }
            },
            Key::Up => self.list_up(),
            Key::Down => self.list_down(),
            Key::Left => self.cursor_left(),
            Key::Right => self.cursor_right(),
            Key::Home => self.cursor_home(),
            Key::End => self.cursor_end(),
            Key::Backspace => {
                self.backspace();
                self.validation = None;
            },
            Key::Delete => self.delete(),
            Key::Enter => {
                if self.focus == Focus::Recent {
                    self.select_recent();
                } else if self.ready() {
                    return Step::Run(self.build_args(), self.preview_command());
                } else {
                    self.ask();
                }
            },
            Key::Esc => {
                return Step::Quit;
            },
            Key::Other => {},
        }
        Step::Stay
    }
}

/// The widths and heights of the panels.
#[derive(Debug, Clone, Copy, PartialEq, Eq, Structural)]
pub struct PanelSizes {
    pub recent_width: u16,
    pub action_height: u16,
    pub param_height: u16,
    pub last_run_height: u16,
}

/// A text field as it is drawn.
#[derive(Debug)]
pub enum InputLine {
    /// The text before the cursor, the character under it, and the text after it.
    Editing(String, String, String),
    /// An example of what can be typed.
    Placeholder(String),
    /// The text.
    Plain(String),
}

/// How a row of the action list stands out.
#[derive(Debug, Clone, Copy, PartialEq, Eq, Structural)]
pub enum RowLook {
    /// The chosen row of the list that has the keys.
    Active,
    /// The chosen row.
    Chosen,
    /// Another row.
    Plain,
}

/// The line below the form.
#[derive(Debug)]
pub enum StatusLine {
    /// What is missing, after an attempt to start.
    Warning(String),
    /// The command that would be run.
    Command(String),
    /// What to do next.
    Hint(String),
    /// Nothing.
    Empty,
}

/// The line below the form.
#[verifier::ext_equal]
pub enum StatusModel {
    Warning(Seq<char>),
    Command(Seq<char>),
    Hint(Seq<char>),
    Empty,
}

impl View for StatusLine {
    type V = StatusModel;

    open spec fn view(&self) -> StatusModel {
        match self {
            StatusLine::Warning(s) => StatusModel::Warning(s@),
            StatusLine::Command(s) => StatusModel::Command(s@),
            StatusLine::Hint(s) => StatusModel::Hint(s@),
            StatusLine::Empty => StatusModel::Empty,
        }
    }
}

impl AppModel {
    /// The line below the form.
    pub open spec fn status(self) -> StatusModel {
        match self.validation {
            Some(m) => StatusModel::Warning("  "@ + m),
            None => if self.ready() {
                StatusModel::Command(self.command())
            } else if self.no_host() {
                StatusModel::Hint("  type a host above  (user@hostname)"@)
            } else if self.no_param() {
                StatusModel::Hint("  enter "@ + self.action().placeholder() + " above to continue"@)
            } else {
                StatusModel::Empty
            },
        }
    }
}

/// A field as it is drawn.
pub fn render_input(field: &Field, focused: bool, placeholder: &str) -> (line: InputLine)
    requires
        field@.wf(),
    ensures
        if focused {
            &&& line matches InputLine::Editing(before, at, after)
            &&& before@ == field.text@.take(field.cursor as int)
            &&& if field.cursor < field.text@.len() {
                at@ == seq![field.text@[field.cursor as int]] && after@ == field.text@.skip(
                    field.cursor + 1,
                )
            } else {
                at@ == " "@ && after@ == Seq::<char>::empty()
            }
        } else if field.text@.len() == 0 {
            &&& line matches InputLine::Placeholder(s)
            &&& s@ == " "@ + placeholder@
        } else {
            &&& line matches InputLine::Plain(s)
            &&& s@ == field.text@
        },
{
    let n: usize = field.text.len();
    if focused {
        let before: String = text::cut(&field.text, 0, field.cursor);
        assert(before@ =~= field.text@.take(field.cursor as int));
        if field.cursor < n {
            let at: String = text::cut(&field.text, field.cursor, field.cursor + 1);
            assert(at@ =~= seq![field.text@[field.cursor as int]]);
            let after: String = text::cut(&field.text, field.cursor + 1, n);
            assert(after@ =~= field.text@.skip(field.cursor + 1));
            InputLine::Editing(before, at, after)
        } else {
            let after: String = String::new();
            assert(after@ =~= Seq::<char>::empty());
            InputLine::Editing(before, text::owned(" "), after)
        }
    } else if n == 0 {
        InputLine::Placeholder(text::joined(" ", placeholder))
    } else {
        InputLine::Plain(text::string_of(&field.text))
    }
}

/// A row of the list of connections: the host, the command, and the time.
pub fn recent_row(r: &Recent) -> (row: (String, String, String))
    requires
        cuttable(r.remote@, 18),
        ts_cuttable(r.ts@),
    ensures
        row.0@ == short_text(r.remote@, 18),
        row.1@ == " "@ + text::padded(r.subcommand@, 6) + " "@,
        row.2@ == short_ts(r.ts@),
{
    let mut command: String = text::owned(" ");
    text::push_padded(&mut command, r.subcommand.as_str(), 6);
    command.append(" ");
    (truncate(r.remote.as_str(), 18), command, format_ts(r.ts.as_str()))
}

impl App {
    /// The widths and heights of the panels: those that are not shown have none.
    pub fn sizes(&self) -> (s: PanelSizes)
        requires
            self@.wf(),
        ensures
            s.recent_width == if self@.recent.len() > 0 {
                30
            } else {
                0int
            },
            s.action_height == ACTION_COUNT + 2,
            s.param_height == if self@.needs_param() {
                3
            } else {
                0int
            },
            s.last_run_height == if self@.last_run is Some {
                1
            } else {
                0int
            },
    {
        PanelSizes {
            recent_width: if self.recent.len() > 0 {
                30
            } else {
                0
            },
            action_height: 11,
            param_height: if self.needs_param() {
                3
            } else {
                0
            },
            last_run_height: match self.last_run {
                Some(_) => 1,
                None => 0,
            },
        }
    }

    /// A row of the action list: the name, the description, and how it stands out.
    pub fn action_row(&self, row: usize) -> (out: (String, &'static str, RowLook))
        requires
            row < ACTION_COUNT,
        ensures
            out.0@ == " "@ + text::padded(action_in(row as int).name_text(), 10),
            out.1@ == action_in(row as int).desc_text(),
            out.2 == if self@.action_idx != row {
                RowLook::Plain
            } else if self@.focus is Actions {
                RowLook::Active
            } else {
                RowLook::Chosen
            },
    {
        let a: Action = action_at(row);
        let mut name: String = text::owned(" ");
        text::push_padded(&mut name, a.name(), 10);
        let look: RowLook = if self.action_idx != row {
            RowLook::Plain
        } else if self.focus == Focus::Actions {
            RowLook::Active
        } else {
            RowLook::Chosen
        };
        (name, a.desc(), look)
    }

    /// What is said of the last command, and whether it went well.
    pub fn last_run_suffix(&self) -> (out: Option<(bool, String)>)
        ensures
            match (out, self@.last_run) {
                (Some(t), Some(r)) => t.0 == (r.1 == 0) && t.1@ == if r.1 == 0 {
                    ""@
                } else {
                    "  (exit "@ + text::signed_decimal(r.1 as int) + ")"@
                },
                (None, None) => true,
                _ => false,
            },
    {
        match &self.last_run {
            Some((_cmd, code)) => {
                if *code == 0 {
                    Some((true, text::owned("")))
                } else {
                    let mut s: String = text::owned("  (exit ");
                    text::push_signed(&mut s, *code as i64);
                    s.append(")");
                    Some((false, s))
                }
            },
            None => None,
        }
    }

    /// The line below the form.
    pub fn status_line(&self) -> (line: StatusLine)
        requires
            self@.wf(),
        ensures
            line@ == self@.status(),
    {
        match &self.validation {
            Some(m) => {
                return StatusLine::Warning(text::joined("  ", m.as_str()));
            },
            None => {},
        }
        if self.ready() {
            StatusLine::Command(self.preview_command())
        } else if self.no_host() {
            StatusLine::Hint(text::owned("  type a host above  (user@hostname)"))
        } else if self.no_param() {
            StatusLine::Hint(
                text::glue3("  enter ", self.action().param_placeholder(), " above to continue"),
            )
        } else {
            StatusLine::Empty
        }
    }
}

/// The actions stand in the list in this order, and all but two of them need something more than
/// a host.
pub proof fn law_actions(a: Action)
    ensures
        action_in(0) == Action::Shell,
        action_in(1) == Action::Forward,
        action_in(2) == Action::Tunnel,
        action_in(3) == Action::Fwd,
        action_in(4) == Action::Copy,
        action_in(5) == Action::Sync,
        action_in(6) == Action::Ping,
        action_in(7) == Action::Proxy,
        action_in(8) == Action::Scan,
        a.label() is None <==> a == Action::Shell || a == Action::Ping,
{
}

/// What each action starts, given a host and a parameter without white space at their ends.
pub proof fn law_commands(host: Seq<char>, param: Seq<char>)
    requires
        text::trimmed(host) == host,
        text::trimmed(param) == param,
    ensures
        Action::Shell.arguments(host, param) == seq!["shell"@, host],
        Action::Forward.arguments(host, param) == seq!["forward"@, param, host],
        Action::Tunnel.arguments(host, param) == seq!["tunnel"@] + text::words(param) + seq![host],
        Action::Ping.arguments(host, param) == seq!["ping"@, host],
        Action::Proxy.arguments(host, param) == seq![
            "proxy"@,
            host,
            "--port"@,
            if param.len() == 0 {
                "1080"@
            } else {
                param
            },
        ],
        param.len() > 0 ==> Action::Scan.arguments(host, param) == seq![
            "scan"@,
            host,
            "--ports"@,
            param,
        ],
        param.len() == 0 ==> Action::Scan.arguments(host, param) == seq!["scan"@, host],
        param.contains('@') ==> Action::Sync.arguments(host, param) == seq!["sync"@, param, host],
        !param.contains('@') ==> Action::Sync.arguments(host, param) == seq![
            "sync"@,
            param,
            host + ":"@,
        ],
        param.contains('@') ==> Action::Copy.arguments(host, param) == seq!["cp"@, param, host],
        !param.contains('@') && !host.contains(':') ==> Action::Copy.arguments(host, param)
            == seq!["cp"@, param, host + ":"@],
{
}

/// A reverse forward takes the remote port and the local port of its parameter.
pub proof fn law_fwd_command(host: Seq<char>, remote: u16, local: u16)
    requires
        text::trimmed(host) == host,
    ensures
        Action::Fwd.arguments(
            host,
            text::decimal(remote as nat) + seq![':'] + text::decimal(local as nat),
        ) == seq!["fwd"@, host + ":"@ + text::decimal(remote as nat), text::decimal(local as nat)],
        Action::Fwd.arguments(host, text::decimal(remote as nat)) == seq![
            "fwd"@,
            host + ":"@ + text::decimal(remote as nat),
            "8080"@,
        ],
{
    let r = text::decimal(remote as nat);
    let l = text::decimal(local as nat);
    text::lemma_decimal(remote as nat);
    text::lemma_decimal(local as nat);
    assert('0' <= r[0] <= '9' && '0' <= r[r.len() - 1] <= '9');
    assert('0' <= l[l.len() - 1] <= '9');
    assert((r + seq![':'] + l).last() == l[l.len() - 1]);
    assert(text::trimmed(r) == r);
    assert(text::trimmed(r + seq![':'] + l) == r + seq![':'] + l);
    crate::cli::forward::lemma_port_text(remote, ':');
    crate::cli::forward::lemma_port_text(local, ':');
    crate::cli::forward::lemma_first_sign(
        text::decimal(remote as nat),
        ':',
        text::decimal(local as nat),
    );
}

/// A form is ready exactly if it has a host and, where the action needs one and has no usual one,
/// a parameter.
pub proof fn law_ready(m: AppModel)
    ensures
        m.ready() <==> text::trimmed(m.host.text).len() > 0 && (m.action() is Shell
            || m.action() is Ping || m.action() is Proxy || m.action() is Scan || text::trimmed(
            m.param.text,
        ).len() > 0),
{
}

/// The enter key runs a form that is ready, and else asks for what is missing and puts the cursor
/// there.
pub proof fn law_enter(m: AppModel, ctrl: bool, shift: bool)
    requires
        !(m.focus is Recent),
    ensures
        m.ready() ==> m.step(Key::Enter, ctrl) == StepModel::Run(
            m.arguments(),
            "seam "@ + text::join(m.arguments(), " "@),
        ) && m.after_key(Key::Enter, ctrl, shift) == m,
        !m.ready() ==> m.step(Key::Enter, ctrl) == StepModel::Stay && m.after_key(
            Key::Enter,
            ctrl,
            shift,
        ).validation is Some,
        text::trimmed(m.host.text).len() == 0 ==> m.after_key(
            Key::Enter,
            ctrl,
            shift,
        ).focus == Focus::Host,
        !m.ready() && text::trimmed(m.host.text).len() > 0 ==> m.after_key(
            Key::Enter,
            ctrl,
            shift,
        ).focus == Focus::Param,
{
}

/// The form is left with escape, with control-c, and with q outside the fields, and by no other
/// key.
pub proof fn law_quit(m: AppModel, key: Key, ctrl: bool)
    ensures
        m.step(key, ctrl) == StepModel::Quit <==> key is Esc || (key matches Key::Char(c) && ((ctrl
            && c == 'c') || (c == 'q' && (m.focus is Actions || m.focus is Recent)))),
{
}

/// A character that is typed into a field stands before the cursor, and nothing else changes but
/// that a message goes.
pub proof fn law_typing(m: AppModel, c: char, shift: bool)
    requires
        m.wf(),
    ensures
        m.focus is Host ==> ({
            let a = m.after_key(Key::Char(c), false, shift);
            &&& a.host.text == m.host.text.take(m.host.cursor) + seq![c] + m.host.text.skip(
                m.host.cursor,
            )
            &&& a.host.cursor == m.host.cursor + 1
            &&& a.param == m.param
            &&& a.validation is None
            &&& a.focus == m.focus
        }),
        m.focus is Param ==> ({
            let a = m.after_key(Key::Char(c), false, shift);
            &&& a.param.text == m.param.text.take(m.param.cursor) + seq![c] + m.param.text.skip(
                m.param.cursor,
            )
            &&& a.param.cursor == m.param.cursor + 1
            &&& a.host == m.host
            &&& a.validation is None
        }),
        m.focus is Actions || m.focus is Recent ==> m.after_key(Key::Char(c), false, shift).host
            == m.host,
{
    if m.focus is Host {
        assert(m.host.text.insert(m.host.cursor, c) =~= m.host.text.take(m.host.cursor) + seq![c]
            + m.host.text.skip(m.host.cursor));
    }
    if m.focus is Param {
        assert(m.param.text.insert(m.param.cursor, c) =~= m.param.text.take(m.param.cursor) + seq![
            c,
        ] + m.param.text.skip(m.param.cursor));
    }
}

/// Backspace takes away the character before the cursor, delete the one behind it; the cursor
/// moves within the text and by one character, or to an end of it.
pub proof fn law_editing(f: FieldModel, a: Seq<char>, c: char, b: Seq<char>)
    requires
        f.wf(),
        f.text == a + seq![c] + b,
    ensures
        f.cursor == a.len() + 1 ==> f.backspaced() == (FieldModel {
            text: a + b,
            cursor: a.len() as int,
        }),
        f.cursor == a.len() ==> f.right().backspaced() == (FieldModel {
            text: a + b,
            cursor: a.len() as int,
        }),
        f.cursor == 0 ==> f.backspaced() == f && f.left() == f,
        f.cursor > 0 ==> f.left() == (FieldModel { cursor: f.cursor - 1, ..f }),
        f.cursor < f.text.len() ==> f.right() == (FieldModel { cursor: f.cursor + 1, ..f }),
        f.cursor == f.text.len() ==> f.right() == f,
        f.home() == (FieldModel { cursor: 0, ..f }),
        f.end() == (FieldModel { cursor: f.text.len() as int, ..f }),
{
    assert(f.text.remove(a.len() as int) =~= a + b);
}

/// Deleting a word takes away the word before the cursor with the blanks or slashes before it,
/// and leaves the rest.
pub proof fn law_word_deleted(x: Seq<char>, gap: Seq<char>, word: Seq<char>, rest: Seq<char>)
    requires
        x.len() == 0 || (x.last() != ' ' && x.last() != '/'),
        gap.len() > 0 || x.len() == 0,
        forall|i: int| 0 <= i < gap.len() ==> #[trigger] gap[i] == ' ' || gap[i] == '/',
        forall|i: int| 0 <= i < word.len() ==> #[trigger] word[i] != ' ' && word[i] != '/',
    ensures
        (FieldModel {
            text: x + gap + word + rest,
            cursor: (x + gap + word).len() as int,
        }).word_deleted() == (FieldModel { text: x + rest, cursor: x.len() as int }),
{
    let all = x + gap + word;
    let t = all + rest;
    assert(t.take(all.len() as int) =~= all);
    assert(t.skip(all.len() as int) =~= rest);
    lemma_without_word(x + gap, word);
    lemma_without_gap(x, gap);
    assert(x + gap + word + rest =~= t);
}

proof fn lemma_without_word(x: Seq<char>, word: Seq<char>)
    requires
        x.len() == 0 || x.last() == ' ' || x.last() == '/',
        forall|i: int| 0 <= i < word.len() ==> #[trigger] word[i] != ' ' && word[i] != '/',
    ensures
        without_word(x + word) == x,
    decreases word.len(),
{
    if word.len() == 0 {
        assert(x + word =~= x);
    } else {
        let w = word.drop_last();
        assert forall|i: int| 0 <= i < w.len() implies #[trigger] w[i] != ' ' && w[i] != '/' by {
            assert(w[i] == word[i]);
        }
        lemma_without_word(x, w);
        assert(word[word.len() - 1] != ' ' && word[word.len() - 1] != '/');
        assert((x + word).drop_last() =~= x + w);
    }
}

proof fn lemma_without_gap(x: Seq<char>, gap: Seq<char>)
    requires
        x.len() == 0 || (x.last() != ' ' && x.last() != '/'),
        forall|i: int| 0 <= i < gap.len() ==> #[trigger] gap[i] == ' ' || gap[i] == '/',
    ensures
        without_gap(x + gap) == x,
    decreases gap.len(),
{
    if gap.len() == 0 {
        assert(x + gap =~= x);
    } else {
        let g = gap.drop_last();
        assert forall|i: int| 0 <= i < g.len() implies #[trigger] g[i] == ' ' || g[i] == '/' by {
            assert(g[i] == gap[i]);
        }
        lemma_without_gap(x, g);
        assert(gap[gap.len() - 1] == ' ' || gap[gap.len() - 1] == '/');
        assert((x + gap).drop_last() =~= x + g);
    }
}

/// The arrows and the letters j and k move by one row in the list that has the focus, and stay at
/// its ends; another action begins with an empty parameter.
pub proof fn law_lists(m: AppModel, ctrl: bool, shift: bool)
    requires
        m.wf(),
    ensures
        m.focus is Actions && m.action_idx < 8 ==> ({
            let a = m.after_key(Key::Down, ctrl, shift);
            a.action_idx == m.action_idx + 1 && a.param.text.len() == 0 && a.host == m.host
        }),
        m.focus is Actions && m.action_idx > 0 ==> ({
            let a = m.after_key(Key::Up, ctrl, shift);
            a.action_idx == m.action_idx - 1 && a.param.text.len() == 0 && a.host == m.host
        }),
        m.focus is Actions && m.action_idx == 8 ==> m.after_key(Key::Down, ctrl, shift) == m,
        m.focus is Actions && m.action_idx == 0 ==> m.after_key(Key::Up, ctrl, shift) == m,
        m.focus is Recent && (m.selected matches Some(i) && i + 1 < m.recent.len()) ==> m.after_key(
            Key::Down,
            ctrl,
            shift,
        ).selected == Some(m.selected.unwrap() + 1),
        m.focus is Recent && (m.selected matches Some(i) && i > 0) ==> m.after_key(
            Key::Up,
            ctrl,
            shift,
        ).selected == Some(m.selected.unwrap() - 1),
        m.focus is Actions || m.focus is Recent ==> m.after_key(Key::Char('j'), false, shift)
            == m.after_key(Key::Down, false, shift) && m.after_key(Key::Char('k'), false, shift)
            == m.after_key(Key::Up, false, shift),
        m.focus is Host || m.focus is Param ==> m.after_key(Key::Down, ctrl, shift) == m
            && m.after_key(Key::Up, ctrl, shift) == m,
{
}

/// The tab key goes through the panels that are there, in this order.
pub proof fn law_tab_order(m: AppModel, ctrl: bool)
    ensures
        m.focus is Host ==> m.after_key(Key::Tab, ctrl, false).focus == Focus::Actions,
        m.focus is Actions ==> m.after_key(Key::Tab, ctrl, false).focus == if m.needs_param() {
            Focus::Param
        } else if m.recent.len() > 0 {
            Focus::Recent
        } else {
            Focus::Host
        },
        m.focus is Param ==> m.after_key(Key::Tab, ctrl, false).focus == if m.recent.len() > 0 {
            Focus::Recent
        } else {
            Focus::Host
        },
        m.focus is Recent ==> m.after_key(Key::Tab, ctrl, false).focus == Focus::Host,
        m.focus_shown() ==> m.after_key(Key::Tab, ctrl, false).after_key(Key::Tab, ctrl, true) == m,
{
    if m.focus_shown() {
        law_tab_round_trip(m);
    }
}

/// A connection of the past that is chosen becomes the host, and the focus goes to the actions.
pub proof fn law_recent_chosen(m: AppModel, i: int, ctrl: bool, shift: bool)
    requires
        m.focus is Recent,
        m.selected == Some(i),
        0 <= i < m.recent.len(),
    ensures
        ({
            let a = m.after_key(Key::Enter, ctrl, shift);
            &&& a.host.text == m.recent[i].remote
            &&& a.host.cursor == m.recent[i].remote.len()
            &&& a.focus == Focus::Actions
            &&& a.param == m.param
            &&& a.action_idx == m.action_idx
            &&& m.step(Key::Enter, ctrl) == StepModel::Stay
        }),
{
}

/// The connections that are listed come from the end of the log, the latest first; one is listed
/// exactly if it can be listed, is the latest with its key, and fewer than eight are listed before
/// it.
pub proof fn law_recent_exactly(log: Seq<RecentModel>, from: int, i: int)
    requires
        0 <= from <= i < log.len() <= usize::MAX,
    ensures
        listed_from(log, from).contains(i as usize) <==> listable(log[i]) && listed_from(
            log,
            i + 1,
        ).len() < 8 && (forall|j: int|
            i < j < log.len() && listable(#[trigger] log[j]) ==> recent_key(log[j]) != recent_key(
                log[i],
            )),
        listed_from(log, from).len() <= 8,
        forall|a: int, b: int|
            0 <= a < b < listed_from(log, from).len() ==> listed_from(log, from)[a] > listed_from(
                log,
                from,
            )[b],
    decreases log.len() - from,
{
    lemma_listed(log, from);
    lemma_listed(log, i + 1);
    if from < i {
        law_recent_exactly(log, from + 1, i);
        let later = listed_from(log, from + 1);
        let now = listed_from(log, from);
        if later.contains(i as usize) {
            let a = choose|a: int| 0 <= a < later.len() && later[a] == i as usize;
            assert(now[a] == i as usize);
        }
        if now.contains(i as usize) {
            let a = choose|a: int| 0 <= a < now.len() && now[a] == i as usize;
            if a >= later.len() {
                assert(now[a] == from as usize);
            }
            assert(later[a] == i as usize);
        }
    } else {
        let later = listed_from(log, i + 1);
        let now = listed_from(log, i);
        if later.len() < 8 {
            if has_key(log, later, recent_key(log[i])) {
                let a = choose|a: int|
                    0 <= a < later.len() && recent_key(log[#[trigger] later[a] as int])
                        == recent_key(log[i]);
                let j = later[a] as int;
                assert(i < j < log.len() && listable(log[j]));
            }
            assert forall|j: int|
                i < j < log.len() && listable(#[trigger] log[j]) && !has_key(
                    log,
                    later,
                    recent_key(log[i]),
                ) implies recent_key(log[j]) != recent_key(log[i]) by {
                assert(has_key(log, later, recent_key(log[j])));
            }
        }
        if now.contains(i as usize) {
            let a = choose|a: int| 0 <= a < now.len() && now[a] == i as usize;
            if a < later.len() {
                assert(later[a] >= i + 1);
            }
        }
        if now.len() > later.len() {
            assert(now[later.len() as int] == i as usize);
        }
    }
}

proof fn lemma_listed(log: Seq<RecentModel>, from: int)
    requires
        0 <= from <= log.len() <= usize::MAX,
    ensures
        listed_from(log, from).len() <= 8,
        forall|a: int|
            0 <= a < listed_from(log, from).len() ==> from <= #[trigger] listed_from(log, from)[a]
                < log.len() && listable(log[listed_from(log, from)[a] as int]),
        forall|a: int, b: int|
            0 <= a < b < listed_from(log, from).len() ==> listed_from(log, from)[a] > listed_from(
                log,
                from,
            )[b],
        listed_from(log, from).len() < 8 ==> forall|j: int|
            from <= j < log.len() && listable(#[trigger] log[j]) ==> has_key(
                log,
                listed_from(log, from),
                recent_key(log[j]),
            ),
    decreases log.len() - from,
{
    if from < log.len() {
        lemma_listed(log, from + 1);
        let later = listed_from(log, from + 1);
        let now = listed_from(log, from);
        if now.len() < 8 {
            assert forall|j: int| from <= j < log.len() && listable(#[trigger] log[j]) implies has_key(
                log,
                now,
                recent_key(log[j]),
            ) by {
                if j > from {
                    assert(has_key(log, later, recent_key(log[j])));
                    let a = choose|a: int|
                        0 <= a < later.len() && recent_key(log[#[trigger] later[a] as int])
                            == recent_key(log[j]);
                    assert(now[a] == later[a]);
                } else if now.len() > later.len() {
                    assert(now[later.len() as int] == from as usize);
                }
            }
        }
    }
}

/// A connection can be listed exactly if its remote names a user, and it was asked for by one.
pub proof fn law_listable(r: RecentModel)
    ensures
        listable(r) <==> (exists|i: int| 0 <= i < r.remote.len() && r.remote[i] == '@')
            && !(exists|rest: Seq<char>| r.subcommand == #[trigger] ("_"@ + rest)) && r.subcommand
            != "recv"@ && r.subcommand != "serve"@,
{
    text::law_contains(r.subcommand, "_"@);
}

/// After a command the form shows how it went, and the list of connections as it is now, with the
/// selection within it.
pub proof fn law_command_returned(
    m: AppModel,
    command: Seq<char>,
    code: i32,
    recent: Seq<RecentModel>,
)
    requires
        recent.len() > 0,
        m.selected matches Some(i) ==> i >= 0,
    ensures
        ({
            let a = m.returned(command, code, recent);
            &&& a.last_run == Some((command, code))
            &&& a.recent == recent
            &&& a.validation is None
            &&& a.selected matches Some(i) && 0 <= i < recent.len()
            &&& a.host == m.host && a.param == m.param && a.action_idx == m.action_idx
                && a.focus == m.focus
        }),
{
}

/// A text that fits is shown as it is.
pub proof fn law_short_texts(s: Seq<char>, max: int)
    ensures
        utf8::encode_utf8(s).len() <= max ==> short_text(s, max) == s,
        utf8::encode_utf8(s).len() < 16 ==> short_ts(s) == s,
{
}

/// The status line warns, else shows the command of a form that is ready, else says what is
/// missing.
pub proof fn law_status(m: AppModel)
    ensures
        m.status() is Warning <==> m.validation is Some,
        m.status() is Command <==> m.validation is None && m.ready(),
        m.validation is None && m.ready() ==> m.status() == StatusModel::Command(
            "seam "@ + text::join(m.arguments(), " "@),
        ),
{
}

/// Every line of a log that is JSON is a connection, with the texts of its fields, and every other
/// line is passed over; the order stays.
pub proof fn law_log_lines(lines: Seq<Seq<char>>, line: Seq<char>, s: Seq<char>)
    ensures
        formats::json_text(utf8::encode_utf8(line), "remote"@) is Ok ==> records(lines.push(line))
            == records(lines).push(recorded(line)),
        formats::json_text(utf8::encode_utf8(line), "remote"@) is Err ==> records(lines.push(line))
            == records(lines),
        formats::json_text(utf8::encode_utf8(line), "remote"@) == Ok::<
            Option<Seq<char>>,
            Seq<char>,
        >(Some(s)) ==> recorded(line).remote == s,
        formats::json_text(utf8::encode_utf8(line), "subcommand"@) == Ok::<
            Option<Seq<char>>,
            Seq<char>,
        >(Some(s)) ==> recorded(line).subcommand == s,
        formats::json_text(utf8::encode_utf8(line), "ts"@) == Ok::<Option<Seq<char>>, Seq<char>>(
            Some(s),
        ) ==> recorded(line).ts == s,
        formats::json_text(utf8::encode_utf8(line), "ts"@) == Ok::<Option<Seq<char>>, Seq<char>>(
            None,
        ) ==> recorded(line).ts.len() == 0,
        records(Seq::empty()) == Seq::<RecentModel>::empty(),
{
    assert(lines.push(line).drop_last() =~= lines);
}

/// The list that is shown is made of connections of the log, at most eight, and the latest one
/// that can be listed stands first.
pub proof fn law_listed(log: Seq<RecentModel>, i: int)
    requires
        log.len() <= usize::MAX,
        0 <= i < log.len(),
        listable(log[i]),
        forall|j: int| i < j < log.len() ==> !listable(#[trigger] log[j]),
    ensures
        0 < listed(log).len() <= 8,
        listed(log)[0] == log[i],
        forall|a: int| 0 <= a < listed(log).len() ==> log.contains(#[trigger] listed(log)[a]),
{
    lemma_listed(log, 0);
    lemma_first_listed(log, 0, i);
    assert forall|a: int| 0 <= a < listed(log).len() implies log.contains(#[trigger] listed(log)[a]) by {
        let p = listed_from(log, 0)[a] as int;
        assert(log[p] == listed(log)[a]);
    }
}

proof fn lemma_first_listed(log: Seq<RecentModel>, from: int, i: int)
    requires
        log.len() <= usize::MAX,
        0 <= from <= log.len(),
        0 <= i < log.len(),
        listable(log[i]),
        forall|j: int| i < j < log.len() ==> !listable(#[trigger] log[j]),
    ensures
        from > i ==> listed_from(log, from).len() == 0,
        from <= i ==> listed_from(log, from).len() > 0 && listed_from(log, from)[0] == i,
    decreases log.len() - from,
{
    if from < log.len() {
        lemma_first_listed(log, from + 1, i);
    }
}

} // verus!
