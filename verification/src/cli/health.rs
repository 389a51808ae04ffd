//! The health check of a remote server: what each check finds, and what it comes to.

use vstd::prelude::*;
use vstd::string::*;
use crate::bytes;
use crate::cli::formats;
use crate::text;

verus! {

/// How a check went.
#[derive(Debug, Clone, Copy, PartialEq, Eq, Structural)]
pub enum CheckStatus {
    Pass,
    Warn,
    Fail,
}

impl CheckStatus {
    /// The word for the status.
    pub open spec fn word(self) -> Seq<char> {
        match self {
            CheckStatus::Pass => "PASS"@,
            CheckStatus::Warn => "WARN"@,
            CheckStatus::Fail => "FAIL"@,
        }
    }

    /// The word for the status.
    pub fn symbol(&self) -> (s: &'static str)
        ensures
            s@ == self.word(),
    {
        match self {
            CheckStatus::Pass => "PASS",
            CheckStatus::Warn => "WARN",
            CheckStatus::Fail => "FAIL",
        }
    }

    /// Whether the check failed.
    pub fn is_fail(&self) -> (r: bool)
        ensures
            r == (*self is Fail),
    {
        match self {
            CheckStatus::Fail => true,
            _ => false,
        }
    }
}

/// What a check found.
#[derive(Debug)]
pub struct CheckResult {
    pub name: &'static str,
    pub status: CheckStatus,
    pub detail: String,
}

/// What a check found.
#[verifier::ext_equal]
pub struct CheckModel {
    pub name: Seq<char>,
    pub status: CheckStatus,
    pub detail: Seq<char>,
}

impl View for CheckResult {
    type V = CheckModel;

    open spec fn view(&self) -> CheckModel {
        CheckModel { name: self.name@, status: self.status, detail: self.detail@ }
    }
}

/// How many probes are sent at most.
pub const PING_MAX: u32 = 20;

/// The check of a connection that was made.
pub fn connection_check(millis: u64) -> (r: CheckResult)
    ensures
        r@ == (CheckModel {
            name: "connection"@,
            status: CheckStatus::Pass,
            detail: "post-quantum handshake in "@ + text::decimal(millis as nat) + "ms"@,
        }),
{
    CheckResult {
        name: "connection",
        status: CheckStatus::Pass,
        detail: text::glue3(
            "post-quantum handshake in ",
            text::decimal_text(millis).as_str(),
            "ms",
        ),
    }
}

/// The check of the server's key.
pub fn fingerprint_check(key: Option<[u8; 32]>) -> (r: CheckResult)
    ensures
        r@ == match key {
            Some(k) => CheckModel {
                name: "key-fingerprint"@,
                status: CheckStatus::Pass,
                detail: "X25519: "@ + text::hex(k@.take(16)) + "… (known_hosts ok)"@,
            },
            None => CheckModel {
                name: "key-fingerprint"@,
                status: CheckStatus::Warn,
                detail: "server public key unavailable"@,
            },
        },
{
    match key {
        Some(k) => {
            let head: Vec<u8> = bytes::piece(&k, 0, 16);
            assert(head@ =~= k@.take(16));
            CheckResult {
                name: "key-fingerprint",
                status: CheckStatus::Pass,
                detail: text::glue3(
                    "X25519: ",
                    text::to_hex(&head).as_str(),
                    "… (known_hosts ok)",
                ),
            }
        },
        None => CheckResult {
            name: "key-fingerprint",
            status: CheckStatus::Warn,
            detail: text::owned("server public key unavailable"),
        },
    }
}

/// What became of the request for information.
#[derive(Debug)]
pub enum InfoReply {
    /// No answer came in time.
    TimedOut,
    /// The answer could not be read, and why.
    Unreadable(String),
    /// The version of the server, where the answer names one.
    Version(Option<String>),
}

/// Whether a reply says what the field with the version holds.
pub open spec fn reports(reply: InfoReply, version: Result<Option<Seq<char>>, Seq<char>>) -> bool {
    match version {
        Ok(Some(v)) => reply matches InfoReply::Version(Some(s)) && s@ == v,
        Ok(None) => reply matches InfoReply::Version(None),
        Err(e) => reply matches InfoReply::Unreadable(w) && w@ == e,
    }
}

/// What became of a request that was answered, given what the field with the version holds.
pub fn info_reply(version: Result<Option<String>, String>) -> (r: InfoReply)
    ensures
        reports(r, formats::field_texts(version)),
{
    match version {
        Ok(v) => InfoReply::Version(v),
        Err(e) => InfoReply::Unreadable(e),
    }
}

/// What became of a request that was answered.
pub fn read_info(reply: &[u8]) -> (r: InfoReply)
    ensures
        reports(r, formats::json_text(reply@, "version"@)),
{
    info_reply(formats::json_field(reply, "version"))
}

/// What is found of the server's version.
pub open spec fn version_finding(reply: InfoReply, local: Seq<char>) -> CheckModel {
    match reply {
        InfoReply::TimedOut => CheckModel {
            name: "version"@,
            status: CheckStatus::Fail,
            detail: "info service timed out"@,
        },
        InfoReply::Unreadable(e) => CheckModel {
            name: "version"@,
            status: CheckStatus::Warn,
            detail: "could not parse info response: "@ + e@,
        },
        InfoReply::Version(v) => {
            let server = match v {
                Some(s) => s@,
                None => "unknown"@,
            };
            CheckModel {
                name: "version"@,
                status: if server == local {
                    CheckStatus::Pass
                } else {
                    CheckStatus::Warn
                },
                detail: "server="@ + server + " client="@ + local + (if server == local {
                    ""@
                } else {
                    " (mismatch)"@
                }),
            }
        },
    }
}

/// The check of the server's version.
pub fn version_check(reply: &InfoReply, local: &str) -> (r: CheckResult)
    ensures
        r@ == version_finding(*reply, local@),
{
    match reply {
        InfoReply::TimedOut => CheckResult {
            name: "version",
            status: CheckStatus::Fail,
            detail: text::owned("info service timed out"),
        },
        InfoReply::Unreadable(e) => CheckResult {
            name: "version",
            status: CheckStatus::Warn,
            detail: text::joined("could not parse info response: ", e.as_str()),
        },
        InfoReply::Version(v) => {
            let server: &str = match v {
                Some(s) => s.as_str(),
                None => "unknown",
            };
            let matches: bool = text::same(server, local);
            CheckResult {
                name: "version",
                status: if matches {
                    CheckStatus::Pass
                } else {
                    CheckStatus::Warn
                },
                detail: text::glue5(
                    "server=",
                    server,
                    " client=",
                    local,
                    if matches {
                        ""
                    } else {
                        " (mismatch)"
                    },
                ),
            }
        },
    }
}

/// How many probes are sent.
pub fn probe_count(wanted: u32) -> (n: u32)
    ensures
        n == if wanted <= PING_MAX {
            wanted
        } else {
            PING_MAX
        },
{
    if wanted <= PING_MAX {
        wanted
    } else {
        PING_MAX
    }
}

/// The message of a probe: the tag of the service, and the number of the probe.
pub fn probe(service: u8, seq: u32) -> (out: Vec<u8>)
    ensures
        out@ == seq![service] + bytes::be32(seq),
{
    let mut out: Vec<u8> = Vec::new();
    out.push(service);
    bytes::put_be32(&mut out, seq);
    assert(out@ =~= seq![service] + bytes::be32(seq));
    out
}

/// Whether an answer echoes a probe.
pub fn echoes(reply: &[u8], seq: u32) -> (r: bool)
    ensures
        r == (reply@ == bytes::be32(seq)),
{
    let mut wanted: Vec<u8> = Vec::new();
    bytes::put_be32(&mut wanted, seq);
    assert(wanted@ =~= bytes::be32(seq));
    bytes::same(reply, &wanted)
}

/// What is found of the latency, given how many probes were answered and how many were lost, and
/// the measured times as text.
pub open spec fn rtt_finding(answered: u32, lost: u32, total: u32, times: Seq<char>) -> CheckModel {
    if answered == 0 {
        CheckModel {
            name: "rtt"@,
            status: CheckStatus::Fail,
            detail: "all "@ + text::decimal(total as nat) + " ping(s) failed"@,
        }
    } else {
        CheckModel {
            name: "rtt"@,
            status: if lost > 0 {
                CheckStatus::Warn
            } else {
                CheckStatus::Pass
            },
            detail: times + " ("@ + text::decimal(answered as nat) + "/"@ + text::decimal(
                total as nat,
            ) + " ok)"@,
        }
    }
}

/// The check of the latency.
pub fn rtt_check(answered: u32, lost: u32, total: u32, times: &str) -> (r: CheckResult)
    ensures
        r@ == rtt_finding(answered, lost, total, times@),
{
    if answered == 0 {
        CheckResult {
            name: "rtt",
            status: CheckStatus::Fail,
            detail: text::glue3(
                "all ",
                text::decimal_text(total as u64).as_str(),
                " ping(s) failed",
            ),
        }
    } else {
        let head: String = text::glue5(
            times,
            " (",
            text::decimal_text(answered as u64).as_str(),
            "/",
            text::decimal_text(total as u64).as_str(),
        );
        CheckResult {
            name: "rtt",
            status: if lost > 0 {
                CheckStatus::Warn
            } else {
                CheckStatus::Pass
            },
            detail: text::joined(head.as_str(), " ok)"),
        }
    }
}

/// What several checks come to: the worst of them.
pub open spec fn overall_of(results: Seq<CheckResult>) -> CheckStatus {
    if exists|i: int| 0 <= i < results.len() && (#[trigger] results[i]).status is Fail {
        CheckStatus::Fail
    } else if exists|i: int| 0 <= i < results.len() && (#[trigger] results[i]).status is Warn {
        CheckStatus::Warn
    } else {
        CheckStatus::Pass
    }
}

/// What several checks come to.
pub fn overall(results: &Vec<CheckResult>) -> (s: CheckStatus)
    ensures
        s == overall_of(results@),
{
    let n: usize = results.len();
    let mut warned: bool = false;
    for i in 0..n
        invariant
            n == results@.len(),
            forall|j: int| 0 <= j < i ==> !((#[trigger] results@[j]).status is Fail),
            warned == exists|j: int| 0 <= j < i && (#[trigger] results@[j]).status is Warn,
    {
        match results[i].status {
            CheckStatus::Fail => {
                assert(results@[i as int].status is Fail);
                return CheckStatus::Fail;
            },
            CheckStatus::Warn => {
                assert(results@[i as int].status is Warn);
                warned = true;
            },
            CheckStatus::Pass => {},
        }
    }
    if warned {
        CheckStatus::Warn
    } else {
        CheckStatus::Pass
    }
}

/// Every check passed where the whole does, and none failed where the whole did not.
pub proof fn law_overall_is_worst(results: Seq<CheckResult>, i: int)
    requires
        0 <= i < results.len(),
    ensures
        overall_of(results) is Pass ==> results[i].status is Pass,
        !(overall_of(results) is Fail) ==> !(results[i].status is Fail),
{
    assert(results[i].status is Fail || results[i].status is Warn || results[i].status is Pass);
}

/// The status with which the program ends.
pub fn exit_code(results: &Vec<CheckResult>) -> (code: i32)
    ensures
        code == if overall_of(results@) is Fail {
            1int
        } else {
            0
        },
{
    if overall(results).is_fail() {
        1
    } else {
        0
    }
}

/// A row of the report.
pub open spec fn row_text(r: CheckModel) -> Seq<char> {
    "  ["@ + text::padded(r.status.word(), 4) + "]  "@ + text::padded(r.name, 20) + "  "@ + r.detail
}

/// A row of the report.
pub fn row(r: &CheckResult) -> (out: String)
    ensures
        out@ == row_text(r@),
{
    let mut out: String = text::owned("  [");
    text::push_padded(&mut out, r.status.symbol(), 4);
    out.append("]  ");
    text::push_padded(&mut out, r.name, 20);
    out.append("  ");
    out.append(r.detail.as_str());
    assert(out@ =~= row_text(r@));
    out
}

/// A server of the same version passes, one of another version or without one is a warning, and
/// one that does not answer fails.
pub proof fn law_version_findings(reply: InfoReply, local: Seq<char>)
    ensures
        version_finding(reply, local).status == CheckStatus::Fail <==> reply is TimedOut,
        version_finding(reply, local).status == CheckStatus::Pass <==> (reply matches
            InfoReply::Version(Some(v)) && v@ == local) || (reply matches InfoReply::Version(None)
            && local == "unknown"@),
        version_finding(reply, local).name == "version"@,
{
}

/// Without an answer the latency check fails, with a lost probe it warns, and else it passes.
pub proof fn law_rtt_findings(answered: u32, lost: u32, total: u32, times: Seq<char>)
    ensures
        rtt_finding(answered, lost, total, times).status == CheckStatus::Fail <==> answered == 0,
        rtt_finding(answered, lost, total, times).status == CheckStatus::Warn <==> answered > 0
            && lost > 0,
        rtt_finding(answered, lost, total, times).status == CheckStatus::Pass <==> answered > 0
            && lost == 0,
        rtt_finding(answered, lost, total, times).name == "rtt"@,
{
}

/// The whole fails exactly if a check fails, and warns exactly if none fails and one warns.
pub proof fn law_overall_exactly(results: Seq<CheckResult>)
    ensures
        overall_of(results) == CheckStatus::Fail <==> exists|i: int|
            0 <= i < results.len() && (#[trigger] results[i]).status is Fail,
        overall_of(results) == CheckStatus::Pass <==> forall|i: int|
            0 <= i < results.len() ==> (#[trigger] results[i]).status is Pass,
{
}

/// The words for the statuses.
pub proof fn law_words()
    ensures
        CheckStatus::Pass.word() == "PASS"@,
        CheckStatus::Warn.word() == "WARN"@,
        CheckStatus::Fail.word() == "FAIL"@,
{
}

/// The most probes that are sent.
pub proof fn law_probe_limit()
    ensures
        PING_MAX == 20,
{
}

/// A reply that is JSON gives the version that it names, or none, and any other gives what is
/// wrong with it.
pub proof fn law_replies_read(reply: InfoReply, v: Seq<char>)
    ensures
        reports(reply, Ok(Some(v))) ==> (reply matches InfoReply::Version(Some(s)) && s@ == v),
        reports(reply, Ok(None)) ==> reply == InfoReply::Version(None),
        reports(reply, Err(v)) ==> (reply matches InfoReply::Unreadable(w) && w@ == v),
{
}

} // verus!
