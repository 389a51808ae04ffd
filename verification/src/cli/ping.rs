//! Latency probes: what is sent, what an answer says, and the tally.

use vstd::prelude::*;
use vstd::string::*;
use crate::cli::health;
use crate::text;

verus! {

/// What became of a probe.
#[derive(Debug, Clone, Copy, PartialEq, Eq, Structural)]
pub enum Outcome {
    /// It could not be sent.
    SendFailed,
    /// It was answered with what was sent.
    Answered,
    /// It was answered with something else.
    Mismatch,
    /// It was not answered in time.
    TimedOut,
}

/// What became of a probe: whether it was sent, and what came back in time.
pub fn outcome(sent: bool, reply: Option<&[u8]>, seq: u32) -> (o: Outcome)
    ensures
        o == if !sent {
            Outcome::SendFailed
        } else {
            match reply {
                Some(r) => if r@ == crate::bytes::be32(seq) {
                    Outcome::Answered
                } else {
                    Outcome::Mismatch
                },
                None => Outcome::TimedOut,
            }
        },
{
    if !sent {
        return Outcome::SendFailed;
    }
    match reply {
        Some(r) => {
            if health::echoes(r, seq) {
                Outcome::Answered
            } else {
                Outcome::Mismatch
            }
        },
        None => Outcome::TimedOut,
    }
}

/// What is said of a probe. The time comes as text.
pub open spec fn outcome_text(o: Outcome, seq: u32, millis: Seq<char>) -> Seq<char> {
    "seq="@ + text::decimal(seq as nat) + match o {
        Outcome::SendFailed => " send failed"@,
        Outcome::Answered => " rtt="@ + millis + "ms"@,
        Outcome::Mismatch => " reply mismatch"@,
        Outcome::TimedOut => " timeout"@,
    }
}

/// What is said of a probe.
pub fn outcome_line(o: Outcome, seq: u32, millis: &str) -> (out: String)
    ensures
        out@ == outcome_text(o, seq, millis@),
{
    let number: String = text::decimal_text(seq as u64);
    let rest: String = match o {
        Outcome::SendFailed => text::owned(" send failed"),
        Outcome::Answered => text::glue3(" rtt=", millis, "ms"),
        Outcome::Mismatch => text::owned(" reply mismatch"),
        Outcome::TimedOut => text::owned(" timeout"),
    };
    text::glue3("seq=", number.as_str(), rest.as_str())
}

/// The tally of the probes.
#[derive(Debug, Clone, Copy, PartialEq, Eq, Structural)]
pub struct PingStats {
    pub sent: u32,
    pub received: u32,
    pub lost: u32,
}

impl PingStats {
    /// Every probe was answered or lost.
    pub open spec fn wf(self) -> bool {
        self.sent == self.received + self.lost
    }

    /// The tally before the first probe.
    pub fn new() -> (s: Self)
        ensures
            s == (PingStats { sent: 0, received: 0, lost: 0 }),
            s.wf(),
    {
        PingStats { sent: 0, received: 0, lost: 0 }
    }

    /// Counts a probe.
    pub fn record(&mut self, o: Outcome)
        requires
            old(self).wf(),
            old(self).sent < u32::MAX,
        ensures
            final(self).wf(),
            final(self).sent == old(self).sent + 1,
            final(self).received == old(self).received + if o is Answered {
                1int
            } else {
                0
            },
    {
        self.sent = self.sent + 1;
        match o {
            Outcome::Answered => {
                self.received = self.received + 1;
            },
            _ => {
                self.lost = self.lost + 1;
            },
        }
    }
}

/// The number of the next probe, where one follows; without a count there is always one.
pub fn next_seq(seq: u32, count: u32) -> (next: Option<u32>)
    requires
        seq < u32::MAX,
    ensures
        next == if count > 0 && seq + 1 >= count {
            None
        } else {
            Some((seq + 1) as u32)
        },
{
    if count > 0 && seq + 1 >= count {
        None
    } else {
        Some(seq + 1)
    }
}

/// The line before the first probe.
pub fn head_line(remote: &str, count: u32) -> (out: String)
    ensures
        out@ == "PING "@ + remote@ + " over Seam (post-quantum UDP)"@ + (if count == 0 {
            " — continuous, Ctrl-C for statistics"@
        } else {
            ""@
        }),
{
    text::glue4(
        "PING ",
        remote,
        " over Seam (post-quantum UDP)",
        if count == 0 {
            " — continuous, Ctrl-C for statistics"
        } else {
            ""
        },
    )
}

/// The tally in words. The percentage comes as text.
pub open spec fn tally_text(s: PingStats, percent: Seq<char>) -> Seq<char> {
    text::decimal(s.sent as nat) + " sent, "@ + text::decimal(s.received as nat) + " received, "@
        + text::decimal(s.lost as nat) + " lost ("@ + percent + "% loss)"@
}

/// The tally in words.
pub fn tally_line(s: &PingStats, percent: &str) -> (out: String)
    ensures
        out@ == tally_text(*s, percent@),
{
    let mut out: String = text::decimal_text(s.sent as u64);
    out.append(" sent, ");
    out.append(text::decimal_text(s.received as u64).as_str());
    out.append(" received, ");
    out.append(text::decimal_text(s.lost as u64).as_str());
    out.append(" lost (");
    out.append(percent);
    out.append("% loss)");
    assert(out@ =~= tally_text(*s, percent@));
    out
}

/// A probe that is answered, is answered wrongly, is not answered or cannot be sent is told apart
/// in its line, and the tally gives all three numbers.
pub proof fn law_lines(seq: u32, millis: Seq<char>, s: PingStats, percent: Seq<char>)
    ensures
        outcome_text(Outcome::Answered, seq, millis) == "seq="@ + text::decimal(seq as nat)
            + " rtt="@ + millis + "ms"@,
        outcome_text(Outcome::TimedOut, seq, millis) == "seq="@ + text::decimal(seq as nat)
            + " timeout"@,
        outcome_text(Outcome::Mismatch, seq, millis) == "seq="@ + text::decimal(seq as nat)
            + " reply mismatch"@,
        outcome_text(Outcome::SendFailed, seq, millis) == "seq="@ + text::decimal(seq as nat)
            + " send failed"@,
        tally_text(s, percent) == text::decimal(s.sent as nat) + " sent, "@ + text::decimal(
            s.received as nat,
        ) + " received, "@ + text::decimal(s.lost as nat) + " lost ("@ + percent + "% loss)"@,
{
    assert("seq="@ + text::decimal(seq as nat) + (" rtt="@ + millis + "ms"@) =~= "seq="@
        + text::decimal(seq as nat) + " rtt="@ + millis + "ms"@);
}

} // verus!
