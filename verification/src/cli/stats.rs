//! Connection statistics: which way each stream goes, the tally, and the report.

use vstd::prelude::*;
use vstd::string::*;
use crate::text;

verus! {

/// Announces a stream on which the server sends.
pub const DIR_DOWNLOAD: u8 = 0x01;

/// Announces a stream on which the client sends.
pub const DIR_UPLOAD: u8 = 0x02;

/// What a server does with a stream.
#[derive(Debug, Clone, Copy, PartialEq, Eq, Structural)]
pub enum Flow {
    /// It sends without end.
    Send,
    /// It reads and forgets.
    Discard,
    /// Nothing.
    Ignore,
}

/// What a server does with a stream that begins with a byte.
pub fn flow(dir: u8) -> (f: Flow)
    ensures
        f == if dir == DIR_DOWNLOAD {
            Flow::Send
        } else if dir == DIR_UPLOAD {
            Flow::Discard
        } else {
            Flow::Ignore
        },
{
    if dir == DIR_DOWNLOAD {
        Flow::Send
    } else if dir == DIR_UPLOAD {
        Flow::Discard
    } else {
        Flow::Ignore
    }
}

/// What happened while measuring.
#[derive(Debug, Clone, Copy, PartialEq, Eq, Structural)]
pub enum Event {
    /// Bytes were read; none where the stream has ended or failed.
    Read(u64),
    /// Bytes were written.
    Written(u64),
    /// A write failed.
    WriteFailed,
    /// The time is up.
    Deadline,
}

/// The tally of a measurement.
#[derive(Debug, Clone, Copy, PartialEq, Eq, Structural)]
pub struct Meter {
    pub received: u64,
    pub sent: u64,
    pub download_done: bool,
    pub upload_done: bool,
    pub expired: bool,
}

impl Meter {
    /// Whether the measurement has ended.
    pub open spec fn ended(self) -> bool {
        self.expired || (self.download_done && self.upload_done)
    }

    /// The tally after an event.
    pub open spec fn after(self, e: Event) -> Meter {
        match e {
            Event::Read(n) => if n == 0 {
                Meter { download_done: true, ..self }
            } else {
                Meter { received: (self.received + n) as u64, ..self }
            },
            Event::Written(n) => Meter { sent: (self.sent + n) as u64, ..self },
            Event::WriteFailed => Meter { upload_done: true, ..self },
            Event::Deadline => Meter { expired: true, ..self },
        }
    }

    /// The tally at the start.
    pub fn new() -> (m: Self)
        ensures
            m == (Meter {
                received: 0,
                sent: 0,
                download_done: false,
                upload_done: false,
                expired: false,
            }),
    {
        Meter { received: 0, sent: 0, download_done: false, upload_done: false, expired: false }
    }

    /// Takes note of an event.
    pub fn on_event(&mut self, e: Event)
        requires
            e matches Event::Read(n) ==> old(self).received + n <= u64::MAX,
            e matches Event::Written(n) ==> old(self).sent + n <= u64::MAX,
        ensures
            *final(self) == old(self).after(e),
    {
        match e {
            Event::Read(n) => {
                if n == 0 {
                    self.download_done = true;
                } else {
                    self.received = self.received + n;
                }
            },
            Event::Written(n) => {
                self.sent = self.sent + n;
            },
            Event::WriteFailed => {
                self.upload_done = true;
            },
            Event::Deadline => {
                self.expired = true;
            },
        }
    }

    /// Whether the measurement has ended.
    pub fn done(&self) -> (r: bool)
        ensures
            r == self.ended(),
    {
        self.expired || (self.download_done && self.upload_done)
    }
}

/// A measurement that has ended stays so.
pub proof fn law_end_is_final(m: Meter, e: Event)
    requires
        m.ended(),
    ensures
        m.after(e).ended(),
{
}

/// The measured numbers: those with decimals come as text.
#[derive(Debug)]
pub struct StatsFigures {
    pub rtt_millis: String,
    pub download_speed: String,
    pub upload_speed: String,
    pub secs: String,
    pub received: u64,
    pub sent: u64,
    pub path_mtu: usize,
    pub cwnd_bytes: u64,
}

/// A line across the report.
pub open spec fn rule_text() -> Seq<char> {
    "  "@ + text::repeated('─', 52)
}

/// A row of the report.
pub open spec fn row_text(label: Seq<char>, value: Seq<char>) -> Seq<char> {
    "  "@ + text::padded(label, 28) + " "@ + value
}

/// A throughput: the speed, and how many whole mebibytes went in how long.
pub open spec fn speed_text(speed: Seq<char>, bytes: u64, secs: Seq<char>) -> Seq<char> {
    speed + " MiB/s  ("@ + text::decimal((bytes / 0x10_0000) as nat) + " MiB in "@ + secs + "s)"@
}

/// The lines of the report.
pub open spec fn report_lines(remote: Seq<char>, f: StatsFigures) -> Seq<Seq<char>> {
    seq![
        ""@,
        rule_text(),
        "  Connection statistics: "@ + remote,
        rule_text(),
        row_text("Smoothed RTT:"@, f.rtt_millis@ + " ms"@),
        row_text("Download (recv):"@, speed_text(f.download_speed@, f.received, f.secs@)),
        row_text("Upload (sent):"@, speed_text(f.upload_speed@, f.sent, f.secs@)),
        row_text("Path MTU:"@, text::decimal(f.path_mtu as nat) + " bytes"@),
        row_text("cwnd:"@, text::decimal((f.cwnd_bytes / 1024) as nat) + " KiB"@),
        rule_text(),
        ""@,
    ]
}

fn push_row(out: &mut Vec<String>, label: &str, value: &str)
    ensures
        text::texts(final(out)@) == text::texts(old(out)@).push(row_text(label@, value@)),
{
    let mut line: String = text::owned("  ");
    text::push_padded(&mut line, label, 28);
    line.append(" ");
    line.append(value);
    assert(line@ =~= row_text(label@, value@));
    out.push(line);
    assert(text::texts(out@) =~= text::texts(old(out)@).push(row_text(label@, value@)));
}

fn push_line(out: &mut Vec<String>, line: String)
    ensures
        text::texts(final(out)@) == text::texts(old(out)@).push(line@),
{
    out.push(line);
    assert(text::texts(out@) =~= text::texts(old(out)@).push(line@));
}

fn throughput(speed: &str, bytes: u64, secs: &str) -> (out: String)
    ensures
        out@ == speed_text(speed@, bytes, secs@),
{
    let mib: String = text::decimal_text(bytes / 0x10_0000);
    let head: String = text::glue4(speed, " MiB/s  (", mib.as_str(), " MiB in ");
    text::glue3(head.as_str(), secs, "s)")
}

/// The lines of the report.
pub fn print_stats(remote: &str, f: &StatsFigures) -> (out: Vec<String>)
    ensures
        text::texts(out@) == report_lines(remote@, *f),
{
    let mut out: Vec<String> = Vec::new();
    assert(text::texts(out@) =~= Seq::<Seq<char>>::empty());
    push_line(&mut out, text::owned(""));
    push_line(&mut out, text::joined("  ", text::rule('─', 52).as_str()));
    push_line(&mut out, text::joined("  Connection statistics: ", remote));
    push_line(&mut out, text::joined("  ", text::rule('─', 52).as_str()));
    push_row(&mut out, "Smoothed RTT:", text::joined(f.rtt_millis.as_str(), " ms").as_str());
    push_row(
        &mut out,
        "Download (recv):",
        throughput(f.download_speed.as_str(), f.received, f.secs.as_str()).as_str(),
    );
    push_row(
        &mut out,
        "Upload (sent):",
        throughput(f.upload_speed.as_str(), f.sent, f.secs.as_str()).as_str(),
    );
    let mtu: String = text::decimal_text(f.path_mtu as u64);
    push_row(&mut out, "Path MTU:", text::joined(mtu.as_str(), " bytes").as_str());
    let cwnd: String = text::decimal_text(f.cwnd_bytes / 1024);
    push_row(&mut out, "cwnd:", text::joined(cwnd.as_str(), " KiB").as_str());
    push_line(&mut out, text::joined("  ", text::rule('─', 52).as_str()));
    push_line(&mut out, text::owned(""));
    assert(text::texts(out@) =~= report_lines(remote@, *f));
    out
}

/// Bytes are counted in their direction, and a measurement ends when its time is up or when both
/// directions have ended, and not before.
pub proof fn law_measurement(m: Meter, n: u64)
    requires
        m.received + n <= u64::MAX,
        m.sent + n <= u64::MAX,
    ensures
        n > 0 ==> m.after(Event::Read(n)) == (Meter { received: (m.received + n) as u64, ..m }),
        m.after(Event::Written(n)) == (Meter { sent: (m.sent + n) as u64, ..m }),
        m.after(Event::Deadline).ended(),
        m.after(Event::Read(0)).ended() <==> m.expired || m.upload_done,
        m.after(Event::WriteFailed).ended() <==> m.expired || m.download_done,
        m.after(Event::Read(0)).received == m.received,
        n > 0 ==> m.after(Event::Read(n)).ended() == m.ended(),
        m.after(Event::Written(n)).ended() == m.ended(),
{
}

/// A stream is marked by its direction.
pub proof fn law_directions()
    ensures
        DIR_DOWNLOAD == 1,
        DIR_UPLOAD == 2,
{
}

/// A report names the remote, and gives the round trip, what came and what went with their speeds,
/// the largest datagram and the congestion window, each in its unit.
pub proof fn law_report_shows_figures(remote: Seq<char>, f: StatsFigures)
    ensures
        ({
            let l = report_lines(remote, f);
            &&& text::contains(l[2], remote)
            &&& text::contains(l[4], f.rtt_millis@ + " ms"@)
            &&& text::contains(
                l[5],
                f.download_speed@ + " MiB/s  ("@ + text::decimal((f.received / 1_048_576) as nat)
                    + " MiB in "@ + f.secs@ + "s)"@,
            )
            &&& text::contains(
                l[6],
                f.upload_speed@ + " MiB/s  ("@ + text::decimal((f.sent / 1_048_576) as nat)
                    + " MiB in "@ + f.secs@ + "s)"@,
            )
            &&& text::contains(l[7], text::decimal(f.path_mtu as nat) + " bytes"@)
            &&& text::contains(l[8], text::decimal((f.cwnd_bytes / 1024) as nat) + " KiB"@)
        }),
{
    let l = report_lines(remote, f);
    lemma_ends_with(l[2], "  Connection statistics: "@, remote);
    lemma_row_shows("Smoothed RTT:"@, f.rtt_millis@ + " ms"@);
    lemma_row_shows("Download (recv):"@, speed_text(f.download_speed@, f.received, f.secs@));
    lemma_row_shows("Upload (sent):"@, speed_text(f.upload_speed@, f.sent, f.secs@));
    lemma_row_shows("Path MTU:"@, text::decimal(f.path_mtu as nat) + " bytes"@);
    lemma_row_shows("cwnd:"@, text::decimal((f.cwnd_bytes / 1024) as nat) + " KiB"@);
}

proof fn lemma_ends_with(s: Seq<char>, a: Seq<char>, b: Seq<char>)
    requires
        s == a + b,
    ensures
        text::contains(s, b),
{
    text::law_contains(s, b);
    assert(s =~= a + b + Seq::empty());
}

proof fn lemma_row_shows(label: Seq<char>, value: Seq<char>)
    ensures
        text::contains(row_text(label, value), value),
{
    lemma_ends_with(row_text(label, value), "  "@ + text::padded(label, 28) + " "@, value);
}

} // verus!
