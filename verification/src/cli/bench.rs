//! The throughput benchmark: how the data is cut up, what is measured on the way, and the report.

use vstd::prelude::*;
use vstd::string::*;
use crate::text;

verus! {

/// How much is sent at a time.
pub const SEND_PIECE: u64 = 64 * 1024;

/// How long a throughput window lasts, in nanoseconds.
pub const WINDOW_NANOS: u64 = 500_000_000;

/// How wide a bar of the report is.
pub const BAR_WIDTH: usize = 32;

/// How wide the report is.
pub const RULE_WIDTH: usize = 64;

/// The command that serves a benchmark on the remote host.
pub fn recv_command(mib: u64) -> (out: String)
    ensures
        out@ == "_bench-recv --mib "@ + text::decimal(mib as nat) + " --port 0"@,
{
    text::glue3("_bench-recv --mib ", text::decimal_text(mib).as_str(), " --port 0")
}

/// How many bytes some mebibytes are.
pub fn total_bytes(mib: u64) -> (n: u64)
    requires
        mib * 0x10_0000 <= u64::MAX,
    ensures
        n == mib * 0x10_0000,
{
    mib * 0x10_0000
}

/// How much is sent next: a piece, or what is left.
pub fn next_piece(total: u64, sent: u64) -> (n: u64)
    requires
        sent <= total,
    ensures
        n == if total - sent < SEND_PIECE {
            total - sent
        } else {
            SEND_PIECE as int
        },
        sent < total ==> n > 0,
{
    if total - sent < SEND_PIECE {
        total - sent
    } else {
        SEND_PIECE
    }
}

/// What a read adds to the measurements.
#[derive(Debug, Clone, Copy)]
pub struct Sample {
    /// The time since the read before, in nanoseconds; the first read gives none.
    pub gap: Option<u64>,
    /// The bytes of a window that has ended, and how long it was in nanoseconds.
    pub window: Option<(u64, u64)>,
}

/// The measurements while data comes in. Times are in nanoseconds since the start.
#[derive(Debug, Clone, Copy, PartialEq, Eq, Structural)]
pub struct Drain {
    pub total: u64,
    pub window_bytes: u64,
    pub window_start: u64,
    pub last_read: u64,
}

impl Drain {
    /// No window holds more than has come, and no time is ahead.
    pub open spec fn wf(self) -> bool {
        self.window_bytes <= self.total && self.window_start <= self.last_read
    }

    /// The measurements before any data.
    pub fn new() -> (d: Self)
        ensures
            d == (Drain { total: 0, window_bytes: 0, window_start: 0, last_read: 0 }),
            d.wf(),
    {
        Drain { total: 0, window_bytes: 0, window_start: 0, last_read: 0 }
    }

    /// Takes note of a read.
    pub fn on_read(&mut self, now: u64, n: u64) -> (s: Sample)
        requires
            old(self).wf(),
            old(self).last_read <= now,
            old(self).total + n <= u64::MAX,
        ensures
            final(self).wf(),
            final(self).total == old(self).total + n,
            final(self).last_read == now,
            s.gap == if old(self).total > 0 {
                Some((now - old(self).last_read) as u64)
            } else {
                None
            },
            if now - old(self).window_start >= WINDOW_NANOS {
                &&& s.window == Some(
                    (
                        (old(self).window_bytes + n) as u64,
                        (now - old(self).window_start) as u64,
                    ),
                )
                &&& final(self).window_bytes == 0
                &&& final(self).window_start == now
            } else {
                &&& s.window is None
                &&& final(self).window_bytes == old(self).window_bytes + n
                &&& final(self).window_start == old(self).window_start
            },
    {
        let gap: Option<u64> = if self.total > 0 {
            Some(now - self.last_read)
        } else {
            None
        };
        self.last_read = now;
        self.total = self.total + n;
        self.window_bytes = self.window_bytes + n;
        let open: u64 = now - self.window_start;
        if open >= WINDOW_NANOS {
            let window: (u64, u64) = (self.window_bytes, open);
            self.window_bytes = 0;
            self.window_start = now;
            Sample { gap, window: Some(window) }
        } else {
            Sample { gap, window: None }
        }
    }
}

/// What is said of a benchmark that ran out of time.
pub fn timeout_lines(timed_out: Option<u64>, bytes: u64) -> (out: Vec<String>)
    ensures
        text::texts(out@) == match timed_out {
            None => Seq::<Seq<char>>::empty(),
            Some(secs) => if bytes == 0 {
                seq!["\n  benchmark timed out — no data received"@]
            } else {
                seq![
                    "\n  benchmark timed out after "@ + text::decimal(secs as nat)
                        + "s — partial result:"@,
                    "  (reported throughput is a lower bound)"@,
                ]
            },
        },
{
    let mut out: Vec<String> = Vec::new();
    match timed_out {
        None => {
            assert(text::texts(out@) =~= Seq::<Seq<char>>::empty());
        },
        Some(secs) => {
            if bytes == 0 {
                out.push(text::owned("\n  benchmark timed out — no data received"));
                assert(text::texts(out@) =~= seq!["\n  benchmark timed out — no data received"@]);
            } else {
                out.push(
                    text::glue3(
                        "\n  benchmark timed out after ",
                        text::decimal_text(secs).as_str(),
                        "s — partial result:",
                    ),
                );
                out.push(text::owned("  (reported throughput is a lower bound)"));
                assert(text::texts(out@) =~= seq![
                    "\n  benchmark timed out after "@ + text::decimal(secs as nat)
                        + "s — partial result:"@,
                    "  (reported throughput is a lower bound)"@,
                ]);
            }
        },
    }
    out
}

/// A bar with some of its cells filled.
pub open spec fn bar_text(filled: nat, width: nat) -> Seq<char> {
    if filled <= width {
        text::repeated('█', filled) + text::repeated('░', (width - filled) as nat)
    } else {
        text::repeated('█', width)
    }
}

/// A bar with some of its cells filled.
pub fn bar(filled: usize, width: usize) -> (out: String)
    ensures
        out@ == bar_text(filled as nat, width as nat),
{
    let n: usize = if filled <= width {
        filled
    } else {
        width
    };
    let mut out: String = String::new();
    text::push_repeated(&mut out, '█', n);
    text::push_repeated(&mut out, '░', width - n);
    assert(out@ =~= bar_text(filled as nat, width as nat));
    out
}

/// How good a loss of some whole percent is.
pub open spec fn loss_grade_text(percent: u32) -> Seq<char> {
    if percent == 0 {
        "excellent"@
    } else if percent <= 2 {
        "good"@
    } else if percent <= 5 {
        "fair"@
    } else {
        "poor"@
    }
}

/// How good a loss of some whole percent is.
pub fn loss_grade(percent: u32) -> (s: &'static str)
    ensures
        s@ == loss_grade_text(percent),
{
    if percent == 0 {
        "excellent"
    } else if percent <= 2 {
        "good"
    } else if percent <= 5 {
        "fair"
    } else {
        "poor"
    }
}

/// How good a jitter of some whole milliseconds is.
pub open spec fn jitter_grade_text(millis: u64) -> Seq<char> {
    if millis < 1 {
        "excellent"@
    } else if millis < 5 {
        "good"@
    } else if millis < 20 {
        "fair"@
    } else {
        "poor"@
    }
}

/// How good a jitter of some whole milliseconds is.
pub fn jitter_grade(millis: u64) -> (s: &'static str)
    ensures
        s@ == jitter_grade_text(millis),
{
    if millis < 1 {
        "excellent"
    } else if millis < 5 {
        "good"
    } else if millis < 20 {
        "fair"
    } else {
        "poor"
    }
}

/// How steady a throughput is that varies by some whole percent.
pub open spec fn stability_grade_text(percent: u64) -> Seq<char> {
    if percent < 5 {
        "stable"@
    } else if percent < 15 {
        "moderate"@
    } else if percent < 30 {
        "variable"@
    } else {
        "unstable"@
    }
}

/// How steady a throughput is that varies by some whole percent.
pub fn stability_grade(percent: u64) -> (s: &'static str)
    ensures
        s@ == stability_grade_text(percent),
{
    if percent < 5 {
        "stable"
    } else if percent < 15 {
        "moderate"
    } else if percent < 30 {
        "variable"
    } else {
        "unstable"
    }
}

/// How the measured throughput stands to that of scp.
#[derive(Debug)]
pub enum Pace {
    /// So many times as fast.
    Faster(String),
    /// So many percent of it.
    Slower(String),
    /// About the same.
    Even,
}

/// The measured numbers: those that are printed as text, and the whole ones that decide.
#[derive(Debug)]
pub struct Figures {
    pub seam_speed: String,
    pub seam_gbps: String,
    pub seam_cells: usize,
    pub scp_cells: usize,
    pub rsync_cells: usize,
    pub netcat_cells: usize,
    pub pace: Pace,
    pub mib: u64,
    pub secs: String,
    pub windows: usize,
    pub loss: String,
    pub loss_percent: u32,
    pub jitter: String,
    pub jitter_millis: u64,
    pub variation: String,
    pub variation_percent: u64,
}

/// A row of the table: a tool, its bar, its throughput, and a note.
pub open spec fn tool_row(tool: Seq<char>, cells: usize, speed: Seq<char>, note: Seq<char>) -> Seq<
    char,
> {
    "  "@ + text::padded(tool, 8) + " "@ + bar_text(cells as nat, BAR_WIDTH as nat) + "  "@
        + text::set_right(speed, 8) + "   "@ + note
}

fn push_tool(out: &mut Vec<String>, tool: &str, cells: usize, speed: &str, note: &str)
    ensures
        text::texts(final(out)@) == text::texts(old(out)@).push(
            tool_row(tool@, cells, speed@, note@),
        ),
{
    let mut line: String = text::owned("  ");
    text::push_padded(&mut line, tool, 8);
    line.append(" ");
    line.append(bar(cells, BAR_WIDTH).as_str());
    line.append("  ");
    text::push_right(&mut line, speed, 8);
    line.append("   ");
    line.append(note);
    assert(line@ =~= tool_row(tool@, cells, speed@, note@));
    out.push(line);
    assert(text::texts(out@) =~= text::texts(old(out)@).push(
        tool_row(tool@, cells, speed@, note@),
    ));
}

fn push_line(out: &mut Vec<String>, line: String)
    ensures
        text::texts(final(out)@) == text::texts(old(out)@).push(line@),
{
    out.push(line);
    assert(text::texts(out@) =~= text::texts(old(out)@).push(line@));
}

fn push_rule(out: &mut Vec<String>)
    ensures
        text::texts(final(out)@) == text::texts(old(out)@).push(rule_text()),
{
    push_line(out, text::joined("  ", text::rule('─', RULE_WIDTH).as_str()));
}

/// A line across the report.
pub open spec fn rule_text() -> Seq<char> {
    "  "@ + text::repeated('─', RULE_WIDTH as nat)
}

/// How the measured throughput stands to that of scp, in words.
pub open spec fn pace_text(pace: Pace) -> Seq<char> {
    match pace {
        Pace::Faster(times) => "\n  seam is "@ + times@ + "× faster than scp on this path"@,
        Pace::Slower(percent) => "\n  seam is "@ + percent@
            + "% of scp speed — CC still warming up or link-limited"@,
        Pace::Even => "\n  seam ≈ scp speed on this path"@,
    }
}

/// How the measured throughput stands to that of scp, in words.
pub fn pace_line(pace: &Pace) -> (out: String)
    ensures
        out@ == pace_text(*pace),
{
    match pace {
        Pace::Faster(times) => text::glue3(
            "\n  seam is ",
            times.as_str(),
            "× faster than scp on this path",
        ),
        Pace::Slower(percent) => text::glue3(
            "\n  seam is ",
            percent.as_str(),
            "% of scp speed — CC still warming up or link-limited",
        ),
        Pace::Even => text::owned("\n  seam ≈ scp speed on this path"),
    }
}

/// The head of the table.
pub open spec fn table_head() -> Seq<char> {
    "  "@ + text::padded("tool"@, 8) + " "@ + text::padded("throughput"@, BAR_WIDTH as nat) + "  "@
        + text::set_right("MiB/s"@, 8) + "   "@ + text::set_right("notes"@, 8)
}

fn head_line() -> (line: String)
    ensures
        line@ == table_head(),
{
    let mut line: String = text::owned("  ");
    text::push_padded(&mut line, "tool", 8);
    line.append(" ");
    text::push_padded(&mut line, "throughput", BAR_WIDTH);
    line.append("  ");
    text::push_right(&mut line, "MiB/s", 8);
    line.append("   ");
    text::push_right(&mut line, "notes", 8);
    assert(line@ =~= table_head());
    line
}

/// The part of the report that compares: the table, and what it comes to.
pub open spec fn speed_report(f: Figures) -> Seq<Seq<char>> {
    seq![
        "\n"@,
        rule_text(),
        table_head(),
        rule_text(),
        tool_row("seam"@, f.seam_cells, f.seam_speed@, f.seam_gbps@ + " Gbps  ← measured"@),
        tool_row("scp"@, f.scp_cells, "400"@, "encrypted TCP  (est.)"@),
        tool_row("rsync"@, f.rsync_cells, "380"@, "encrypted TCP  (est.)"@),
        tool_row("netcat"@, f.netcat_cells, "950"@, "unencrypted TCP  (est.)"@),
        rule_text(),
        pace_text(f.pace),
        "  post-quantum safe · UDP · FEC recovery · 247 µs handshake"@,
        "  "@ + text::decimal(f.mib as nat) + " MiB transferred in "@ + f.secs@ + "s\n"@,
    ]
}

/// The part of the report that grades the network.
pub open spec fn quality_report(f: Figures) -> Seq<Seq<char>> {
    seq![
        rule_text(),
        "  Network quality metrics ("@ + text::decimal(f.windows as nat) + " × 500ms windows):"@,
        ""@,
        "  packet loss (est.)  "@ + text::set_right(f.loss@, 6) + "%   ["@ + loss_grade_text(
            f.loss_percent,
        ) + "]"@,
        "  jitter (stddev)     "@ + text::set_right(f.jitter@, 6) + " ms  ["@ + jitter_grade_text(
            f.jitter_millis,
        ) + "]"@,
        "  throughput CV       "@ + text::set_right(f.variation@, 6) + "%   ["@
            + stability_grade_text(f.variation_percent) + "]"@,
        rule_text(),
        ""@,
    ]
}

fn speed_lines(f: &Figures) -> (out: Vec<String>)
    ensures
        text::texts(out@) == speed_report(*f),
{
    let mut out: Vec<String> = Vec::new();
    assert(text::texts(out@) =~= Seq::<Seq<char>>::empty());
    push_line(&mut out, text::owned("\n"));
    push_rule(&mut out);
    push_line(&mut out, head_line());
    push_rule(&mut out);
    let measured: String = text::joined(f.seam_gbps.as_str(), " Gbps  ← measured");
    push_tool(&mut out, "seam", f.seam_cells, f.seam_speed.as_str(), measured.as_str());
    push_tool(&mut out, "scp", f.scp_cells, "400", "encrypted TCP  (est.)");
    push_tool(&mut out, "rsync", f.rsync_cells, "380", "encrypted TCP  (est.)");
    push_tool(&mut out, "netcat", f.netcat_cells, "950", "unencrypted TCP  (est.)");
    push_rule(&mut out);
    push_line(&mut out, pace_line(&f.pace));
    push_line(
        &mut out,
        text::owned("  post-quantum safe · UDP · FEC recovery · 247 µs handshake"),
    );
    push_line(
        &mut out,
        text::glue5(
            "  ",
            text::decimal_text(f.mib).as_str(),
            " MiB transferred in ",
            f.secs.as_str(),
            "s\n",
        ),
    );
    assert(text::texts(out@) =~= speed_report(*f));
    out
}

fn graded(label: &str, value: &str, unit: &str, grade: &str) -> (out: String)
    ensures
        out@ == label@ + text::set_right(value@, 6) + unit@ + grade@ + "]"@,
{
    let mut out: String = text::owned(label);
    text::push_right(&mut out, value, 6);
    out.append(unit);
    out.append(grade);
    out.append("]");
    assert(out@ =~= label@ + text::set_right(value@, 6) + unit@ + grade@ + "]"@);
    out
}

fn quality_lines(f: &Figures) -> (out: Vec<String>)
    ensures
        text::texts(out@) == quality_report(*f),
{
    let mut out: Vec<String> = Vec::new();
    assert(text::texts(out@) =~= Seq::<Seq<char>>::empty());
    push_rule(&mut out);
    push_line(
        &mut out,
        text::glue3(
            "  Network quality metrics (",
            text::decimal_text(f.windows as u64).as_str(),
            " × 500ms windows):",
        ),
    );
    push_line(&mut out, text::owned(""));
    push_line(
        &mut out,
        graded("  packet loss (est.)  ", f.loss.as_str(), "%   [", loss_grade(f.loss_percent)),
    );
    push_line(
        &mut out,
        graded(
            "  jitter (stddev)     ",
            f.jitter.as_str(),
            " ms  [",
            jitter_grade(f.jitter_millis),
        ),
    );
    push_line(
        &mut out,
        graded(
            "  throughput CV       ",
            f.variation.as_str(),
            "%   [",
            stability_grade(f.variation_percent),
        ),
    );
    push_rule(&mut out);
    push_line(&mut out, text::owned(""));
    assert(text::texts(out@) =~= quality_report(*f));
    out
}

/// The lines of the report.
pub fn print_results(f: &Figures) -> (out: Vec<String>)
    ensures
        text::texts(out@) == speed_report(*f) + quality_report(*f),
{
    let mut out: Vec<String> = speed_lines(f);
    let mut rest: Vec<String> = quality_lines(f);
    let ghost a = text::texts(out@);
    let ghost b = text::texts(rest@);
    out.append(&mut rest);
    assert(text::texts(out@) =~= a + b);
    out
}

/// A bar is as wide as it should be, and filled as far as it should be.
pub proof fn law_bar(filled: nat, width: nat)
    ensures
        bar_text(filled, width).len() == width,
        forall|i: int|
            0 <= i < width ==> #[trigger] bar_text(filled, width)[i] == if i < filled {
                '█'
            } else {
                '░'
            },
{
}

/// The grades of losses, of jitter and of stability have their limits.
pub proof fn law_grades(loss: u32, jitter: u64, variation: u64)
    ensures
        loss_grade_text(0) == "excellent"@,
        1 <= loss <= 2 ==> loss_grade_text(loss) == "good"@,
        3 <= loss <= 5 ==> loss_grade_text(loss) == "fair"@,
        6 <= loss ==> loss_grade_text(loss) == "poor"@,
        jitter == 0 ==> jitter_grade_text(jitter) == "excellent"@,
        1 <= jitter <= 4 ==> jitter_grade_text(jitter) == "good"@,
        5 <= jitter <= 19 ==> jitter_grade_text(jitter) == "fair"@,
        20 <= jitter ==> jitter_grade_text(jitter) == "poor"@,
        variation <= 4 ==> stability_grade_text(variation) == "stable"@,
        5 <= variation <= 14 ==> stability_grade_text(variation) == "moderate"@,
        15 <= variation <= 29 ==> stability_grade_text(variation) == "variable"@,
        30 <= variation ==> stability_grade_text(variation) == "unstable"@,
{
}

/// Data is sent in pieces of 64 KiB, and measured in windows of half a second.
pub proof fn law_measures()
    ensures
        SEND_PIECE == 65536,
        WINDOW_NANOS == 500_000_000,
{
}

/// A report has a row for every tool with its bar and its speed, and the grades of the network.
pub proof fn law_report_rows(f: Figures)
    ensures
        ({
            let s = speed_report(f);
            let q = quality_report(f);
            &&& s[4] == tool_row(
                "seam"@,
                f.seam_cells,
                f.seam_speed@,
                f.seam_gbps@ + " Gbps  ← measured"@,
            )
            &&& s[5] == tool_row("scp"@, f.scp_cells, "400"@, "encrypted TCP  (est.)"@)
            &&& s[6] == tool_row("rsync"@, f.rsync_cells, "380"@, "encrypted TCP  (est.)"@)
            &&& s[7] == tool_row("netcat"@, f.netcat_cells, "950"@, "unencrypted TCP  (est.)"@)
            &&& s[9] == pace_text(f.pace)
            &&& text::contains(s[11], text::decimal(f.mib as nat) + " MiB transferred in "@ + f.secs@)
            &&& text::contains(q[3], "["@ + loss_grade_text(f.loss_percent) + "]"@)
            &&& text::contains(q[4], "["@ + jitter_grade_text(f.jitter_millis) + "]"@)
            &&& text::contains(q[5], "["@ + stability_grade_text(f.variation_percent) + "]"@)
        }),
{
    let s = speed_report(f);
    let q = quality_report(f);
    lemma_inside(
        s[11],
        "  "@,
        text::decimal(f.mib as nat) + " MiB transferred in "@ + f.secs@,
        "s\n"@,
    );
    reveal_strlit("%   [");
    reveal_strlit(" ms  [");
    reveal_strlit("[");
    let g = loss_grade_text(f.loss_percent);
    let h = jitter_grade_text(f.jitter_millis);
    let v = stability_grade_text(f.variation_percent);
    assert("%   ["@ =~= "%   ["@.take(4) + "["@);
    assert(" ms  ["@ =~= " ms  ["@.take(5) + "["@);
    lemma_inside(
        q[3],
        "  packet loss (est.)  "@ + text::set_right(f.loss@, 6) + "%   ["@.take(4),
        "["@ + g + "]"@,
        Seq::empty(),
    );
    lemma_inside(
        q[4],
        "  jitter (stddev)     "@ + text::set_right(f.jitter@, 6) + " ms  ["@.take(5),
        "["@ + h + "]"@,
        Seq::empty(),
    );
    lemma_inside(
        q[5],
        "  throughput CV       "@ + text::set_right(f.variation@, 6) + "%   ["@.take(4),
        "["@ + v + "]"@,
        Seq::empty(),
    );
}

proof fn lemma_inside(s: Seq<char>, a: Seq<char>, b: Seq<char>, c: Seq<char>)
    requires
        s =~= a + b + c,
    ensures
        text::contains(s, b),
{
    text::law_contains(s, b);
    assert(s == a + b + c);
}

} // verus!
