//! The audit log: which entries are shown, and how.

use vstd::prelude::*;
use vstd::string::*;
use vstd::utf8;
use crate::cli::calendar;
use crate::text;

pub use crate::cli::calendar::{days_to_ymd, now_rfc3339};

verus! {

/// How much of the end of the log is read to find its last line.
pub const TAIL_LEN: u64 = 2048;

/// An entry of the log.
#[derive(Debug)]
pub struct AuditRecord {
    pub ts: String,
    pub subcommand: String,
    pub remote: String,
    pub exit_code: Option<i32>,
    pub bytes_tx: Option<u64>,
    pub fips_mode: bool,
    pub pid: u32,
}

/// Whether an entry passes the filters: it is not from before `since`, and its remote host holds
/// `host` in its name.
pub open spec fn kept(rec: AuditRecord, since: Option<Seq<char>>, host: Option<Seq<char>>) -> bool {
    &&& match since {
        Some(s) => text::has_prefix(rec.ts@, s) || !text::before(rec.ts@, s),
        None => true,
    }
    &&& match host {
        Some(h) => text::contains(rec.remote@, h),
        None => true,
    }
}

/// The places of the first `n` entries that pass the filters.
pub open spec fn kept_places(
    records: Seq<AuditRecord>,
    since: Option<Seq<char>>,
    host: Option<Seq<char>>,
    n: int,
) -> Seq<int>
    decreases n,
{
    if n <= 0 {
        Seq::empty()
    } else {
        let before = kept_places(records, since, host, n - 1);
        if kept(records[n - 1], since, host) {
            before.push(n - 1)
        } else {
            before
        }
    }
}

/// The last `limit` of a list, or all of it where the limit is zero.
pub open spec fn last_of(list: Seq<int>, limit: int) -> Seq<int> {
    if limit > 0 && list.len() > limit {
        list.skip(list.len() - limit)
    } else {
        list
    }
}

/// The text of an optional string.
pub open spec fn opt_text(s: Option<&str>) -> Option<Seq<char>> {
    match s {
        Some(t) => Some(t@),
        None => None,
    }
}

/// Whether an entry passes the filters.
pub fn keeps(rec: &AuditRecord, since: Option<&str>, host: Option<&str>) -> (keep: bool)
    ensures
        keep == kept(*rec, opt_text(since), opt_text(host)),
{
    let recent: bool = match since {
        Some(s) => text::starts_with(rec.ts.as_str(), s) || !text::comes_before(
            rec.ts.as_str(),
            s,
        ),
        None => true,
    };
    let of_host: bool = match host {
        Some(h) => text::has_part(rec.remote.as_str(), h),
        None => true,
    };
    recent && of_host
}

/// The places of the entries to show: those that pass the filters, and of these the last ones.
pub fn shown(records: &Vec<AuditRecord>, limit: usize, since: Option<&str>, host: Option<&str>) -> (
places: Vec<usize>)
    ensures
        places@.map_values(|i: usize| i as int) == last_of(
            kept_places(records@, opt_text(since), opt_text(host), records@.len() as int),
            limit as int,
        ),
        forall|i: int| 0 <= i < places@.len() ==> #[trigger] places@[i] < records@.len(),
{
    let n: usize = records.len();
    let mut all: Vec<usize> = Vec::new();
    let ghost s = opt_text(since);
    let ghost h = opt_text(host);
    assert(all@.map_values(|i: usize| i as int) =~= kept_places(records@, s, h, 0));
    for i in 0..n
        invariant
            n == records@.len(),
            s == opt_text(since),
            h == opt_text(host),
            all@.map_values(|i: usize| i as int) == kept_places(records@, s, h, i as int),
            forall|j: int| 0 <= j < all@.len() ==> #[trigger] all@[j] < i,
    {
        let ghost before = all@;
        if keeps(&records[i], since, host) {
            all.push(i);
            assert(all@.map_values(|i: usize| i as int) =~= before.map_values(
                |i: usize| i as int,
            ).push(i as int));
        }
    }
    let total: usize = all.len();
    if limit > 0 && total > limit {
        let from: usize = total - limit;
        let mut out: Vec<usize> = Vec::new();
        for i in from..total
            invariant
                total == all@.len(),
                from <= total,
                n == records@.len(),
                out@ == all@.subrange(from as int, i as int),
                forall|j: int| 0 <= j < all@.len() ==> #[trigger] all@[j] < n,
        {
            out.push(all[i]);
            assert(out@ =~= all@.subrange(from as int, i + 1));
        }
        assert(out@.map_values(|i: usize| i as int) =~= all@.map_values(
            |i: usize| i as int,
        ).skip(from as int));
        out
    } else {
        all
    }
}

/// How an exit code is shown.
pub open spec fn exit_text(code: Option<i32>) -> Seq<char> {
    match code {
        Some(n) => if n == 0 {
            "ok"@
        } else {
            "err("@ + text::signed_decimal(n as int) + ")"@
        },
        None => "-"@,
    }
}

/// How an exit code is shown.
pub fn show_exit(code: Option<i32>) -> (out: String)
    ensures
        out@ == exit_text(code),
{
    match code {
        Some(n) => {
            if n == 0 {
                return text::owned("ok");
            }
            let mut out: String = String::new();
            out.append("err(");
            text::push_signed(&mut out, n as i64);
            out.append(")");
            assert(out@ =~= exit_text(code));
            out
        },
        None => text::owned("-"),
    }
}

/// Whether a remote name can be shortened for its column: it fits, or it can be cut there.
pub open spec fn fits_column(remote: Seq<char>) -> bool {
    let b = utf8::encode_utf8(remote);
    b.len() <= 28 || utf8::is_char_boundary(b, 27)
}

/// A remote name in its column: cut to 27 bytes where it is longer than 28.
pub open spec fn column_text(remote: Seq<char>) -> Seq<char> {
    let b = utf8::encode_utf8(remote);
    if b.len() > 28 {
        utf8::decode_utf8(b.subrange(0, 27)) + "…"@
    } else {
        remote
    }
}

/// Whether a remote name can be shortened for its column.
pub fn fits(remote: &str) -> (r: bool)
    ensures
        r == fits_column(remote@),
{
    remote.as_bytes().len() <= 28 || remote.is_char_boundary(27)
}

/// A remote name in its column.
pub fn shorten(remote: &str) -> (out: String)
    requires
        fits_column(remote@),
    ensures
        out@ == column_text(remote@),
{
    if remote.as_bytes().len() > 28 {
        let (head, _tail) = remote.split_at(27);
        proof {
            utf8::encode_utf8_decode_utf8(head@);
            assert(head.spec_bytes() == remote.spec_bytes().subrange(0, 27));
        }
        text::joined(head, "…")
    } else {
        text::owned(remote)
    }
}

/// A row of the table: time, command, remote host, exit code, bytes, and whether FIPS mode was
/// on.
pub open spec fn row_text(rec: AuditRecord, bytes: Seq<char>) -> Seq<char> {
    row_of(
        rec.ts@,
        rec.subcommand@,
        column_text(rec.remote@),
        exit_text(rec.exit_code),
        bytes,
        if rec.fips_mode {
            "yes"@
        } else {
            "no"@
        },
    )
}

/// Six columns.
pub open spec fn row_of(
    ts: Seq<char>,
    command: Seq<char>,
    remote: Seq<char>,
    exit: Seq<char>,
    bytes: Seq<char>,
    fips: Seq<char>,
) -> Seq<char> {
    text::padded(ts, 25) + " "@ + text::padded(command, 10) + " "@ + text::padded(remote, 28)
        + " "@ + text::padded(exit, 6) + " "@ + text::padded(bytes, 10) + " "@ + fips
}

fn columns(ts: &str, command: &str, remote: &str, exit: &str, bytes: &str, fips: &str) -> (out:
    String)
    ensures
        out@ == row_of(ts@, command@, remote@, exit@, bytes@, fips@),
{
    let mut out: String = String::new();
    text::push_padded(&mut out, ts, 25);
    out.append(" ");
    text::push_padded(&mut out, command, 10);
    out.append(" ");
    text::push_padded(&mut out, remote, 28);
    out.append(" ");
    text::push_padded(&mut out, exit, 6);
    out.append(" ");
    text::push_padded(&mut out, bytes, 10);
    out.append(" ");
    out.append(fips);
    assert(out@ =~= row_of(ts@, command@, remote@, exit@, bytes@, fips@));
    out
}

/// The head of the table.
pub fn header() -> (out: String)
    ensures
        out@ == row_of(
            "timestamp"@,
            "command"@,
            "remote"@,
            "exit"@,
            "bytes_tx"@,
            "fips"@,
        ),
{
    columns("timestamp", "command", "remote", "exit", "bytes_tx", "fips")
}

/// A row of the table. The number of bytes comes as text.
pub fn row(rec: &AuditRecord, bytes: &str) -> (out: String)
    requires
        fits_column(rec.remote@),
    ensures
        out@ == row_text(*rec, bytes@),
{
    let remote: String = shorten(rec.remote.as_str());
    let exit: String = show_exit(rec.exit_code);
    let fips: &str = if rec.fips_mode {
        "yes"
    } else {
        "no"
    };
    columns(
        rec.ts.as_str(),
        rec.subcommand.as_str(),
        remote.as_str(),
        exit.as_str(),
        bytes,
        fips,
    )
}

/// Whether an answer confirms that the log is to be cleared.
pub fn confirmed(answer: &str) -> (yes: bool)
    ensures
        yes == (text::trimmed(answer@) == "yes"@),
{
    text::same(text::trim(answer).as_str(), "yes")
}

/// How many lines a log has.
pub fn line_count(log: &str) -> (n: usize)
    ensures
        n == text::lines(log@).len(),
{
    text::split_lines(log).len()
}

/// Where to start reading a log of a size to find its last line.
pub fn tail_start(size: u64) -> (at: u64)
    ensures
        at == if size >= TAIL_LEN {
            size - TAIL_LEN
        } else {
            0
        },
{
    if size >= TAIL_LEN {
        size - TAIL_LEN
    } else {
        0
    }
}

/// A text without the line feeds at its end.
pub open spec fn without_feeds(s: Seq<char>) -> Seq<char>
    decreases s.len(),
{
    if s.len() > 0 && s.last() == '\n' {
        without_feeds(s.drop_last())
    } else {
        s
    }
}

/// The last line of a log, of which the end is given.
pub fn last_line(tail: &str) -> (out: String)
    ensures
        out@ == text::split(without_feeds(tail@), '\n').last(),
{
    let chars: Vec<char> = text::chars_of(tail);
    let n: usize = chars.len();
    let mut to: usize = n;
    assert(tail@.take(n as int) =~= tail@);
    while to > 0 && chars[to - 1] == '\n'
        invariant
            to <= n,
            n == chars@.len(),
            chars@ == tail@,
            without_feeds(tail@) == without_feeds(tail@.take(to as int)),
        decreases to,
    {
        assert(tail@.take(to as int).drop_last() =~= tail@.take(to - 1));
        assert(tail@.take(to as int).last() == tail@[to - 1]);
        to = to - 1;
    }
    proof {
        if to > 0 {
            assert(tail@.take(to as int).last() == tail@[to - 1]);
        }
        assert(tail@.subrange(0, to as int) =~= tail@.take(to as int));
    }
    let body: String = text::cut(&chars, 0, to);
    let parts: Vec<String> = text::pieces(body.as_str(), '\n');
    let k: usize = parts.len();
    assert(parts@[k - 1]@ == text::split(body@, '\n').last());
    text::owned(parts[k - 1].as_str())
}

/// Where no filter is given, every entry is kept, in order.
pub proof fn law_no_filter_keeps_all(records: Seq<AuditRecord>, n: int)
    requires
        0 <= n <= records.len(),
    ensures
        kept_places(records, None, None, n) == Seq::new(n as nat, |i: int| i),
    decreases n,
{
    if n > 0 {
        law_no_filter_keeps_all(records, n - 1);
    }
    assert(kept_places(records, None, None, n) =~= Seq::new(n as nat, |i: int| i));
}

/// Up to the year 9999, a filter by time keeps exactly the entries that are not from before it.
pub proof fn law_since_is_a_time(rec: AuditRecord, secs: u64, since: u64)
    requires
        rec.ts@ == calendar::rfc3339_text(secs),
        calendar::year_of(secs) <= 9999,
        calendar::year_of(since) <= 9999,
    ensures
        kept(rec, Some(calendar::rfc3339_text(since)), None) <==> secs >= since,
{
    let t = calendar::rfc3339_text(secs);
    let s = calendar::rfc3339_text(since);
    text::lemma_before_order(t, s);
    calendar::law_time_has_form(secs);
    calendar::law_time_has_form(since);
    assert(t.take(20) =~= t);
    if secs < since {
        calendar::law_times_sort(secs, since);
    }
    if since < secs {
        calendar::law_times_sort(since, secs);
    }
}

/// Up to the year 9999, a filter by date keeps exactly the entries that are not from a day before
/// it.
pub proof fn law_since_is_a_date(rec: AuditRecord, secs: u64, since: u64)
    requires
        rec.ts@ == calendar::rfc3339_text(secs),
        calendar::year_of(secs) <= 9999,
        calendar::year_of(since) <= 9999,
    ensures
        kept(rec, Some(calendar::date_text(since)), None) <==> secs / 86400 >= since / 86400,
{
    let t = calendar::rfc3339_text(secs);
    let d = calendar::date_text(secs);
    let s = calendar::date_text(since);
    let rest = t.skip(10);
    let none = Seq::<char>::empty();
    calendar::law_time_has_form(secs);
    calendar::law_time_has_form(since);
    calendar::law_dates_sort(secs, since);
    calendar::law_dates_sort(since, secs);
    assert(t =~= d + rest);
    assert(s =~= s + none);
    text::lemma_before_concat(d, s, rest, none);
    text::lemma_before_concat(s, d, none, rest);
    text::lemma_before_order(d, s);
    text::lemma_before_order(t, s);
}

/// The entries kept are exactly those that pass the filters, in the order of the log.
pub proof fn law_kept_exactly(
    records: Seq<AuditRecord>,
    since: Option<Seq<char>>,
    host: Option<Seq<char>>,
    n: int,
)
    requires
        0 <= n <= records.len(),
    ensures
        forall|i: int|
            0 <= i < n ==> (kept(#[trigger] records[i], since, host) <==> kept_places(
                records,
                since,
                host,
                n,
            ).contains(i)),
        forall|a: int, b: int|
            0 <= a < b < kept_places(records, since, host, n).len() ==> kept_places(
                records,
                since,
                host,
                n,
            )[a] < kept_places(records, since, host, n)[b],
        forall|a: int|
            0 <= a < kept_places(records, since, host, n).len() ==> 0 <= #[trigger] kept_places(
                records,
                since,
                host,
                n,
            )[a] < n,
    decreases n,
{
    if n > 0 {
        law_kept_exactly(records, since, host, n - 1);
        let p = kept_places(records, since, host, n - 1);
        let q = kept_places(records, since, host, n);
        assert forall|i: int| 0 <= i < n implies (kept(#[trigger] records[i], since, host)
            <==> q.contains(i)) by {
            if q.contains(i) {
                let a = choose|a: int| 0 <= a < q.len() && q[a] == i;
                if a < p.len() {
                    assert(p[a] == i);
                    assert(p.contains(i));
                }
            }
            if kept(records[i], since, host) {
                if i < n - 1 {
                    let a = choose|a: int| 0 <= a < p.len() && p[a] == i;
                    assert(q[a] == i);
                } else {
                    assert(q[q.len() - 1] == i);
                }
            }
        }
    }
}

/// A filter by host keeps exactly the entries whose remote holds the text, wherever it stands, and
/// with both filters an entry has to pass both.
pub proof fn law_filters_combine(rec: AuditRecord, since: Seq<char>, host: Seq<char>)
    ensures
        kept(rec, None, Some(host)) <==> exists|a: Seq<char>, b: Seq<char>|
            rec.remote@ == #[trigger] (a + host + b),
        kept(rec, Some(since), Some(host)) <==> kept(rec, Some(since), None) && kept(
            rec,
            None,
            Some(host),
        ),
        kept(rec, None, None),
{
    text::law_contains(rec.remote@, host);
}

/// With a limit the last entries are shown, as many as the limit says, in order; with a limit of
/// zero all of them.
pub proof fn law_limit_keeps_last(list: Seq<int>, limit: int)
    requires
        limit >= 0,
    ensures
        limit == 0 || list.len() <= limit ==> last_of(list, limit) == list,
        0 < limit < list.len() ==> last_of(list, limit).len() == limit && list == list.take(
            list.len() - limit,
        ) + last_of(list, limit),
{
    if 0 < limit < list.len() {
        assert(list =~= list.take(list.len() - limit) + last_of(list, limit));
    }
}

/// An exit code of zero is success, any other is an error that is named, and none is a dash.
pub proof fn law_exit_shown(n: i32)
    ensures
        exit_text(Some(0)) == "ok"@,
        n != 0 ==> exit_text(Some(n)) == "err("@ + text::signed_decimal(n as int) + ")"@,
        exit_text(None) == "-"@,
{
}

/// The last line of a log is what follows the last line feed but those at its end.
pub proof fn law_last_line(before: Seq<char>, line: Seq<char>, feeds: nat)
    requires
        line.len() > 0,
        forall|i: int| 0 <= i < line.len() ==> #[trigger] line[i] != '\n',
    ensures
        text::split(
            without_feeds(before + seq!['\n'] + line + text::repeated('\n', feeds)),
            '\n',
        ).last() == line,
        text::split(without_feeds(line + text::repeated('\n', feeds)), '\n').last() == line,
{
    let x = before + seq!['\n'] + line;
    lemma_without_feeds(x, feeds);
    lemma_without_feeds(line, feeds);
    assert(x + text::repeated('\n', feeds) =~= before + seq!['\n'] + line + text::repeated(
        '\n',
        feeds,
    ));
    lemma_last_piece(before + seq!['\n'], line);
    lemma_last_piece(Seq::empty(), line);
    assert(Seq::<char>::empty() + line =~= line);
    assert((before + seq!['\n']).drop_last() =~= before);
}

proof fn lemma_without_feeds(x: Seq<char>, feeds: nat)
    requires
        x.len() > 0,
        x.last() != '\n',
    ensures
        without_feeds(x + text::repeated('\n', feeds)) == x,
    decreases feeds,
{
    let s = x + text::repeated('\n', feeds);
    if feeds == 0 {
        assert(s =~= x);
    } else {
        lemma_without_feeds(x, (feeds - 1) as nat);
        assert(s.drop_last() =~= x + text::repeated('\n', (feeds - 1) as nat));
    }
}

proof fn lemma_last_piece(s: Seq<char>, t: Seq<char>)
    requires
        s.len() == 0 || s.last() == '\n',
        forall|i: int| 0 <= i < t.len() ==> #[trigger] t[i] != '\n',
    ensures
        text::split(s + t, '\n').last() == t,
    decreases t.len(),
{
    if t.len() == 0 {
        assert(s + t =~= s);
        assert(text::split(s, '\n').last() =~= t);
    } else {
        let u = t.drop_last();
        assert forall|i: int| 0 <= i < u.len() implies #[trigger] u[i] != '\n' by {
            assert(u[i] == t[i]);
        }
        lemma_last_piece(s, u);
        assert(t[t.len() - 1] != '\n');
        assert((s + t).drop_last() =~= s + u);
        assert(u.push(t.last()) =~= t);
    }
}

/// A remote that fits into its column is shown whole, and a longer one is cut to 27 bytes with an
/// ellipsis behind it.
pub proof fn law_remote_column(remote: Seq<char>)
    ensures
        utf8::encode_utf8(remote).len() <= 28 ==> column_text(remote) == remote && fits_column(
            remote,
        ),
        utf8::encode_utf8(remote).len() > 28 ==> column_text(remote) == utf8::decode_utf8(
            utf8::encode_utf8(remote).take(27),
        ) + "…"@,
{
    let b = utf8::encode_utf8(remote);
    if b.len() > 28 {
        assert(b.take(27) =~= b.subrange(0, 27));
    }
}

/// How much of the log is read to find its last line.
pub proof fn law_tail()
    ensures
        TAIL_LEN == 2048,
{
}

/// A row shows the time, the command, the remote, the exit, the bytes and whether FIPS mode was
/// on, in columns of fixed width.
pub proof fn law_row_columns(rec: AuditRecord, bytes: Seq<char>)
    requires
        rec.ts@.len() <= 25,
        rec.subcommand@.len() <= 10,
        column_text(rec.remote@).len() <= 28,
        exit_text(rec.exit_code).len() <= 6,
        bytes.len() <= 10,
    ensures
        ({
            let r = row_text(rec, bytes);
            &&& text::has_prefix(r, rec.ts@)
            &&& r.subrange(26, 26 + rec.subcommand@.len() as int) == rec.subcommand@
            &&& r.subrange(37, 37 + column_text(rec.remote@).len() as int) == column_text(
                rec.remote@,
            )
            &&& r.subrange(66, 66 + exit_text(rec.exit_code).len() as int) == exit_text(
                rec.exit_code,
            )
            &&& r.subrange(73, 73 + bytes.len() as int) == bytes
            &&& r.skip(84) == if rec.fips_mode {
                "yes"@
            } else {
                "no"@
            }
        }),
{
    let r = row_text(rec, bytes);
    reveal_strlit(" ");
    text::law_widths(rec.ts@, 25);
    text::law_widths(rec.subcommand@, 10);
    text::law_widths(column_text(rec.remote@), 28);
    text::law_widths(exit_text(rec.exit_code), 6);
    text::law_widths(bytes, 10);
    assert(r.take(rec.ts@.len() as int) =~= rec.ts@);
    assert(r.subrange(26, 26 + rec.subcommand@.len() as int) =~= rec.subcommand@);
    assert(r.subrange(37, 37 + column_text(rec.remote@).len() as int) =~= column_text(rec.remote@));
    assert(r.subrange(66, 66 + exit_text(rec.exit_code).len() as int) =~= exit_text(rec.exit_code));
    assert(r.subrange(73, 73 + bytes.len() as int) =~= bytes);
    assert(r.skip(84) =~= if rec.fips_mode {
        "yes"@
    } else {
        "no"@
    });
}

} // verus!
