//! What a check finds: lines to show, and whether the check has failed.

use vstd::prelude::*;
use vstd::string::*;
use crate::text;

verus! {

/// What a check finds.
#[derive(Debug)]
pub struct Finding {
    pub lines: Vec<String>,
    /// Whether the check has failed.
    pub fatal: bool,
}

/// The lines of a finding, and whether it is fatal.
#[verifier::ext_equal]
pub struct FindingModel {
    pub lines: Seq<Seq<char>>,
    pub fatal: bool,
}

impl View for Finding {
    type V = FindingModel;

    open spec fn view(&self) -> FindingModel {
        FindingModel { lines: text::texts(self.lines@), fatal: self.fatal }
    }
}

/// A finding that lets the check pass.
pub open spec fn fine(lines: Seq<Seq<char>>) -> FindingModel {
    FindingModel { lines, fatal: false }
}

/// A finding that fails the check.
pub open spec fn fatal(lines: Seq<Seq<char>>) -> FindingModel {
    FindingModel { lines, fatal: true }
}

/// A finding without lines.
pub fn nothing() -> (f: Finding)
    ensures
        f@ == fine(Seq::empty()),
{
    let f = Finding { lines: Vec::new(), fatal: false };
    assert(f@ =~= fine(Seq::empty()));
    f
}

/// A finding of one line.
pub fn one(line: String, fatal: bool) -> (f: Finding)
    ensures
        f@ == (FindingModel { lines: seq![line@], fatal }),
{
    let ghost a = line@;
    let mut lines: Vec<String> = Vec::new();
    lines.push(line);
    let f = Finding { lines, fatal };
    assert(f@.lines =~= seq![a]);
    f
}

/// A finding of two lines.
pub fn two(first: String, second: &str, fatal: bool) -> (f: Finding)
    ensures
        f@ == (FindingModel { lines: seq![first@, second@], fatal }),
{
    let ghost a = first@;
    let mut lines: Vec<String> = Vec::new();
    lines.push(first);
    lines.push(text::owned(second));
    let f = Finding { lines, fatal };
    assert(f@.lines =~= seq![a, second@]);
    f
}

/// A finding of three lines.
pub fn three(first: String, second: &str, third: &str, fatal: bool) -> (f: Finding)
    ensures
        f@ == (FindingModel { lines: seq![first@, second@, third@], fatal }),
{
    let ghost a = first@;
    let mut lines: Vec<String> = Vec::new();
    lines.push(first);
    lines.push(text::owned(second));
    lines.push(text::owned(third));
    let f = Finding { lines, fatal };
    assert(f@.lines =~= seq![a, second@, third@]);
    f
}

/// What two checks find.
pub open spec fn joined(a: FindingModel, b: FindingModel) -> FindingModel {
    FindingModel { lines: a.lines + b.lines, fatal: a.fatal || b.fatal }
}

impl Finding {
    /// Appends what another check finds.
    pub fn append(&mut self, other: Finding)
        ensures
            final(self)@ == joined(old(self)@, other@),
    {
        let ghost start = self@;
        let ghost more = other@;
        let Finding { lines, fatal } = other;
        let mut rest: Vec<String> = lines;
        let ghost a = self.lines@;
        let ghost b = rest@;
        self.lines.append(&mut rest);
        self.fatal = self.fatal || fatal;
        assert(text::texts(self.lines@) =~= text::texts(a) + text::texts(b));
        assert(self@ =~= joined(start, more));
    }
}

/// Whether no check has failed.
pub open spec fn all_pass(findings: Seq<Finding>) -> bool {
    forall|i: int| 0 <= i < findings.len() ==> !(#[trigger] findings[i]).fatal
}

/// Whether no check has failed.
pub fn passed(findings: &Vec<Finding>) -> (ok: bool)
    ensures
        ok == all_pass(findings@),
{
    let n: usize = findings.len();
    for i in 0..n
        invariant
            n == findings@.len(),
            forall|j: int| 0 <= j < i ==> !(#[trigger] findings@[j]).fatal,
    {
        if findings[i].fatal {
            return false;
        }
    }
    true
}

/// Findings that are joined have the lines of both in order, and fail if either does; the whole
/// passes exactly if no finding fails.
pub proof fn law_findings_join(a: FindingModel, b: FindingModel, findings: Seq<Finding>)
    ensures
        joined(a, b).lines == a.lines + b.lines,
        joined(a, b).fatal <==> a.fatal || b.fatal,
        !all_pass(findings) <==> exists|i: int|
            0 <= i < findings.len() && (#[trigger] findings[i]).fatal,
        !fine(a.lines).fatal,
        fatal(a.lines).fatal,
        fine(a.lines).lines == a.lines,
        fatal(a.lines).lines == a.lines,
{
}

} // verus!
