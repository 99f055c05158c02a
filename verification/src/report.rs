//! One file's measurement, and the sums over sequences of files.

use vstd::prelude::*;

verus! {

/// The three line counters that every measurement carries.
pub struct Counts {
    pub code: nat,
    pub comments: nat,
    pub blanks: nat,
}

impl Counts {
    pub open spec fn zero() -> Counts {
        Counts { code: 0, comments: 0, blanks: 0 }
    }

    pub open spec fn plus(self, other: Counts) -> Counts {
        Counts {
            code: self.code + other.code,
            comments: self.comments + other.comments,
            blanks: self.blanks + other.blanks,
        }
    }

    /// Every line is a code line, a comment line or a blank line.
    pub open spec fn lines(self) -> nat {
        self.code + self.comments + self.blanks
    }
}

/// What one measured file is, mathematically.
pub struct ReportView {
    pub path: Seq<char>,
    pub code: nat,
    pub comments: nat,
    pub blanks: nat,
}

impl ReportView {
    pub open spec fn counts(self) -> Counts {
        Counts { code: self.code, comments: self.comments, blanks: self.blanks }
    }

    pub open spec fn lines(self) -> nat {
        self.counts().lines()
    }
}

/// The counters of a sequence of files, added up file by file.
pub open spec fn sum_counts(reports: Seq<ReportView>) -> Counts
    decreases reports.len(),
{
    if reports.len() == 0 {
        Counts::zero()
    } else {
        sum_counts(reports.drop_last()).plus(reports.last().counts())
    }
}

/// Adding one file to a sequence adds its counters to the sum.
pub proof fn lemma_sum_counts_push(reports: Seq<ReportView>, report: ReportView)
    ensures
        sum_counts(reports.push(report)) == sum_counts(reports).plus(report.counts()),
{
    assert(reports.push(report).drop_last() == reports);
}

/// The sum over a concatenation is the sum of the two sums, so the order in
/// which groups of files are merged does not change the counters.
pub proof fn lemma_sum_counts_concat(left: Seq<ReportView>, right: Seq<ReportView>)
    ensures
        sum_counts(left + right) == sum_counts(left).plus(sum_counts(right)),
    decreases right.len(),
{
    if right.len() > 0 {
        assert((left + right).drop_last() == left + right.drop_last());
        lemma_sum_counts_concat(left, right.drop_last());
    }
}

/// One file's measurement: its path and its code, comment and blank lines.
/// The three counters always add up to a line count that fits the machine.
#[derive(Debug, PartialEq, Eq)]
pub struct Report {
    pub(crate) path: String,
    pub(crate) code: usize,
    pub(crate) comments: usize,
    pub(crate) blanks: usize,
}

impl View for Report {
    type V = ReportView;

    open(crate) spec fn view(&self) -> ReportView {
        ReportView {
            path: self.path@,
            code: self.code as nat,
            comments: self.comments as nat,
            blanks: self.blanks as nat,
        }
    }
}

/// The views of a sequence of files, in the same order.
pub open spec fn report_views(reports: Seq<Report>) -> Seq<ReportView> {
    reports.map_values(|r: Report| r@)
}

impl Report {
    #[verifier::type_invariant]
    pub open(crate) spec fn lines_fit(&self) -> bool {
        self.code + self.comments + self.blanks <= usize::MAX
    }

    /// Makes a measurement, unless its line count would not fit the machine.
    pub fn new(path: String, code: usize, comments: usize, blanks: usize) -> (made: Option<Report>)
        ensures
            made is Some <==> code + comments + blanks <= usize::MAX,
            made is Some ==> made->0@ == (ReportView {
                path: path@,
                code: code as nat,
                comments: comments as nat,
                blanks: blanks as nat,
            }),
    {
        match code.checked_add(comments) {
            Some(counted) => match counted.checked_add(blanks) {
                Some(_) => Some(Report { path, code, comments, blanks }),
                None => None,
            },
            None => None,
        }
    }

    pub fn path(&self) -> (path: &String)
        ensures
            path@ == self@.path,
    {
        &self.path
    }

    pub fn code(&self) -> (code: usize)
        ensures
            code == self@.code,
    {
        self.code
    }

    pub fn comments(&self) -> (comments: usize)
        ensures
            comments == self@.comments,
    {
        self.comments
    }

    pub fn blanks(&self) -> (blanks: usize)
        ensures
            blanks == self@.blanks,
    {
        self.blanks
    }

    /// The file's line count: code, comments and blanks together.
    pub fn lines(&self) -> (lines: usize)
        ensures
            lines == self@.lines(),
            lines == self@.code + self@.comments + self@.blanks,
    {
        proof {
            use_type_invariant(self);
        }
        self.code + self.comments + self.blanks
    }
}

impl Clone for Report {
    fn clone(&self) -> (copy: Report)
        ensures
            copy@ == self@,
    {
        proof {
            use_type_invariant(self);
        }
        Report {
            path: self.path.clone(),
            code: self.code,
            comments: self.comments,
            blanks: self.blanks,
        }
    }
}

} // verus!
