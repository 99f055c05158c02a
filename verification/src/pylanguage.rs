//! The statistics of one language: its files and its counters.

use vstd::prelude::*;
use crate::report::{
    lemma_sum_counts_push, report_views, sum_counts, Counts, Report, ReportView,
};

verus! {

/// What a per-language aggregate is, mathematically: the files counted for
/// the language, in the order in which they were found. Its counters are
/// derived from the files and from nothing else.
pub struct LanguageView {
    pub children: Seq<ReportView>,
}

impl LanguageView {
    pub open spec fn counts(self) -> Counts {
        sum_counts(self.children)
    }

    pub open spec fn code(self) -> nat {
        self.counts().code
    }

    pub open spec fn comments(self) -> nat {
        self.counts().comments
    }

    pub open spec fn blanks(self) -> nat {
        self.counts().blanks
    }

    pub open spec fn lines(self) -> nat {
        self.counts().lines()
    }

    pub open spec fn files(self) -> nat {
        self.children.len()
    }

    /// The aggregate with one more file at the end.
    pub open spec fn with(self, report: ReportView) -> LanguageView {
        LanguageView { children: self.children.push(report) }
    }

    /// The files as flat records, in the same order.
    pub open spec fn flat(self) -> Seq<FlatView> {
        self.children.map_values(|r: ReportView| flat_of(r))
    }

    /// The summary row: how many files, and the counters.
    pub open spec fn summary(self) -> SummaryView {
        SummaryView {
            files: self.files(),
            lines: self.lines(),
            code: self.code(),
            comments: self.comments(),
            blanks: self.blanks(),
        }
    }

    /// Whether the aggregate's line count fits the machine.
    pub open spec fn fits(self) -> bool {
        self.lines() <= usize::MAX
    }
}

/// One file as a flat record, mathematically.
pub struct FlatView {
    pub path: Seq<char>,
    pub code: nat,
    pub comments: nat,
    pub blanks: nat,
    pub lines: nat,
}

/// The flat record of a file: what its report says, with the line count
/// written out.
pub open spec fn flat_of(report: ReportView) -> FlatView {
    FlatView {
        path: report.path,
        code: report.code,
        comments: report.comments,
        blanks: report.blanks,
        lines: report.lines(),
    }
}

/// The summary row of a language, mathematically.
pub struct SummaryView {
    pub files: nat,
    pub lines: nat,
    pub code: nat,
    pub comments: nat,
    pub blanks: nat,
}

/// One file as a flat record, with its line count written out.
#[derive(Debug, PartialEq, Eq)]
pub struct FlatReport {
    pub path: String,
    pub code: usize,
    pub comments: usize,
    pub blanks: usize,
    pub lines: usize,
}

impl View for FlatReport {
    type V = FlatView;

    open spec fn view(&self) -> FlatView {
        FlatView {
            path: self.path@,
            code: self.code as nat,
            comments: self.comments as nat,
            blanks: self.blanks as nat,
            lines: self.lines as nat,
        }
    }
}

/// The views of a list of flat records, in the same order.
pub open spec fn flat_views(flat: Seq<FlatReport>) -> Seq<FlatView> {
    flat.map_values(|f: FlatReport| f@)
}

/// A language's summary row: its file count and its counters, without the
/// files themselves.
#[derive(Debug, Clone, Copy, PartialEq, Eq)]
pub struct Summary {
    pub files: usize,
    pub lines: usize,
    pub code: usize,
    pub comments: usize,
    pub blanks: usize,
}

impl View for Summary {
    type V = SummaryView;

    open spec fn view(&self) -> SummaryView {
        SummaryView {
            files: self.files as nat,
            lines: self.lines as nat,
            code: self.code as nat,
            comments: self.comments as nat,
            blanks: self.blanks as nat,
        }
    }
}

/// The statistics of one language: its files and the running counters, which
/// always equal the sums over the files.
#[derive(Debug, PartialEq, Eq)]
pub struct PyLanguage {
    pub(crate) children: Vec<Report>,
    pub(crate) code: usize,
    pub(crate) comments: usize,
    pub(crate) blanks: usize,
}

impl View for PyLanguage {
    type V = LanguageView;

    open(crate) spec fn view(&self) -> LanguageView {
        LanguageView { children: report_views(self.children@) }
    }
}

impl PyLanguage {
    #[verifier::type_invariant]
    pub open(crate) spec fn counters_hold(&self) -> bool {
        &&& self.code == sum_counts(report_views(self.children@)).code
        &&& self.comments == sum_counts(report_views(self.children@)).comments
        &&& self.blanks == sum_counts(report_views(self.children@)).blanks
        &&& self.code + self.comments + self.blanks <= usize::MAX
    }

    /// An aggregate without files.
    pub fn new() -> (language: PyLanguage)
        ensures
            language@.children == Seq::<ReportView>::empty(),
    {
        let language = PyLanguage { children: Vec::new(), code: 0, comments: 0, blanks: 0 };
        language
    }

    /// Whether one more file can be counted without leaving the machine's range.
    pub fn has_room_for(&self, report: &Report) -> (room: bool)
        ensures
            room == self@.with(report@).fits(),
    {
        proof {
            use_type_invariant(self);
            lemma_sum_counts_push(self@.children, report@);
        }
        let held = self.code + self.comments + self.blanks;
        match held.checked_add(report.lines()) {
            Some(_) => true,
            None => false,
        }
    }

    /// Appends a file and brings the counters up to date.
    pub fn add_report(&mut self, report: Report)
        requires
            old(self)@.with(report@).fits(),
        ensures
            final(self)@ == old(self)@.with(report@),
    {
        let mut taken = PyLanguage::new();
        core::mem::swap(self, &mut taken);
        proof {
            use_type_invariant(&taken);
            use_type_invariant(&report);
            lemma_sum_counts_push(taken@.children, report@);
        }
        let PyLanguage { children, code, comments, blanks } = taken;
        let mut children = children;
        let code = code + report.code;
        let comments = comments + report.comments;
        let blanks = blanks + report.blanks;
        children.push(report);
        assert(report_views(children@) == report_views(old(self).children@).push(report@));
        *self = PyLanguage { children, code, comments, blanks };
    }

    pub fn code(&self) -> (code: usize)
        ensures
            code == self@.code(),
    {
        proof {
            use_type_invariant(self);
        }
        self.code
    }

    pub fn comments(&self) -> (comments: usize)
        ensures
            comments == self@.comments(),
    {
        proof {
            use_type_invariant(self);
        }
        self.comments
    }

    pub fn blanks(&self) -> (blanks: usize)
        ensures
            blanks == self@.blanks(),
    {
        proof {
            use_type_invariant(self);
        }
        self.blanks
    }

    /// The language's line count: code, comments and blanks together.
    pub fn lines(&self) -> (lines: usize)
        ensures
            lines == self@.lines(),
            lines == self@.code() + self@.comments() + self@.blanks(),
    {
        proof {
            use_type_invariant(self);
        }
        self.code + self.comments + self.blanks
    }

    /// The number of files counted for the language.
    pub fn files(&self) -> (files: usize)
        ensures
            files == self@.files(),
    {
        self.children.len()
    }

    /// The files counted for the language, in the order in which they were found.
    pub fn children(&self) -> (children: &Vec<Report>)
        ensures
            report_views(children@) == self@.children,
    {
        &self.children
    }

    /// The files as flat records, in the same order.
    pub fn reports_plain(&self) -> (flat: Vec<FlatReport>)
        ensures
            flat_views(flat@) == self@.flat(),
    {
        let mut flat: Vec<FlatReport> = Vec::new();
        let mut at: usize = 0;
        while at < self.children.len()
            invariant
                at <= self.children@.len(),
                flat@.len() == at,
                forall|i: int| 0 <= i < at ==> (#[trigger] flat@[i])@ == flat_of(self@.children[i]),
            decreases self.children@.len() - at,
        {
            let report = &self.children[at];
            flat.push(
                FlatReport {
                    path: report.path().clone(),
                    code: report.code(),
                    comments: report.comments(),
                    blanks: report.blanks(),
                    lines: report.lines(),
                },
            );
            at = at + 1;
        }
        flat
    }

    /// The summary row: the file count and the counters, without the files.
    pub fn summarise(&self) -> (summary: Summary)
        ensures
            summary@ == self@.summary(),
    {
        Summary {
            files: self.files(),
            lines: self.lines(),
            code: self.code(),
            comments: self.comments(),
            blanks: self.blanks(),
        }
    }
}

impl Clone for PyLanguage {
    fn clone(&self) -> (copy: PyLanguage)
        ensures
            copy@ == self@,
    {
        proof {
            use_type_invariant(self);
        }
        let mut children: Vec<Report> = Vec::new();
        let mut at: usize = 0;
        while at < self.children.len()
            invariant
                at <= self.children@.len(),
                report_views(children@) == self@.children.take(at as int),
            decreases self.children@.len() - at,
        {
            children.push(self.children[at].clone());
            assert(report_views(children@) == self@.children.take(at as int).push(
                self@.children[at as int],
            ));
            at = at + 1;
        }
        assert(self@.children.take(at as int) == self@.children);
        PyLanguage { children, code: self.code, comments: self.comments, blanks: self.blanks }
    }
}

} // verus!
