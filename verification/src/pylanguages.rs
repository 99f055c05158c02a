//! The statistics store and its read-only projections.

use vstd::prelude::*;
use crate::ignore::{effective_ignore_set, resolve, IoFailure, RulesResource};
use crate::languages_view::{
    gathered, lemma_absorb_grows, lemma_absorb_totals, lemma_absorb_wf, lemma_entry_within_total,
    lemma_gathered_next, lemma_gathered_prefix, lemma_measured_prefix, lemma_rank_splits,
    lemma_record_at, measured, rank, EntryView, FindingView, LanguagesView,
};
use crate::pylanguage::{flat_views, FlatReport, FlatView, PyLanguage, Summary, SummaryView};
use crate::pylanguage_type::{name_before, PyLanguageType};
use crate::report::{lemma_sum_counts_push, report_views, sum_counts, Report, ReportView};
use crate::text::texts;

verus! {

/// The entries that a list of tagged aggregates stands for.
pub open spec fn entry_views(entries: Seq<(PyLanguageType, PyLanguage)>) -> Seq<EntryView> {
    entries.map_values(
        |e: (PyLanguageType, PyLanguage)| EntryView { name: e.0@, language: e.1@ },
    )
}

/// The findings that a list of classification results stands for.
pub open spec fn finding_views(found: Seq<Option<(PyLanguageType, Report)>>) -> Seq<
    FindingView,
> {
    found.map_values(
        |f: Option<(PyLanguageType, Report)>|
            match f {
                Some((tag, report)) => Some((tag@, report@)),
                None => None,
            },
    )
}

/// What a list of named file counts says.
pub open spec fn count_views(rows: Seq<(String, usize)>) -> Seq<(Seq<char>, nat)> {
    rows.map_values(|row: (String, usize)| (row.0@, row.1 as nat))
}

/// What a list of named lists of flat records says.
pub open spec fn plain_views(rows: Seq<(String, Vec<FlatReport>)>) -> Seq<
    (Seq<char>, Seq<FlatView>),
> {
    rows.map_values(|row: (String, Vec<FlatReport>)| (row.0@, flat_views(row.1@)))
}

/// What a list of named summary rows says.
pub open spec fn summary_views(rows: Seq<(String, Summary)>) -> Seq<(Seq<char>, SummaryView)> {
    rows.map_values(|row: (String, Summary)| (row.0@, row.1@))
}

/// Why a lookup found nothing: the store has no entry for the language.
#[derive(Debug, PartialEq, Eq)]
pub struct NotFoundError {
    pub language: String,
}

impl NotFoundError {
    /// The words that say which language was not found.
    pub fn message(&self) -> (message: String)
        ensures
            message@ == "LanguageType not found: "@ + self.language@,
    {
        String::from_str("LanguageType not found: ").concat(self.language.as_str())
    }
}

/// The statistics store: one aggregate per language that had a file, in the
/// order of the languages' names.
#[derive(Debug, PartialEq, Eq)]
pub struct PyLanguages {
    pub(crate) languages: Vec<(PyLanguageType, PyLanguage)>,
}

impl View for PyLanguages {
    type V = LanguagesView;

    open(crate) spec fn view(&self) -> LanguagesView {
        LanguagesView { entries: entry_views(self.languages@) }
    }
}

/// The rank of a language among the entries: how many of them have a name
/// that comes before the language's.
fn rank_of(
    languages: &Vec<(PyLanguageType, PyLanguage)>,
    tag: &PyLanguageType,
) -> (at: usize)
    requires
        (LanguagesView { entries: entry_views(languages@) }).wf(),
    ensures
        at == rank(entry_views(languages@), tag@),
        at <= languages@.len(),
{
    let ghost store = LanguagesView { entries: entry_views(languages@) };
    proof {
        lemma_rank_splits(store, tag@);
    }
    let mut at: usize = 0;
    while at < languages.len() && languages[at].0.comes_before(tag)
        invariant
            at <= languages@.len(),
            store.entries == entry_views(languages@),
            at <= rank(store.entries, tag@) <= languages@.len(),
            forall|i: int|
                0 <= i < store.entries.len() ==> (name_before(
                    (#[trigger] store.entries[i]).name,
                    tag@,
                ) <==> i < rank(store.entries, tag@)),
        decreases languages@.len() - at,
    {
        assert(name_before(store.entries[at as int].name, tag@));
        at = at + 1;
    }
    proof {
        if at < languages@.len() {
            assert(!name_before(store.entries[at as int].name, tag@));
        }
    }
    at
}

/// Counts one classified file among the entries.
fn record_into(
    languages: &mut Vec<(PyLanguageType, PyLanguage)>,
    tag: PyLanguageType,
    report: Report,
)
    requires
        (LanguagesView { entries: entry_views(old(languages)@) }).wf(),
        (LanguagesView { entries: entry_views(old(languages)@) }).record(tag@, report@)
            .total().lines() <= usize::MAX,
    ensures
        (LanguagesView { entries: entry_views(final(languages)@) }) == (LanguagesView {
            entries: entry_views(old(languages)@),
        }).record(tag@, report@),
{
    let ghost before = LanguagesView { entries: entry_views(languages@) };
    let ghost after = before.record(tag@, report@);
    proof {
        lemma_record_at(before, tag@, report@);
    }
    let at = rank_of(languages, &tag);
    if at < languages.len() && languages[at].0.same_as(&tag) {
        proof {
            lemma_entry_within_total(after.entries, at as int);
        }
        let slot = &mut languages[at];
        slot.1.add_report(report);
        assert(entry_views(languages@) == after.entries);
    } else {
        proof {
            use_type_invariant(&report);
            lemma_sum_counts_push(Seq::empty(), report@);
        }
        let mut language = PyLanguage::new();
        language.add_report(report);
        languages.insert(at, (tag, language));
        assert(entry_views(languages@) == after.entries);
    }
}

/// Where the entry of a language stands among the entries, if it has one.
fn position_of(
    languages: &Vec<(PyLanguageType, PyLanguage)>,
    tag: &PyLanguageType,
) -> (at: Option<usize>)
    requires
        (LanguagesView { entries: entry_views(languages@) }).wf(),
    ensures
        at is Some <==> (LanguagesView { entries: entry_views(languages@) }).has(tag@),
        at matches Some(i) ==> i < languages@.len() && i == rank(entry_views(languages@), tag@)
            && entry_views(languages@)[i as int].name == tag@,
{
    let ghost store = LanguagesView { entries: entry_views(languages@) };
    proof {
        lemma_record_at(store, tag@, arbitrary());
    }
    let at = rank_of(languages, tag);
    if at < languages.len() && languages[at].0.same_as(tag) {
        Some(at)
    } else {
        None
    }
}

impl PyLanguages {
    #[verifier::type_invariant]
    pub open(crate) spec fn sound(&self) -> bool {
        self@.wf() && self@.fits()
    }

    /// A store without entries.
    pub fn new() -> (store: PyLanguages)
        ensures
            store@.entries == Seq::<EntryView>::empty(),
    {
        PyLanguages { languages: Vec::new() }
    }

    /// Whether the store can take a scan's findings: whether the grand total
    /// would still fit the machine with them.
    pub fn has_room_for(&self, found: &Vec<Option<(PyLanguageType, Report)>>) -> (room: bool)
        ensures
            room == self@.absorb(finding_views(found@)).fits(),
    {
        proof {
            use_type_invariant(self);
        }
        let ghost findings = finding_views(found@);
        let held = self.total_plain();
        let mut files: usize = held.files;
        let mut lines: usize = held.lines;
        let mut at: usize = 0;
        proof {
            lemma_absorb_totals(self@, findings);
        }
        while at < found.len()
            invariant
                at <= found@.len(),
                findings == finding_views(found@),
                files == self@.total().files() + measured(findings.take(at as int)).len(),
                lines == self@.total().lines() + sum_counts(
                    measured(findings.take(at as int)),
                ).lines(),
                self@.absorb(findings).total().files() == self@.total().files() + measured(
                    findings,
                ).len(),
                self@.absorb(findings).total().lines() == self@.total().lines() + sum_counts(
                    measured(findings),
                ).lines(),
            decreases found@.len() - at,
        {
            proof {
                assert(findings.take(at + 1).drop_last() == findings.take(at as int));
                lemma_measured_prefix(findings, at + 1);
            }
            match &found[at] {
                Some((_, report)) => {
                    proof {
                        lemma_sum_counts_push(measured(findings.take(at as int)), report@);
                    }
                    match files.checked_add(1) {
                        Some(more) => {
                            files = more;
                        },
                        None => {
                            return false;
                        },
                    }
                    match lines.checked_add(report.lines()) {
                        Some(more) => {
                            lines = more;
                        },
                        None => {
                            return false;
                        },
                    }
                },
                None => {},
            }
            at = at + 1;
        }
        assert(findings.take(at as int) == findings);
        true
    }

    /// Folds a scan's findings into the store, in order: each classified file
    /// joins the entry of its language, which is made on its first file; a
    /// path that no language claims is passed over.
    pub fn absorb(&mut self, found: Vec<Option<(PyLanguageType, Report)>>)
        requires
            old(self)@.absorb(finding_views(found@)).fits(),
        ensures
            final(self)@ == old(self)@.absorb(finding_views(found@)),
    {
        let mut taken = PyLanguages::new();
        core::mem::swap(self, &mut taken);
        proof {
            use_type_invariant(&taken);
        }
        let ghost start = taken@;
        let ghost findings = finding_views(found@);
        let PyLanguages { languages } = taken;
        let mut languages = languages;
        for finding in it: found
            invariant
                it.seq() == found@,
                findings == finding_views(found@),
                start.wf(),
                start.absorb(findings).fits(),
                (LanguagesView { entries: entry_views(languages@) }) == start.absorb(
                    findings.take(it.index() as int),
                ),
        {
            proof {
                let at = it.index() as int;
                assert(findings.take(at + 1).drop_last() == findings.take(at));
                lemma_absorb_wf(start, findings.take(at));
                lemma_absorb_grows(start, findings, at + 1);
            }
            match finding {
                Some((tag, report)) => {
                    record_into(&mut languages, tag, report);
                },
                None => {},
            }
        }
        proof {
            assert(findings.take(found@.len() as int) == findings);
            lemma_absorb_wf(start, findings);
        }
        *self = PyLanguages { languages };
    }

    /// Runs the store's part of a scan. The effective ignore set is resolved
    /// from the caller's patterns and from what was found where the default
    /// rules are kept. Where that fails, the call fails with the same failure
    /// and the store stays as it was; otherwise the findings of the scan that
    /// was made with that set are folded into the store.
    pub fn get_statistics(
        &mut self,
        ignored: Vec<String>,
        rules: RulesResource,
        found: Vec<Option<(PyLanguageType, Report)>>,
    ) -> (outcome: Result<(), IoFailure>)
        requires
            effective_ignore_set(texts(ignored@), rules@) is Ok ==> old(self)@.absorb(
                finding_views(found@),
            ).fits(),
        ensures
            match effective_ignore_set(texts(ignored@), rules@) {
                Ok(_) => outcome is Ok && final(self)@ == old(self)@.absorb(
                    finding_views(found@),
                ),
                Err(failure) => outcome is Err && outcome->Err_0@ == failure && final(self)@
                    == old(self)@,
            },
    {
        match resolve(ignored, rules) {
            Ok(_) => {
                self.absorb(found);
                Ok(())
            },
            Err(failure) => Err(failure),
        }
    }

    /// The grand total as one summary row: the files of all languages and the
    /// sums of their counters.
    pub fn total_plain(&self) -> (summary: Summary)
        ensures
            summary@ == self@.total().summary(),
    {
        proof {
            use_type_invariant(self);
        }
        let ghost entries = self@.entries;
        let mut files: usize = 0;
        let mut code: usize = 0;
        let mut comments: usize = 0;
        let mut blanks: usize = 0;
        let mut at: usize = 0;
        while at < self.languages.len()
            invariant
                at <= self.languages@.len(),
                entries == entry_views(self.languages@),
                self@.fits(),
                files == gathered(entries.take(at as int)).len(),
                code == sum_counts(gathered(entries.take(at as int))).code,
                comments == sum_counts(gathered(entries.take(at as int))).comments,
                blanks == sum_counts(gathered(entries.take(at as int))).blanks,
            decreases self.languages@.len() - at,
        {
            proof {
                lemma_gathered_next(entries, at as int);
                lemma_gathered_prefix(entries, at + 1);
            }
            let language = &self.languages[at].1;
            files = files + language.files();
            code = code + language.code();
            comments = comments + language.comments();
            blanks = blanks + language.blanks();
            at = at + 1;
        }
        assert(entries.take(at as int) == entries);
        Summary { files, lines: code + comments + blanks, code, comments, blanks }
    }

    /// The grand total as an aggregate: its files are the files of all
    /// languages, language after language, and its counters their sums. The
    /// store itself is left as it is.
    pub fn total(&self) -> (total: PyLanguage)
        ensures
            total@ == self@.total(),
    {
        let summary = self.total_plain();
        let ghost entries = self@.entries;
        let mut children: Vec<Report> = Vec::new();
        let mut at: usize = 0;
        while at < self.languages.len()
            invariant
                at <= self.languages@.len(),
                entries == entry_views(self.languages@),
                report_views(children@) == gathered(entries.take(at as int)),
            decreases self.languages@.len() - at,
        {
            let reports = self.languages[at].1.children();
            let ghost before = report_views(children@);
            let mut next: usize = 0;
            while next < reports.len()
                invariant
                    next <= reports@.len(),
                    report_views(children@) == before + report_views(reports@).take(next as int),
                decreases reports@.len() - next,
            {
                let ghost counted = report_views(children@);
                children.push(reports[next].clone());
                assert(report_views(children@) == counted.push(reports@[next as int]@));
                next = next + 1;
            }
            proof {
                lemma_gathered_next(entries, at as int);
            }
            at = at + 1;
        }
        assert(entries.take(at as int) == entries);
        PyLanguage {
            children,
            code: summary.code,
            comments: summary.comments,
            blanks: summary.blanks,
        }
    }

    /// The names of the languages that the store has entries for, in the
    /// order of names. No name occurs twice.
    pub fn language_names(&self) -> (names: Vec<String>)
        ensures
            texts(names@) == self@.names(),
            names@.len() == self@.entries.len(),
            forall|i: int, j: int|
                0 <= i < j < names@.len() ==> name_before(
                    (#[trigger] names@[i])@,
                    (#[trigger] names@[j])@,
                ),
    {
        proof {
            use_type_invariant(self);
        }
        let mut names: Vec<String> = Vec::new();
        let mut at: usize = 0;
        while at < self.languages.len()
            invariant
                at <= self.languages@.len(),
                names@.len() == at,
                forall|i: int|
                    0 <= i < at ==> (#[trigger] names@[i])@ == entry_views(
                        self.languages@,
                    )[i].name,
            decreases self.languages@.len() - at,
        {
            names.push(self.languages[at].0.name().clone());
            at = at + 1;
        }
        names
    }

    /// The aggregate of one language. A language without an entry, one that
    /// no scanned file was classified as, is not found; an aggregate that is
    /// found has at least one file.
    pub fn lookup(&self, tag: &PyLanguageType) -> (found: Result<PyLanguage, NotFoundError>)
        ensures
            match self@.lookup(tag@) {
                Some(language) => found is Ok && found->Ok_0@ == language
                    && language.files() > 0,
                None => found is Err && found->Err_0.language@ == tag@,
            },
            found is Ok <==> self@.has(tag@),
    {
        proof {
            use_type_invariant(self);
        }
        match position_of(&self.languages, tag) {
            Some(at) => {
                proof {
                    lemma_record_at(self@, tag@, arbitrary());
                }
                Ok(self.languages[at].1.clone())
            },
            None => Err(NotFoundError { language: tag.name().clone() }),
        }
    }

    /// Every entry of the store: the language and its aggregate, with the
    /// files in it.
    pub fn get_languages(&self) -> (entries: Vec<(PyLanguageType, PyLanguage)>)
        ensures
            entry_views(entries@) == self@.entries,
    {
        let mut entries: Vec<(PyLanguageType, PyLanguage)> = Vec::new();
        let mut at: usize = 0;
        while at < self.languages.len()
            invariant
                at <= self.languages@.len(),
                entry_views(entries@) == self@.entries.take(at as int),
            decreases self.languages@.len() - at,
        {
            let ghost before = entry_views(entries@);
            let entry = &self.languages[at];
            entries.push((entry.0.clone(), entry.1.clone()));
            assert(entry_views(entries@) == before.push(self@.entries[at as int]));
            at = at + 1;
        }
        entries
    }

    /// For each language its name and the number of its files.
    pub fn files(&self) -> (counts: Vec<(String, usize)>)
        ensures
            count_views(counts@) == self@.file_counts(),
    {
        let mut counts: Vec<(String, usize)> = Vec::new();
        let mut at: usize = 0;
        while at < self.languages.len()
            invariant
                at <= self.languages@.len(),
                count_views(counts@) == self@.file_counts().take(at as int),
            decreases self.languages@.len() - at,
        {
            let ghost before = count_views(counts@);
            let entry = &self.languages[at];
            counts.push((entry.0.name().clone(), entry.1.files()));
            assert(count_views(counts@) == before.push(self@.file_counts()[at as int]));
            at = at + 1;
        }
        counts
    }

    /// For each language its name and its files as flat records, in the
    /// order in which the files were found.
    pub fn get_languages_plain(&self) -> (plain: Vec<(String, Vec<FlatReport>)>)
        ensures
            plain_views(plain@) == self@.plain(),
    {
        let mut plain: Vec<(String, Vec<FlatReport>)> = Vec::new();
        let mut at: usize = 0;
        while at < self.languages.len()
            invariant
                at <= self.languages@.len(),
                plain_views(plain@) == self@.plain().take(at as int),
            decreases self.languages@.len() - at,
        {
            let ghost before = plain_views(plain@);
            let entry = &self.languages[at];
            plain.push((entry.0.name().clone(), entry.1.reports_plain()));
            assert(plain_views(plain@) == before.push(self@.plain()[at as int]));
            at = at + 1;
        }
        plain
    }

    /// For each language its name and its summary row.
    pub fn report_compact_plain(&self) -> (compact: Vec<(String, Summary)>)
        ensures
            summary_views(compact@) == self@.compact(),
    {
        let mut compact: Vec<(String, Summary)> = Vec::new();
        let mut at: usize = 0;
        while at < self.languages.len()
            invariant
                at <= self.languages@.len(),
                summary_views(compact@) == self@.compact().take(at as int),
            decreases self.languages@.len() - at,
        {
            let ghost before = summary_views(compact@);
            let entry = &self.languages[at];
            compact.push((entry.0.name().clone(), entry.1.summarise()));
            assert(summary_views(compact@) == before.push(self@.compact()[at as int]));
            at = at + 1;
        }
        compact
    }
}

} // verus!
