//! What the projections of one store have in common: their totals agree, and
//! asked again they answer the same.

use vstd::prelude::*;
use crate::text::texts;
use crate::pylanguage::{flat_of, FlatReport, LanguageView, PyLanguage, Summary, SummaryView};
use crate::pylanguage_type::{lemma_name_order_irreflexive, name_before, PyLanguageType};
use crate::languages_view::{gathered, LanguagesView};
use crate::pylanguages::{
    count_views, entry_views, plain_views, summary_views, NotFoundError, PyLanguages,
};
use crate::report::{lemma_sum_counts_concat, ReportView};

verus! {

/// The line counts of a sequence of files, added up file by file.
pub open spec fn sum_lines(reports: Seq<ReportView>) -> nat
    decreases reports.len(),
{
    if reports.len() == 0 {
        0
    } else {
        sum_lines(reports.drop_last()) + reports.last().lines()
    }
}

/// Summary rows added up column by column.
pub open spec fn summed(rows: Seq<(Seq<char>, SummaryView)>) -> SummaryView
    decreases rows.len(),
{
    if rows.len() == 0 {
        SummaryView { files: 0, lines: 0, code: 0, comments: 0, blanks: 0 }
    } else {
        let rest = summed(rows.drop_last());
        let row = rows.last().1;
        SummaryView {
            files: rest.files + row.files,
            lines: rest.lines + row.lines,
            code: rest.code + row.code,
            comments: rest.comments + row.comments,
            blanks: rest.blanks + row.blanks,
        }
    }
}

/// A file's line count is its code, comment and blank lines together, in its
/// report and in its flat record.
pub proof fn report_lines_add_up(report: ReportView)
    ensures
        report.lines() == report.code + report.comments + report.blanks,
        flat_of(report).lines == flat_of(report).code + flat_of(report).comments + flat_of(
            report,
        ).blanks,
{
}

/// A language's line count is its code, comment and blank lines together, in
/// the aggregate and in its summary row, and it is the sum of the line counts
/// of its files.
pub proof fn language_lines_add_up(language: LanguageView)
    ensures
        language.lines() == language.code() + language.comments() + language.blanks(),
        language.summary().lines == language.summary().code + language.summary().comments
            + language.summary().blanks,
        language.lines() == sum_lines(language.children),
    decreases language.children.len(),
{
    if language.children.len() > 0 {
        language_lines_add_up(LanguageView { children: language.children.drop_last() });
    }
}

/// The summary rows of the compact view add up, in every column, to the
/// grand total's summary row: the code of all languages is the total's code,
/// and so for comments, blanks, lines and files.
pub proof fn compact_adds_up_to_total(store: LanguagesView)
    ensures
        summed(store.compact()) == store.total().summary(),
    decreases store.entries.len(),
{
    if store.entries.len() > 0 {
        let rest = LanguagesView { entries: store.entries.drop_last() };
        compact_adds_up_to_total(rest);
        assert(store.compact().drop_last() == rest.compact());
        lemma_sum_counts_concat(gathered(rest.entries), store.entries.last().language.children);
    }
}

/// The file count that the files view gives for a language is the number of
/// flat records that the plain view gives for it: entry by entry, and, as no
/// language has two entries, name by name.
pub proof fn file_counts_match_plain(store: LanguagesView)
    requires
        store.wf(),
    ensures
        store.file_counts().len() == store.plain().len(),
        forall|i: int|
            0 <= i < store.entries.len() ==> (#[trigger] store.file_counts()[i]).0
                == store.plain()[i].0 && store.file_counts()[i].1 == store.plain()[i].1.len(),
        forall|i: int, j: int|
            0 <= i < store.entries.len() && 0 <= j < store.entries.len() && (
            #[trigger] store.file_counts()[i]).0 == (#[trigger] store.plain()[j]).0
                ==> store.file_counts()[i].1 == store.plain()[j].1.len(),
{
    assert forall|i: int, j: int|
        0 <= i < store.entries.len() && 0 <= j < store.entries.len() && (
        #[trigger] store.file_counts()[i]).0 == (
        #[trigger] store.plain()[j]).0 implies store.file_counts()[i].1
        == store.plain()[j].1.len() by {
        lemma_name_order_irreflexive(store.entries[i].name);
    }
}

/// Asked twice of a store that did not change, the grand total is the same.
pub proof fn total_repeats(store: PyLanguages, first: PyLanguage, second: PyLanguage)
    requires
        first@ == store@.total(),
        second@ == store@.total(),
    ensures
        first@ == second@,
{
}

/// Asked twice of a store that did not change, the grand total's summary row
/// is the same.
pub proof fn total_plain_repeats(store: PyLanguages, first: Summary, second: Summary)
    requires
        first@ == store@.total().summary(),
        second@ == store@.total().summary(),
    ensures
        first == second,
{
}

/// Asked twice of a store that did not change, the language names are the
/// same.
pub proof fn language_names_repeat(store: PyLanguages, first: Vec<String>, second: Vec<String>)
    requires
        texts(first@) == store@.names(),
        texts(second@) == store@.names(),
    ensures
        texts(first@) == texts(second@),
{
}

/// Asked twice of a store that did not change, a lookup ends the same way.
pub proof fn lookup_repeats(
    store: PyLanguages,
    tag: PyLanguageType,
    first: Result<PyLanguage, NotFoundError>,
    second: Result<PyLanguage, NotFoundError>,
)
    requires
        match store@.lookup(tag@) {
            Some(language) => first is Ok && first->Ok_0@ == language,
            None => first is Err && first->Err_0.language@ == tag@,
        },
        match store@.lookup(tag@) {
            Some(language) => second is Ok && second->Ok_0@ == language,
            None => second is Err && second->Err_0.language@ == tag@,
        },
    ensures
        first is Ok <==> second is Ok,
        first is Ok ==> first->Ok_0@ == second->Ok_0@,
        first is Err ==> first->Err_0.language@ == second->Err_0.language@,
{
}

/// Asked twice of a store that did not change, the structured view is the
/// same.
pub proof fn get_languages_repeats(
    store: PyLanguages,
    first: Vec<(PyLanguageType, PyLanguage)>,
    second: Vec<(PyLanguageType, PyLanguage)>,
)
    requires
        entry_views(first@) == store@.entries,
        entry_views(second@) == store@.entries,
    ensures
        entry_views(first@) == entry_views(second@),
{
}

/// Asked twice of a store that did not change, the file counts are the same.
pub proof fn files_repeat(
    store: PyLanguages,
    first: Vec<(String, usize)>,
    second: Vec<(String, usize)>,
)
    requires
        count_views(first@) == store@.file_counts(),
        count_views(second@) == store@.file_counts(),
    ensures
        count_views(first@) == count_views(second@),
{
}

/// Asked twice of a store that did not change, the plain view is the same.
pub proof fn get_languages_plain_repeats(
    store: PyLanguages,
    first: Vec<(String, Vec<FlatReport>)>,
    second: Vec<(String, Vec<FlatReport>)>,
)
    requires
        plain_views(first@) == store@.plain(),
        plain_views(second@) == store@.plain(),
    ensures
        plain_views(first@) == plain_views(second@),
{
}

/// Asked twice of a store that did not change, the compact view is the same.
pub proof fn report_compact_plain_repeats(
    store: PyLanguages,
    first: Vec<(String, Summary)>,
    second: Vec<(String, Summary)>,
)
    requires
        summary_views(first@) == store@.compact(),
        summary_views(second@) == store@.compact(),
    ensures
        summary_views(first@) == summary_views(second@),
{
}

} // verus!
