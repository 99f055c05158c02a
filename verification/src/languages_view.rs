//! The store as a mathematical value, and what one classified file does to
//! it.

use vstd::prelude::*;
use crate::pylanguage::{FlatView, LanguageView, SummaryView};
use crate::pylanguage_type::{
    lemma_name_order_irreflexive, lemma_name_order_total, lemma_name_order_transitive,
    name_before,
};
use crate::report::{lemma_sum_counts_concat, lemma_sum_counts_push, sum_counts, ReportView};

verus! {

/// One entry of the store, mathematically: a language's name and its
/// aggregate.
pub struct EntryView {
    pub name: Seq<char>,
    pub language: LanguageView,
}

/// The files of all entries, entry after entry.
pub open spec fn gathered(entries: Seq<EntryView>) -> Seq<ReportView>
    decreases entries.len(),
{
    if entries.len() == 0 {
        Seq::empty()
    } else {
        gathered(entries.drop_last()) + entries.last().language.children
    }
}

/// What a scan reports of one eligible path: the language it was classified
/// as and its measurement, or nothing where no language claims the path.
pub type FindingView = Option<(Seq<char>, ReportView)>;

/// How many of the entries have a name that comes before `name`.
pub open spec fn rank(entries: Seq<EntryView>, name: Seq<char>) -> nat
    decreases entries.len(),
{
    if entries.len() == 0 {
        0
    } else if name_before(entries.last().name, name) {
        rank(entries.drop_last(), name) + 1
    } else {
        rank(entries.drop_last(), name)
    }
}

/// What the store is, mathematically: its entries in the order of their
/// languages' names.
pub struct LanguagesView {
    pub entries: Seq<EntryView>,
}

impl LanguagesView {
    /// Whether the store has an entry for the language of that name.
    pub open spec fn has(self, name: Seq<char>) -> bool {
        exists|i: int| 0 <= i < self.entries.len() && (#[trigger] self.entries[i]).name == name
    }

    /// The entries stand in the order of their names, so that no language
    /// has two, and every entry has a file.
    pub open spec fn wf(self) -> bool {
        &&& forall|i: int, j: int|
            0 <= i < j < self.entries.len() ==> name_before(
                (#[trigger] self.entries[i]).name,
                (#[trigger] self.entries[j]).name,
            )
        &&& forall|i: int|
            0 <= i < self.entries.len() ==> (#[trigger] self.entries[i]).language.children.len()
                > 0
    }

    /// The grand total: an aggregate of the files of all languages, whose
    /// counters are therefore the sums over all languages.
    pub open spec fn total(self) -> LanguageView {
        LanguageView { children: gathered(self.entries) }
    }

    /// Whether the grand total's file count and line count fit the machine.
    pub open spec fn fits(self) -> bool {
        self.total().files() <= usize::MAX && self.total().lines() <= usize::MAX
    }

    /// The entry of the language of that name, if the store has one.
    pub open spec fn lookup(self, name: Seq<char>) -> Option<LanguageView> {
        if self.has(name) {
            Some(
                self.entries[choose|i: int|
                    0 <= i < self.entries.len() && (#[trigger] self.entries[i]).name
                        == name].language,
            )
        } else {
            None
        }
    }

    /// The files that the store holds for a language: none where the
    /// language has no entry.
    pub open spec fn children_of(self, name: Seq<char>) -> Seq<ReportView> {
        match self.lookup(name) {
            Some(language) => language.children,
            None => Seq::empty(),
        }
    }

    /// The names of the languages, in the store's order.
    pub open spec fn names(self) -> Seq<Seq<char>> {
        self.entries.map_values(|e: EntryView| e.name)
    }

    /// For each language its name and how many files it has.
    pub open spec fn file_counts(self) -> Seq<(Seq<char>, nat)> {
        self.entries.map_values(|e: EntryView| (e.name, e.language.files()))
    }

    /// For each language its name and its files as flat records.
    pub open spec fn plain(self) -> Seq<(Seq<char>, Seq<FlatView>)> {
        self.entries.map_values(|e: EntryView| (e.name, e.language.flat()))
    }

    /// For each language its name and its summary row.
    pub open spec fn compact(self) -> Seq<(Seq<char>, SummaryView)> {
        self.entries.map_values(|e: EntryView| (e.name, e.language.summary()))
    }

    /// The store after one classified file: the file joins the entry of its
    /// language. Where this is the language's first file the entry is made,
    /// after the entries whose names come before its name.
    pub open spec fn record(self, name: Seq<char>, report: ReportView) -> LanguagesView {
        if self.has(name) {
            LanguagesView {
                entries: self.entries.map_values(
                    |e: EntryView|
                        if e.name == name {
                            EntryView { name: e.name, language: e.language.with(report) }
                        } else {
                            e
                        },
                ) }
        } else {
            LanguagesView {
                entries: self.entries.insert(
                    rank(self.entries, name) as int,
                    EntryView { name, language: LanguageView { children: seq![report] } },
                ) }
        }
    }

    /// The store after one finding. A path that no language claims changes
    /// nothing.
    pub open spec fn note(self, finding: FindingView) -> LanguagesView {
        match finding {
            Some((name, report)) => self.record(name, report),
            None => self,
        }
    }

    /// The store after a scan's findings, taken in order.
    pub open spec fn absorb(self, found: Seq<FindingView>) -> LanguagesView
        decreases found.len(),
    {
        if found.len() == 0 {
            self
        } else {
            self.absorb(found.drop_last()).note(found.last())
        }
    }
}

/// The files of two runs of entries are the files of the first run followed
/// by those of the second.
pub proof fn lemma_gathered_concat(left: Seq<EntryView>, right: Seq<EntryView>)
    ensures
        gathered(left + right) == gathered(left) + gathered(right),
    decreases right.len(),
{
    if right.len() > 0 {
        assert((left + right).drop_last() == left + right.drop_last());
        lemma_gathered_concat(left, right.drop_last());
    }
}

proof fn lemma_gathered_one(entry: EntryView)
    ensures
        gathered(seq![entry]) == entry.language.children,
{
    reveal_with_fuel(gathered, 2);
}

/// Replacing one entry by another changes the gathered files only where that
/// entry's files stand.
proof fn lemma_gathered_update(entries: Seq<EntryView>, at: int, entry: EntryView)
    requires
        0 <= at < entries.len(),
    ensures
        gathered(entries) == gathered(entries.take(at)) + entries[at].language.children
            + gathered(entries.skip(at + 1)),
        gathered(entries.update(at, entry)) == gathered(entries.take(at))
            + entry.language.children + gathered(entries.skip(at + 1)),
{
    let before = entries.take(at);
    let after = entries.skip(at + 1);
    assert(entries == before + seq![entries[at]] + after);
    assert(entries.update(at, entry) == before + seq![entry] + after);
    lemma_gathered_concat(before + seq![entries[at]], after);
    lemma_gathered_concat(before, seq![entries[at]]);
    lemma_gathered_concat(before + seq![entry], after);
    lemma_gathered_concat(before, seq![entry]);
    lemma_gathered_one(entry);
    lemma_gathered_one(entries[at]);
}

/// A new entry adds its files where it is put.
proof fn lemma_gathered_insert(entries: Seq<EntryView>, at: int, entry: EntryView)
    requires
        0 <= at <= entries.len(),
    ensures
        gathered(entries) == gathered(entries.take(at)) + gathered(entries.skip(at)),
        gathered(entries.insert(at, entry)) == gathered(entries.take(at))
            + entry.language.children + gathered(entries.skip(at)),
{
    let before = entries.take(at);
    let after = entries.skip(at);
    assert(entries == before + after);
    assert(entries.insert(at, entry) == before + seq![entry] + after);
    lemma_gathered_concat(before, after);
    lemma_gathered_concat(before + seq![entry], after);
    lemma_gathered_concat(before, seq![entry]);
    lemma_gathered_one(entry);
}

/// Among entries in the order of their names, those whose names come before
/// a name stand first, and the rank of the name tells how many they are.
pub proof fn lemma_rank_splits(store: LanguagesView, name: Seq<char>)
    requires
        store.wf(),
    ensures
        rank(store.entries, name) <= store.entries.len(),
        forall|i: int|
            0 <= i < store.entries.len() ==> (name_before(
                (#[trigger] store.entries[i]).name,
                name,
            ) <==> i < rank(store.entries, name)),
    decreases store.entries.len(),
{
    let entries = store.entries;
    if entries.len() > 0 {
        let rest = LanguagesView { entries: entries.drop_last() };
        lemma_rank_splits(rest, name);
        let last = entries.len() - 1;
        if name_before(entries[last].name, name) {
            assert forall|i: int| 0 <= i < last implies name_before(
                (#[trigger] entries[i]).name,
                name,
            ) by {
                lemma_name_order_transitive(entries[i].name, entries[last].name, name);
            }
        }
        assert forall|i: int| 0 <= i < entries.len() implies (name_before(
            (#[trigger] entries[i]).name,
            name,
        ) <==> i < rank(entries, name)) by {
            if i < last {
                assert(rest.entries[i] == entries[i]);
            }
        }
    }
}

/// Where the file of a language goes: into the entry that stands at the
/// language's rank, if that is the language's, and else into a new entry that
/// is put there.
pub proof fn lemma_record_at(store: LanguagesView, name: Seq<char>, report: ReportView)
    requires
        store.wf(),
    ensures
        rank(store.entries, name) <= store.entries.len(),
        store.has(name) <==> rank(store.entries, name) < store.entries.len()
            && store.entries[rank(store.entries, name) as int].name == name,
        store.has(name) ==> store.record(name, report).entries == store.entries.update(
            rank(store.entries, name) as int,
            EntryView {
                name,
                language: store.entries[rank(store.entries, name) as int].language.with(report),
            },
        ),
        store.has(name) ==> store.lookup(name) == Some(
            store.entries[rank(store.entries, name) as int].language,
        ),
{
    let entries = store.entries;
    let at = rank(entries, name) as int;
    lemma_rank_splits(store, name);
    lemma_name_order_irreflexive(name);
    if store.has(name) {
        let found = choose|i: int| 0 <= i < entries.len() && (#[trigger] entries[i]).name == name;
        if found > at {
            lemma_name_order_total(entries[at].name, name);
        }
    }
}

/// The entry that bears a name is the one that a lookup of the name finds.
pub proof fn lemma_lookup_at(store: LanguagesView, at: int)
    requires
        store.wf(),
        0 <= at < store.entries.len(),
    ensures
        store.has(store.entries[at].name),
        store.lookup(store.entries[at].name) == Some(store.entries[at].language),
        store.children_of(store.entries[at].name).len() > 0,
{
    let name = store.entries[at].name;
    lemma_record_at(store, name, arbitrary());
    lemma_name_order_irreflexive(name);
}

/// One classified file joins the files of its language, at their end, and
/// leaves the files of every other language as they were.
pub proof fn lemma_record_children(
    store: LanguagesView,
    name: Seq<char>,
    report: ReportView,
    other: Seq<char>,
)
    requires
        store.wf(),
    ensures
        store.record(name, report).children_of(other) == if other == name {
            store.children_of(name).push(report)
        } else {
            store.children_of(other)
        },
{
    let entries = store.entries;
    let after = store.record(name, report);
    let at = rank(entries, name) as int;
    lemma_record(store, name, report);
    lemma_record_at(store, name, report);
    if other == name {
        lemma_lookup_at(after, at);
    } else if store.has(other) {
        let i = choose|i: int| 0 <= i < entries.len() && (#[trigger] entries[i]).name == other;
        lemma_lookup_at(store, i);
        if store.has(name) || i < at {
            lemma_lookup_at(after, i);
        } else {
            lemma_lookup_at(after, i + 1);
        }
    }
}

/// One classified file adds one file and its counters to the grand total,
/// gives its language an entry, and leaves the store well formed.
pub proof fn lemma_record(store: LanguagesView, name: Seq<char>, report: ReportView)
    requires
        store.wf(),
    ensures
        store.record(name, report).wf(),
        forall|other: Seq<char>|
            store.record(name, report).has(other) <==> store.has(other) || other == name,
        store.record(name, report).total().files() == store.total().files() + 1,
        store.record(name, report).total().counts() == store.total().counts().plus(
            report.counts(),
        ),
{
    let entries = store.entries;
    let after = store.record(name, report);
    let at = rank(entries, name) as int;
    lemma_record_at(store, name, report);
    lemma_rank_splits(store, name);
    if store.has(name) {
        let entry = EntryView { name, language: entries[at].language.with(report) };
        assert forall|other: Seq<char>| after.has(other) <==> store.has(other) || other
            == name by {
            if store.has(other) {
                let i = choose|i: int|
                    0 <= i < entries.len() && (#[trigger] entries[i]).name == other;
                assert(after.entries[i].name == other);
            }
        }
        lemma_gathered_update(entries, at, entry);
        let left = gathered(entries.take(at));
        let right = gathered(entries.skip(at + 1));
        let old_children = entries[at].language.children;
        lemma_sum_counts_concat(left + old_children, right);
        lemma_sum_counts_concat(left, old_children);
        lemma_sum_counts_concat(left + old_children.push(report), right);
        lemma_sum_counts_concat(left, old_children.push(report));
        lemma_sum_counts_push(old_children, report);
    } else {
        let entry = EntryView { name, language: LanguageView { children: seq![report] } };
        assert(after.entries[at].name == name);
        assert forall|other: Seq<char>| after.has(other) <==> store.has(other) || other
            == name by {
            if store.has(other) {
                let i = choose|i: int|
                    0 <= i < entries.len() && (#[trigger] entries[i]).name == other;
                if i < at {
                    assert(after.entries[i].name == other);
                } else {
                    assert(after.entries[i + 1].name == other);
                }
            }
        }
        assert forall|i: int, j: int| 0 <= i < j < after.entries.len() implies name_before(
            (#[trigger] after.entries[i]).name,
            (#[trigger] after.entries[j]).name,
        ) by {
            if i == at {
                lemma_name_order_total(entries[j - 1].name, name);
            }
        }
        lemma_gathered_insert(entries, at, entry);
        let left = gathered(entries.take(at));
        let right = gathered(entries.skip(at));
        lemma_sum_counts_concat(left, right);
        lemma_sum_counts_concat(left + seq![report], right);
        lemma_sum_counts_concat(left, seq![report]);
        lemma_sum_counts_push(Seq::empty(), report);
    }
}

/// Findings leave the store well formed.
pub proof fn lemma_absorb_wf(store: LanguagesView, found: Seq<FindingView>)
    requires
        store.wf(),
    ensures
        store.absorb(found).wf(),
    decreases found.len(),
{
    if found.len() > 0 {
        lemma_absorb_wf(store, found.drop_last());
        if let Some((name, report)) = found.last() {
            lemma_record(store.absorb(found.drop_last()), name, report);
        }
    }
}

/// The grand total only grows while findings come in: after some of them it
/// is no larger than after all of them.
pub proof fn lemma_absorb_grows(store: LanguagesView, found: Seq<FindingView>, upto: int)
    requires
        store.wf(),
        0 <= upto <= found.len(),
    ensures
        store.absorb(found.take(upto)).total().files() <= store.absorb(found).total().files(),
        store.absorb(found.take(upto)).total().lines() <= store.absorb(found).total().lines(),
    decreases found.len() - upto,
{
    if upto == found.len() {
        assert(found.take(upto) == found);
    } else {
        lemma_absorb_grows(store, found, upto + 1);
        assert(found.take(upto + 1).drop_last() == found.take(upto));
        lemma_absorb_wf(store, found.take(upto));
        if let Some((name, report)) = found[upto] {
            lemma_record(store.absorb(found.take(upto)), name, report);
        }
    }
}

/// No language counts more lines than the grand total.
pub proof fn lemma_entry_within_total(entries: Seq<EntryView>, at: int)
    requires
        0 <= at < entries.len(),
    ensures
        entries[at].language.lines() <= sum_counts(gathered(entries)).lines(),
        entries[at].language.files() <= gathered(entries).len(),
{
    lemma_gathered_update(entries, at, entries[at]);
    let left = gathered(entries.take(at));
    let right = gathered(entries.skip(at + 1));
    lemma_sum_counts_concat(left + entries[at].language.children, right);
    lemma_sum_counts_concat(left, entries[at].language.children);
}

/// The measurements among a scan's findings, in order.
pub open spec fn measured(found: Seq<FindingView>) -> Seq<ReportView>
    decreases found.len(),
{
    if found.len() == 0 {
        Seq::empty()
    } else {
        match found.last() {
            Some((_, report)) => measured(found.drop_last()).push(report),
            None => measured(found.drop_last()),
        }
    }
}

/// The measurements of two runs of findings are those of the first run
/// followed by those of the second.
pub proof fn lemma_measured_concat(left: Seq<FindingView>, right: Seq<FindingView>)
    ensures
        measured(left + right) == measured(left) + measured(right),
    decreases right.len(),
{
    if right.len() > 0 {
        assert((left + right).drop_last() == left + right.drop_last());
        lemma_measured_concat(left, right.drop_last());
    }
}

/// The first findings measure no more files and no more lines than all of
/// them.
pub proof fn lemma_measured_prefix(found: Seq<FindingView>, upto: int)
    requires
        0 <= upto <= found.len(),
    ensures
        measured(found.take(upto)).len() <= measured(found).len(),
        sum_counts(measured(found.take(upto))).lines() <= sum_counts(measured(found)).lines(),
{
    assert(found == found.take(upto) + found.skip(upto));
    lemma_measured_concat(found.take(upto), found.skip(upto));
    lemma_sum_counts_concat(measured(found.take(upto)), measured(found.skip(upto)));
}

/// Findings add exactly their measurements to the grand total: one file
/// each, and the sum of their counters.
pub proof fn lemma_absorb_totals(store: LanguagesView, found: Seq<FindingView>)
    requires
        store.wf(),
    ensures
        store.absorb(found).total().files() == store.total().files() + measured(found).len(),
        store.absorb(found).total().counts() == store.total().counts().plus(
            sum_counts(measured(found)),
        ),
    decreases found.len(),
{
    if found.len() > 0 {
        lemma_absorb_totals(store, found.drop_last());
        lemma_absorb_wf(store, found.drop_last());
        if let Some((name, report)) = found.last() {
            lemma_record(store.absorb(found.drop_last()), name, report);
            lemma_sum_counts_push(measured(found.drop_last()), report);
        }
    }
}

/// The files of the first entries are a part of the files of all entries.
pub proof fn lemma_gathered_prefix(entries: Seq<EntryView>, upto: int)
    requires
        0 <= upto <= entries.len(),
    ensures
        gathered(entries.take(upto)).len() <= gathered(entries).len(),
        sum_counts(gathered(entries.take(upto))).code <= sum_counts(gathered(entries)).code,
        sum_counts(gathered(entries.take(upto))).comments <= sum_counts(
            gathered(entries),
        ).comments,
        sum_counts(gathered(entries.take(upto))).blanks <= sum_counts(gathered(entries)).blanks,
        sum_counts(gathered(entries.take(upto))).lines() <= sum_counts(
            gathered(entries),
        ).lines(),
{
    assert(entries == entries.take(upto) + entries.skip(upto));
    lemma_gathered_concat(entries.take(upto), entries.skip(upto));
    lemma_sum_counts_concat(gathered(entries.take(upto)), gathered(entries.skip(upto)));
}

/// One more entry adds its files and its counters to what was gathered.
pub proof fn lemma_gathered_next(entries: Seq<EntryView>, at: int)
    requires
        0 <= at < entries.len(),
    ensures
        gathered(entries.take(at + 1)) == gathered(entries.take(at))
            + entries[at].language.children,
        sum_counts(gathered(entries.take(at + 1))) == sum_counts(
            gathered(entries.take(at)),
        ).plus(entries[at].language.counts()),
{
    assert(entries.take(at + 1).drop_last() == entries.take(at));
    lemma_sum_counts_concat(gathered(entries.take(at)), entries[at].language.children);
}

} // verus!
