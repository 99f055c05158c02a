//! What a scan does to the store, language by language, and why the order of
//! its findings does not matter.

use vstd::prelude::*;
use vstd::seq_lib::{lemma_multiset_commutative, to_multiset_len, to_multiset_remove};
use crate::consistency::compact_adds_up_to_total;
use crate::languages_view::{
    lemma_absorb_wf, lemma_lookup_at, lemma_record, lemma_record_children, FindingView,
    LanguagesView,
};
use crate::pylanguage_type::{lemma_name_order_irreflexive, lemma_name_order_total, name_before};
use crate::report::{lemma_sum_counts_concat, sum_counts, ReportView};

verus! {

/// Whether a finding is a file of the language of that name.
pub open spec fn is_file_of(finding: FindingView, name: Seq<char>) -> bool {
    finding matches Some((language, _)) && language == name
}

/// The measurements that a scan's findings hold for one language, in order.
pub open spec fn measured_for(found: Seq<FindingView>, name: Seq<char>) -> Seq<ReportView>
    decreases found.len(),
{
    if found.len() == 0 {
        Seq::empty()
    } else {
        match found.last() {
            Some((language, report)) if language == name => measured_for(
                found.drop_last(),
                name,
            ).push(report),
            _ => measured_for(found.drop_last(), name),
        }
    }
}

/// The measurements of two runs of findings for a language are those of the
/// first run followed by those of the second.
pub proof fn lemma_measured_for_concat(
    left: Seq<FindingView>,
    right: Seq<FindingView>,
    name: Seq<char>,
)
    ensures
        measured_for(left + right, name) == measured_for(left, name) + measured_for(right, name),
    decreases right.len(),
{
    if right.len() > 0 {
        assert((left + right).drop_last() == left + right.drop_last());
        lemma_measured_for_concat(left, right.drop_last(), name);
    }
}

/// What a scan does to the store, language by language: the files that the
/// store holds for a language afterwards are those it held before, followed
/// by the scan's measurements for that language, in the order of the
/// findings.
pub proof fn scan_appends_each_language_its_files(
    store: LanguagesView,
    found: Seq<FindingView>,
    name: Seq<char>,
)
    requires
        store.wf(),
    ensures
        store.absorb(found).children_of(name) == store.children_of(name) + measured_for(
            found,
            name,
        ),
    decreases found.len(),
{
    if found.len() > 0 {
        let earlier = found.drop_last();
        scan_appends_each_language_its_files(store, earlier, name);
        lemma_absorb_wf(store, earlier);
        if let Some((language, report)) = found.last() {
            lemma_record_children(store.absorb(earlier), language, report, name);
        }
    }
}

/// A store has an entry for a language after a scan exactly when it had one
/// before or the scan found a file of that language.
pub proof fn entries_come_from_files(
    store: LanguagesView,
    found: Seq<FindingView>,
    name: Seq<char>,
)
    requires
        store.wf(),
    ensures
        store.absorb(found).has(name) <==> store.has(name) || exists|k: int|
            0 <= k < found.len() && is_file_of(#[trigger] found[k], name),
    decreases found.len(),
{
    if found.len() > 0 {
        let earlier = found.drop_last();
        entries_come_from_files(store, earlier, name);
        lemma_absorb_wf(store, earlier);
        if let Some((language, report)) = found.last() {
            lemma_record(store.absorb(earlier), language, report);
        }
        if exists|k: int| 0 <= k < found.len() && is_file_of(#[trigger] found[k], name) {
            let k = choose|k: int| 0 <= k < found.len() && is_file_of(#[trigger] found[k], name);
            if k < earlier.len() {
                assert(is_file_of(earlier[k], name));
            }
        }
    }
}

/// A language that had no entry and of which the scan found no file is not
/// found afterwards, and a language that is found has at least one file: a
/// lookup never gives an aggregate without files.
pub proof fn unseen_language_is_not_found(
    store: LanguagesView,
    found: Seq<FindingView>,
    name: Seq<char>,
)
    requires
        store.wf(),
    ensures
        !store.has(name) && (forall|k: int|
            0 <= k < found.len() ==> !is_file_of(#[trigger] found[k], name)) ==> store.absorb(
            found,
        ).lookup(name) is None,
        store.absorb(found).lookup(name) matches Some(language) ==> language.files() > 0,
{
    entries_come_from_files(store, found, name);
    lemma_absorb_wf(store, found);
    lemma_entries_hold_files(store.absorb(found), name);
}

/// The counters and the number of files do not depend on the order of the
/// files: sequences that hold the same files as often have the same sums.
pub proof fn lemma_sum_counts_shuffle(left: Seq<ReportView>, right: Seq<ReportView>)
    requires
        left.to_multiset() == right.to_multiset(),
    ensures
        left.len() == right.len(),
        sum_counts(left) == sum_counts(right),
    decreases left.len(),
{
    to_multiset_len(left);
    to_multiset_len(right);
    if left.len() > 0 {
        let last = left.len() - 1;
        let x = left[last];
        left.to_multiset_ensures();
        right.to_multiset_ensures();
        assert(left.to_multiset().count(x) > 0);
        let k = choose|k: int| 0 <= k < right.len() && right[k] == x;
        to_multiset_remove(left, last);
        to_multiset_remove(right, k);
        lemma_sum_counts_shuffle(left.drop_last(), right.remove(k));
        assert(right == right.take(k) + seq![x] + right.skip(k + 1));
        lemma_sum_counts_concat(right.take(k) + seq![x], right.skip(k + 1));
        lemma_sum_counts_concat(right.take(k), seq![x]);
        lemma_sum_counts_concat(right.take(k), right.skip(k + 1));
        lemma_sum_counts_concat(left.drop_last(), seq![x]);
        assert(left == left.drop_last() + seq![x]);
    }
}

/// The files that a scan measures for a language do not depend on the order
/// of its findings, but for their own order.
pub proof fn lemma_measured_for_shuffle(
    found: Seq<FindingView>,
    shuffled: Seq<FindingView>,
    name: Seq<char>,
)
    requires
        found.to_multiset() == shuffled.to_multiset(),
    ensures
        measured_for(found, name).to_multiset() == measured_for(shuffled, name).to_multiset(),
    decreases found.len(),
{
    to_multiset_len(found);
    to_multiset_len(shuffled);
    if found.len() > 0 {
        let last = found.len() - 1;
        let x = found[last];
        found.to_multiset_ensures();
        shuffled.to_multiset_ensures();
        assert(found.to_multiset().count(x) > 0);
        let k = choose|k: int| 0 <= k < shuffled.len() && shuffled[k] == x;
        let before = shuffled.take(k);
        let after = shuffled.skip(k + 1);
        to_multiset_remove(found, last);
        to_multiset_remove(shuffled, k);
        lemma_measured_for_shuffle(found.drop_last(), shuffled.remove(k), name);
        assert(shuffled == before + seq![x] + after);
        assert(found == found.drop_last() + seq![x]);
        lemma_measured_for_concat(before + seq![x], after, name);
        lemma_measured_for_concat(before, seq![x], name);
        lemma_measured_for_concat(before, after, name);
        lemma_measured_for_concat(found.drop_last(), seq![x], name);
        let one = measured_for(seq![x], name);
        lemma_multiset_commutative(measured_for(before, name) + one, measured_for(after, name));
        lemma_multiset_commutative(measured_for(before, name), one);
        lemma_multiset_commutative(measured_for(before, name), measured_for(after, name));
        lemma_multiset_commutative(measured_for(found.drop_last(), name), one);
    }
}

/// A store that is well formed has an entry for a language exactly when it
/// holds a file for it.
pub proof fn lemma_entries_hold_files(store: LanguagesView, name: Seq<char>)
    requires
        store.wf(),
    ensures
        store.has(name) <==> store.children_of(name).len() > 0,
{
    if store.has(name) {
        let at = choose|i: int|
            0 <= i < store.entries.len() && (#[trigger] store.entries[i]).name == name;
        lemma_lookup_at(store, at);
    }
}

/// Two stores that have entries for the same languages list them alike: the
/// order of names leaves one way only.
pub proof fn lemma_same_names(left: LanguagesView, right: LanguagesView)
    requires
        left.wf(),
        right.wf(),
        forall|name: Seq<char>| left.has(name) <==> right.has(name),
    ensures
        left.names() == right.names(),
    decreases left.entries.len(),
{
    if left.entries.len() == 0 {
        if right.entries.len() > 0 {
            assert(right.has(right.entries[0].name));
        }
    } else {
        let here = left.entries.len() - 1;
        let a = left.entries[here].name;
        assert(left.has(a));
        let there = right.entries.len() - 1;
        let b = right.entries[there].name;
        assert(right.has(b));
        lemma_name_order_total(a, b);
        let less_left = LanguagesView { entries: left.entries.drop_last() };
        let less_right = LanguagesView { entries: right.entries.drop_last() };
        lemma_name_order_irreflexive(a);
        assert forall|name: Seq<char>| less_left.has(name) <==> less_right.has(name) by {
            if less_left.has(name) {
                assert(left.has(name));
                let to = choose|to: int|
                    0 <= to < right.entries.len() && (#[trigger] right.entries[to]).name == name;
                assert(less_right.entries[to].name == name);
            }
            if less_right.has(name) {
                assert(right.has(name));
                let to = choose|to: int|
                    0 <= to < left.entries.len() && (#[trigger] left.entries[to]).name == name;
                assert(less_left.entries[to].name == name);
            }
        }
        assert(less_left.wf());
        assert(less_right.wf());
        lemma_same_names(less_left, less_right);
        assert(left.names() =~= less_left.names().push(a));
    }
}

/// The order in which a scan hands over its findings changes nothing but the
/// order of the files within a language. The languages, their file counts
/// and counters, the compact view and the grand total are the same for every
/// order, and each language holds the same files as often.
pub proof fn scan_order_does_not_matter(
    store: LanguagesView,
    found: Seq<FindingView>,
    shuffled: Seq<FindingView>,
)
    requires
        store.wf(),
        found.to_multiset() == shuffled.to_multiset(),
    ensures
        store.absorb(found).names() == store.absorb(shuffled).names(),
        store.absorb(found).file_counts() == store.absorb(shuffled).file_counts(),
        store.absorb(found).compact() == store.absorb(shuffled).compact(),
        store.absorb(found).total().summary() == store.absorb(shuffled).total().summary(),
        forall|name: Seq<char>|
            (#[trigger] store.absorb(found).children_of(name)).to_multiset() == store.absorb(
                shuffled,
            ).children_of(name).to_multiset(),
{
    let one = store.absorb(found);
    let other = store.absorb(shuffled);
    lemma_absorb_wf(store, found);
    lemma_absorb_wf(store, shuffled);
    assert forall|name: Seq<char>|
        (#[trigger] one.children_of(name)).to_multiset() == other.children_of(
            name,
        ).to_multiset() by {
        scan_appends_each_language_its_files(store, found, name);
        scan_appends_each_language_its_files(store, shuffled, name);
        lemma_measured_for_shuffle(found, shuffled, name);
        lemma_multiset_commutative(store.children_of(name), measured_for(found, name));
        lemma_multiset_commutative(store.children_of(name), measured_for(shuffled, name));
    }
    assert forall|name: Seq<char>| one.has(name) <==> other.has(name) by {
        lemma_entries_hold_files(one, name);
        lemma_entries_hold_files(other, name);
        to_multiset_len(one.children_of(name));
        to_multiset_len(other.children_of(name));
    }
    lemma_same_names(one, other);
    assert(one.entries.len() == one.names().len());
    assert forall|i: int| 0 <= i < one.entries.len() implies one.entries[i].name
        == other.entries[i].name && (#[trigger] one.entries[i]).language.summary()
        == other.entries[i].language.summary() by {
        assert(one.names()[i] == other.names()[i]);
        let name = one.entries[i].name;
        lemma_lookup_at(one, i);
        lemma_lookup_at(other, i);
        lemma_sum_counts_shuffle(one.children_of(name), other.children_of(name));
    }
    compact_adds_up_to_total(one);
    compact_adds_up_to_total(other);
}

} // verus!
