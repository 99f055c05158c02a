//! Language tags and the order of their names.

use vstd::prelude::*;
use vstd::utf8::char_u32_cast;
use crate::text::chars_of;

verus! {

/// The order of language names: code point by code point, and a name before
/// every name that it is a proper beginning of.
pub open spec fn name_before(left: Seq<char>, right: Seq<char>) -> bool
    decreases left.len(),
{
    if right.len() == 0 {
        false
    } else if left.len() == 0 {
        true
    } else if left.first() != right.first() {
        (left.first() as u32) < (right.first() as u32)
    } else {
        name_before(left.drop_first(), right.drop_first())
    }
}

/// Different characters have different code points.
proof fn lemma_code_points_differ(left: char, right: char)
    requires
        left != right,
    ensures
        left as u32 != right as u32,
{
    char_u32_cast(left, left as u32);
    char_u32_cast(right, right as u32);
}

/// No name comes before itself.
pub proof fn lemma_name_order_irreflexive(name: Seq<char>)
    ensures
        !name_before(name, name),
    decreases name.len(),
{
    if name.len() > 0 {
        lemma_name_order_irreflexive(name.drop_first());
    }
}

/// Of two different names one comes before the other.
pub proof fn lemma_name_order_total(left: Seq<char>, right: Seq<char>)
    ensures
        left == right || name_before(left, right) || name_before(right, left),
        !(name_before(left, right) && name_before(right, left)),
    decreases left.len(),
{
    if left.len() > 0 && right.len() > 0 {
        if left.first() == right.first() {
            lemma_name_order_total(left.drop_first(), right.drop_first());
            if left.drop_first() == right.drop_first() {
                assert(left =~= seq![left.first()] + left.drop_first());
            }
        } else {
            lemma_code_points_differ(left.first(), right.first());
        }
    }
}

/// What comes before a name comes before all that the name comes before.
pub proof fn lemma_name_order_transitive(first: Seq<char>, second: Seq<char>, third: Seq<char>)
    requires
        name_before(first, second),
        name_before(second, third),
    ensures
        name_before(first, third),
    decreases first.len(),
{
    if first.len() > 0 && second.len() > 0 && third.len() > 0 {
        if first.first() == second.first() && second.first() == third.first() {
            lemma_name_order_transitive(
                first.drop_first(),
                second.drop_first(),
                third.drop_first(),
            );
        }
    }
}

/// A recognized programming language, identified by its display name.
/// Two tags are the same language exactly when their names are equal, and
/// tags are ordered as their names are.
#[derive(Debug, PartialEq, Eq, PartialOrd, Ord, Hash)]
pub struct PyLanguageType {
    pub(crate) name: String,
}

impl View for PyLanguageType {
    type V = Seq<char>;

    open(crate) spec fn view(&self) -> Seq<char> {
        self.name@
    }
}

impl PyLanguageType {
    pub fn new(name: String) -> (tag: PyLanguageType)
        ensures
            tag@ == name@,
    {
        PyLanguageType { name }
    }

    /// The display name of the language.
    pub fn name(&self) -> (name: &String)
        ensures
            name@ == self@,
    {
        &self.name
    }

    /// Whether two tags stand for the same language.
    pub fn same_as(&self, other: &PyLanguageType) -> (same: bool)
        ensures
            same == (self@ == other@),
    {
        self.name == other.name
    }

    /// Whether this language comes before the other in the order of names.
    pub fn comes_before(&self, other: &PyLanguageType) -> (before: bool)
        ensures
            before == name_before(self@, other@),
    {
        let left = chars_of(self.name.as_str());
        let right = chars_of(other.name.as_str());
        let mut at: usize = 0;
        assert(left@.skip(0) == left@ && right@.skip(0) == right@);
        while at < left.len() && at < right.len()
            invariant
                left@ == self@,
                right@ == other@,
                at <= left@.len(),
                at <= right@.len(),
                name_before(left@, right@) == name_before(
                    left@.skip(at as int),
                    right@.skip(at as int),
                ),
            decreases left@.len() - at,
        {
            let ghost rest_left = left@.skip(at as int);
            let ghost rest_right = right@.skip(at as int);
            assert(rest_left.drop_first() == left@.skip(at + 1));
            assert(rest_right.drop_first() == right@.skip(at + 1));
            let here = left[at];
            let there = right[at];
            if here != there {
                return (here as u32) < (there as u32);
            }
            at = at + 1;
        }
        at < right.len()
    }
}

impl Clone for PyLanguageType {
    fn clone(&self) -> (copy: PyLanguageType)
        ensures
            copy@ == self@,
    {
        PyLanguageType { name: self.name.clone() }
    }
}

} // verus!
