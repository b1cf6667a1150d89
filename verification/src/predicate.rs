//! Filter predicates, bound to the fields that they read.

use std::collections::HashSet;
use vstd::prelude::*;

verus! {

/// A column that a predicate reads.
#[derive(Debug, Clone, Copy, PartialEq, Eq, Structural)]
pub struct BoundReference {
    pub field_id: i32,
}

/// A filter. What it compares a column with does not matter to projection and is left out.
#[derive(Debug)]
pub enum BoundPredicate {
    AlwaysTrue,
    AlwaysFalse,
    And(Box<BoundPredicate>, Box<BoundPredicate>),
    Or(Box<BoundPredicate>, Box<BoundPredicate>),
    Not(Box<BoundPredicate>),
    /// A test of one column alone, such as for null.
    Unary(BoundReference),
    /// A comparison of one column with one value.
    Binary(BoundReference),
    /// A test of one column against a set of values.
    Membership(BoundReference),
}

/// The ids of the fields that `predicate` reads.
pub open spec fn referenced_ids(predicate: BoundPredicate) -> Set<i32>
    decreases predicate,
{
    match predicate {
        BoundPredicate::AlwaysTrue | BoundPredicate::AlwaysFalse => Set::empty(),
        BoundPredicate::And(left, right) => referenced_ids(*left).union(referenced_ids(*right)),
        BoundPredicate::Or(left, right) => referenced_ids(*left).union(referenced_ids(*right)),
        BoundPredicate::Not(inner) => referenced_ids(*inner),
        BoundPredicate::Unary(reference) => set![reference.field_id],
        BoundPredicate::Binary(reference) => set![reference.field_id],
        BoundPredicate::Membership(reference) => set![reference.field_id],
    }
}

/// Gathers the ids of the fields that predicates read.
pub struct CollectFieldIdVisitor {
    pub field_ids: HashSet<i32>,
}

impl CollectFieldIdVisitor {
    pub fn new() -> (visitor: CollectFieldIdVisitor)
        ensures
            visitor.field_ids@ == Set::<i32>::empty(),
    {
        CollectFieldIdVisitor { field_ids: HashSet::new() }
    }

    /// Adds the ids of the fields that `predicate` reads to those gathered so far.
    pub fn visit(&mut self, predicate: &BoundPredicate)
        ensures
            final(self).field_ids@ == old(self).field_ids@.union(referenced_ids(*predicate)),
        decreases predicate,
    {
        match predicate {
            BoundPredicate::AlwaysTrue => {},
            BoundPredicate::AlwaysFalse => {},
            BoundPredicate::And(left, right) => {
                self.visit(left);
                self.visit(right);
            },
            BoundPredicate::Or(left, right) => {
                self.visit(left);
                self.visit(right);
            },
            BoundPredicate::Not(inner) => {
                self.visit(inner);
            },
            BoundPredicate::Unary(reference) => {
                self.field_ids.insert(reference.field_id);
            },
            BoundPredicate::Binary(reference) => {
                self.field_ids.insert(reference.field_id);
            },
            BoundPredicate::Membership(reference) => {
                self.field_ids.insert(reference.field_id);
            },
        }
        assert(self.field_ids@ =~= old(self).field_ids@.union(referenced_ids(*predicate)));
    }
}

/// The ids in `set`, each once, in no particular order.
pub(crate) fn set_to_vec(set: &HashSet<i32>) -> (ids: Vec<i32>)
    ensures
        ids@.no_duplicates(),
        ids@.to_set() == set@,
{
    let mut ids: Vec<i32> = Vec::new();
    for id in iter: set.iter()
        invariant
            iter.seq().unref().no_duplicates(),
            iter.seq().unref().to_set() == set@,
            ids@ =~= iter.seq().unref().take(iter.index() as int),
            iter.index() == iter.seq().len() ==> ids@ =~= iter.seq().unref(),
    {
        ids.push(*id);
    }
    ids
}

} // verus!
