//! What a filter reads.

use crate::predicate::{referenced_ids, BoundPredicate};
use vstd::prelude::*;

verus! {

/// A way from a predicate to one of those that it is made of.
pub enum Turn {
    /// To the left side of a conjunction or a disjunction.
    Left,
    /// To the right side of one.
    Right,
    /// To what is negated.
    Inner,
}

/// The predicate that `predicate` is made of at the end of `turns`; nothing where a turn cannot be
/// taken.
pub open spec fn part_of(predicate: BoundPredicate, turns: Seq<Turn>) -> Option<BoundPredicate>
    decreases turns.len(),
{
    if turns.len() == 0 {
        Some(predicate)
    } else {
        match (predicate, turns[0]) {
            (BoundPredicate::And(left, _), Turn::Left) => part_of(*left, turns.skip(1)),
            (BoundPredicate::And(_, right), Turn::Right) => part_of(*right, turns.skip(1)),
            (BoundPredicate::Or(left, _), Turn::Left) => part_of(*left, turns.skip(1)),
            (BoundPredicate::Or(_, right), Turn::Right) => part_of(*right, turns.skip(1)),
            (BoundPredicate::Not(inner), Turn::Inner) => part_of(*inner, turns.skip(1)),
            _ => None,
        }
    }
}

/// Whether `predicate` has, at the end of `turns`, a test of the field `id`.
pub open spec fn tests_field_at(predicate: BoundPredicate, turns: Seq<Turn>, id: i32) -> bool {
    match part_of(predicate, turns) {
        Some(BoundPredicate::Unary(reference)) => reference.field_id == id,
        Some(BoundPredicate::Binary(reference)) => reference.field_id == id,
        Some(BoundPredicate::Membership(reference)) => reference.field_id == id,
        _ => false,
    }
}

/// Whether `predicate` has a test of the field `id` somewhere: on either side of a conjunction or a
/// disjunction and under a negation, at any depth.
pub open spec fn tests_field(predicate: BoundPredicate, id: i32) -> bool {
    exists|turns: Seq<Turn>| tests_field_at(predicate, turns, id)
}

proof fn lemma_longer(predicate: BoundPredicate, turn: Turn, turns: Seq<Turn>, id: i32)
    ensures
        tests_field_at(predicate, seq![turn] + turns, id) == (match (predicate, turn) {
            (BoundPredicate::And(left, _), Turn::Left) => tests_field_at(*left, turns, id),
            (BoundPredicate::And(_, right), Turn::Right) => tests_field_at(*right, turns, id),
            (BoundPredicate::Or(left, _), Turn::Left) => tests_field_at(*left, turns, id),
            (BoundPredicate::Or(_, right), Turn::Right) => tests_field_at(*right, turns, id),
            (BoundPredicate::Not(inner), Turn::Inner) => tests_field_at(*inner, turns, id),
            _ => false,
        }),
{
    assert((seq![turn] + turns).skip(1) =~= turns);
}

proof fn lemma_collected_is_tested(predicate: BoundPredicate, id: i32)
    ensures
        referenced_ids(predicate).contains(id) ==> tests_field(predicate, id),
    decreases predicate,
{
    if referenced_ids(predicate).contains(id) {
        match predicate {
            BoundPredicate::And(left, right) => {
                lemma_collected_is_tested(*left, id);
                lemma_collected_is_tested(*right, id);
                if referenced_ids(*left).contains(id) {
                    let turns = choose|turns: Seq<Turn>| tests_field_at(*left, turns, id);
                    lemma_longer(predicate, Turn::Left, turns, id);
                } else {
                    let turns = choose|turns: Seq<Turn>| tests_field_at(*right, turns, id);
                    lemma_longer(predicate, Turn::Right, turns, id);
                }
            },
            BoundPredicate::Or(left, right) => {
                lemma_collected_is_tested(*left, id);
                lemma_collected_is_tested(*right, id);
                if referenced_ids(*left).contains(id) {
                    let turns = choose|turns: Seq<Turn>| tests_field_at(*left, turns, id);
                    lemma_longer(predicate, Turn::Left, turns, id);
                } else {
                    let turns = choose|turns: Seq<Turn>| tests_field_at(*right, turns, id);
                    lemma_longer(predicate, Turn::Right, turns, id);
                }
            },
            BoundPredicate::Not(inner) => {
                lemma_collected_is_tested(*inner, id);
                let turns = choose|turns: Seq<Turn>| tests_field_at(*inner, turns, id);
                lemma_longer(predicate, Turn::Inner, turns, id);
            },
            _ => {
                assert(tests_field_at(predicate, seq![], id));
            },
        }
    }
}

proof fn lemma_tested_is_collected(predicate: BoundPredicate, turns: Seq<Turn>, id: i32)
    requires
        tests_field_at(predicate, turns, id),
    ensures
        referenced_ids(predicate).contains(id),
    decreases turns.len(),
{
    if turns.len() > 0 {
        let rest = turns.skip(1);
        match (predicate, turns[0]) {
            (BoundPredicate::And(left, _), Turn::Left) => {
                lemma_tested_is_collected(*left, rest, id)
            },
            (BoundPredicate::And(_, right), Turn::Right) => {
                lemma_tested_is_collected(*right, rest, id)
            },
            (BoundPredicate::Or(left, _), Turn::Left) => {
                lemma_tested_is_collected(*left, rest, id)
            },
            (BoundPredicate::Or(_, right), Turn::Right) => {
                lemma_tested_is_collected(*right, rest, id)
            },
            (BoundPredicate::Not(inner), Turn::Inner) => {
                lemma_tested_is_collected(*inner, rest, id)
            },
            _ => {},
        }
    }
}

/// The fields that a filter is said to read are exactly those that it tests somewhere.
pub proof fn filters_read_what_they_test(predicate: BoundPredicate, id: i32)
    ensures
        referenced_ids(predicate).contains(id) <==> tests_field(predicate, id),
{
    lemma_collected_is_tested(predicate, id);
    if tests_field(predicate, id) {
        let turns = choose|turns: Seq<Turn>| tests_field_at(predicate, turns, id);
        lemma_tested_is_collected(predicate, turns, id);
    }
}

/// What two filters together read is what the one and the other read, whichever way they are put
/// together, and a negation reads what is negated.
pub proof fn joined_filters_read_what_their_sides_read(
    left: BoundPredicate,
    right: BoundPredicate,
    id: i32,
)
    ensures
        referenced_ids(BoundPredicate::And(Box::new(left), Box::new(right))).contains(id) <==> {
            referenced_ids(left).contains(id) || referenced_ids(right).contains(id)
        },
        referenced_ids(BoundPredicate::Or(Box::new(left), Box::new(right))).contains(id) <==> {
            referenced_ids(left).contains(id) || referenced_ids(right).contains(id)
        },
        referenced_ids(BoundPredicate::Not(Box::new(left))).contains(id) <==> referenced_ids(
            left,
        ).contains(id),
{
}

} // verus!
