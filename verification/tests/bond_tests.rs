use staking_ledger::bond::{Bond, BondId, BondSumError, Unbond};
use staking_ledger::epoched_delta::Delta;

fn bond(pos: &[(u64, u64)], neg: u64) -> Bond {
    let mut made = Bond::default();
    for (epoch, amount) in pos {
        made.pos_deltas.insert(*epoch, *amount);
    }
    made.neg_deltas = neg;
    made
}

fn unbond(deltas: &[((u64, u64), u64)]) -> Unbond {
    let mut made = Unbond::default();
    for (epochs, amount) in deltas {
        made.deltas.insert(*epochs, *amount);
    }
    made
}

#[test]
fn bond_default_is_empty() {
    let empty = Bond::default();
    assert!(empty.pos_deltas.is_empty());
    assert_eq!(empty.neg_deltas, 0);
    assert_eq!(empty.sum(), 0);
}

#[test]
fn bond_sum_is_bonded_less_unbonded() {
    assert_eq!(bond(&[(1, 10), (2, 7), (5, 3)], 4).sum(), 16);
    assert_eq!(bond(&[(1, 10)], 10).sum(), 0);
    assert_eq!(bond(&[(1, 10), (2, 7)], 0).checked_sum(), Ok(17));
}

#[test]
fn bond_sum_may_exceed_single_amounts() {
    let big = bond(&[(1, u64::MAX), (2, u64::MAX)], u64::MAX);
    assert_eq!(big.sum(), u64::MAX);
    assert_eq!(big.checked_sum(), Ok(u64::MAX));
}

#[test]
fn bond_checked_sum_reports_a_negative_sum() {
    assert_eq!(bond(&[(1, 10)], 11).checked_sum(), Err(BondSumError::NegativeSum));
    assert_eq!(bond(&[], 1).checked_sum(), Err(BondSumError::NegativeSum));
}

#[test]
fn bond_checked_sum_reports_an_overflow() {
    assert_eq!(
        bond(&[(1, u64::MAX), (2, 1)], 0).checked_sum(),
        Err(BondSumError::Overflow)
    );
}

#[test]
fn bond_merge_adds_on_collision_and_inserts_otherwise() {
    let merged = bond(&[(1, 10), (2, 7)], 3) + bond(&[(2, 5), (4, 1)], 2);
    assert_eq!(merged.pos_deltas.len(), 3);
    assert_eq!(merged.pos_deltas.get(&1), Some(&10));
    assert_eq!(merged.pos_deltas.get(&2), Some(&12));
    assert_eq!(merged.pos_deltas.get(&4), Some(&1));
    assert_eq!(merged.neg_deltas, 5);
}

#[test]
fn bond_merge_with_empty_changes_nothing() {
    let merged = bond(&[(1, 10), (2, 7)], 3) + Bond::default();
    assert_eq!(merged.pos_deltas.len(), 2);
    assert_eq!(merged.pos_deltas.get(&1), Some(&10));
    assert_eq!(merged.pos_deltas.get(&2), Some(&7));
    assert_eq!(merged.neg_deltas, 3);
    let merged = Bond::default() + bond(&[(1, 10)], 3);
    assert_eq!(merged.pos_deltas.get(&1), Some(&10));
    assert_eq!(merged.neg_deltas, 3);
}

#[test]
fn bond_merge_sum_is_the_sum_of_sums() {
    let a = bond(&[(1, 10), (2, 7), (9, 100)], 3);
    let b = bond(&[(2, 5), (4, 1), (9, 50)], 2);
    let expected = a.sum() + b.sum();
    assert_eq!(expected, 168);
    assert_eq!((a.clone() + b.clone()).sum(), expected);
    assert_eq!((b + a).sum(), expected);
}

#[test]
fn bond_merge_is_associative_in_its_sum() {
    let a = bond(&[(1, 1)], 0);
    let b = bond(&[(1, 2), (2, 3)], 1);
    let c = bond(&[(2, 4), (3, 5)], 2);
    let left = (a.clone() + b.clone()) + c.clone();
    let right = a + (b + c);
    assert_eq!(left.sum(), 12);
    assert_eq!(right.sum(), 12);
    assert_eq!(left.pos_deltas, right.pos_deltas);
}

#[test]
fn bond_checked_add_merges_or_gives_none() {
    let a = bond(&[(1, 10), (2, 7)], 3);
    let b = bond(&[(2, 5)], 2);
    let sum = a.checked_add(&b).unwrap();
    assert_eq!(sum.pos_deltas.get(&1), Some(&10));
    assert_eq!(sum.pos_deltas.get(&2), Some(&12));
    assert_eq!(sum.neg_deltas, 5);
    // The operands are left as they were.
    assert_eq!(a.pos_deltas.get(&2), Some(&7));
    assert_eq!(b.pos_deltas.get(&2), Some(&5));
    let big = bond(&[(2, u64::MAX)], 0);
    assert!(a.checked_add(&big).is_none());
    let big_neg = bond(&[], u64::MAX);
    assert!(a.checked_add(&big_neg).is_none());
}

#[test]
fn bond_zero_is_neutral() {
    let a = bond(&[(1, 10), (2, 7)], 3);
    let sum = Bond::zero().checked_add(&a).unwrap();
    assert_eq!(sum.pos_deltas, a.pos_deltas);
    assert_eq!(sum.neg_deltas, a.neg_deltas);
}

#[test]
fn unbond_default_is_empty() {
    let empty = Unbond::default();
    assert!(empty.deltas.is_empty());
    assert_eq!(empty.sum(), 0);
}

#[test]
fn unbond_sum_is_the_sum_of_all_deltas() {
    assert_eq!(unbond(&[((1, 3), 10), ((1, 4), 7), ((2, 4), 3)]).sum(), 20);
    assert_eq!(unbond(&[((1, 3), 10)]).checked_sum(), Some(10));
}

#[test]
fn unbond_checked_sum_reports_an_overflow() {
    assert_eq!(unbond(&[((1, 3), u64::MAX), ((1, 4), 1)]).checked_sum(), None);
    assert_eq!(unbond(&[((1, 3), u64::MAX)]).checked_sum(), Some(u64::MAX));
}

#[test]
fn unbond_merge_adds_on_collision_and_inserts_otherwise() {
    let merged = unbond(&[((1, 3), 10), ((1, 4), 7)]) + unbond(&[((1, 4), 5), ((2, 4), 1)]);
    assert_eq!(merged.deltas.len(), 3);
    assert_eq!(merged.deltas.get(&(1, 3)), Some(&10));
    assert_eq!(merged.deltas.get(&(1, 4)), Some(&12));
    assert_eq!(merged.deltas.get(&(2, 4)), Some(&1));
}

#[test]
fn unbond_merge_keeps_bond_and_unbond_epochs_apart() {
    let merged = unbond(&[((1, 2), 10)]) + unbond(&[((2, 1), 5)]);
    assert_eq!(merged.deltas.len(), 2);
    assert_eq!(merged.deltas.get(&(1, 2)), Some(&10));
    assert_eq!(merged.deltas.get(&(2, 1)), Some(&5));
}

#[test]
fn unbond_merge_sum_is_the_sum_of_sums() {
    let a = unbond(&[((1, 3), 10), ((1, 4), 7)]);
    let b = unbond(&[((1, 4), 5), ((2, 4), 1)]);
    let expected = a.sum() + b.sum();
    assert_eq!(expected, 23);
    assert_eq!((a.clone() + b.clone()).sum(), expected);
    assert_eq!((b + a).sum(), expected);
}

#[test]
fn unbond_checked_add_merges_or_gives_none() {
    let a = unbond(&[((1, 3), 10)]);
    let b = unbond(&[((1, 3), 5), ((2, 3), 1)]);
    let sum = a.checked_add(&b).unwrap();
    assert_eq!(sum.deltas.get(&(1, 3)), Some(&15));
    assert_eq!(sum.deltas.get(&(2, 3)), Some(&1));
    assert_eq!(a.deltas.get(&(1, 3)), Some(&10));
    let big = unbond(&[((1, 3), u64::MAX)]);
    assert!(a.checked_add(&big).is_none());
    let sum = Unbond::zero().checked_add(&a).unwrap();
    assert_eq!(sum.deltas, a.deltas);
}

#[test]
fn bond_id_is_shown_with_source_and_validator() {
    let id = BondId { source: 12, validator: 7 };
    assert_eq!(id.to_string(), "{source: 12, validator: 7}");
    let id = BondId { source: 0, validator: u64::MAX };
    assert_eq!(id.to_string(), "{source: 0, validator: 18446744073709551615}");
}

#[test]
fn bond_ids_are_ordered_by_source_then_validator() {
    assert!(BondId { source: 1, validator: 9 } < BondId { source: 2, validator: 0 });
    assert!(BondId { source: 1, validator: 1 } < BondId { source: 1, validator: 2 });
    assert_eq!(BondId { source: 1, validator: 1 }, BondId { source: 1, validator: 1 });
}

#[test]
fn bond_merge_does_not_depend_on_the_order() {
    let a = bond(&[(1, 10), (2, 7)], 3);
    let b = bond(&[(2, 5), (4, 1)], 2);
    let one = a.clone() + b.clone();
    let other = b + a;
    assert_eq!(one.pos_deltas, other.pos_deltas);
    assert_eq!(one.neg_deltas, other.neg_deltas);
}

#[test]
fn unbond_merge_does_not_depend_on_the_order() {
    let a = unbond(&[((1, 3), 10), ((1, 4), 7)]);
    let b = unbond(&[((1, 4), 5), ((2, 4), 1)]);
    let one = a.clone() + b.clone();
    let other = b + a;
    assert_eq!(one.deltas, other.deltas);
}
