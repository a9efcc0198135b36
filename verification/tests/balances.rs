use ledger::domain::balances::{balances_of, Balance};
use ledger::domain::errors::DomainError;
use ledger::domain::expenses::{Expense, ExpenseId, Timestamp};
use ledger::domain::groups::{Group, GroupId};
use ledger::domain::members::{Member, MemberId};

fn group(members: &[u128], expenses: Vec<Expense>) -> Group {
    Group {
        id: GroupId(1),
        name: "g".to_string(),
        members: members
            .iter()
            .map(|id| Member { id: MemberId(*id), name: format!("m{}", id) })
            .collect(),
        expenses,
    }
}

fn expense(paid_by: u128, amount_cents: i64, participants: &[u128]) -> Expense {
    Expense {
        id: ExpenseId(0),
        paid_by: MemberId(paid_by),
        amount_cents,
        description: String::new(),
        created_at: Timestamp { secs: 0, nanos: 0 },
        participants: participants.iter().map(|id| MemberId(*id)).collect(),
    }
}

fn cents(balances: Option<Vec<Balance>>) -> Option<Vec<i64>> {
    balances.map(|list| list.iter().map(|b| b.balance_cents).collect())
}

#[test]
fn balances_come_in_member_order() {
    let g = group(&[30, 10, 20], vec![expense(10, 30, &[20, 30, 10])]);
    let list = balances_of(&g).unwrap();
    let members: Vec<MemberId> = list.iter().map(|b| b.member).collect();
    assert_eq!(members, vec![MemberId(30), MemberId(10), MemberId(20)]);
    assert_eq!(cents(Some(list)), Some(vec![-10, 20, -10]));
}

#[test]
fn share_is_rounded_down() {
    let g = group(&[1, 2, 3], vec![expense(1, 100, &[1, 2, 3])]);
    assert_eq!(cents(balances_of(&g)), Some(vec![67, -33, -33]));
    let g = group(&[1, 2, 3], vec![expense(1, 2, &[1, 2, 3])]);
    assert_eq!(cents(balances_of(&g)), Some(vec![2, 0, 0]));
    let g = group(&[1, 2], vec![expense(2, 1, &[1, 2])]);
    assert_eq!(cents(balances_of(&g)), Some(vec![0, 1]));
}

#[test]
fn payer_who_does_not_take_part_gets_the_whole_amount() {
    let g = group(&[1, 2, 3], vec![expense(1, 100, &[2, 3])]);
    assert_eq!(cents(balances_of(&g)), Some(vec![100, -50, -50]));
}

#[test]
fn participant_named_twice_owes_two_shares() {
    let g = group(&[1, 2], vec![expense(1, 90, &[2, 2, 1])]);
    assert_eq!(cents(balances_of(&g)), Some(vec![60, -60]));
}

#[test]
fn member_without_expenses_is_at_zero() {
    let g = group(&[1, 2, 3], vec![expense(1, 10, &[2])]);
    assert_eq!(cents(balances_of(&g)), Some(vec![10, -10, 0]));
}

#[test]
fn sum_of_balances_is_the_sum_of_the_remainders() {
    let g = group(
        &[1, 2, 3],
        vec![expense(1, 100, &[1, 2, 3]), expense(2, 11, &[1, 3]), expense(3, 9, &[1, 2, 3])],
    );
    let list = balances_of(&g).unwrap();
    let sum: i64 = list.iter().map(|b| b.balance_cents).sum();
    assert_eq!(sum, 100 % 3 + 11 % 2 + 9 % 3);
    assert_eq!(cents(Some(list)), Some(vec![100 - 33 - 5 - 3, -33 + 11 - 3, -33 - 5 + 9 - 3]));
}

#[test]
fn members_with_one_identifier_share_one_balance() {
    let g = group(&[1, 1, 2], vec![expense(1, 10, &[2])]);
    assert_eq!(cents(balances_of(&g)), Some(vec![10, 10, -10]));
}

#[test]
fn largest_amount_is_representable() {
    let g = group(&[1, 2], vec![expense(1, i64::MAX, &[2])]);
    assert_eq!(cents(balances_of(&g)), Some(vec![i64::MAX, -i64::MAX]));
}

#[test]
fn balance_beyond_64_bits_gives_none() {
    let g = group(&[1, 2], vec![expense(1, i64::MAX, &[2]), expense(1, 1, &[2])]);
    assert_eq!(balances_of(&g), None);
    let g = group(&[1, 2], vec![expense(1, i64::MAX, &[2]), expense(1, 2, &[2])]);
    assert_eq!(balances_of(&g), None);
}

#[test]
fn balance_that_returns_into_range_is_given() {
    let g = group(
        &[1, 2],
        vec![expense(1, i64::MAX, &[2]), expense(1, i64::MAX, &[2]), expense(2, i64::MAX, &[1])],
    );
    assert_eq!(cents(balances_of(&g)), Some(vec![i64::MAX, -i64::MAX]));
}

#[test]
fn lowest_balance_is_representable() {
    let g = group(&[1, 2], vec![expense(1, i64::MAX, &[2]), expense(1, 1, &[2])]);
    assert_eq!(balances_of(&g), None);
    let g = group(&[1, 2, 3], vec![expense(1, i64::MAX, &[2]), expense(3, 1, &[2])]);
    assert_eq!(cents(balances_of(&g)), Some(vec![i64::MAX, i64::MIN, 1]));
}

#[test]
fn group_that_is_not_well_formed_gives_none() {
    let stranger_pays = group(&[1, 2], vec![expense(9, 10, &[1, 2])]);
    assert_eq!(balances_of(&stranger_pays), None);
    let stranger_takes_part = group(&[1, 2], vec![expense(1, 10, &[1, 9])]);
    assert_eq!(balances_of(&stranger_takes_part), None);
    let nobody_takes_part = group(&[1, 2], vec![expense(1, 10, &[])]);
    assert_eq!(balances_of(&nobody_takes_part), None);
    let nothing_paid = group(&[1, 2], vec![expense(1, 0, &[1, 2])]);
    assert_eq!(balances_of(&nothing_paid), None);
    let less_than_nothing_paid = group(&[1, 2], vec![expense(1, -10, &[1, 2])]);
    assert_eq!(balances_of(&less_than_nothing_paid), None);
}

#[test]
fn group_helpers_answer_for_members_only() {
    let g = group(&[5, 6], vec![]);
    assert!(g.has_member(MemberId(5)));
    assert!(g.has_member(MemberId(6)));
    assert!(!g.has_member(MemberId(7)));
    assert_eq!(g.member_ids(), vec![MemberId(5), MemberId(6)]);
    assert!(g.has_members(&vec![MemberId(6), MemberId(5), MemberId(6)]));
    assert!(g.has_members(&vec![]));
    assert!(!g.has_members(&vec![MemberId(5), MemberId(7)]));
    let empty = Group::new(GroupId(3), "fresh".to_string());
    assert_eq!(empty.id, GroupId(3));
    assert_eq!(empty.name, "fresh");
    assert!(empty.members.is_empty() && empty.expenses.is_empty());
    assert!(!empty.has_member(MemberId(5)));
}

#[test]
fn errors_describe_themselves() {
    let missing = DomainError::NotFound("group x".to_string());
    assert_eq!(missing.describe(), "not found: group x");
    assert_eq!(missing.message(), "group x");
    let refused = DomainError::Invalid("payer not in group".to_string());
    assert_eq!(refused.describe(), "invalid request: payer not in group");
    assert_eq!(refused.message(), "payer not in group");
}
