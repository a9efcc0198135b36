use ledger::adapters::group_repository::InMemoryGroupRepo;
use ledger::application::LedgerService;
use ledger::domain::errors::DomainError;
use ledger::domain::expenses::{Expense, ExpenseId, Timestamp};
use ledger::domain::groups::{Group, GroupId};
use ledger::domain::members::{Member, MemberId};
use ledger::repositories::GroupRepository;

fn sample(id: u128, name: &str) -> Group {
    Group {
        id: GroupId(id),
        name: name.to_string(),
        members: vec![
            Member { id: MemberId(1), name: "A".to_string() },
            Member { id: MemberId(2), name: "B".to_string() },
        ],
        expenses: vec![Expense {
            id: ExpenseId(9),
            paid_by: MemberId(1),
            amount_cents: 1000,
            description: "hotel".to_string(),
            created_at: Timestamp { secs: 1_700_000_000, nanos: 5 },
            participants: vec![MemberId(1), MemberId(2)],
        }],
    }
}

#[test]
fn save_then_get_round_trips() {
    let mut repo = InMemoryGroupRepo::new();
    assert_eq!(repo.save(sample(1, "trip")), Ok(()));
    assert_eq!(repo.get(&GroupId(1)), Ok(sample(1, "trip")));
}

#[test]
fn get_of_missing_group_is_not_found() {
    let repo = InMemoryGroupRepo::new();
    assert_eq!(
        repo.get(&GroupId(0x936d_a01f_9abd_4d9d_80c7_02af_85c8_22a8)),
        Err(DomainError::NotFound("group 936da01f-9abd-4d9d-80c7-02af85c822a8".to_string()))
    );
}

#[test]
fn missing_group_message_spells_the_identifier_in_lower_case_hex() {
    let repo = InMemoryGroupRepo::new();
    let lowest = repo.get(&GroupId(0)).unwrap_err();
    assert_eq!(lowest.message(), "group 00000000-0000-0000-0000-000000000000");
    let highest = repo.get(&GroupId(u128::MAX)).unwrap_err();
    assert_eq!(highest.message(), "group ffffffff-ffff-ffff-ffff-ffffffffffff");
    let mixed = repo.get(&GroupId(0x0123_4567_89ab_cdef_fedc_ba98_7654_3210)).unwrap_err();
    assert_eq!(mixed.message(), "group 01234567-89ab-cdef-fedc-ba9876543210");
}

#[test]
fn later_save_wins() {
    let mut repo = InMemoryGroupRepo::new();
    repo.save(sample(1, "first")).unwrap();
    let mut second = sample(1, "second");
    second.members.clear();
    second.expenses.clear();
    repo.save(second).unwrap();
    let read = repo.get(&GroupId(1)).unwrap();
    assert_eq!(read.name, "second");
    assert!(read.members.is_empty());
    assert!(read.expenses.is_empty());
}

#[test]
fn save_leaves_other_groups_alone() {
    let mut repo = InMemoryGroupRepo::new();
    repo.save(sample(1, "one")).unwrap();
    repo.save(sample(2, "two")).unwrap();
    assert_eq!(repo.get(&GroupId(1)), Ok(sample(1, "one")));
    assert_eq!(repo.get(&GroupId(2)), Ok(sample(2, "two")));
    assert!(repo.get(&GroupId(3)).is_err());
}

#[test]
fn get_hands_out_a_copy() {
    let mut repo = InMemoryGroupRepo::new();
    repo.save(sample(1, "trip")).unwrap();
    let mut copy = repo.get(&GroupId(1)).unwrap();
    copy.name.push_str(" changed");
    copy.members.clear();
    assert_eq!(repo.get(&GroupId(1)), Ok(sample(1, "trip")));
}

#[test]
fn clone_of_a_group_is_equal_to_it() {
    let group = sample(1, "trip");
    assert_eq!(group.clone(), group);
    assert_eq!(group.members[0].clone(), group.members[0]);
    assert_eq!(group.expenses[0].clone(), group.expenses[0]);
}

#[test]
fn ledger_over_a_filled_store_sees_its_groups() {
    let mut repo = InMemoryGroupRepo::new();
    repo.save(sample(1, "trip")).unwrap();
    let mut service = LedgerService::new(repo);
    assert_eq!(service.add_member_with(GroupId(1), MemberId(3), "C".to_string()), Ok(MemberId(3)));
    assert_eq!(service.repository().get(&GroupId(1)).unwrap().members.len(), 3);
}
