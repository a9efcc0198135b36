//! The four operations of the ledger.
//!
//! Each operation that changes a group reads it from the store, changes the
//! copy and saves the whole copy back. It holds the ledger by exclusive
//! reference from the read to the save, so no other operation runs in
//! between and no update is lost.

pub mod decisions;
pub mod transitions;

use vstd::prelude::*;
use crate::application::decisions::{
    balances_from, lemma_refusal_iff_not_admitted, once_saved, recorded, refusal, with_new_expense,
    with_new_member,
};
use crate::application::transitions::{expense_added, group_created, member_added, sound};
use crate::clock::utc_now;
use crate::domain::balances::{balances, representable, Balance};
use crate::domain::errors::{is_invalid, is_not_found, DomainError};
use crate::domain::expenses::{ExpenseId, Timestamp};
use crate::domain::groups::{
    lemma_new_group_well_formed, lemma_with_expense_well_formed, lemma_with_member_well_formed,
    Group, GroupId, GroupView,
};
use crate::domain::members::{MemberId, MemberView};
use crate::identifiers::{fresh_id, is_random_id};
use crate::repositories::{found, GroupRepository};

verus! {

/// The ledger over a store of groups.
pub struct LedgerService<R: GroupRepository> {
    repo: R,
}

impl<R: GroupRepository> View for LedgerService<R> {
    type V = Map<GroupId, GroupView>;

    /// The groups in the store behind the ledger.
    closed spec fn view(&self) -> Map<GroupId, GroupView> {
        self.repo.groups()
    }
}

impl<R: GroupRepository> LedgerService<R> {
    /// Whether the store behind the ledger never fails for reasons of its own.
    pub closed spec fn dependable(&self) -> bool {
        self.repo.dependable()
    }

    /// A ledger over `repo`.
    pub fn new(repo: R) -> (service: Self)
        ensures
            service@ == repo.groups(),
            service.dependable() == repo.dependable(),
    {
        LedgerService { repo }
    }

    /// The store behind the ledger, to read from.
    pub fn repository(&self) -> (repo: &R)
        ensures
            repo.groups() == self@,
            repo.dependable() == self.dependable(),
    {
        &self.repo
    }

    /// Creates an empty group named `name` under a fresh identifier.
    pub fn create_group(&mut self, name: String) -> (outcome: Result<GroupId, DomainError>)
        ensures
            match outcome {
                Ok(id) => is_random_id(id.0) && final(self)@ == group_created(old(self)@, id, name@),
                Err(_) => final(self)@ == old(self)@,
            },
            old(self).dependable() ==> outcome is Ok,
            final(self).dependable() == old(self).dependable(),
            sound(old(self)@) ==> sound(final(self)@),
    {
        let id = GroupId(fresh_id());
        self.create_group_with(id, name)
    }

    /// Creates an empty group named `name` under the identifier `id`. A group
    /// that the store already keeps under `id` is replaced.
    pub fn create_group_with(&mut self, id: GroupId, name: String) -> (outcome: Result<
        GroupId,
        DomainError,
    >)
        ensures
            match outcome {
                Ok(created) => created == id && final(self)@ == group_created(
                    old(self)@,
                    id,
                    name@,
                ),
                Err(_) => final(self)@ == old(self)@,
            },
            old(self).dependable() ==> outcome is Ok,
            final(self).dependable() == old(self).dependable(),
            sound(old(self)@) ==> sound(final(self)@),
    {
        proof {
            lemma_new_group_well_formed(id, name@);
        }
        let group = Group::new(id, name);
        once_saved(self.repo.save(group), id)
    }

    /// Adds a member named `name` to the group `group_id`, under a fresh
    /// identifier. Names are not compared: two members may share one.
    pub fn add_member(&mut self, group_id: GroupId, name: String) -> (outcome: Result<
        MemberId,
        DomainError,
    >)
        ensures
            match found(old(self)@, group_id) {
                None => is_not_found(outcome) && final(self)@ == old(self)@,
                Some(group) => match outcome {
                    Ok(id) => is_random_id(id.0) && final(self)@ == member_added(
                        old(self)@,
                        group,
                        MemberView { id, name: name@ },
                    ),
                    Err(_) => final(self)@ == old(self)@,
                },
            },
            old(self).dependable() && found(old(self)@, group_id) is Some ==> outcome is Ok,
            final(self).dependable() == old(self).dependable(),
            sound(old(self)@) ==> sound(final(self)@),
    {
        let id = MemberId(fresh_id());
        self.add_member_with(group_id, id, name)
    }

    /// Adds a member named `name` to the group `group_id`, under the
    /// identifier `id`: reads the group, puts the member after its members and
    /// saves the whole group.
    pub fn add_member_with(&mut self, group_id: GroupId, id: MemberId, name: String) -> (outcome:
        Result<MemberId, DomainError>)
        ensures
            match found(old(self)@, group_id) {
                None => is_not_found(outcome) && final(self)@ == old(self)@,
                Some(group) => match outcome {
                    Ok(added) => added == id && final(self)@ == member_added(
                        old(self)@,
                        group,
                        MemberView { id, name: name@ },
                    ),
                    Err(_) => final(self)@ == old(self)@,
                },
            },
            old(self).dependable() && found(old(self)@, group_id) is Some ==> outcome is Ok,
            final(self).dependable() == old(self).dependable(),
            sound(old(self)@) ==> sound(final(self)@),
    {
        let read = self.repo.get(&group_id);
        proof {
            if sound(old(self)@) && read is Ok {
                lemma_with_member_well_formed(read->Ok_0@, MemberView { id, name: name@ });
            }
        }
        match with_new_member(read, id, name) {
            Ok(group) => once_saved(self.repo.save(group), id),
            Err(error) => Err(error),
        }
    }

    /// Records an expense in the group `group_id`, under a fresh identifier
    /// and with the current time.
    ///
    /// The amount is looked at before the store is read. Where no participant
    /// is named, the members that the group has at this moment take part.
    pub fn add_expense(
        &mut self,
        group_id: GroupId,
        paid_by: MemberId,
        amount_cents: i64,
        description: String,
        participants: Vec<MemberId>,
    ) -> (outcome: Result<ExpenseId, DomainError>)
        ensures
            outcome is Err ==> final(self)@ == old(self)@,
            if amount_cents <= 0 {
                is_invalid(outcome, "amount must be positive"@)
            } else {
                match found(old(self)@, group_id) {
                    None => is_not_found(outcome),
                    Some(group) => match refusal(group, paid_by, amount_cents, participants@) {
                        Some(reason) => outcome is Err && (old(self).dependable() ==> is_invalid(
                            outcome,
                            reason,
                        )),
                        None => match outcome {
                            Ok(id) => is_random_id(id.0) && exists|created_at: Timestamp|
                                created_at.nanos < 1_000_000_000 && final(self)@ == expense_added(
                                    old(self)@,
                                    group,
                                    #[trigger] recorded(
                                        group,
                                        id,
                                        created_at,
                                        paid_by,
                                        amount_cents,
                                        description@,
                                        participants@,
                                    ),
                                ),
                            Err(_) => !old(self).dependable(),
                        },
                    },
                }
            },
            final(self).dependable() == old(self).dependable(),
            sound(old(self)@) ==> sound(final(self)@),
    {
        let id = ExpenseId(fresh_id());
        let created_at = utc_now();
        self.add_expense_with(
            group_id,
            id,
            created_at,
            paid_by,
            amount_cents,
            description,
            participants,
        )
    }

    /// Records an expense in the group `group_id`, under the identifier `id`
    /// and with the time `created_at`: reads the group, puts the expense after
    /// its expenses and saves the whole group.
    pub fn add_expense_with(
        &mut self,
        group_id: GroupId,
        id: ExpenseId,
        created_at: Timestamp,
        paid_by: MemberId,
        amount_cents: i64,
        description: String,
        participants: Vec<MemberId>,
    ) -> (outcome: Result<ExpenseId, DomainError>)
        ensures
            outcome is Err ==> final(self)@ == old(self)@,
            if amount_cents <= 0 {
                is_invalid(outcome, "amount must be positive"@)
            } else {
                match found(old(self)@, group_id) {
                    None => is_not_found(outcome),
                    Some(group) => match refusal(group, paid_by, amount_cents, participants@) {
                        Some(reason) => outcome is Err && (old(self).dependable() ==> is_invalid(
                            outcome,
                            reason,
                        )),
                        None => match outcome {
                            Ok(added) => added == id && final(self)@ == expense_added(
                                old(self)@,
                                group,
                                recorded(
                                    group,
                                    id,
                                    created_at,
                                    paid_by,
                                    amount_cents,
                                    description@,
                                    participants@,
                                ),
                            ),
                            Err(_) => !old(self).dependable(),
                        },
                    },
                }
            },
            final(self).dependable() == old(self).dependable(),
            sound(old(self)@) ==> sound(final(self)@),
    {
        if amount_cents <= 0 {
            return Err(DomainError::Invalid(String::from_str("amount must be positive")));
        }
        let read = self.repo.get(&group_id);
        proof {
            if read is Ok {
                let group = read->Ok_0@;
                lemma_refusal_iff_not_admitted(
                    group,
                    id,
                    created_at,
                    paid_by,
                    amount_cents,
                    description@,
                    participants@,
                );
                if sound(old(self)@) && refusal(group, paid_by, amount_cents, participants@) is None {
                    lemma_with_expense_well_formed(
                        group,
                        recorded(
                            group,
                            id,
                            created_at,
                            paid_by,
                            amount_cents,
                            description@,
                            participants@,
                        ),
                    );
                }
            }
        }
        match with_new_expense(
            read,
            id,
            created_at,
            paid_by,
            amount_cents,
            description,
            participants,
        ) {
            Ok(group) => once_saved(self.repo.save(group), id),
            Err(error) => Err(error),
        }
    }

    /// The net balance of every member of the group `group_id`, in the order
    /// of its members.
    ///
    /// The group has to be well formed, as every group is that this ledger
    /// made, and each of its balances has to be a 64-bit number.
    pub fn compute_balances(&self, group_id: GroupId) -> (outcome: Result<Vec<Balance>, DomainError>)
        requires
            found(self@, group_id) matches Some(group) ==> group.well_formed() && representable(
                group,
            ),
        ensures
            match found(self@, group_id) {
                None => is_not_found(outcome),
                Some(group) => match outcome {
                    Ok(list) => list@ == balances(group),
                    Err(_) => !self.dependable(),
                },
            },
    {
        match balances_from(self.repo.get(&group_id)) {
            Ok(computed) => Ok(computed.unwrap()),
            Err(error) => Err(error),
        }
    }

    /// The net balance of every member of the group `group_id`, or `None`
    /// where the group is not well formed or one of its balances is not a
    /// 64-bit number.
    pub fn try_compute_balances(&self, group_id: GroupId) -> (outcome: Result<
        Option<Vec<Balance>>,
        DomainError,
    >)
        ensures
            match found(self@, group_id) {
                None => is_not_found(outcome),
                Some(group) => match outcome {
                    Ok(Some(list)) => group.well_formed() && representable(group) && list@
                        == balances(group),
                    Ok(None) => !(group.well_formed() && representable(group)),
                    Err(_) => !self.dependable(),
                },
            },
    {
        balances_from(self.repo.get(&group_id))
    }
}

} // verus!
