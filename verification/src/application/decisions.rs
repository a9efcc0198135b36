//! What each operation decides, apart from the store: from what a read of
//! the store gave to what is saved or answered.

use vstd::prelude::*;
use crate::domain::balances::{balances, balances_of, representable, Balance};
use crate::domain::errors::{is_invalid, DomainError};
use crate::domain::expenses::{Expense, ExpenseId, ExpenseView, Timestamp};
use crate::domain::groups::{Group, GroupView};
use crate::domain::members::{Member, MemberId, MemberView};

verus! {

/// Why a new expense cannot stand in `group`, or `None` where it can. The
/// amount is looked at first, then the payer, then the participants.
pub open spec fn refusal(
    group: GroupView,
    paid_by: MemberId,
    amount_cents: i64,
    participants: Seq<MemberId>,
) -> Option<Seq<char>> {
    if amount_cents <= 0 {
        Some("amount must be positive"@)
    } else if !group.has_member(paid_by) {
        Some("payer not in group"@)
    } else if !group.has_members(group.resolve(participants)) {
        Some("participant not in group"@)
    } else {
        None
    }
}

/// The expense that is recorded in `group` for what a caller hands in.
pub open spec fn recorded(
    group: GroupView,
    id: ExpenseId,
    created_at: Timestamp,
    paid_by: MemberId,
    amount_cents: i64,
    description: Seq<char>,
    participants: Seq<MemberId>,
) -> ExpenseView {
    ExpenseView {
        id,
        paid_by,
        amount_cents,
        description,
        created_at,
        participants: group.resolve(participants),
    }
}

/// What the ledger refuses it never records: whenever there is a reason to
/// refuse an expense, the group does not admit it; and what it does not
/// refuse, the group admits.
pub proof fn lemma_refusal_iff_not_admitted(
    group: GroupView,
    id: ExpenseId,
    created_at: Timestamp,
    paid_by: MemberId,
    amount_cents: i64,
    description: Seq<char>,
    participants: Seq<MemberId>,
)
    ensures
        refusal(group, paid_by, amount_cents, participants) is None <==> group.admits(
            recorded(group, id, created_at, paid_by, amount_cents, description, participants),
        ),
{
    let expense = recorded(group, id, created_at, paid_by, amount_cents, description, participants);
    if group.has_member(paid_by) && participants.len() == 0 {
        assert(group.member_ids().contains(paid_by));
        assert(expense.participants.len() > 0);
    }
}

/// What adding a member makes of a read of the group: the group with the
/// member after its members, or the failure of the read as it is.
pub fn with_new_member(read: Result<Group, DomainError>, id: MemberId, name: String) -> (outcome:
    Result<Group, DomainError>)
    ensures
        match read {
            Ok(group) => outcome matches Ok(changed) && changed@ == group@.with_member(
                MemberView { id, name: name@ },
            ),
            Err(error) => outcome matches Err(same) && same@ == error@,
        },
{
    let mut group = match read {
        Ok(group) => group,
        Err(error) => {
            return Err(error);
        },
    };
    let ghost before = group@;
    let member = Member { id, name };
    group.members.push(member);
    proof {
        assert(group@.members =~= before.members.push(member@));
        assert(group@.expenses =~= before.expenses);
    }
    Ok(group)
}

/// What recording an expense makes of a read of the group: the group with
/// the expense after its expenses, or the reason why the expense is refused,
/// or the failure of the read as it is.
///
/// The amount is looked at first, then the read, then the payer, then the
/// participants. Where no participant is named, the members that the group
/// has at this moment take part.
pub fn with_new_expense(
    read: Result<Group, DomainError>,
    id: ExpenseId,
    created_at: Timestamp,
    paid_by: MemberId,
    amount_cents: i64,
    description: String,
    participants: Vec<MemberId>,
) -> (outcome: Result<Group, DomainError>)
    ensures
        if amount_cents <= 0 {
            is_invalid(outcome, "amount must be positive"@)
        } else {
            match read {
                Ok(group) => match refusal(group@, paid_by, amount_cents, participants@) {
                    Some(reason) => is_invalid(outcome, reason),
                    None => outcome matches Ok(changed) && changed@ == group@.with_expense(
                        recorded(
                            group@,
                            id,
                            created_at,
                            paid_by,
                            amount_cents,
                            description@,
                            participants@,
                        ),
                    ),
                },
                Err(error) => outcome matches Err(same) && same@ == error@,
            }
        },
{
    if amount_cents <= 0 {
        return Err(DomainError::Invalid(String::from_str("amount must be positive")));
    }
    let mut group = match read {
        Ok(group) => group,
        Err(error) => {
            return Err(error);
        },
    };
    let ghost before = group@;
    if !group.has_member(paid_by) {
        return Err(DomainError::Invalid(String::from_str("payer not in group")));
    }
    let participants = if participants.len() == 0 {
        group.member_ids()
    } else {
        participants
    };
    if !group.has_members(&participants) {
        return Err(DomainError::Invalid(String::from_str("participant not in group")));
    }
    let expense = Expense { id, paid_by, amount_cents, description, created_at, participants };
    group.expenses.push(expense);
    proof {
        assert(group@.expenses =~= before.expenses.push(expense@));
        assert(group@.members =~= before.members);
    }
    Ok(group)
}

/// What computing balances makes of a read of the group: its balances, or
/// `None` where the group is not well formed or one of its balances is not a
/// 64-bit number, or the failure of the read as it is.
pub fn balances_from(read: Result<Group, DomainError>) -> (outcome: Result<
    Option<Vec<Balance>>,
    DomainError,
>)
    ensures
        match read {
            Ok(group) => match outcome {
                Ok(Some(list)) => group@.well_formed() && representable(group@) && list@
                    == balances(group@),
                Ok(None) => !(group@.well_formed() && representable(group@)),
                Err(_) => false,
            },
            Err(error) => outcome matches Err(same) && same@ == error@,
        },
{
    match read {
        Ok(group) => Ok(balances_of(&group)),
        Err(error) => Err(error),
    }
}

/// What an operation answers once the store has saved the group: the
/// identifier `id`, or the failure of the save as it is.
pub fn once_saved<T>(written: Result<(), DomainError>, id: T) -> (outcome: Result<T, DomainError>)
    ensures
        match written {
            Ok(_) => outcome matches Ok(same) && same == id,
            Err(error) => outcome matches Err(same) && same@ == error@,
        },
{
    match written {
        Ok(()) => Ok(id),
        Err(error) => Err(error),
    }
}

} // verus!
