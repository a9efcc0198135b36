//! The store before and after each operation.

use vstd::prelude::*;
use crate::domain::expenses::{ExpenseId, ExpenseView, Timestamp};
use crate::domain::groups::{new_group, GroupId, GroupView};
use crate::domain::members::{MemberId, MemberView};
use crate::application::decisions::recorded;
use crate::repositories::{found, saved};

verus! {

/// Whether a store is fit for the ledger: every group is kept under its own
/// identifier and is well formed.
pub open spec fn sound(groups: Map<GroupId, GroupView>) -> bool {
    forall|id: GroupId| #[trigger]
        groups.contains_key(id) ==> groups[id].id == id && groups[id].well_formed()
}

/// The store after an empty group named `name` was created under `id`.
pub open spec fn group_created(groups: Map<GroupId, GroupView>, id: GroupId, name: Seq<char>) -> Map<
    GroupId,
    GroupView,
> {
    saved(groups, new_group(id, name))
}

/// The store after `member` joined the group `group`.
pub open spec fn member_added(
    groups: Map<GroupId, GroupView>,
    group: GroupView,
    member: MemberView,
) -> Map<GroupId, GroupView> {
    saved(groups, group.with_member(member))
}

/// The store after `expense` was recorded in the group `group`.
pub open spec fn expense_added(
    groups: Map<GroupId, GroupView>,
    group: GroupView,
    expense: ExpenseView,
) -> Map<GroupId, GroupView> {
    saved(groups, group.with_expense(expense))
}

/// A group that was just created is found under its identifier, with the
/// name it was given and with neither members nor expenses.
pub proof fn lemma_created_group_is_empty(
    groups: Map<GroupId, GroupView>,
    id: GroupId,
    name: Seq<char>,
)
    ensures
        found(group_created(groups, id, name), id) matches Some(group) && group.id == id
            && group.name == name && group.members.len() == 0 && group.expenses.len() == 0,
{
}

/// Two members added one after the other to a group that is kept under its
/// own identifier are both in it afterwards, after the members it had and in
/// the order in which they were added.
pub proof fn lemma_members_added_in_turn_both_stay(
    groups: Map<GroupId, GroupView>,
    group_id: GroupId,
    first: MemberView,
    second: MemberView,
)
    requires
        groups.contains_key(group_id),
        groups[group_id].id == group_id,
    ensures
        ({
            let once = member_added(groups, groups[group_id], first);
            let twice = member_added(once, once[group_id], second);
            &&& found(once, group_id) is Some
            &&& found(twice, group_id) matches Some(group) && group.members
                == groups[group_id].members.push(first).push(second)
        }),
{
}

/// A member who joins a group, or an expense that is recorded in it, changes
/// no other group of a store that keeps every group under its own
/// identifier.
pub proof fn lemma_other_groups_stay(
    groups: Map<GroupId, GroupView>,
    group_id: GroupId,
    other: GroupId,
    member: MemberView,
    expense: ExpenseView,
)
    requires
        groups.contains_key(group_id),
        groups[group_id].id == group_id,
        other != group_id,
    ensures
        found(member_added(groups, groups[group_id], member), other) == found(groups, other),
        found(expense_added(groups, groups[group_id], expense), other) == found(groups, other),
{
}

/// An expense for which no participant was named is shared by exactly the
/// members that the group had when it was recorded, in their order, and a
/// member who joins later does not change that.
pub proof fn lemma_unnamed_participants_are_the_members_of_the_moment(
    group: GroupView,
    id: ExpenseId,
    created_at: Timestamp,
    paid_by: MemberId,
    amount_cents: i64,
    description: Seq<char>,
    later: MemberView,
)
    ensures
        ({
            let expense = recorded(
                group,
                id,
                created_at,
                paid_by,
                amount_cents,
                description,
                Seq::empty(),
            );
            &&& expense.participants == group.member_ids()
            &&& group.with_expense(expense).with_member(later).expenses.last() == expense
        }),
{
}

} // verus!
