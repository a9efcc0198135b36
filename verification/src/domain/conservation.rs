//! What the balances of a group add up to.
//!
//! A share is rounded down and what the division leaves over stays with the
//! payer. The balances of a group therefore add up to the sum of those
//! remainders, not to zero.

use vstd::prelude::*;
use crate::domain::balances::{
    balance_at, balances, effect, lemma_effect_within_amount, net, occurrences, representable,
    share, Balance,
};
use crate::domain::expenses::ExpenseView;
use crate::domain::groups::GroupView;
use crate::domain::members::MemberId;

verus! {

/// The sum of the balances in `list`.
pub open spec fn sum_of(list: Seq<Balance>) -> int
    decreases list.len(),
{
    if list.len() == 0 {
        0
    } else {
        sum_of(list.drop_last()) + list.last().balance_cents
    }
}

/// The sum of the effects of `expense` on the members `ids`.
pub open spec fn total_effect(expense: ExpenseView, ids: Seq<MemberId>) -> int
    decreases ids.len(),
{
    if ids.len() == 0 {
        0
    } else {
        total_effect(expense, ids.drop_last()) + effect(expense, ids.last())
    }
}

/// How many shares the members `ids` are charged by `participants`: for each
/// of the members, one share for each time it stands among the participants.
pub open spec fn shares_charged(participants: Seq<MemberId>, ids: Seq<MemberId>) -> nat
    decreases ids.len(),
{
    if ids.len() == 0 {
        0
    } else {
        shares_charged(participants, ids.drop_last()) + occurrences(participants, ids.last())
    }
}

/// An identifier that stands in a list without duplicates stands there once,
/// and one that does not stand in a list stands there no times.
pub proof fn lemma_occurrences_without_duplicates(ids: Seq<MemberId>, id: MemberId)
    requires
        ids.no_duplicates(),
    ensures
        occurrences(ids, id) == if ids.contains(id) {
            1nat
        } else {
            0nat
        },
    decreases ids.len(),
{
    if ids.len() > 0 {
        let front = ids.drop_last();
        lemma_occurrences_without_duplicates(front, id);
        if front.contains(id) {
            let at = choose|at: int| 0 <= at < front.len() && front[at] == id;
            assert(ids[at] == id);
            assert(ids.last() != id);
        } else if ids.last() == id {
            assert(ids[ids.len() - 1] == id);
        } else if ids.contains(id) {
            let at = choose|at: int| 0 <= at < ids.len() && ids[at] == id;
            assert(front[at] == id);
        }
    }
}

/// One more participant is charged one share for each time the participant
/// stands among the members.
pub proof fn lemma_shares_charged_step(
    participants: Seq<MemberId>,
    participant: MemberId,
    ids: Seq<MemberId>,
)
    ensures
        shares_charged(participants.push(participant), ids) == shares_charged(participants, ids)
            + occurrences(ids, participant),
    decreases ids.len(),
{
    if ids.len() > 0 {
        lemma_shares_charged_step(participants, participant, ids.drop_last());
        assert(participants.push(participant).drop_last() =~= participants);
    }
}

/// Where no member stands twice among the members and every participant is a
/// member, as many shares are charged as there are participants.
pub proof fn lemma_shares_charged_to_members(participants: Seq<MemberId>, ids: Seq<MemberId>)
    requires
        ids.no_duplicates(),
        forall|j: int| 0 <= j < participants.len() ==> ids.contains(#[trigger] participants[j]),
    ensures
        shares_charged(participants, ids) == participants.len(),
    decreases participants.len(),
{
    if participants.len() == 0 {
        lemma_no_participants_no_shares(participants, ids);
    } else {
        let front = participants.drop_last();
        let last = participants.last();
        assert forall|j: int| 0 <= j < front.len() implies ids.contains(#[trigger] front[j]) by {
            assert(front[j] == participants[j]);
        }
        lemma_shares_charged_to_members(front, ids);
        lemma_shares_charged_step(front, last, ids);
        assert(front.push(last) =~= participants);
        assert(ids.contains(participants[participants.len() - 1]));
        lemma_occurrences_without_duplicates(ids, last);
    }
}

/// Without participants no share is charged.
pub proof fn lemma_no_participants_no_shares(participants: Seq<MemberId>, ids: Seq<MemberId>)
    requires
        participants.len() == 0,
    ensures
        shares_charged(participants, ids) == 0,
    decreases ids.len(),
{
    if ids.len() > 0 {
        lemma_no_participants_no_shares(participants, ids.drop_last());
    }
}

/// Over any members, the effects of an expense add up to the amount for each
/// time the payer stands among them, less the shares that are charged.
pub proof fn lemma_total_effect(expense: ExpenseView, ids: Seq<MemberId>)
    ensures
        total_effect(expense, ids) == expense.amount_cents * occurrences(ids, expense.paid_by)
            - share(expense) * shares_charged(expense.participants, ids),
    decreases ids.len(),
{
    if ids.len() > 0 {
        let front = ids.drop_last();
        lemma_total_effect(expense, front);
        let a = expense.amount_cents as int;
        let q = share(expense);
        let paid = occurrences(front, expense.paid_by) as int;
        let charged = shares_charged(expense.participants, front) as int;
        let more = occurrences(expense.participants, ids.last()) as int;
        assert(q * (charged + more) == q * charged + q * more) by (nonlinear_arith);
        assert(a * (paid + 1) == a * paid + a) by (nonlinear_arith);
    } else {
        let a = expense.amount_cents as int;
        let q = share(expense);
        assert(a * 0 - q * 0 == 0) by (nonlinear_arith);
    }
}

/// What one expense leaves undistributed: in a group where no member stands
/// twice, the effects of an expense that the group admits add up to what the
/// division of the amount by the number of participants leaves over. That
/// remainder stays with the payer, so the balances do not add up to zero
/// unless the amount divides evenly.
pub proof fn lemma_expense_leaves_the_remainder(group: GroupView, expense: ExpenseView)
    requires
        group.admits(expense),
        group.member_ids().no_duplicates(),
    ensures
        total_effect(expense, group.member_ids()) == expense.amount_cents
            - expense.participants.len() * share(expense),
        total_effect(expense, group.member_ids()) == expense.amount_cents as int
            % expense.participants.len() as int,
        0 <= total_effect(expense, group.member_ids()) < expense.participants.len(),
{
    let ids = group.member_ids();
    let a = expense.amount_cents as int;
    let n = expense.participants.len() as int;
    let q = share(expense);
    lemma_total_effect(expense, ids);
    lemma_occurrences_without_duplicates(ids, expense.paid_by);
    lemma_shares_charged_to_members(expense.participants, ids);
    assert(a * 1 == a) by (nonlinear_arith);
    assert(q * n == n * q) by (nonlinear_arith);
    assert(a - n * q == a % n && 0 <= a % n < n) by (nonlinear_arith)
        requires
            n > 0,
            q == a / n,
    ;
}

/// What the expenses leave undistributed: the sum of the remainders of
/// their divisions.
pub open spec fn undistributed(expenses: Seq<ExpenseView>) -> int
    decreases expenses.len(),
{
    if expenses.len() == 0 {
        0
    } else {
        undistributed(expenses.drop_last()) + expenses.last().amount_cents as int
            % expenses.last().participants.len() as int
    }
}

/// The sum of the balances of the members `ids` after `expenses`.
pub open spec fn total_net(expenses: Seq<ExpenseView>, ids: Seq<MemberId>) -> int
    decreases ids.len(),
{
    if ids.len() == 0 {
        0
    } else {
        total_net(expenses, ids.drop_last()) + net(expenses, ids.last())
    }
}

/// One more expense adds its effects to the sum of the balances.
pub proof fn lemma_total_net_step(expenses: Seq<ExpenseView>, ids: Seq<MemberId>)
    requires
        expenses.len() > 0,
    ensures
        total_net(expenses, ids) == total_net(expenses.drop_last(), ids) + total_effect(
            expenses.last(),
            ids,
        ),
    decreases ids.len(),
{
    if ids.len() > 0 {
        lemma_total_net_step(expenses, ids.drop_last());
    }
}

/// Before any expense the balances add up to zero.
pub proof fn lemma_total_net_of_nothing(expenses: Seq<ExpenseView>, ids: Seq<MemberId>)
    requires
        expenses.len() == 0,
    ensures
        total_net(expenses, ids) == 0,
    decreases ids.len(),
{
    if ids.len() > 0 {
        lemma_total_net_of_nothing(expenses, ids.drop_last());
    }
}

/// In a group where no member stands twice, the balances after expenses that
/// the group admits add up to what those expenses leave undistributed.
pub proof fn lemma_total_net_is_undistributed(group: GroupView, expenses: Seq<ExpenseView>)
    requires
        group.member_ids().no_duplicates(),
        forall|k: int| 0 <= k < expenses.len() ==> group.admits(#[trigger] expenses[k]),
    ensures
        total_net(expenses, group.member_ids()) == undistributed(expenses),
    decreases expenses.len(),
{
    if expenses.len() == 0 {
        lemma_total_net_of_nothing(expenses, group.member_ids());
    } else {
        let front = expenses.drop_last();
        assert forall|k: int| 0 <= k < front.len() implies group.admits(#[trigger] front[k]) by {
            assert(front[k] == expenses[k]);
        }
        lemma_total_net_is_undistributed(group, front);
        lemma_total_net_step(expenses, group.member_ids());
        assert(group.admits(expenses[expenses.len() - 1]));
        lemma_expense_leaves_the_remainder(group, expenses.last());
    }
}

/// The first `count` balances of a group add up to the balances of its first
/// `count` members, where each of those is a 64-bit number.
proof fn lemma_sum_of_balances_prefix(group: GroupView, count: int)
    requires
        0 <= count <= group.members.len(),
        representable(group),
    ensures
        sum_of(balances(group).take(count)) == total_net(
            group.expenses,
            group.member_ids().take(count),
        ),
    decreases count,
{
    if count > 0 {
        lemma_sum_of_balances_prefix(group, count - 1);
        assert(balances(group).take(count).drop_last() =~= balances(group).take(count - 1));
        assert(group.member_ids().take(count).drop_last() =~= group.member_ids().take(count - 1));
        assert(balances(group).take(count).last().balance_cents == balance_at(group, count - 1));
    }
}

/// The balances of a well-formed group in which no member stands twice add
/// up to what its expenses leave undistributed: to zero only where every
/// amount divides evenly among its participants.
pub proof fn lemma_balances_add_up_to_undistributed(group: GroupView)
    requires
        group.well_formed(),
        group.member_ids().no_duplicates(),
        representable(group),
    ensures
        sum_of(balances(group)) == undistributed(group.expenses),
{
    lemma_sum_of_balances_prefix(group, group.members.len() as int);
    assert(balances(group).take(group.members.len() as int) =~= balances(group));
    assert(group.member_ids().take(group.members.len() as int) =~= group.member_ids());
    lemma_total_net_is_undistributed(group, group.expenses);
}

/// After a single expense every balance is a 64-bit number, and the balances
/// add up to what that expense leaves undistributed: the amount less one
/// share for each participant, which is less than the number of participants.
pub proof fn lemma_balances_after_one_expense(group: GroupView)
    requires
        group.well_formed(),
        group.expenses.len() == 1,
        group.member_ids().no_duplicates(),
    ensures
        representable(group),
        sum_of(balances(group)) == group.expenses[0].amount_cents
            - group.expenses[0].participants.len() * share(group.expenses[0]),
        0 <= sum_of(balances(group)) < group.expenses[0].participants.len(),
{
    let expense = group.expenses[0];
    let ids = group.member_ids();
    assert(group.admits(expense));
    assert forall|i: int| 0 <= i < group.members.len() implies i64::MIN <= #[trigger] balance_at(
        group,
        i,
    ) <= i64::MAX by {
        assert(group.expenses.drop_last().len() == 0);
        assert(net(group.expenses.drop_last(), ids[i]) == 0);
        lemma_effect_within_amount(expense, ids[i]);
    }
    lemma_balances_add_up_to_undistributed(group);
    assert(group.expenses.drop_last().len() == 0);
    assert(undistributed(group.expenses.drop_last()) == 0);
    lemma_expense_leaves_the_remainder(group, expense);
}

} // verus!
