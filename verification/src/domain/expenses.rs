//! Expenses recorded in a group.

use vstd::prelude::*;
use crate::domain::members::MemberId;

verus! {

/// Identifier of an expense: an opaque 128-bit value, compared by value.
#[derive(Debug, Clone, Copy, PartialEq, Eq, Hash, Structural)]
pub struct ExpenseId(pub u128);

/// A point in time: whole seconds since 1970-01-01 00:00:00 UTC and the
/// nanoseconds past that second.
#[derive(Debug, Clone, Copy, PartialEq, Eq, Hash, Structural)]
pub struct Timestamp {
    pub secs: i64,
    pub nanos: u32,
}

/// One payment: who paid, how much, and who shares the cost.
#[derive(Debug, PartialEq, Eq)]
pub struct Expense {
    pub id: ExpenseId,
    pub paid_by: MemberId,
    pub amount_cents: i64,
    pub description: String,
    pub created_at: Timestamp,
    pub participants: Vec<MemberId>,
}

/// What an [`Expense`] is, as a mathematical value.
pub struct ExpenseView {
    pub id: ExpenseId,
    pub paid_by: MemberId,
    pub amount_cents: i64,
    pub description: Seq<char>,
    pub created_at: Timestamp,
    pub participants: Seq<MemberId>,
}

impl View for Expense {
    type V = ExpenseView;

    open spec fn view(&self) -> ExpenseView {
        ExpenseView {
            id: self.id,
            paid_by: self.paid_by,
            amount_cents: self.amount_cents,
            description: self.description@,
            created_at: self.created_at,
            participants: self.participants@,
        }
    }
}

/// A copy of a list of member identifiers.
pub(crate) fn clone_ids(ids: &Vec<MemberId>) -> (copy: Vec<MemberId>)
    ensures
        copy@ == ids@,
{
    let mut copy: Vec<MemberId> = Vec::new();
    let mut i: usize = 0;
    while i < ids.len()
        invariant
            i <= ids.len(),
            copy@ == ids@.take(i as int),
        decreases ids.len() - i,
    {
        copy.push(ids[i]);
        assert(ids@.take(i as int).push(ids@[i as int]) =~= ids@.take(i + 1));
        i += 1;
    }
    assert(ids@.take(ids.len() as int) =~= ids@);
    copy
}

impl Clone for Expense {
    fn clone(&self) -> (copy: Self)
        ensures
            copy@ == self@,
    {
        Expense {
            id: self.id,
            paid_by: self.paid_by,
            amount_cents: self.amount_cents,
            description: self.description.clone(),
            created_at: self.created_at,
            participants: clone_ids(&self.participants),
        }
    }
}

/// The views of a list of expenses, in order.
pub open spec fn expense_views(expenses: Seq<Expense>) -> Seq<ExpenseView> {
    Seq::new(expenses.len(), |i: int| expenses[i]@)
}

/// A copy of `expenses`, element by element.
pub(crate) fn clone_expenses(expenses: &Vec<Expense>) -> (copy: Vec<Expense>)
    ensures
        expense_views(copy@) == expense_views(expenses@),
{
    let mut copy: Vec<Expense> = Vec::new();
    let mut i: usize = 0;
    while i < expenses.len()
        invariant
            i <= expenses.len(),
            copy.len() == i,
            forall|k: int| 0 <= k < i ==> copy[k]@ == expenses[k]@,
        decreases expenses.len() - i,
    {
        copy.push(expenses[i].clone());
        i += 1;
    }
    assert(expense_views(copy@) =~= expense_views(expenses@));
    copy
}

} // verus!
