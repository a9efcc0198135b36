//! Net balances: what each member is owed by the group, or owes it.

use std::collections::HashMap;
use vstd::prelude::*;
use crate::domain::expenses::{Expense, ExpenseView};
use crate::domain::groups::{Group, GroupView};
use crate::domain::members::MemberId;

verus! {

/// The net position of one member. A positive balance is owed to the member,
/// a negative one is owed by the member.
#[derive(Debug, Clone, Copy, PartialEq, Eq, Structural)]
pub struct Balance {
    pub member: MemberId,
    pub balance_cents: i64,
}

/// How often `id` stands in `ids`.
pub open spec fn occurrences(ids: Seq<MemberId>, id: MemberId) -> nat
    decreases ids.len(),
{
    if ids.len() == 0 {
        0
    } else {
        occurrences(ids.drop_last(), id) + if ids.last() == id {
            1nat
        } else {
            0nat
        }
    }
}

/// What each participant owes for `expense`: the amount divided by the number
/// of participants, rounded down. What the division leaves over stays with
/// the payer.
pub open spec fn share(expense: ExpenseView) -> int {
    expense.amount_cents as int / expense.participants.len() as int
}

/// What `expense` adds to the balance of `id`: the whole amount if `id` paid,
/// less one share for each time `id` stands among the participants.
pub open spec fn effect(expense: ExpenseView, id: MemberId) -> int {
    (if expense.paid_by == id {
        expense.amount_cents as int
    } else {
        0
    }) - share(expense) * occurrences(expense.participants, id)
}

/// The balance of `id` after `expenses`: the sum of their effects on it.
pub open spec fn net(expenses: Seq<ExpenseView>, id: MemberId) -> int
    decreases expenses.len(),
{
    if expenses.len() == 0 {
        0
    } else {
        net(expenses.drop_last(), id) + effect(expenses.last(), id)
    }
}

/// The balance of the member at place `i` of `group`.
pub open spec fn balance_at(group: GroupView, i: int) -> int {
    net(group.expenses, group.members[i].id)
}

/// Whether the balance of every member of `group` is a 64-bit number.
pub open spec fn representable(group: GroupView) -> bool {
    forall|i: int|
        0 <= i < group.members.len() ==> i64::MIN <= #[trigger] balance_at(group, i) <= i64::MAX
}

/// One balance for each member of `group`, in the order of its members.
pub open spec fn balances(group: GroupView) -> Seq<Balance> {
    Seq::new(
        group.members.len(),
        |i: int| Balance { member: group.members[i].id, balance_cents: balance_at(group, i) as i64 },
    )
}

/// Counting one identifier further along a list adds one where that identifier
/// is the one that is counted.
pub proof fn lemma_occurrences_step(ids: Seq<MemberId>, j: int, id: MemberId)
    requires
        0 <= j < ids.len(),
    ensures
        occurrences(ids.take(j + 1), id) == occurrences(ids.take(j), id) + if ids[j] == id {
            1nat
        } else {
            0nat
        },
{
    assert(ids.take(j + 1).drop_last() =~= ids.take(j));
}

/// An identifier stands in a list at most as often as the list is long.
pub proof fn lemma_occurrences_bound(ids: Seq<MemberId>, id: MemberId)
    ensures
        occurrences(ids, id) <= ids.len(),
    decreases ids.len(),
{
    if ids.len() > 0 {
        lemma_occurrences_bound(ids.drop_last(), id);
    }
}

/// The balance after one more expense is the balance before it plus the
/// effect of that expense.
pub proof fn lemma_net_step(expenses: Seq<ExpenseView>, k: int, id: MemberId)
    requires
        0 <= k < expenses.len(),
    ensures
        net(expenses.take(k + 1), id) == net(expenses.take(k), id) + effect(expenses[k], id),
{
    assert(expenses.take(k + 1).drop_last() =~= expenses.take(k));
}

/// Up to as many shares as there are participants never exceed the amount.
pub proof fn lemma_shares_within_amount(expense: ExpenseView, count: int)
    requires
        expense.amount_cents > 0,
        0 <= count <= expense.participants.len(),
    ensures
        0 <= share(expense) * count <= expense.amount_cents,
{
    let a = expense.amount_cents as int;
    let n = expense.participants.len() as int;
    if n > 0 {
        let q = a / n;
        assert(0 <= q && q * n <= a) by (nonlinear_arith)
            requires
                a > 0,
                n > 0,
                q == a / n,
        ;
        assert(0 <= q * count <= q * n) by (nonlinear_arith)
            requires
                0 <= q,
                0 <= count <= n,
        ;
    } else {
        assert(share(expense) * count == 0) by (nonlinear_arith)
            requires
                count == 0,
        ;
    }
}

/// One expense moves a balance by no more than its amount, either way.
pub proof fn lemma_effect_within_amount(expense: ExpenseView, id: MemberId)
    requires
        expense.amount_cents > 0,
    ensures
        -expense.amount_cents <= effect(expense, id) <= expense.amount_cents,
{
    lemma_occurrences_bound(expense.participants, id);
    lemma_shares_within_amount(expense, occurrences(expense.participants, id) as int);
}

/// The largest total to which an amount can still be added or from which it
/// can still be taken within 128 bits.
spec fn room() -> int {
    i128::MAX - i64::MAX
}

/// Whether `totals` has an entry for each member of `group` and for nobody
/// else.
spec fn tracks(totals: Map<u128, i128>, group: GroupView) -> bool {
    forall|id: MemberId| #[trigger] totals.contains_key(id.0) <==> group.has_member(id)
}

/// Whether an expense can be applied to totals with the entries `keys`: it
/// has a positive amount and a participant, and the payer and every
/// participant have an entry.
spec fn applies(keys: Set<u128>, expense: ExpenseView) -> bool {
    &&& expense.amount_cents > 0
    &&& expense.participants.len() > 0
    &&& keys.contains(expense.paid_by.0)
    &&& forall|j: int|
        0 <= j < expense.participants.len() ==> keys.contains((#[trigger] expense.participants[j]).0)
}

/// An expense can be applied to the totals of a group exactly when the group
/// admits it.
proof fn lemma_applies_iff_admits(
    totals: Map<u128, i128>,
    group: GroupView,
    expense: ExpenseView,
)
    requires
        tracks(totals, group),
    ensures
        applies(totals.dom(), expense) <==> group.admits(expense),
{
    assert(totals.contains_key(expense.paid_by.0) <==> group.has_member(expense.paid_by));
    if applies(totals.dom(), expense) {
        assert forall|j: int| 0 <= j < expense.participants.len() implies group.has_member(
            #[trigger] expense.participants[j],
        ) by {
            assert(totals.contains_key(expense.participants[j].0));
        }
    }
    if group.admits(expense) {
        assert forall|j: int| 0 <= j < expense.participants.len() implies totals.dom().contains(
            (#[trigger] expense.participants[j]).0,
        ) by {
            assert(group.has_member(expense.participants[j]));
            assert(totals.contains_key(expense.participants[j].0));
        }
    }
}

/// A total of zero for every member of `group`.
fn zero_totals(group: &Group) -> (totals: HashMap<u128, i128>)
    ensures
        tracks(totals@, group@),
        forall|key: u128| totals@.contains_key(key) ==> totals@[key] == 0,
{
    let ghost ids = group@.member_ids();
    let mut totals: HashMap<u128, i128> = HashMap::new();
    let mut i: usize = 0;
    while i < group.members.len()
        invariant
            i <= group.members.len(),
            ids == group@.member_ids(),
            forall|id: MemberId| #[trigger]
                totals@.contains_key(id.0) <==> ids.take(i as int).contains(id),
            forall|key: u128| totals@.contains_key(key) ==> totals@[key] == 0,
        decreases group.members.len() - i,
    {
        let member = group.members[i].id;
        assert(member == ids[i as int]);
        totals.insert(member.0, 0);
        proof {
            let before = ids.take(i as int);
            let after = ids.take(i as int + 1);
            assert(after =~= before.push(member));
            assert forall|id: MemberId| #[trigger]
                totals@.contains_key(id.0) <==> after.contains(id) by {
                if before.contains(id) {
                    let at = choose|at: int| 0 <= at < before.len() && before[at] == id;
                    assert(after[at] == id);
                }
                if id == member {
                    assert(after[i as int] == id);
                }
            }
        }
        i += 1;
    }
    assert(ids.take(i as int) =~= ids);
    totals
}

/// Applies one expense to the running totals: a share off for each
/// participant, in their order, then the whole amount on for the payer.
/// Where the expense cannot be applied the totals are of no use any more.
fn apply_expense(totals: &mut HashMap<u128, i128>, expense: &Expense) -> (applied: bool)
    requires
        forall|key: u128|
            old(totals)@.contains_key(key) ==> -room() <= #[trigger] old(totals)@[key] <= room(),
    ensures
        final(totals)@.dom() == old(totals)@.dom(),
        applied <==> applies(old(totals)@.dom(), expense@),
        applied ==> forall|key: u128|
            final(totals)@.contains_key(key) ==> #[trigger] final(totals)@[key] == old(totals)@[key]
                + effect(expense@, MemberId(key)),
{
    let ghost before = totals@;
    let ghost view = expense@;
    let n: usize = expense.participants.len();
    if expense.amount_cents <= 0 || n == 0 {
        return false;
    }
    let share: i128 = expense.amount_cents as i128 / n as i128;
    let mut j: usize = 0;
    assert forall|key: u128| before.contains_key(key) implies #[trigger] totals@[key] == before[key]
        - share * occurrences(view.participants.take(0), MemberId(key)) by {
        let none = occurrences(view.participants.take(0), MemberId(key));
        assert(view.participants.take(0).len() == 0);
        assert(none == 0);
        assert(share * none == 0) by (nonlinear_arith)
            requires
                none == 0,
        ;
    }
    while j < n
        invariant
            j <= n,
            n == expense.participants.len(),
            view == expense@,
            before == old(totals)@,
            view.amount_cents > 0,
            share == self::share(view),
            totals@.dom() == before.dom(),
            forall|i: int|
                0 <= i < j ==> before.contains_key((#[trigger] view.participants[i]).0),
            forall|key: u128| before.contains_key(key) ==> -room() <= #[trigger] before[key] <= room(),
            forall|key: u128|
                before.contains_key(key) ==> #[trigger] totals@[key] == before[key] - share
                    * occurrences(view.participants.take(j as int), MemberId(key)),
        decreases n - j,
    {
        let participant = expense.participants[j];
        assert(participant == view.participants[j as int]);
        let current: i128 = match totals.get(&participant.0) {
            Some(total) => *total,
            None => {
                assert(!before.dom().contains(view.participants[j as int].0));
                return false;
            },
        };
        proof {
            assert(before.contains_key(participant.0));
            lemma_occurrences_step(view.participants, j as int, participant);
            lemma_occurrences_bound(view.participants.take(j as int + 1), participant);
            lemma_shares_within_amount(
                view,
                occurrences(view.participants.take(j as int + 1), participant) as int,
            );
            lemma_shares_within_amount(view, 1);
            assert(share * (occurrences(view.participants.take(j as int), participant) + 1) == share
                * occurrences(view.participants.take(j as int), participant) + share)
                by (nonlinear_arith);
        }
        totals.insert(participant.0, current - share);
        proof {
            assert(totals@.dom() =~= before.dom());
            assert forall|key: u128| before.contains_key(key) implies #[trigger] totals@[key]
                == before[key] - share * occurrences(
                view.participants.take(j as int + 1),
                MemberId(key),
            ) by {
                lemma_occurrences_step(view.participants, j as int, MemberId(key));
            }
        }
        j += 1;
    }
    assert(view.participants.take(n as int) =~= view.participants);
    let payer = expense.paid_by;
    let current: i128 = match totals.get(&payer.0) {
        Some(total) => *total,
        None => {
            return false;
        },
    };
    proof {
        lemma_occurrences_bound(view.participants, payer);
        lemma_shares_within_amount(view, occurrences(view.participants, payer) as int);
    }
    totals.insert(payer.0, current + expense.amount_cents as i128);
    assert(totals@.dom() =~= before.dom());
    true
}

/// The balances of the members of `group`, in their order, or `None` where
/// the group is not well formed or one of its balances is not a 64-bit
/// number.
///
/// Every member starts at zero. The expenses are applied in the order in
/// which they were recorded.
pub fn balances_of(group: &Group) -> (outcome: Option<Vec<Balance>>)
    ensures
        outcome is Some <==> group@.well_formed() && representable(group@),
        outcome matches Some(list) ==> list@ == balances(group@),
{
    let ghost view = group@;
    let mut totals = zero_totals(group);
    let mut k: usize = 0;
    while k < group.expenses.len()
        invariant
            k <= group.expenses.len(),
            view == group@,
            tracks(totals@, view),
            forall|m: int| 0 <= m < k ==> view.admits(#[trigger] view.expenses[m]),
            forall|key: u128|
                totals@.contains_key(key) ==> #[trigger] totals@[key] == net(
                    view.expenses.take(k as int),
                    MemberId(key),
                ),
            forall|key: u128|
                totals@.contains_key(key) ==> -k * 0x8000_0000_0000_0000 <= #[trigger] totals@[key] <= k
                    * 0x8000_0000_0000_0000,
        decreases group.expenses.len() - k,
    {
        let expense = &group.expenses[k];
        let ghost before = totals@;
        proof {
            assert(expense@ == view.expenses[k as int]);
            lemma_applies_iff_admits(before, view, expense@);
        }
        if !apply_expense(&mut totals, expense) {
            assert(!view.admits(view.expenses[k as int]));
            return None;
        }
        proof {
            assert(totals@.dom() == before.dom());
            assert forall|id: MemberId| #[trigger]
                totals@.contains_key(id.0) <==> view.has_member(id) by {
                assert(before.contains_key(id.0) <==> view.has_member(id));
            }
            assert forall|key: u128| totals@.contains_key(key) implies #[trigger] totals@[key] == net(
                view.expenses.take(k as int + 1),
                MemberId(key),
            ) && -(k + 1) * 0x8000_0000_0000_0000 <= totals@[key] <= (k + 1)
                * 0x8000_0000_0000_0000 by {
                assert(before.contains_key(key));
                lemma_net_step(view.expenses, k as int, MemberId(key));
                lemma_effect_within_amount(expense@, MemberId(key));
            }
        }
        k += 1;
    }
    assert(view.expenses.take(k as int) =~= view.expenses);
    assert(view.well_formed());
    let mut list: Vec<Balance> = Vec::new();
    let mut i: usize = 0;
    while i < group.members.len()
        invariant
            i <= group.members.len(),
            view == group@,
            tracks(totals@, view),
            list.len() == i,
            forall|key: u128|
                totals@.contains_key(key) ==> #[trigger] totals@[key] == net(
                    view.expenses,
                    MemberId(key),
                ),
            forall|m: int| 0 <= m < i ==> i64::MIN <= #[trigger] balance_at(view, m) <= i64::MAX,
            forall|m: int| 0 <= m < i ==> list[m] == balances(view)[m],
        decreases group.members.len() - i,
    {
        let member = group.members[i].id;
        proof {
            assert(member == view.member_ids()[i as int]);
            assert(view.has_member(member));
            assert(totals@.contains_key(member.0));
        }
        let total: i128 = *totals.get(&member.0).unwrap();
        assert(total == balance_at(view, i as int));
        if total < i64::MIN as i128 || total > i64::MAX as i128 {
            return None;
        }
        list.push(Balance { member, balance_cents: total as i64 });
        i += 1;
    }
    assert(list@ =~= balances(view));
    Some(list)
}

} // verus!
