//! Groups: the unit that is stored and read as a whole.

use vstd::prelude::*;
use crate::domain::expenses::{clone_expenses, expense_views, Expense, ExpenseView};
use crate::domain::members::{clone_members, member_views, Member, MemberId, MemberView};

verus! {

/// Identifier of a group: an opaque 128-bit value, compared by value.
#[derive(Debug, Clone, Copy, PartialEq, Eq, Hash, Structural)]
pub struct GroupId(pub u128);

/// A named group with its members and expenses, both in the order in which
/// they were added.
#[derive(Debug, PartialEq, Eq)]
pub struct Group {
    pub id: GroupId,
    pub name: String,
    pub members: Vec<Member>,
    pub expenses: Vec<Expense>,
}

/// What a [`Group`] is, as a mathematical value.
pub struct GroupView {
    pub id: GroupId,
    pub name: Seq<char>,
    pub members: Seq<MemberView>,
    pub expenses: Seq<ExpenseView>,
}

impl View for Group {
    type V = GroupView;

    open spec fn view(&self) -> GroupView {
        GroupView {
            id: self.id,
            name: self.name@,
            members: member_views(self.members@),
            expenses: expense_views(self.expenses@),
        }
    }
}

impl Clone for Group {
    fn clone(&self) -> (copy: Self)
        ensures
            copy@ == self@,
    {
        Group {
            id: self.id,
            name: self.name.clone(),
            members: clone_members(&self.members),
            expenses: clone_expenses(&self.expenses),
        }
    }
}

impl GroupView {
    /// The identifiers of the members, in order.
    pub open spec fn member_ids(self) -> Seq<MemberId> {
        self.members.map_values(|m: MemberView| m.id)
    }

    /// Whether some member has the identifier `id`.
    pub open spec fn has_member(self, id: MemberId) -> bool {
        self.member_ids().contains(id)
    }

    /// The participants of a new expense: the ones that were named, or, where
    /// none was named, every member the group has at that moment.
    pub open spec fn resolve(self, participants: Seq<MemberId>) -> Seq<MemberId> {
        if participants.len() == 0 {
            self.member_ids()
        } else {
            participants
        }
    }

    /// Whether every identifier in `ids` is that of a member.
    pub open spec fn has_members(self, ids: Seq<MemberId>) -> bool {
        forall|j: int| 0 <= j < ids.len() ==> self.has_member(#[trigger] ids[j])
    }

    /// Whether `expense` may stand in this group: a positive amount, a payer
    /// who is a member, and at least one participant, each of them a member.
    pub open spec fn admits(self, expense: ExpenseView) -> bool {
        &&& expense.amount_cents > 0
        &&& self.has_member(expense.paid_by)
        &&& expense.participants.len() > 0
        &&& self.has_members(expense.participants)
    }

    /// Whether every expense of the group may stand in it.
    pub open spec fn well_formed(self) -> bool {
        forall|k: int| 0 <= k < self.expenses.len() ==> self.admits(#[trigger] self.expenses[k])
    }

    /// The group with `member` added after its members.
    pub open spec fn with_member(self, member: MemberView) -> GroupView {
        GroupView { members: self.members.push(member), ..self }
    }

    /// The group with `expense` added after its expenses.
    pub open spec fn with_expense(self, expense: ExpenseView) -> GroupView {
        GroupView { expenses: self.expenses.push(expense), ..self }
    }
}

/// A group that has a name and nothing else yet.
pub open spec fn new_group(id: GroupId, name: Seq<char>) -> GroupView {
    GroupView { id, name, members: Seq::empty(), expenses: Seq::empty() }
}

/// A group without expenses is well formed.
pub proof fn lemma_new_group_well_formed(id: GroupId, name: Seq<char>)
    ensures
        new_group(id, name).well_formed(),
{
}

/// Whoever is a member stays one when another member joins, and the one who
/// joins is a member.
pub proof fn lemma_with_member_has_member(group: GroupView, member: MemberView, id: MemberId)
    ensures
        group.with_member(member).has_member(id) <==> group.has_member(id) || id == member.id,
{
    let before = group.member_ids();
    let after = group.with_member(member).member_ids();
    assert(after =~= before.push(member.id));
    if group.has_member(id) {
        let i = choose|i: int| 0 <= i < before.len() && before[i] == id;
        assert(after[i] == id);
    }
    if id == member.id {
        assert(after[before.len() as int] == id);
    }
}

/// Adding a member keeps a group well formed.
pub proof fn lemma_with_member_well_formed(group: GroupView, member: MemberView)
    requires
        group.well_formed(),
    ensures
        group.with_member(member).well_formed(),
{
    let after = group.with_member(member);
    assert forall|k: int| 0 <= k < after.expenses.len() implies after.admits(
        #[trigger] after.expenses[k],
    ) by {
        let e = after.expenses[k];
        assert(group.admits(group.expenses[k]));
        lemma_with_member_has_member(group, member, e.paid_by);
        assert forall|j: int| 0 <= j < e.participants.len() implies after.has_member(
            #[trigger] e.participants[j],
        ) by {
            lemma_with_member_has_member(group, member, e.participants[j]);
        }
    }
}

/// Adding an expense that the group admits keeps it well formed.
pub proof fn lemma_with_expense_well_formed(group: GroupView, expense: ExpenseView)
    requires
        group.well_formed(),
        group.admits(expense),
    ensures
        group.with_expense(expense).well_formed(),
{
    let after = group.with_expense(expense);
    assert(after.member_ids() == group.member_ids());
    assert forall|k: int| 0 <= k < after.expenses.len() implies after.admits(
        #[trigger] after.expenses[k],
    ) by {
        if k < group.expenses.len() {
            assert(group.admits(group.expenses[k]));
        }
    }
}

impl Group {
    /// A group that has a name and nothing else yet.
    pub fn new(id: GroupId, name: String) -> (group: Group)
        ensures
            group@ == new_group(id, name@),
    {
        let group = Group { id, name, members: Vec::new(), expenses: Vec::new() };
        assert(group@.members =~= Seq::empty());
        assert(group@.expenses =~= Seq::empty());
        group
    }

    /// Whether some member has the identifier `id`.
    pub fn has_member(&self, id: MemberId) -> (yes: bool)
        ensures
            yes == self@.has_member(id),
    {
        let mut i: usize = 0;
        while i < self.members.len()
            invariant
                i <= self.members.len(),
                forall|k: int| 0 <= k < i ==> self@.member_ids()[k] != id,
            decreases self.members.len() - i,
        {
            if self.members[i].id == id {
                assert(self@.member_ids()[i as int] == id);
                return true;
            }
            i += 1;
        }
        false
    }

    /// The identifiers of the members, in order.
    pub fn member_ids(&self) -> (ids: Vec<MemberId>)
        ensures
            ids@ == self@.member_ids(),
    {
        let mut ids: Vec<MemberId> = Vec::new();
        let mut i: usize = 0;
        while i < self.members.len()
            invariant
                i <= self.members.len(),
                ids.len() == i,
                forall|k: int| 0 <= k < i ==> ids[k] == self@.member_ids()[k],
            decreases self.members.len() - i,
        {
            ids.push(self.members[i].id);
            i += 1;
        }
        assert(ids@ =~= self@.member_ids());
        ids
    }

    /// Whether every identifier in `ids` is that of a member.
    pub fn has_members(&self, ids: &Vec<MemberId>) -> (yes: bool)
        ensures
            yes == self@.has_members(ids@),
    {
        let mut j: usize = 0;
        while j < ids.len()
            invariant
                j <= ids.len(),
                forall|k: int| 0 <= k < j ==> self@.has_member(#[trigger] ids@[k]),
            decreases ids.len() - j,
        {
            if !self.has_member(ids[j]) {
                return false;
            }
            j += 1;
        }
        true
    }
}

} // verus!
