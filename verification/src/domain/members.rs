//! Members of a group.

use vstd::prelude::*;

verus! {

/// Identifier of a member: an opaque 128-bit value, compared by value.
#[derive(Debug, Clone, Copy, PartialEq, Eq, Hash, Structural)]
pub struct MemberId(pub u128);

/// A named participant of a group. Two members may share a name; a member is
/// known by its identifier.
#[derive(Debug, PartialEq, Eq)]
pub struct Member {
    pub id: MemberId,
    pub name: String,
}

/// What a [`Member`] is, as a mathematical value.
pub struct MemberView {
    pub id: MemberId,
    pub name: Seq<char>,
}

impl View for Member {
    type V = MemberView;

    open spec fn view(&self) -> MemberView {
        MemberView { id: self.id, name: self.name@ }
    }
}

impl Clone for Member {
    fn clone(&self) -> (copy: Self)
        ensures
            copy@ == self@,
    {
        Member { id: self.id, name: self.name.clone() }
    }
}

/// The views of a list of members, in order.
pub open spec fn member_views(members: Seq<Member>) -> Seq<MemberView> {
    Seq::new(members.len(), |i: int| members[i]@)
}

/// A copy of `members`, element by element.
pub(crate) fn clone_members(members: &Vec<Member>) -> (copy: Vec<Member>)
    ensures
        member_views(copy@) == member_views(members@),
{
    let mut copy: Vec<Member> = Vec::new();
    let mut i: usize = 0;
    while i < members.len()
        invariant
            i <= members.len(),
            copy.len() == i,
            forall|k: int| 0 <= k < i ==> copy[k]@ == members[k]@,
        decreases members.len() - i,
    {
        copy.push(members[i].clone());
        i += 1;
    }
    assert(member_views(copy@) =~= member_views(members@));
    copy
}

} // verus!
