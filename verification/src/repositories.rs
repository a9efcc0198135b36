//! The store of groups: what the ledger asks of whatever keeps them.

use vstd::prelude::*;
use crate::domain::errors::{is_not_found, DomainError};
use crate::domain::groups::{Group, GroupId, GroupView};

verus! {

/// The store after `group` has been saved: its entry replaces whatever was
/// kept under the same identifier, every other entry stays.
pub open spec fn saved(groups: Map<GroupId, GroupView>, group: GroupView) -> Map<
    GroupId,
    GroupView,
> {
    groups.insert(group.id, group)
}

/// What a read of `id` finds in the store.
pub open spec fn found(groups: Map<GroupId, GroupView>, id: GroupId) -> Option<GroupView> {
    if groups.contains_key(id) {
        Some(groups[id])
    } else {
        None
    }
}

/// A store that keeps each group as a whole.
///
/// `save` takes the store by exclusive reference. A store shared between
/// threads therefore sits behind a lock of its owner, and that lock is held
/// for the whole of an operation, not for its single reads and writes.
pub trait GroupRepository {
    /// The groups in the store, by identifier.
    spec fn groups(&self) -> Map<GroupId, GroupView>;

    /// Whether this store never fails for reasons of its own: it saves
    /// whatever it is given and finds whatever it holds.
    spec fn dependable(&self) -> bool;

    /// Puts `group` in the store under its identifier, in place of whatever was
    /// there. A store that fails keeps what it had.
    fn save(&mut self, group: Group) -> (outcome: Result<(), DomainError>)
        ensures
            outcome is Ok ==> final(self).groups() == saved(old(self).groups(), group@),
            outcome is Err ==> final(self).groups() == old(self).groups(),
            old(self).dependable() ==> outcome is Ok,
            final(self).dependable() == old(self).dependable(),
    ;

    /// A copy of the group kept under `id`. A group that is not in the store is
    /// reported as `NotFound`.
    fn get(&self, id: &GroupId) -> (outcome: Result<Group, DomainError>)
        ensures
            outcome matches Ok(group) ==> found(self.groups(), *id) == Some(group@),
            found(self.groups(), *id) is None ==> is_not_found(outcome),
            self.dependable() && found(self.groups(), *id) is Some ==> outcome is Ok,
    ;
}

/// Reading a group right after it was saved gives back what was saved.
pub proof fn lemma_save_then_get(groups: Map<GroupId, GroupView>, group: GroupView)
    ensures
        found(saved(groups, group), group.id) == Some(group),
{
}

/// Saving a group leaves every other group as it was.
pub proof fn lemma_save_keeps_others(
    groups: Map<GroupId, GroupView>,
    group: GroupView,
    other: GroupId,
)
    requires
        other != group.id,
    ensures
        found(saved(groups, group), other) == found(groups, other),
{
}

/// The later of two saves under one identifier wins.
pub proof fn lemma_last_save_wins(
    groups: Map<GroupId, GroupView>,
    first: GroupView,
    second: GroupView,
)
    requires
        first.id == second.id,
    ensures
        saved(saved(groups, first), second) == saved(groups, second),
{
    assert(saved(saved(groups, first), second) =~= saved(groups, second));
}

} // verus!
