//! A store that keeps its groups in memory.

use std::collections::HashMap;
use vstd::prelude::*;
use crate::domain::errors::{DomainError, DomainErrorView};
use crate::domain::groups::{Group, GroupId, GroupView};
use crate::identifiers::{hyphenated, id_text};
use crate::repositories::{saved, GroupRepository};

verus! {

/// Groups in a hash map, keyed by the 128 bits of their identifier.
pub struct InMemoryGroupRepo {
    inner: HashMap<u128, Group>,
}

/// The message with which a group that is missing is reported.
pub open spec fn missing_group_message(id: GroupId) -> Seq<char> {
    "group "@ + hyphenated(id.0)
}

impl InMemoryGroupRepo {
    /// An empty store.
    pub fn new() -> (repo: Self)
        ensures
            repo.groups() == Map::<GroupId, GroupView>::empty(),
    {
        let repo = InMemoryGroupRepo { inner: HashMap::new() };
        assert(repo.groups() =~= Map::<GroupId, GroupView>::empty());
        repo
    }
}

impl GroupRepository for InMemoryGroupRepo {
    closed spec fn groups(&self) -> Map<GroupId, GroupView> {
        Map::new(|id: GroupId| self.inner@.contains_key(id.0), |id: GroupId| self.inner@[id.0]@)
    }

    /// Memory does not fail.
    open spec fn dependable(&self) -> bool {
        true
    }

    fn save(&mut self, group: Group) -> (outcome: Result<(), DomainError>) {
        let ghost view = group@;
        self.inner.insert(group.id.0, group);
        assert(self.groups() =~= saved(old(self).groups(), view));
        Ok(())
    }

    fn get(&self, id: &GroupId) -> (outcome: Result<Group, DomainError>)
        ensures
            outcome matches Err(error) ==> error@ == DomainErrorView::NotFound(
                missing_group_message(*id),
            ),
    {
        match self.inner.get(&id.0) {
            Some(group) => Ok(group.clone()),
            None => {
                let text = id_text(id.0);
                Err(DomainError::NotFound(String::from_str("group ").concat(text.as_str())))
            },
        }
    }
}

} // verus!
