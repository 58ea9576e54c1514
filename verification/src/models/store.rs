//! The entity store: every table of the catalog in memory, and the sequence
//! that row identities are drawn from.

use crate::models::{
    author, committer, dependency, dependency_module, dependency_osv, gh_organization,
    gh_repository, maintainer, module, module_author, module_committer, module_maintainer,
    system_event,
};
use vstd::prelude::*;

verus! {

/// Why the catalog could not take something in.
#[derive(Debug, Clone, Copy, PartialEq, Eq, Structural)]
pub enum StoreError {
    /// The sequence of identities has too few left for what was asked.
    IdsExhausted,
}

/// The catalog. A row's `id` is drawn from one sequence for all tables, so an
/// identity is never handed out twice, not even after its row is gone.
pub struct Store {
    pub organizations: Vec<gh_organization::Model>,
    pub repositories: Vec<gh_repository::Model>,
    pub modules: Vec<module::Model>,
    pub authors: Vec<author::Model>,
    pub maintainers: Vec<maintainer::Model>,
    pub committers: Vec<committer::Model>,
    pub module_authors: Vec<module_author::Model>,
    pub module_maintainers: Vec<module_maintainer::Model>,
    pub module_committers: Vec<module_committer::Model>,
    pub dependencies: Vec<dependency::Model>,
    pub dependency_modules: Vec<dependency_module::Model>,
    pub dependency_osvs: Vec<dependency_osv::Model>,
    pub system_events: Vec<system_event::Model>,
    pub last_id: i64,
}

impl Store {
    /// No identity of the catalog is above `last_id`.
    pub open spec fn ids_below(&self, last_id: i64) -> bool {
        &&& gh_organization::ids_below(self.organizations@, last_id)
        &&& gh_repository::ids_below(self.repositories@, last_id)
        &&& module::ids_below(self.modules@, last_id)
        &&& author::ids_below(self.authors@, last_id)
        &&& maintainer::ids_below(self.maintainers@, last_id)
        &&& committer::ids_below(self.committers@, last_id)
        &&& module_author::ids_below(self.module_authors@, last_id)
        &&& module_maintainer::ids_below(self.module_maintainers@, last_id)
        &&& module_committer::ids_below(self.module_committers@, last_id)
        &&& dependency::ids_below(self.dependencies@, last_id)
        &&& dependency_module::ids_below(self.dependency_modules@, last_id)
        &&& dependency_osv::ids_below(self.dependency_osvs@, last_id)
    }

    /// Every table is well keyed.
    pub open spec fn well_keyed(&self) -> bool {
        &&& gh_organization::well_keyed(self.organizations@)
        &&& gh_repository::well_keyed(self.repositories@)
        &&& module::well_keyed(self.modules@)
        &&& author::well_keyed(self.authors@)
        &&& maintainer::well_keyed(self.maintainers@)
        &&& committer::well_keyed(self.committers@)
        &&& module_author::well_keyed(self.module_authors@)
        &&& module_maintainer::well_keyed(self.module_maintainers@)
        &&& module_committer::well_keyed(self.module_committers@)
        &&& dependency::well_keyed(self.dependencies@)
        &&& dependency_module::well_keyed(self.dependency_modules@)
        &&& dependency_osv::well_keyed(self.dependency_osvs@)
    }

    /// Every copy of a name that a row holds of another row agrees with that
    /// row, which is there.
    pub open spec fn consistent(&self) -> bool {
        &&& gh_repository::owned(self.repositories@, self.organizations@)
        &&& module::housed(self.modules@, self.repositories@)
        &&& module_author::linked(self.module_authors@, self.authors@)
        &&& module_maintainer::linked(self.module_maintainers@, self.maintainers@)
        &&& module_committer::linked(self.module_committers@, self.committers@)
        &&& dependency_module::linked(self.dependency_modules@, self.dependencies@)
    }

    /// The invariant of the catalog.
    pub open spec fn wf(&self) -> bool {
        &&& self.last_id >= 0
        &&& self.ids_below(self.last_id)
        &&& self.well_keyed()
        &&& self.consistent()
    }

    /// An empty catalog.
    pub fn new() -> (s: Store)
        ensures
            s.wf(),
            s.organizations@.len() == 0,
            s.repositories@.len() == 0,
            s.modules@.len() == 0,
            s.authors@.len() == 0,
            s.maintainers@.len() == 0,
            s.committers@.len() == 0,
            s.module_authors@.len() == 0,
            s.module_maintainers@.len() == 0,
            s.module_committers@.len() == 0,
            s.dependencies@.len() == 0,
            s.dependency_modules@.len() == 0,
            s.dependency_osvs@.len() == 0,
            s.system_events@.len() == 0,
            s.last_id == 0,
    {
        Store {
            organizations: Vec::new(),
            repositories: Vec::new(),
            modules: Vec::new(),
            authors: Vec::new(),
            maintainers: Vec::new(),
            committers: Vec::new(),
            module_authors: Vec::new(),
            module_maintainers: Vec::new(),
            module_committers: Vec::new(),
            dependencies: Vec::new(),
            dependency_modules: Vec::new(),
            dependency_osvs: Vec::new(),
            system_events: Vec::new(),
            last_id: 0,
        }
    }

    /// Draws the next identity.
    pub fn fresh_id(&mut self) -> (id: i64)
        requires
            old(self).last_id < i64::MAX,
        ensures
            id == old(self).last_id + 1,
            *final(self) == (Store { last_id: id, ..*old(self) }),
    {
        self.last_id = self.last_id + 1;
        self.last_id
    }
}

} // verus!
