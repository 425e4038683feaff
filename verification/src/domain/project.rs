//! Projects.

use crate::domain::id::EntityId;
use crate::text::opt_view;
use vstd::prelude::*;

verus! {

/// A project that memories belong to.
#[derive(Debug, PartialEq)]
pub struct Project {
    pub id: EntityId,
    pub name: String,
    pub legacy_name: Option<String>,
    pub is_global: bool,
}

/// The content of a project.
#[verifier::ext_equal]
pub struct ProjectView {
    pub id: EntityId,
    pub name: Seq<char>,
    pub legacy_name: Option<Seq<char>>,
    pub is_global: bool,
}

impl View for Project {
    type V = ProjectView;

    open spec fn view(&self) -> ProjectView {
        ProjectView {
            id: self.id,
            name: self.name@,
            legacy_name: opt_view(self.legacy_name),
            is_global: self.is_global,
        }
    }
}

impl Clone for Project {
    fn clone(&self) -> (r: Self)
        ensures
            r@ == self@,
    {
        Project {
            id: self.id,
            name: self.name.clone(),
            legacy_name: self.legacy_name.clone(),
            is_global: self.is_global,
        }
    }
}

impl Project {
    pub fn is_global_scope(&self) -> (r: bool)
        ensures
            r == self.is_global,
    {
        self.is_global
    }
}

} // verus!
