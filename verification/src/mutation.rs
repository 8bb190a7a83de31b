//! Plans for mutating the managed system.  Only the shape of a plan is
//! settled; carrying one out is not implemented.

use vstd::prelude::*;
use crate::package::PackageKey;

verus! {

/// A plan for a system mutation: what to add, remove and upgrade.
pub struct MutationPlan {
    /// Packages the plan would install.
    pub packages_to_add: Vec<PackageKey>,
    /// Packages the plan would remove.
    pub packages_to_remove: Vec<PackageKey>,
    /// Packages the plan would upgrade.
    pub packages_to_upgrade: Vec<PackageKey>,
}

impl MutationPlan {
    /// An empty plan.
    pub fn new() -> (p: MutationPlan)
        ensures
            p.packages_to_add@.len() == 0,
            p.packages_to_remove@.len() == 0,
            p.packages_to_upgrade@.len() == 0,
    {
        MutationPlan {
            packages_to_add: Vec::new(),
            packages_to_remove: Vec::new(),
            packages_to_upgrade: Vec::new(),
        }
    }
}

} // verus!
