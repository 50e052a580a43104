//! The registry of pending allocation releases, set up once when the service starts.
use vstd::prelude::*;

verus! {

/// The allocations that have a release scheduled.
#[derive(Debug)]
pub struct AllocationReleaseTasks {
    pub tasks: Vec<String>,
}

impl AllocationReleaseTasks {
    fn new_internal() -> (r: Self)
        ensures
            r.tasks@.len() == 0,
    {
        AllocationReleaseTasks { tasks: Vec::new() }
    }

    /// An empty registry, for tests and mocks.
    pub fn new_for_mocks_only() -> (r: Self)
        ensures
            r.tasks@.len() == 0,
    {
        Self::new_internal()
    }
}

/// Where the service keeps its registry once it is set up.
#[derive(Debug)]
pub struct ReleaseTasksSlot {
    pub registry: Option<AllocationReleaseTasks>,
}

impl ReleaseTasksSlot {
    pub fn new() -> (r: Self)
        ensures
            r.registry is None,
    {
        ReleaseTasksSlot { registry: None }
    }
}

/// Sets up the registry; it may be set up only once.
pub fn init_allocation_release_tasks(slot: &mut ReleaseTasksSlot)
    requires
        old(slot).registry is None,
    ensures
        final(slot).registry matches Some(r) && r.tasks@.len() == 0,
{
    slot.registry = Some(AllocationReleaseTasks::new_internal());
}

/// The registry; it must have been set up.
pub fn get_allocation_release_tasks(slot: &ReleaseTasksSlot) -> (r: &AllocationReleaseTasks)
    requires
        slot.registry is Some,
    ensures
        *r == slot.registry->0,
{
    slot.registry.as_ref().unwrap()
}

} // verus!
