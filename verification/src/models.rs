//! Records that the payment ledger keeps, as plain values.
use vstd::prelude::*;

verus! {

/// Copies an optional text field.
pub fn clone_opt(o: &Option<String>) -> (r: Option<String>)
    ensures
        r == *o,
{
    match o {
        Some(s) => Some(s.clone()),
        None => None,
    }
}

/// What an agreement or an activity has been charged for on one allocation: the amount
/// accepted from it and the part of that already put into batch orders.
/// `activity_id` is `None` for the part charged on the agreement's invoice.
#[derive(Debug)]
pub struct ExpenditureRow {
    pub owner_id: String,
    pub allocation_id: String,
    pub agreement_id: String,
    pub activity_id: Option<String>,
    pub accepted_amount: i128,
    pub scheduled_amount: i128,
}

impl ExpenditureRow {
    pub fn duplicate(&self) -> (r: Self)
        ensures
            r == *self,
    {
        ExpenditureRow {
            owner_id: self.owner_id.clone(),
            allocation_id: self.allocation_id.clone(),
            agreement_id: self.agreement_id.clone(),
            activity_id: clone_opt(&self.activity_id),
            accepted_amount: self.accepted_amount,
            scheduled_amount: self.scheduled_amount,
        }
    }
}

} // verus!
