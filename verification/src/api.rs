pub mod problem;
pub mod allocations;
pub mod params;
pub mod documents;
pub mod pay_activities;
