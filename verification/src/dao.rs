pub mod allocation;
pub mod batch;
pub mod agreement;
pub mod activity;
pub mod invoice;
pub mod debit_note;
pub mod cycle;
pub mod event;
pub mod invoice_query;
pub mod batch_order;
pub mod sync_notifs;
pub mod payment;
pub mod debit_note_query;
pub mod order;
pub mod resolve;
pub mod scheduling;
