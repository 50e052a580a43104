//! Path and query parameters of the payment endpoints.
use vstd::prelude::*;

verus! {

/// Seconds to wait for the other side to acknowledge, where a request names no timeout.
pub const DEFAULT_ACK_TIMEOUT: u32 = 60;

/// Seconds to wait for events, where a request names no timeout.
pub const DEFAULT_EVENT_TIMEOUT: u32 = 0;

pub fn default_ack_timeout() -> (r: Option<u32>)
    ensures
        r == Some(DEFAULT_ACK_TIMEOUT),
{
    Some(DEFAULT_ACK_TIMEOUT)
}

pub fn default_event_timeout() -> (r: Option<u32>)
    ensures
        r == Some(DEFAULT_EVENT_TIMEOUT),
{
    Some(DEFAULT_EVENT_TIMEOUT)
}

#[derive(Debug)]
pub struct DebitNoteId {
    pub debit_note_id: String,
}

#[derive(Debug)]
pub struct InvoiceId {
    pub invoice_id: String,
}

/// The allocation named in a path; the field keeps the name under which the path carries it.
#[derive(Debug)]
pub struct AllocationId {
    pub payment_id: String,
}

#[derive(Debug)]
pub struct PaymentId {
    pub payment_id: String,
}

/// How long to wait for an acknowledgement, in seconds.
#[derive(Debug)]
pub struct Timeout {
    pub timeout: Option<u32>,
}

/// How long to wait for events, in seconds, and after which time they are wanted.
#[derive(Debug)]
pub struct EventParams {
    pub timeout: Option<u32>,
    pub later_than: Option<String>,
}

impl Timeout {
    /// The timeout where a request gives it, else the default.
    pub fn from_query(timeout: Option<Option<u32>>) -> (r: Timeout)
        ensures
            r.timeout == (match timeout {
                Some(t) => t,
                None => Some(DEFAULT_ACK_TIMEOUT),
            }),
    {
        match timeout {
            Some(t) => Timeout { timeout: t },
            None => Timeout { timeout: default_ack_timeout() },
        }
    }
}

impl EventParams {
    /// The parameters where a request gives them, with the default timeout where it gives none.
    pub fn from_query(timeout: Option<Option<u32>>, later_than: Option<String>) -> (r: EventParams)
        ensures
            r.timeout == (match timeout {
                Some(t) => t,
                None => Some(DEFAULT_EVENT_TIMEOUT),
            }),
            r.later_than == later_than,
    {
        match timeout {
            Some(t) => EventParams { timeout: t, later_than },
            None => EventParams { timeout: default_event_timeout(), later_than },
        }
    }
}

} // verus!
