//! What the invoice and debit note endpoints decide before and after talking to the other
//! side.
use vstd::prelude::*;
use crate::amount::{format_two_amounts, two_amounts_text};
use crate::error::DbError;
use crate::status::DocumentStatus;
use crate::text::concat3;

verus! {

/// The answer an endpoint gives.
#[derive(Debug)]
pub enum ApiResponse {
    Done,
    Created,
    NotFound,
    Unauthorized,
    BadRequest(String),
    Conflict(String),
    Gone(String),
    ServerError(String),
    Timeout(String),
}

/// Whether a requestor's acceptance of a document may go on: `None` where it may; else the
/// answer. An acceptance must name the document's exact amount; accepting again is answered
/// at once; a cancelled document is refused; an issued one cannot be the requestor's.
pub open spec fn acceptance_check(
    status: DocumentStatus,
    amount: i128,
    total_amount_accepted: i128,
    cancelled_text: Seq<char>,
) -> Option<ApiResponseView> {
    if amount != total_amount_accepted {
        Some(ApiResponseView::BadRequest("Invalid amount accepted"@))
    } else {
        match status {
            DocumentStatus::Received | DocumentStatus::Rejected | DocumentStatus::Failed => None,
            DocumentStatus::Accepted | DocumentStatus::Settled => Some(ApiResponseView::Done),
            DocumentStatus::Cancelled => Some(ApiResponseView::BadRequest(cancelled_text)),
            DocumentStatus::Issued => Some(ApiResponseView::ServerError("Illegal status: issued"@)),
        }
    }
}

pub enum ApiResponseView {
    Done,
    Created,
    NotFound,
    Unauthorized,
    BadRequest(Seq<char>),
    Conflict(Seq<char>),
    Gone(Seq<char>),
    ServerError(Seq<char>),
    Timeout(Seq<char>),
}

impl View for ApiResponse {
    type V = ApiResponseView;

    open spec fn view(&self) -> ApiResponseView {
        match self {
            ApiResponse::Done => ApiResponseView::Done,
            ApiResponse::Created => ApiResponseView::Created,
            ApiResponse::NotFound => ApiResponseView::NotFound,
            ApiResponse::Unauthorized => ApiResponseView::Unauthorized,
            ApiResponse::BadRequest(m) => ApiResponseView::BadRequest(m@),
            ApiResponse::Conflict(m) => ApiResponseView::Conflict(m@),
            ApiResponse::Gone(m) => ApiResponseView::Gone(m@),
            ApiResponse::ServerError(m) => ApiResponseView::ServerError(m@),
            ApiResponse::Timeout(m) => ApiResponseView::Timeout(m@),
        }
    }
}

pub open spec fn opt_response_view(r: Option<ApiResponse>) -> Option<ApiResponseView> {
    match r {
        Some(x) => Some(x@),
        None => None,
    }
}

fn acceptance_check_exec(
    status: DocumentStatus,
    amount: i128,
    total_amount_accepted: i128,
    cancelled_text: &str,
) -> (r: Option<ApiResponse>)
    ensures
        opt_response_view(r) == acceptance_check(status, amount, total_amount_accepted, cancelled_text@),
{
    if amount != total_amount_accepted {
        return Some(ApiResponse::BadRequest("Invalid amount accepted".to_string()));
    }
    match status {
        DocumentStatus::Received | DocumentStatus::Rejected | DocumentStatus::Failed => None,
        DocumentStatus::Accepted | DocumentStatus::Settled => Some(ApiResponse::Done),
        DocumentStatus::Cancelled => Some(ApiResponse::BadRequest(cancelled_text.to_string())),
        DocumentStatus::Issued => Some(ApiResponse::ServerError("Illegal status: issued".to_string())),
    }
}

/// Whether the acceptance of an invoice may go on.
pub fn check_invoice_acceptance(status: DocumentStatus, amount: i128, total_amount_accepted: i128) -> (r:
    Option<ApiResponse>)
    ensures
        opt_response_view(r) == acceptance_check(status, amount, total_amount_accepted, "Invoice cancelled"@),
{
    acceptance_check_exec(status, amount, total_amount_accepted, "Invoice cancelled")
}

/// Whether the acceptance of a debit note may go on.
pub fn check_debit_note_acceptance(status: DocumentStatus, amount: i128, total_amount_accepted: i128) -> (r:
    Option<ApiResponse>)
    ensures
        opt_response_view(r) == acceptance_check(
            status,
            amount,
            total_amount_accepted,
            "Debit note cancelled"@,
        ),
{
    acceptance_check_exec(status, amount, total_amount_accepted, "Debit note cancelled")
}

/// Whether a debit note may be accepted given the invoice of its agreement, if there is
/// one: an issued invoice is an error, a received one lets it go on, any later state makes
/// the debit note moot.
pub open spec fn invoice_gate(invoice_status: Option<DocumentStatus>) -> Option<ApiResponseView> {
    match invoice_status {
        None => None,
        Some(DocumentStatus::Issued) => Some(ApiResponseView::ServerError("Wrong status for invoice"@)),
        Some(DocumentStatus::Received) => None,
        Some(_) => Some(ApiResponseView::Done),
    }
}

pub fn check_invoice_for_debit_note(invoice_status: Option<DocumentStatus>) -> (r: Option<ApiResponse>)
    ensures
        opt_response_view(r) == invoice_gate(invoice_status),
{
    match invoice_status {
        None => None,
        Some(DocumentStatus::Issued) => Some(ApiResponse::ServerError("Wrong status for invoice".to_string())),
        Some(DocumentStatus::Received) => None,
        Some(_) => Some(ApiResponse::Done),
    }
}

pub open spec fn not_enough_funds_api_text(remaining: int, needed: int) -> Seq<char> {
    two_amounts_text("Not enough funds. Allocated: "@, remaining, " Needed: "@, needed)
}

/// Whether an allocation with `remaining` left can pay `amount_to_pay`.
pub fn check_funds(remaining: i128, amount_to_pay: i128) -> (r: Option<ApiResponse>)
    ensures
        amount_to_pay > remaining ==> opt_response_view(r) == Some(
            ApiResponseView::BadRequest(not_enough_funds_api_text(remaining as int, amount_to_pay as int)),
        ),
        amount_to_pay <= remaining ==> r is None,
{
    if amount_to_pay > remaining {
        Some(
            ApiResponse::BadRequest(
                format_two_amounts("Not enough funds. Allocated: ", remaining, " Needed: ", amount_to_pay),
            ),
        )
    } else {
        None
    }
}

/// What a debit note acceptance asks to pay: its amount beyond what was already accepted on
/// the activity.
pub fn amount_to_pay(total_amount_due: i128, already_accepted: i128) -> (r: i128)
    requires
        crate::ledger::in_range(total_amount_due as int),
        crate::ledger::in_range(already_accepted as int),
    ensures
        r == total_amount_due - already_accepted,
{
    total_amount_due - already_accepted
}

/// The answer to a request naming an allocation, where it is not active.
pub open spec fn allocation_gate(status: crate::dao::allocation::AllocationStatus, id: Seq<char>) -> Option<ApiResponseView> {
    match status {
        crate::dao::allocation::AllocationStatus::Active(_) => None,
        crate::dao::allocation::AllocationStatus::Gone => Some(
            ApiResponseView::Gone("Allocation "@ + id + " has been already released"@),
        ),
        crate::dao::allocation::AllocationStatus::NotFound => Some(
            ApiResponseView::BadRequest("Allocation "@ + id + " not found"@),
        ),
    }
}

pub fn check_allocation(status: &crate::dao::allocation::AllocationStatus, allocation_id: &str) -> (r: Option<
    ApiResponse,
>)
    ensures
        opt_response_view(r) == allocation_gate(*status, allocation_id@),
{
    match status {
        crate::dao::allocation::AllocationStatus::Active(_) => None,
        crate::dao::allocation::AllocationStatus::Gone => Some(
            ApiResponse::Gone(concat3("Allocation ", allocation_id, " has been already released")),
        ),
        crate::dao::allocation::AllocationStatus::NotFound => Some(
            ApiResponse::BadRequest(concat3("Allocation ", allocation_id, " not found")),
        ),
    }
}

/// Whether cancelling an invoice may go on: an accepted, settled or failed one is in
/// conflict; a cancelled one is answered at once.
pub open spec fn cancellation_gate(status: DocumentStatus) -> Option<ApiResponseView> {
    match status {
        DocumentStatus::Issued | DocumentStatus::Received | DocumentStatus::Rejected => None,
        DocumentStatus::Cancelled => Some(ApiResponseView::Done),
        _ => Some(ApiResponseView::Conflict("Invoice already accepted by requestor"@)),
    }
}

pub fn check_invoice_cancellation(status: DocumentStatus) -> (r: Option<ApiResponse>)
    ensures
        opt_response_view(r) == cancellation_gate(status),
{
    match status {
        DocumentStatus::Issued | DocumentStatus::Received | DocumentStatus::Rejected => None,
        DocumentStatus::Cancelled => Some(ApiResponse::Done),
        _ => Some(ApiResponse::Conflict("Invoice already accepted by requestor".to_string())),
    }
}

/// Whether a document still has to be sent: only an issued one has not been.
pub fn needs_sending(status: DocumentStatus) -> (r: bool)
    ensures
        r == (status == DocumentStatus::Issued),
{
    matches!(status, DocumentStatus::Issued)
}

/// The answer to a failed issuing of a document: a refused query is the caller's fault.
pub open spec fn issue_failure(e: DbError) -> ApiResponseView {
    match e {
        DbError::Query(m) => ApiResponseView::BadRequest(m@),
        _ => ApiResponseView::ServerError(crate::error::db_error_text(e)),
    }
}

pub fn issue_failure_response(e: &DbError) -> (r: ApiResponse)
    ensures
        r@ == issue_failure(*e),
{
    match e {
        DbError::Query(m) => ApiResponse::BadRequest(m.clone()),
        _ => ApiResponse::ServerError(e.message()),
    }
}

/// Whether a payment is scheduled for an accepted debit note: only where it is payable
/// (it has a due date) and there is something to pay.
pub fn debit_note_payment_scheduled(payment_due_date: Option<i64>, amount_to_pay: i128) -> (r: bool)
    ensures
        r == (payment_due_date is Some && amount_to_pay > 0),
{
    payment_due_date.is_some() && amount_to_pay > 0
}

pub open spec fn plan_view(r: Result<i128, ApiResponse>) -> Result<int, ApiResponseView> {
    match r {
        Ok(v) => Ok(v as int),
        Err(e) => Err(e@),
    }
}

/// What a requestor's acceptance of a debit note decides before the payment is scheduled:
/// the acceptance checks, then the activity (`activity_accepted` being what was accepted
/// on it, `None` where it is missing), then the invoice of its agreement, then the
/// allocation; `Ok` with the amount to pay where the allocation covers it.
pub open spec fn debit_note_acceptance_plan(
    status: DocumentStatus,
    total_amount_due: i128,
    total_amount_accepted: i128,
    activity_id: Seq<char>,
    activity_accepted: Option<i128>,
    invoice_status: Option<DocumentStatus>,
    allocation: crate::dao::allocation::AllocationStatus,
    allocation_id: Seq<char>,
) -> Result<int, ApiResponseView> {
    match acceptance_check(status, total_amount_due, total_amount_accepted, "Debit note cancelled"@) {
        Some(resp) => Err(resp),
        None => match activity_accepted {
            None => Err(ApiResponseView::ServerError("Activity "@ + activity_id + " not found"@)),
            Some(accepted) => match invoice_gate(invoice_status) {
                Some(resp) => Err(resp),
                None => match allocation_gate(allocation, allocation_id) {
                    Some(resp) => Err(resp),
                    None => {
                        let to_pay = total_amount_due - accepted;
                        let remaining = allocation->Active_0.remaining_amount as int;
                        if to_pay > remaining {
                            Err(ApiResponseView::BadRequest(not_enough_funds_api_text(remaining, to_pay)))
                        } else {
                            Ok(to_pay)
                        }
                    },
                },
            },
        },
    }
}

/// Decides a requestor's acceptance of a debit note from what was read for it.
pub fn plan_debit_note_acceptance(
    status: DocumentStatus,
    total_amount_due: i128,
    total_amount_accepted: i128,
    activity_id: &str,
    activity_accepted: Option<i128>,
    invoice_status: Option<DocumentStatus>,
    allocation: &crate::dao::allocation::AllocationStatus,
    allocation_id: &str,
) -> (r: Result<i128, ApiResponse>)
    requires
        crate::ledger::in_range(total_amount_due as int),
        activity_accepted matches Some(a) ==> crate::ledger::in_range(a as int),
    ensures
        plan_view(r) == debit_note_acceptance_plan(
            status,
            total_amount_due,
            total_amount_accepted,
            activity_id@,
            activity_accepted,
            invoice_status,
            *allocation,
            allocation_id@,
        ),
{
    match check_debit_note_acceptance(status, total_amount_due, total_amount_accepted) {
        Some(resp) => return Err(resp),
        None => {},
    }
    let accepted = match activity_accepted {
        Some(a) => a,
        None => return Err(ApiResponse::ServerError(concat3("Activity ", activity_id, " not found"))),
    };
    match check_invoice_for_debit_note(invoice_status) {
        Some(resp) => return Err(resp),
        None => {},
    }
    match check_allocation(allocation, allocation_id) {
        Some(resp) => return Err(resp),
        None => {},
    }
    let to_pay = amount_to_pay(total_amount_due, accepted);
    let remaining = match allocation {
        crate::dao::allocation::AllocationStatus::Active(a) => a.remaining_amount,
        _ => 0,
    };
    match check_funds(remaining, to_pay) {
        Some(resp) => Err(resp),
        None => Ok(to_pay),
    }
}

/// What a requestor's acceptance of an invoice decides before it is sent: the acceptance
/// checks, then the agreement (`agreement_accepted` being what was accepted on it, `None`
/// where it is missing), then the allocation (`allocation_remaining`, `None` where it is
/// missing); `Ok` with the amount to pay where the allocation covers it.
pub open spec fn invoice_acceptance_plan(
    status: DocumentStatus,
    amount: i128,
    total_amount_accepted: i128,
    agreement_id: Seq<char>,
    agreement_accepted: Option<i128>,
    allocation_id: Seq<char>,
    allocation_remaining: Option<i128>,
) -> Result<int, ApiResponseView> {
    match acceptance_check(status, amount, total_amount_accepted, "Invoice cancelled"@) {
        Some(resp) => Err(resp),
        None => match agreement_accepted {
            None => Err(ApiResponseView::ServerError("Agreement "@ + agreement_id + " not found"@)),
            Some(accepted) => match allocation_remaining {
                None => Err(ApiResponseView::BadRequest("Allocation "@ + allocation_id + " not found"@)),
                Some(remaining) => {
                    let to_pay = amount - accepted;
                    if to_pay > remaining {
                        Err(ApiResponseView::BadRequest(not_enough_funds_api_text(remaining as int, to_pay)))
                    } else {
                        Ok(to_pay)
                    }
                },
            },
        },
    }
}

/// Decides a requestor's acceptance of an invoice from what was read for it.
pub fn plan_invoice_acceptance(
    status: DocumentStatus,
    amount: i128,
    total_amount_accepted: i128,
    agreement_id: &str,
    agreement_accepted: Option<i128>,
    allocation_id: &str,
    allocation_remaining: Option<i128>,
) -> (r: Result<i128, ApiResponse>)
    requires
        crate::ledger::in_range(amount as int),
        agreement_accepted matches Some(a) ==> crate::ledger::in_range(a as int),
    ensures
        plan_view(r) == invoice_acceptance_plan(
            status,
            amount,
            total_amount_accepted,
            agreement_id@,
            agreement_accepted,
            allocation_id@,
            allocation_remaining,
        ),
{
    match check_invoice_acceptance(status, amount, total_amount_accepted) {
        Some(resp) => return Err(resp),
        None => {},
    }
    let accepted = match agreement_accepted {
        Some(a) => a,
        None => return Err(ApiResponse::ServerError(concat3("Agreement ", agreement_id, " not found"))),
    };
    let remaining = match allocation_remaining {
        Some(r) => r,
        None => return Err(ApiResponse::BadRequest(concat3("Allocation ", allocation_id, " not found"))),
    };
    let to_pay = amount_to_pay(amount, accepted);
    match check_funds(remaining, to_pay) {
        Some(resp) => Err(resp),
        None => Ok(to_pay),
    }
}


/// A document the requestor has not accepted yet, or whose acceptance was rejected or
/// failed, may be accepted with its exact amount: the acceptance of an invoice goes on to
/// pay what was not accepted on its agreement before, where the allocation covers it.
pub proof fn law_open_invoice_acceptance_goes_on(
    status: DocumentStatus,
    amount: i128,
    agreement_id: Seq<char>,
    agreement_accepted: i128,
    allocation_id: Seq<char>,
    allocation_remaining: i128,
)
    requires
        status == DocumentStatus::Received || status == DocumentStatus::Rejected || status
            == DocumentStatus::Failed,
        amount - agreement_accepted <= allocation_remaining,
    ensures
        invoice_acceptance_plan(
            status,
            amount,
            amount,
            agreement_id,
            Some(agreement_accepted),
            allocation_id,
            Some(allocation_remaining),
        ) == Ok::<int, ApiResponseView>(amount - agreement_accepted),
{
}

/// The same for a debit note: received, rejected or failed, accepted with its exact amount,
/// with its activity found, no invoice of the agreement past receipt, and an active
/// allocation that covers it, the acceptance goes on to pay what was not accepted on the
/// activity before.
pub proof fn law_open_debit_note_acceptance_goes_on(
    status: DocumentStatus,
    amount: i128,
    activity_id: Seq<char>,
    activity_accepted: i128,
    invoice_status: Option<DocumentStatus>,
    allocation: crate::dao::allocation::Allocation,
    allocation_id: Seq<char>,
)
    requires
        status == DocumentStatus::Received || status == DocumentStatus::Rejected || status
            == DocumentStatus::Failed,
        invoice_status is None || invoice_status == Some(DocumentStatus::Received),
        amount - activity_accepted <= allocation.remaining_amount,
    ensures
        debit_note_acceptance_plan(
            status,
            amount,
            amount,
            activity_id,
            Some(activity_accepted),
            invoice_status,
            crate::dao::allocation::AllocationStatus::Active(allocation),
            allocation_id,
        ) == Ok::<int, ApiResponseView>(amount - activity_accepted),
{
}

/// An acceptance that names another amount than the document's is refused whatever the
/// document's state; one of a document already accepted or settled is answered at once,
/// with nothing more to do.
pub proof fn law_acceptance_refused_or_answered(
    status: DocumentStatus,
    amount: i128,
    total_amount_accepted: i128,
    cancelled_text: Seq<char>,
)
    ensures
        amount != total_amount_accepted ==> acceptance_check(status, amount, total_amount_accepted, cancelled_text)
            == Some(ApiResponseView::BadRequest("Invalid amount accepted"@)),
        amount == total_amount_accepted && (status == DocumentStatus::Accepted || status
            == DocumentStatus::Settled) ==> acceptance_check(status, amount, total_amount_accepted, cancelled_text)
            == Some(ApiResponseView::Done),
        amount == total_amount_accepted && status == DocumentStatus::Cancelled ==> acceptance_check(
            status,
            amount,
            total_amount_accepted,
            cancelled_text,
        ) == Some(ApiResponseView::BadRequest(cancelled_text)),
{
}
} // verus!
