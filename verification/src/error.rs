use vstd::prelude::*;
use crate::amount::{format_two_amounts, two_amounts_text};
use crate::text::{concat, concat3};

verus! {

/// Failure of a ledger operation.
#[derive(Debug)]
pub enum DbError {
    /// The storage could not be reached; carries the driver's message.
    Connection(String),
    /// A storage task did not complete; carries the runtime's message.
    Runtime(String),
    /// The request cannot be carried out on the stored data.
    Query(String),
    /// The stored data contradicts itself or the request.
    Integrity(String),
    /// The caller may not change this record.
    Forbidden,
}

pub type DbResult<T> = Result<T, DbError>;

/// The message under which a ledger failure is reported.
pub open spec fn db_error_text(e: DbError) -> Seq<char> {
    match e {
        DbError::Connection(m) => "Connection error: "@ + m@,
        DbError::Runtime(m) => "Runtime error: "@ + m@,
        DbError::Query(m) => "Query error: "@ + m@,
        DbError::Integrity(m) => "Data integrity error: "@ + m@,
        DbError::Forbidden => "Forbidden"@,
    }
}

impl DbError {
    pub fn message(&self) -> (r: String)
        ensures
            r@ == db_error_text(*self),
    {
        match self {
            DbError::Connection(m) => concat("Connection error: ", m.as_str()),
            DbError::Runtime(m) => concat("Runtime error: ", m.as_str()),
            DbError::Query(m) => concat("Query error: ", m.as_str()),
            DbError::Integrity(m) => concat("Data integrity error: ", m.as_str()),
            DbError::Forbidden => "Forbidden".to_string(),
        }
    }
}

/// The parts of a payment order that are checked against a confirmed payment.
#[derive(Debug)]
pub struct OrderRef {
    pub id: String,
    pub payment_platform: String,
    pub payer_addr: String,
    pub payee_addr: String,
}

/// A payment order that does not match the payment reported for it.
#[derive(Debug)]
pub struct OrderValidationError(pub String);

/// Text of a mismatch of `what` on order `id`: `stored` was expected, `given` came.
pub open spec fn order_mismatch_text(
    what: Seq<char>,
    id: Seq<char>,
    stored: Seq<char>,
    given: Seq<char>,
) -> Seq<char> {
    "Invalid "@ + what + " for payment order "@ + id + ": "@ + stored + " != "@ + given
}

fn order_mismatch(what: &str, id: &str, stored: &str, given: &str) -> (r: OrderValidationError)
    ensures
        r.0@ == order_mismatch_text(what@, id@, stored@, given@),
{
    let head = concat3("Invalid ", what, " for payment order ");
    let tail = concat3(stored, " != ", given);
    let mut m = concat3(head.as_str(), id, ": ");
    m.append(tail.as_str());
    OrderValidationError(m)
}

impl OrderValidationError {
    pub fn new(message: &str) -> (r: Self)
        ensures
            r.0@ == message@,
    {
        OrderValidationError(message.to_string())
    }

    pub fn platform(order: &OrderRef, platform: &str) -> (r: Result<(), Self>)
        ensures
            r matches Err(e) && e.0@ == order_mismatch_text(
                "platform"@,
                order.id@,
                order.payment_platform@,
                platform@,
            ),
    {
        Err(order_mismatch("platform", order.id.as_str(), order.payment_platform.as_str(), platform))
    }

    pub fn payer_addr(order: &OrderRef, payer_addr: &str) -> (r: Result<(), Self>)
        ensures
            r matches Err(e) && e.0@ == order_mismatch_text(
                "payer address"@,
                order.id@,
                order.payer_addr@,
                payer_addr@,
            ),
    {
        Err(order_mismatch("payer address", order.id.as_str(), order.payer_addr.as_str(), payer_addr))
    }

    pub fn payee_addr(order: &OrderRef, payee_addr: &str) -> (r: Result<(), Self>)
        ensures
            r matches Err(e) && e.0@ == order_mismatch_text(
                "payee address"@,
                order.id@,
                order.payee_addr@,
                payee_addr@,
            ),
    {
        Err(order_mismatch("payee address", order.id.as_str(), order.payee_addr.as_str(), payee_addr))
    }

    pub fn amount(expected: i128, actual: i128) -> (r: Result<(), Self>)
        ensures
            r matches Err(e) && e.0@ == two_amounts_text(
                "Invalid payment amount: "@,
                expected as int,
                " != "@,
                actual as int,
            ),
    {
        Err(OrderValidationError(format_two_amounts("Invalid payment amount: ", expected, " != ", actual)))
    }

    pub fn message(&self) -> (r: String)
        ensures
            r@ == self.0@,
    {
        self.0.clone()
    }
}

/// A payment reported by a driver that does not match what the ledger expects.
#[derive(Debug)]
pub enum VerifyPaymentError {
    InvalidSignature,
    ConfirmationEncoding,
    Database(DbError),
    Validation(String),
}

/// Text of a check that failed on record `id`: `stored` was expected, `given` came.
pub open spec fn record_mismatch_text(
    what: Seq<char>,
    id: Seq<char>,
    stored: Seq<char>,
    given: Seq<char>,
) -> Seq<char> {
    "Invalid "@ + what + id + ": "@ + stored + " != "@ + given
}

fn record_mismatch(what: &str, id: &str, stored: &str, given: &str) -> (r: VerifyPaymentError)
    ensures
        r matches VerifyPaymentError::Validation(m) && m@ == record_mismatch_text(
            what@,
            id@,
            stored@,
            given@,
        ),
{
    let head = concat3("Invalid ", what, id);
    let tail = concat3(stored, " != ", given);
    VerifyPaymentError::Validation(concat3(head.as_str(), ": ", tail.as_str()))
}

/// Text that names a `declared` and an `actual` value after `prefix`.
pub open spec fn declared_actual_text(prefix: Seq<char>, declared: Seq<char>, actual: Seq<char>) -> Seq<char> {
    prefix + ". Declared: "@ + declared + " Actual: "@ + actual
}

fn declared_actual(prefix: &str, declared: &str, actual: &str) -> (r: VerifyPaymentError)
    ensures
        r matches VerifyPaymentError::Validation(m) && m@ == declared_actual_text(
            prefix@,
            declared@,
            actual@,
        ),
{
    let head = concat3(prefix, ". Declared: ", declared);
    VerifyPaymentError::Validation(concat3(head.as_str(), " Actual: ", actual))
}

/// The stored side of an agreement or an activity that a payment names.
#[derive(Debug)]
pub struct PartyRef {
    pub id: String,
    pub payee_addr: String,
    pub payer_addr: String,
    pub payment_platform: String,
}

/// The message under which a payment check reports its failure.
pub open spec fn verify_error_text(e: VerifyPaymentError) -> Seq<char> {
    match e {
        VerifyPaymentError::InvalidSignature => "Invalid payment signature"@,
        VerifyPaymentError::ConfirmationEncoding => "Confirmation is not base64-encoded"@,
        VerifyPaymentError::Database(d) => "Database error: "@ + db_error_text(d),
        VerifyPaymentError::Validation(m) => m@,
    }
}

impl VerifyPaymentError {
    pub fn message(&self) -> (r: String)
        ensures
            r@ == verify_error_text(*self),
    {
        match self {
            VerifyPaymentError::InvalidSignature => "Invalid payment signature".to_string(),
            VerifyPaymentError::ConfirmationEncoding => "Confirmation is not base64-encoded".to_string(),
            VerifyPaymentError::Database(d) => {
                let m = d.message();
                concat("Database error: ", m.as_str())
            },
            VerifyPaymentError::Validation(m) => m.clone(),
        }
    }

    pub fn amount(actual: i128, declared: i128) -> (r: Result<(), Self>)
        ensures
            r matches Err(VerifyPaymentError::Validation(m)) && m@ == two_amounts_text(
                "Invalid payment amount. Declared: "@,
                declared as int,
                " Actual: "@,
                actual as int,
            ),
    {
        Err(VerifyPaymentError::Validation(format_two_amounts("Invalid payment amount. Declared: ", declared, " Actual: ", actual)))
    }

    pub fn shares(total: i128, agreement_sum: i128, activity_sum: i128) -> (r: Result<(), Self>)
        ensures
            r matches Err(VerifyPaymentError::Validation(m)) && m@ == two_amounts_text(
                "Payment shares do not sum up. "@,
                total as int,
                " != "@,
                agreement_sum as int,
            ) + " + "@ + crate::amount::spec_units_text(activity_sum as int),
    {
        let mut m = format_two_amounts("Payment shares do not sum up. ", total, " != ", agreement_sum);
        m.append(" + ");
        let t = crate::amount::amount_to_string(activity_sum);
        m.append(t.as_str());
        Err(VerifyPaymentError::Validation(m))
    }

    pub fn recipient(declared: &str, actual: &str) -> (r: Result<(), Self>)
        ensures
            r matches Err(VerifyPaymentError::Validation(m)) && m@ == declared_actual_text(
                "Invalid transaction recipient"@,
                declared@,
                actual@,
            ),
    {
        Err(declared_actual("Invalid transaction recipient", declared, actual))
    }

    pub fn sender(declared: &str, actual: &str) -> (r: Result<(), Self>)
        ensures
            r matches Err(VerifyPaymentError::Validation(m)) && m@ == declared_actual_text(
                "Invalid transaction sender"@,
                declared@,
                actual@,
            ),
    {
        Err(declared_actual("Invalid transaction sender", declared, actual))
    }

    pub fn agreement_zero_amount(agreement_id: &str) -> (r: Result<(), Self>)
        ensures
            r matches Err(VerifyPaymentError::Validation(m)) && m@ == "Agreement with 0 amount: "@
                + agreement_id@,
    {
        Err(VerifyPaymentError::Validation(concat("Agreement with 0 amount: ", agreement_id)))
    }

    pub fn agreement_not_found(agreement_id: &str) -> (r: Result<(), Self>)
        ensures
            r matches Err(VerifyPaymentError::Validation(m)) && m@ == "Agreement not found: "@
                + agreement_id@,
    {
        Err(VerifyPaymentError::Validation(concat("Agreement not found: ", agreement_id)))
    }

    pub fn agreement_payee(agreement: &PartyRef, payee_addr: &str) -> (r: Result<(), Self>)
        ensures
            r matches Err(VerifyPaymentError::Validation(m)) && m@ == record_mismatch_text(
                "payee address for agreement "@,
                agreement.id@,
                agreement.payee_addr@,
                payee_addr@,
            ),
    {
        Err(record_mismatch("payee address for agreement ", agreement.id.as_str(), agreement.payee_addr.as_str(), payee_addr))
    }

    pub fn agreement_payer(agreement: &PartyRef, payer_addr: &str) -> (r: Result<(), Self>)
        ensures
            r matches Err(VerifyPaymentError::Validation(m)) && m@ == record_mismatch_text(
                "payer address for agreement "@,
                agreement.id@,
                agreement.payer_addr@,
                payer_addr@,
            ),
    {
        Err(record_mismatch("payer address for agreement ", agreement.id.as_str(), agreement.payer_addr.as_str(), payer_addr))
    }

    pub fn agreement_platform(agreement: &PartyRef, platform: &str) -> (r: Result<(), Self>)
        ensures
            r matches Err(VerifyPaymentError::Validation(m)) && m@ == record_mismatch_text(
                "payment platform for agreement "@,
                agreement.id@,
                agreement.payment_platform@,
                platform@,
            ),
    {
        Err(record_mismatch("payment platform for agreement ", agreement.id.as_str(), agreement.payment_platform.as_str(), platform))
    }

    pub fn activity_not_found(activity_id: &str) -> (r: Result<(), Self>)
        ensures
            r matches Err(VerifyPaymentError::Validation(m)) && m@ == "Activity not found: "@
                + activity_id@,
    {
        Err(VerifyPaymentError::Validation(concat("Activity not found: ", activity_id)))
    }

    pub fn activity_payee(activity: &PartyRef, payee_addr: &str) -> (r: Result<(), Self>)
        ensures
            r matches Err(VerifyPaymentError::Validation(m)) && m@ == record_mismatch_text(
                "payee address for activity "@,
                activity.id@,
                activity.payee_addr@,
                payee_addr@,
            ),
    {
        Err(record_mismatch("payee address for activity ", activity.id.as_str(), activity.payee_addr.as_str(), payee_addr))
    }

    pub fn activity_payer(activity: &PartyRef, payer_addr: &str) -> (r: Result<(), Self>)
        ensures
            r matches Err(VerifyPaymentError::Validation(m)) && m@ == record_mismatch_text(
                "payer address for activity "@,
                activity.id@,
                activity.payer_addr@,
                payer_addr@,
            ),
    {
        Err(record_mismatch("payer address for activity ", activity.id.as_str(), activity.payer_addr.as_str(), payer_addr))
    }

    pub fn balance() -> (r: Result<(), Self>)
        ensures
            r matches Err(VerifyPaymentError::Validation(m)) && m@
                == "Transaction balance too low (probably tx hash re-used)"@,
    {
        Err(VerifyPaymentError::Validation("Transaction balance too low (probably tx hash re-used)".to_string()))
    }
}

} // verus!
