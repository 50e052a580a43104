//! Problem reports for refused allocation requests.
use vstd::prelude::*;
use crate::text::{concat, concat3};

verus! {

/// A value in a problem report's extensions.
#[derive(Debug)]
pub enum ExtValue {
    /// A JSON document, as serialised text.
    Json(String),
    /// A JSON string.
    Text(String),
    /// JSON `null`.
    Null,
}

pub enum ExtValueView {
    Json(Seq<char>),
    Text(Seq<char>),
    Null,
}

impl View for ExtValue {
    type V = ExtValueView;

    open spec fn view(&self) -> ExtValueView {
        match self {
            ExtValue::Json(s) => ExtValueView::Json(s@),
            ExtValue::Text(s) => ExtValueView::Text(s@),
            ExtValue::Null => ExtValueView::Null,
        }
    }
}

/// A problem report: its type, its detail and its extensions, in the order they were added.
#[derive(Debug)]
pub struct ProblemDetails {
    pub problem_type: String,
    pub detail: String,
    pub extensions: Vec<(String, ExtValue)>,
}

pub open spec fn ext_views(v: Seq<(String, ExtValue)>) -> Seq<(Seq<char>, ExtValueView)> {
    v.map_values(|p: (String, ExtValue)| (p.0@, p.1@))
}

pub struct ProblemView {
    pub problem_type: Seq<char>,
    pub detail: Seq<char>,
    pub extensions: Seq<(Seq<char>, ExtValueView)>,
}

impl View for ProblemDetails {
    type V = ProblemView;

    open spec fn view(&self) -> ProblemView {
        ProblemView {
            problem_type: self.problem_type@,
            detail: self.detail@,
            extensions: ext_views(self.extensions@),
        }
    }
}

/// A serialised value, or the text that stands for it where serialising failed.
pub open spec fn serialized_or(v: Option<Seq<char>>, what: Seq<char>) -> ExtValueView {
    match v {
        Some(j) => ExtValueView::Json(j),
        None => ExtValueView::Text("["@ + what + " serialization failed]"@),
    }
}

pub(crate) fn serialized_or_exec(v: Option<String>, what: &str) -> (r: ExtValue)
    ensures
        r@ == serialized_or(opt_text(v), what@),
{
    match v {
        Some(j) => ExtValue::Json(j),
        None => ExtValue::Text(concat3("[", what, " serialization failed]")),
    }
}

pub open spec fn opt_text(v: Option<String>) -> Option<Seq<char>> {
    match v {
        Some(s) => Some(s@),
        None => None,
    }
}

/// What a driver answers when asked whether an allocation can be made; amounts are decimal
/// texts and times RFC 3339 texts.
#[derive(Debug)]
pub enum ValidateAllocationResult {
    Valid,
    InsufficientAccountFunds { requested_funds: String, available_funds: String, reserved_funds: String },
    InsufficientDepositFunds { requested_funds: String, available_funds: String },
    TimeoutExceedsDeposit { requested_timeout: Option<String>, deposit_timeout: String },
    TimeoutPassed { requested_timeout: String },
    MalformedDepositContract,
    MalformedDepositId,
    DepositReused { allocation_id: String },
    DepositSpenderMismatch { deposit_spender: String },
    DepositValidationError(String),
}

pub open spec fn validation_prefix(
    request_body: Option<Seq<char>>,
    payment_triple: Seq<char>,
    address: Seq<char>,
) -> Seq<(Seq<char>, ExtValueView)> {
    seq![
        ("requestBody"@, serialized_or(request_body, "requestBody"@)),
        ("paymentPlatform"@, ExtValueView::Text(payment_triple)),
        ("address"@, ExtValueView::Text(address)),
    ]
}

pub open spec fn validation_type(kind: Seq<char>) -> Seq<char> {
    "/payment-api/v1/allocations/validation/"@ + kind
}

pub open spec fn insufficient_funds_detail() -> Seq<char> {
    "Insufficient funds to create the allocation. Top up your account or release all existing allocations to unlock the funds via `yagna payment release-allocations`"@
}

/// The report on a refused validation: its type, detail and the extensions it adds.
pub open spec fn validation_problem(
    result: ValidateAllocationResult,
    request_body: Option<Seq<char>>,
    payment_triple: Seq<char>,
    address: Seq<char>,
) -> Option<ProblemView> {
    let pre = validation_prefix(request_body, payment_triple, address);
    match result {
        ValidateAllocationResult::Valid => None,
        ValidateAllocationResult::InsufficientAccountFunds { requested_funds, available_funds, reserved_funds } => Some(ProblemView {
            problem_type: validation_type("insufficient-account-funds"@),
            detail: insufficient_funds_detail(),
            extensions: pre + seq![
                ("requestedFunds"@, ExtValueView::Text(requested_funds@)),
                ("availableFunds"@, ExtValueView::Text(available_funds@)),
                ("reservedFunds"@, ExtValueView::Text(reserved_funds@)),
            ],
        }),
        ValidateAllocationResult::InsufficientDepositFunds { requested_funds, available_funds } => Some(ProblemView {
            problem_type: validation_type("insufficient-deposit-funds"@),
            detail: "Insufficient funds on the deposit for this allocation"@,
            extensions: pre + seq![
                ("requestedFunds"@, ExtValueView::Text(requested_funds@)),
                ("availableFunds"@, ExtValueView::Text(available_funds@)),
            ],
        }),
        ValidateAllocationResult::TimeoutExceedsDeposit { requested_timeout, deposit_timeout } => Some(ProblemView {
            problem_type: validation_type("timeout-exceeds-deposit"@),
            detail: "Requested allocation timeout either not set or exceeds deposit timeout"@,
            extensions: pre + seq![
                ("requestedTimeout"@, match requested_timeout {
                    Some(t) => ExtValueView::Text(t@),
                    None => ExtValueView::Null,
                }),
                ("depositTimeout"@, ExtValueView::Text(deposit_timeout@)),
            ],
        }),
        ValidateAllocationResult::TimeoutPassed { requested_timeout } => Some(ProblemView {
            problem_type: validation_type("timeout-passed"@),
            detail: "Requested allocation timeout is in the past"@,
            extensions: pre + seq![("requestedTimeout"@, ExtValueView::Text(requested_timeout@))],
        }),
        ValidateAllocationResult::MalformedDepositContract => Some(ProblemView {
            problem_type: validation_type("malformed-deposit-contract"@),
            detail: "Invalid deposit contract address"@,
            extensions: pre,
        }),
        ValidateAllocationResult::MalformedDepositId => Some(ProblemView {
            problem_type: validation_type("malformed-deposit-id"@),
            detail: "Invalid deposit id"@,
            extensions: pre,
        }),
        ValidateAllocationResult::DepositReused { allocation_id } => Some(ProblemView {
            problem_type: validation_type("deposit-reused"@),
            detail: "Submitted deposit already has a corresponding allocation "@ + allocation_id@
                + ". Consider amending the allocation if the deposit has been extended"@,
            extensions: pre + seq![("conflictingAllocationId"@, ExtValueView::Text(allocation_id@))],
        }),
        ValidateAllocationResult::DepositSpenderMismatch { deposit_spender } => Some(ProblemView {
            problem_type: validation_type("deposit-spender-mismatch"@),
            detail: "Deposit spender doesn't match allocation address"@,
            extensions: pre + seq![("depositSpender"@, ExtValueView::Text(deposit_spender@))],
        }),
        ValidateAllocationResult::DepositValidationError(message) => Some(ProblemView {
            problem_type: validation_type("deposit-validation-error"@),
            detail: "Deposit contract rejected the deposit: "@ + message@,
            extensions: pre,
        }),
    }
}

fn push_text(v: &mut Vec<(String, ExtValue)>, key: &str, value: &String)
    ensures
        ext_views(final(v)@) == ext_views(old(v)@).push((key@, ExtValueView::Text(value@))),
{
    let ghost before = v@;
    v.push((key.to_string(), ExtValue::Text(value.clone())));
    proof {
        assert(ext_views(v@) =~= ext_views(before).push((key@, ExtValueView::Text(value@))));
    }
}

/// Turns a driver's refusal of an allocation into the report sent back; `None` where the
/// driver accepted it. `request_body` is the request serialised to JSON, `None` where that
/// failed.
pub fn try_from_validation(
    result: &ValidateAllocationResult,
    request_body: Option<String>,
    payment_triple: &String,
    address: &String,
) -> (r: Option<ProblemDetails>)
    ensures
        match validation_problem(*result, opt_text(request_body), payment_triple@, address@) {
            None => r is None,
            Some(p) => r matches Some(d) && d@ == p,
        },
{
    let ghost rb = opt_text(request_body);
    let mut ext: Vec<(String, ExtValue)> = Vec::new();
    let body = serialized_or_exec(request_body, "requestBody");
    ext.push(("requestBody".to_string(), body));
    push_text(&mut ext, "paymentPlatform", payment_triple);
    push_text(&mut ext, "address", address);
    proof {
        assert(ext_views(ext@) =~= validation_prefix(rb, payment_triple@, address@));
    }
    let ghost pre = ext_views(ext@);
    let (kind, detail): (&str, String) = match result {
        ValidateAllocationResult::Valid => {
            return None;
        },
        ValidateAllocationResult::InsufficientAccountFunds { requested_funds, available_funds, reserved_funds } => {
            push_text(&mut ext, "requestedFunds", requested_funds);
            push_text(&mut ext, "availableFunds", available_funds);
            push_text(&mut ext, "reservedFunds", reserved_funds);
            ("insufficient-account-funds", "Insufficient funds to create the allocation. Top up your account or release all existing allocations to unlock the funds via `yagna payment release-allocations`".to_string())
        },
        ValidateAllocationResult::InsufficientDepositFunds { requested_funds, available_funds } => {
            push_text(&mut ext, "requestedFunds", requested_funds);
            push_text(&mut ext, "availableFunds", available_funds);
            ("insufficient-deposit-funds", "Insufficient funds on the deposit for this allocation".to_string())
        },
        ValidateAllocationResult::TimeoutExceedsDeposit { requested_timeout, deposit_timeout } => {
            let ghost before = ext@;
            let v = match requested_timeout {
                Some(t) => ExtValue::Text(t.clone()),
                None => ExtValue::Null,
            };
            ext.push(("requestedTimeout".to_string(), v));
            proof {
                assert(ext_views(ext@) =~= ext_views(before).push(("requestedTimeout"@, v@)));
            }
            push_text(&mut ext, "depositTimeout", deposit_timeout);
            ("timeout-exceeds-deposit", "Requested allocation timeout either not set or exceeds deposit timeout".to_string())
        },
        ValidateAllocationResult::TimeoutPassed { requested_timeout } => {
            push_text(&mut ext, "requestedTimeout", requested_timeout);
            ("timeout-passed", "Requested allocation timeout is in the past".to_string())
        },
        ValidateAllocationResult::MalformedDepositContract => {
            ("malformed-deposit-contract", "Invalid deposit contract address".to_string())
        },
        ValidateAllocationResult::MalformedDepositId => {
            ("malformed-deposit-id", "Invalid deposit id".to_string())
        },
        ValidateAllocationResult::DepositReused { allocation_id } => {
            let d = concat3(
                "Submitted deposit already has a corresponding allocation ",
                allocation_id.as_str(),
                ". Consider amending the allocation if the deposit has been extended",
            );
            push_text(&mut ext, "conflictingAllocationId", allocation_id);
            ("deposit-reused", d)
        },
        ValidateAllocationResult::DepositSpenderMismatch { deposit_spender } => {
            push_text(&mut ext, "depositSpender", deposit_spender);
            ("deposit-spender-mismatch", "Deposit spender doesn't match allocation address".to_string())
        },
        ValidateAllocationResult::DepositValidationError(message) => {
            ("deposit-validation-error", concat("Deposit contract rejected the deposit: ", message.as_str()))
        },
    };
    let problem_type = concat("/payment-api/v1/allocations/validation/", kind);
    let r = ProblemDetails { problem_type, detail, extensions: ext };
    proof {
        let p = validation_problem(*result, rb, payment_triple@, address@)->0;
        assert(r@.extensions =~= p.extensions);
    }
    Some(r)
}

/// The report on an account that the driver does not know.
pub fn account_not_registered(
    request_body: Option<String>,
    payment_triple: &String,
    address: &String,
) -> (r: ProblemDetails)
    ensures
        r@ == account_not_registered_view(opt_text(request_body), payment_triple@, address@),
{
    let ghost rb = opt_text(request_body);
    let mut ext: Vec<(String, ExtValue)> = Vec::new();
    let body = serialized_or_exec(request_body, "requestBody");
    ext.push(("requestBody".to_string(), body));
    push_text(&mut ext, "paymentPlatform", payment_triple);
    push_text(&mut ext, "address", address);
    proof {
        assert(ext_views(ext@) =~= validation_prefix(rb, payment_triple@, address@));
    }
    let head = concat3("Account ", address.as_str(), " not registered for platform ");
    ProblemDetails {
        problem_type: "/payment-api/v1/allocations/account-not-registered".to_string(),
        detail: concat(head.as_str(), payment_triple.as_str()),
        extensions: ext,
    }
}

/// The report on a payment platform that does not parse: the request (serialised, `None`
/// where serialising failed), the parser's message, and the platform as the request gave it.
pub fn bad_platform_parameter(
    request_body: Option<String>,
    error: &String,
    requested_payment_platform: ExtValue,
) -> (r: ProblemDetails)
    ensures
        r@ == bad_platform_view(opt_text(request_body), error@, requested_payment_platform@),
{
    let ghost a = opt_text(request_body);
    let ghost c = requested_payment_platform@;
    let mut ext: Vec<(String, ExtValue)> = Vec::new();
    ext.push(("requestBody".to_string(), serialized_or_exec(request_body, "requestBody")));
    ext.push(("parseError".to_string(), ExtValue::Text(error.clone())));
    ext.push(("requestedPaymentPlatform".to_string(), requested_payment_platform));
    let r = ProblemDetails {
        problem_type: "/payment-api/v1/allocations/bad-payment-platform".to_string(),
        detail: "Payment platform doesn't parse".to_string(),
        extensions: ext,
    };
    proof {
        assert(r@.extensions =~= bad_platform_view(a, error@, c).extensions);
    }
    r
}

/// The report on an internal failure: the request (serialised, `None` where serialising
/// failed) and the failure's message.
pub fn server_error(request_body: Option<String>, error: &String) -> (r: ProblemDetails)
    ensures
        r@ == server_error_view(opt_text(request_body), error@),
{
    let ghost a = opt_text(request_body);
    let mut ext: Vec<(String, ExtValue)> = Vec::new();
    ext.push(("requestBody".to_string(), serialized_or_exec(request_body, "requestBody")));
    ext.push(("internalError".to_string(), ExtValue::Text(error.clone())));
    let r = ProblemDetails {
        problem_type: "/payment-api/v1/allocations/internal-error".to_string(),
        detail: "Unhandled internal error".to_string(),
        extensions: ext,
    };
    proof {
        assert(r@.extensions =~= server_error_view(a, error@).extensions);
    }
    r
}

/// The report on an account that the driver does not know.
pub open spec fn account_not_registered_view(
    request_body: Option<Seq<char>>,
    payment_triple: Seq<char>,
    address: Seq<char>,
) -> ProblemView {
    ProblemView {
        problem_type: "/payment-api/v1/allocations/account-not-registered"@,
        detail: "Account "@ + address + " not registered for platform "@ + payment_triple,
        extensions: validation_prefix(request_body, payment_triple, address),
    }
}

/// The report on a payment platform that does not parse.
pub open spec fn bad_platform_view(
    request_body: Option<Seq<char>>,
    error: Seq<char>,
    requested_payment_platform: ExtValueView,
) -> ProblemView {
    ProblemView {
        problem_type: "/payment-api/v1/allocations/bad-payment-platform"@,
        detail: "Payment platform doesn't parse"@,
        extensions: seq![
            ("requestBody"@, serialized_or(request_body, "requestBody"@)),
            ("parseError"@, ExtValueView::Text(error)),
            ("requestedPaymentPlatform"@, requested_payment_platform),
        ],
    }
}

/// The report on an internal failure.
pub open spec fn server_error_view(request_body: Option<Seq<char>>, error: Seq<char>) -> ProblemView {
    ProblemView {
        problem_type: "/payment-api/v1/allocations/internal-error"@,
        detail: "Unhandled internal error"@,
        extensions: seq![
            ("requestBody"@, serialized_or(request_body, "requestBody"@)),
            ("internalError"@, ExtValueView::Text(error)),
        ],
    }
}

} // verus!
