//! What the allocation endpoints decide: which platform a request selects, how an
//! amendment changes an allocation, and how allocations decorate a demand.
use vstd::prelude::*;
use crate::clock::now_millis;
use crate::api::problem::{
    account_not_registered, account_not_registered_view, bad_platform_parameter, bad_platform_view,
    opt_text, serialized_or, serialized_or_exec, server_error, server_error_view, try_from_validation,
    validation_problem, ExtValue, ExtValueView, ProblemDetails, ValidateAllocationResult,
};
use crate::dao::allocation::{
    clone_deposit, clone_pairs, created_row, duplicate_allocation_text, opt_deposit_view, row_to_allocation,
    Allocation, AllocationDao, AllocationStatus, AllocationView, Deposit, DepositView,
    NewAllocation,
};
use crate::dao::batch::amount_limit;
use crate::platform::{
    driver_text, network_text, triple_text, TripleView, default_triple, platform_from_input_spec, platform_from_str_spec, opt_view,
    triple_result_matches, PaymentPlatform, PaymentPlatformTriple, DEFAULT_TESTNET_NETWORK,
};
use crate::text::{concat, concat3};

verus! {

/// A payment platform as a request may give it: by name, or as an object.
#[derive(Debug)]
pub enum PaymentPlatformEnum {
    PaymentPlatformName(String),
    PaymentPlatform(PaymentPlatform),
}

/// The platform a new allocation is made on, or the message refusing the request's one.
pub open spec fn selected_platform_spec(p: Option<PaymentPlatformEnum>) -> Result<
    crate::platform::TripleView,
    Seq<char>,
> {
    match p {
        Some(PaymentPlatformEnum::PaymentPlatformName(name)) => platform_from_str_spec(name@),
        Some(PaymentPlatformEnum::PaymentPlatform(pp)) => platform_from_input_spec(
            opt_view(pp.driver),
            opt_view(pp.network),
            opt_view(pp.token),
        ),
        None => Ok(default_triple(DEFAULT_TESTNET_NETWORK)),
    }
}

/// Selects the platform for a new allocation: by name, from the object, or the default
/// test platform where the request names none.
pub fn select_payment_platform(p: &Option<PaymentPlatformEnum>) -> (r: Result<
    PaymentPlatformTriple,
    String,
>)
    ensures
        triple_result_matches(r, selected_platform_spec(*p)),
{
    match p {
        Some(PaymentPlatformEnum::PaymentPlatformName(name)) => {
            PaymentPlatformTriple::from_payment_platform_str(name.as_str())
        },
        Some(PaymentPlatformEnum::PaymentPlatform(pp)) => {
            PaymentPlatformTriple::from_payment_platform_input(pp)
        },
        None => Ok(PaymentPlatformTriple::default_testnet()),
    }
}

/// The address an allocation pays from: the one the request gives, else the caller's
/// node id.
pub fn allocation_address(address: &Option<String>, node_id: &String) -> (r: String)
    ensures
        r@ == (match *address {
            Some(a) => a@,
            None => node_id@,
        }),
{
    match address {
        Some(a) => a.clone(),
        None => node_id.clone(),
    }
}

/// A request to make an allocation once its platform is settled: the platform's name
/// (`driver-network-token`), the address it pays from, and the platform's driver and network.
#[derive(Debug)]
pub struct AllocationRequest {
    pub platform: String,
    pub address: String,
    pub driver: String,
    pub network: String,
}

/// The answer to a request on allocations.
#[derive(Debug)]
pub enum AllocationReply {
    /// The allocation was made; its release is due at its timeout.
    Created(Allocation),
    /// The allocation as it now stands.
    Found(Allocation),
    /// A refusal or a failure, reported as a problem.
    Problem(ProblemDetails),
    /// The request cannot be carried out; the message.
    BadRequest(String),
    /// A failure of the store; its message.
    ServerError(String),
    /// There is no such allocation for the caller.
    NotFound,
}

/// The platform as a request gave it, for the report refusing it: a name as a JSON string,
/// an object as the serialised text `platform_json` (`None` where serialising failed).
pub open spec fn requested_platform_view(
    p: Option<PaymentPlatformEnum>,
    platform_json: Option<Seq<char>>,
) -> ExtValueView {
    match p {
        Some(PaymentPlatformEnum::PaymentPlatformName(n)) => ExtValueView::Text(n@),
        _ => serialized_or(platform_json, "requestedPaymentPlatform"@),
    }
}

/// Settles the platform and the address of a request to make an allocation. A platform that
/// is not accepted is answered with the bad-platform report, carrying the request
/// (`request_body`, serialised), the parser's message and the platform as given.
pub fn begin_allocation_request(
    platform: &Option<PaymentPlatformEnum>,
    address: &Option<String>,
    node_id: &String,
    request_body: &Option<String>,
    platform_json: &Option<String>,
) -> (r: Result<AllocationRequest, AllocationReply>)
    ensures
        match selected_platform_spec(*platform) {
            Ok(t) => r matches Ok(q) && q.platform@ == triple_text(t) && q.address@ == (match *address {
                Some(a) => a@,
                None => node_id@,
            }) && q.driver@ == driver_text(t.driver) && q.network@ == network_text(t.network),
            Err(m) => r matches Err(AllocationReply::Problem(p)) && p@ == bad_platform_view(
                opt_text(*request_body),
                m,
                requested_platform_view(*platform, opt_text(*platform_json)),
            ),
        },
{
    match select_payment_platform(platform) {
        Err(e) => {
            let requested = match platform {
                Some(PaymentPlatformEnum::PaymentPlatformName(n)) => ExtValue::Text(n.clone()),
                _ => serialized_or_exec(platform_json.clone(), "requestedPaymentPlatform"),
            };
            Err(AllocationReply::Problem(bad_platform_parameter(request_body.clone(), &e, requested)))
        },
        Ok(t) => Ok(AllocationRequest {
            platform: t.to_text(),
            address: allocation_address(address, node_id),
            driver: t.driver.to_text(),
            network: t.network.to_text(),
        }),
    }
}

/// What the payment service is asked when an allocation is made or grows: whether `address`
/// can cover `amount` on `platform` until `timeout`, from `deposit` where there is one.
#[derive(Debug)]
pub struct ValidateAllocationRequest {
    pub platform: String,
    pub address: String,
    pub amount: i128,
    pub timeout: Option<i64>,
    pub deposit: Option<Deposit>,
    pub new_allocation: bool,
}

/// What the payment service answered when asked whether an allocation can be made.
#[derive(Debug)]
pub enum AllocationValidation {
    /// The driver's answer.
    Answered(ValidateAllocationResult),
    /// The account is not registered with the driver.
    AccountNotRegistered,
    /// The question could not be answered; the failure's message.
    Failed(String),
}

/// What a request to make an allocation needs next, once its account was set up.
#[derive(Debug)]
pub enum AllocationRequestAction {
    /// Ask the payment service this.
    Validate(ValidateAllocationRequest),
    /// Answer the request.
    Respond(AllocationReply),
}

/// After the account that a request pays from was set up (`init`): ask whether it can
/// cover the new allocation, or report the failed set-up as an internal error.
pub fn allocation_after_account_init(
    req: &AllocationRequest,
    init: &Result<(), String>,
    allocation: &NewAllocation,
    request_body: &Option<String>,
) -> (r: AllocationRequestAction)
    ensures
        match *init {
            Err(e) => r matches AllocationRequestAction::Respond(AllocationReply::Problem(p)) && p@
                == server_error_view(opt_text(*request_body), e@),
            Ok(_) => r matches AllocationRequestAction::Validate(v) && v.platform@ == req.platform@
                && v.address@ == req.address@ && v.amount == allocation.total_amount && v.timeout
                == allocation.timeout && opt_deposit_view(v.deposit) == opt_deposit_view(allocation.deposit)
                && v.new_allocation,
        },
{
    match init {
        Err(e) => AllocationRequestAction::Respond(AllocationReply::Problem(server_error(request_body.clone(), e))),
        Ok(_) => AllocationRequestAction::Validate(ValidateAllocationRequest {
            platform: req.platform.clone(),
            address: req.address.clone(),
            amount: allocation.total_amount,
            timeout: allocation.timeout,
            deposit: clone_deposit(&allocation.deposit),
            new_allocation: true,
        }),
    }
}

/// What storing a new allocation of `node_id` did: `dao` became `new`, answering `r`. The
/// allocation is stored under a fresh id and answered with, or, only where the fresh id is
/// taken, nothing is stored; an owner with no allocation yet always gets it.
pub open spec fn allocation_stored(
    old: AllocationDao,
    new: AllocationDao,
    r: AllocationReply,
    allocation: NewAllocation,
    node_id: Seq<char>,
    platform: Seq<char>,
    address: Seq<char>,
) -> bool {
    &&& new.expenditures == old.expenditures
    &&& (r is Created || r is ServerError)
    &&& (forall|k: int| 0 <= k < old.allocations@.len() ==> (#[trigger] old.allocations@[k]).owner_id@ != node_id)
        ==> r is Created
    &&& r matches AllocationReply::Created(a) ==> {
        &&& new.allocations@.len() == old.allocations@.len() + 1
        &&& new.allocations@.take(old.allocations@.len() as int) == old.allocations@
        &&& a@ == row_to_allocation(new.allocations@.last()@)
        &&& crate::clock::uuid_v4_text(a.allocation_id@)
        &&& exists|now: i64|
            new.allocations@.last()@ == #[trigger] created_row(allocation, a.allocation_id@, node_id, platform, address, now)
    }
    &&& r matches AllocationReply::ServerError(m) ==> m@ == "Query error: "@ + duplicate_allocation_text()
        && new.allocations == old.allocations
}

/// After the payment service answered whether the allocation can be made (`outcome`):
/// report its refusal, the unregistered account or the failure, or store the allocation for
/// `node_id` (`allocation_stored`).
pub fn allocation_after_validation(
    dao: &mut AllocationDao,
    req: &AllocationRequest,
    allocation: &NewAllocation,
    node_id: &String,
    outcome: &AllocationValidation,
    request_body: &Option<String>,
) -> (r: AllocationReply)
    requires
        old(dao).wf(),
    ensures
        final(dao).wf(),
        ({
            let rb = opt_text(*request_body);
            match *outcome {
                AllocationValidation::Answered(res) => match validation_problem(res, rb, req.platform@, req.address@) {
                    Some(p) => r matches AllocationReply::Problem(d) && d@ == p && *final(dao) == *old(dao),
                    None => allocation_stored(
                        *old(dao),
                        *final(dao),
                        r,
                        *allocation,
                        node_id@,
                        req.platform@,
                        req.address@,
                    ),
                },
                AllocationValidation::AccountNotRegistered => r matches AllocationReply::Problem(d) && d@
                    == account_not_registered_view(rb, req.platform@, req.address@) && *final(dao) == *old(dao),
                AllocationValidation::Failed(e) => r matches AllocationReply::Problem(d) && d@
                    == server_error_view(rb, e@) && *final(dao) == *old(dao),
            }
        }),
{
    match outcome {
        AllocationValidation::Answered(res) => {
            match try_from_validation(res, request_body.clone(), &req.platform, &req.address) {
                Some(p) => {
                    return AllocationReply::Problem(p);
                },
                None => {},
            }
        },
        AllocationValidation::AccountNotRegistered => {
            return AllocationReply::Problem(
                account_not_registered(request_body.clone(), &req.platform, &req.address),
            );
        },
        AllocationValidation::Failed(e) => {
            return AllocationReply::Problem(server_error(request_body.clone(), e));
        },
    }
    match dao.create(allocation, node_id, &req.platform, &req.address) {
        Ok(id) => {
            proof {
                let n = dao.allocations@.len() - 1;
                crate::ledger::lemma_key_index(dao.allocations@, id@, node_id@, n);
            }
            match dao.get(&id, node_id) {
                AllocationStatus::Active(a) => AllocationReply::Created(a),
                _ => AllocationReply::Problem(server_error(request_body.clone(), &"Database Error".to_string())),
            }
        },
        Err(e) => AllocationReply::ServerError(e.message()),
    }
}

/// A change to a deposit: new arguments for the call that validates it.
#[derive(Debug)]
pub struct DepositUpdate {
    pub validate: Option<Vec<(String, String)>>,
}

/// A change to an allocation; what is left out stays as it was.
#[derive(Debug)]
pub struct AllocationUpdate {
    pub total_amount: Option<i128>,
    pub timeout: Option<i64>,
    pub deposit: Option<DepositUpdate>,
}

pub open spec fn opt_pairs_view(v: Option<Vec<(String, String)>>) -> Option<Seq<(String, String)>> {
    match v {
        Some(v) => Some(v@),
        None => None,
    }
}

/// The allocation after `u`, or the message refusing `u` at time `now`.
pub open spec fn amend_fields_spec(old: AllocationView, u: AllocationUpdate, now: int) -> Result<
    AllocationView,
    Seq<char>,
> {
    let total = match u.total_amount {
        Some(t) => t as int,
        None => old.total_amount,
    };
    let remaining = total - old.spent_amount;
    if remaining < 0 {
        Err("New allocation would be smaller than the already spent amount"@)
    } else if u.timeout matches Some(t) && t < now {
        Err("New allocation timeout is in the past"@)
    } else if old.deposit is None && u.deposit is Some {
        Err("Cannot update deposit of an allocation created without one"@)
    } else {
        let deposit = match (old.deposit, u.deposit) {
            (Some(d), Some(du)) => Some(DepositView { validate: opt_pairs_view(du.validate), ..d }),
            (d, _) => d,
        };
        Ok(
            AllocationView {
                total_amount: total,
                remaining_amount: remaining,
                timeout: match u.timeout {
                    Some(t) => Some(t),
                    None => old.timeout,
                },
                deposit,
                ..old
            },
        )
    }
}

/// `r` is what amending `old` by `u` at time `now` gives.
pub open spec fn amended_as_at(
    r: Result<Allocation, String>,
    old: AllocationView,
    u: AllocationUpdate,
    now: int,
) -> bool {
    match amend_fields_spec(old, u, now) {
        Ok(a) => r matches Ok(x) && x@ == a,
        Err(m) => r matches Err(e) && e@ == m,
    }
}

/// Amounts the ledger can hold without overflow.
pub open spec fn update_bounded(old: AllocationView, u: AllocationUpdate) -> bool {
    &&& -amount_limit() <= old.total_amount <= amount_limit()
    &&& -amount_limit() <= old.spent_amount <= amount_limit()
    &&& u.total_amount matches Some(t) ==> -amount_limit() <= t <= amount_limit()
}

/// Applies `update` to `old` as of time `now` (milliseconds since the epoch).
pub fn amend_allocation_fields_at(old: Allocation, update: AllocationUpdate, now: i64) -> (r: Result<
    Allocation,
    String,
>)
    requires
        update_bounded(old@, update),
    ensures
        amended_as_at(r, old@, update, now as int),
{
    let total_amount = match update.total_amount {
        Some(t) => t,
        None => old.total_amount,
    };
    let remaining_amount = total_amount - old.spent_amount;
    if remaining_amount < 0 {
        return Err("New allocation would be smaller than the already spent amount".to_string());
    }
    match update.timeout {
        Some(t) => {
            if t < now {
                return Err("New allocation timeout is in the past".to_string());
            }
        },
        None => {},
    }
    let ghost old_view = old@;
    let ghost upd = update;
    let Allocation {
        allocation_id,
        address,
        payment_platform,
        total_amount: _,
        spent_amount,
        remaining_amount: _,
        timestamp,
        timeout,
        deposit,
        make_deposit,
    } = old;
    let new_deposit: Option<Deposit> = match (deposit, update.deposit) {
        (Some(d), None) => Some(d),
        (Some(d), Some(du)) => {
            let Deposit { id, contract, validate: _ } = d;
            Some(Deposit { id, contract, validate: du.validate })
        },
        (None, None) => None,
        (None, Some(_)) => {
            return Err("Cannot update deposit of an allocation created without one".to_string());
        },
    };
    let new_timeout = match update.timeout {
        Some(t) => Some(t),
        None => timeout,
    };
    let r = Allocation {
        allocation_id,
        address,
        payment_platform,
        total_amount,
        spent_amount,
        remaining_amount,
        timestamp,
        timeout: new_timeout,
        deposit: new_deposit,
        make_deposit,
    };
    proof {
        let a = amend_fields_spec(old_view, upd, now as int)->Ok_0;
        assert(r@.deposit == a.deposit);
    }
    Ok(r)
}

/// Applies `update` to `old` as of the current time.
pub fn amend_allocation_fields(old: Allocation, update: AllocationUpdate) -> (r: Result<
    Allocation,
    String,
>)
    requires
        update_bounded(old@, update),
    ensures
        exists|now: int| amended_as_at(r, old@, update, now),
{
    let now = now_millis();
    amend_allocation_fields_at(old, update, now)
}

/// The amount a driver must newly cover when an allocation grows to `new_total`: the
/// growth, or nothing where it does not grow.
pub fn amount_to_validate(new_total: i128, current_total: i128) -> (r: i128)
    requires
        -amount_limit() <= new_total <= amount_limit(),
        -amount_limit() <= current_total <= amount_limit(),
    ensures
        r == (if new_total - current_total > 0 { new_total - current_total } else { 0 }),
{
    let d = new_total - current_total;
    if d > 0 {
        d
    } else {
        0
    }
}

/// Stored allocations whose amounts the amend arithmetic can hold.
pub open spec fn rows_bounded(dao: AllocationDao) -> bool {
    &&& forall|k: int|
        0 <= k < dao.allocations@.len() ==> -amount_limit() <= #[trigger] dao.allocations@[k].total_amount
            <= amount_limit()
    &&& forall|k: int|
        0 <= k < dao.allocations@.len() ==> -amount_limit() <= #[trigger] dao.allocations@[k].spent_amount
            <= amount_limit()
}

/// Whether the amounts of the stored allocations and of `update` are ones an amend can
/// work with (`rows_bounded`, and the update's total within `amount_limit`).
pub fn amend_fits(dao: &AllocationDao, update: &AllocationUpdate) -> (r: bool)
    ensures
        r == (rows_bounded(*dao) && (update.total_amount matches Some(t) ==> -amount_limit() <= t
            <= amount_limit())),
{
    let limit: i128 = 0x2000_0000_0000_0000_0000_0000_0000_0000;
    match update.total_amount {
        Some(t) => {
            if t < -limit || t > limit {
                return false;
            }
        },
        None => {},
    }
    let mut i: usize = 0;
    while i < dao.allocations.len()
        invariant
            0 <= i <= dao.allocations@.len(),
            limit == amount_limit(),
            forall|k: int| 0 <= k < i ==> -amount_limit() <= #[trigger] dao.allocations@[k].total_amount <= amount_limit(),
            forall|k: int| 0 <= k < i ==> -amount_limit() <= #[trigger] dao.allocations@[k].spent_amount <= amount_limit(),
        decreases dao.allocations@.len() - i,
    {
        let row = &dao.allocations[i];
        if row.total_amount < -limit || row.total_amount > limit || row.spent_amount < -limit || row.spent_amount > limit {
            return false;
        }
        i = i + 1;
    }
    true
}

/// What an amend of an allocation needs next.
#[derive(Debug)]
pub enum AmendStep {
    /// Answer the request.
    Respond(AllocationReply),
    /// Ask the payment service `request`; `amended` is the allocation as the amend makes it.
    Validate { amended: Allocation, request: ValidateAllocationRequest },
}

/// The growth of an allocation from `current` to `amended` that the payment service must
/// newly cover: the other allocations, this one among them, are already counted.
pub open spec fn growth(amended: AllocationView, current: AllocationView) -> int {
    if amended.total_amount - current.total_amount > 0 {
        amended.total_amount - current.total_amount
    } else {
        0
    }
}

/// Starts an amend of allocation `allocation_id` of `node_id` by `update` at time `now`:
/// an allocation that is not the caller's active one is not found; an amend that
/// `amend_allocation_fields` refuses is a bad request; otherwise the payment service is
/// asked to cover the growth only, for the allocation's platform and address, as no new
/// allocation.
pub fn amend_allocation_begin(
    dao: &AllocationDao,
    allocation_id: &String,
    node_id: &String,
    update: AllocationUpdate,
    now: i64,
) -> (r: AmendStep)
    requires
        dao.wf(),
        rows_bounded(*dao),
        update.total_amount matches Some(t) ==> -amount_limit() <= t <= amount_limit(),
    ensures
        match crate::dao::allocation::stored_row(dao.allocations@, allocation_id@, node_id@) {
            Some(s) => if s.released {
                r matches AmendStep::Respond(AllocationReply::NotFound)
            } else {
                let current = row_to_allocation(s@);
                match amend_fields_spec(current, update, now as int) {
                    Err(m) => r matches AmendStep::Respond(AllocationReply::BadRequest(e)) && e@ == m,
                    Ok(a) => r matches AmendStep::Validate { amended, request } && amended@ == a
                        && -amount_limit() <= amended.total_amount <= amount_limit()
                        && request.platform@ == a.payment_platform && request.address@ == a.address
                        && request.amount == growth(a, current) && request.timeout == a.timeout
                        && opt_deposit_view(request.deposit) == a.deposit && !request.new_allocation,
                }
            },
            None => r matches AmendStep::Respond(AllocationReply::NotFound),
        },
{
    let current = match dao.get(allocation_id, node_id) {
        AllocationStatus::Active(a) => a,
        _ => {
            return AmendStep::Respond(AllocationReply::NotFound);
        },
    };
    let current_total = current.total_amount;
    let ghost cur = current@;
    let amended = match amend_allocation_fields_at(current, update, now) {
        Ok(a) => a,
        Err(e) => {
            return AmendStep::Respond(AllocationReply::BadRequest(e));
        },
    };
    let request = ValidateAllocationRequest {
        platform: amended.payment_platform.clone(),
        address: amended.address.clone(),
        amount: amount_to_validate(amended.total_amount, current_total),
        timeout: amended.timeout,
        deposit: clone_deposit(&amended.deposit),
        new_allocation: false,
    };
    AmendStep::Validate { amended, request }
}

/// After the payment service answered whether the amend can be made (`outcome`): report
/// its refusal, the unregistered account or the failure; otherwise store the amend
/// (`AllocationDao::replace`) and answer with the allocation as it now stands. An
/// allocation gone in between, or an amend below what was spent in between, is reported as
/// an internal error and nothing is stored.
pub fn amend_allocation_after_validation(
    dao: &mut AllocationDao,
    amended: &Allocation,
    node_id: &String,
    outcome: &AllocationValidation,
    request_body: &Option<String>,
) -> (r: AllocationReply)
    requires
        old(dao).wf(),
        rows_bounded(*old(dao)),
        -amount_limit() <= amended.total_amount <= amount_limit(),
    ensures
        final(dao).wf(),
        final(dao).expenditures == old(dao).expenditures,
        ({
            let rb = opt_text(*request_body);
            let platform = amended.payment_platform@;
            let address = amended.address@;
            match *outcome {
                AllocationValidation::Answered(res) => match validation_problem(res, rb, platform, address) {
                    Some(p) => r matches AllocationReply::Problem(d) && d@ == p && *final(dao) == *old(dao),
                    None => match crate::dao::allocation::stored_row(
                        old(dao).allocations@,
                        amended.allocation_id@,
                        node_id@,
                    ) {
                        Some(s) => if s.released {
                            (r matches AllocationReply::Problem(d) && d@ == server_error_view(
                                rb,
                                "Allocation not present despite preconditions being already ensured"@,
                            )) && *final(dao) == *old(dao)
                        } else if amended.total_amount < s.spent_amount {
                            (r matches AllocationReply::Problem(d) && d@ == server_error_view(
                                rb,
                                "Query error: "@ + crate::dao::allocation::amend_below_spent_text(
                                    amended.total_amount as int,
                                    s.spent_amount as int,
                                ),
                            )) && *final(dao) == *old(dao)
                        } else {
                            let k = crate::ledger::key_index(old(dao).allocations@, amended.allocation_id@, node_id@);
                            let row = crate::dao::allocation::amended_row(s@, amended@);
                            &&& final(dao).allocations@.len() == old(dao).allocations@.len()
                            &&& forall|j: int|
                                0 <= j < old(dao).allocations@.len() && j != k ==> #[trigger] final(dao).allocations@[j]
                                    == old(dao).allocations@[j]
                            &&& final(dao).allocations@[k]@ == row
                            &&& r matches AllocationReply::Found(a) && a@ == row_to_allocation(row)
                        },
                        None => (r matches AllocationReply::Problem(d) && d@ == server_error_view(
                            rb,
                            "Allocation not present despite preconditions being already ensured"@,
                        )) && *final(dao) == *old(dao),
                    },
                },
                AllocationValidation::AccountNotRegistered => r matches AllocationReply::Problem(d) && d@
                    == account_not_registered_view(rb, platform, address) && *final(dao) == *old(dao),
                AllocationValidation::Failed(e) => r matches AllocationReply::Problem(d) && d@
                    == server_error_view(rb, e@) && *final(dao) == *old(dao),
            }
        }),
{
    match outcome {
        AllocationValidation::Answered(res) => {
            match try_from_validation(res, request_body.clone(), &amended.payment_platform, &amended.address) {
                Some(p) => {
                    return AllocationReply::Problem(p);
                },
                None => {},
            }
        },
        AllocationValidation::AccountNotRegistered => {
            return AllocationReply::Problem(
                account_not_registered(request_body.clone(), &amended.payment_platform, &amended.address),
            );
        },
        AllocationValidation::Failed(e) => {
            return AllocationReply::Problem(server_error(request_body.clone(), e));
        },
    }
    let ghost before = *dao;
    match dao.replace(amended, node_id) {
        Ok(true) => {},
        Ok(false) => {
            return AllocationReply::Problem(server_error(
                request_body.clone(),
                &"Allocation not present despite preconditions being already ensured".to_string(),
            ));
        },
        Err(e) => {
            return AllocationReply::Problem(server_error(request_body.clone(), &e.message()));
        },
    }
    proof {
        let k = crate::ledger::key_index(before.allocations@, amended.allocation_id@, node_id@);
        assert(crate::ledger::key_is(dao.allocations@[k], amended.allocation_id@, node_id@));
        crate::ledger::lemma_key_index(dao.allocations@, amended.allocation_id@, node_id@, k);
    }
    match dao.get(&amended.allocation_id, node_id) {
        AllocationStatus::Active(a) => AllocationReply::Found(a),
        _ => AllocationReply::NotFound,
    }
}

/// A property that a demand carries.
#[derive(Debug)]
pub struct MarketProperty {
    pub key: String,
    pub value: String,
}

/// The key under which a demand names the address paying on `platform`.
pub open spec fn platform_address_key(platform: Seq<char>) -> Seq<char> {
    "golem.com.payment.platform."@ + platform + ".address"@
}

/// The protocol version property every decorated demand carries.
pub open spec fn protocol_version_key() -> Seq<char> {
    "golem.com.payment.protocol.version"@
}

/// The properties with which allocations decorate a demand, and the lowest payment protocol
/// version the demand asks for: 3 where an allocation has a deposit, 2 otherwise.
pub struct DemandDecoration {
    pub properties: Vec<MarketProperty>,
    pub platform_keys: Vec<String>,
    pub required_protocol_version: u32,
}

pub open spec fn any_deposit(a: Seq<Allocation>) -> bool {
    exists|i: int| 0 <= i < a.len() && a[i].deposit is Some
}

/// Decorates a demand with the allocations that pay for it: one address property per
/// allocation, in their order, then the protocol version. `platform_keys` are the keys of
/// the address properties, which the platform constraint lists.
pub fn demand_decoration(allocations: &Vec<Allocation>) -> (r: DemandDecoration)
    ensures
        r.properties.len() == allocations.len() + 1,
        r.platform_keys.len() == allocations.len(),
        forall|i: int|
            0 <= i < allocations.len() ==> {
                &&& (#[trigger] r.properties@[i]).key@ == platform_address_key(
                    allocations@[i].payment_platform@,
                )
                &&& r.properties@[i].value@ == allocations@[i].address@
                &&& r.platform_keys@[i]@ == r.properties@[i].key@
            },
        r.properties@[allocations.len() as int].key@ == protocol_version_key(),
        r.properties@[allocations.len() as int].value@ == "3"@,
        r.required_protocol_version == (if any_deposit(allocations@) { 3u32 } else { 2u32 }),
{
    let mut properties: Vec<MarketProperty> = Vec::new();
    let mut keys: Vec<String> = Vec::new();
    let mut has_deposit = false;
    let mut i: usize = 0;
    while i < allocations.len()
        invariant
            0 <= i <= allocations.len(),
            properties.len() == i,
            keys.len() == i,
            forall|k: int|
                0 <= k < i ==> {
                    &&& (#[trigger] properties@[k]).key@ == platform_address_key(
                        allocations@[k].payment_platform@,
                    )
                    &&& properties@[k].value@ == allocations@[k].address@
                    &&& keys@[k]@ == properties@[k].key@
                },
            has_deposit == (exists|k: int| 0 <= k < i && allocations@[k].deposit is Some),
        decreases allocations.len() - i,
    {
        let a = &allocations[i];
        let key = concat3("golem.com.payment.platform.", a.payment_platform.as_str(), ".address");
        keys.push(key.clone());
        properties.push(MarketProperty { key, value: a.address.clone() });
        if a.deposit.is_some() {
            has_deposit = true;
        }
        i = i + 1;
    }
    properties.push(
        MarketProperty {
            key: "golem.com.payment.protocol.version".to_string(),
            value: "3".to_string(),
        },
    );
    DemandDecoration {
        properties,
        platform_keys: keys,
        required_protocol_version: if has_deposit { 3 } else { 2 },
    }
}

} // verus!
