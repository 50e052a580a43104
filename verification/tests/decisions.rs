use ya_payment::api::allocations::{allocation_address, select_payment_platform, PaymentPlatformEnum};
use ya_payment::api::documents::{plan_debit_note_acceptance, plan_invoice_acceptance, ApiResponse};
use ya_payment::api::pay_activities::{get_debit_note_chain, DebitNoteForApi};
use ya_payment::api::problem::{try_from_validation, ExtValue, ValidateAllocationResult};
use ya_payment::batch::{batch_amounts_fit, plan_batch_payments, record_payment_sent, BatchOrderItemFullInfo};
use ya_payment::dao::batch_order::{BatchDao, BatchOrderItemRow};
use ya_payment::amount::decimal_text_fits_exec;
use ya_payment::cli::{
    accounts_table, fund_decision, parse_u32_text, FundDecision, process_platform, round_duration_to_sec, round_duration_to_sec_chrono,
    status_table, transfer_request, AccountEntry, AccountStatus, DriverStatusProperty, GasDetails, StatusTotals,
};
use ya_payment::dao::cycle::duration_text_fits_exec;
use ya_payment::cycle::{
    cycle_task_step, new_cycle_task, next_cycle_action, CycleAction, CycleEvent, CyclePhase, CycleStep,
};
use ya_payment::dao::allocation::{Allocation, AllocationStatus};
use ya_payment::platform::{NetworkName, PaymentPlatform};
use ya_payment::status::DocumentStatus;

const PAYER: &str = "0x1000000000000000000000000000000000000000";
const PAYEE_A: &str = "0x2000000000000000000000000000000000000000";
const PAYEE_B: &str = "0x3000000000000000000000000000000000000000";

fn item(payee: &str, amount: i128, deposit: Option<&str>) -> BatchOrderItemFullInfo {
    BatchOrderItemFullInfo {
        order_id: "order-1".to_string(),
        owner_id: PAYER.to_string(),
        payer_addr: PAYER.to_string(),
        payee_addr: payee.to_string(),
        platform: "erc20-holesky-tglm".to_string(),
        allocation_id: "allocation-1".to_string(),
        amount,
        deposit: deposit.map(|d| d.to_string()),
    }
}

#[test]
fn batch_items_are_grouped_per_payee_and_deposits_go_alone() {
    let items = vec![
        item(PAYEE_A, 3, None),
        item(PAYEE_B, 5, None),
        item(PAYEE_A, 4, None),
        item(PAYEE_B, 7, Some("{\"id\":\"0x1\",\"contract\":\"0x2\"}")),
    ];
    let plan = plan_batch_payments(&items);
    assert_eq!(plan.deposit_items, vec![3]);
    assert_eq!(plan.groups.len(), 2);
    assert_eq!(plan.groups[0].key.payee_addr, PAYEE_A);
    assert_eq!(plan.groups[0].amount, 7);
    assert_eq!(plan.groups[0].items, vec![0, 2]);
    assert_eq!(plan.groups[1].key.payee_addr, PAYEE_B);
    assert_eq!(plan.groups[1].amount, 5);
    assert_eq!(plan.groups[1].items, vec![1]);
}

fn note(id: &str, prev: Option<&str>) -> DebitNoteForApi {
    DebitNoteForApi {
        debit_note_id: id.to_string(),
        previous_debit_note_id: prev.map(|p| p.to_string()),
        activity_id: "activity-1".to_string(),
        agreement_id: "agreement-1".to_string(),
        status: DocumentStatus::Accepted,
        timestamp: 0,
        total_amount_due: 1,
        payment_due_date: None,
    }
}

#[test]
fn debit_note_chain_runs_from_the_latest_back() {
    let chain = get_debit_note_chain(vec![
        note("dn-1", None),
        note("dn-3", Some("dn-2")),
        note("dn-2", Some("dn-1")),
    ])
    .unwrap();
    let ids: Vec<&str> = chain.iter().map(|d| d.debit_note_id.as_str()).collect();
    assert_eq!(ids, vec!["dn-3", "dn-2", "dn-1"]);
    assert!(get_debit_note_chain(vec![]).unwrap().is_empty());
}

#[test]
fn debit_note_chain_faults_are_reported() {
    let dup = get_debit_note_chain(vec![note("dn-1", None), note("dn-1", None)]).unwrap_err();
    assert_eq!(dup, "Duplicate debit note with id dn-1");
    let dup_prev =
        get_debit_note_chain(vec![note("dn-2", Some("dn-1")), note("dn-3", Some("dn-1"))])
            .unwrap_err();
    assert_eq!(dup_prev, "Duplicate debit note with previous id dn-1");
    let missing = get_debit_note_chain(vec![note("dn-2", Some("dn-1"))]).unwrap_err();
    assert_eq!(missing, "Debit note dn-1 not found when building debit note chain");
    let two_heads = get_debit_note_chain(vec![note("dn-1", None), note("dn-9", None)]).unwrap_err();
    assert_eq!(two_heads, "Expected exactly one debit note with no previous debit note, found 2");
}

#[test]
fn valid_allocation_needs_no_problem_report() {
    let r = try_from_validation(
        &ValidateAllocationResult::Valid,
        Some("{}".to_string()),
        &"erc20-holesky-tglm".to_string(),
        &PAYER.to_string(),
    );
    assert!(r.is_none());
}

#[test]
fn refused_allocation_is_reported_with_the_request() {
    let r = try_from_validation(
        &ValidateAllocationResult::DepositReused { allocation_id: "allocation-9".to_string() },
        None,
        &"erc20-holesky-tglm".to_string(),
        &PAYER.to_string(),
    )
    .unwrap();
    assert_eq!(r.problem_type, "/payment-api/v1/allocations/validation/deposit-reused");
    assert!(r.detail.contains("allocation-9"));
    assert_eq!(r.extensions.len(), 4);
    assert_eq!(r.extensions[0].0, "requestBody");
    assert!(matches!(&r.extensions[0].1, ExtValue::Text(t) if t == "[requestBody serialization failed]"));
    assert_eq!(r.extensions[3].0, "conflictingAllocationId");
}

fn glm(n: i128) -> i128 {
    n * 1_000_000_000_000_000_000
}

fn active(remaining: i128) -> AllocationStatus {
    AllocationStatus::Active(Allocation {
        allocation_id: "allocation-1".to_string(),
        address: PAYER.to_string(),
        payment_platform: "erc20-holesky-tglm".to_string(),
        total_amount: remaining,
        spent_amount: 0,
        remaining_amount: remaining,
        timestamp: 0,
        timeout: None,
        deposit: None,
        make_deposit: false,
    })
}

#[test]
fn debit_note_acceptance_decisions() {
    let ok = plan_debit_note_acceptance(
        DocumentStatus::Received, 10, 10, "activity-1", Some(4), None, &active(6), "allocation-1",
    );
    assert!(matches!(ok, Ok(6)));
    let short = plan_debit_note_acceptance(
        DocumentStatus::Received, 10, 10, "activity-1", Some(4), None, &active(5), "allocation-1",
    );
    assert!(matches!(short, Err(ApiResponse::BadRequest(_))));
    let short_glm = plan_debit_note_acceptance(
        DocumentStatus::Received,
        glm(10),
        glm(10),
        "activity-1",
        Some(glm(4)),
        None,
        &active(glm(5) / 2),
        "allocation-1",
    );
    assert!(matches!(short_glm, Err(ApiResponse::BadRequest(m))
        if m == "Not enough funds. Allocated: 2.5 Needed: 6"));
    let wrong_amount = plan_debit_note_acceptance(
        DocumentStatus::Received, 10, 9, "activity-1", Some(4), None, &active(6), "allocation-1",
    );
    assert!(matches!(wrong_amount, Err(ApiResponse::BadRequest(m)) if m == "Invalid amount accepted"));
    let again = plan_debit_note_acceptance(
        DocumentStatus::Accepted, 10, 10, "activity-1", Some(4), None, &active(6), "allocation-1",
    );
    assert!(matches!(again, Err(ApiResponse::Done)));
    let no_activity = plan_debit_note_acceptance(
        DocumentStatus::Received, 10, 10, "activity-1", None, None, &active(6), "allocation-1",
    );
    assert!(matches!(no_activity, Err(ApiResponse::ServerError(m)) if m == "Activity activity-1 not found"));
}

#[test]
fn invoice_acceptance_decisions() {
    let ok = plan_invoice_acceptance(DocumentStatus::Received, 10, 10, "agreement-1", Some(3), "allocation-1", Some(7));
    assert!(matches!(ok, Ok(7)));
    let no_allocation =
        plan_invoice_acceptance(DocumentStatus::Received, 10, 10, "agreement-1", Some(3), "allocation-1", None);
    assert!(matches!(no_allocation, Err(ApiResponse::BadRequest(m)) if m == "Allocation allocation-1 not found"));
    let cancelled =
        plan_invoice_acceptance(DocumentStatus::Cancelled, 10, 10, "agreement-1", Some(3), "allocation-1", Some(7));
    assert!(matches!(cancelled, Err(ApiResponse::BadRequest(m)) if m == "Invoice cancelled"));
}

#[test]
fn allocation_platform_and_address_selection() {
    let default = select_payment_platform(&None).unwrap();
    assert_eq!(default.to_text(), "erc20-holesky-tglm");
    let named = select_payment_platform(&Some(PaymentPlatformEnum::PaymentPlatformName(
        "erc20-polygon-glm".to_string(),
    )))
    .unwrap();
    assert_eq!(named.to_text(), "erc20-polygon-glm");
    let object = select_payment_platform(&Some(PaymentPlatformEnum::PaymentPlatform(PaymentPlatform {
        driver: None,
        network: Some("polygon".to_string()),
        token: None,
    })))
    .unwrap();
    assert_eq!(object.to_text(), "erc20-polygon-glm");
    assert!(select_payment_platform(&Some(PaymentPlatformEnum::PaymentPlatformName(
        "nonsense".to_string(),
    )))
    .is_err());
    assert_eq!(allocation_address(&None, &PAYER.to_string()), PAYER);
    assert_eq!(allocation_address(&Some(PAYEE_A.to_string()), &PAYER.to_string()), PAYEE_A);
}

#[test]
fn cycle_task_waits_processes_or_asks() {
    assert!(matches!(next_cycle_action(Some(1_500), 1_000), CycleAction::Sleep(500)));
    assert!(matches!(next_cycle_action(Some(1_000), 1_000), CycleAction::ProcessNow));
    assert!(matches!(next_cycle_action(None, 1_000), CycleAction::AskNextProcess));
}

#[test]
fn durations_round_to_whole_seconds() {
    assert_eq!(round_duration_to_sec(1_499), 1);
    assert_eq!(round_duration_to_sec(1_500), 2);
    assert_eq!(round_duration_to_sec_chrono(2_499), 2);
    assert_eq!(round_duration_to_sec_chrono(0), 0);
}

#[test]
fn transfer_requests_read_amounts_and_gas_settings() {
    let t = transfer_request("1.45", "auto", "", "auto").unwrap();
    assert_eq!(t.amount, 1_450_000_000_000_000_000);
    assert_eq!((t.gas_price, t.max_gas_price, t.gas_limit), (None, None, None));
    let t = transfer_request("2", "30", "auto", "+60000").unwrap();
    assert_eq!(t.gas_price, Some(glm(30)));
    assert_eq!(t.gas_limit, Some(60_000));
    assert_eq!(transfer_request("x", "auto", "auto", "auto").unwrap_err(), "invalid amount: x");
    assert_eq!(
        transfer_request("1", "cheap", "auto", "auto").unwrap_err(),
        "invalid gas price: cheap"
    );
    assert_eq!(
        transfer_request("1", "auto", "auto", "-5").unwrap_err(),
        "invalid digit found in string"
    );
    assert_eq!(
        transfer_request("1", "auto", "auto", "99999999999").unwrap_err(),
        "number too large to fit in target type"
    );
}

#[test]
fn u32_texts_read_as_the_standard_parser_does() {
    assert_eq!(parse_u32_text("4294967295"), Ok(u32::MAX));
    assert_eq!(parse_u32_text("4294967296").unwrap_err(), "number too large to fit in target type");
    assert_eq!(parse_u32_text("+").unwrap_err(), "invalid digit found in string");
    assert_eq!(parse_u32_text("").unwrap_err(), "cannot parse integer from empty string");
    assert_eq!(parse_u32_text("007"), Ok(7));
}

#[test]
fn texts_that_would_overflow_the_parsers_are_told_apart() {
    assert!(duration_text_fits_exec("24h 30min"));
    assert!(!duration_text_fits_exec("18446744073709551615s 1000ms"));
    assert!(decimal_text_fits_exec("1.45e-3"));
    assert!(!decimal_text_fits_exec("1e999999999"));
    let long = format!("1.{}", "0".repeat(2000));
    assert!(decimal_text_fits_exec(&long));
    let t = transfer_request(&long, "", "auto", "").unwrap();
    assert_eq!(t.amount, 1_000_000_000_000_000_000);
    assert_eq!(
        transfer_request("1e999999999", "", "", "").unwrap_err(),
        "invalid amount: 1e999999999"
    );
}

const GLM_UNIT: i128 = 1_000_000_000_000_000_000;

#[test]
fn account_status_table_cuts_held_amounts_to_four_places_unless_precise() {
    let status = AccountStatus {
        amount: 12 * GLM_UNIT + 345_678_000_000_000_000,
        reserved: GLM_UNIT / 2,
        outgoing: StatusTotals { requested: 3 * GLM_UNIT, accepted: 2 * GLM_UNIT, confirmed: GLM_UNIT },
        incoming: StatusTotals { requested: 0, accepted: 0, confirmed: 0 },
        driver: "erc20".to_string(),
        network: "holesky".to_string(),
        token: "tGLM".to_string(),
        gas: Some(GasDetails { balance: GLM_UNIT / 10, currency_short_name: "tETH".to_string() }),
    };
    let t = status_table("0xabc", &status, &vec![], false);
    assert_eq!(t.header, "\nStatus for account: 0xabc\nPayment Driver status: OK\n");
    assert_eq!(t.columns, vec!["platform", "total amount", "reserved", "amount", "incoming", "outgoing", "gas"]);
    assert_eq!(
        t.rows[0],
        vec!["driver: erc20", "12.3456 tGLM", "0.5 tGLM", "accepted", "0 tGLM", "2 tGLM", "0.1000 tETH"]
    );
    assert_eq!(t.rows[1], vec!["network: holesky", "", "", "confirmed", "0 tGLM", "1 tGLM", ""]);
    assert_eq!(t.rows[2], vec!["token: tGLM", "", "", "requested", "0 tGLM", "3 tGLM", ""]);
    let precise = status_table("0xabc", &status, &vec![], true);
    assert_eq!(precise.rows[0][1], "12.345678 tGLM");
    assert_eq!(precise.rows[0][6], "0.1 tETH");
    let no_gas = AccountStatus { gas: None, ..status };
    let with_issue = status_table(
        "0xabc",
        &no_gas,
        &vec![DriverStatusProperty::TxStuck { driver: "erc20".to_string(), network: "holesky".to_string() }],
        false,
    );
    assert_eq!(with_issue.rows[0][6], "N/A");
    assert!(with_issue.header.starts_with("\nStatus for account: 0xabc\n\nPayment Driver status:\n"));
}

#[test]
fn accounts_table_lists_each_account_with_its_flags() {
    let t = accounts_table(&vec![AccountEntry {
        address: "0xabc".to_string(),
        driver: "erc20".to_string(),
        network: "holesky".to_string(),
        token: "tGLM".to_string(),
        send: true,
        receive: false,
    }]);
    assert_eq!(t.header, "");
    assert_eq!(t.columns, vec!["address", "driver", "network", "token", "send", "recv"]);
    assert_eq!(t.rows, vec![vec!["0xabc", "erc20", "holesky", "tGLM", "true", "false"]]);
}

#[test]
fn process_commands_name_their_platform_in_lower_case() {
    assert_eq!(process_platform("erc20", "Holesky", "tGLM"), "erc20-holesky-tglm");
}

#[test]
fn batch_cycle_task_asks_sleeps_processes_and_backs_off_after_errors() {
    let t = new_cycle_task();
    let (t, step) = cycle_task_step(t, CycleEvent::Tick { now: 1_000, finish: false });
    assert!(matches!(step, CycleStep::AskNextProcess));
    let (t, step) = cycle_task_step(t, CycleEvent::NextProcess(None));
    assert!(matches!(step, CycleStep::SleepAfterError(5000)));
    assert_eq!(t.phase, CyclePhase::Retrying);
    let (t, step) = cycle_task_step(t, CycleEvent::Woken { finish: false });
    assert!(matches!(step, CycleStep::Continue));
    let (t, step) = cycle_task_step(t, CycleEvent::Tick { now: 1_000, finish: false });
    assert!(matches!(step, CycleStep::AskNextProcess));
    let (t, step) = cycle_task_step(t, CycleEvent::NextProcess(Some(4_000)));
    assert!(matches!(step, CycleStep::Continue));
    assert_eq!(t.next_process, Some(4_000));
    let (t, step) = cycle_task_step(t, CycleEvent::Tick { now: 1_500, finish: false });
    assert!(matches!(step, CycleStep::Sleep(2_500)));
    let (t, step) = cycle_task_step(t, CycleEvent::Woken { finish: false });
    assert!(matches!(step, CycleStep::AskNextProcess));
    let (t, _) = cycle_task_step(t, CycleEvent::NextProcess(Some(4_000)));
    let (t, step) = cycle_task_step(t, CycleEvent::Tick { now: 4_000, finish: false });
    assert!(matches!(step, CycleStep::ProcessNow));
    let (t, step) = cycle_task_step(t, CycleEvent::Processed { ok: false, finish: false });
    assert!(matches!(step, CycleStep::SleepAfterError(5000)));
    let (_, step) = cycle_task_step(t, CycleEvent::Woken { finish: true });
    assert!(matches!(step, CycleStep::Stop));
}

#[test]
fn funding_goes_to_the_onboarding_portal_on_production_networks() {
    match fund_decision(NetworkName::Polygon, false, "0xabc") {
        FundDecision::Onboarding(url) => assert_eq!(
            url,
            "https://glm.golem.network/#/onboarding/budget?yagnaAddress=0xabc&network=polygon"
        ),
        other => panic!("unexpected {:?}", other),
    }
    assert!(matches!(fund_decision(NetworkName::Holesky, true, "0xabc"), FundDecision::Faucet));
    assert!(matches!(fund_decision(NetworkName::Amoy, false, "0xabc"), FundDecision::Unsupported));
}

fn stored_item(payee: &str, allocation: &str) -> BatchOrderItemRow {
    BatchOrderItemRow {
        order_id: "order-1".to_string(),
        owner_id: PAYER.to_string(),
        payee_addr: payee.to_string(),
        allocation_id: allocation.to_string(),
        amount: 1,
        payment_id: None,
        paid: false,
    }
}

#[test]
fn a_scheduled_payment_is_recorded_on_every_item_of_its_group() {
    let mut a2 = item(PAYEE_A, 3, None);
    a2.allocation_id = "allocation-2".to_string();
    let items = vec![item(PAYEE_A, 4, None), item(PAYEE_B, 5, None), a2];
    assert!(batch_amounts_fit(&items));
    assert!(!batch_amounts_fit(&vec![item(PAYEE_A, -1, None)]));
    let plan = plan_batch_payments(&items);
    assert_eq!(plan.groups[0].items, vec![0, 2]);
    let mut dao = BatchDao::new();
    dao.items.push(stored_item(PAYEE_A, "allocation-1"));
    dao.items.push(stored_item(PAYEE_B, "allocation-1"));
    dao.items.push(stored_item(PAYEE_A, "allocation-2"));
    dao.items.push(stored_item(PAYEE_A, "allocation-3"));
    record_payment_sent(&mut dao, "order-1", PAYER, PAYEE_A, &items, &plan.groups[0].items, &"pay-1".to_string());
    assert_eq!(dao.items[0].payment_id.as_deref(), Some("pay-1"));
    assert_eq!(dao.items[1].payment_id, None);
    assert_eq!(dao.items[2].payment_id.as_deref(), Some("pay-1"));
    assert_eq!(dao.items[3].payment_id, None);
}
