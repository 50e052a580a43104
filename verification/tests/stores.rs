use ya_payment::dao::allocation::{
    create, Allocation, AllocationDao, Deposit, AllocationReleaseStatus, AllocationStatus, NewAllocation,
    SpendFromAllocationArgs,
};
use ya_payment::api::allocations::{
    allocation_after_account_init, allocation_after_validation, amend_allocation_after_validation,
    amend_allocation_begin, begin_allocation_request, AllocationReply, AllocationRequestAction,
    AllocationUpdate, AllocationValidation, AmendStep, PaymentPlatformEnum,
};
use ya_payment::api::problem::{ExtValue, ValidateAllocationResult};
use ya_payment::dao::batch_order::{
    AllocationDepositRow, BatchDao, BatchItemFilter, BatchOrderItemDocumentRow, BatchOrderItemRow,
    BatchOrderRow,
};
use ya_payment::dao::cycle::{
    get_default_payment_cycle_extra_pay_time, get_default_payment_cycle_interval, new_interval_cycle,
    BatchCycleDao, CronNext,
};
use ya_payment::dao::event::{DebitNoteEventDao, EventQuery, EventRecord, InvoiceEventDao};
use ya_payment::dao::order::{OrderDao, OrderRow};
use ya_payment::dao::sync_notifs::SyncNotifsDao;
use ya_payment::error::DbError;
use ya_payment::ledger::Ledger;
use ya_payment::status::Role;

const OWNER: &str = "0x1000000000000000000000000000000000000000";
const PAYEE: &str = "0x2000000000000000000000000000000000000000";
const NOW: i64 = 1_700_000_000_000;
const HOUR_MS: i64 = 3_600_000;

fn event(id: &str, owner: &str, role: Role, kind: &str, ts: i64, app: Option<&str>) -> EventRecord {
    EventRecord {
        document_id: id.to_string(),
        owner_id: owner.to_string(),
        role,
        event_type: kind.to_string(),
        timestamp: ts,
        details: None,
        app_session_id: app.map(|a| a.to_string()),
    }
}

fn query(after: Option<i64>, max: Option<u32>, app: Option<&str>) -> EventQuery {
    EventQuery {
        after_timestamp: after,
        max_events: max,
        app_session_id: app.map(|a| a.to_string()),
        requestor_events: vec!["RECEIVED".to_string(), "CANCELLED".to_string()],
        provider_events: vec!["ACCEPTED".to_string()],
    }
}

#[test]
fn invoice_events_are_listed_by_time_after_the_timestamp() {
    let dao = InvoiceEventDao {
        events: vec![
            event("inv-1", OWNER, Role::Requestor, "RECEIVED", NOW + 3, None),
            event("inv-2", OWNER, Role::Requestor, "RECEIVED", NOW + 1, None),
            event("inv-3", OWNER, Role::Requestor, "RECEIVED", NOW, None),
            event("inv-4", PAYEE, Role::Requestor, "RECEIVED", NOW + 2, None),
        ],
    };
    let r = dao.get_for_node_id(OWNER.to_string(), &query(Some(NOW), None, None));
    let ids: Vec<&str> = r.iter().map(|e| e.document_id.as_str()).collect();
    assert_eq!(ids, vec!["inv-2", "inv-1"]);
}

#[test]
fn event_limit_applies_before_the_type_filter() {
    let dao = InvoiceEventDao {
        events: vec![
            event("inv-1", OWNER, Role::Requestor, "ACCEPTED", NOW, None),
            event("inv-1", OWNER, Role::Requestor, "RECEIVED", NOW + 1, None),
        ],
    };
    let r = dao.get_for_invoice_id("inv-1".to_string(), &query(None, Some(1), None));
    assert!(r.is_empty());
    let r = dao.get_for_invoice_id("inv-1".to_string(), &query(None, Some(2), None));
    assert_eq!(r.len(), 1);
    assert_eq!(r[0].event_type, "RECEIVED");
}

#[test]
fn debit_note_events_are_filtered_by_session_and_role() {
    let dao = DebitNoteEventDao {
        events: vec![
            event("dn-1", OWNER, Role::Provider, "ACCEPTED", NOW, Some("s1")),
            event("dn-1", OWNER, Role::Provider, "RECEIVED", NOW + 1, Some("s1")),
            event("dn-2", OWNER, Role::Provider, "ACCEPTED", NOW + 2, Some("s2")),
            event("dn-3", OWNER, Role::Provider, "ACCEPTED", NOW + 3, None),
        ],
    };
    let r = dao.get_for_node_id(OWNER.to_string(), &query(None, None, Some("s1")));
    assert_eq!(r.len(), 1);
    assert_eq!(r[0].document_id, "dn-1");
    let r = dao.get_for_debit_note_id("dn-3".to_string(), &query(None, None, None));
    assert_eq!(r.len(), 1);
}

#[test]
fn default_cycle_is_stored_once_per_owner_and_platform() {
    let mut dao = BatchCycleDao::new();
    let interval = get_default_payment_cycle_interval(None).unwrap();
    let extra = get_default_payment_cycle_extra_pay_time(None).unwrap();
    assert_eq!(interval, 24 * HOUR_MS);
    assert_eq!(extra, HOUR_MS);
    let c = dao.get_or_insert_default(&OWNER.to_string(), &"p".to_string(), interval, extra, NOW);
    assert_eq!(c.cycle_next_process, NOW + interval);
    let again = dao.get_or_insert_default(&OWNER.to_string(), &"p".to_string(), interval, extra, NOW + 5);
    assert_eq!(again.created_ts, NOW);
    assert_eq!(dao.cycles.len(), 1);
}

#[test]
fn configured_cycle_interval_overrides_the_default() {
    assert_eq!(get_default_payment_cycle_interval(Some("30m")), Some(30 * 60_000));
    assert_eq!(get_default_payment_cycle_interval(Some("soon")), None);
}

#[test]
fn processing_moves_the_cycle_one_interval_on() {
    let mut dao = BatchCycleDao::new();
    let r = dao
        .mark_process_and_next(&OWNER.to_string(), &"p".to_string(), HOUR_MS, 0, NOW, &CronNext::NoUpcoming)
        .unwrap();
    assert_eq!(r.cycle_next_process, NOW + HOUR_MS);
    assert_eq!(dao.cycles[0].cycle_last_process, Some(NOW));
    assert_eq!(dao.cycles[0].cycle_next_process, NOW + HOUR_MS);
}

#[test]
fn updating_a_processed_cycle_keeps_the_next_run_within_one_interval() {
    let mut dao = BatchCycleDao::new();
    dao.mark_process_and_next(&OWNER.to_string(), &"p".to_string(), HOUR_MS, 0, NOW, &CronNext::NoUpcoming)
        .unwrap();
    let fresh = new_interval_cycle(OWNER.to_string(), "p".to_string(), 2 * HOUR_MS, 0, NOW + 10);
    let stored = dao.store_cycle(fresh, Some(NOW + 5 * HOUR_MS), NOW + 10);
    assert_eq!(stored.cycle_next_process, NOW + 2 * HOUR_MS);
    assert_eq!(stored.cycle_interval, Some(2 * HOUR_MS));
    assert_eq!(dao.cycles.len(), 1);
}

#[test]
fn a_cycle_request_without_interval_or_cron_is_refused() {
    let mut dao = BatchCycleDao::new();
    let r = dao.create_or_update(
        OWNER.to_string(),
        "p".to_string(),
        None,
        None,
        None,
        HOUR_MS,
        &CronNext::NoUpcoming,
        None,
        NOW,
    );
    assert!(matches!(r, Err(DbError::Query(m)) if m == "Either interval or cron must be provided"));
    assert_eq!(dao.cycles.len(), 0);
}

#[test]
fn a_cycle_request_prefers_the_interval_and_reads_the_cron_schedule() {
    let mut dao = BatchCycleDao::new();
    let by_interval = dao
        .create_or_update(
            OWNER.to_string(),
            "p".to_string(),
            Some(2 * HOUR_MS),
            Some("0 0 * * * *".to_string()),
            None,
            HOUR_MS,
            &CronNext::At(NOW + 7),
            None,
            NOW,
        )
        .unwrap();
    assert_eq!(by_interval.cycle_interval, Some(2 * HOUR_MS));
    assert_eq!(by_interval.cycle_cron, None);
    assert_eq!(by_interval.cycle_next_process, NOW + 2 * HOUR_MS);
    assert_eq!(by_interval.cycle_extra_pay_time, HOUR_MS);
    let by_cron = dao
        .create_or_update(
            OWNER.to_string(),
            "q".to_string(),
            None,
            Some("0 0 * * * *".to_string()),
            Some(60_000),
            HOUR_MS,
            &CronNext::At(NOW + 30 * 60_000),
            None,
            NOW,
        )
        .unwrap();
    assert_eq!(by_cron.cycle_cron, Some("0 0 * * * *".to_string()));
    assert_eq!(by_cron.cycle_next_process, NOW + 30 * 60_000);
    assert_eq!(by_cron.cycle_extra_pay_time, 60_000);
    assert_eq!(dao.cycles.len(), 2);
    let bad = dao.create_or_update(
        OWNER.to_string(),
        "r".to_string(),
        None,
        Some("nonsense".to_string()),
        None,
        0,
        &CronNext::Invalid("bad field".to_string()),
        None,
        NOW,
    );
    assert!(matches!(bad, Err(DbError::Query(m)) if m == "Error creating batch cycle based on cron bad field"));
    assert_eq!(dao.cycles.len(), 2);
}

fn order(id: &str, created: i64) -> BatchOrderRow {
    BatchOrderRow {
        id: id.to_string(),
        owner_id: OWNER.to_string(),
        payer_addr: OWNER.to_string(),
        platform: "p".to_string(),
        total_amount: 10,
        paid_amount: 0,
        created_ts: created,
        updated_ts: created,
    }
}

fn item(order_id: &str, allocation: &str, amount: i128) -> BatchOrderItemRow {
    BatchOrderItemRow {
        order_id: order_id.to_string(),
        owner_id: OWNER.to_string(),
        payee_addr: PAYEE.to_string(),
        allocation_id: allocation.to_string(),
        amount,
        payment_id: None,
        paid: false,
    }
}

fn document(order_id: &str, allocation: &str, agreement: &str, amount: i128) -> BatchOrderItemDocumentRow {
    BatchOrderItemDocumentRow {
        order_id: order_id.to_string(),
        owner_id: OWNER.to_string(),
        payee_addr: PAYEE.to_string(),
        allocation_id: allocation.to_string(),
        agreement_id: agreement.to_string(),
        invoice_id: Some("inv".to_string()),
        activity_id: None,
        debit_note_id: None,
        amount,
    }
}

fn batch() -> BatchDao {
    BatchDao {
        orders: vec![order("o-1", NOW), order("o-2", NOW + 1)],
        items: vec![item("o-1", "al-1", 4), item("o-1", "al-2", 6), item("o-2", "al-1", 10)],
        documents: vec![
            document("o-1", "al-1", "a-1", 4),
            document("o-1", "al-2", "a-1", 6),
            document("o-2", "al-1", "a-2", 10),
        ],
    }
}

#[test]
fn batch_items_are_sent_then_paid() {
    let mut dao = batch();
    let deposits = vec![
        AllocationDepositRow { id: "al-1".to_string(), owner_id: OWNER.to_string(), deposit: None },
        AllocationDepositRow { id: "al-2".to_string(), owner_id: OWNER.to_string(), deposit: Some("{}".to_string()) },
    ];
    let unsent = dao.get_unsent_batch_items(&deposits, OWNER, "o-1");
    assert_eq!(unsent.len(), 2);
    assert_eq!(unsent[1].deposit.as_deref(), Some("{}"));
    assert_eq!(unsent[0].platform, "p");

    assert_eq!(dao.batch_order_item_send("o-1", OWNER, PAYEE, "al-1", "pay-1".to_string()), 1);
    assert_eq!(dao.get_unsent_batch_items(&deposits, OWNER, "o-1").len(), 1);
    assert_eq!(dao.get_batch_order_items_by_payment_id("pay-1", OWNER).len(), 1);
    assert_eq!(dao.get_batch_orders(&vec!["pay-1".to_string()]).len(), 1);

    assert!(matches!(dao.batch_order_item_paid("o-1", OWNER, PAYEE, "al-1", NOW + 9), Ok(true)));
    assert_eq!(dao.orders[0].paid_amount, 4);
    assert_eq!(dao.orders[0].updated_ts, NOW + 9);
    assert!(matches!(dao.batch_order_item_paid("o-1", OWNER, PAYEE, "al-1", NOW + 10), Ok(false)));
    assert_eq!(dao.orders[0].paid_amount, 4);
    assert!(dao.batch_order_item_paid("o-9", OWNER, PAYEE, "al-1", NOW).is_err());
}

#[test]
fn more_than_two_unpaid_items_of_one_key_are_refused() {
    let mut dao = batch();
    dao.items.push(item("o-1", "al-1", 1));
    dao.items.push(item("o-1", "al-1", 1));
    match dao.batch_order_item_paid("o-1", OWNER, PAYEE, "al-1", NOW) {
        Err(DbError::Integrity(m)) => assert_eq!(m, "More than 1 rows updated"),
        _ => panic!("the payment must be refused"),
    }
    assert!(dao.items.iter().all(|i| !i.paid));
}

#[test]
fn batch_orders_of_a_node_are_newest_first() {
    let dao = batch();
    let r = dao.get_for_node_id(OWNER, None, None);
    assert_eq!(r[0].id, "o-2");
    assert_eq!(r[1].id, "o-1");
    assert_eq!(dao.get_for_node_id(OWNER, Some(NOW), Some(5)).len(), 1);
    assert!(dao.get_batch_order("o-1", OWNER).is_some());
    assert!(dao.get_batch_order("o-1", PAYEE).is_none());
    assert_eq!(dao.get_batch_order_items("o-1", OWNER).len(), 2);
}

#[test]
fn batch_item_documents_are_filtered_and_newest_order_first() {
    let dao = batch();
    let all = dao.get_batch_items(
        OWNER,
        &BatchItemFilter {
            order_id: None,
            payee_addr: None,
            allocation_id: None,
            agreement_id: None,
            activity_id: None,
            payment_id: None,
        },
    );
    assert_eq!(all.len(), 3);
    assert_eq!(all[0].order_id, "o-2");
    let a1 = dao.get_batch_items(
        OWNER,
        &BatchItemFilter {
            order_id: None,
            payee_addr: None,
            allocation_id: None,
            agreement_id: Some("a-1".to_string()),
            activity_id: None,
            payment_id: None,
        },
    );
    assert_eq!(a1.len(), 2);
    assert!(a1.iter().all(|x| x.created_ts == NOW));
}

#[test]
fn sync_notifications_are_tracked_once_per_peer() {
    let mut dao = SyncNotifsDao::new();
    dao.upsert(PAYEE, NOW).unwrap();
    dao.increment_retry(PAYEE, NOW + 1).unwrap();
    assert_eq!(dao.list()[0].retries, 1);
    dao.upsert(PAYEE, NOW + 2).unwrap();
    let l = dao.list();
    assert_eq!(l.len(), 1);
    assert_eq!(l[0].retries, 0);
    assert_eq!(l[0].last_ping, NOW + 2);
    assert!(dao.increment_retry(OWNER, NOW).is_err());
    dao.drop(PAYEE).unwrap();
    assert!(dao.list().is_empty());
}

fn allocation(id: &str, total: i128, updated: i64) -> ya_payment::dao::allocation::AllocationRow {
    let mut row = create(
        &NewAllocation { address: None, total_amount: total, timeout: Some(NOW + HOUR_MS), deposit: None, make_deposit: false },
        id.to_string(),
        &OWNER.to_string(),
        &"p".to_string(),
        &OWNER.to_string(),
        updated,
    );
    row.updated_ts = updated;
    row
}

#[test]
fn allocations_are_spent_read_and_released_through_the_store() {
    let mut dao = AllocationDao {
        allocations: vec![allocation("al-1", 100, NOW + 1), allocation("al-2", 50, NOW)],
        expenditures: vec![],
    };
    dao.spend_from_allocation_transaction(&SpendFromAllocationArgs {
        owner_id: OWNER.to_string(),
        allocation_id: "al-1".to_string(),
        agreement_id: "a-1".to_string(),
        activity_id: None,
        amount: 30,
    })
    .unwrap();
    assert_eq!(dao.get_expenditures(OWNER, "al-1").len(), 1);
    match dao.get(&"al-1".to_string(), &OWNER.to_string()) {
        AllocationStatus::Active(a) => {
            assert_eq!(a.spent_amount, 30);
            assert_eq!(a.remaining_amount, 70);
        }
        _ => panic!("allocation not active"),
    }
    assert_eq!(dao.total_remaining_allocation("p", OWNER, NOW), 120);
    let listed = dao.get_for_owner(OWNER.to_string(), None, None, Some(false));
    assert_eq!(listed[0].allocation_id, "al-2");
    assert_eq!(listed[1].allocation_id, "al-1");
    assert_eq!(dao.get_many(&vec!["al-2".to_string()], OWNER).len(), 1);

    match dao.release(&"al-2".to_string(), &OWNER.to_string()) {
        Ok(AllocationReleaseStatus::Released { platform, .. }) => assert_eq!(platform, "p"),
        _ => panic!("allocation not released"),
    }
    assert!(matches!(dao.release(&"al-2".to_string(), &OWNER.to_string()), Ok(AllocationReleaseStatus::Gone)));
    assert!(matches!(dao.get(&"al-2".to_string(), &OWNER.to_string()), AllocationStatus::NotFound));
    assert_eq!(dao.total_remaining_allocation("p", OWNER, NOW), 70);
    assert!(dao.get_allocations_to_close(OWNER, "p").is_empty());
}

#[test]
fn amend_through_the_store_keeps_the_spend() {
    let mut dao = AllocationDao { allocations: vec![allocation("al-1", 100, NOW)], expenditures: vec![] };
    let stale: Allocation = match dao.get(&"al-1".to_string(), &OWNER.to_string()) {
        AllocationStatus::Active(a) => a,
        _ => panic!("allocation not active"),
    };
    dao.spend_from_allocation_transaction(&SpendFromAllocationArgs {
        owner_id: OWNER.to_string(),
        allocation_id: "al-1".to_string(),
        agreement_id: "a-1".to_string(),
        activity_id: None,
        amount: 40,
    })
    .unwrap();
    let amended = Allocation { total_amount: 150, ..stale };
    assert!(matches!(dao.replace(&amended, &OWNER.to_string()), Ok(true)));
    assert_eq!(dao.allocations[0].spent_amount, 40);
    assert_eq!(dao.allocations[0].avail_amount, 110);
    let missing = Allocation { allocation_id: "al-9".to_string(), ..amended };
    assert!(matches!(dao.replace(&missing, &OWNER.to_string()), Ok(false)));
}

#[test]
fn orders_are_read_with_the_documents_they_pay() {
    let ledger = Ledger::new();
    let dao = OrderDao {
        orders: vec![OrderRow {
            id: "o-1".to_string(),
            driver: "erc20".to_string(),
            amount: 5,
            payee_id: PAYEE.to_string(),
            payer_id: OWNER.to_string(),
            payee_addr: PAYEE.to_string(),
            payer_addr: OWNER.to_string(),
            payment_platform: "p".to_string(),
            invoice_id: Some("inv-1".to_string()),
            debit_note_id: None,
            allocation_id: "al-1".to_string(),
            is_paid: false,
        }],
    };
    let r = dao.get_many(&ledger, &vec!["o-1".to_string()], "erc20");
    assert_eq!(r.len(), 1);
    assert_eq!(r[0].agreement_id, None);
    assert!(dao.get_many(&ledger, &vec!["o-1".to_string()], "other").is_empty());
}

#[test]
fn allocation_dao_creates_once_and_closes_deposits_in_order() {
    let mut dao = AllocationDao { allocations: vec![], expenditures: vec![] };
    let new = NewAllocation {
        address: None,
        total_amount: 50,
        timeout: None,
        deposit: Some(Deposit { id: "0x01".to_string(), contract: "0x02".to_string(), validate: None }),
        make_deposit: false,
    };
    let owner = OWNER.to_string();
    let platform = "erc20-holesky-tglm".to_string();
    let id = dao.create_with(&new, "al-1".to_string(), &owner, &platform, &owner, NOW).unwrap();
    assert_eq!(id, "al-1");
    assert_eq!(dao.allocations[0].avail_amount, 50);
    assert_eq!(dao.allocations[0].deposit_status.as_deref(), Some("open"));
    match dao.create_with(&new, "al-1".to_string(), &owner, &platform, &owner, NOW) {
        Err(DbError::Query(m)) => assert!(m.starts_with("UNIQUE constraint failed")),
        _ => panic!("a second allocation under the same id must be refused"),
    }
    let fresh = dao.create(&new, &owner, &platform, &owner).unwrap();
    assert_eq!(dao.allocations.len(), 2);
    assert_eq!(dao.allocations[1].id, fresh);

    // Not released yet: nothing to close.
    assert!(!dao.mark_allocation_closing(&"al-1".to_string(), &owner).unwrap());
    dao.allocations[0].released = true;
    assert!(!dao.mark_allocation_closed(&"al-1".to_string(), &owner).unwrap());
    assert!(dao.mark_allocation_closing(&"al-1".to_string(), &owner).unwrap());
    assert_eq!(dao.allocations[0].deposit_status.as_deref(), Some("closing"));
    assert!(dao.mark_allocation_closed(&"al-1".to_string(), &owner).unwrap());
    assert_eq!(dao.allocations[0].deposit_status.as_deref(), Some("closed"));
    assert!(!dao.mark_allocation_closing(&"al-9".to_string(), &owner).unwrap());
}

fn problem_type(r: &AllocationReply) -> String {
    match r {
        AllocationReply::Problem(p) => p.problem_type.clone(),
        other => panic!("unexpected {:?}", other),
    }
}

#[test]
fn allocation_request_settles_platform_and_address_then_stores_when_funds_suffice() {
    let owner = OWNER.to_string();
    let body = Some("{\"totalAmount\":\"50\"}".to_string());
    let req = begin_allocation_request(&None, &None, &owner, &body, &None).unwrap();
    assert_eq!(req.platform, "erc20-holesky-tglm");
    assert_eq!(req.address, OWNER);
    assert_eq!(req.driver, "erc20");
    assert_eq!(req.network, "holesky");
    let named = begin_allocation_request(
        &Some(PaymentPlatformEnum::PaymentPlatformName("erc20-polygon-glm".to_string())),
        &Some(PAYEE.to_string()),
        &owner,
        &body,
        &None,
    )
    .unwrap();
    assert_eq!(named.platform, "erc20-polygon-glm");
    assert_eq!(named.address, PAYEE);
    let refused = begin_allocation_request(
        &Some(PaymentPlatformEnum::PaymentPlatformName("erc20-polygon".to_string())),
        &None,
        &owner,
        &body,
        &None,
    );
    match refused {
        Err(AllocationReply::Problem(p)) => {
            assert_eq!(p.problem_type, "/payment-api/v1/allocations/bad-payment-platform");
            assert_eq!(p.detail, "Payment platform doesn't parse");
            let keys: Vec<&str> = p.extensions.iter().map(|(k, _)| k.as_str()).collect();
            assert_eq!(keys, vec!["requestBody", "parseError", "requestedPaymentPlatform"]);
            assert!(matches!(&p.extensions[0].1, ExtValue::Json(j) if j == "{\"totalAmount\":\"50\"}"));
            assert!(matches!(&p.extensions[1].1, ExtValue::Text(m)
                if m == "paymentPlatform must be of the form driver-network-token instead of erc20-polygon"));
            assert!(matches!(&p.extensions[2].1, ExtValue::Text(n) if n == "erc20-polygon"));
        }
        other => panic!("unexpected {:?}", other),
    }

    let new = NewAllocation { address: None, total_amount: 50, timeout: Some(NOW + HOUR_MS), deposit: None, make_deposit: false };
    match allocation_after_account_init(&req, &Err("locked".to_string()), &new, &body) {
        AllocationRequestAction::Respond(r) => {
            assert_eq!(problem_type(&r), "/payment-api/v1/allocations/internal-error")
        }
        other => panic!("unexpected {:?}", other),
    }
    match allocation_after_account_init(&req, &Ok(()), &new, &body) {
        AllocationRequestAction::Validate(v) => {
            assert_eq!(v.platform, "erc20-holesky-tglm");
            assert_eq!(v.address, OWNER);
            assert_eq!(v.amount, 50);
            assert_eq!(v.timeout, Some(NOW + HOUR_MS));
            assert!(v.new_allocation);
        }
        other => panic!("unexpected {:?}", other),
    }

    let mut dao = AllocationDao { allocations: vec![], expenditures: vec![] };
    let refusal = ValidateAllocationResult::MalformedDepositId;
    let r = allocation_after_validation(&mut dao, &req, &new, &owner, &AllocationValidation::Answered(refusal), &body);
    assert_eq!(problem_type(&r), "/payment-api/v1/allocations/validation/malformed-deposit-id");
    let r = allocation_after_validation(&mut dao, &req, &new, &owner, &AllocationValidation::AccountNotRegistered, &body);
    assert_eq!(problem_type(&r), "/payment-api/v1/allocations/account-not-registered");
    assert!(dao.allocations.is_empty());
    let valid = AllocationValidation::Answered(ValidateAllocationResult::Valid);
    match allocation_after_validation(&mut dao, &req, &new, &owner, &valid, &body) {
        AllocationReply::Created(a) => {
            assert_eq!(a.payment_platform, "erc20-holesky-tglm");
            assert_eq!(a.address, OWNER);
            assert_eq!(a.total_amount, 50);
            assert_eq!(dao.allocations.len(), 1);
            assert_eq!(dao.allocations[0].id, a.allocation_id);
            assert_eq!(a.allocation_id.len(), 36);
            assert_eq!(a.allocation_id.as_bytes()[14], b'4');
            assert_eq!(a.allocation_id.as_bytes()[8], b'-');
        }
        other => panic!("unexpected {:?}", other),
    }
}

#[test]
fn amend_asks_to_cover_only_the_growth_and_stores_on_a_valid_answer() {
    let owner = OWNER.to_string();
    let mut dao = AllocationDao { allocations: vec![], expenditures: vec![] };
    let new = NewAllocation { address: None, total_amount: 50, timeout: None, deposit: None, make_deposit: false };
    let platform = "erc20-holesky-tglm".to_string();
    dao.create_with(&new, "al-1".to_string(), &owner, &platform, &owner, NOW).unwrap();
    let id = "al-1".to_string();
    let update = AllocationUpdate { total_amount: Some(80), timeout: None, deposit: None };
    let (amended, request) = match amend_allocation_begin(&dao, &id, &owner, update, NOW) {
        AmendStep::Validate { amended, request } => (amended, request),
        other => panic!("unexpected {:?}", other),
    };
    assert_eq!(request.amount, 30);
    assert_eq!(request.platform, platform);
    assert_eq!(request.address, OWNER);
    assert!(!request.new_allocation);
    let shrink = AllocationUpdate { total_amount: Some(40), timeout: None, deposit: None };
    match amend_allocation_begin(&dao, &id, &owner, shrink, NOW) {
        AmendStep::Validate { request, .. } => assert_eq!(request.amount, 0),
        other => panic!("unexpected {:?}", other),
    }
    let missing = AllocationUpdate { total_amount: None, timeout: None, deposit: None };
    assert!(matches!(
        amend_allocation_begin(&dao, &"al-9".to_string(), &owner, missing, NOW),
        AmendStep::Respond(AllocationReply::NotFound)
    ));

    let body = None;
    let refused = AllocationValidation::Answered(ValidateAllocationResult::MalformedDepositId);
    let r = amend_allocation_after_validation(&mut dao, &amended, &owner, &refused, &body);
    assert_eq!(problem_type(&r), "/payment-api/v1/allocations/validation/malformed-deposit-id");
    assert_eq!(dao.allocations[0].total_amount, 50);
    let valid = AllocationValidation::Answered(ValidateAllocationResult::Valid);
    match amend_allocation_after_validation(&mut dao, &amended, &owner, &valid, &body) {
        AllocationReply::Found(a) => {
            assert_eq!(a.total_amount, 80);
            assert_eq!(a.remaining_amount, 80);
        }
        other => panic!("unexpected {:?}", other),
    }
    assert_eq!(dao.allocations[0].total_amount, 80);
}
