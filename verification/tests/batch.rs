use ya_payment::dao::allocation::{AllocationDao, AllocationRow};
use ya_payment::dao::batch::{
    resolve_invoices, ActivityPaymentRow, InvoicePaymentRow, ResolveInvoiceArgs, ResolvedBatchOrder,
    ScheduledIncrease,
};
use ya_payment::dao::batch_order::BatchDao;
use ya_payment::dao::resolve::resolve_fits;
use ya_payment::dao::debit_note::{DebitNote, DebitNoteDao};
use ya_payment::dao::invoice::{Invoice, InvoiceDao};
use ya_payment::error::DbError;
use ya_payment::ledger::{ActivityRow, AgreementRow, InvoiceRow, Ledger};
use ya_payment::models::ExpenditureRow;
use ya_payment::status::{DocumentStatus, Role};

const AGREEMENT_ID: &str = "agreement-1";
const ALLOCATION_ID: &str = "allocation-1";
const INVOICE_ID: &str = "invoice-1";
const ACTIVITY_ID: &str = "activity-1";
const PLATFORM: &str = "erc20-test-tglm";
const REQUESTOR: &str = "0x1000000000000000000000000000000000000000";
const PROVIDER: &str = "0x2000000000000000000000000000000000000000";
const DAY_MS: i64 = 86_400_000;
const NOW: i64 = 1_700_000_000_000;

fn glm(n: i128) -> i128 {
    n * 1_000_000_000_000_000_000
}

fn args() -> ResolveInvoiceArgs {
    ResolveInvoiceArgs {
        owner_id: REQUESTOR.to_string(),
        payer_addr: REQUESTOR.to_string(),
        platform: PLATFORM.to_string(),
        since: NOW - 30 * DAY_MS,
    }
}

fn expenditure(activity_id: Option<&str>, accepted: i128) -> ExpenditureRow {
    ExpenditureRow {
        owner_id: REQUESTOR.to_string(),
        allocation_id: ALLOCATION_ID.to_string(),
        agreement_id: AGREEMENT_ID.to_string(),
        activity_id: activity_id.map(|a| a.to_string()),
        accepted_amount: accepted,
        scheduled_amount: 0,
    }
}

/// The accepted invoice of the agreement, read with the agreement's totals.
fn invoice_row(timestamp: i64, accepted: i128) -> InvoicePaymentRow {
    InvoicePaymentRow {
        invoice_id: INVOICE_ID.to_string(),
        owner_id: REQUESTOR.to_string(),
        role: Role::Requestor,
        status: DocumentStatus::Accepted,
        timestamp,
        agreement_id: AGREEMENT_ID.to_string(),
        peer_id: PROVIDER.to_string(),
        payee_addr: PROVIDER.to_string(),
        payer_addr: REQUESTOR.to_string(),
        payment_platform: PLATFORM.to_string(),
        total_amount_accepted: accepted,
        total_amount_scheduled: 0,
    }
}

fn activity_row(agreement_updated_ts: i64, accepted: i128) -> ActivityPaymentRow {
    ActivityPaymentRow {
        id: ACTIVITY_ID.to_string(),
        owner_id: REQUESTOR.to_string(),
        role: Role::Requestor,
        agreement_id: AGREEMENT_ID.to_string(),
        peer_id: PROVIDER.to_string(),
        payee_addr: PROVIDER.to_string(),
        payment_platform: PLATFORM.to_string(),
        agreement_updated_ts,
        total_amount_accepted: accepted,
        total_amount_scheduled: 0,
        debit_note_id: None,
    }
}

fn resolve(
    activities: Vec<ActivityPaymentRow>,
    invoices: Vec<InvoicePaymentRow>,
    expenditures: Vec<ExpenditureRow>,
) -> Option<ResolvedBatchOrder> {
    resolve_invoices(&args(), &activities, &invoices, &expenditures, "order-1".to_string())
        .unwrap()
}

fn agreement(accepted: i128) -> AgreementRow {
    AgreementRow {
        id: AGREEMENT_ID.to_string(),
        owner_id: REQUESTOR.to_string(),
        role: Role::Requestor,
        peer_id: PROVIDER.to_string(),
        payee_addr: PROVIDER.to_string(),
        payer_addr: REQUESTOR.to_string(),
        payment_platform: PLATFORM.to_string(),
        total_amount_due: accepted,
        total_amount_accepted: accepted,
        total_amount_scheduled: 0,
        total_amount_paid: 0,
        created_ts: NOW,
        updated_ts: NOW,
        app_session_id: None,
    }
}

fn received_invoice(amount: i128) -> Invoice {
    Invoice {
        invoice_id: INVOICE_ID.to_string(),
        issuer_id: PROVIDER.to_string(),
        recipient_id: REQUESTOR.to_string(),
        payee_addr: PROVIDER.to_string(),
        payer_addr: REQUESTOR.to_string(),
        payment_platform: PLATFORM.to_string(),
        timestamp: NOW,
        agreement_id: AGREEMENT_ID.to_string(),
        activity_ids: vec![],
        amount,
        payment_due_date: NOW + DAY_MS,
        status: DocumentStatus::Received,
    }
}

/// The stores a resolution reads and writes.
struct Stores {
    batch: BatchDao,
    ledger: Ledger,
    allocations: AllocationDao,
}

fn stores() -> Stores {
    Stores {
        batch: BatchDao::new(),
        ledger: Ledger::new(),
        allocations: AllocationDao { allocations: vec![], expenditures: vec![] },
    }
}

fn insert_agreement(s: &mut Stores, accepted: i128, updated_ts: i64) {
    let mut a = agreement(accepted);
    a.created_ts = updated_ts;
    a.updated_ts = updated_ts;
    s.ledger.agreements.push(a);
}

fn insert_allocation_and_expenditure(
    s: &mut Stores,
    updated_ts: i64,
    activity_id: Option<&str>,
    accepted: i128,
) {
    s.allocations.allocations.push(AllocationRow {
        id: ALLOCATION_ID.to_string(),
        owner_id: REQUESTOR.to_string(),
        payment_platform: PLATFORM.to_string(),
        address: REQUESTOR.to_string(),
        total_amount: accepted,
        spent_amount: accepted,
        avail_amount: 0,
        created_ts: updated_ts,
        updated_ts,
        timeout: Some(updated_ts + 365 * DAY_MS),
        make_deposit: false,
        deposit: None,
        deposit_status: None,
        released: false,
    });
    s.allocations.expenditures.push(expenditure(activity_id, accepted));
}

fn insert_invoice(s: &mut Stores, timestamp: i64, amount: i128) {
    s.ledger.invoices.push(InvoiceRow {
        id: INVOICE_ID.to_string(),
        owner_id: REQUESTOR.to_string(),
        role: Role::Requestor,
        agreement_id: AGREEMENT_ID.to_string(),
        status: DocumentStatus::Accepted,
        timestamp,
        amount,
        payment_due_date: timestamp + DAY_MS,
        send_accept: false,
        send_reject: false,
    });
}

fn insert_activity(s: &mut Stores, accepted: i128) {
    s.ledger.activities.push(ActivityRow {
        id: ACTIVITY_ID.to_string(),
        owner_id: REQUESTOR.to_string(),
        role: Role::Requestor,
        agreement_id: AGREEMENT_ID.to_string(),
        total_amount_due: accepted,
        total_amount_accepted: accepted,
        total_amount_scheduled: 0,
        total_amount_paid: 0,
        created_ts: NOW,
        updated_ts: NOW,
    });
}

fn resolve_stores(s: &mut Stores) -> Option<String> {
    s.batch
        .resolve_with(&mut s.ledger, &mut s.allocations, &args(), "order-1".to_string(), NOW)
        .unwrap()
}

/// The scheduled amounts of the agreement and of its expenditure.
fn scheduled_amounts(s: &Stores) -> (i128, i128) {
    (s.ledger.agreements[0].total_amount_scheduled, s.allocations.expenditures[0].scheduled_amount)
}

#[test]
fn fresh_invoice_uses_allocation_older_than_resolver_window() {
    let mut s = stores();
    insert_agreement(&mut s, glm(10), NOW);
    insert_allocation_and_expenditure(&mut s, NOW - 31 * DAY_MS, None, glm(10));
    insert_invoice(&mut s, NOW, glm(10));

    let order_id = resolve_stores(&mut s).expect("fresh invoice should produce a batch order");
    let order = s.batch.get_batch_order(&order_id, REQUESTOR).unwrap();
    let items = s.batch.get_batch_order_items(&order_id, REQUESTOR);

    assert_eq!(order.total_amount, glm(10));
    assert_eq!(items.len(), 1);
    assert_eq!(items[0].allocation_id, ALLOCATION_ID);
    assert_eq!(items[0].amount, glm(10));
    let (agreement_scheduled, expenditure_scheduled) = scheduled_amounts(&s);
    assert_eq!(agreement_scheduled, glm(10));
    assert_eq!(expenditure_scheduled, glm(10));
}

#[test]
fn invoice_older_than_resolver_window_is_not_scheduled() {
    let mut s = stores();
    insert_agreement(&mut s, glm(10), NOW);
    insert_allocation_and_expenditure(&mut s, NOW, None, glm(10));
    insert_invoice(&mut s, NOW - 31 * DAY_MS, glm(10));

    let order_id = resolve_stores(&mut s);

    assert!(order_id.is_none());
    let (agreement_scheduled, expenditure_scheduled) = scheduled_amounts(&s);
    assert_eq!(agreement_scheduled, 0);
    assert_eq!(expenditure_scheduled, 0);
}

#[test]
fn activity_with_nothing_left_to_schedule_is_skipped() {
    let mut s = stores();
    insert_agreement(&mut s, glm(10), NOW);
    insert_activity(&mut s, 0);
    insert_allocation_and_expenditure(&mut s, NOW, Some(ACTIVITY_ID), glm(10));

    let order_id = resolve_stores(&mut s);

    assert!(order_id.is_none());
    let (agreement_scheduled, expenditure_scheduled) = scheduled_amounts(&s);
    assert_eq!(agreement_scheduled, 0);
    assert_eq!(expenditure_scheduled, 0);
}

#[test]
fn activity_on_agreement_older_than_resolver_window_is_not_scheduled() {
    let mut s = stores();
    insert_agreement(&mut s, glm(10), NOW - 31 * DAY_MS);
    insert_activity(&mut s, glm(10));
    insert_allocation_and_expenditure(&mut s, NOW, Some(ACTIVITY_ID), glm(10));

    let order_id = resolve_stores(&mut s);

    assert!(order_id.is_none());
    let (agreement_scheduled, expenditure_scheduled) = scheduled_amounts(&s);
    assert_eq!(agreement_scheduled, 0);
    assert_eq!(expenditure_scheduled, 0);
}

#[test]
fn only_the_amount_covered_by_an_expenditure_is_scheduled() {
    let mut s = stores();
    insert_agreement(&mut s, glm(10), NOW);
    insert_allocation_and_expenditure(&mut s, NOW, None, glm(4));
    insert_invoice(&mut s, NOW, glm(10));

    let order_id =
        resolve_stores(&mut s).expect("covered invoice amount should produce a batch order");
    let order = s.batch.get_batch_order(&order_id, REQUESTOR).unwrap();
    let items = s.batch.get_batch_order_items(&order_id, REQUESTOR);

    assert_eq!(order.total_amount, glm(4));
    assert_eq!(items.len(), 1);
    assert_eq!(items[0].amount, glm(4));
    let (agreement_scheduled, expenditure_scheduled) = scheduled_amounts(&s);
    assert_eq!(agreement_scheduled, glm(4));
    assert_eq!(expenditure_scheduled, glm(4));
}

#[test]
fn zero_amount_invoice_is_accepted_and_settled_without_a_batch_order() {
    let mut s = stores();
    insert_agreement(&mut s, 0, NOW);
    insert_allocation_and_expenditure(&mut s, NOW, None, 0);
    InvoiceDao::insert_received(&mut s.ledger, received_invoice(0))
        .expect("zero-amount invoice must be accepted on receipt");
    InvoiceDao::accept(&mut s.ledger, INVOICE_ID, REQUESTOR).expect("zero-amount invoice must be acceptable");

    assert!(matches!(s.ledger.invoices[0].status, DocumentStatus::Settled));

    let order_id = resolve_stores(&mut s);
    assert!(order_id.is_none(), "nothing to pay for a zero invoice");
}

#[test]
fn negative_amount_invoice_is_rejected_on_receipt() {
    let mut ledger = Ledger::new();
    ledger.agreements.push(agreement(0));
    let err = InvoiceDao::insert_received(&mut ledger, received_invoice(glm(-5)))
        .expect_err("negative invoice must be rejected");
    assert!(
        matches!(&err, DbError::Query(msg) if msg.contains("cannot be negative")),
        "expected a bad-request-mapped rejection, got: {}",
        err.message()
    );
    assert!(ledger.invoices.is_empty());
}

#[test]
fn negative_amount_debit_note_is_rejected_on_receipt() {
    let mut ledger = Ledger::new();
    ledger.agreements.push(agreement(0));
    let debit_note = DebitNote {
        debit_note_id: "debit-note-1".to_string(),
        issuer_id: PROVIDER.to_string(),
        recipient_id: REQUESTOR.to_string(),
        payee_addr: PROVIDER.to_string(),
        payer_addr: REQUESTOR.to_string(),
        payment_platform: PLATFORM.to_string(),
        previous_debit_note_id: None,
        timestamp: NOW,
        agreement_id: AGREEMENT_ID.to_string(),
        activity_id: ACTIVITY_ID.to_string(),
        total_amount_due: glm(-5),
        usage_counter_vector: None,
        payment_due_date: Some(NOW + DAY_MS),
        status: DocumentStatus::Received,
    };
    let err = DebitNoteDao::insert_received(&mut ledger, debit_note)
        .expect_err("negative debit note must be rejected");
    assert!(
        matches!(&err, DbError::Query(msg) if msg.contains("cannot be negative")),
        "expected a bad-request-mapped rejection, got: {}",
        err.message()
    );
}

#[test]
fn negative_amount_invoice_cannot_be_accepted() {
    let mut s = stores();
    insert_agreement(&mut s, 0, NOW);
    insert_allocation_and_expenditure(&mut s, NOW, None, 0);
    insert_invoice(&mut s, NOW, glm(-5));

    let order_id = resolve_stores(&mut s);
    assert!(order_id.is_none(), "negative invoice must not be paid");
    let (agreement_scheduled, expenditure_scheduled) = scheduled_amounts(&s);
    assert_eq!(agreement_scheduled, 0);
    assert_eq!(expenditure_scheduled, 0);
}

#[test]
fn activities_are_paid_before_invoices_from_the_same_allocation() {
    let order = resolve(
        vec![activity_row(NOW, glm(3))],
        vec![invoice_row(NOW, glm(5))],
        vec![expenditure(Some(ACTIVITY_ID), glm(3)), expenditure(None, glm(5))],
    )
    .expect("both obligations are covered");
    assert_eq!(order.total_amount, glm(8));
    assert_eq!(order.items.len(), 1);
    assert_eq!(order.items[0].payee_addr, PROVIDER);
    assert_eq!(order.items[0].amount, glm(8));
    assert_eq!(order.items[0].obligations.len(), 2);
    assert_eq!(order.scheduled.len(), 2);
    assert!(matches!(&order.scheduled[0], ScheduledIncrease::Activity { amount, .. } if *amount == glm(3)));
    assert!(matches!(&order.scheduled[1], ScheduledIncrease::Agreement { amount, .. } if *amount == glm(5)));
}

#[test]
fn unparsable_payee_address_is_an_error() {
    let mut row = invoice_row(NOW, glm(1));
    row.payee_addr = "not-a-node-id".to_string();
    let r = resolve_invoices(&args(), &vec![], &vec![row], &vec![expenditure(None, glm(1))], "o".to_string());
    assert!(r.is_err());
}

#[test]
fn resolving_stores_order_items_documents_and_scheduled_amounts() {
    let mut s = stores();
    insert_agreement(&mut s, glm(5), NOW);
    insert_activity(&mut s, glm(3));
    insert_invoice(&mut s, NOW, glm(5));
    insert_allocation_and_expenditure(&mut s, NOW, Some(ACTIVITY_ID), glm(3));
    s.allocations.expenditures.push(expenditure(None, glm(5)));

    let order_id = resolve_stores(&mut s).expect("both debts are covered");
    assert_eq!(order_id, "order-1");
    let order = s.batch.get_batch_order(&order_id, REQUESTOR).unwrap();
    assert_eq!(order.total_amount, glm(8));
    assert_eq!(order.paid_amount, 0);
    assert_eq!(order.created_ts, NOW);
    let items = s.batch.get_batch_order_items(&order_id, REQUESTOR);
    assert_eq!(items.len(), 1);
    assert_eq!(items[0].amount, glm(8));
    assert!(!items[0].paid);
    assert_eq!(s.batch.documents.len(), 2);
    assert_eq!(s.batch.documents[0].activity_id.as_deref(), Some(ACTIVITY_ID));
    assert_eq!(s.batch.documents[0].amount, glm(3));
    assert_eq!(s.batch.documents[1].invoice_id.as_deref(), Some(INVOICE_ID));
    assert_eq!(s.batch.documents[1].amount, glm(5));
    // The activity's raise also raises its agreement.
    assert_eq!(s.ledger.activities[0].total_amount_scheduled, glm(3));
    assert_eq!(s.ledger.agreements[0].total_amount_scheduled, glm(8));
    assert_eq!(s.allocations.expenditures[0].scheduled_amount, glm(3));
    assert_eq!(s.allocations.expenditures[1].scheduled_amount, glm(5));

    // Everything owed is scheduled now: a second resolution orders nothing.
    let again = s
        .batch
        .resolve_with(&mut s.ledger, &mut s.allocations, &args(), "order-2".to_string(), NOW)
        .unwrap();
    assert!(again.is_none());
}

#[test]
fn expenditures_on_other_platforms_are_not_used() {
    let mut s = stores();
    insert_agreement(&mut s, glm(10), NOW);
    insert_allocation_and_expenditure(&mut s, NOW, None, glm(10));
    s.allocations.allocations[0].payment_platform = "erc20-polygon-glm".to_string();
    insert_invoice(&mut s, NOW, glm(10));

    assert!(resolve_stores(&mut s).is_none());
    assert_eq!(scheduled_amounts(&s), (0, 0));
    assert!(s.batch.orders.is_empty());
}

#[test]
fn resolve_fits_small_stores_and_not_huge_amounts() {
    let mut s = stores();
    insert_agreement(&mut s, glm(10), NOW);
    insert_allocation_and_expenditure(&mut s, NOW, None, glm(10));
    insert_invoice(&mut s, NOW, glm(10));
    assert!(resolve_fits(&s.ledger, &s.allocations));
    s.ledger.agreements[0].total_amount_accepted = i128::MAX;
    assert!(!resolve_fits(&s.ledger, &s.allocations));
}

#[test]
fn resolve_under_a_fresh_id_stores_the_order() {
    let mut s = stores();
    insert_agreement(&mut s, glm(10), NOW);
    insert_allocation_and_expenditure(&mut s, NOW, None, glm(10));
    insert_invoice(&mut s, NOW, glm(10));
    let order_id = s
        .batch
        .resolve(
            &mut s.ledger,
            &mut s.allocations,
            REQUESTOR.to_string(),
            REQUESTOR.to_string(),
            PLATFORM.to_string(),
            NOW - 30 * DAY_MS,
        )
        .unwrap()
        .expect("the invoice is covered");
    assert_eq!(order_id.len(), 36);
    let order = s.batch.get_batch_order(&order_id, REQUESTOR).unwrap();
    assert_eq!(order.total_amount, glm(10));
    assert!(order.created_ts >= NOW);
}

#[test]
fn payee_addresses_are_paid_in_canonical_form() {
    let mut row = invoice_row(NOW, glm(2));
    row.payee_addr = "0x2000000000000000000000000000000000ABCDEF".to_string();
    let order = resolve_invoices(
        &args(),
        &vec![],
        &vec![row],
        &vec![expenditure(None, glm(2))],
        "order-1".to_string(),
    )
    .unwrap()
    .expect("the invoice is covered");
    assert_eq!(order.items[0].payee_addr, "0x2000000000000000000000000000000000abcdef");
}

#[test]
fn an_activity_is_never_scheduled_beyond_what_was_accepted() {
    let mut s = stores();
    insert_agreement(&mut s, glm(3), NOW);
    insert_activity(&mut s, glm(3));
    // The expenditure could pay far more than the activity owes.
    insert_allocation_and_expenditure(&mut s, NOW, Some(ACTIVITY_ID), glm(10));
    resolve_stores(&mut s).expect("the activity is covered");
    assert_eq!(s.ledger.activities[0].total_amount_scheduled, glm(3));
    assert_eq!(s.allocations.expenditures[0].scheduled_amount, glm(3));
}
