use ya_payment::dao::activity::ActivityDao;
use ya_payment::dao::agreement::{AgreementDao, IncreaseAmountPaidError};
use ya_payment::dao::debit_note::{DebitNoteDao, NewDebitNote};
use ya_payment::dao::debit_note_query::get_paid_amount_per_activity;
use ya_payment::dao::invoice::{Invoice, InvoiceDao, NewInvoice};
use ya_payment::dao::payment::{ActivityPayment, AgreementPayment, PaymentDao, ReceivedPayment};
use ya_payment::ledger::{AgreementRow, InvoiceRow, Ledger};
use ya_payment::status::{DocumentStatus, Role};

const REQUESTOR: &str = "0x1000000000000000000000000000000000000000";
const PROVIDER: &str = "0x2000000000000000000000000000000000000000";
const PLATFORM: &str = "erc20-holesky-tglm";
const DAY_MS: i64 = 86_400_000;
const NOW: i64 = 1_700_000_000_000;

fn agreement(id: &str, owner: &str, role: Role, created_ts: i64) -> AgreementRow {
    AgreementRow {
        id: id.to_string(),
        owner_id: owner.to_string(),
        role,
        peer_id: if owner == REQUESTOR { PROVIDER } else { REQUESTOR }.to_string(),
        payee_addr: PROVIDER.to_string(),
        payer_addr: REQUESTOR.to_string(),
        payment_platform: PLATFORM.to_string(),
        total_amount_due: 0,
        total_amount_accepted: 0,
        total_amount_scheduled: 0,
        total_amount_paid: 0,
        created_ts,
        updated_ts: created_ts,
        app_session_id: None,
    }
}

fn received(id: &str, agreement_id: &str, amount: i128, timestamp: i64) -> Invoice {
    Invoice {
        invoice_id: id.to_string(),
        issuer_id: PROVIDER.to_string(),
        recipient_id: REQUESTOR.to_string(),
        payee_addr: PROVIDER.to_string(),
        payer_addr: REQUESTOR.to_string(),
        payment_platform: PLATFORM.to_string(),
        timestamp,
        agreement_id: agreement_id.to_string(),
        activity_ids: vec!["activity-1".to_string()],
        amount,
        payment_due_date: timestamp + DAY_MS,
        status: DocumentStatus::Received,
    }
}

#[test]
fn agreement_is_created_once() {
    let mut ledger = Ledger::new();
    AgreementDao::create_if_not_exists(&mut ledger, agreement("a-1", REQUESTOR, Role::Requestor, NOW)).unwrap();
    let mut again = agreement("a-1", REQUESTOR, Role::Requestor, NOW);
    again.total_amount_due = 77;
    AgreementDao::create_if_not_exists(&mut ledger, again).unwrap();
    assert_eq!(ledger.agreements.len(), 1);
    assert_eq!(AgreementDao::get(&ledger, "a-1", REQUESTOR).unwrap().total_amount_due, 0);
    assert!(AgreementDao::get(&ledger, "a-1", PROVIDER).is_none());
}

#[test]
fn activity_is_created_with_zero_totals_and_read_with_its_agreement() {
    let mut ledger = Ledger::new();
    AgreementDao::create_if_not_exists(&mut ledger, agreement("a-1", REQUESTOR, Role::Requestor, NOW)).unwrap();
    ActivityDao::create_if_not_exists(
        &mut ledger,
        "act-1".to_string(),
        REQUESTOR.to_string(),
        Role::Requestor,
        "a-1".to_string(),
        NOW,
    )
    .unwrap();
    let read = ActivityDao::get(&ledger, "act-1", REQUESTOR).expect("activity read");
    assert_eq!(read.activity.total_amount_due, 0);
    assert_eq!(read.activity.total_amount_paid, 0);
    assert_eq!(read.peer_id, PROVIDER);
    assert_eq!(read.payee_addr, PROVIDER);
    assert!(ActivityDao::get(&ledger, "act-2", REQUESTOR).is_none());
}

#[test]
fn agreements_of_a_node_are_listed_oldest_first_and_limited() {
    let mut ledger = Ledger::new();
    AgreementDao::create_if_not_exists(&mut ledger, agreement("late", REQUESTOR, Role::Requestor, NOW + 2)).unwrap();
    AgreementDao::create_if_not_exists(&mut ledger, agreement("early", REQUESTOR, Role::Requestor, NOW)).unwrap();
    AgreementDao::create_if_not_exists(&mut ledger, agreement("other", PROVIDER, Role::Provider, NOW + 1)).unwrap();
    AgreementDao::create_if_not_exists(&mut ledger, agreement("middle", REQUESTOR, Role::Requestor, NOW + 1)).unwrap();
    let all = AgreementDao::get_for_node_id(&ledger, REQUESTOR, None, None);
    let ids: Vec<&str> = all.iter().map(|a| a.id.as_str()).collect();
    assert_eq!(ids, vec!["early", "middle", "late"]);
    let two = AgreementDao::get_for_node_id(&ledger, REQUESTOR, Some(NOW), Some(1));
    assert_eq!(two.len(), 1);
    assert_eq!(two[0].id, "middle");
}

#[test]
fn transaction_balance_sums_paid_amounts_between_addresses() {
    let mut ledger = Ledger::new();
    let mut a = agreement("a-1", REQUESTOR, Role::Requestor, NOW);
    a.total_amount_paid = 5;
    let mut b = agreement("a-2", REQUESTOR, Role::Requestor, NOW);
    b.total_amount_paid = 7;
    let mut c = agreement("a-3", REQUESTOR, Role::Requestor, NOW);
    c.total_amount_paid = 100;
    c.payee_addr = "0x3000000000000000000000000000000000000000".to_string();
    AgreementDao::create_if_not_exists(&mut ledger, a).unwrap();
    AgreementDao::create_if_not_exists(&mut ledger, b).unwrap();
    AgreementDao::create_if_not_exists(&mut ledger, c).unwrap();
    assert_eq!(AgreementDao::get_transaction_balance(&ledger, REQUESTOR, PROVIDER, REQUESTOR), 12);
}

#[test]
fn transaction_summaries_take_agreements_invoiced_after_the_time() {
    let mut ledger = Ledger::new();
    AgreementDao::create_if_not_exists(&mut ledger, agreement("a-1", REQUESTOR, Role::Requestor, NOW)).unwrap();
    AgreementDao::create_if_not_exists(&mut ledger, agreement("a-2", REQUESTOR, Role::Requestor, NOW)).unwrap();
    InvoiceDao::insert_received(&mut ledger, received("inv-1", "a-1", 10, NOW + 5)).unwrap();
    InvoiceDao::insert_received(&mut ledger, received("inv-2", "a-2", 10, NOW - 5)).unwrap();
    let out = AgreementDao::outgoing_transaction_summary(&ledger, PLATFORM, REQUESTOR, NOW);
    assert_eq!(out.len(), 1);
    assert_eq!(out[0].id, "a-1");
    assert!(AgreementDao::incoming_transaction_summary(&ledger, PLATFORM, PROVIDER, NOW).is_empty());
}

#[test]
fn increase_amount_paid_error_keeps_its_message() {
    let e = IncreaseAmountPaidError::new("paid too much".to_string());
    assert_eq!(e.message(), "paid too much");
}

#[test]
fn invoices_are_read_with_their_agreement_and_activities() {
    let mut ledger = Ledger::new();
    AgreementDao::create_if_not_exists(&mut ledger, agreement("a-1", REQUESTOR, Role::Requestor, NOW)).unwrap();
    InvoiceDao::insert_received(&mut ledger, received("inv-1", "a-1", 10, NOW)).unwrap();
    let read = InvoiceDao::get(&ledger, "inv-1", REQUESTOR).expect("invoice read");
    assert_eq!(read.invoice.amount, 10);
    assert_eq!(read.peer_id, PROVIDER);
    assert_eq!(read.payment_platform, PLATFORM);
    assert_eq!(read.activity_ids, vec!["activity-1".to_string()]);
    let by_agreement = InvoiceDao::get_by_agreement(&ledger, "a-1".to_string(), REQUESTOR.to_string()).expect("found");
    assert_eq!(by_agreement.invoice.id, "inv-1");
    let many = InvoiceDao::get_many(&ledger, vec!["inv-1".to_string(), "inv-9".to_string()], REQUESTOR.to_string());
    assert_eq!(many.len(), 1);
    assert!(InvoiceDao::get(&ledger, "inv-1", PROVIDER).is_none());
}

#[test]
fn invoice_without_its_agreement_is_not_read() {
    let mut ledger = Ledger::new();
    AgreementDao::create_if_not_exists(&mut ledger, agreement("a-1", REQUESTOR, Role::Requestor, NOW)).unwrap();
    InvoiceDao::insert_received(&mut ledger, received("inv-1", "a-1", 10, NOW)).unwrap();
    ledger.agreements.clear();
    assert!(InvoiceDao::get(&ledger, "inv-1", REQUESTOR).is_none());
}

#[test]
fn invoices_of_a_node_are_listed_by_time() {
    let mut ledger = Ledger::new();
    AgreementDao::create_if_not_exists(&mut ledger, agreement("a-1", REQUESTOR, Role::Requestor, NOW)).unwrap();
    InvoiceDao::insert_received(&mut ledger, received("inv-late", "a-1", 1, NOW + 10)).unwrap();
    InvoiceDao::insert_received(&mut ledger, received("inv-early", "a-1", 2, NOW + 1)).unwrap();
    let asc = InvoiceDao::get_for_node_id(&ledger, REQUESTOR.to_string(), None, None);
    assert_eq!(asc[0].invoice.id, "inv-early");
    assert_eq!(asc[1].invoice.id, "inv-late");
    let desc = InvoiceDao::list(&ledger, Some(Role::Requestor), Some(DocumentStatus::Received));
    assert_eq!(desc[0].invoice.id, "inv-late");
    let limited = InvoiceDao::get_for_node_id(&ledger, REQUESTOR.to_string(), Some(NOW + 1), Some(5));
    assert_eq!(limited.len(), 1);
    assert_eq!(limited[0].invoice.id, "inv-late");
}

#[test]
fn invoice_stats_count_and_sum_per_role_and_status() {
    let mut ledger = Ledger::new();
    AgreementDao::create_if_not_exists(&mut ledger, agreement("a-1", REQUESTOR, Role::Requestor, NOW)).unwrap();
    AgreementDao::create_if_not_exists(&mut ledger, agreement("a-2", REQUESTOR, Role::Requestor, NOW)).unwrap();
    InvoiceDao::insert_received(&mut ledger, received("inv-1", "a-1", 10, NOW + 1)).unwrap();
    InvoiceDao::insert_received(&mut ledger, received("inv-2", "a-2", 5, NOW + 2)).unwrap();
    InvoiceDao::accept(&mut ledger, "inv-2", REQUESTOR).unwrap();
    InvoiceDao::insert_received(&mut ledger, received("inv-3", "a-1", 100, NOW - 1)).unwrap();
    let stats = InvoiceDao::last_invoice_stats(&ledger, REQUESTOR, NOW);
    assert_eq!(stats.len(), 2);
    let received_stat = stats.iter().find(|s| s.status == DocumentStatus::Received).unwrap();
    assert_eq!(received_stat.total_amount, 10);
    assert_eq!(received_stat.count, 1);
    let accepted_stat = stats.iter().find(|s| s.status == DocumentStatus::Accepted).unwrap();
    assert_eq!(accepted_stat.total_amount, 5);
    assert_eq!(accepted_stat.role, Role::Requestor);
}

fn provider_ledger() -> Ledger {
    let mut ledger = Ledger::new();
    AgreementDao::create_if_not_exists(&mut ledger, agreement("a-1", PROVIDER, Role::Provider, NOW)).unwrap();
    ActivityDao::create_if_not_exists(
        &mut ledger,
        "act-1".to_string(),
        PROVIDER.to_string(),
        Role::Provider,
        "a-1".to_string(),
        NOW,
    )
    .unwrap();
    ledger
}

fn new_note(amount: i128) -> NewDebitNote {
    NewDebitNote {
        activity_id: "act-1".to_string(),
        total_amount_due: amount,
        usage_counter_vector: None,
        payment_due_date: Some(NOW + DAY_MS),
    }
}

#[test]
fn issued_debit_notes_are_dangling_until_settled() {
    let mut ledger = provider_ledger();
    DebitNoteDao::create_new_with(&mut ledger, new_note(3), &PROVIDER.to_string(), "dn-1".to_string(), NOW).unwrap();
    DebitNoteDao::create_new_with(&mut ledger, new_note(8), &PROVIDER.to_string(), "dn-2".to_string(), NOW + 1).unwrap();
    let dangling = DebitNoteDao::dangling(&ledger, PROVIDER.to_string());
    assert_eq!(dangling.len(), 2);
    assert_eq!(dangling[0].agreement_id, "a-1");
    let newest_first = DebitNoteDao::list(&ledger, Some(Role::Provider), None, Some(true));
    assert_eq!(newest_first[0].debit_note.id, "dn-2");
    assert_eq!(ledger.debit_notes[1].previous_debit_note_id.as_deref(), Some("dn-1"));
}

#[test]
fn paid_amount_per_activity_is_the_largest_amount_due() {
    let mut ledger = provider_ledger();
    DebitNoteDao::create_new_with(&mut ledger, new_note(3), &PROVIDER.to_string(), "dn-1".to_string(), NOW).unwrap();
    DebitNoteDao::create_new_with(&mut ledger, new_note(8), &PROVIDER.to_string(), "dn-2".to_string(), NOW + 1).unwrap();
    let amounts = get_paid_amount_per_activity(
        &ledger,
        &vec!["dn-1".to_string(), "dn-2".to_string()],
        PROVIDER,
    );
    assert_eq!(amounts, vec![("act-1".to_string(), 8)]);
    let none = get_paid_amount_per_activity(&ledger, &vec!["dn-9".to_string()], PROVIDER);
    assert!(none.is_empty());
}

#[test]
fn accepting_a_debit_note_raises_the_accepted_amount() {
    let mut ledger = Ledger::new();
    AgreementDao::create_if_not_exists(&mut ledger, agreement("a-1", REQUESTOR, Role::Requestor, NOW)).unwrap();
    ActivityDao::create_if_not_exists(
        &mut ledger,
        "act-1".to_string(),
        REQUESTOR.to_string(),
        Role::Requestor,
        "a-1".to_string(),
        NOW,
    )
    .unwrap();
    let note = ya_payment::dao::debit_note::DebitNote {
        debit_note_id: "dn-1".to_string(),
        issuer_id: PROVIDER.to_string(),
        recipient_id: REQUESTOR.to_string(),
        payee_addr: PROVIDER.to_string(),
        payer_addr: REQUESTOR.to_string(),
        payment_platform: PLATFORM.to_string(),
        previous_debit_note_id: None,
        timestamp: NOW,
        agreement_id: "a-1".to_string(),
        activity_id: "act-1".to_string(),
        total_amount_due: 6,
        usage_counter_vector: None,
        payment_due_date: Some(NOW + DAY_MS),
        status: DocumentStatus::Received,
    };
    DebitNoteDao::insert_received(&mut ledger, note).unwrap();
    DebitNoteDao::accept(&mut ledger, "dn-1", REQUESTOR).unwrap();
    let act = ActivityDao::get(&ledger, "act-1", REQUESTOR).unwrap();
    assert_eq!(act.activity.total_amount_accepted, 6);
    assert_eq!(AgreementDao::get(&ledger, "a-1", REQUESTOR).unwrap().total_amount_accepted, 6);
}

#[test]
fn issued_invoice_is_kept_by_its_issuer() {
    let mut ledger = Ledger::new();
    AgreementDao::create_if_not_exists(&mut ledger, agreement("a-1", PROVIDER, Role::Provider, NOW)).unwrap();
    let id = InvoiceDao::create_new_with(
        &mut ledger,
        NewInvoice {
            agreement_id: "a-1".to_string(),
            activity_ids: None,
            amount: 4,
            payment_due_date: NOW + DAY_MS,
        },
        &PROVIDER.to_string(),
        "inv-1".to_string(),
        NOW,
    )
    .unwrap();
    assert_eq!(id, "inv-1");
    let read = InvoiceDao::get(&ledger, "inv-1", PROVIDER).unwrap();
    assert_eq!(read.invoice.status, DocumentStatus::Issued);
    assert_eq!(read.invoice.role, Role::Provider);
}

#[test]
fn payment_pays_agreements_and_activities() {
    let mut ledger = Ledger::new();
    AgreementDao::create_if_not_exists(&mut ledger, agreement("a-1", REQUESTOR, Role::Requestor, NOW)).unwrap();
    AgreementDao::create_if_not_exists(&mut ledger, agreement("a-2", REQUESTOR, Role::Requestor, NOW)).unwrap();
    ActivityDao::create_if_not_exists(
        &mut ledger,
        "act-1".to_string(),
        REQUESTOR.to_string(),
        Role::Requestor,
        "a-1".to_string(),
        NOW,
    )
    .unwrap();
    let mut dao = PaymentDao::new();
    let id = dao
        .create_new_with(
            &mut ledger,
            "pay-1".to_string(),
            NOW,
            REQUESTOR.to_string(),
            PROVIDER.to_string(),
            REQUESTOR.to_string(),
            PROVIDER.to_string(),
            PLATFORM.to_string(),
            7,
            vec![1, 2, 3],
            &vec![ActivityPayment { activity_id: "act-1".to_string(), amount: 3, allocation_id: None }],
            &vec![AgreementPayment { agreement_id: "a-2".to_string(), amount: 4, allocation_id: None }],
        )
        .unwrap();
    assert_eq!(id, "pay-1");
    assert_eq!(dao.payments.len(), 1);
    assert!(dao.payments[0].send_payment);
    assert_eq!(dao.documents.len(), 2);
    assert_eq!(dao.documents[0].agreement_id, "a-1");
    assert_eq!(dao.documents[0].activity_id.as_deref(), Some("act-1"));
    assert_eq!(dao.documents[1].agreement_id, "a-2");
    assert_eq!(ActivityDao::get(&ledger, "act-1", REQUESTOR).unwrap().activity.total_amount_paid, 3);
    // The activity's agreement is paid both for the activity payment and through the activity.
    assert_eq!(AgreementDao::get(&ledger, "a-1", REQUESTOR).unwrap().total_amount_paid, 6);
    assert_eq!(AgreementDao::get(&ledger, "a-2", REQUESTOR).unwrap().total_amount_paid, 4);

    let again = dao.create_new_with(
        &mut ledger,
        "pay-1".to_string(),
        NOW,
        REQUESTOR.to_string(),
        PROVIDER.to_string(),
        REQUESTOR.to_string(),
        PROVIDER.to_string(),
        PLATFORM.to_string(),
        7,
        vec![],
        &vec![],
        &vec![],
    );
    assert!(again.is_err());
    assert_eq!(dao.payments.len(), 1);
}

#[test]
fn payment_for_an_unknown_activity_changes_nothing() {
    let mut ledger = Ledger::new();
    AgreementDao::create_if_not_exists(&mut ledger, agreement("a-1", REQUESTOR, Role::Requestor, NOW)).unwrap();
    let mut dao = PaymentDao::new();
    let r = dao.create_new_with(
        &mut ledger,
        "pay-1".to_string(),
        NOW,
        REQUESTOR.to_string(),
        PROVIDER.to_string(),
        REQUESTOR.to_string(),
        PROVIDER.to_string(),
        PLATFORM.to_string(),
        7,
        vec![],
        &vec![ActivityPayment { activity_id: "act-9".to_string(), amount: 3, allocation_id: None }],
        &vec![AgreementPayment { agreement_id: "a-1".to_string(), amount: 4, allocation_id: None }],
    );
    assert!(r.is_err());
    assert!(dao.payments.is_empty());
    assert!(dao.documents.is_empty());
    assert_eq!(AgreementDao::get(&ledger, "a-1", REQUESTOR).unwrap().total_amount_paid, 0);
}

#[test]
fn sent_and_signed_payments_are_updated_on_the_payers_side() {
    let mut ledger = Ledger::new();
    let mut dao = PaymentDao::new();
    dao.create_new_with(
        &mut ledger,
        "pay-1".to_string(),
        NOW,
        REQUESTOR.to_string(),
        PROVIDER.to_string(),
        REQUESTOR.to_string(),
        PROVIDER.to_string(),
        PLATFORM.to_string(),
        7,
        vec![9],
        &vec![],
        &vec![],
    )
    .unwrap();
    assert_eq!(dao.list_unsent(REQUESTOR.to_string(), None).len(), 1);
    dao.mark_sent("pay-1");
    assert!(dao.list_unsent(REQUESTOR.to_string(), None).is_empty());
    dao.add_signature("pay-1", &vec![1], &vec![2]);
    assert_eq!(dao.payments[0].signature, Some(vec![1]));
    let confirmed = dao.get_for_confirmation(vec![9], Role::Requestor);
    assert_eq!(confirmed.len(), 1);
    assert!(dao.get("pay-1", REQUESTOR).is_some());
    assert!(dao.get("pay-1", PROVIDER).is_none());
}

#[test]
fn node_payments_are_filtered_by_network_prefix_and_driver() {
    let mut ledger = Ledger::new();
    let mut dao = PaymentDao::new();
    for (id, platform, ts) in [("p-1", "holesky-x", NOW + 2), ("p-2", PLATFORM, NOW + 1)] {
        dao.create_new_with(
            &mut ledger,
            id.to_string(),
            ts,
            REQUESTOR.to_string(),
            PROVIDER.to_string(),
            REQUESTOR.to_string(),
            PROVIDER.to_string(),
            platform.to_string(),
            1,
            vec![],
            &vec![],
            &vec![],
        )
        .unwrap();
    }
    let all = dao.get_for_node_id(&ledger, REQUESTOR.to_string(), None, None, None, None, None);
    assert_eq!(all[0].payment.id, "p-2");
    assert_eq!(all[1].payment.id, "p-1");
    let by_network = dao.get_for_node_id(
        &ledger,
        REQUESTOR.to_string(),
        None,
        None,
        None,
        Some(ya_payment::platform::NetworkName::Holesky),
        None,
    );
    assert_eq!(by_network.len(), 1);
    assert_eq!(by_network[0].payment.id, "p-1");
    let by_driver = dao.get_for_node_id(
        &ledger,
        REQUESTOR.to_string(),
        None,
        None,
        None,
        None,
        Some(ya_payment::platform::DriverName::Erc20),
    );
    assert_eq!(by_driver.len(), 1);
    assert_eq!(by_driver[0].payment.id, "p-2");
    let session = dao.get_for_node_id(&ledger, REQUESTOR.to_string(), None, None, Some("s".to_string()), None, None);
    assert!(session.is_empty());
}

fn stored_invoice(id: &str, role: Role, status: DocumentStatus, send_accept: bool, send_reject: bool) -> InvoiceRow {
    InvoiceRow {
        id: id.to_string(),
        owner_id: REQUESTOR.to_string(),
        role,
        agreement_id: "a-1".to_string(),
        status,
        timestamp: NOW,
        amount: 10,
        payment_due_date: NOW + DAY_MS,
        send_accept,
        send_reject,
    }
}

#[test]
fn undelivered_decisions_and_dangling_invoices_are_read_in_stored_order() {
    let mut ledger = Ledger::new();
    AgreementDao::create_if_not_exists(&mut ledger, agreement("a-1", REQUESTOR, Role::Requestor, NOW)).unwrap();
    ledger.invoices.push(stored_invoice("inv-1", Role::Requestor, DocumentStatus::Accepted, true, false));
    ledger.invoices.push(stored_invoice("inv-2", Role::Requestor, DocumentStatus::Rejected, false, true));
    ledger.invoices.push(stored_invoice("inv-3", Role::Provider, DocumentStatus::Issued, false, false));
    ledger.invoices.push(stored_invoice("inv-4", Role::Requestor, DocumentStatus::Accepted, false, false));
    ledger.invoices.push(stored_invoice("inv-5", Role::Provider, DocumentStatus::Accepted, true, false));

    let accepted = InvoiceDao::unsent_accepted(&ledger, REQUESTOR.to_string());
    let ids: Vec<&str> = accepted.iter().map(|r| r.invoice.id.as_str()).collect();
    assert_eq!(ids, vec!["inv-1", "inv-5"]);
    let rejected = InvoiceDao::unsent_rejected(&ledger, REQUESTOR.to_string());
    assert_eq!(rejected.len(), 1);
    assert_eq!(rejected[0].invoice.id, "inv-2");
    let dangling = InvoiceDao::dangling(&ledger, REQUESTOR.to_string());
    let ids: Vec<&str> = dangling.iter().map(|r| r.invoice.id.as_str()).collect();
    assert_eq!(ids, vec!["inv-3", "inv-5"]);
    assert!(InvoiceDao::unsent_accepted(&ledger, PROVIDER.to_string()).is_empty());
}

#[test]
fn invoice_accept_is_marked_sent_only_in_the_expected_status() {
    let mut ledger = Ledger::new();
    ledger.invoices.push(stored_invoice("inv-1", Role::Requestor, DocumentStatus::Accepted, true, false));
    let wrong = InvoiceDao::mark_accept_sent(&mut ledger, "inv-1", REQUESTOR, DocumentStatus::Settled).unwrap();
    assert!(!wrong);
    assert!(ledger.invoices[0].send_accept);
    let missing = InvoiceDao::mark_accept_sent(&mut ledger, "inv-9", REQUESTOR, DocumentStatus::Accepted).unwrap();
    assert!(!missing);
    let done = InvoiceDao::mark_accept_sent(&mut ledger, "inv-1", REQUESTOR, DocumentStatus::Accepted).unwrap();
    assert!(done);
    assert!(!ledger.invoices[0].send_accept);
    assert_eq!(ledger.invoices[0].status, DocumentStatus::Accepted);
}

#[test]
fn received_payment_is_kept_by_its_payee_with_its_signature() {
    let mut ledger = provider_ledger();
    let mut dao = PaymentDao::new();
    let payment = ReceivedPayment {
        payment_id: "pay-9".to_string(),
        payer_id: REQUESTOR.to_string(),
        payee_id: PROVIDER.to_string(),
        payer_addr: REQUESTOR.to_string(),
        payee_addr: PROVIDER.to_string(),
        payment_platform: PLATFORM.to_string(),
        amount: 5,
        timestamp: NOW,
        agreement_payments: vec![],
        activity_payments: vec![ActivityPayment {
            activity_id: "act-1".to_string(),
            amount: 5,
            allocation_id: None,
        }],
        details: vec![9, 9],
    };
    dao.insert_received(&mut ledger, payment, Some(vec![1]), Some(vec![2])).unwrap();
    assert_eq!(dao.payments.len(), 1);
    assert_eq!(dao.payments[0].owner_id, PROVIDER);
    assert_eq!(dao.payments[0].peer_id, REQUESTOR);
    assert_eq!(dao.payments[0].role, Role::Provider);
    assert!(!dao.payments[0].send_payment);
    assert_eq!(dao.payments[0].signature, Some(vec![1]));
    assert_eq!(ActivityDao::get(&ledger, "act-1", PROVIDER).unwrap().activity.total_amount_paid, 5);
}

fn stored_note(id: &str, prev: Option<&str>, send_accept: bool) -> ya_payment::ledger::DebitNoteRow {
    ya_payment::ledger::DebitNoteRow {
        id: id.to_string(),
        owner_id: REQUESTOR.to_string(),
        role: Role::Requestor,
        previous_debit_note_id: prev.map(|p| p.to_string()),
        activity_id: "act-1".to_string(),
        status: DocumentStatus::Accepted,
        timestamp: NOW,
        total_amount_due: 1,
        usage_counter_vector: None,
        payment_due_date: None,
        send_accept,
    }
}

#[test]
fn marking_accept_sent_marks_the_whole_chain() {
    let mut ledger = Ledger::new();
    // d2 -> d1 (already delivered) -> d0 (still waiting)
    ledger.debit_notes.push(stored_note("d0", None, true));
    ledger.debit_notes.push(stored_note("d1", Some("d0"), false));
    ledger.debit_notes.push(stored_note("d2", Some("d1"), true));
    ledger.debit_notes.push(stored_note("other", None, true));
    DebitNoteDao::mark_accept_sent(&mut ledger, "d2", REQUESTOR).unwrap();
    assert!(!ledger.debit_notes[0].send_accept);
    assert!(!ledger.debit_notes[1].send_accept);
    assert!(!ledger.debit_notes[2].send_accept);
    assert!(ledger.debit_notes[3].send_accept);
}

#[test]
fn marking_accept_sent_ends_on_a_cycle() {
    let mut ledger = Ledger::new();
    ledger.debit_notes.push(stored_note("a", Some("b"), true));
    ledger.debit_notes.push(stored_note("b", Some("a"), true));
    DebitNoteDao::mark_accept_sent(&mut ledger, "a", REQUESTOR).unwrap();
    assert!(!ledger.debit_notes[0].send_accept && !ledger.debit_notes[1].send_accept);
}
