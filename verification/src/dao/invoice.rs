//! Invoices in the ledger: how they are received, accepted, rejected and cancelled.
use vstd::prelude::*;
use crate::error::{DbError, DbResult};
use crate::ledger::{
    find_key, has_key, invoice_events_appended, in_range, is_not_found, key_index, key_is, lemma_key_index,
    lemma_update_same_key, not_found_error, InvoiceEvent, InvoiceEventType, InvoiceRow, Ledger,
};
use crate::status::{DocumentStatus, Role};

verus! {

/// The invoices of the ledger; each function takes the ledger it reads or changes.
pub struct InvoiceDao;

/// `new` keeps the invoice of `old` under `id` and `owner` with `status`; nothing else
/// changed. Where there is no such invoice, nothing changed.
pub open spec fn status_updated(
    old: &Ledger,
    new: &Ledger,
    id: Seq<char>,
    owner: Seq<char>,
    status: DocumentStatus,
) -> bool {
    &&& Ledger::same_except(old, new, false, false, true, false, false, false)
    &&& has_key(old.invoices@, id, owner) ==> new.invoices@ == old.invoices@.update(
        key_index(old.invoices@, id, owner),
        InvoiceRow { status, ..old.invoice(id, owner) },
    )
    &&& !has_key(old.invoices@, id, owner) ==> new.invoices == old.invoices
}

/// Sets the status of the invoice under `invoice_id` and `owner_id`, where there is one.
pub fn update_status(ledger: &mut Ledger, invoice_id: &str, owner_id: &str, status: DocumentStatus)
    requires
        old(ledger).wf(),
    ensures
        final(ledger).wf(),
        status_updated(old(ledger), final(ledger), invoice_id@, owner_id@, status),
{
    match find_key(&ledger.invoices, invoice_id, owner_id) {
        Some(i) => {
            proof {
                lemma_key_index(ledger.invoices@, invoice_id@, owner_id@, i as int);
            }
            let mut row = ledger.invoices[i].duplicate();
            row.status = status;
            proof {
                lemma_update_same_key(ledger.invoices@, i as int, row);
            }
            ledger.invoices.set(i, row);
        },
        None => {},
    }
}

/// Records `event_type` on the invoice under `invoice_id` and `owner_id`.
pub fn create_event(ledger: &mut Ledger, invoice_id: &str, owner_id: &str, event_type: InvoiceEventType)
    requires
        old(ledger).wf(),
    ensures
        final(ledger).wf(),
        Ledger::same_except(old(ledger), final(ledger), false, false, false, false, true, false),
        invoice_events_appended(
            old(ledger).invoice_events@,
            final(ledger).invoice_events@,
            invoice_id@,
            owner_id@,
            seq![event_type],
        ),
{
    let ghost t = event_type;
    ledger.invoice_events.push(
        InvoiceEvent { invoice_id: invoice_id.to_string(), owner_id: owner_id.to_string(), event_type },
    );
    proof {
        let o = old(ledger).invoice_events@;
        let n = ledger.invoice_events@;
        assert(n.take(o.len() as int) =~= o);
        assert(n[o.len() as int] == n.last());
        assert(seq![t][0] == t);
    }
}

} // verus!

verus! {

/// Two records of an invoice with the same id say the same thing.
pub open spec fn equivalent(a: InvoiceRow, b: InvoiceRow) -> bool {
    &&& a.agreement_id@ == b.agreement_id@
    &&& a.role == b.role
    &&& a.amount == b.amount
    &&& a.timestamp == b.timestamp
    &&& a.payment_due_date == b.payment_due_date
}

fn equivalent_exec(a: &InvoiceRow, b: &InvoiceRow) -> (r: bool)
    ensures
        r == equivalent(*a, *b),
{
    a.agreement_id == b.agreement_id && a.role == b.role && a.amount == b.amount && a.timestamp
        == b.timestamp && a.payment_due_date == b.payment_due_date
}

/// The message refusing an invoice that asks for a negative amount.
pub open spec fn negative_invoice_text() -> Seq<char> {
    "Invoice amount cannot be negative"@
}

/// The message refusing an invoice whose id is taken by a different one.
pub open spec fn conflicting_invoice_text() -> Seq<char> {
    "Invoice with the same id and different content already exists."@
}

pub open spec fn texts(v: Seq<String>) -> Seq<Seq<char>> {
    v.map_values(|s: String| s@)
}

/// `new` holds `links` after the links of `old`: one per activity in `ids`, naming invoice
/// `invoice_id` of `owner`.
pub open spec fn links_appended(
    old: Seq<crate::ledger::InvoiceActivity>,
    new: Seq<crate::ledger::InvoiceActivity>,
    invoice_id: Seq<char>,
    owner: Seq<char>,
    ids: Seq<Seq<char>>,
) -> bool {
    &&& new.len() == old.len() + ids.len()
    &&& new.take(old.len() as int) == old
    &&& forall|k: int|
        0 <= k < ids.len() ==> {
            &&& (#[trigger] new[old.len() + k]).invoice_id@ == invoice_id
            &&& new[old.len() + k].activity_id@ == ids[k]
            &&& new[old.len() + k].owner_id@ == owner
        }
}

/// What storing `inv` does: refuse a negative amount; accept again, changing nothing, an
/// invoice already stored in the same form; refuse a different one under the same id;
/// else raise the agreement's amount due to the invoice's amount (refused where that would
/// lower it), store the invoice and its activities, and record that it was received.
pub open spec fn invoice_inserted(
    old: &Ledger,
    new: &Ledger,
    inv: InvoiceRow,
    activity_ids: Seq<Seq<char>>,
    r: DbResult<()>,
) -> bool {
    let id = inv.id@;
    let owner = inv.owner_id@;
    let ag = old.agreement(inv.agreement_id@, owner);
    if inv.amount < 0 {
        r matches Err(DbError::Query(m)) && m@ == negative_invoice_text() && *new == *old
    } else if has_key(old.invoices@, id, owner) {
        if equivalent(old.invoice(id, owner), inv) {
            r is Ok && *new == *old
        } else {
            r matches Err(DbError::Integrity(m)) && m@ == conflicting_invoice_text() && *new == *old
        }
    } else if !has_key(old.agreements@, inv.agreement_id@, owner) {
        r matches Err(e) && is_not_found(e) && *new == *old
    } else if inv.amount < ag.total_amount_due {
        r matches Err(DbError::Query(m)) && m@ == crate::dao::agreement::cannot_lower_text(
            ag.total_amount_due as int,
            inv.amount as int,
        ) && *new == *old
    } else {
        &&& r is Ok
        &&& new.agreements@ == old.agreements@.update(
            key_index(old.agreements@, inv.agreement_id@, owner),
            crate::ledger::AgreementRow { total_amount_due: inv.amount, ..ag },
        )
        &&& new.invoices@ == old.invoices@.push(inv)
        &&& links_appended(old.invoice_activities@, new.invoice_activities@, id, owner, activity_ids)
        &&& invoice_events_appended(
            old.invoice_events@,
            new.invoice_events@,
            id,
            owner,
            seq![InvoiceEventType::InvoiceReceivedEvent],
        )
        &&& new.activities == old.activities
        &&& new.debit_notes == old.debit_notes
        &&& new.debit_note_events == old.debit_note_events
    }
}

/// Stores an invoice and the activities it covers.
pub fn insert(ledger: &mut Ledger, invoice: InvoiceRow, activity_ids: Vec<String>) -> (r: DbResult<()>)
    requires
        old(ledger).wf(),
    ensures
        final(ledger).wf(),
        invoice_inserted(old(ledger), final(ledger), invoice, texts(activity_ids@), r),
{
    if invoice.amount < 0 {
        return Err(DbError::Query("Invoice amount cannot be negative".to_string()));
    }
    match find_key(&ledger.invoices, invoice.id.as_str(), invoice.owner_id.as_str()) {
        Some(i) => {
            proof {
                lemma_key_index(ledger.invoices@, invoice.id@, invoice.owner_id@, i as int);
            }
            if equivalent_exec(&ledger.invoices[i], &invoice) {
                return Ok(());
            } else {
                return Err(
                    DbError::Integrity(
                        "Invoice with the same id and different content already exists.".to_string(),
                    ),
                );
            }
        },
        None => {},
    }
    let ghost l0 = *ledger;
    let r = crate::dao::agreement::set_amount_due(
        ledger,
        invoice.agreement_id.as_str(),
        invoice.owner_id.as_str(),
        invoice.amount,
    );
    match r {
        Err(e) => {
            return Err(e);
        },
        Ok(()) => {},
    }
    let invoice_id = invoice.id.clone();
    let owner_id = invoice.owner_id.clone();
    proof {
        crate::ledger::lemma_push_new_key(ledger.invoices@, invoice);
    }
    ledger.invoices.push(invoice);
    let ghost l1 = *ledger;
    proof {
        assert(texts(activity_ids@).take(0) =~= Seq::<Seq<char>>::empty());
        assert(l1.invoice_activities@.take(l1.invoice_activities@.len() as int) =~= l1.invoice_activities@);
    }
    let mut k: usize = 0;
    while k < activity_ids.len()
        invariant
            ledger.wf(),
            0 <= k <= activity_ids.len(),
            ledger.agreements == l1.agreements,
            ledger.activities == l1.activities,
            ledger.invoices == l1.invoices,
            ledger.debit_notes == l1.debit_notes,
            ledger.invoice_events == l1.invoice_events,
            ledger.debit_note_events == l1.debit_note_events,
            links_appended(
                l1.invoice_activities@,
                ledger.invoice_activities@,
                invoice_id@,
                owner_id@,
                texts(activity_ids@).take(k as int),
            ),
        decreases activity_ids.len() - k,
    {
        let ghost before = ledger.invoice_activities@;
        ledger.invoice_activities.push(
            crate::ledger::InvoiceActivity {
                invoice_id: invoice_id.clone(),
                activity_id: activity_ids[k].clone(),
                owner_id: owner_id.clone(),
            },
        );
        proof {
            let o = l1.invoice_activities@;
            let n = ledger.invoice_activities@;
            let ids = texts(activity_ids@).take(k + 1);
            let ids0 = texts(activity_ids@).take(k as int);
            assert(n.take(o.len() as int) =~= o) by {
                assert(n.take(before.len() as int) =~= before);
                assert(before.take(o.len() as int) == o);
            }
            assert forall|j: int| 0 <= j < ids.len() implies {
                &&& (#[trigger] n[o.len() + j]).invoice_id@ == invoice_id@
                &&& n[o.len() + j].activity_id@ == ids[j]
                &&& n[o.len() + j].owner_id@ == owner_id@
            } by {
                if j < ids0.len() {
                    assert(n[o.len() + j] == before[o.len() + j]);
                    assert(ids[j] == ids0[j]);
                } else {
                    assert(ids[j] == activity_ids@[k as int]@);
                }
            }
        }
        k = k + 1;
    }
    proof {
        assert(texts(activity_ids@).take(k as int) =~= texts(activity_ids@));
    }
    create_event(ledger, invoice_id.as_str(), owner_id.as_str(), InvoiceEventType::InvoiceReceivedEvent);
    Ok(())
}

} // verus!

verus! {

/// An invoice as its issuer writes it.
#[derive(Debug)]
pub struct NewInvoice {
    pub agreement_id: String,
    pub activity_ids: Option<Vec<String>>,
    pub amount: i128,
    pub payment_due_date: i64,
}

/// An invoice as the other side sends it.
#[derive(Debug)]
pub struct Invoice {
    pub invoice_id: String,
    pub issuer_id: String,
    pub recipient_id: String,
    pub payee_addr: String,
    pub payer_addr: String,
    pub payment_platform: String,
    pub timestamp: i64,
    pub agreement_id: String,
    pub activity_ids: Vec<String>,
    pub amount: i128,
    pub payment_due_date: i64,
    pub status: DocumentStatus,
}

/// The record of an invoice that `issuer` issues under `id` at `timestamp`.
pub open spec fn issued_row(inv: NewInvoice, issuer: String, id: String, timestamp: i64) -> InvoiceRow {
    InvoiceRow {
        id,
        owner_id: issuer,
        role: Role::Provider,
        agreement_id: inv.agreement_id,
        status: DocumentStatus::Issued,
        timestamp,
        amount: inv.amount,
        payment_due_date: inv.payment_due_date,
        send_accept: false,
        send_reject: false,
    }
}

pub open spec fn opt_texts(v: Option<Vec<String>>) -> Seq<Seq<char>> {
    match v {
        Some(v) => texts(v@),
        None => Seq::empty(),
    }
}

impl InvoiceDao {
    /// Issues an invoice under `id` at `timestamp`; on success gives back `id`.
    pub fn create_new_with(
        ledger: &mut Ledger,
        invoice: NewInvoice,
        issuer_id: &String,
        id: String,
        timestamp: i64,
    ) -> (r: DbResult<String>)
        requires
            old(ledger).wf(),
        ensures
            final(ledger).wf(),
            invoice_inserted(
                old(ledger),
                final(ledger),
                issued_row(invoice, *issuer_id, id, timestamp),
                opt_texts(invoice.activity_ids),
                match r {
                    Ok(_) => Ok(()),
                    Err(e) => Err(e),
                },
            ),
            r matches Ok(x) ==> x == id,
    {
        let ghost inv = invoice;
        let NewInvoice { agreement_id, activity_ids, amount, payment_due_date } = invoice;
        let ids = match activity_ids {
            Some(v) => v,
            None => Vec::new(),
        };
        proof {
            assert(texts(ids@) =~= opt_texts(inv.activity_ids));
        }
        let row = InvoiceRow {
            id: id.clone(),
            owner_id: issuer_id.clone(),
            role: Role::Provider,
            agreement_id,
            status: DocumentStatus::Issued,
            timestamp,
            amount,
            payment_due_date,
            send_accept: false,
            send_reject: false,
        };
        match insert(ledger, row, ids) {
            Ok(()) => Ok(id),
            Err(e) => Err(e),
        }
    }
}

impl InvoiceDao {
    /// Issues an invoice under a fresh random id, stamped with the current time; on success
    /// gives back the id.
    pub fn create_new(ledger: &mut Ledger, invoice: NewInvoice, issuer_id: &String) -> (r: DbResult<String>)
        requires
            old(ledger).wf(),
        ensures
            final(ledger).wf(),
            exists|id: String, timestamp: i64|
                invoice_inserted(
                    old(ledger),
                    final(ledger),
                    #[trigger] issued_row(invoice, *issuer_id, id, timestamp),
                    opt_texts(invoice.activity_ids),
                    match r {
                        Ok(_) => Ok(()),
                        Err(e) => Err(e),
                    },
                ) && (r matches Ok(x) ==> x == id),
    {
        let id = crate::clock::new_uuid();
        let timestamp = crate::clock::now_millis();
        Self::create_new_with(ledger, invoice, issuer_id, id, timestamp)
    }
}

/// The record of an invoice received from its issuer.
pub open spec fn received_row(inv: Invoice) -> InvoiceRow {
    InvoiceRow {
        id: inv.invoice_id,
        owner_id: inv.recipient_id,
        role: Role::Requestor,
        agreement_id: inv.agreement_id,
        status: DocumentStatus::Received,
        timestamp: inv.timestamp,
        amount: inv.amount,
        payment_due_date: inv.payment_due_date,
        send_accept: false,
        send_reject: false,
    }
}

impl InvoiceDao {
    /// Stores an invoice received from its issuer.
    pub fn insert_received(ledger: &mut Ledger, invoice: Invoice) -> (r: DbResult<()>)
        requires
            old(ledger).wf(),
        ensures
            final(ledger).wf(),
            invoice_inserted(old(ledger), final(ledger), received_row(invoice), texts(invoice.activity_ids@), r),
    {
        let Invoice {
            invoice_id,
            issuer_id: _,
            recipient_id,
            payee_addr: _,
            payer_addr: _,
            payment_platform: _,
            timestamp,
            agreement_id,
            activity_ids,
            amount,
            payment_due_date,
            status: _,
        } = invoice;
        let row = InvoiceRow {
            id: invoice_id,
            owner_id: recipient_id,
            role: Role::Requestor,
            agreement_id,
            status: DocumentStatus::Received,
            timestamp,
            amount,
            payment_due_date,
            send_accept: false,
            send_reject: false,
        };
        insert(ledger, row, activity_ids)
    }
}

impl InvoiceDao {
    /// Sets the status of the invoice under `invoice_id` and `owner_id` to received.
    pub fn mark_received(ledger: &mut Ledger, invoice_id: &str, owner_id: &str) -> (r: DbResult<()>)
        requires
            old(ledger).wf(),
        ensures
            final(ledger).wf(),
            r is Ok,
            status_updated(old(ledger), final(ledger), invoice_id@, owner_id@, DocumentStatus::Received),
    {
        update_status(ledger, invoice_id, owner_id, DocumentStatus::Received);
        Ok(())
    }
}

/// What accepting a stored invoice does: a zero amount settles it at once, any other
/// leaves it accepted; on the requestor's side it is marked for sending the acceptance;
/// the agreement's accepted total becomes the invoice's amount; the acceptance (and the
/// settlement) is recorded.
pub open spec fn invoice_accepted(old: &Ledger, new: &Ledger, id: Seq<char>, owner: Seq<char>) -> bool {
    let inv = old.invoice(id, owner);
    let ag = old.agreement(inv.agreement_id@, owner);
    let zero = inv.amount == 0;
    &&& new.invoices@ == old.invoices@.update(
        key_index(old.invoices@, id, owner),
        InvoiceRow {
            status: if zero { DocumentStatus::Settled } else { DocumentStatus::Accepted },
            send_accept: if inv.role == Role::Requestor { true } else { inv.send_accept },
            ..inv
        },
    )
    &&& new.agreements@ == old.agreements@.update(
        key_index(old.agreements@, inv.agreement_id@, owner),
        crate::ledger::AgreementRow { total_amount_accepted: inv.amount, ..ag },
    )
    &&& invoice_events_appended(
        old.invoice_events@,
        new.invoice_events@,
        id,
        owner,
        if zero {
            seq![InvoiceEventType::InvoiceAcceptedEvent, InvoiceEventType::InvoiceSettledEvent]
        } else {
            seq![InvoiceEventType::InvoiceAcceptedEvent]
        },
    )
    &&& Ledger::same_except(old, new, true, false, true, false, true, false)
}

impl InvoiceDao {
    /// Accepts the invoice under `invoice_id` and `owner_id`.
    pub fn accept(ledger: &mut Ledger, invoice_id: &str, owner_id: &str) -> (r: DbResult<()>)
        requires
            old(ledger).wf(),
        ensures
            final(ledger).wf(),
            !has_key(old(ledger).invoices@, invoice_id@, owner_id@) ==> (r matches Err(e)
                && is_not_found(e) && *final(ledger) == *old(ledger)),
            has_key(old(ledger).invoices@, invoice_id@, owner_id@) && !has_key(
                old(ledger).agreements@,
                old(ledger).invoice(invoice_id@, owner_id@).agreement_id@,
                owner_id@,
            ) ==> (r matches Err(e) && is_not_found(e) && *final(ledger) == *old(ledger)),
            has_key(old(ledger).invoices@, invoice_id@, owner_id@) && has_key(
                old(ledger).agreements@,
                old(ledger).invoice(invoice_id@, owner_id@).agreement_id@,
                owner_id@,
            ) ==> (r is Ok && invoice_accepted(old(ledger), final(ledger), invoice_id@, owner_id@)),
    {
        let i = match find_key(&ledger.invoices, invoice_id, owner_id) {
            Some(i) => i,
            None => {
                return Err(not_found_error());
            },
        };
        proof {
            lemma_key_index(ledger.invoices@, invoice_id@, owner_id@, i as int);
        }
        let agreement_id = ledger.invoices[i].agreement_id.clone();
        let amount = ledger.invoices[i].amount;
        match crate::dao::agreement::locate(ledger, agreement_id.as_str(), owner_id) {
            Some(_) => {},
            None => {
                return Err(not_found_error());
            },
        }
        let zero = amount == 0;
        let mut row = ledger.invoices[i].duplicate();
        if matches!(row.role, Role::Requestor) {
            row.send_accept = true;
        }
        row.status = if zero {
            DocumentStatus::Settled
        } else {
            DocumentStatus::Accepted
        };
        proof {
            lemma_update_same_key(ledger.invoices@, i as int, row);
        }
        ledger.invoices.set(i, row);
        let _ = crate::dao::agreement::set_amount_accepted(ledger, agreement_id.as_str(), owner_id, amount);
        let ghost e0 = ledger.invoice_events@;
        create_event(ledger, invoice_id, owner_id, InvoiceEventType::InvoiceAcceptedEvent);
        if zero {
            let ghost e1 = ledger.invoice_events@;
            create_event(ledger, invoice_id, owner_id, InvoiceEventType::InvoiceSettledEvent);
            proof {
                let n = ledger.invoice_events@;
                assert(n.take(e0.len() as int) =~= e0) by {
                    assert(n.take(e1.len() as int) == e1);
                    assert(e1.take(e0.len() as int) == e0);
                    assert(n.take(e0.len() as int) =~= e1.take(e0.len() as int));
                }
                assert(n[e0.len() as int] == e1[e0.len() as int]);
                let t = seq![InvoiceEventType::InvoiceAcceptedEvent, InvoiceEventType::InvoiceSettledEvent];
                assert(t[0] == InvoiceEventType::InvoiceAcceptedEvent);
                assert(t[1] == InvoiceEventType::InvoiceSettledEvent);
                assert forall|k: int| 0 <= k < t.len() implies {
                    &&& (#[trigger] n[e0.len() + k]).invoice_id@ == invoice_id@
                    &&& n[e0.len() + k].owner_id@ == owner_id@
                    &&& n[e0.len() + k].event_type == t[k]
                } by {
                    if k == 0 {
                        assert(n[e0.len() + k] == e1[e0.len() + 0int]);
                        assert(seq![InvoiceEventType::InvoiceAcceptedEvent][0] == InvoiceEventType::InvoiceAcceptedEvent);
                    } else {
                        assert(e0.len() + k == e1.len() + 0int);
                        assert(seq![InvoiceEventType::InvoiceSettledEvent][0] == InvoiceEventType::InvoiceSettledEvent);
                    }
                }
            }
        } else {
            proof {
                let t = seq![InvoiceEventType::InvoiceAcceptedEvent];
                assert(t[0] == InvoiceEventType::InvoiceAcceptedEvent);
            }
        }
        proof {
            let l0 = old(ledger);
            let inv = l0.invoice(invoice_id@, owner_id@);
            let ag = l0.agreement(inv.agreement_id@, owner_id@);
            assert(ledger.invoices@ == l0.invoices@.update(
                key_index(l0.invoices@, invoice_id@, owner_id@),
                InvoiceRow {
                    status: if zero { DocumentStatus::Settled } else { DocumentStatus::Accepted },
                    send_accept: if inv.role == Role::Requestor { true } else { inv.send_accept },
                    ..inv
                },
            ));
            assert(ledger.agreements@ == l0.agreements@.update(
                key_index(l0.agreements@, inv.agreement_id@, owner_id@),
                crate::ledger::AgreementRow { total_amount_accepted: inv.amount, ..ag },
            ));
            assert(Ledger::same_except(l0, ledger, true, false, true, false, true, false));
        }
        Ok(())
    }
}

} // verus!

verus! {

/// Replaces the invoice at `i` by `row`, which keeps its key.
fn put_invoice(ledger: &mut Ledger, i: usize, row: InvoiceRow)
    requires
        old(ledger).wf(),
        i < old(ledger).invoices.len(),
        row.id == old(ledger).invoices@[i as int].id,
        row.owner_id == old(ledger).invoices@[i as int].owner_id,
    ensures
        final(ledger).wf(),
        final(ledger).invoices@ == old(ledger).invoices@.update(i as int, row),
        Ledger::same_except(old(ledger), final(ledger), false, false, true, false, false, false),
{
    proof {
        lemma_update_same_key(old(ledger).invoices@, i as int, row);
    }
    ledger.invoices.set(i, row);
}

pub(crate) fn locate_invoice(ledger: &Ledger, invoice_id: &str, owner_id: &str) -> (r: Option<usize>)
    requires
        ledger.wf(),
    ensures
        r matches Some(i) ==> i < ledger.invoices.len() && has_key(
            ledger.invoices@,
            invoice_id@,
            owner_id@,
        ) && key_index(ledger.invoices@, invoice_id@, owner_id@) == i,
        r is None ==> !has_key(ledger.invoices@, invoice_id@, owner_id@),
{
    let r = find_key(&ledger.invoices, invoice_id, owner_id);
    match r {
        Some(i) => {
            proof {
                lemma_key_index(ledger.invoices@, invoice_id@, owner_id@, i as int);
            }
        },
        None => {},
    }
    r
}

impl InvoiceDao {
    /// Rejects the invoice under `invoice_id` and `owner_id`: it becomes rejected, on the
    /// requestor's side it is marked for sending the rejection, and the rejection is recorded.
    pub fn reject(ledger: &mut Ledger, invoice_id: &str, owner_id: &str, rejection: crate::ledger::Rejection) -> (r:
        DbResult<()>)
        requires
            old(ledger).wf(),
        ensures
            final(ledger).wf(),
            !has_key(old(ledger).invoices@, invoice_id@, owner_id@) ==> (r matches Err(e)
                && is_not_found(e) && *final(ledger) == *old(ledger)),
            has_key(old(ledger).invoices@, invoice_id@, owner_id@) ==> ({
                let inv = old(ledger).invoice(invoice_id@, owner_id@);
                &&& r is Ok
                &&& final(ledger).invoices@ == old(ledger).invoices@.update(
                    key_index(old(ledger).invoices@, invoice_id@, owner_id@),
                    InvoiceRow {
                        status: DocumentStatus::Rejected,
                        send_reject: if inv.role == Role::Requestor { true } else { inv.send_reject },
                        ..inv
                    },
                )
                &&& invoice_events_appended(
                    old(ledger).invoice_events@,
                    final(ledger).invoice_events@,
                    invoice_id@,
                    owner_id@,
                    seq![InvoiceEventType::InvoiceRejectedEvent { rejection }],
                )
                &&& Ledger::same_except(old(ledger), final(ledger), false, false, true, false, true, false)
            }),
    {
        let i = match locate_invoice(ledger, invoice_id, owner_id) {
            Some(i) => i,
            None => {
                return Err(not_found_error());
            },
        };
        let mut row = ledger.invoices[i].duplicate();
        row.status = DocumentStatus::Rejected;
        if matches!(row.role, Role::Requestor) {
            row.send_reject = true;
        }
        put_invoice(ledger, i, row);
        create_event(ledger, invoice_id, owner_id, InvoiceEventType::InvoiceRejectedEvent { rejection });
        Ok(())
    }
}

impl InvoiceDao {
    /// Cancels the invoice under `invoice_id` and `owner_id`: its agreement's amount due goes
    /// back to what the agreement's activities ask for, the invoice becomes cancelled, and the
    /// cancellation is recorded.
    pub fn cancel(ledger: &mut Ledger, invoice_id: &str, owner_id: &str) -> (r: DbResult<()>)
        requires
            old(ledger).wf(),
            has_key(old(ledger).invoices@, invoice_id@, owner_id@) ==> crate::dao::agreement::activities_due_bounded(
                old(ledger).activities@,
                old(ledger).invoice(invoice_id@, owner_id@).agreement_id@,
                owner_id@,
            ),
        ensures
            final(ledger).wf(),
            !has_key(old(ledger).invoices@, invoice_id@, owner_id@) ==> (r matches Err(e)
                && is_not_found(e) && *final(ledger) == *old(ledger)),
            has_key(old(ledger).invoices@, invoice_id@, owner_id@) && !has_key(
                old(ledger).agreements@,
                old(ledger).invoice(invoice_id@, owner_id@).agreement_id@,
                owner_id@,
            ) ==> (r matches Err(e) && is_not_found(e) && *final(ledger) == *old(ledger)),
            has_key(old(ledger).invoices@, invoice_id@, owner_id@) && has_key(
                old(ledger).agreements@,
                old(ledger).invoice(invoice_id@, owner_id@).agreement_id@,
                owner_id@,
            ) ==> ({
                let inv = old(ledger).invoice(invoice_id@, owner_id@);
                let ag = old(ledger).agreement(inv.agreement_id@, owner_id@);
                &&& r is Ok
                &&& final(ledger).agreements@ == old(ledger).agreements@.update(
                    key_index(old(ledger).agreements@, inv.agreement_id@, owner_id@),
                    crate::ledger::AgreementRow {
                        total_amount_due: crate::dao::agreement::activities_due(
                            old(ledger).activities@,
                            inv.agreement_id@,
                            owner_id@,
                        ) as i128,
                        ..ag
                    },
                )
                &&& final(ledger).invoices@ == old(ledger).invoices@.update(
                    key_index(old(ledger).invoices@, invoice_id@, owner_id@),
                    InvoiceRow { status: DocumentStatus::Cancelled, ..inv },
                )
                &&& invoice_events_appended(
                    old(ledger).invoice_events@,
                    final(ledger).invoice_events@,
                    invoice_id@,
                    owner_id@,
                    seq![InvoiceEventType::InvoiceCancelledEvent],
                )
                &&& Ledger::same_except(old(ledger), final(ledger), true, false, true, false, true, false)
            }),
    {
        let i = match locate_invoice(ledger, invoice_id, owner_id) {
            Some(i) => i,
            None => {
                return Err(not_found_error());
            },
        };
        let agreement_id = ledger.invoices[i].agreement_id.clone();
        match crate::dao::agreement::compute_amount_due(ledger, agreement_id.as_str(), owner_id) {
            Ok(()) => {},
            Err(e) => {
                return Err(e);
            },
        }
        let mut row = ledger.invoices[i].duplicate();
        row.status = DocumentStatus::Cancelled;
        put_invoice(ledger, i, row);
        create_event(ledger, invoice_id, owner_id, InvoiceEventType::InvoiceCancelledEvent);
        Ok(())
    }
}

impl InvoiceDao {
    /// Marks the acceptance of the invoice as delivered to the other side, where its stored
    /// status is `expected_status`: then it no longer waits to be sent and the answer is
    /// `true`. Otherwise nothing changes and the answer is `false`.
    pub fn mark_accept_sent(
        ledger: &mut Ledger,
        invoice_id: &str,
        owner_id: &str,
        expected_status: DocumentStatus,
    ) -> (r: DbResult<bool>)
        requires
            old(ledger).wf(),
        ensures
            final(ledger).wf(),
            Ledger::same_except(old(ledger), final(ledger), false, false, true, false, false, false),
            ({
                let matched = has_key(old(ledger).invoices@, invoice_id@, owner_id@) && old(ledger).invoice(
                    invoice_id@,
                    owner_id@,
                ).status == expected_status;
                &&& r == Ok::<bool, DbError>(matched)
                &&& matched ==> final(ledger).invoices@ == old(ledger).invoices@.update(
                    key_index(old(ledger).invoices@, invoice_id@, owner_id@),
                    InvoiceRow { send_accept: false, ..old(ledger).invoice(invoice_id@, owner_id@) },
                )
                &&& !matched ==> *final(ledger) == *old(ledger)
            }),
    {
        match locate_invoice(ledger, invoice_id, owner_id) {
            Some(i) => {
                if ledger.invoices[i].status == expected_status {
                    let mut row = ledger.invoices[i].duplicate();
                    row.send_accept = false;
                    put_invoice(ledger, i, row);
                    Ok(true)
                } else {
                    Ok(false)
                }
            },
            None => Ok(false),
        }
    }
}

impl InvoiceDao {
    /// Marks the rejection of the invoice as delivered to the other side.
    pub fn mark_reject_sent(ledger: &mut Ledger, invoice_id: &str, owner_id: &str) -> (r: DbResult<()>)
        requires
            old(ledger).wf(),
        ensures
            final(ledger).wf(),
            r is Ok,
            Ledger::same_except(old(ledger), final(ledger), false, false, true, false, false, false),
            has_key(old(ledger).invoices@, invoice_id@, owner_id@) ==> final(ledger).invoices@
                == old(ledger).invoices@.update(
                key_index(old(ledger).invoices@, invoice_id@, owner_id@),
                InvoiceRow { send_reject: false, ..old(ledger).invoice(invoice_id@, owner_id@) },
            ),
            !has_key(old(ledger).invoices@, invoice_id@, owner_id@) ==> *final(ledger) == *old(ledger),
    {
        match locate_invoice(ledger, invoice_id, owner_id) {
            Some(i) => {
                let mut row = ledger.invoices[i].duplicate();
                row.send_reject = false;
                put_invoice(ledger, i, row);
            },
            None => {},
        }
        Ok(())
    }
}

} // verus!

verus! {

/// Which invoices a listing asks for.
#[derive(Clone, Copy, Debug, PartialEq, Eq, Structural)]
pub enum InvoiceSelection {
    /// Accepted ones whose acceptance was not yet delivered.
    UnsentAccepted,
    /// The provider's issued or accepted ones, not yet settled.
    Dangling,
    /// Rejected ones whose rejection was not yet delivered.
    UnsentRejected,
}

/// The rows of `s` that satisfy `p`, in their order.
pub open spec fn select_by<A>(s: Seq<A>, p: spec_fn(A) -> bool) -> Seq<A>
    decreases s.len(),
{
    if s.len() == 0 {
        Seq::empty()
    } else {
        let rest = select_by(s.drop_last(), p);
        if p(s.last()) {
            rest.push(s.last())
        } else {
            rest
        }
    }
}

/// Whether `r`, an invoice of `l`, is one that `sel` asks for of `owner`; the invoice's
/// agreement must be in the ledger.
pub open spec fn invoice_selected(l: &Ledger, sel: InvoiceSelection, owner: Seq<char>, r: InvoiceRow) -> bool {
    &&& r.owner_id@ == owner
    &&& has_key(l.agreements@, r.agreement_id@, owner)
    &&& match sel {
        InvoiceSelection::UnsentAccepted => r.send_accept && r.status == DocumentStatus::Accepted,
        InvoiceSelection::Dangling => r.role == Role::Provider && (r.status == DocumentStatus::Issued
            || r.status == DocumentStatus::Accepted),
        InvoiceSelection::UnsentRejected => r.send_reject && r.status == DocumentStatus::Rejected,
    }
}

/// Every row that `select_by` keeps satisfies the predicate.
pub proof fn lemma_select_by_holds<A>(s: Seq<A>, p: spec_fn(A) -> bool, k: int)
    requires
        0 <= k < select_by(s, p).len(),
    ensures
        p(select_by(s, p)[k]),
    decreases s.len(),
{
    if s.len() > 0 {
        let rest = select_by(s.drop_last(), p);
        if k < rest.len() {
            lemma_select_by_holds(s.drop_last(), p, k);
            if p(s.last()) {
                assert(select_by(s, p)[k] == rest[k]);
            }
        }
    }
}

/// A row that `select_by` keeps is a row of the sequence.
pub proof fn lemma_select_by_member<A>(s: Seq<A>, p: spec_fn(A) -> bool, k: int)
    requires
        0 <= k < select_by(s, p).len(),
    ensures
        exists|j: int| 0 <= j < s.len() && s[j] == select_by(s, p)[k],
    decreases s.len(),
{
    if s.len() > 0 {
        let rest = select_by(s.drop_last(), p);
        if k < rest.len() {
            lemma_select_by_member(s.drop_last(), p, k);
            let j = choose|j: int| 0 <= j < s.drop_last().len() && s.drop_last()[j] == rest[k];
            assert(s[j] == s.drop_last()[j]);
            if p(s.last()) {
                assert(select_by(s, p)[k] == rest[k]);
            }
        } else {
            assert(s[s.len() - 1] == select_by(s, p)[k]);
        }
    }
}

/// Lists the invoices of `owner_id` that `sel` asks for, in the order the ledger keeps them.
pub fn select_invoices(ledger: &Ledger, sel: InvoiceSelection, owner_id: &str) -> (r: Vec<InvoiceRow>)
    requires
        ledger.wf(),
    ensures
        r@ == select_by(ledger.invoices@, |x: InvoiceRow| invoice_selected(ledger, sel, owner_id@, x)),
{
    let ghost p = |x: InvoiceRow| invoice_selected(ledger, sel, owner_id@, x);
    let mut r: Vec<InvoiceRow> = Vec::new();
    let mut k: usize = 0;
    while k < ledger.invoices.len()
        invariant
            ledger.wf(),
            0 <= k <= ledger.invoices.len(),
            p == (|x: InvoiceRow| invoice_selected(ledger, sel, owner_id@, x)),
            r@ == select_by(ledger.invoices@.take(k as int), p),
        decreases ledger.invoices.len() - k,
    {
        proof {
            assert(ledger.invoices@.take(k + 1).drop_last() =~= ledger.invoices@.take(k as int));
            assert(ledger.invoices@.take(k + 1).last() == ledger.invoices@[k as int]);
        }
        let inv = &ledger.invoices[k];
        let wanted = match sel {
            InvoiceSelection::UnsentAccepted => inv.send_accept && matches!(
                inv.status,
                DocumentStatus::Accepted
            ),
            InvoiceSelection::Dangling => matches!(inv.role, Role::Provider) && (matches!(
                inv.status,
                DocumentStatus::Issued
            ) || matches!(inv.status, DocumentStatus::Accepted)),
            InvoiceSelection::UnsentRejected => inv.send_reject && matches!(
                inv.status,
                DocumentStatus::Rejected
            ),
        };
        if wanted && crate::text::text_eq(inv.owner_id.as_str(), owner_id) {
            if crate::dao::agreement::locate(ledger, inv.agreement_id.as_str(), owner_id).is_some() {
                r.push(inv.duplicate());
            }
        }
        k = k + 1;
    }
    proof {
        assert(ledger.invoices@.take(k as int) =~= ledger.invoices@);
    }
    r
}

/// Lists the ids of the activities that invoice `invoice_id` of `owner_id` covers, in the
/// order they were stored.
pub fn activity_ids_of(ledger: &Ledger, invoice_id: &str, owner_id: &str) -> (r: Vec<String>)
    ensures
        r@.map_values(|s: String| s@) == select_by(
            ledger.invoice_activities@,
            |x: crate::ledger::InvoiceActivity| x.invoice_id@ == invoice_id@ && x.owner_id@ == owner_id@,
        ).map_values(|x: crate::ledger::InvoiceActivity| x.activity_id@),
{
    let ghost p = |x: crate::ledger::InvoiceActivity| x.invoice_id@ == invoice_id@ && x.owner_id@ == owner_id@;
    let ghost f = |x: crate::ledger::InvoiceActivity| x.activity_id@;
    let ghost g = |s: String| s@;
    let mut r: Vec<String> = Vec::new();
    let mut k: usize = 0;
    while k < ledger.invoice_activities.len()
        invariant
            0 <= k <= ledger.invoice_activities.len(),
            p == (|x: crate::ledger::InvoiceActivity| x.invoice_id@ == invoice_id@ && x.owner_id@ == owner_id@),
            f == (|x: crate::ledger::InvoiceActivity| x.activity_id@),
            g == (|s: String| s@),
            r@.map_values(g) == select_by(ledger.invoice_activities@.take(k as int), p).map_values(f),
        decreases ledger.invoice_activities.len() - k,
    {
        let ghost s = ledger.invoice_activities@;
        proof {
            assert(s.take(k + 1).drop_last() =~= s.take(k as int));
            assert(s.take(k + 1).last() == s[k as int]);
        }
        let link = &ledger.invoice_activities[k];
        if crate::text::text_eq(link.invoice_id.as_str(), invoice_id) && crate::text::text_eq(
            link.owner_id.as_str(),
            owner_id,
        ) {
            let ghost before = r@;
            r.push(link.activity_id.clone());
            proof {
                let sel0 = select_by(s.take(k as int), p);
                assert(select_by(s.take(k + 1), p) == sel0.push(s[k as int]));
                assert(r@.map_values(g) =~= before.map_values(g).push(link.activity_id@));
                assert(sel0.push(s[k as int]).map_values(f) =~= sel0.map_values(f).push(f(s[k as int])));
            }
        }
        k = k + 1;
    }
    proof {
        assert(ledger.invoice_activities@.take(k as int) =~= ledger.invoice_activities@);
    }
    r
}

} // verus!

verus! {

/// Whether invoice `r` of `owner` is one of `ids`.
pub open spec fn listed(r: InvoiceRow, ids: Seq<Seq<char>>, owner: Seq<char>) -> bool {
    r.owner_id@ == owner && ids.contains(r.id@)
}

/// The sum of the amounts of the invoices of `owner` named in `ids`.
pub open spec fn listed_total(s: Seq<InvoiceRow>, ids: Seq<Seq<char>>, owner: Seq<char>) -> int
    decreases s.len(),
{
    if s.len() == 0 {
        0
    } else {
        listed_total(s.drop_last(), ids, owner) + if listed(s.last(), ids, owner) {
            s.last().amount as int
        } else {
            0
        }
    }
}

proof fn lemma_listed_total_prefix(s: Seq<InvoiceRow>, ids: Seq<Seq<char>>, owner: Seq<char>, i: int)
    requires
        0 <= i <= s.len(),
        forall|k: int| 0 <= k < s.len() && listed(#[trigger] s[k], ids, owner) ==> s[k].amount >= 0,
    ensures
        0 <= listed_total(s.take(i), ids, owner) <= listed_total(s, ids, owner),
    decreases s.len() - i,
{
    if i == s.len() {
        assert(s.take(i) =~= s);
        lemma_listed_total_nonneg(s, ids, owner);
    } else {
        lemma_listed_total_prefix(s, ids, owner, i + 1);
        assert(s.take(i + 1).drop_last() =~= s.take(i));
        assert(s.take(i + 1).last() == s[i]);
        lemma_listed_total_nonneg(s.take(i), ids, owner);
    }
}

proof fn lemma_listed_total_nonneg(s: Seq<InvoiceRow>, ids: Seq<Seq<char>>, owner: Seq<char>)
    requires
        forall|k: int| 0 <= k < s.len() && listed(#[trigger] s[k], ids, owner) ==> s[k].amount >= 0,
    ensures
        listed_total(s, ids, owner) >= 0,
    decreases s.len(),
{
    if s.len() > 0 {
        let d = s.drop_last();
        assert forall|k: int| 0 <= k < d.len() && listed(#[trigger] d[k], ids, owner) implies d[k].amount
            >= 0 by {
            assert(d[k] == s[k]);
        }
        lemma_listed_total_nonneg(d, ids, owner);
    }
}

impl InvoiceDao {
    /// The total amount of the invoices of `owner_id` named in `invoice_ids`.
    pub fn get_total_amount(ledger: &Ledger, invoice_ids: &Vec<String>, owner_id: &str) -> (r: DbResult<i128>)
        requires
            forall|k: int|
                0 <= k < ledger.invoices@.len() && listed(
                    #[trigger] ledger.invoices@[k],
                    texts(invoice_ids@),
                    owner_id@,
                ) ==> ledger.invoices@[k].amount >= 0,
            in_range(listed_total(ledger.invoices@, texts(invoice_ids@), owner_id@)),
        ensures
            r == Ok::<i128, DbError>(listed_total(ledger.invoices@, texts(invoice_ids@), owner_id@) as i128),
    {
        let ghost ids = texts(invoice_ids@);
        let mut total: i128 = 0;
        let mut k: usize = 0;
        while k < ledger.invoices.len()
            invariant
                0 <= k <= ledger.invoices.len(),
                ids == texts(invoice_ids@),
                forall|j: int|
                    0 <= j < ledger.invoices@.len() && listed(#[trigger] ledger.invoices@[j], ids, owner_id@)
                        ==> ledger.invoices@[j].amount >= 0,
                in_range(listed_total(ledger.invoices@, ids, owner_id@)),
                total == listed_total(ledger.invoices@.take(k as int), ids, owner_id@),
            decreases ledger.invoices.len() - k,
        {
            proof {
                assert(ledger.invoices@.take(k + 1).drop_last() =~= ledger.invoices@.take(k as int));
                assert(ledger.invoices@.take(k + 1).last() == ledger.invoices@[k as int]);
                lemma_listed_total_prefix(ledger.invoices@, ids, owner_id@, k + 1);
            }
            let inv = &ledger.invoices[k];
            if crate::text::text_eq(inv.owner_id.as_str(), owner_id) && crate::dao::debit_note::contains_text(
                invoice_ids,
                inv.id.as_str(),
            ) {
                total = total + inv.amount;
            }
            k = k + 1;
        }
        proof {
            assert(ledger.invoices@.take(k as int) =~= ledger.invoices@);
        }
        Ok(total)
    }
}

} // verus!

verus! {

/// Storing an invoice that was just stored again is accepted and changes nothing: a resent
/// invoice is recognised.
pub proof fn law_insert_idempotent(
    l0: Ledger,
    l1: Ledger,
    l2: Ledger,
    inv: InvoiceRow,
    ids: Seq<Seq<char>>,
    r1: DbResult<()>,
    r2: DbResult<()>,
)
    requires
        l0.wf(),
        l1.wf(),
        invoice_inserted(&l0, &l1, inv, ids, r1),
        r1 is Ok,
        invoice_inserted(&l1, &l2, inv, ids, r2),
    ensures
        r2 is Ok,
        l2 == l1,
{
    let id = inv.id@;
    let owner = inv.owner_id@;
    if has_key(l0.invoices@, id, owner) {
        assert(l1 == l0);
    } else {
        let k = l1.invoices@.len() - 1;
        assert(l1.invoices@[k] == inv);
        assert(key_is(l1.invoices@[k], id, owner));
        lemma_key_index(l1.invoices@, id, owner, k);
    }
    assert(has_key(l1.invoices@, id, owner));
    assert(equivalent(l1.invoice(id, owner), inv));
}

/// Accepting an invoice for nothing settles it at once, with the acceptance and the
/// settlement recorded in that order.
pub proof fn law_zero_invoice_settles_on_accept(old: Ledger, new: Ledger, id: Seq<char>, owner: Seq<char>)
    requires
        old.wf(),
        new.wf(),
        has_key(old.invoices@, id, owner),
        old.invoice(id, owner).amount == 0,
        invoice_accepted(&old, &new, id, owner),
    ensures
        has_key(new.invoices@, id, owner),
        new.invoice(id, owner).status == DocumentStatus::Settled,
        new.invoice_events@.len() == old.invoice_events@.len() + 2,
        new.invoice_events@[old.invoice_events@.len() as int].event_type == InvoiceEventType::InvoiceAcceptedEvent,
        new.invoice_events@[old.invoice_events@.len() + 1int].event_type == InvoiceEventType::InvoiceSettledEvent,
{
    let k = key_index(old.invoices@, id, owner);
    assert(key_is(old.invoices@[k], id, owner));
    assert(key_is(new.invoices@[k], id, owner));
    lemma_key_index(new.invoices@, id, owner, k);
    let t = seq![InvoiceEventType::InvoiceAcceptedEvent, InvoiceEventType::InvoiceSettledEvent];
    let o = old.invoice_events@.len();
    assert(new.invoice_events@[o + 0int] == new.invoice_events@[o as int]);
    assert(new.invoice_events@[o + 1int] == new.invoice_events@[o + 1int]);
    assert(t[0] == InvoiceEventType::InvoiceAcceptedEvent);
    assert(t[1] == InvoiceEventType::InvoiceSettledEvent);
}

} // verus!
