//! Agreements in the ledger, and the running totals kept on them.
use vstd::prelude::*;
use crate::amount::{format_two_amounts, two_amounts_text};
use crate::error::{DbError, DbResult};
use crate::ledger::{
    find_key, has_key, in_range, is_not_found, key_index, key_is, lemma_key_index,
    lemma_push_new_key, lemma_update_same_key, not_found_error, AgreementRow, ActivityRow, InvoiceEvent,
    InvoiceEventType, InvoiceRow, Ledger,
};
use crate::status::{DocumentStatus, Role};

verus! {

/// The agreements of the ledger; each function takes the ledger it reads or changes.
pub struct AgreementDao;

/// The agreement record in `new` is `row`, in place of the one `old` keeps under `id` and
/// `owner`; nothing else changed.
pub open spec fn agreement_replaced(
    old: &Ledger,
    new: &Ledger,
    id: Seq<char>,
    owner: Seq<char>,
    row: AgreementRow,
) -> bool {
    &&& has_key(old.agreements@, id, owner)
    &&& new.agreements@ == old.agreements@.update(key_index(old.agreements@, id, owner), row)
    &&& Ledger::same_except(old, new, true, false, false, false, false, false)
}

/// A lookup in `old` found no agreement under `id` and `owner`, and nothing changed.
pub open spec fn agreement_missing(
    old: &Ledger,
    new: &Ledger,
    id: Seq<char>,
    owner: Seq<char>,
    r: DbResult<()>,
) -> bool {
    &&& !has_key(old.agreements@, id, owner)
    &&& r matches Err(e) && is_not_found(e)
    &&& *new == *old
}

/// Replaces the agreement at `i` by `row`, which keeps its key.
pub(crate) fn put_agreement(ledger: &mut Ledger, i: usize, row: AgreementRow)
    requires
        old(ledger).wf(),
        i < old(ledger).agreements.len(),
        row.id == old(ledger).agreements@[i as int].id,
        row.owner_id == old(ledger).agreements@[i as int].owner_id,
    ensures
        final(ledger).wf(),
        final(ledger).agreements@ == old(ledger).agreements@.update(i as int, row),
        Ledger::same_except(old(ledger), final(ledger), true, false, false, false, false, false),
{
    proof {
        lemma_update_same_key(old(ledger).agreements@, i as int, row);
    }
    ledger.agreements.set(i, row);
}

/// Finds the agreement under `id` and `owner`.
pub(crate) fn locate(ledger: &Ledger, agreement_id: &str, owner_id: &str) -> (r: Option<usize>)
    requires
        ledger.wf(),
    ensures
        r matches Some(i) ==> i < ledger.agreements.len() && has_key(
            ledger.agreements@,
            agreement_id@,
            owner_id@,
        ) && key_index(ledger.agreements@, agreement_id@, owner_id@) == i,
        r is None ==> !has_key(ledger.agreements@, agreement_id@, owner_id@),
{
    let r = find_key(&ledger.agreements, agreement_id, owner_id);
    match r {
        Some(i) => {
            proof {
                lemma_key_index(ledger.agreements@, agreement_id@, owner_id@, i as int);
            }
        },
        None => {},
    }
    r
}

/// Adds `amount` to what the agreement's documents ask for.
pub fn increase_amount_due(ledger: &mut Ledger, agreement_id: &str, owner_id: &str, amount: i128) -> (r:
    DbResult<()>)
    requires
        old(ledger).wf(),
        has_key(old(ledger).agreements@, agreement_id@, owner_id@) ==> in_range(
            old(ledger).agreement(agreement_id@, owner_id@).total_amount_due + amount,
        ),
    ensures
        final(ledger).wf(),
        agreement_missing(old(ledger), final(ledger), agreement_id@, owner_id@, r) || (r is Ok
            && agreement_replaced(
            old(ledger),
            final(ledger),
            agreement_id@,
            owner_id@,
            AgreementRow {
                total_amount_due: (old(ledger).agreement(agreement_id@, owner_id@).total_amount_due
                    + amount) as i128,
                ..old(ledger).agreement(agreement_id@, owner_id@)
            },
        )),
{
    let i = match locate(ledger, agreement_id, owner_id) {
        Some(i) => i,
        None => {
            return Err(not_found_error());
        },
    };
    let mut row = ledger.agreements[i].duplicate();
    row.total_amount_due = row.total_amount_due + amount;
    put_agreement(ledger, i, row);
    Ok(())
}

/// Text of the refusal to lower what an agreement asks for.
pub open spec fn cannot_lower_text(current: int, requested: int) -> Seq<char> {
    two_amounts_text(
        "Requested amount for agreement cannot be lowered. Current amount requested: "@,
        current,
        " Amount on invoice: "@,
        requested,
    )
}

/// Sets what the agreement's documents ask for to `total_amount_due`; it may not go down.
pub fn set_amount_due(ledger: &mut Ledger, agreement_id: &str, owner_id: &str, total_amount_due: i128) -> (r:
    DbResult<()>)
    requires
        old(ledger).wf(),
    ensures
        final(ledger).wf(),
        agreement_missing(old(ledger), final(ledger), agreement_id@, owner_id@, r) || ({
            let a = old(ledger).agreement(agreement_id@, owner_id@);
            &&& has_key(old(ledger).agreements@, agreement_id@, owner_id@)
            &&& total_amount_due < a.total_amount_due ==> (r matches Err(DbError::Query(m)) && m@
                == cannot_lower_text(a.total_amount_due as int, total_amount_due as int) && *final(
                ledger) == *old(ledger))
            &&& total_amount_due >= a.total_amount_due ==> (r is Ok && agreement_replaced(
                old(ledger),
                final(ledger),
                agreement_id@,
                owner_id@,
                AgreementRow { total_amount_due, ..a },
            ))
        }),
{
    let i = match locate(ledger, agreement_id, owner_id) {
        Some(i) => i,
        None => {
            return Err(not_found_error());
        },
    };
    let current = ledger.agreements[i].total_amount_due;
    if total_amount_due < current {
        return Err(
            DbError::Query(
                format_two_amounts(
                    "Requested amount for agreement cannot be lowered. Current amount requested: ",
                    current,
                    " Amount on invoice: ",
                    total_amount_due,
                ),
            ),
        );
    }
    let mut row = ledger.agreements[i].duplicate();
    row.total_amount_due = total_amount_due;
    put_agreement(ledger, i, row);
    Ok(())
}

/// Sum of what the activities of `agreement_id` owned by `owner` ask for.
pub open spec fn activities_due(acts: Seq<ActivityRow>, agreement_id: Seq<char>, owner: Seq<char>) -> int
    decreases acts.len(),
{
    if acts.len() == 0 {
        0
    } else {
        let a = acts.last();
        activities_due(acts.drop_last(), agreement_id, owner) + if a.owner_id@ == owner
            && a.agreement_id@ == agreement_id {
            a.total_amount_due as int
        } else {
            0
        }
    }
}

/// The activities of `agreement_id` owned by `owner` ask for no negative amount, and for
/// no more in all than the ledger holds.
pub open spec fn activities_due_bounded(acts: Seq<ActivityRow>, agreement_id: Seq<char>, owner: Seq<char>) -> bool {
    &&& forall|k: int|
        0 <= k < acts.len() && (#[trigger] acts[k]).owner_id@ == owner && acts[k].agreement_id@
            == agreement_id ==> acts[k].total_amount_due >= 0
    &&& in_range(activities_due(acts, agreement_id, owner))
}

proof fn lemma_activities_due_prefix(acts: Seq<ActivityRow>, agreement_id: Seq<char>, owner: Seq<char>, i: int)
    requires
        0 <= i <= acts.len(),
        forall|k: int|
            0 <= k < acts.len() && (#[trigger] acts[k]).owner_id@ == owner && acts[k].agreement_id@
                == agreement_id ==> acts[k].total_amount_due >= 0,
    ensures
        0 <= activities_due(acts.take(i), agreement_id, owner) <= activities_due(acts, agreement_id, owner),
    decreases acts.len() - i,
{
    if i == acts.len() {
        assert(acts.take(i) =~= acts);
        lemma_activities_due_nonneg(acts, agreement_id, owner);
    } else {
        lemma_activities_due_prefix(acts, agreement_id, owner, i + 1);
        assert(acts.take(i + 1).drop_last() =~= acts.take(i));
        assert(acts.take(i + 1).last() == acts[i]);
        lemma_activities_due_nonneg(acts.take(i), agreement_id, owner);
    }
}

proof fn lemma_activities_due_nonneg(acts: Seq<ActivityRow>, agreement_id: Seq<char>, owner: Seq<char>)
    requires
        forall|k: int|
            0 <= k < acts.len() && (#[trigger] acts[k]).owner_id@ == owner && acts[k].agreement_id@
                == agreement_id ==> acts[k].total_amount_due >= 0,
    ensures
        activities_due(acts, agreement_id, owner) >= 0,
    decreases acts.len(),
{
    if acts.len() > 0 {
        let d = acts.drop_last();
        assert forall|k: int|
            0 <= k < d.len() && (#[trigger] d[k]).owner_id@ == owner && d[k].agreement_id@
                == agreement_id implies d[k].total_amount_due >= 0 by {
            assert(d[k] == acts[k]);
        }
        lemma_activities_due_nonneg(d, agreement_id, owner);
    }
}

/// Sets what the agreement asks for to the sum of what its activities ask for.
pub fn compute_amount_due(ledger: &mut Ledger, agreement_id: &str, owner_id: &str) -> (r: DbResult<()>)
    requires
        old(ledger).wf(),
        activities_due_bounded(old(ledger).activities@, agreement_id@, owner_id@),
    ensures
        final(ledger).wf(),
        agreement_missing(old(ledger), final(ledger), agreement_id@, owner_id@, r) || (r is Ok
            && agreement_replaced(
            old(ledger),
            final(ledger),
            agreement_id@,
            owner_id@,
            AgreementRow {
                total_amount_due: activities_due(old(ledger).activities@, agreement_id@, owner_id@) as i128,
                ..old(ledger).agreement(agreement_id@, owner_id@)
            },
        )),
{
    let i = match locate(ledger, agreement_id, owner_id) {
        Some(i) => i,
        None => {
            return Err(not_found_error());
        },
    };
    let mut total: i128 = 0;
    let mut k: usize = 0;
    while k < ledger.activities.len()
        invariant
            ledger.wf(),
            0 <= k <= ledger.activities.len(),
            activities_due_bounded(ledger.activities@, agreement_id@, owner_id@),
            total == activities_due(ledger.activities@.take(k as int), agreement_id@, owner_id@),
        decreases ledger.activities.len() - k,
    {
        let a = &ledger.activities[k];
        proof {
            assert(ledger.activities@.take(k + 1).drop_last() =~= ledger.activities@.take(k as int));
            assert(ledger.activities@.take(k + 1).last() == ledger.activities@[k as int]);
            lemma_activities_due_prefix(ledger.activities@, agreement_id@, owner_id@, k + 1);
        }
        if crate::text::text_eq(a.owner_id.as_str(), owner_id) && crate::text::text_eq(
            a.agreement_id.as_str(),
            agreement_id,
        ) {
            total = total + a.total_amount_due;
        }
        k = k + 1;
    }
    proof {
        assert(ledger.activities@.take(k as int) =~= ledger.activities@);
    }
    let mut row = ledger.agreements[i].duplicate();
    row.total_amount_due = total;
    put_agreement(ledger, i, row);
    Ok(())
}

/// Adds `amount` to what was accepted on the agreement.
pub fn increase_amount_accepted(ledger: &mut Ledger, agreement_id: &str, owner_id: &str, amount: i128) -> (r:
    DbResult<()>)
    requires
        old(ledger).wf(),
        has_key(old(ledger).agreements@, agreement_id@, owner_id@) ==> in_range(
            old(ledger).agreement(agreement_id@, owner_id@).total_amount_accepted + amount,
        ),
    ensures
        final(ledger).wf(),
        agreement_missing(old(ledger), final(ledger), agreement_id@, owner_id@, r) || (r is Ok
            && agreement_replaced(
            old(ledger),
            final(ledger),
            agreement_id@,
            owner_id@,
            AgreementRow {
                total_amount_accepted: (old(ledger).agreement(
                    agreement_id@,
                    owner_id@,
                ).total_amount_accepted + amount) as i128,
                ..old(ledger).agreement(agreement_id@, owner_id@)
            },
        )),
{
    let i = match locate(ledger, agreement_id, owner_id) {
        Some(i) => i,
        None => {
            return Err(not_found_error());
        },
    };
    let mut row = ledger.agreements[i].duplicate();
    row.total_amount_accepted = row.total_amount_accepted + amount;
    put_agreement(ledger, i, row);
    Ok(())
}

/// Adds `amount` to what is scheduled for payment on the agreement.
pub fn increase_amount_scheduled(ledger: &mut Ledger, agreement_id: &str, owner_id: &str, amount: i128) -> (r:
    DbResult<()>)
    requires
        old(ledger).wf(),
        has_key(old(ledger).agreements@, agreement_id@, owner_id@) ==> in_range(
            old(ledger).agreement(agreement_id@, owner_id@).total_amount_scheduled + amount,
        ),
    ensures
        final(ledger).wf(),
        agreement_missing(old(ledger), final(ledger), agreement_id@, owner_id@, r) || (r is Ok
            && agreement_replaced(
            old(ledger),
            final(ledger),
            agreement_id@,
            owner_id@,
            AgreementRow {
                total_amount_scheduled: (old(ledger).agreement(
                    agreement_id@,
                    owner_id@,
                ).total_amount_scheduled + amount) as i128,
                ..old(ledger).agreement(agreement_id@, owner_id@)
            },
        )),
{
    let i = match locate(ledger, agreement_id, owner_id) {
        Some(i) => i,
        None => {
            return Err(not_found_error());
        },
    };
    let mut row = ledger.agreements[i].duplicate();
    row.total_amount_scheduled = row.total_amount_scheduled + amount;
    put_agreement(ledger, i, row);
    Ok(())
}

/// Sets what was accepted on the agreement to `total_amount_accepted`.
pub fn set_amount_accepted(
    ledger: &mut Ledger,
    agreement_id: &str,
    owner_id: &str,
    total_amount_accepted: i128,
) -> (r: DbResult<()>)
    requires
        old(ledger).wf(),
    ensures
        final(ledger).wf(),
        agreement_missing(old(ledger), final(ledger), agreement_id@, owner_id@, r) || (r is Ok
            && agreement_replaced(
            old(ledger),
            final(ledger),
            agreement_id@,
            owner_id@,
            AgreementRow {
                total_amount_accepted,
                ..old(ledger).agreement(agreement_id@, owner_id@)
            },
        )),
{
    let i = match locate(ledger, agreement_id, owner_id) {
        Some(i) => i,
        None => {
            return Err(not_found_error());
        },
    };
    let mut row = ledger.agreements[i].duplicate();
    row.total_amount_accepted = total_amount_accepted;
    put_agreement(ledger, i, row);
    Ok(())
}

} // verus!

verus! {

/// An invoice of `agreement_id` owned by `owner` that is neither cancelled nor settled.
pub open spec fn open_invoice_of(r: InvoiceRow, agreement_id: Seq<char>, owner: Seq<char>) -> bool {
    &&& r.agreement_id@ == agreement_id
    &&& r.owner_id@ == owner
    &&& r.status != DocumentStatus::Cancelled
    &&& r.status != DocumentStatus::Settled
}

pub open spec fn is_first_open(s: Seq<InvoiceRow>, i: int, agreement_id: Seq<char>, owner: Seq<char>) -> bool {
    &&& 0 <= i < s.len()
    &&& open_invoice_of(s[i], agreement_id, owner)
    &&& forall|k: int| 0 <= k < i ==> !open_invoice_of(#[trigger] s[k], agreement_id, owner)
}

/// Where the first open invoice of the agreement stands, or -1 where it has none.
pub open spec fn first_open_invoice(s: Seq<InvoiceRow>, agreement_id: Seq<char>, owner: Seq<char>) -> int {
    if exists|i: int| #[trigger] is_first_open(s, i, agreement_id, owner) {
        choose|i: int| #[trigger] is_first_open(s, i, agreement_id, owner)
    } else {
        -1
    }
}

proof fn lemma_first_open(s: Seq<InvoiceRow>, i: int, agreement_id: Seq<char>, owner: Seq<char>)
    requires
        is_first_open(s, i, agreement_id, owner),
    ensures
        first_open_invoice(s, agreement_id, owner) == i,
{
    let j = first_open_invoice(s, agreement_id, owner);
    assert(is_first_open(s, j, agreement_id, owner));
    if j < i {
        assert(!open_invoice_of(s[j], agreement_id, owner));
    } else if i < j {
        assert(!open_invoice_of(s[i], agreement_id, owner));
    }
}

fn find_first_open(invoices: &Vec<InvoiceRow>, agreement_id: &str, owner_id: &str) -> (r: Option<usize>)
    ensures
        r matches Some(i) ==> is_first_open(invoices@, i as int, agreement_id@, owner_id@)
            && first_open_invoice(invoices@, agreement_id@, owner_id@) == i,
        r is None ==> first_open_invoice(invoices@, agreement_id@, owner_id@) == -1,
{
    let mut i: usize = 0;
    while i < invoices.len()
        invariant
            0 <= i <= invoices.len(),
            forall|k: int| 0 <= k < i ==> !open_invoice_of(#[trigger] invoices@[k], agreement_id@, owner_id@),
        decreases invoices.len() - i,
    {
        let inv = &invoices[i];
        let open = crate::text::text_eq(inv.agreement_id.as_str(), agreement_id)
            && crate::text::text_eq(inv.owner_id.as_str(), owner_id)
            && !matches!(inv.status, DocumentStatus::Cancelled)
            && !matches!(inv.status, DocumentStatus::Settled);
        if open {
            proof {
                lemma_first_open(invoices@, i as int, agreement_id@, owner_id@);
            }
            return Some(i);
        }
        i = i + 1;
    }
    proof {
        if exists|j: int| #[trigger] is_first_open(invoices@, j, agreement_id@, owner_id@) {
            let j = choose|j: int| #[trigger] is_first_open(invoices@, j, agreement_id@, owner_id@);
            assert(!open_invoice_of(invoices@[j], agreement_id@, owner_id@));
        }
    }
    None
}

/// What paying `amount` on an agreement does: the agreement's paid total grows by it, and
/// where the first open invoice of the agreement is covered by the new total, that invoice
/// is settled and a settlement event recorded.
pub open spec fn paid_on_agreement(
    old: &Ledger,
    new: &Ledger,
    agreement_id: Seq<char>,
    owner: Seq<char>,
    amount: int,
) -> bool {
    &&& paid_on_agreement_tables(old, new, agreement_id, owner, amount)
    &&& Ledger::same_except(old, new, true, false, true, false, true, false)
}

/// The agreements, invoices and invoice events after paying `amount` on an agreement.
pub open spec fn paid_on_agreement_tables(
    old: &Ledger,
    new: &Ledger,
    agreement_id: Seq<char>,
    owner: Seq<char>,
    amount: int,
) -> bool {
    let a = old.agreement(agreement_id, owner);
    let paid = a.total_amount_paid + amount;
    let k = first_open_invoice(old.invoices@, agreement_id, owner);
    &&& new.agreements@ == old.agreements@.update(
        key_index(old.agreements@, agreement_id, owner),
        AgreementRow { total_amount_paid: paid as i128, ..a },
    )
    &&& if k >= 0 && old.invoices@[k].amount <= paid {
        &&& new.invoices@ == old.invoices@.update(
            k,
            InvoiceRow { status: DocumentStatus::Settled, ..old.invoices@[k] },
        )
        &&& crate::ledger::invoice_events_appended(
            old.invoice_events@,
            new.invoice_events@,
            old.invoices@[k].id@,
            owner,
            seq![InvoiceEventType::InvoiceSettledEvent],
        )
    } else {
        &&& new.invoices == old.invoices
        &&& new.invoice_events == old.invoice_events
    }
}

/// Paying on an agreement settles its first invoice that is neither cancelled nor settled
/// exactly when the agreement's new paid total reaches that invoice's amount (a payment of
/// exactly the amount settles it): the invoice becomes settled and one settlement event on
/// it is added; otherwise it keeps its status and no event is added. Either way the
/// agreement's paid total grows by the payment.
pub proof fn law_payment_settles_first_open_invoice(
    old: &Ledger,
    new: &Ledger,
    agreement_id: Seq<char>,
    owner: Seq<char>,
    amount: int,
    k: int,
)
    requires
        old.wf(),
        has_key(old.agreements@, agreement_id, owner),
        paid_on_agreement_tables(old, new, agreement_id, owner, amount),
        0 <= k < old.invoices@.len(),
        old.invoices@[k].agreement_id@ == agreement_id,
        old.invoices@[k].owner_id@ == owner,
        old.invoices@[k].status != DocumentStatus::Cancelled,
        old.invoices@[k].status != DocumentStatus::Settled,
        forall|j: int|
            0 <= j < k ==> !((#[trigger] old.invoices@[j]).agreement_id@ == agreement_id && old.invoices@[j].owner_id@
                == owner && old.invoices@[j].status != DocumentStatus::Cancelled && old.invoices@[j].status
                != DocumentStatus::Settled),
    ensures
        ({
            let paid = old.agreement(agreement_id, owner).total_amount_paid + amount;
            let settles = old.invoices@[k].amount <= paid;
            &&& new.invoices@.len() == old.invoices@.len()
            &&& new.invoices@[k].status == (if settles {
                DocumentStatus::Settled
            } else {
                old.invoices@[k].status
            })
            &&& forall|j: int| 0 <= j < old.invoices@.len() && j != k ==> new.invoices@[j] == old.invoices@[j]
            &&& new.invoice_events@.len() == old.invoice_events@.len() + (if settles {
                1int
            } else {
                0int
            })
            &&& settles ==> new.invoice_events@.last().event_type == InvoiceEventType::InvoiceSettledEvent
                && new.invoice_events@.last().invoice_id@ == old.invoices@[k].id@
            &&& new.agreements@[key_index(old.agreements@, agreement_id, owner)].total_amount_paid == paid as i128
        }),
{
    assert(is_first_open(old.invoices@, k, agreement_id, owner));
    lemma_first_open(old.invoices@, k, agreement_id, owner);
    let paid = old.agreement(agreement_id, owner).total_amount_paid + amount;
    if old.invoices@[k].amount <= paid {
        assert(new.invoice_events@[old.invoice_events@.len() + 0int].event_type == seq![InvoiceEventType::InvoiceSettledEvent][0]);
    }
}

/// Adds `amount` to what was paid on the agreement, and settles its first open invoice
/// where the paid total now covers it.
pub fn increase_amount_paid(ledger: &mut Ledger, agreement_id: &str, owner_id: &str, amount: i128) -> (r:
    DbResult<()>)
    requires
        old(ledger).wf(),
        has_key(old(ledger).agreements@, agreement_id@, owner_id@) ==> in_range(
            old(ledger).agreement(agreement_id@, owner_id@).total_amount_paid + amount,
        ),
    ensures
        final(ledger).wf(),
        agreement_missing(old(ledger), final(ledger), agreement_id@, owner_id@, r) || (r is Ok
            && has_key(old(ledger).agreements@, agreement_id@, owner_id@) && paid_on_agreement(
            old(ledger),
            final(ledger),
            agreement_id@,
            owner_id@,
            amount as int,
        )),
{
    let i = match locate(ledger, agreement_id, owner_id) {
        Some(i) => i,
        None => {
            return Err(not_found_error());
        },
    };
    let mut row = ledger.agreements[i].duplicate();
    let total_amount_paid = row.total_amount_paid + amount;
    row.total_amount_paid = total_amount_paid;
    put_agreement(ledger, i, row);
    let ghost mid = *ledger;
    match find_first_open(&ledger.invoices, agreement_id, owner_id) {
        Some(k) => {
            if ledger.invoices[k].amount <= total_amount_paid {
                let invoice_id = ledger.invoices[k].id.clone();
                proof {
                    lemma_key_index(ledger.invoices@, invoice_id@, owner_id@, k as int);
                }
                crate::dao::invoice::update_status(
                    ledger,
                    invoice_id.as_str(),
                    owner_id,
                    DocumentStatus::Settled,
                );
                crate::dao::invoice::create_event(
                    ledger,
                    invoice_id.as_str(),
                    owner_id,
                    InvoiceEventType::InvoiceSettledEvent,
                );
            }
        },
        None => {},
    }
    Ok(())
}

/// An error raised while adding a payment to an agreement, carrying its message.
#[derive(Debug)]
pub struct IncreaseAmountPaidError {
    pub details: String,
}

impl IncreaseAmountPaidError {
    pub fn new(msg: String) -> (r: IncreaseAmountPaidError)
        ensures
            r.details == msg,
    {
        IncreaseAmountPaidError { details: msg }
    }

    /// The error's text: its message.
    pub fn message(&self) -> (r: String)
        ensures
            r@ == self.details@,
    {
        self.details.clone()
    }
}

} // verus!

verus! {

impl AgreementDao {
    /// The agreement under `agreement_id` and `owner_id`, where there is one.
    pub fn get(ledger: &Ledger, agreement_id: &str, owner_id: &str) -> (r: Option<AgreementRow>)
        requires
            ledger.wf(),
        ensures
            has_key(ledger.agreements@, agreement_id@, owner_id@) ==> r == Some(
                ledger.agreement(agreement_id@, owner_id@),
            ),
            !has_key(ledger.agreements@, agreement_id@, owner_id@) ==> r is None,
    {
        match locate(ledger, agreement_id, owner_id) {
            Some(i) => Some(ledger.agreements[i].duplicate()),
            None => None,
        }
    }
}

impl AgreementDao {
    /// Stores the agreement `row` unless one is kept under its id and owner already.
    pub fn create_if_not_exists(ledger: &mut Ledger, row: AgreementRow) -> (r: DbResult<()>)
        requires
            old(ledger).wf(),
        ensures
            final(ledger).wf(),
            r is Ok,
            has_key(old(ledger).agreements@, row.id@, row.owner_id@) ==> *final(ledger) == *old(ledger),
            !has_key(old(ledger).agreements@, row.id@, row.owner_id@) ==> final(ledger).agreements@
                == old(ledger).agreements@.push(row) && Ledger::same_except(
                old(ledger),
                final(ledger),
                true,
                false,
                false,
                false,
                false,
                false,
            ),
    {
        if locate(ledger, row.id.as_str(), row.owner_id.as_str()).is_some() {
            return Ok(());
        }
        proof {
            lemma_push_new_key(ledger.agreements@, row);
        }
        ledger.agreements.push(row);
        Ok(())
    }
}

pub open spec fn agreement_created_times(s: Seq<AgreementRow>) -> Seq<i64> {
    s.map_values(|a: AgreementRow| a.created_ts)
}

/// `r` lists the agreements of `node` created after `after`, oldest first (`perm` being
/// that order, equal times in stored order), at most `max_items` of them.
pub open spec fn agreements_listed(
    l: &Ledger,
    node: Seq<char>,
    after: Option<i64>,
    max_items: Option<u32>,
    perm: Seq<usize>,
    r: Seq<AgreementRow>,
) -> bool {
    let m = crate::dao::invoice::select_by(
        l.agreements@,
        |a: AgreementRow| a.owner_id@ == node && (after matches Some(t) ==> a.created_ts > t),
    );
    &&& crate::order::index_perm(perm, m.len())
    &&& crate::order::sorted_by(agreement_created_times(m), perm, false)
    &&& r == crate::order::limit(crate::order::permuted(m, perm), max_items)
}

impl AgreementDao {
    /// The agreements of `node_id` created after `after_timestamp`, oldest first, at most
    /// `max_items` of them.
    pub fn get_for_node_id(ledger: &Ledger, node_id: &str, after_timestamp: Option<i64>, max_items: Option<u32>) -> (r:
        Vec<AgreementRow>)
        ensures
            exists|perm: Seq<usize>| agreements_listed(ledger, node_id@, after_timestamp, max_items, perm, r@),
    {
        let ghost p = |a: AgreementRow| a.owner_id@ == node_id@ && (after_timestamp matches Some(t) ==> a.created_ts > t);
        let mut m: Vec<AgreementRow> = Vec::new();
        let mut k: usize = 0;
        while k < ledger.agreements.len()
            invariant
                0 <= k <= ledger.agreements.len(),
                p == (|a: AgreementRow| a.owner_id@ == node_id@ && (after_timestamp matches Some(t) ==> a.created_ts > t)),
                m@ == crate::dao::invoice::select_by(ledger.agreements@.take(k as int), p),
            decreases ledger.agreements.len() - k,
        {
            proof {
                assert(ledger.agreements@.take(k + 1).drop_last() =~= ledger.agreements@.take(k as int));
                assert(ledger.agreements@.take(k + 1).last() == ledger.agreements@[k as int]);
            }
            let a = &ledger.agreements[k];
            let after = match after_timestamp {
                Some(t) => a.created_ts > t,
                None => true,
            };
            if crate::text::text_eq(a.owner_id.as_str(), node_id) && after {
                m.push(a.duplicate());
            }
            k = k + 1;
        }
        proof {
            assert(ledger.agreements@.take(k as int) =~= ledger.agreements@);
        }
        let mut keys: Vec<i64> = Vec::new();
        let mut i: usize = 0;
        while i < m.len()
            invariant
                0 <= i <= m.len(),
                keys@ == agreement_created_times(m@).take(i as int),
            decreases m.len() - i,
        {
            keys.push(m[i].created_ts);
            proof {
                assert(agreement_created_times(m@).take(i + 1) =~= agreement_created_times(m@).take(i as int).push(
                    m@[i as int].created_ts,
                ));
            }
            i = i + 1;
        }
        proof {
            assert(agreement_created_times(m@).take(i as int) =~= agreement_created_times(m@));
        }
        let perm = crate::order::order_by_key(&keys, false);
        let n: usize = match max_items {
            Some(max) => if (max as usize) < perm.len() {
                max as usize
            } else {
                perm.len()
            },
            None => perm.len(),
        };
        let ghost ordered = crate::order::permuted(m@, perm@);
        proof {
            assert(crate::order::limit(ordered, max_items) =~= ordered.take(n as int));
        }
        let mut r: Vec<AgreementRow> = Vec::new();
        let mut j: usize = 0;
        while j < n
            invariant
                0 <= j <= n,
                n <= perm@.len(),
                crate::order::index_perm(perm@, m@.len()),
                ordered == crate::order::permuted(m@, perm@),
                r@ == ordered.take(j as int),
            decreases n - j,
        {
            let pos = perm[j];
            r.push(m[pos].duplicate());
            proof {
                assert(ordered.take(j + 1) =~= ordered.take(j as int).push(m@[pos as int]));
            }
            j = j + 1;
        }
        proof {
            assert(agreements_listed(ledger, node_id@, after_timestamp, max_items, perm@, r@));
        }
        r
    }
}

/// The sum of what was paid on the agreements of `owner` from `payer_addr` to `payee_addr`.
pub open spec fn paid_between(s: Seq<AgreementRow>, owner: Seq<char>, payee_addr: Seq<char>, payer_addr: Seq<char>) -> int
    decreases s.len(),
{
    if s.len() == 0 {
        0
    } else {
        let a = s.last();
        paid_between(s.drop_last(), owner, payee_addr, payer_addr) + if a.owner_id@ == owner && a.payee_addr@
            == payee_addr && a.payer_addr@ == payer_addr {
            a.total_amount_paid as int
        } else {
            0
        }
    }
}

impl AgreementDao {
    /// What `node_id` paid or was paid between `payer_addr` and `payee_addr`: the sum of what
    /// was paid on its agreements between them.
    pub fn get_transaction_balance(ledger: &Ledger, node_id: &str, payee_addr: &str, payer_addr: &str) -> (r: i128)
        requires
            forall|k: int|
                0 <= k <= ledger.agreements@.len() ==> i128::MIN <= #[trigger] paid_between(
                    ledger.agreements@.take(k),
                    node_id@,
                    payee_addr@,
                    payer_addr@,
                ) <= i128::MAX,
        ensures
            r == paid_between(ledger.agreements@, node_id@, payee_addr@, payer_addr@),
    {
        let mut total: i128 = 0;
        let mut k: usize = 0;
        proof {
            assert(ledger.agreements@.take(0) =~= Seq::<AgreementRow>::empty());
        }
        while k < ledger.agreements.len()
            invariant
                0 <= k <= ledger.agreements.len(),
                total == paid_between(ledger.agreements@.take(k as int), node_id@, payee_addr@, payer_addr@),
                forall|j: int|
                    0 <= j <= ledger.agreements@.len() ==> i128::MIN <= #[trigger] paid_between(
                        ledger.agreements@.take(j),
                        node_id@,
                        payee_addr@,
                        payer_addr@,
                    ) <= i128::MAX,
            decreases ledger.agreements.len() - k,
        {
            proof {
                assert(ledger.agreements@.take(k + 1).drop_last() =~= ledger.agreements@.take(k as int));
                assert(ledger.agreements@.take(k + 1).last() == ledger.agreements@[k as int]);
                assert(i128::MIN <= paid_between(ledger.agreements@.take(k + 1), node_id@, payee_addr@, payer_addr@) <= i128::MAX);
            }
            let a = &ledger.agreements[k];
            if crate::text::text_eq(a.owner_id.as_str(), node_id) && crate::text::text_eq(a.payee_addr.as_str(), payee_addr)
                && crate::text::text_eq(a.payer_addr.as_str(), payer_addr) {
                total = total + a.total_amount_paid;
            }
            k = k + 1;
        }
        proof {
            assert(ledger.agreements@.take(k as int) =~= ledger.agreements@);
        }
        total
    }
}

/// Whether some invoice, of any owner, names agreement `id` and is later than `after`.
pub open spec fn invoiced_after(l: &Ledger, id: Seq<char>, after: i64) -> bool {
    exists|k: int|
        0 <= k < l.invoices@.len() && #[trigger] l.invoices@[k].agreement_id@ == id && l.invoices@[k].timestamp
            > after
}

fn invoiced_after_exec(ledger: &Ledger, id: &str, after: i64) -> (r: bool)
    ensures
        r == invoiced_after(ledger, id@, after),
{
    let mut k: usize = 0;
    while k < ledger.invoices.len()
        invariant
            0 <= k <= ledger.invoices.len(),
            forall|j: int| 0 <= j < k ==> !(#[trigger] ledger.invoices@[j].agreement_id@ == id@ && ledger.invoices@[j].timestamp > after),
        decreases ledger.invoices.len() - k,
    {
        if crate::text::text_eq(ledger.invoices[k].agreement_id.as_str(), id) && ledger.invoices[k].timestamp > after {
            return true;
        }
        k = k + 1;
    }
    false
}

/// Whether agreement `a` counts in a summary of `role` on `platform` for `addr` (the payee's
/// address for the provider, the payer's for the requestor): it was invoiced after `after`.
pub open spec fn summarised(l: &Ledger, a: AgreementRow, role: Role, platform: Seq<char>, addr: Seq<char>, after: i64) -> bool {
    &&& a.role == role
    &&& a.payment_platform@ == platform
    &&& (if role == Role::Provider { a.payee_addr@ } else { a.payer_addr@ }) == addr
    &&& invoiced_after(l, a.id@, after)
}

fn summary_agreements(ledger: &Ledger, role: Role, platform: &str, addr: &str, after: i64) -> (r: Vec<AgreementRow>)
    ensures
        r@ == crate::dao::invoice::select_by(
            ledger.agreements@,
            |a: AgreementRow| summarised(ledger, a, role, platform@, addr@, after),
        ),
{
    let ghost p = |a: AgreementRow| summarised(ledger, a, role, platform@, addr@, after);
    let mut r: Vec<AgreementRow> = Vec::new();
    let mut k: usize = 0;
    while k < ledger.agreements.len()
        invariant
            0 <= k <= ledger.agreements.len(),
            p == (|a: AgreementRow| summarised(ledger, a, role, platform@, addr@, after)),
            r@ == crate::dao::invoice::select_by(ledger.agreements@.take(k as int), p),
        decreases ledger.agreements.len() - k,
    {
        proof {
            assert(ledger.agreements@.take(k + 1).drop_last() =~= ledger.agreements@.take(k as int));
            assert(ledger.agreements@.take(k + 1).last() == ledger.agreements@[k as int]);
        }
        let a = &ledger.agreements[k];
        let address = if role == Role::Provider {
            &a.payee_addr
        } else {
            &a.payer_addr
        };
        if a.role == role && crate::text::text_eq(a.payment_platform.as_str(), platform) && crate::text::text_eq(
            address.as_str(),
            addr,
        ) && invoiced_after_exec(ledger, a.id.as_str(), after) {
            r.push(a.duplicate());
        }
        k = k + 1;
    }
    proof {
        assert(ledger.agreements@.take(k as int) =~= ledger.agreements@);
    }
    r
}

impl AgreementDao {
    /// The provider's agreements on `platform` paid to `payee_addr` that were invoiced after
    /// `after_timestamp`: what the summary of incoming transactions adds up.
    pub fn incoming_transaction_summary(ledger: &Ledger, platform: &str, payee_addr: &str, after_timestamp: i64) -> (r:
        Vec<AgreementRow>)
        ensures
            r@ == crate::dao::invoice::select_by(
                ledger.agreements@,
                |a: AgreementRow| summarised(ledger, a, Role::Provider, platform@, payee_addr@, after_timestamp),
            ),
    {
        summary_agreements(ledger, Role::Provider, platform, payee_addr, after_timestamp)
    }
}

impl AgreementDao {
    /// The requestor's agreements on `platform` paid from `payer_addr` that were invoiced after
    /// `after_timestamp`: what the summary of outgoing transactions adds up.
    pub fn outgoing_transaction_summary(ledger: &Ledger, platform: &str, payer_addr: &str, after_timestamp: i64) -> (r:
        Vec<AgreementRow>)
        ensures
            r@ == crate::dao::invoice::select_by(
                ledger.agreements@,
                |a: AgreementRow| summarised(ledger, a, Role::Requestor, platform@, payer_addr@, after_timestamp),
            ),
    {
        summary_agreements(ledger, Role::Requestor, platform, payer_addr, after_timestamp)
    }
}

} // verus!
