//! Turning what a requestor owes on a platform into a stored batch order: the ledger's
//! activities and invoices are read with their agreements, covered from the allocations'
//! expenditures, and the order, the raised scheduled amounts and the expenditures are
//! written back together.
use vstd::prelude::*;
use crate::dao::activity::{locate_activity, put_activity};
use crate::dao::agreement::{locate, put_agreement};
use crate::dao::allocation::{opt_text_view, AllocationDao, AllocationRow};
use crate::dao::batch::{
    activities_pay_total, activity_part_spec, agreement_part_spec, allocations_total,
    allocations_view, amount_limit, amounts_bounded, changed_expenditures, cover_payments,
    expenditures_bounded, expenditure_bounded, expenditures_progress, increase_amount,
    increases_total,
    invoices_pay_total, is_payee_parse_error, items_sound, lemma_activity_part,
    lemma_agreement_part, lemma_cover_payments, lemma_increases_of_sound, lemma_payments_sound,
    open_expenditures, payments_total, pos_part, resolve_invoices, scheduled_increases, ActivityPaymentRow,
    BatchPaymentAllocation, BatchPaymentAllocationView, BatchPaymentObligationAllocation,
    BatchPaymentView, InvoicePaymentRow, ResolveInvoiceArgs, ResolvedBatchOrder, ScheduledIncrease,
};
use crate::clock::{new_uuid, now_millis};
use crate::dao::batch_order::{BatchDao, BatchOrderItemDocumentRow, BatchOrderItemRow, BatchOrderRow};
use crate::error::DbResult;
use crate::ledger::{
    has_key, in_range, is_not_found, key_index, not_found_error, ActivityRow, AgreementRow,
    DebitNoteRow, InvoiceRow, Ledger,
};
use crate::models::{clone_opt, ExpenditureRow};
use crate::sums::{lemma_seq_sum_nonneg, lemma_seq_sum_take_le};
use crate::status::DocumentStatus;
use crate::text::text_eq;

verus! {

/// The id of the last debit note of the activity, in the order the ledger stored them,
/// that was accepted.
pub open spec fn last_accepted_note(
    notes: Seq<DebitNoteRow>,
    activity_id: Seq<char>,
    owner: Seq<char>,
) -> Option<String>
    decreases notes.len(),
{
    if notes.len() == 0 {
        None
    } else {
        let n = notes.last();
        if n.activity_id@ == activity_id && n.owner_id@ == owner && n.status
            == DocumentStatus::Accepted {
            Some(n.id)
        } else {
            last_accepted_note(notes.drop_last(), activity_id, owner)
        }
    }
}

fn find_last_accepted_note(notes: &Vec<DebitNoteRow>, activity_id: &str, owner_id: &str) -> (r:
    Option<String>)
    ensures
        r == last_accepted_note(notes@, activity_id@, owner_id@),
{
    let mut i: usize = notes.len();
    proof {
        assert(notes@.take(i as int) =~= notes@);
    }
    while i > 0
        invariant
            i <= notes.len(),
            last_accepted_note(notes@, activity_id@, owner_id@) == last_accepted_note(
                notes@.take(i as int),
                activity_id@,
                owner_id@,
            ),
        decreases i,
    {
        let n = &notes[i - 1];
        proof {
            assert(notes@.take(i as int).drop_last() =~= notes@.take(i - 1));
            assert(notes@.take(i as int).last() == notes@[i - 1]);
        }
        if text_eq(n.activity_id.as_str(), activity_id) && text_eq(n.owner_id.as_str(), owner_id)
            && n.status == DocumentStatus::Accepted {
            return Some(n.id.clone());
        }
        i = i - 1;
    }
    None
}

/// An activity is read together with its agreement: the one of the same owner under the
/// activity's agreement id, on the same side.
pub open spec fn activity_joined(l: &Ledger, a: ActivityRow) -> bool {
    &&& has_key(l.agreements@, a.agreement_id@, a.owner_id@)
    &&& l.agreement(a.agreement_id@, a.owner_id@).role == a.role
}

/// The activity as the resolver reads it.
pub open spec fn activity_payment_row(l: &Ledger, a: ActivityRow) -> ActivityPaymentRow {
    let g = l.agreement(a.agreement_id@, a.owner_id@);
    ActivityPaymentRow {
        id: a.id,
        owner_id: a.owner_id,
        role: a.role,
        agreement_id: g.id,
        peer_id: g.peer_id,
        payee_addr: g.payee_addr,
        payment_platform: g.payment_platform,
        agreement_updated_ts: g.updated_ts,
        total_amount_accepted: a.total_amount_accepted,
        total_amount_scheduled: a.total_amount_scheduled,
        debit_note_id: last_accepted_note(l.debit_notes@, a.id@, a.owner_id@),
    }
}

/// The joined rows of the activities in `acts`, in order.
pub open spec fn activity_rows_of(l: &Ledger, acts: Seq<ActivityRow>) -> Seq<ActivityPaymentRow>
    decreases acts.len(),
{
    if acts.len() == 0 {
        Seq::empty()
    } else {
        let rest = activity_rows_of(l, acts.drop_last());
        if activity_joined(l, acts.last()) {
            rest.push(activity_payment_row(l, acts.last()))
        } else {
            rest
        }
    }
}

/// Every activity of the ledger read with its agreement, in the ledger's order.
pub open spec fn activity_payment_rows(l: &Ledger) -> Seq<ActivityPaymentRow> {
    activity_rows_of(l, l.activities@)
}

/// Reads the ledger's activities with their agreements and last accepted debit notes.
pub fn read_activity_payment_rows(ledger: &Ledger) -> (r: Vec<ActivityPaymentRow>)
    requires
        ledger.wf(),
    ensures
        r@ == activity_payment_rows(ledger),
{
    let mut out: Vec<ActivityPaymentRow> = Vec::new();
    let mut k: usize = 0;
    proof {
        assert(ledger.activities@.take(0) =~= Seq::<ActivityRow>::empty());
    }
    while k < ledger.activities.len()
        invariant
            ledger.wf(),
            0 <= k <= ledger.activities.len(),
            out@ == activity_rows_of(ledger, ledger.activities@.take(k as int)),
        decreases ledger.activities.len() - k,
    {
        let a = &ledger.activities[k];
        proof {
            assert(ledger.activities@.take(k + 1).drop_last() =~= ledger.activities@.take(
                k as int,
            ));
            assert(ledger.activities@.take(k + 1).last() == ledger.activities@[k as int]);
        }
        match locate(ledger, a.agreement_id.as_str(), a.owner_id.as_str()) {
            Some(j) => {
                let g = &ledger.agreements[j];
                if g.role == a.role {
                    let note = find_last_accepted_note(
                        &ledger.debit_notes,
                        a.id.as_str(),
                        a.owner_id.as_str(),
                    );
                    out.push(
                        ActivityPaymentRow {
                            id: a.id.clone(),
                            owner_id: a.owner_id.clone(),
                            role: a.role,
                            agreement_id: g.id.clone(),
                            peer_id: g.peer_id.clone(),
                            payee_addr: g.payee_addr.clone(),
                            payment_platform: g.payment_platform.clone(),
                            agreement_updated_ts: g.updated_ts,
                            total_amount_accepted: a.total_amount_accepted,
                            total_amount_scheduled: a.total_amount_scheduled,
                            debit_note_id: note,
                        },
                    );
                }
            },
            None => {},
        }
        k = k + 1;
    }
    proof {
        assert(ledger.activities@.take(k as int) =~= ledger.activities@);
    }
    out
}

/// An invoice is read together with the agreement of the same owner it names.
pub open spec fn invoice_joined(l: &Ledger, i: InvoiceRow) -> bool {
    has_key(l.agreements@, i.agreement_id@, i.owner_id@)
}

/// The invoice as the resolver reads it.
pub open spec fn invoice_payment_row(l: &Ledger, i: InvoiceRow) -> InvoicePaymentRow {
    let g = l.agreement(i.agreement_id@, i.owner_id@);
    InvoicePaymentRow {
        invoice_id: i.id,
        owner_id: i.owner_id,
        role: i.role,
        status: i.status,
        timestamp: i.timestamp,
        agreement_id: g.id,
        peer_id: g.peer_id,
        payee_addr: g.payee_addr,
        payer_addr: g.payer_addr,
        payment_platform: g.payment_platform,
        total_amount_accepted: g.total_amount_accepted,
        total_amount_scheduled: g.total_amount_scheduled,
    }
}

pub open spec fn invoice_rows_of(l: &Ledger, invs: Seq<InvoiceRow>) -> Seq<InvoicePaymentRow>
    decreases invs.len(),
{
    if invs.len() == 0 {
        Seq::empty()
    } else {
        let rest = invoice_rows_of(l, invs.drop_last());
        if invoice_joined(l, invs.last()) {
            rest.push(invoice_payment_row(l, invs.last()))
        } else {
            rest
        }
    }
}

/// Every invoice of the ledger read with its agreement, in the ledger's order.
pub open spec fn invoice_payment_rows(l: &Ledger) -> Seq<InvoicePaymentRow> {
    invoice_rows_of(l, l.invoices@)
}

/// Reads the ledger's invoices with their agreements.
pub fn read_invoice_payment_rows(ledger: &Ledger) -> (r: Vec<InvoicePaymentRow>)
    requires
        ledger.wf(),
    ensures
        r@ == invoice_payment_rows(ledger),
{
    let mut out: Vec<InvoicePaymentRow> = Vec::new();
    let mut k: usize = 0;
    proof {
        assert(ledger.invoices@.take(0) =~= Seq::<InvoiceRow>::empty());
    }
    while k < ledger.invoices.len()
        invariant
            ledger.wf(),
            0 <= k <= ledger.invoices.len(),
            out@ == invoice_rows_of(ledger, ledger.invoices@.take(k as int)),
        decreases ledger.invoices.len() - k,
    {
        let i = &ledger.invoices[k];
        proof {
            assert(ledger.invoices@.take(k + 1).drop_last() =~= ledger.invoices@.take(k as int));
            assert(ledger.invoices@.take(k + 1).last() == ledger.invoices@[k as int]);
        }
        match locate(ledger, i.agreement_id.as_str(), i.owner_id.as_str()) {
            Some(j) => {
                let g = &ledger.agreements[j];
                out.push(
                    InvoicePaymentRow {
                        invoice_id: i.id.clone(),
                        owner_id: i.owner_id.clone(),
                        role: i.role,
                        status: i.status,
                        timestamp: i.timestamp,
                        agreement_id: g.id.clone(),
                        peer_id: g.peer_id.clone(),
                        payee_addr: g.payee_addr.clone(),
                        payer_addr: g.payer_addr.clone(),
                        payment_platform: g.payment_platform.clone(),
                        total_amount_accepted: g.total_amount_accepted,
                        total_amount_scheduled: g.total_amount_scheduled,
                    },
                );
            },
            None => {},
        }
        k = k + 1;
    }
    proof {
        assert(ledger.invoices@.take(k as int) =~= ledger.invoices@);
    }
    out
}

/// An expenditure of `owner` whose allocation (of the same owner) is on `platform`.
pub open spec fn expenditure_on(
    allocations: Seq<AllocationRow>,
    e: ExpenditureRow,
    platform: Seq<char>,
    owner: Seq<char>,
) -> bool {
    &&& e.owner_id@ == owner
    &&& has_key(allocations, e.allocation_id@, e.owner_id@)
    &&& allocations[key_index(allocations, e.allocation_id@, e.owner_id@)].payment_platform@
        == platform
}

pub open spec fn expenditures_on(
    allocations: Seq<AllocationRow>,
    e: Seq<ExpenditureRow>,
    platform: Seq<char>,
    owner: Seq<char>,
) -> Seq<ExpenditureRow>
    decreases e.len(),
{
    if e.len() == 0 {
        Seq::empty()
    } else {
        let rest = expenditures_on(allocations, e.drop_last(), platform, owner);
        if expenditure_on(allocations, e.last(), platform, owner) {
            rest.push(e.last())
        } else {
            rest
        }
    }
}

/// The expenditures of `owner` on allocations on `platform`, in stored order.
pub fn read_expenditures_on(dao: &AllocationDao, platform: &str, owner_id: &str) -> (r: Vec<
    ExpenditureRow,
>)
    requires
        dao.wf(),
    ensures
        r@ == expenditures_on(dao.allocations@, dao.expenditures@, platform@, owner_id@),
{
    let mut out: Vec<ExpenditureRow> = Vec::new();
    let mut k: usize = 0;
    proof {
        assert(dao.expenditures@.take(0) =~= Seq::<ExpenditureRow>::empty());
    }
    while k < dao.expenditures.len()
        invariant
            dao.wf(),
            0 <= k <= dao.expenditures.len(),
            out@ == expenditures_on(
                dao.allocations@,
                dao.expenditures@.take(k as int),
                platform@,
                owner_id@,
            ),
        decreases dao.expenditures.len() - k,
    {
        let e = &dao.expenditures[k];
        proof {
            assert(dao.expenditures@.take(k + 1).drop_last() =~= dao.expenditures@.take(k as int));
            assert(dao.expenditures@.take(k + 1).last() == dao.expenditures@[k as int]);
        }
        if text_eq(e.owner_id.as_str(), owner_id) {
            match dao.locate(e.allocation_id.as_str(), e.owner_id.as_str()) {
                Some(j) => {
                    if text_eq(dao.allocations[j].payment_platform.as_str(), platform) {
                        out.push(e.duplicate());
                    }
                },
                None => {},
            }
        }
        k = k + 1;
    }
    proof {
        assert(dao.expenditures@.take(k as int) =~= dao.expenditures@);
    }
    out
}


/// The scheduled amounts of the agreements, in table order.
pub open spec fn agreement_schedule(s: Seq<AgreementRow>) -> Seq<int> {
    Seq::new(s.len(), |i: int| s[i].total_amount_scheduled as int)
}

/// The scheduled amounts of the activities, in table order.
pub open spec fn activity_schedule(s: Seq<ActivityRow>) -> Seq<int> {
    Seq::new(s.len(), |i: int| s[i].total_amount_scheduled as int)
}

pub open spec fn ints(s: Seq<i128>) -> Seq<int> {
    Seq::new(s.len(), |i: int| s[i] as int)
}

/// One raise applied to the scheduled amounts `cols` (agreements', activities'): a raise
/// of an agreement raises it; a raise of an activity raises it and its agreement. `None`
/// where the owner has no such record.
pub open spec fn schedule_step(
    ags: Seq<AgreementRow>,
    acts: Seq<ActivityRow>,
    owner: Seq<char>,
    cols: (Seq<int>, Seq<int>),
    inc: ScheduledIncrease,
) -> Option<(Seq<int>, Seq<int>)> {
    match inc {
        ScheduledIncrease::Agreement { agreement_id, amount } => {
            if has_key(ags, agreement_id@, owner) {
                let k = key_index(ags, agreement_id@, owner);
                Some((cols.0.update(k, cols.0[k] + amount), cols.1))
            } else {
                None
            }
        },
        ScheduledIncrease::Activity { activity_id, amount } => {
            if has_key(acts, activity_id@, owner) && has_key(
                ags,
                acts[key_index(acts, activity_id@, owner)].agreement_id@,
                owner,
            ) {
                let j = key_index(acts, activity_id@, owner);
                let k = key_index(ags, acts[j].agreement_id@, owner);
                Some((cols.0.update(k, cols.0[k] + amount), cols.1.update(j, cols.1[j] + amount)))
            } else {
                None
            }
        },
    }
}

/// The raises applied in order.
pub open spec fn schedule_applied(
    ags: Seq<AgreementRow>,
    acts: Seq<ActivityRow>,
    owner: Seq<char>,
    incs: Seq<ScheduledIncrease>,
) -> Option<(Seq<int>, Seq<int>)>
    decreases incs.len(),
{
    if incs.len() == 0 {
        Some((agreement_schedule(ags), activity_schedule(acts)))
    } else {
        match schedule_applied(ags, acts, owner, incs.drop_last()) {
            None => None,
            Some(cols) => schedule_step(ags, acts, owner, cols, incs.last()),
        }
    }
}

/// The ledger's scheduled amounts and the raises are small enough for the raised amounts
/// to be representable.
pub open spec fn schedule_fits(l: &Ledger, incs: Seq<ScheduledIncrease>) -> bool {
    &&& forall|i: int|
        0 <= i < l.agreements@.len() ==> in_range(
            (#[trigger] l.agreements@[i]).total_amount_scheduled as int,
        )
    &&& forall|i: int|
        0 <= i < l.activities@.len() ==> in_range(
            (#[trigger] l.activities@[i]).total_amount_scheduled as int,
        )
    &&& forall|k: int| 0 <= k < incs.len() ==> increase_amount(#[trigger] incs[k]) > 0
    &&& increases_total(incs) <= 2 * amount_limit()
}

/// `b` is `a` with the scheduled amounts of the agreements and activities set to `cols`.
pub open spec fn schedule_written(a: &Ledger, b: &Ledger, cols: (Seq<int>, Seq<int>)) -> bool {
    &&& b.agreements@.len() == a.agreements@.len()
    &&& b.activities@.len() == a.activities@.len()
    &&& forall|i: int|
        0 <= i < a.agreements@.len() ==> #[trigger] b.agreements@[i] == (AgreementRow {
            total_amount_scheduled: cols.0[i] as i128,
            ..a.agreements@[i]
        })
    &&& forall|i: int|
        0 <= i < a.activities@.len() ==> #[trigger] b.activities@[i] == (ActivityRow {
            total_amount_scheduled: cols.1[i] as i128,
            ..a.activities@[i]
        })
    &&& Ledger::same_except(a, b, true, true, false, false, false, false)
}

/// What the raises leave bounded: every amount at least where it started, and at most
/// where it started plus all raises so far.
pub open spec fn raised_within(c0: Seq<int>, c: Seq<int>, total: int) -> bool {
    &&& c.len() == c0.len()
    &&& forall|i: int| 0 <= i < c.len() ==> c0[i] <= #[trigger] c[i] <= c0[i] + total
}

/// Once a raise fails, the whole application fails.
proof fn lemma_applied_none_stays(
    ags: Seq<AgreementRow>,
    acts: Seq<ActivityRow>,
    owner: Seq<char>,
    incs: Seq<ScheduledIncrease>,
    k: int,
)
    requires
        0 <= k <= incs.len(),
        schedule_applied(ags, acts, owner, incs.take(k)) is None,
    ensures
        schedule_applied(ags, acts, owner, incs) is None,
    decreases incs.len(),
{
    if k == incs.len() {
        assert(incs.take(k) =~= incs);
    } else {
        assert(incs.drop_last().take(k) =~= incs.take(k));
        lemma_applied_none_stays(ags, acts, owner, incs.drop_last(), k);
    }
}

/// Raises the scheduled amounts of agreements and activities of `owner_id` as `incs` ask,
/// all or nothing: where a raise names a record the owner does not have, nothing changes
/// and the lookup failure is returned.
pub fn apply_scheduled(ledger: &mut Ledger, owner_id: &str, incs: &Vec<ScheduledIncrease>) -> (r:
    DbResult<()>)
    requires
        old(ledger).wf(),
        schedule_fits(old(ledger), incs@),
    ensures
        final(ledger).wf(),
        match schedule_applied(old(ledger).agreements@, old(ledger).activities@, owner_id@, incs@) {
            None => r matches Err(e) && is_not_found(e) && *final(ledger) == *old(ledger),
            Some(cols) => r is Ok && schedule_written(old(ledger), final(ledger), cols),
        },
{
    let ghost ags0 = ledger.agreements@;
    let ghost acts0 = ledger.activities@;
    let ghost c0 = agreement_schedule(ags0);
    let ghost d0 = activity_schedule(acts0);
    let mut ag: Vec<i128> = Vec::new();
    let mut i: usize = 0;
    while i < ledger.agreements.len()
        invariant
            0 <= i <= ledger.agreements.len(),
            ag@.len() == i,
            ints(ag@) =~= c0.take(i as int),
            c0 == agreement_schedule(ledger.agreements@),
        decreases ledger.agreements.len() - i,
    {
        let ghost prev = ag@;
        ag.push(ledger.agreements[i].total_amount_scheduled);
        proof {
            assert forall|q: int| 0 <= q < i + 1 implies #[trigger] ints(ag@)[q] == c0.take(i + 1)[q] by {
                if q < i {
                    assert(ints(prev)[q] == c0.take(i as int)[q]);
                    assert(ag@ == prev.push(ag@[i as int]));
                    assert(ag@[q] == prev[q]);
                }
            }
            assert(ints(ag@) =~= c0.take(i + 1));
        }
        i = i + 1;
    }
    let mut ac: Vec<i128> = Vec::new();
    let mut i: usize = 0;
    while i < ledger.activities.len()
        invariant
            0 <= i <= ledger.activities.len(),
            ac@.len() == i,
            ints(ac@) =~= d0.take(i as int),
            d0 == activity_schedule(ledger.activities@),
        decreases ledger.activities.len() - i,
    {
        let ghost prev = ac@;
        ac.push(ledger.activities[i].total_amount_scheduled);
        proof {
            assert forall|q: int| 0 <= q < i + 1 implies #[trigger] ints(ac@)[q] == d0.take(i + 1)[q] by {
                if q < i {
                    assert(ints(prev)[q] == d0.take(i as int)[q]);
                    assert(ac@ == prev.push(ac@[i as int]));
                    assert(ac@[q] == prev[q]);
                }
            }
            assert(ints(ac@) =~= d0.take(i + 1));
        }
        i = i + 1;
    }
    proof {
        assert(c0.take(c0.len() as int) =~= c0);
        assert(d0.take(d0.len() as int) =~= d0);
        assert(incs@.take(0) =~= Seq::<ScheduledIncrease>::empty());
        assert(increases_total(Seq::<ScheduledIncrease>::empty()) == 0);
        let f = |x: ScheduledIncrease| increase_amount(x);
        assert forall|k: int| 0 <= k < incs@.len() implies f(#[trigger] incs@[k]) >= 0 by {}
    }
    let mut k: usize = 0;
    while k < incs.len()
        invariant
            ledger.wf(),
            ledger.agreements@ == ags0,
            ledger.activities@ == acts0,
            c0 == agreement_schedule(ags0),
            d0 == activity_schedule(acts0),
            schedule_fits(ledger, incs@),
            0 <= k <= incs.len(),
            schedule_applied(ags0, acts0, owner_id@, incs@.take(k as int)) == Some(
                (ints(ag@), ints(ac@)),
            ),
            raised_within(c0, ints(ag@), increases_total(incs@.take(k as int))),
            raised_within(d0, ints(ac@), increases_total(incs@.take(k as int))),
            increases_total(incs@.take(k as int)) <= 2 * amount_limit(),
        decreases incs.len() - k,
    {
        let ghost before = incs@.take(k as int);
        let ghost total0 = increases_total(before);
        proof {
            assert(incs@.take(k + 1).drop_last() =~= before);
            assert(incs@.take(k + 1).last() == incs@[k as int]);
            let f = |x: ScheduledIncrease| increase_amount(x);
            assert forall|q: int| 0 <= q < incs@.len() implies f(#[trigger] incs@[q]) >= 0 by {
                assert(increase_amount(incs@[q]) > 0);
            }
            lemma_seq_sum_take_le(incs@, k + 1, f);
            assert(increase_amount(incs@[k as int]) > 0);
        }
        match &incs[k] {
            ScheduledIncrease::Agreement { agreement_id, amount } => {
                match locate(ledger, agreement_id.as_str(), owner_id) {
                    Some(j) => {
                        let ghost a_before = ints(ag@);
                        proof {
                            assert(a_before[j as int] == ag@[j as int]);
                            assert(in_range(ledger.agreements@[j as int].total_amount_scheduled as int));
                            assert(c0[j as int] == ags0[j as int].total_amount_scheduled);
                        }
                        let v = ag[j] + *amount;
                        ag.set(j, v);
                        proof {
                            assert(ints(ag@) =~= a_before.update(j as int, a_before[j as int] + *amount));
                        }
                    },
                    None => {
                        proof {
                            lemma_applied_none_stays(ags0, acts0, owner_id@, incs@, k + 1);
                        }
                        return Err(not_found_error());
                    },
                }
            },
            ScheduledIncrease::Activity { activity_id, amount } => {
                match locate_activity(ledger, activity_id.as_str(), owner_id) {
                    Some(j) => {
                        match locate(ledger, ledger.activities[j].agreement_id.as_str(), owner_id) {
                            Some(g) => {
                                let ghost a_before = ints(ag@);
                                let ghost d_before = ints(ac@);
                                proof {
                                    assert(a_before[g as int] == ag@[g as int]);
                                    assert(d_before[j as int] == ac@[j as int]);
                                    assert(in_range(ledger.agreements@[g as int].total_amount_scheduled as int));
                                    assert(in_range(ledger.activities@[j as int].total_amount_scheduled as int));
                                    assert(c0[g as int] == ags0[g as int].total_amount_scheduled);
                                    assert(d0[j as int] == acts0[j as int].total_amount_scheduled);
                                }
                                let v = ag[g] + *amount;
                                ag.set(g, v);
                                let w = ac[j] + *amount;
                                ac.set(j, w);
                                proof {
                                    assert(ints(ag@) =~= a_before.update(g as int, a_before[g as int] + *amount));
                                    assert(ints(ac@) =~= d_before.update(j as int, d_before[j as int] + *amount));
                                }
                            },
                            None => {
                                proof {
                            lemma_applied_none_stays(ags0, acts0, owner_id@, incs@, k + 1);
                        }
                        return Err(not_found_error());
                            },
                        }
                    },
                    None => {
                        proof {
                            lemma_applied_none_stays(ags0, acts0, owner_id@, incs@, k + 1);
                        }
                        return Err(not_found_error());
                    },
                }
            },
        }
        k = k + 1;
    }
    proof {
        assert(incs@.take(k as int) =~= incs@);
    }
    let ghost cols = (ints(ag@), ints(ac@));
    let mut i: usize = 0;
    while i < ledger.agreements.len()
        invariant
            ledger.wf(),
            0 <= i <= ledger.agreements.len(),
            ag@.len() == ags0.len(),
            ledger.agreements@.len() == ags0.len(),
            cols.0 == ints(ag@),
            forall|q: int|
                0 <= q < i ==> #[trigger] ledger.agreements@[q] == (AgreementRow {
                    total_amount_scheduled: cols.0[q] as i128,
                    ..ags0[q]
                }),
            forall|q: int| i <= q < ags0.len() ==> #[trigger] ledger.agreements@[q] == ags0[q],
            ledger.activities@ == acts0,
            Ledger::same_except(old(ledger), ledger, true, false, false, false, false, false),
        decreases ledger.agreements.len() - i,
    {
        let mut row = ledger.agreements[i].duplicate();
        row.total_amount_scheduled = ag[i];
        put_agreement(ledger, i, row);
        i = i + 1;
    }
    let mut i: usize = 0;
    while i < ledger.activities.len()
        invariant
            ledger.wf(),
            0 <= i <= ledger.activities.len(),
            ac@.len() == acts0.len(),
            ledger.activities@.len() == acts0.len(),
            ledger.agreements@.len() == ags0.len(),
            cols.1 == ints(ac@),
            forall|q: int|
                0 <= q < ags0.len() ==> #[trigger] ledger.agreements@[q] == (AgreementRow {
                    total_amount_scheduled: cols.0[q] as i128,
                    ..ags0[q]
                }),
            forall|q: int|
                0 <= q < i ==> #[trigger] ledger.activities@[q] == (ActivityRow {
                    total_amount_scheduled: cols.1[q] as i128,
                    ..acts0[q]
                }),
            forall|q: int| i <= q < acts0.len() ==> #[trigger] ledger.activities@[q] == acts0[q],
            Ledger::same_except(old(ledger), ledger, true, true, false, false, false, false),
        decreases ledger.activities.len() - i,
    {
        let mut row = ledger.activities[i].duplicate();
        row.total_amount_scheduled = ac[i];
        put_activity(ledger, i, row);
        i = i + 1;
    }
    Ok(())
}


/// Two expenditure records under the same key: owner, allocation, agreement and
/// activity (or both without one).
pub open spec fn same_expenditure(a: ExpenditureRow, b: ExpenditureRow) -> bool {
    &&& a.owner_id@ == b.owner_id@
    &&& a.allocation_id@ == b.allocation_id@
    &&& a.agreement_id@ == b.agreement_id@
    &&& opt_text_view(a.activity_id) == opt_text_view(b.activity_id)
}

/// Every record under the key of `c` takes its scheduled amount.
pub open spec fn expenditure_written(s: Seq<ExpenditureRow>, c: ExpenditureRow) -> Seq<ExpenditureRow> {
    Seq::new(
        s.len(),
        |i: int|
            if same_expenditure(s[i], c) {
                ExpenditureRow { scheduled_amount: c.scheduled_amount, ..s[i] }
            } else {
                s[i]
            },
    )
}

/// The records `cs` written in order.
pub open spec fn expenditures_written(s: Seq<ExpenditureRow>, cs: Seq<ExpenditureRow>) -> Seq<
    ExpenditureRow,
>
    decreases cs.len(),
{
    if cs.len() == 0 {
        s
    } else {
        expenditure_written(expenditures_written(s, cs.drop_last()), cs.last())
    }
}

fn opt_texts_equal(a: &Option<String>, b: &Option<String>) -> (r: bool)
    ensures
        r == (opt_text_view(*a) == opt_text_view(*b)),
{
    match (a, b) {
        (Some(x), Some(y)) => text_eq(x.as_str(), y.as_str()),
        (None, None) => true,
        _ => false,
    }
}

fn same_expenditure_exec(a: &ExpenditureRow, b: &ExpenditureRow) -> (r: bool)
    ensures
        r == same_expenditure(*a, *b),
{
    text_eq(a.owner_id.as_str(), b.owner_id.as_str()) && text_eq(
        a.allocation_id.as_str(),
        b.allocation_id.as_str(),
    ) && text_eq(a.agreement_id.as_str(), b.agreement_id.as_str()) && opt_texts_equal(
        &a.activity_id,
        &b.activity_id,
    )
}

/// Stores the scheduled amounts of the changed expenditures `changed`, in order, on every
/// record under the same key.
pub fn write_expenditures(dao: &mut AllocationDao, changed: &Vec<ExpenditureRow>)
    ensures
        final(dao).allocations@ == old(dao).allocations@,
        final(dao).expenditures@ == expenditures_written(old(dao).expenditures@, changed@),
{
    let ghost s0 = dao.expenditures@;
    let mut k: usize = 0;
    proof {
        assert(changed@.take(0) =~= Seq::<ExpenditureRow>::empty());
    }
    while k < changed.len()
        invariant
            0 <= k <= changed.len(),
            dao.allocations@ == old(dao).allocations@,
            s0 == old(dao).expenditures@,
            dao.expenditures@ == expenditures_written(s0, changed@.take(k as int)),
        decreases changed.len() - k,
    {
        let c = &changed[k];
        let ghost before = dao.expenditures@;
        let mut j: usize = 0;
        while j < dao.expenditures.len()
            invariant
                0 <= j <= dao.expenditures.len(),
                dao.expenditures@.len() == before.len(),
                dao.allocations@ == old(dao).allocations@,
                forall|q: int|
                    0 <= q < j ==> #[trigger] dao.expenditures@[q] == expenditure_written(
                        before,
                        *c,
                    )[q],
                forall|q: int| j <= q < before.len() ==> #[trigger] dao.expenditures@[q] == before[q],
            decreases dao.expenditures.len() - j,
        {
            if same_expenditure_exec(&dao.expenditures[j], c) {
                let mut row = dao.expenditures[j].duplicate();
                row.scheduled_amount = c.scheduled_amount;
                dao.expenditures.set(j, row);
            }
            j = j + 1;
        }
        proof {
            assert(dao.expenditures@ =~= expenditure_written(before, *c));
            assert(changed@.take(k + 1).drop_last() =~= changed@.take(k as int));
            assert(changed@.take(k + 1).last() == changed@[k as int]);
        }
        k = k + 1;
    }
    proof {
        assert(changed@.take(k as int) =~= changed@);
    }
}


/// The stored item of a batch order for what one allocation pays one payee.
pub open spec fn item_row(order_id: String, owner_id: String, p: BatchPaymentAllocation) -> BatchOrderItemRow {
    BatchOrderItemRow {
        order_id,
        owner_id,
        payee_addr: p.payee_addr,
        allocation_id: p.allocation_id,
        amount: p.amount,
        payment_id: None,
        paid: false,
    }
}

/// The stored record of a document that an item of a batch order pays.
pub open spec fn document_row(
    order_id: String,
    owner_id: String,
    payee_addr: String,
    o: BatchPaymentObligationAllocation,
) -> BatchOrderItemDocumentRow {
    match o {
        BatchPaymentObligationAllocation::Invoice { id, amount, agreement_id, allocation_id } => {
            BatchOrderItemDocumentRow {
                order_id,
                owner_id,
                payee_addr,
                allocation_id,
                agreement_id,
                invoice_id: Some(id),
                activity_id: None,
                debit_note_id: None,
                amount,
            }
        },
        BatchPaymentObligationAllocation::DebitNote {
            debit_note_id,
            amount,
            agreement_id,
            activity_id,
            allocation_id,
        } => BatchOrderItemDocumentRow {
            order_id,
            owner_id,
            payee_addr,
            allocation_id,
            agreement_id,
            invoice_id: None,
            activity_id: Some(activity_id),
            debit_note_id,
            amount,
        },
    }
}

/// The document records of the items, item by item and part by part.
pub open spec fn document_rows(
    order_id: String,
    owner_id: String,
    items: Seq<BatchPaymentAllocation>,
) -> Seq<BatchOrderItemDocumentRow>
    decreases items.len(),
{
    if items.len() == 0 {
        Seq::empty()
    } else {
        let p = items.last();
        document_rows(order_id, owner_id, items.drop_last()) + p.obligations@.map_values(
            |o: BatchPaymentObligationAllocation| document_row(order_id, owner_id, p.payee_addr, o),
        )
    }
}

/// The stored record of a new batch order made at `now`.
pub open spec fn order_row(o: ResolvedBatchOrder, now: i64) -> BatchOrderRow {
    BatchOrderRow {
        id: o.order_id,
        owner_id: o.owner_id,
        payer_addr: o.payer_addr,
        platform: o.platform,
        total_amount: o.total_amount,
        paid_amount: 0,
        created_ts: now,
        updated_ts: now,
    }
}

fn make_document_row(
    order_id: &String,
    owner_id: &String,
    payee_addr: &String,
    o: &BatchPaymentObligationAllocation,
) -> (r: BatchOrderItemDocumentRow)
    ensures
        r == document_row(*order_id, *owner_id, *payee_addr, *o),
{
    match o {
        BatchPaymentObligationAllocation::Invoice { id, amount, agreement_id, allocation_id } => {
            BatchOrderItemDocumentRow {
                order_id: order_id.clone(),
                owner_id: owner_id.clone(),
                payee_addr: payee_addr.clone(),
                allocation_id: allocation_id.clone(),
                agreement_id: agreement_id.clone(),
                invoice_id: Some(id.clone()),
                activity_id: None,
                debit_note_id: None,
                amount: *amount,
            }
        },
        BatchPaymentObligationAllocation::DebitNote {
            debit_note_id,
            amount,
            agreement_id,
            activity_id,
            allocation_id,
        } => BatchOrderItemDocumentRow {
            order_id: order_id.clone(),
            owner_id: owner_id.clone(),
            payee_addr: payee_addr.clone(),
            allocation_id: allocation_id.clone(),
            agreement_id: agreement_id.clone(),
            invoice_id: None,
            activity_id: Some(activity_id.clone()),
            debit_note_id: clone_opt(debit_note_id),
            amount: *amount,
        },
    }
}

impl BatchDao {
    /// Stores a resolved batch order made at `now`: the order, one item per payee and
    /// allocation, and a record per document each item pays.
    pub fn store_order(&mut self, o: &ResolvedBatchOrder, now: i64)
        ensures
            final(self).orders@ == old(self).orders@.push(order_row(*o, now)),
            final(self).items@ == old(self).items@ + o.items@.map_values(
                |p: BatchPaymentAllocation| item_row(o.order_id, o.owner_id, p),
            ),
            final(self).documents@ == old(self).documents@ + document_rows(
                o.order_id,
                o.owner_id,
                o.items@,
            ),
    {
        self.orders.push(
            BatchOrderRow {
                id: o.order_id.clone(),
                owner_id: o.owner_id.clone(),
                payer_addr: o.payer_addr.clone(),
                platform: o.platform.clone(),
                total_amount: o.total_amount,
                paid_amount: 0,
                created_ts: now,
                updated_ts: now,
            },
        );
        let ghost items0 = self.items@;
        let ghost docs0 = self.documents@;
        let mut k: usize = 0;
        proof {
            assert(o.items@.take(0) =~= Seq::<BatchPaymentAllocation>::empty());
            assert(items0 + o.items@.take(0).map_values(
                |p: BatchPaymentAllocation| item_row(o.order_id, o.owner_id, p),
            ) =~= items0);
            assert(docs0 + document_rows(o.order_id, o.owner_id, o.items@.take(0)) =~= docs0);
        }
        while k < o.items.len()
            invariant
                0 <= k <= o.items.len(),
                self.orders@ == old(self).orders@.push(order_row(*o, now)),
                items0 == old(self).items@,
                docs0 == old(self).documents@,
                self.items@ == items0 + o.items@.take(k as int).map_values(
                    |p: BatchPaymentAllocation| item_row(o.order_id, o.owner_id, p),
                ),
                self.documents@ == docs0 + document_rows(
                    o.order_id,
                    o.owner_id,
                    o.items@.take(k as int),
                ),
            decreases o.items.len() - k,
        {
            let p = &o.items[k];
            proof {
                assert(o.items@.take(k + 1).drop_last() =~= o.items@.take(k as int));
                assert(o.items@.take(k + 1).last() == o.items@[k as int]);
                assert(o.items@.take(k + 1).map_values(
                    |p: BatchPaymentAllocation| item_row(o.order_id, o.owner_id, p),
                ) =~= o.items@.take(k as int).map_values(
                    |p: BatchPaymentAllocation| item_row(o.order_id, o.owner_id, p),
                ).push(item_row(o.order_id, o.owner_id, o.items@[k as int])));
            }
            self.items.push(
                BatchOrderItemRow {
                    order_id: o.order_id.clone(),
                    owner_id: o.owner_id.clone(),
                    payee_addr: p.payee_addr.clone(),
                    allocation_id: p.allocation_id.clone(),
                    amount: p.amount,
                    payment_id: None,
                    paid: false,
                },
            );
            let ghost docs1 = self.documents@;
            let ghost items1 = self.items@;
            proof {
                assert(items1 =~= items0 + o.items@.take(k + 1).map_values(
                    |p: BatchPaymentAllocation| item_row(o.order_id, o.owner_id, p),
                ));
            }
            let mut j: usize = 0;
            while j < p.obligations.len()
                invariant
                    0 <= j <= p.obligations.len(),
                    self.orders@ == old(self).orders@.push(order_row(*o, now)),
                    self.items@ == items1,
                    self.documents@ == docs1 + p.obligations@.take(j as int).map_values(
                        |x: BatchPaymentObligationAllocation|
                            document_row(o.order_id, o.owner_id, p.payee_addr, x),
                    ),
                decreases p.obligations.len() - j,
            {
                let d = make_document_row(&o.order_id, &o.owner_id, &p.payee_addr, &p.obligations[j]);
                self.documents.push(d);
                proof {
                    assert(p.obligations@.take(j + 1).map_values(
                        |x: BatchPaymentObligationAllocation|
                            document_row(o.order_id, o.owner_id, p.payee_addr, x),
                    ) =~= p.obligations@.take(j as int).map_values(
                        |x: BatchPaymentObligationAllocation|
                            document_row(o.order_id, o.owner_id, p.payee_addr, x),
                    ).push(document_row(o.order_id, o.owner_id, p.payee_addr, p.obligations@[j as int])));
                }
                j = j + 1;
            }
            proof {
                assert(p.obligations@.take(j as int) =~= p.obligations@);
                assert(document_rows(o.order_id, o.owner_id, o.items@.take(k + 1)) =~= document_rows(
                    o.order_id,
                    o.owner_id,
                    o.items@.take(k as int),
                ) + p.obligations@.map_values(
                    |x: BatchPaymentObligationAllocation|
                        document_row(o.order_id, o.owner_id, p.payee_addr, x),
                ));
            }
            k = k + 1;
        }
        proof {
            assert(o.items@.take(k as int) =~= o.items@);
        }
    }
}


/// `r` is the item stored for `v` in order `order_id` of `owner`: not yet sent nor paid.
pub open spec fn item_row_is(
    r: BatchOrderItemRow,
    order_id: Seq<char>,
    owner: Seq<char>,
    v: BatchPaymentAllocationView,
) -> bool {
    &&& r.order_id@ == order_id
    &&& r.owner_id@ == owner
    &&& r.payee_addr@ == v.payee_addr
    &&& r.allocation_id@ == v.allocation_id
    &&& r.amount == v.amount
    &&& r.payment_id is None
    &&& !r.paid
}

pub open spec fn items_stored(
    rows: Seq<BatchOrderItemRow>,
    order_id: Seq<char>,
    owner: Seq<char>,
    a: Seq<BatchPaymentAllocationView>,
) -> bool {
    &&& rows.len() == a.len()
    &&& forall|k: int| 0 <= k < a.len() ==> item_row_is(#[trigger] rows[k], order_id, owner, a[k])
}

/// The parts of all items with their payees, item by item and part by part.
pub open spec fn item_parts(a: Seq<BatchPaymentAllocationView>) -> Seq<
    (Seq<char>, BatchPaymentObligationAllocation),
>
    decreases a.len(),
{
    if a.len() == 0 {
        Seq::empty()
    } else {
        let v = a.last();
        item_parts(a.drop_last()) + v.obligations.map_values(
            |o: BatchPaymentObligationAllocation| (v.payee_addr, o),
        )
    }
}

/// `d` is the record of part `o` of payee `payee` in order `order_id` of `owner`.
pub open spec fn document_row_is(
    d: BatchOrderItemDocumentRow,
    order_id: Seq<char>,
    owner: Seq<char>,
    payee: Seq<char>,
    o: BatchPaymentObligationAllocation,
) -> bool {
    &&& d.order_id@ == order_id
    &&& d.owner_id@ == owner
    &&& d.payee_addr@ == payee
    &&& match o {
        BatchPaymentObligationAllocation::Invoice { id, amount, agreement_id, allocation_id } => {
            &&& d.allocation_id == allocation_id
            &&& d.agreement_id == agreement_id
            &&& d.invoice_id == Some(id)
            &&& d.activity_id is None
            &&& d.debit_note_id is None
            &&& d.amount == amount
        },
        BatchPaymentObligationAllocation::DebitNote {
            debit_note_id,
            amount,
            agreement_id,
            activity_id,
            allocation_id,
        } => {
            &&& d.allocation_id == allocation_id
            &&& d.agreement_id == agreement_id
            &&& d.invoice_id is None
            &&& d.activity_id == Some(activity_id)
            &&& d.debit_note_id == debit_note_id
            &&& d.amount == amount
        },
    }
}

pub open spec fn documents_stored(
    rows: Seq<BatchOrderItemDocumentRow>,
    order_id: Seq<char>,
    owner: Seq<char>,
    a: Seq<BatchPaymentAllocationView>,
) -> bool {
    &&& rows.len() == item_parts(a).len()
    &&& forall|k: int|
        0 <= k < rows.len() ==> document_row_is(
            #[trigger] rows[k],
            order_id,
            owner,
            item_parts(a)[k].0,
            item_parts(a)[k].1,
        )
}

proof fn lemma_document_rows(order_id: String, owner_id: String, items: Seq<BatchPaymentAllocation>)
    ensures
        documents_stored(
            document_rows(order_id, owner_id, items),
            order_id@,
            owner_id@,
            allocations_view(items),
        ),
    decreases items.len(),
{
    if items.len() > 0 {
        let pre = items.drop_last();
        lemma_document_rows(order_id, owner_id, pre);
        let a = allocations_view(items);
        assert(a.drop_last() =~= allocations_view(pre));
        let p = items.last();
        assert(a.last() == p@);
        let head = document_rows(order_id, owner_id, pre);
        let tail = p.obligations@.map_values(
            |o: BatchPaymentObligationAllocation| document_row(order_id, owner_id, p.payee_addr, o),
        );
        let parts_head = item_parts(allocations_view(pre));
        let parts_tail = p@.obligations.map_values(
            |o: BatchPaymentObligationAllocation| (p@.payee_addr, o),
        );
        assert(item_parts(a) == parts_head + parts_tail);
        let rows = head + tail;
        assert forall|k: int| 0 <= k < rows.len() implies document_row_is(
            #[trigger] rows[k],
            order_id@,
            owner_id@,
            item_parts(a)[k].0,
            item_parts(a)[k].1,
        ) by {
            if k < head.len() {
                assert(rows[k] == head[k]);
                assert(item_parts(a)[k] == parts_head[k]);
            } else {
                let j = k - head.len();
                assert(rows[k] == tail[j]);
                assert(item_parts(a)[k] == parts_tail[j]);
            }
        }
    }
}

/// What resolving the owner's debts gives, read from the rows: `None` where a payee
/// address is no node id, `Some(None)` where nothing is owed or nothing owed can be
/// covered, else the items of the order and the expenditures whose scheduled amount grew.
pub open spec fn resolution(
    args: ResolveInvoiceArgs,
    acts: Seq<ActivityPaymentRow>,
    invs: Seq<InvoicePaymentRow>,
    exps: Seq<ExpenditureRow>,
) -> Option<Option<(Seq<BatchPaymentAllocationView>, Seq<ExpenditureRow>)>> {
    match activity_part_spec(acts, args, Seq::empty(), 0) {
        None => None,
        Some((ps1, t1)) => match agreement_part_spec(invs, args, ps1, t1) {
            None => None,
            Some((ps, t)) => if t == 0 {
                Some(None)
            } else {
                let e0 = open_expenditures(exps);
                let (e, a) = cover_payments(e0, Seq::empty(), ps);
                if allocations_total(a) == 0 {
                    Some(None)
                } else {
                    Some(Some((a, changed_expenditures(e0, e, e0.len()))))
                }
            },
        },
    }
}

/// The amounts the resolver reads stay within the representable range.
pub open spec fn ledger_amounts_bounded(l: &Ledger) -> bool {
    &&& forall|i: int|
        0 <= i < l.agreements@.len() ==> amounts_bounded(
            (#[trigger] l.agreements@[i]).total_amount_accepted,
            l.agreements@[i].total_amount_scheduled,
        )
    &&& forall|i: int|
        0 <= i < l.activities@.len() ==> amounts_bounded(
            (#[trigger] l.activities@[i]).total_amount_accepted,
            l.activities@[i].total_amount_scheduled,
        )
}

/// What the owner still has to pay is small enough to be added up.
pub open spec fn debts_bounded(l: &Ledger) -> bool {
    activities_pay_total(activity_payment_rows(l)) + invoices_pay_total(invoice_payment_rows(l))
        <= 2 * amount_limit()
}

pub(crate) proof fn lemma_activity_rows_bounded(l: &Ledger, acts: Seq<ActivityRow>)
    requires
        forall|i: int|
            0 <= i < acts.len() ==> amounts_bounded(
                (#[trigger] acts[i]).total_amount_accepted,
                acts[i].total_amount_scheduled,
            ),
    ensures
        forall|i: int|
            0 <= i < activity_rows_of(l, acts).len() ==> amounts_bounded(
                (#[trigger] activity_rows_of(l, acts)[i]).total_amount_accepted,
                activity_rows_of(l, acts)[i].total_amount_scheduled,
            ),
    decreases acts.len(),
{
    if acts.len() > 0 {
        assert forall|i: int| 0 <= i < acts.drop_last().len() implies amounts_bounded(
            (#[trigger] acts.drop_last()[i]).total_amount_accepted,
            acts.drop_last()[i].total_amount_scheduled,
        ) by {
            assert(acts.drop_last()[i] == acts[i]);
        }
        lemma_activity_rows_bounded(l, acts.drop_last());
        assert(acts.last() == acts[acts.len() - 1]);
    }
}

pub(crate) proof fn lemma_invoice_rows_bounded(l: &Ledger, invs: Seq<InvoiceRow>)
    requires
        ledger_amounts_bounded(l),
    ensures
        forall|i: int|
            0 <= i < invoice_rows_of(l, invs).len() ==> amounts_bounded(
                (#[trigger] invoice_rows_of(l, invs)[i]).total_amount_accepted,
                invoice_rows_of(l, invs)[i].total_amount_scheduled,
            ),
    decreases invs.len(),
{
    if invs.len() > 0 {
        lemma_invoice_rows_bounded(l, invs.drop_last());
        let i = invs.last();
        if invoice_joined(l, i) {
            let k = key_index(l.agreements@, i.agreement_id@, i.owner_id@);
            assert(0 <= k < l.agreements@.len());
            assert(amounts_bounded(
                l.agreements@[k].total_amount_accepted,
                l.agreements@[k].total_amount_scheduled,
            ));
        }
    }
}

proof fn lemma_expenditures_on_bounded(
    allocations: Seq<AllocationRow>,
    e: Seq<ExpenditureRow>,
    platform: Seq<char>,
    owner: Seq<char>,
)
    requires
        expenditures_bounded(e),
    ensures
        expenditures_bounded(expenditures_on(allocations, e, platform, owner)),
    decreases e.len(),
{
    if e.len() > 0 {
        assert(expenditures_bounded(e.drop_last())) by {
            assert forall|i: int| 0 <= i < e.drop_last().len() implies expenditure_bounded(
                #[trigger] e.drop_last()[i],
            ) by {
                assert(e.drop_last()[i] == e[i]);
            }
        }
        lemma_expenditures_on_bounded(allocations, e.drop_last(), platform, owner);
        assert(expenditure_bounded(e[e.len() - 1]));
    }
}

/// The stores are as they were.
pub open spec fn stores_kept(
    a: &BatchDao,
    b: &BatchDao,
    l0: &Ledger,
    l1: &Ledger,
    d0: &AllocationDao,
    d1: &AllocationDao,
) -> bool {
    &&& *b == *a
    &&& *l1 == *l0
    &&& *d1 == *d0
}

/// The outcome of resolving with order id `order_id` at time `now`, from the stores before
/// (`a`, `l0`, `d0`) to the stores after (`b`, `l1`, `d1`).
pub open spec fn resolved_as(
    a: &BatchDao,
    b: &BatchDao,
    l0: &Ledger,
    l1: &Ledger,
    d0: &AllocationDao,
    d1: &AllocationDao,
    args: ResolveInvoiceArgs,
    order_id: String,
    now: i64,
    r: DbResult<Option<String>>,
) -> bool {
    match resolution(
        args,
        activity_payment_rows(l0),
        invoice_payment_rows(l0),
        expenditures_on(d0.allocations@, d0.expenditures@, args.platform@, args.owner_id@),
    ) {
        None => is_payee_parse_error(r) && stores_kept(a, b, l0, l1, d0, d1),
        Some(None) => r matches Ok(None) && stores_kept(a, b, l0, l1, d0, d1),
        Some(Some((items, changed))) => match schedule_applied(
            l0.agreements@,
            l0.activities@,
            args.owner_id@,
            scheduled_increases(items),
        ) {
            None => r matches Err(e) && is_not_found(e) && stores_kept(a, b, l0, l1, d0, d1),
            Some(cols) => {
                let n = a.items@.len();
                let m = a.documents@.len();
                &&& r == Ok::<Option<String>, crate::error::DbError>(Some(order_id))
                &&& schedule_written(l0, l1, cols)
                &&& d1.allocations@ == d0.allocations@
                &&& d1.expenditures@ == expenditures_written(d0.expenditures@, changed)
                &&& b.orders@ == a.orders@.push(
                    BatchOrderRow {
                        id: order_id,
                        owner_id: args.owner_id,
                        payer_addr: args.payer_addr,
                        platform: args.platform,
                        total_amount: allocations_total(items) as i128,
                        paid_amount: 0,
                        created_ts: now,
                        updated_ts: now,
                    },
                )
                &&& b.items@.subrange(0, n as int) == a.items@
                &&& items_stored(
                    b.items@.subrange(n as int, b.items@.len() as int),
                    order_id@,
                    args.owner_id@,
                    items,
                )
                &&& b.documents@.subrange(0, m as int) == a.documents@
                &&& documents_stored(
                    b.documents@.subrange(m as int, b.documents@.len() as int),
                    order_id@,
                    args.owner_id@,
                    items,
                )
            },
        },
    }
}

impl BatchDao {
    /// Resolves what `args.owner_id` owes on `args.platform` into batch order `order_id`,
    /// made at `now`: reads the ledger's activities and invoices with their agreements and
    /// the owner's expenditures on the platform, covers the debts from them, and stores
    /// the order, the raised scheduled amounts and the expenditures, all or nothing.
    /// Returns the order's id, or `None` where there is nothing to order.
    pub fn resolve_with(
        &mut self,
        ledger: &mut Ledger,
        allocations: &mut AllocationDao,
        args: &ResolveInvoiceArgs,
        order_id: String,
        now: i64,
    ) -> (r: DbResult<Option<String>>)
        requires
            old(ledger).wf(),
            old(allocations).wf(),
            ledger_amounts_bounded(old(ledger)),
            debts_bounded(old(ledger)),
            expenditures_bounded(old(allocations).expenditures@),
        ensures
            final(ledger).wf(),
            final(allocations).wf(),
            resolved_as(
                old(self),
                final(self),
                old(ledger),
                final(ledger),
                old(allocations),
                final(allocations),
                *args,
                order_id,
                now,
                r,
            ),
    {
        let acts = read_activity_payment_rows(ledger);
        let invs = read_invoice_payment_rows(ledger);
        let exps = read_expenditures_on(allocations, args.platform.as_str(), args.owner_id.as_str());
        proof {
            lemma_activity_rows_bounded(ledger, ledger.activities@);
            lemma_invoice_rows_bounded(ledger, ledger.invoices@);
            lemma_expenditures_on_bounded(
                allocations.allocations@,
                allocations.expenditures@,
                args.platform@,
                args.owner_id@,
            );
        }
        let res = resolve_invoices(args, &acts, &invs, &exps, order_id);
        let o = match res {
            Err(e) => {
                return Err(e);
            },
            Ok(None) => {
                return Ok(None);
            },
            Ok(Some(o)) => o,
        };
        proof {
            let ps0 = Seq::<BatchPaymentView>::empty();
            assert(payments_total(ps0) == 0);
            lemma_activity_part(acts@, *args, ps0, 0);
            let (ps1, t1) = activity_part_spec(acts@, *args, ps0, 0).unwrap();
            lemma_agreement_part(invs@, *args, ps1, t1);
            let (ps, t) = agreement_part_spec(invs@, *args, ps1, t1).unwrap();
            let e0 = open_expenditures(exps@);
            let empty = Seq::<BatchPaymentAllocationView>::empty();
            assert(allocations_total(empty) == 0);
            assert(items_sound(empty));
            assert(crate::dao::batch::allocations_nonneg(empty));
            crate::dao::batch::lemma_open_expenditures(exps@);
            lemma_cover_payments(e0, empty, ps);
            lemma_payments_sound(e0, empty, ps);
            let (e, a) = cover_payments(e0, empty, ps);
            lemma_increases_of_sound(a);
            assert(o.scheduled@ == scheduled_increases(a));
        }
        match apply_scheduled(ledger, args.owner_id.as_str(), &o.scheduled) {
            Err(e) => {
                return Err(e);
            },
            Ok(()) => {},
        }
        write_expenditures(allocations, &o.expenditures);
        let ghost n = self.items@.len();
        let ghost m = self.documents@.len();
        self.store_order(&o, now);
        proof {
            lemma_document_rows(o.order_id, o.owner_id, o.items@);
            let new_items = o.items@.map_values(
                |p: BatchPaymentAllocation| item_row(o.order_id, o.owner_id, p),
            );
            assert(self.items@.subrange(0, n as int) =~= old(self).items@);
            assert(self.items@.subrange(n as int, self.items@.len() as int) =~= new_items);
            assert forall|k: int| 0 <= k < new_items.len() implies item_row_is(
                #[trigger] new_items[k],
                o.order_id@,
                o.owner_id@,
                allocations_view(o.items@)[k],
            ) by {}
            assert(self.documents@.subrange(0, m as int) =~= old(self).documents@);
            assert(self.documents@.subrange(m as int, self.documents@.len() as int) =~= document_rows(
                o.order_id,
                o.owner_id,
                o.items@,
            ));
        }
        Ok(Some(o.order_id))
    }

    /// Resolves what `owner_id` owes on `platform` from `payer_addr`, for documents newer
    /// than `since`, into a new batch order under a fresh random id, made now. Whatever id
    /// and time came back, the outcome is that of `resolve_with` on them.
    pub fn resolve(
        &mut self,
        ledger: &mut Ledger,
        allocations: &mut AllocationDao,
        owner_id: String,
        payer_addr: String,
        platform: String,
        since: i64,
    ) -> (r: DbResult<Option<String>>)
        requires
            old(ledger).wf(),
            old(allocations).wf(),
            ledger_amounts_bounded(old(ledger)),
            debts_bounded(old(ledger)),
            expenditures_bounded(old(allocations).expenditures@),
        ensures
            final(ledger).wf(),
            final(allocations).wf(),
            exists|order_id: String, now: i64|
                resolved_as(
                    old(self),
                    final(self),
                    old(ledger),
                    final(ledger),
                    old(allocations),
                    final(allocations),
                    ResolveInvoiceArgs { owner_id, payer_addr, platform, since },
                    order_id,
                    now,
                    r,
                ),
    {
        let args = ResolveInvoiceArgs { owner_id, payer_addr, platform, since };
        let order_id = new_uuid();
        let now = now_millis();
        let r = self.resolve_with(ledger, allocations, &args, order_id, now);
        r
    }
}


proof fn lemma_changed_within_accepted(e0: Seq<ExpenditureRow>, e: Seq<ExpenditureRow>, k: nat)
    requires
        expenditures_progress(e0, e),
        k <= e0.len(),
    ensures
        forall|i: int|
            0 <= i < changed_expenditures(e0, e, k).len() ==> (#[trigger] changed_expenditures(
                e0,
                e,
                k,
            )[i]).scheduled_amount <= changed_expenditures(e0, e, k)[i].accepted_amount,
    decreases k,
{
    if k > 0 {
        lemma_changed_within_accepted(e0, e, (k - 1) as nat);
        assert(e[k - 1].accepted_amount == e0[k - 1].accepted_amount);
    }
}

/// A resolved batch order pays exactly what it adds to the scheduled amounts of the
/// agreements and activities, each of those raises is positive, the order pays more than
/// nothing and no more than the documents still owed, and no expenditure it draws on is
/// scheduled beyond what was accepted on it.
pub proof fn law_order_pays_what_it_schedules(
    args: ResolveInvoiceArgs,
    acts: Seq<ActivityPaymentRow>,
    invs: Seq<InvoicePaymentRow>,
    exps: Seq<ExpenditureRow>,
)
    requires
        forall|i: int|
            0 <= i < acts.len() ==> amounts_bounded(
                (#[trigger] acts[i]).total_amount_accepted,
                acts[i].total_amount_scheduled,
            ),
        forall|i: int|
            0 <= i < invs.len() ==> amounts_bounded(
                (#[trigger] invs[i]).total_amount_accepted,
                invs[i].total_amount_scheduled,
            ),
        expenditures_bounded(exps),
    ensures
        resolution(args, acts, invs, exps) matches Some(Some((a, changed))) ==> {
            &&& increases_total(scheduled_increases(a)) == allocations_total(a)
            &&& forall|k: int|
                0 <= k < scheduled_increases(a).len() ==> increase_amount(
                    #[trigger] scheduled_increases(a)[k],
                ) > 0
            &&& 0 < allocations_total(a) <= activities_pay_total(acts) + invoices_pay_total(invs)
            &&& forall|i: int|
                0 <= i < changed.len() ==> (#[trigger] changed[i]).scheduled_amount
                    <= changed[i].accepted_amount
        },
{
    let ps0 = Seq::<BatchPaymentView>::empty();
    assert(payments_total(ps0) == 0);
    lemma_activity_part(acts, args, ps0, 0);
    if let Some((ps1, t1)) = activity_part_spec(acts, args, ps0, 0) {
        lemma_agreement_part(invs, args, ps1, t1);
        if let Some((ps, t)) = agreement_part_spec(invs, args, ps1, t1) {
            if t != 0 {
                let e0 = open_expenditures(exps);
                let empty = Seq::<BatchPaymentAllocationView>::empty();
                assert(allocations_total(empty) == 0);
                assert(items_sound(empty));
                assert(crate::dao::batch::allocations_nonneg(empty));
                crate::dao::batch::lemma_open_expenditures(exps);
                lemma_cover_payments(e0, empty, ps);
                lemma_payments_sound(e0, empty, ps);
                let (e, a) = cover_payments(e0, empty, ps);
                lemma_increases_of_sound(a);
                lemma_changed_within_accepted(e0, e, e0.len());
            }
        }
    }
}


fn amounts_bounded_exec(accepted: i128, scheduled: i128) -> (r: bool)
    ensures
        r == amounts_bounded(accepted, scheduled),
{
    let limit: i128 = 0x2000_0000_0000_0000_0000_0000_0000_0000;
    -limit <= accepted && accepted <= limit && -limit <= scheduled && scheduled <= limit
}

/// The stores are small enough for `resolve_with`: every amount the resolver reads is
/// representable, and so is the sum of what is still owed.
pub fn resolve_fits(ledger: &Ledger, allocations: &AllocationDao) -> (r: bool)
    requires
        ledger.wf(),
        allocations.wf(),
    ensures
        r == (ledger_amounts_bounded(ledger) && debts_bounded(ledger) && expenditures_bounded(
            allocations.expenditures@,
        )),
{
    let mut i: usize = 0;
    while i < ledger.agreements.len()
        invariant
            0 <= i <= ledger.agreements.len(),
            forall|q: int|
                0 <= q < i ==> amounts_bounded(
                    (#[trigger] ledger.agreements@[q]).total_amount_accepted,
                    ledger.agreements@[q].total_amount_scheduled,
                ),
        decreases ledger.agreements.len() - i,
    {
        let a = &ledger.agreements[i];
        if !amounts_bounded_exec(a.total_amount_accepted, a.total_amount_scheduled) {
            return false;
        }
        i = i + 1;
    }
    let mut i: usize = 0;
    while i < ledger.activities.len()
        invariant
            0 <= i <= ledger.activities.len(),
            forall|q: int|
                0 <= q < i ==> amounts_bounded(
                    (#[trigger] ledger.activities@[q]).total_amount_accepted,
                    ledger.activities@[q].total_amount_scheduled,
                ),
        decreases ledger.activities.len() - i,
    {
        let a = &ledger.activities[i];
        if !amounts_bounded_exec(a.total_amount_accepted, a.total_amount_scheduled) {
            return false;
        }
        i = i + 1;
    }
    let mut i: usize = 0;
    while i < allocations.expenditures.len()
        invariant
            0 <= i <= allocations.expenditures.len(),
            forall|q: int| 0 <= q < i ==> expenditure_bounded(#[trigger] allocations.expenditures@[q]),
        decreases allocations.expenditures.len() - i,
    {
        let e = &allocations.expenditures[i];
        if !amounts_bounded_exec(e.accepted_amount, e.scheduled_amount) {
            return false;
        }
        i = i + 1;
    }
    let acts = read_activity_payment_rows(ledger);
    let invs = read_invoice_payment_rows(ledger);
    proof {
        lemma_activity_rows_bounded(ledger, ledger.activities@);
        lemma_invoice_rows_bounded(ledger, ledger.invoices@);
    }
    let limit: i128 = 0x4000_0000_0000_0000_0000_0000_0000_0000;
    let mut total: i128 = 0;
    let ghost fa = |r: ActivityPaymentRow| pos_part(r.total_amount_accepted - r.total_amount_scheduled);
    let ghost fi = |r: InvoicePaymentRow| pos_part(r.total_amount_accepted - r.total_amount_scheduled);
    let mut k: usize = 0;
    proof {
        assert(acts@.take(0) =~= Seq::<ActivityPaymentRow>::empty());
    }
    while k < acts.len()
        invariant
            0 <= k <= acts.len(),
            acts@ == activity_payment_rows(ledger),
            forall|q: int|
                0 <= q < acts@.len() ==> amounts_bounded(
                    (#[trigger] acts@[q]).total_amount_accepted,
                    acts@[q].total_amount_scheduled,
                ),
            limit == 2 * amount_limit(),
            fa == (|r: ActivityPaymentRow| pos_part(r.total_amount_accepted - r.total_amount_scheduled)),
            fi == (|r: InvoicePaymentRow| pos_part(r.total_amount_accepted - r.total_amount_scheduled)),
            invs@ == invoice_payment_rows(ledger),
            forall|q: int|
                0 <= q < invs@.len() ==> amounts_bounded(
                    (#[trigger] invs@[q]).total_amount_accepted,
                    invs@[q].total_amount_scheduled,
                ),
            total == crate::sums::seq_sum(acts@.take(k as int), fa),
            0 <= total <= limit,
        decreases acts.len() - k,
    {
        proof {
            assert(acts@.take(k + 1).drop_last() =~= acts@.take(k as int));
            assert(acts@.take(k + 1).last() == acts@[k as int]);
            assert(amounts_bounded(acts@[k as int].total_amount_accepted, acts@[k as int].total_amount_scheduled));
        }
        let r = &acts[k];
        let d = r.total_amount_accepted - r.total_amount_scheduled;
        let part: i128 = if d > 0 { d } else { 0 };
        if part > limit - total {
            proof {
                assert forall|q: int| 0 <= q < acts@.len() implies fa(#[trigger] acts@[q]) >= 0 by {}
                lemma_seq_sum_take_le(acts@, k + 1, fa);
                assert forall|q: int| 0 <= q < invs@.len() implies fi(#[trigger] invs@[q]) >= 0 by {}
                lemma_seq_sum_nonneg(invs@, fi);
            }
            return false;
        }
        total = total + part;
        k = k + 1;
    }
    proof {
        assert(acts@.take(k as int) =~= acts@);
    }
    let ghost acts_total = total as int;
    let mut k: usize = 0;
    proof {
        assert(invs@.take(0) =~= Seq::<InvoicePaymentRow>::empty());
    }
    while k < invs.len()
        invariant
            0 <= k <= invs.len(),
            invs@ == invoice_payment_rows(ledger),
            forall|q: int|
                0 <= q < invs@.len() ==> amounts_bounded(
                    (#[trigger] invs@[q]).total_amount_accepted,
                    invs@[q].total_amount_scheduled,
                ),
            limit == 2 * amount_limit(),
            acts_total == activities_pay_total(activity_payment_rows(ledger)),
            fi == (|r: InvoicePaymentRow| pos_part(r.total_amount_accepted - r.total_amount_scheduled)),
            total == acts_total + crate::sums::seq_sum(invs@.take(k as int), fi),
            0 <= total <= limit,
        decreases invs.len() - k,
    {
        proof {
            assert(invs@.take(k + 1).drop_last() =~= invs@.take(k as int));
            assert(invs@.take(k + 1).last() == invs@[k as int]);
            assert(amounts_bounded(invs@[k as int].total_amount_accepted, invs@[k as int].total_amount_scheduled));
        }
        let r = &invs[k];
        let d = r.total_amount_accepted - r.total_amount_scheduled;
        let part: i128 = if d > 0 { d } else { 0 };
        if part > limit - total {
            proof {
                assert forall|q: int| 0 <= q < invs@.len() implies fi(#[trigger] invs@[q]) >= 0 by {}
                lemma_seq_sum_take_le(invs@, k + 1, fi);
            }
            return false;
        }
        total = total + part;
        k = k + 1;
    }
    proof {
        assert(invs@.take(k as int) =~= invs@);
    }
    true
}

} // verus!
