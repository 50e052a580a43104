//! What resolving does to one activity: the raise of its scheduled amount is what the
//! batch items pay towards its debit notes, which is at most what was still owed on it.
use vstd::prelude::*;
use crate::dao::batch::{
    allocated_amount, allocation_index, allocation_insert, cover_obligations, cover_payments,
    cover_prefix, expenditure_matches, expenditures_bounded, increase_of, lemma_allocation_index_bounds,
    lemma_cover_obligations, lemma_cover_prefix, lemma_payment_index, min_int, obligation_amount,
    obligation_part, obligations_nonneg, payment_index, payment_insert, payments_nonneg,
    allocations_nonneg, scheduled_increases, BatchPaymentAllocationView, BatchPaymentObligation,
    BatchPaymentObligationAllocation, BatchPaymentView, ScheduledIncrease,
};
use crate::dao::batch::{
    activity_obligation, activity_part_spec, activity_selected, agreement_part_spec, amounts_bounded,
    invoice_obligation, invoice_selected, pos_part, ActivityPaymentRow, InvoicePaymentRow,
    ResolveInvoiceArgs,
};
use crate::dao::resolve::{
    activity_joined, activity_payment_row, activity_rows_of, activity_schedule, schedule_applied,
};
use crate::ledger::{
    has_key, key_index, key_is, keys_unique, lemma_key_index, ActivityRow, AgreementRow, Keyed, Ledger,
};
use crate::models::ExpenditureRow;
use crate::node_id::spec_node_id_text;
use crate::sums::{
    lemma_seq_sum_concat, lemma_seq_sum_map, lemma_seq_sum_push, lemma_seq_sum_update, seq_sum,
};

verus! {

/// What a part pays towards the debit notes of activity `id`.
pub open spec fn part_share(o: BatchPaymentObligationAllocation, id: Seq<char>) -> int {
    match o {
        BatchPaymentObligationAllocation::DebitNote { amount, activity_id, .. } => if activity_id@
            == id {
            amount as int
        } else {
            0
        },
        _ => 0,
    }
}

pub open spec fn item_share(v: BatchPaymentAllocationView, id: Seq<char>) -> int {
    seq_sum(v.obligations, |o: BatchPaymentObligationAllocation| part_share(o, id))
}

/// What the items pay towards the debit notes of activity `id`.
pub open spec fn items_share(a: Seq<BatchPaymentAllocationView>, id: Seq<char>) -> int {
    seq_sum(a, |v: BatchPaymentAllocationView| item_share(v, id))
}

pub open spec fn increase_share(i: ScheduledIncrease, id: Seq<char>) -> int {
    match i {
        ScheduledIncrease::Activity { activity_id, amount } => if activity_id@ == id {
            amount as int
        } else {
            0
        },
        _ => 0,
    }
}

/// What the raises add to the scheduled amount of activity `id`.
pub open spec fn increases_share(s: Seq<ScheduledIncrease>, id: Seq<char>) -> int {
    seq_sum(s, |i: ScheduledIncrease| increase_share(i, id))
}

/// The raises of the items add to an activity what the items pay towards it.
pub proof fn lemma_increases_share(a: Seq<BatchPaymentAllocationView>, id: Seq<char>)
    ensures
        increases_share(scheduled_increases(a), id) == items_share(a, id),
    decreases a.len(),
{
    if a.len() > 0 {
        let pre = a.drop_last();
        lemma_increases_share(pre, id);
        let last = a.last();
        let g = |o: BatchPaymentObligationAllocation| increase_of(o);
        let f = |i: ScheduledIncrease| increase_share(i, id);
        let h = |o: BatchPaymentObligationAllocation| part_share(o, id);
        assert forall|x: BatchPaymentObligationAllocation| #[trigger] f(g(x)) == h(x) by {}
        lemma_seq_sum_map(last.obligations, g, f, h);
        lemma_seq_sum_concat(scheduled_increases(pre), last.obligations.map_values(g), f);
    }
}

/// Inserting a part adds its share.
pub proof fn lemma_insert_share(
    a: Seq<BatchPaymentAllocationView>,
    payee: Seq<char>,
    allocation_id: Seq<char>,
    o: BatchPaymentObligationAllocation,
    id: Seq<char>,
)
    ensures
        items_share(allocation_insert(a, payee, allocation_id, o), id) == items_share(a, id)
            + part_share(o, id),
{
    lemma_allocation_index_bounds(a, payee, allocation_id);
    let k = allocation_index(a, payee, allocation_id);
    let f = |v: BatchPaymentAllocationView| item_share(v, id);
    let h = |x: BatchPaymentObligationAllocation| part_share(x, id);
    if k >= 0 {
        let nv = BatchPaymentAllocationView {
            amount: a[k].amount + allocated_amount(o),
            obligations: a[k].obligations.push(o),
            ..a[k]
        };
        lemma_seq_sum_push(a[k].obligations, o, h);
        lemma_seq_sum_update(a, k, nv, f);
    } else {
        let nv = BatchPaymentAllocationView {
            payee_addr: payee,
            allocation_id,
            amount: allocated_amount(o),
            obligations: seq![o],
        };
        assert(seq![o] =~= Seq::<BatchPaymentObligationAllocation>::empty().push(o));
        lemma_seq_sum_push(Seq::<BatchPaymentObligationAllocation>::empty(), o, h);
        lemma_seq_sum_push(a, nv, f);
    }
}

/// What covering `c` of obligation `o` pays towards activity `id`.
pub open spec fn covered_share(o: BatchPaymentObligation, id: Seq<char>, c: int) -> int {
    match o {
        BatchPaymentObligation::DebitNote { activity_id, .. } => if activity_id@ == id {
            c
        } else {
            0
        },
        _ => 0,
    }
}

/// What obligation `o` asks towards activity `id`.
pub open spec fn obligation_share(o: BatchPaymentObligation, id: Seq<char>) -> int {
    covered_share(o, id, obligation_amount(o))
}

proof fn lemma_prefix_share(
    e0: Seq<ExpenditureRow>,
    a0: Seq<BatchPaymentAllocationView>,
    payee: Seq<char>,
    o: BatchPaymentObligation,
    k: nat,
    id: Seq<char>,
)
    requires
        k <= e0.len(),
        obligation_amount(o) >= 0,
        expenditures_bounded(e0),
        allocations_nonneg(a0),
    ensures
        items_share(cover_prefix(e0, a0, payee, o, k).1, id) == items_share(a0, id) + covered_share(
            o,
            id,
            cover_prefix(e0, a0, payee, o, k).2,
        ),
    decreases k,
{
    if k > 0 {
        lemma_prefix_share(e0, a0, payee, o, (k - 1) as nat, id);
        lemma_cover_prefix(e0, a0, payee, o, (k - 1) as nat);
        let (e, a, c) = cover_prefix(e0, a0, payee, o, (k - 1) as nat);
        let x = e[k - 1];
        if expenditure_matches(x, o) && c < obligation_amount(o) {
            let take = min_int(obligation_amount(o) - c, x.accepted_amount - x.scheduled_amount);
            let part = obligation_part(o, x.allocation_id, take);
            assert(part_share(part, id) == covered_share(o, id, take));
            lemma_insert_share(a, payee, x.allocation_id@, part, id);
        }
    }
}

/// What the obligations ask towards activity `id`.
pub open spec fn obligations_share(obs: Seq<BatchPaymentObligation>, id: Seq<char>) -> int {
    seq_sum(obs, |o: BatchPaymentObligation| obligation_share(o, id))
}

/// What all payees' obligations ask towards activity `id`.
pub open spec fn payments_share(ps: Seq<BatchPaymentView>, id: Seq<char>) -> int {
    seq_sum(ps, |p: BatchPaymentView| obligations_share(p.obligations, id))
}

proof fn lemma_obligations_share(
    e0: Seq<ExpenditureRow>,
    a0: Seq<BatchPaymentAllocationView>,
    payee: Seq<char>,
    obs: Seq<BatchPaymentObligation>,
    id: Seq<char>,
)
    requires
        obligations_nonneg(obs),
        expenditures_bounded(e0),
        allocations_nonneg(a0),
    ensures
        items_share(cover_obligations(e0, a0, payee, obs).1, id) <= items_share(a0, id)
            + obligations_share(obs, id),
    decreases obs.len(),
{
    if obs.len() > 0 {
        let pre = obs.drop_last();
        assert(obligations_nonneg(pre)) by {
            assert forall|j: int| 0 <= j < pre.len() implies obligation_amount(#[trigger] pre[j]) >= 0 by {
                assert(pre[j] == obs[j]);
            }
        }
        lemma_obligations_share(e0, a0, payee, pre, id);
        lemma_cover_obligations(e0, a0, payee, pre);
        let (e, a) = cover_obligations(e0, a0, payee, pre);
        let o = obs.last();
        assert(obligation_amount(o) >= 0) by {
            assert(o == obs[obs.len() - 1]);
        }
        lemma_prefix_share(e, a, payee, o, e.len(), id);
        lemma_cover_prefix(e, a, payee, o, e.len());
    }
}

/// Covering pays an activity at most what the obligations ask towards it.
pub proof fn lemma_payments_share(
    e0: Seq<ExpenditureRow>,
    a0: Seq<BatchPaymentAllocationView>,
    ps: Seq<BatchPaymentView>,
    id: Seq<char>,
)
    requires
        payments_nonneg(ps),
        expenditures_bounded(e0),
        allocations_nonneg(a0),
    ensures
        items_share(cover_payments(e0, a0, ps).1, id) <= items_share(a0, id) + payments_share(ps, id),
    decreases ps.len(),
{
    if ps.len() > 0 {
        let pre = ps.drop_last();
        assert(payments_nonneg(pre)) by {
            assert forall|i: int| 0 <= i < pre.len() implies obligations_nonneg(#[trigger] pre[i].obligations) by {
                assert(pre[i] == ps[i]);
            }
        }
        lemma_payments_share(e0, a0, pre, id);
        crate::dao::batch::lemma_cover_payments(e0, a0, pre);
        let (e, a) = cover_payments(e0, a0, pre);
        assert(obligations_nonneg(ps.last().obligations)) by {
            assert(ps.last() == ps[ps.len() - 1]);
        }
        lemma_obligations_share(e, a, ps.last().payee_id, ps.last().obligations, id);
    }
}

/// Adding an obligation to a payee's group adds its share.
pub proof fn lemma_payment_insert_share(
    ps: Seq<BatchPaymentView>,
    payee_addr: Seq<char>,
    payee_id: Seq<char>,
    o: BatchPaymentObligation,
    id: Seq<char>,
)
    ensures
        payments_share(payment_insert(ps, payee_addr, payee_id, o), id) == payments_share(ps, id)
            + obligation_share(o, id),
{
    lemma_payment_index(ps, payee_addr);
    let k = payment_index(ps, payee_addr);
    let f = |p: BatchPaymentView| obligations_share(p.obligations, id);
    let h = |x: BatchPaymentObligation| obligation_share(x, id);
    if k >= 0 {
        let nv = BatchPaymentView {
            amount: ps[k].amount + obligation_amount(o),
            obligations: ps[k].obligations.push(o),
            ..ps[k]
        };
        lemma_seq_sum_push(ps[k].obligations, o, h);
        lemma_seq_sum_update(ps, k, nv, f);
    } else {
        let nv = BatchPaymentView {
            payee_addr,
            payee_id,
            amount: obligation_amount(o),
            obligations: seq![o],
        };
        assert(seq![o] =~= Seq::<BatchPaymentObligation>::empty().push(o));
        lemma_seq_sum_push(Seq::<BatchPaymentObligation>::empty(), o, h);
        lemma_seq_sum_push(ps, nv, f);
    }
}


/// What the rows of activity `id` of `owner` still owe.
pub open spec fn row_debt(r: ActivityPaymentRow, id: Seq<char>, owner: Seq<char>) -> int {
    if r.id@ == id && r.owner_id@ == owner {
        pos_part(r.total_amount_accepted - r.total_amount_scheduled)
    } else {
        0
    }
}

pub open spec fn rows_debt(rows: Seq<ActivityPaymentRow>, id: Seq<char>, owner: Seq<char>) -> int {
    seq_sum(rows, |r: ActivityPaymentRow| row_debt(r, id, owner))
}

/// Gathering the activities' obligations asks towards activity `id` at most what its rows
/// of the resolving owner still owe.
proof fn lemma_activity_part_share(
    rows: Seq<ActivityPaymentRow>,
    args: ResolveInvoiceArgs,
    ps0: Seq<BatchPaymentView>,
    total0: int,
    id: Seq<char>,
)
    requires
        forall|i: int|
            0 <= i < rows.len() ==> amounts_bounded(
                #[trigger] rows[i].total_amount_accepted,
                rows[i].total_amount_scheduled,
            ),
    ensures
        activity_part_spec(rows, args, ps0, total0) matches Some((ps, t)) ==> payments_share(ps, id)
            <= payments_share(ps0, id) + rows_debt(rows, id, args.owner_id@),
    decreases rows.len(),
{
    if rows.len() > 0 {
        let pre = rows.drop_last();
        assert forall|i: int| 0 <= i < pre.len() implies amounts_bounded(
            #[trigger] pre[i].total_amount_accepted,
            pre[i].total_amount_scheduled,
        ) by {
            assert(pre[i] == rows[i]);
        }
        lemma_activity_part_share(pre, args, ps0, total0, id);
        let r = rows.last();
        assert(amounts_bounded(r.total_amount_accepted, r.total_amount_scheduled)) by {
            assert(r == rows[rows.len() - 1]);
        }
        let f = |x: ActivityPaymentRow| row_debt(x, id, args.owner_id@);
        assert(rows.drop_last() == pre);
        assert(f(r) >= 0);
        if let Some((ps, t)) = activity_part_spec(pre, args, ps0, total0) {
            let amount = r.total_amount_accepted - r.total_amount_scheduled;
            if activity_selected(r, args) && amount > 0 {
                if let Some(pid) = spec_node_id_text(r.payee_addr@) {
                    lemma_payment_insert_share(ps, r.payee_addr@, pid, activity_obligation(r), id);
                }
            }
        }
    }
}

/// Gathering the invoices' obligations asks nothing towards any activity.
proof fn lemma_agreement_part_share(
    rows: Seq<InvoicePaymentRow>,
    args: ResolveInvoiceArgs,
    ps0: Seq<BatchPaymentView>,
    total0: int,
    id: Seq<char>,
)
    ensures
        agreement_part_spec(rows, args, ps0, total0) matches Some((ps, t)) ==> payments_share(ps, id)
            == payments_share(ps0, id),
    decreases rows.len(),
{
    if rows.len() > 0 {
        lemma_agreement_part_share(rows.drop_last(), args, ps0, total0, id);
        if let Some((ps, t)) = agreement_part_spec(rows.drop_last(), args, ps0, total0) {
            let r = rows.last();
            let amount = r.total_amount_accepted - r.total_amount_scheduled;
            if invoice_selected(r, args) && amount > 0 {
                if let Some(pid) = spec_node_id_text(r.payee_addr@) {
                    lemma_payment_insert_share(ps, r.payee_addr@, pid, invoice_obligation(r), id);
                }
            }
        }
    }
}

/// What activity `id` of `owner` still owes, read from the activities themselves.
pub open spec fn activity_debt(acts: Seq<ActivityRow>, id: Seq<char>, owner: Seq<char>) -> int {
    seq_sum(
        acts,
        |a: ActivityRow|
            if a.id@ == id && a.owner_id@ == owner {
                pos_part(a.total_amount_accepted - a.total_amount_scheduled)
            } else {
                0
            },
    )
}

proof fn lemma_rows_debt(l: &Ledger, acts: Seq<ActivityRow>, id: Seq<char>, owner: Seq<char>)
    ensures
        rows_debt(activity_rows_of(l, acts), id, owner) <= activity_debt(acts, id, owner),
    decreases acts.len(),
{
    if acts.len() > 0 {
        lemma_rows_debt(l, acts.drop_last(), id, owner);
        let a = acts.last();
        let rest = activity_rows_of(l, acts.drop_last());
        let f = |r: ActivityPaymentRow| row_debt(r, id, owner);
        if activity_joined(l, a) {
            lemma_seq_sum_push(rest, activity_payment_row(l, a), f);
        }
    }
}

/// Where each activity of an owner is kept once, what one of them owes is its own debt.
proof fn lemma_activity_debt_unique(acts: Seq<ActivityRow>, id: Seq<char>, owner: Seq<char>)
    requires
        keys_unique(acts),
    ensures
        activity_debt(acts, id, owner) == if has_key(acts, id, owner) {
            let a = acts[key_index(acts, id, owner)];
            pos_part(a.total_amount_accepted - a.total_amount_scheduled)
        } else {
            0
        },
    decreases acts.len(),
{
    if acts.len() > 0 {
        let pre = acts.drop_last();
        assert(keys_unique(pre)) by {
            assert forall|i: int, j: int|
                0 <= i < pre.len() && 0 <= j < pre.len() && i != j implies !(#[trigger] pre[i].key_id()
                    == #[trigger] pre[j].key_id() && pre[i].key_owner() == pre[j].key_owner()) by {
                assert(pre[i] == acts[i] && pre[j] == acts[j]);
            }
        }
        lemma_activity_debt_unique(pre, id, owner);
        let last = acts.last();
        let n = acts.len() - 1;
        assert(last == acts[n]);
        if key_is(last, id, owner) {
            lemma_key_index(acts, id, owner, n);
            if has_key(pre, id, owner) {
                let k = key_index(pre, id, owner);
                assert(key_is(pre[k], id, owner));
                assert(pre[k] == acts[k]);
                assert(false);
            }
        } else if has_key(pre, id, owner) {
            let k = key_index(pre, id, owner);
            assert(pre[k] == acts[k]);
            lemma_key_index(acts, id, owner, k);
        } else {
            assert(!has_key(acts, id, owner)) by {
                if has_key(acts, id, owner) {
                    let k = choose|k: int| 0 <= k < acts.len() && #[trigger] key_is(acts[k], id, owner);
                    if k < n {
                        assert(pre[k] == acts[k]);
                    }
                }
            }
        }
    }
}

/// After the raises, activity `j` is scheduled what it was plus what the raises add to it,
/// where it belongs to `owner`; the others are as they were.
proof fn lemma_applied_activity(
    ags: Seq<AgreementRow>,
    acts: Seq<ActivityRow>,
    owner: Seq<char>,
    incs: Seq<ScheduledIncrease>,
    j: int,
)
    requires
        keys_unique(acts),
        0 <= j < acts.len(),
        schedule_applied(ags, acts, owner, incs) is Some,
    ensures
        ({
            let cols = schedule_applied(ags, acts, owner, incs)->0;
            &&& cols.1.len() == acts.len()
            &&& cols.1[j] == activity_schedule(acts)[j] + if acts[j].owner_id@ == owner {
                increases_share(incs, acts[j].id@)
            } else {
                0
            }
        }),
    decreases incs.len(),
{
    if incs.len() > 0 {
        let pre = incs.drop_last();
        lemma_applied_activity(ags, acts, owner, pre, j);
        let cols = schedule_applied(ags, acts, owner, pre)->0;
        let inc = incs.last();
        let f = |i: ScheduledIncrease| increase_share(i, acts[j].id@);
        match inc {
            ScheduledIncrease::Activity { activity_id, amount } => {
                let q = key_index(acts, activity_id@, owner);
                if q == j {
                    assert(key_is(acts[q], activity_id@, owner));
                } else if acts[j].owner_id@ == owner && activity_id@ == acts[j].id@ {
                    lemma_key_index(acts, activity_id@, owner, j);
                }
            },
            _ => {},
        }
    } else {
        assert(activity_schedule(acts).len() == acts.len());
    }
}

/// Resolving never schedules more on an activity than was accepted on it: after the raises
/// of a resolved order, each activity is scheduled at most what was accepted on it, or what
/// it was scheduled before where that was more.
pub proof fn law_activity_scheduled_within_accepted(
    l: &Ledger,
    args: ResolveInvoiceArgs,
    exps: Seq<ExpenditureRow>,
    j: int,
)
    requires
        l.wf(),
        crate::dao::resolve::ledger_amounts_bounded(l),
        expenditures_bounded(exps),
        0 <= j < l.activities@.len(),
    ensures
        crate::dao::resolve::resolution(
            args,
            crate::dao::resolve::activity_payment_rows(l),
            crate::dao::resolve::invoice_payment_rows(l),
            exps,
        ) matches Some(
            Some((a, changed)),
        ) ==> (schedule_applied(
            l.agreements@,
            l.activities@,
            args.owner_id@,
            scheduled_increases(a),
        ) matches Some(cols) ==> cols.1[j] <= if l.activities@[j].total_amount_accepted
            > l.activities@[j].total_amount_scheduled {
            l.activities@[j].total_amount_accepted as int
        } else {
            l.activities@[j].total_amount_scheduled as int
        }),
{
    let acts = crate::dao::resolve::activity_payment_rows(l);
    let invs = crate::dao::resolve::invoice_payment_rows(l);
    crate::dao::resolve::lemma_activity_rows_bounded(l, l.activities@);
    crate::dao::resolve::lemma_invoice_rows_bounded(l, l.invoices@);
    let ps0 = Seq::<BatchPaymentView>::empty();
    let id = l.activities@[j].id@;
    let owner = args.owner_id@;
    assert(crate::dao::batch::payments_total(ps0) == 0);
    crate::dao::batch::lemma_activity_part(acts, args, ps0, 0);
    lemma_activity_part_share(acts, args, ps0, 0, id);
    assert(payments_share(ps0, id) == 0);
    if let Some((ps1, t1)) = activity_part_spec(acts, args, ps0, 0) {
        crate::dao::batch::lemma_agreement_part(invs, args, ps1, t1);
        lemma_agreement_part_share(invs, args, ps1, t1, id);
        if let Some((ps, t)) = agreement_part_spec(invs, args, ps1, t1) {
            if t != 0 {
                let e0 = crate::dao::batch::open_expenditures(exps);
                let empty = Seq::<BatchPaymentAllocationView>::empty();
                assert(items_share(empty, id) == 0);
                assert(allocations_nonneg(empty));
                crate::dao::batch::lemma_open_expenditures(exps);
                lemma_payments_share(e0, empty, ps, id);
                let (e, a) = cover_payments(e0, empty, ps);
                lemma_increases_share(a, id);
                lemma_rows_debt(l, l.activities@, id, owner);
                lemma_activity_debt_unique(l.activities@, id, owner);
                if let Some(cols) = schedule_applied(l.agreements@, l.activities@, owner, scheduled_increases(a)) {
                    lemma_applied_activity(l.agreements@, l.activities@, owner, scheduled_increases(a), j);
                    if l.activities@[j].owner_id@ == owner {
                        lemma_key_index(l.activities@, id, owner, j);
                    }
                }
            }
        }
    }
}

} // verus!
