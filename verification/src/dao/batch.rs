//! Resolving accepted documents into batch orders.
use vstd::prelude::*;
use crate::error::{DbError, DbResult};
use crate::models::{clone_opt, ExpenditureRow};
use crate::node_id::{parse_node_id, spec_node_id_text};
use crate::status::{DocumentStatus, Role};
use crate::sums::{
    lemma_seq_sum_concat, lemma_seq_sum_elem_le, lemma_seq_sum_map, lemma_seq_sum_nonneg,
    lemma_seq_sum_push, lemma_seq_sum_take_le, lemma_seq_sum_update, seq_sum,
};

verus! {

/// A debt towards a payee that a batch order has to settle: the unscheduled part of an
/// agreement with an accepted invoice, or of an activity with accepted debit notes.
#[derive(Debug)]
pub enum BatchPaymentObligation {
    Invoice { id: String, amount: i128, agreement_id: String },
    DebitNote {
        debit_note_id: Option<String>,
        amount: i128,
        agreement_id: String,
        activity_id: String,
    },
}

/// The part of an obligation covered from one allocation.
#[derive(Debug)]
pub enum BatchPaymentObligationAllocation {
    Invoice { id: String, amount: i128, agreement_id: String, allocation_id: String },
    DebitNote {
        debit_note_id: Option<String>,
        amount: i128,
        agreement_id: String,
        activity_id: String,
        allocation_id: String,
    },
}

pub open spec fn obligation_amount(o: BatchPaymentObligation) -> int {
    match o {
        BatchPaymentObligation::Invoice { amount, .. } => amount as int,
        BatchPaymentObligation::DebitNote { amount, .. } => amount as int,
    }
}

pub open spec fn allocated_amount(o: BatchPaymentObligationAllocation) -> int {
    match o {
        BatchPaymentObligationAllocation::Invoice { amount, .. } => amount as int,
        BatchPaymentObligationAllocation::DebitNote { amount, .. } => amount as int,
    }
}

/// Key of a batch order item: the payee and the allocation that pays it.
#[derive(Debug)]
pub struct AllocationPayeeKey {
    pub payee_addr: String,
    pub allocation_id: String,
}

/// What one allocation pays one payee in a batch order, with the documents it settles.
#[derive(Debug)]
pub struct BatchPaymentAllocation {
    pub payee_addr: String,
    pub allocation_id: String,
    pub amount: i128,
    pub obligations: Vec<BatchPaymentObligationAllocation>,
}

pub struct BatchPaymentAllocationView {
    pub payee_addr: Seq<char>,
    pub allocation_id: Seq<char>,
    pub amount: int,
    pub obligations: Seq<BatchPaymentObligationAllocation>,
}

impl View for BatchPaymentAllocation {
    type V = BatchPaymentAllocationView;

    open spec fn view(&self) -> BatchPaymentAllocationView {
        BatchPaymentAllocationView {
            payee_addr: self.payee_addr@,
            allocation_id: self.allocation_id@,
            amount: self.amount as int,
            obligations: self.obligations@,
        }
    }
}

pub open spec fn allocations_view(v: Seq<BatchPaymentAllocation>) -> Seq<BatchPaymentAllocationView> {
    v.map_values(|x: BatchPaymentAllocation| x@)
}

/// Sum of the amounts of all items.
pub open spec fn allocations_total(a: Seq<BatchPaymentAllocationView>) -> int {
    seq_sum(a, |x: BatchPaymentAllocationView| x.amount)
}

/// Position of the item for `payee` and `allocation_id`, or -1 where there is none.
pub open spec fn allocation_index(
    a: Seq<BatchPaymentAllocationView>,
    payee: Seq<char>,
    allocation_id: Seq<char>,
) -> int
    decreases a.len(),
{
    if a.len() == 0 {
        -1
    } else {
        let k = allocation_index(a.drop_last(), payee, allocation_id);
        if k >= 0 {
            k
        } else if a.last().payee_addr == payee && a.last().allocation_id == allocation_id {
            a.len() - 1
        } else {
            -1
        }
    }
}

/// Adds a covered part to the item of its payee and allocation, creating the item if
/// there is none yet.
pub open spec fn allocation_insert(
    a: Seq<BatchPaymentAllocationView>,
    payee: Seq<char>,
    allocation_id: Seq<char>,
    o: BatchPaymentObligationAllocation,
) -> Seq<BatchPaymentAllocationView> {
    let k = allocation_index(a, payee, allocation_id);
    if k >= 0 {
        a.update(
            k,
            BatchPaymentAllocationView {
                amount: a[k].amount + allocated_amount(o),
                obligations: a[k].obligations.push(o),
                ..a[k]
            },
        )
    } else {
        a.push(
            BatchPaymentAllocationView {
                payee_addr: payee,
                allocation_id,
                amount: allocated_amount(o),
                obligations: seq![o],
            },
        )
    }
}

pub proof fn lemma_allocation_index_bounds(
    a: Seq<BatchPaymentAllocationView>,
    payee: Seq<char>,
    allocation_id: Seq<char>,
)
    ensures
        -1 <= allocation_index(a, payee, allocation_id) < a.len(),
        allocation_index(a, payee, allocation_id) >= 0 ==> {
            let k = allocation_index(a, payee, allocation_id);
            a[k].payee_addr == payee && a[k].allocation_id == allocation_id
        },
        allocation_index(a, payee, allocation_id) == -1 ==> forall|j: int|
            0 <= j < a.len() ==> !(#[trigger] a[j].payee_addr == payee && a[j].allocation_id
                == allocation_id),
    decreases a.len(),
{
    if a.len() > 0 {
        lemma_allocation_index_bounds(a.drop_last(), payee, allocation_id);
        let k = allocation_index(a.drop_last(), payee, allocation_id);
        if k == -1 {
            assert forall|j: int|
                0 <= j < a.len() - 1 implies !(#[trigger] a[j].payee_addr == payee
                && a[j].allocation_id == allocation_id) by {
                assert(a[j] == a.drop_last()[j]);
            }
        }
    }
}

/// Inserting a part adds its amount to the total of the items.
pub proof fn lemma_allocation_insert_total(
    a: Seq<BatchPaymentAllocationView>,
    payee: Seq<char>,
    allocation_id: Seq<char>,
    o: BatchPaymentObligationAllocation,
)
    ensures
        allocations_total(allocation_insert(a, payee, allocation_id, o)) == allocations_total(a)
            + allocated_amount(o),
{
    lemma_allocation_index_bounds(a, payee, allocation_id);
    let k = allocation_index(a, payee, allocation_id);
    let f = |x: BatchPaymentAllocationView| x.amount;
    if k >= 0 {
        let nv = BatchPaymentAllocationView {
            amount: a[k].amount + allocated_amount(o),
            obligations: a[k].obligations.push(o),
            ..a[k]
        };
        lemma_seq_sum_update(a, k, nv, f);
    } else {
        let nv = BatchPaymentAllocationView {
            payee_addr: payee,
            allocation_id,
            amount: allocated_amount(o),
            obligations: seq![o],
        };
        lemma_seq_sum_push(a, nv, f);
    }
}

pub open spec fn allocations_nonneg(a: Seq<BatchPaymentAllocationView>) -> bool {
    forall|i: int| 0 <= i < a.len() ==> (#[trigger] a[i]).amount >= 0
}

pub fn insert_or_update_allocation_entry(
    payment_allocations: &mut Vec<BatchPaymentAllocation>,
    allocation_payer_key: AllocationPayeeKey,
    obligation: BatchPaymentObligationAllocation,
) -> (r: DbResult<()>)
    requires
        allocations_nonneg(allocations_view(old(payment_allocations)@)),
        allocated_amount(obligation) >= 0,
        allocations_total(allocations_view(old(payment_allocations)@)) + allocated_amount(
            obligation,
        ) <= i128::MAX,
    ensures
        r is Ok,
        allocations_view(final(payment_allocations)@) == allocation_insert(
            allocations_view(old(payment_allocations)@),
            allocation_payer_key.payee_addr@,
            allocation_payer_key.allocation_id@,
            obligation,
        ),
{
    let ghost a0 = allocations_view(payment_allocations@);
    proof {
        lemma_allocation_index_bounds(
            a0,
            allocation_payer_key.payee_addr@,
            allocation_payer_key.allocation_id@,
        );
    }
    let amount = match &obligation {
        BatchPaymentObligationAllocation::Invoice { amount, .. } => *amount,
        BatchPaymentObligationAllocation::DebitNote { amount, .. } => *amount,
    };
    let mut i: usize = 0;
    while i < payment_allocations.len()
        invariant
            0 <= i <= payment_allocations.len(),
            payment_allocations@ == old(payment_allocations)@,
            a0 == allocations_view(payment_allocations@),
            allocation_index(a0.take(i as int), allocation_payer_key.payee_addr@, allocation_payer_key.allocation_id@) == -1,
            allocations_nonneg(a0),
            allocations_total(a0) + allocated_amount(obligation) <= i128::MAX,
            amount == allocated_amount(obligation),
        decreases payment_allocations.len() - i,
    {
        assert(a0.take(i + 1).drop_last() =~= a0.take(i as int));
        if payment_allocations[i].payee_addr == allocation_payer_key.payee_addr
            && payment_allocations[i].allocation_id == allocation_payer_key.allocation_id {
            proof {
                lemma_allocation_index_prefix(a0, allocation_payer_key.payee_addr@, allocation_payer_key.allocation_id@, i as int);
                assert(a0[i as int] == payment_allocations@[i as int]@);
                let f = |x: BatchPaymentAllocationView| x.amount;
                assert forall|j: int| 0 <= j < a0.len() implies f(#[trigger] a0[j]) >= 0 by {
                    assert(a0[j].amount >= 0);
                }
                lemma_seq_sum_elem_le(a0, i as int, f);
            }
            let entry = &mut payment_allocations[i];
            entry.amount = entry.amount + amount;
            entry.obligations.push(obligation);
            proof {
                assert(allocations_view(payment_allocations@) =~= allocation_insert(
                    a0,
                    allocation_payer_key.payee_addr@,
                    allocation_payer_key.allocation_id@,
                    obligation,
                ));
            }
            return Ok(());
        }
        i = i + 1;
    }
    proof {
        assert(a0.take(i as int) =~= a0);
    }
    let mut obligations = Vec::new();
    obligations.push(obligation);
    payment_allocations.push(
        BatchPaymentAllocation {
            payee_addr: allocation_payer_key.payee_addr,
            allocation_id: allocation_payer_key.allocation_id,
            amount,
            obligations,
        },
    );
    proof {
        assert(allocations_view(payment_allocations@) =~= allocation_insert(
            a0,
            allocation_payer_key.payee_addr@,
            allocation_payer_key.allocation_id@,
            obligation,
        ));
    }
    Ok(())
}

/// Where the prefix holds no match and position `i` matches, `i` is the first match.
pub proof fn lemma_allocation_index_prefix(
    a: Seq<BatchPaymentAllocationView>,
    payee: Seq<char>,
    allocation_id: Seq<char>,
    i: int,
)
    requires
        0 <= i < a.len(),
        allocation_index(a.take(i), payee, allocation_id) == -1,
        a[i].payee_addr == payee && a[i].allocation_id == allocation_id,
    ensures
        allocation_index(a, payee, allocation_id) == i,
    decreases a.len() - i,
{
    if i == a.len() - 1 {
        assert(a.drop_last() =~= a.take(i));
    } else {
        assert(a.drop_last().take(i) =~= a.take(i));
        lemma_allocation_index_prefix(a.drop_last(), payee, allocation_id, i);
    }
}


/// Amounts of stored records stay within this magnitude, so that the difference of two
/// of them is representable.
pub open spec fn amount_limit() -> int {
    0x2000_0000_0000_0000_0000_0000_0000_0000
}

pub open spec fn expenditure_bounded(e: ExpenditureRow) -> bool {
    &&& -amount_limit() <= e.scheduled_amount <= amount_limit()
    &&& -amount_limit() <= e.accepted_amount <= amount_limit()
}

pub open spec fn expenditures_bounded(e: Seq<ExpenditureRow>) -> bool {
    forall|i: int| 0 <= i < e.len() ==> expenditure_bounded(#[trigger] e[i])
}

/// Sum of the scheduled amounts of the expenditures.
pub open spec fn scheduled_total(e: Seq<ExpenditureRow>) -> int {
    seq_sum(e, |x: ExpenditureRow| x.scheduled_amount as int)
}

/// Whether an expenditure can pay towards an obligation: it belongs to the obligation's
/// agreement (and activity, for a debit note, or to no activity, for an invoice) and has
/// an accepted amount that is not yet scheduled.
pub open spec fn expenditure_matches(e: ExpenditureRow, o: BatchPaymentObligation) -> bool {
    &&& e.accepted_amount > e.scheduled_amount
    &&& match o {
        BatchPaymentObligation::Invoice { agreement_id, .. } => e.agreement_id@ == agreement_id@
            && e.activity_id is None,
        BatchPaymentObligation::DebitNote { agreement_id, activity_id, .. } => e.agreement_id@
            == agreement_id@ && (e.activity_id matches Some(a) && a@ == activity_id@),
    }
}

/// The part of obligation `o` paid from allocation `allocation_id`.
pub open spec fn obligation_part(
    o: BatchPaymentObligation,
    allocation_id: String,
    amount: int,
) -> BatchPaymentObligationAllocation {
    match o {
        BatchPaymentObligation::Invoice { id, agreement_id, .. } => {
            BatchPaymentObligationAllocation::Invoice {
                id,
                amount: amount as i128,
                agreement_id,
                allocation_id,
            }
        },
        BatchPaymentObligation::DebitNote { debit_note_id, agreement_id, activity_id, .. } => {
            BatchPaymentObligationAllocation::DebitNote {
                debit_note_id,
                amount: amount as i128,
                agreement_id,
                activity_id,
                allocation_id,
            }
        },
    }
}

pub open spec fn min_int(a: int, b: int) -> int {
    if a <= b {
        a
    } else {
        b
    }
}

/// Covering obligation `o` of payee `payee` from the first `k` expenditures, in order:
/// each matching expenditure gives what it has unscheduled, up to what the obligation
/// still lacks. Yields the expenditures, the batch items and the amount covered.
pub open spec fn cover_prefix(
    e0: Seq<ExpenditureRow>,
    a0: Seq<BatchPaymentAllocationView>,
    payee: Seq<char>,
    o: BatchPaymentObligation,
    k: nat,
) -> (Seq<ExpenditureRow>, Seq<BatchPaymentAllocationView>, int)
    decreases k,
{
    if k == 0 {
        (e0, a0, 0)
    } else {
        let (e, a, c) = cover_prefix(e0, a0, payee, o, (k - 1) as nat);
        let x = e[k - 1];
        if expenditure_matches(x, o) && c < obligation_amount(o) {
            let take = min_int(
                obligation_amount(o) - c,
                x.accepted_amount - x.scheduled_amount,
            );
            (
                e.update(
                    k - 1,
                    ExpenditureRow { scheduled_amount: (x.scheduled_amount + take) as i128, ..x },
                ),
                allocation_insert(a, payee, x.allocation_id@, obligation_part(o, x.allocation_id, take)),
                c + take,
            )
        } else {
            (e, a, c)
        }
    }
}

/// Covering an obligation from all expenditures.
pub open spec fn cover_obligation_spec(
    e0: Seq<ExpenditureRow>,
    a0: Seq<BatchPaymentAllocationView>,
    payee: Seq<char>,
    o: BatchPaymentObligation,
) -> (Seq<ExpenditureRow>, Seq<BatchPaymentAllocationView>, int) {
    cover_prefix(e0, a0, payee, o, e0.len())
}

/// What covering keeps: the expenditures are the same records with scheduled amounts
/// that only grow and never pass the accepted amount, and what the batch items gain is
/// what the expenditures' scheduled amounts gain, which is the amount covered, at most
/// the obligation's amount.
pub proof fn lemma_cover_prefix(
    e0: Seq<ExpenditureRow>,
    a0: Seq<BatchPaymentAllocationView>,
    payee: Seq<char>,
    o: BatchPaymentObligation,
    k: nat,
)
    requires
        k <= e0.len(),
        obligation_amount(o) >= 0,
        expenditures_bounded(e0),
        allocations_nonneg(a0),
    ensures
        ({
            let (e, a, c) = cover_prefix(e0, a0, payee, o, k);
            &&& e.len() == e0.len()
            &&& 0 <= c <= obligation_amount(o)
            &&& allocations_total(a) == allocations_total(a0) + c
            &&& scheduled_total(e) == scheduled_total(e0) + c
            &&& allocations_nonneg(a)
            &&& expenditures_bounded(e)
            &&& forall|i: int|
                0 <= i < e.len() ==> {
                    &&& (#[trigger] e[i]).accepted_amount == e0[i].accepted_amount
                    &&& e[i].owner_id == e0[i].owner_id
                    &&& e[i].allocation_id == e0[i].allocation_id
                    &&& e[i].agreement_id == e0[i].agreement_id
                    &&& e[i].activity_id == e0[i].activity_id
                    &&& e0[i].scheduled_amount <= e[i].scheduled_amount
                    &&& (e[i].scheduled_amount == e0[i].scheduled_amount || e[i].scheduled_amount
                        <= e[i].accepted_amount)
                }
        }),
    decreases k,
{
    if k > 0 {
        lemma_cover_prefix(e0, a0, payee, o, (k - 1) as nat);
        let (e, a, c) = cover_prefix(e0, a0, payee, o, (k - 1) as nat);
        let x = e[k - 1];
        if expenditure_matches(x, o) && c < obligation_amount(o) {
            let take = min_int(obligation_amount(o) - c, x.accepted_amount - x.scheduled_amount);
            let nx = ExpenditureRow { scheduled_amount: (x.scheduled_amount + take) as i128, ..x };
            let part = obligation_part(o, x.allocation_id, take);
            assert(allocated_amount(part) == take);
            lemma_allocation_insert_total(a, payee, x.allocation_id@, part);
            lemma_seq_sum_update(e, k - 1, nx, |y: ExpenditureRow| y.scheduled_amount as int);
            lemma_allocation_index_bounds(a, payee, x.allocation_id@);
            let a2 = allocation_insert(a, payee, x.allocation_id@, part);
            assert forall|i: int| 0 <= i < a2.len() implies (#[trigger] a2[i]).amount >= 0 by {
                if i < a.len() {
                    assert(a[i].amount >= 0);
                }
            }
            let e2 = e.update(k - 1, nx);
            assert forall|i: int| 0 <= i < e2.len() implies expenditure_bounded(#[trigger] e2[i]) by {
                assert(expenditure_bounded(e[i]));
            }
        }
    }
}


/// Per expenditure, from `e0` to `e`: the same record whose scheduled amount only grew,
/// and where it grew it stays within the accepted amount.
pub open spec fn expenditures_progress(e0: Seq<ExpenditureRow>, e: Seq<ExpenditureRow>) -> bool {
    &&& e.len() == e0.len()
    &&& forall|i: int|
        0 <= i < e.len() ==> {
            &&& (#[trigger] e[i]).accepted_amount == e0[i].accepted_amount
            &&& e[i].owner_id == e0[i].owner_id
            &&& e[i].allocation_id == e0[i].allocation_id
            &&& e[i].agreement_id == e0[i].agreement_id
            &&& e[i].activity_id == e0[i].activity_id
            &&& e0[i].scheduled_amount <= e[i].scheduled_amount
            &&& (e[i].scheduled_amount == e0[i].scheduled_amount || e[i].scheduled_amount
                <= e[i].accepted_amount)
        }
}

pub proof fn lemma_progress_trans(
    e0: Seq<ExpenditureRow>,
    e1: Seq<ExpenditureRow>,
    e2: Seq<ExpenditureRow>,
)
    requires
        expenditures_progress(e0, e1),
        expenditures_progress(e1, e2),
    ensures
        expenditures_progress(e0, e2),
{
    assert forall|i: int| 0 <= i < e2.len() implies {
        &&& (#[trigger] e2[i]).accepted_amount == e0[i].accepted_amount
        &&& e2[i].owner_id == e0[i].owner_id
        &&& e2[i].allocation_id == e0[i].allocation_id
        &&& e2[i].agreement_id == e0[i].agreement_id
        &&& e2[i].activity_id == e0[i].activity_id
        &&& e0[i].scheduled_amount <= e2[i].scheduled_amount
        &&& (e2[i].scheduled_amount == e0[i].scheduled_amount || e2[i].scheduled_amount
            <= e2[i].accepted_amount)
    } by {
        assert(e1[i].accepted_amount == e0[i].accepted_amount);
    }
}

fn expenditure_matches_exec(e: &ExpenditureRow, o: &BatchPaymentObligation) -> (r: bool)
    ensures
        r == expenditure_matches(*e, *o),
{
    if e.accepted_amount <= e.scheduled_amount {
        return false;
    }
    match o {
        BatchPaymentObligation::Invoice { agreement_id, .. } => {
            e.agreement_id == *agreement_id && e.activity_id.is_none()
        },
        BatchPaymentObligation::DebitNote { agreement_id, activity_id, .. } => {
            if e.agreement_id != *agreement_id {
                return false;
            }
            match &e.activity_id {
                Some(a) => *a == *activity_id,
                None => false,
            }
        },
    }
}

fn make_obligation_part(
    o: &BatchPaymentObligation,
    allocation_id: &String,
    amount: i128,
) -> (r: BatchPaymentObligationAllocation)
    ensures
        r == obligation_part(*o, *allocation_id, amount as int),
{
    match o {
        BatchPaymentObligation::Invoice { id, agreement_id, .. } => {
            BatchPaymentObligationAllocation::Invoice {
                id: id.clone(),
                amount,
                agreement_id: agreement_id.clone(),
                allocation_id: allocation_id.clone(),
            }
        },
        BatchPaymentObligation::DebitNote { debit_note_id, agreement_id, activity_id, .. } => {
            BatchPaymentObligationAllocation::DebitNote {
                debit_note_id: clone_opt(debit_note_id),
                amount,
                agreement_id: agreement_id.clone(),
                activity_id: activity_id.clone(),
                allocation_id: allocation_id.clone(),
            }
        },
    }
}

/// Covers one obligation of `payee_addr` from the expenditures, in their order, and
/// records each covered part in the batch items. Returns the amount covered.
fn cover_obligation(
    expenditures: &mut Vec<ExpenditureRow>,
    payments_allocations: &mut Vec<BatchPaymentAllocation>,
    payee_addr: &String,
    obligation: &BatchPaymentObligation,
) -> (covered: i128)
    requires
        obligation_amount(*obligation) >= 0,
        expenditures_bounded(old(expenditures)@),
        allocations_nonneg(allocations_view(old(payments_allocations)@)),
        allocations_total(allocations_view(old(payments_allocations)@)) + obligation_amount(
            *obligation,
        ) <= i128::MAX,
    ensures
        ({
            let (e, a, c) = cover_obligation_spec(
                old(expenditures)@,
                allocations_view(old(payments_allocations)@),
                payee_addr@,
                *obligation,
            );
            &&& final(expenditures)@ == e
            &&& allocations_view(final(payments_allocations)@) == a
            &&& covered == c
        }),
{
    let ghost e0 = expenditures@;
    let ghost a0 = allocations_view(payments_allocations@);
    let amount_to_be_covered = match obligation {
        BatchPaymentObligation::Invoice { amount, .. } => *amount,
        BatchPaymentObligation::DebitNote { amount, .. } => *amount,
    };
    let mut amount_covered: i128 = 0;
    let n = expenditures.len();
    let mut k: usize = 0;
    while k < n
        invariant
            n == e0.len(),
            0 <= k <= n,
            amount_to_be_covered == obligation_amount(*obligation),
            obligation_amount(*obligation) >= 0,
            expenditures_bounded(e0),
            allocations_nonneg(a0),
            allocations_total(a0) + obligation_amount(*obligation) <= i128::MAX,
            ({
                let (e, a, c) = cover_prefix(e0, a0, payee_addr@, *obligation, k as nat);
                &&& expenditures@ == e
                &&& allocations_view(payments_allocations@) == a
                &&& amount_covered == c
            }),
        decreases n - k,
    {
        proof {
            lemma_cover_prefix(e0, a0, payee_addr@, *obligation, k as nat);
        }
        if amount_covered < amount_to_be_covered && expenditure_matches_exec(
            &expenditures[k],
            obligation,
        ) {
            let max_amount_to_get = expenditures[k].accepted_amount
                - expenditures[k].scheduled_amount;
            let rest = amount_to_be_covered - amount_covered;
            let cover_amount = if rest <= max_amount_to_get {
                rest
            } else {
                max_amount_to_get
            };
            let part = make_obligation_part(
                obligation,
                &expenditures[k].allocation_id,
                cover_amount,
            );
            let key = AllocationPayeeKey {
                payee_addr: payee_addr.clone(),
                allocation_id: expenditures[k].allocation_id.clone(),
            };
            let ghost a_before = allocations_view(payments_allocations@);
            proof {
                assert(allocated_amount(part) == cover_amount);
            }
            let _ = insert_or_update_allocation_entry(payments_allocations, key, part);
            let entry = &mut expenditures[k];
            entry.scheduled_amount = entry.scheduled_amount + cover_amount;
            amount_covered = amount_covered + cover_amount;
        }
        k = k + 1;
    }
    amount_covered
}

/// The obligations towards one payee, keyed by the payee address as the documents
/// state it; `payee_id` is that address in its canonical node-id form.
#[derive(Debug)]
pub struct BatchPayment {
    pub payee_addr: String,
    pub payee_id: String,
    pub amount: i128,
    pub obligations: Vec<BatchPaymentObligation>,
}

pub struct BatchPaymentView {
    pub payee_addr: Seq<char>,
    pub payee_id: Seq<char>,
    pub amount: int,
    pub obligations: Seq<BatchPaymentObligation>,
}

impl View for BatchPayment {
    type V = BatchPaymentView;

    open spec fn view(&self) -> BatchPaymentView {
        BatchPaymentView {
            payee_addr: self.payee_addr@,
            payee_id: self.payee_id@,
            amount: self.amount as int,
            obligations: self.obligations@,
        }
    }
}

pub open spec fn payments_view(v: Seq<BatchPayment>) -> Seq<BatchPaymentView> {
    v.map_values(|x: BatchPayment| x@)
}

pub open spec fn obligations_total(obs: Seq<BatchPaymentObligation>) -> int {
    seq_sum(obs, |o: BatchPaymentObligation| obligation_amount(o))
}

/// Sum of all obligations towards all payees.
pub open spec fn payments_total(ps: Seq<BatchPaymentView>) -> int {
    seq_sum(ps, |p: BatchPaymentView| obligations_total(p.obligations))
}

pub open spec fn obligations_nonneg(obs: Seq<BatchPaymentObligation>) -> bool {
    forall|j: int| 0 <= j < obs.len() ==> obligation_amount(#[trigger] obs[j]) >= 0
}

pub open spec fn payments_nonneg(ps: Seq<BatchPaymentView>) -> bool {
    forall|i: int| 0 <= i < ps.len() ==> obligations_nonneg(#[trigger] ps[i].obligations)
}

/// Covering the obligations of one payee, in order.
pub open spec fn cover_obligations(
    e0: Seq<ExpenditureRow>,
    a0: Seq<BatchPaymentAllocationView>,
    payee: Seq<char>,
    obs: Seq<BatchPaymentObligation>,
) -> (Seq<ExpenditureRow>, Seq<BatchPaymentAllocationView>)
    decreases obs.len(),
{
    if obs.len() == 0 {
        (e0, a0)
    } else {
        let (e, a) = cover_obligations(e0, a0, payee, obs.drop_last());
        let r = cover_obligation_spec(e, a, payee, obs.last());
        (r.0, r.1)
    }
}

/// Covering the obligations of all payees, payee by payee.
pub open spec fn cover_payments(
    e0: Seq<ExpenditureRow>,
    a0: Seq<BatchPaymentAllocationView>,
    ps: Seq<BatchPaymentView>,
) -> (Seq<ExpenditureRow>, Seq<BatchPaymentAllocationView>)
    decreases ps.len(),
{
    if ps.len() == 0 {
        (e0, a0)
    } else {
        let (e, a) = cover_payments(e0, a0, ps.drop_last());
        cover_obligations(e, a, ps.last().payee_id, ps.last().obligations)
    }
}

pub proof fn lemma_cover_obligations(
    e0: Seq<ExpenditureRow>,
    a0: Seq<BatchPaymentAllocationView>,
    payee: Seq<char>,
    obs: Seq<BatchPaymentObligation>,
)
    requires
        obligations_nonneg(obs),
        expenditures_bounded(e0),
        allocations_nonneg(a0),
    ensures
        ({
            let (e, a) = cover_obligations(e0, a0, payee, obs);
            &&& expenditures_progress(e0, e)
            &&& expenditures_bounded(e)
            &&& allocations_nonneg(a)
            &&& allocations_total(a) - allocations_total(a0) == scheduled_total(e)
                - scheduled_total(e0)
            &&& 0 <= allocations_total(a) - allocations_total(a0) <= obligations_total(obs)
        }),
    decreases obs.len(),
{
    if obs.len() == 0 {
        assert(expenditures_progress(e0, e0));
    } else {
        let pre = obs.drop_last();
        assert(obligations_nonneg(pre)) by {
            assert forall|j: int| 0 <= j < pre.len() implies obligation_amount(#[trigger] pre[j]) >= 0 by {
                assert(pre[j] == obs[j]);
            }
        }
        lemma_cover_obligations(e0, a0, payee, pre);
        let (e, a) = cover_obligations(e0, a0, payee, pre);
        assert(obligation_amount(obs.last()) >= 0) by {
            assert(obs.last() == obs[obs.len() - 1]);
        }
        lemma_cover_prefix(e, a, payee, obs.last(), e.len());
        let r = cover_obligation_spec(e, a, payee, obs.last());
        assert(expenditures_progress(e, r.0));
        lemma_progress_trans(e0, e, r.0);
    }
}

pub proof fn lemma_cover_payments(
    e0: Seq<ExpenditureRow>,
    a0: Seq<BatchPaymentAllocationView>,
    ps: Seq<BatchPaymentView>,
)
    requires
        payments_nonneg(ps),
        expenditures_bounded(e0),
        allocations_nonneg(a0),
    ensures
        ({
            let (e, a) = cover_payments(e0, a0, ps);
            &&& expenditures_progress(e0, e)
            &&& expenditures_bounded(e)
            &&& allocations_nonneg(a)
            &&& allocations_total(a) - allocations_total(a0) == scheduled_total(e)
                - scheduled_total(e0)
            &&& 0 <= allocations_total(a) - allocations_total(a0) <= payments_total(ps)
        }),
    decreases ps.len(),
{
    if ps.len() == 0 {
        assert(expenditures_progress(e0, e0));
    } else {
        let pre = ps.drop_last();
        assert(payments_nonneg(pre)) by {
            assert forall|i: int| 0 <= i < pre.len() implies obligations_nonneg(#[trigger] pre[i].obligations) by {
                assert(pre[i] == ps[i]);
            }
        }
        lemma_cover_payments(e0, a0, pre);
        let (e, a) = cover_payments(e0, a0, pre);
        assert(obligations_nonneg(ps.last().obligations)) by {
            assert(ps.last() == ps[ps.len() - 1]);
        }
        lemma_cover_obligations(e, a, ps.last().payee_id, ps.last().obligations);
        let r = cover_obligations(e, a, ps.last().payee_id, ps.last().obligations);
        lemma_progress_trans(e0, e, r.0);
    }
}


/// Covers every obligation, payee by payee and in order, from the expenditures, and
/// groups what is covered into batch items, one per payee and allocation. The
/// expenditures' scheduled amounts are raised by what they give.
pub fn use_expenditures_on_payments(
    expenditures: &mut Vec<ExpenditureRow>,
    payments: Vec<BatchPayment>,
) -> (r: DbResult<Vec<BatchPaymentAllocation>>)
    requires
        expenditures_bounded(old(expenditures)@),
        payments_nonneg(payments_view(payments@)),
        payments_total(payments_view(payments@)) <= i128::MAX,
    ensures
        r matches Ok(items) && ({
            let (e, a) = cover_payments(old(expenditures)@, Seq::empty(), payments_view(payments@));
            &&& final(expenditures)@ == e
            &&& allocations_view(items@) == a
        }),
{
    let ghost e0 = expenditures@;
    let ghost ps = payments_view(payments@);
    let mut payments_allocations: Vec<BatchPaymentAllocation> = Vec::new();
    let mut i: usize = 0;
    proof {
        assert(allocations_view(payments_allocations@) =~= Seq::<BatchPaymentAllocationView>::empty());
        assert(ps.take(0) =~= Seq::<BatchPaymentView>::empty());
    }
    while i < payments.len()
        invariant
            0 <= i <= payments.len(),
            ps == payments_view(payments@),
            expenditures_bounded(e0),
            payments_nonneg(ps),
            payments_total(ps) <= i128::MAX,
            ({
                let (e, a) = cover_payments(e0, Seq::empty(), ps.take(i as int));
                &&& expenditures@ == e
                &&& allocations_view(payments_allocations@) == a
            }),
        decreases payments.len() - i,
    {
        let payment = &payments[i];
        let ghost pv = ps[i as int];
        let ghost e_i = expenditures@;
        let ghost a_i = allocations_view(payments_allocations@);
        proof {
            assert(ps.take(i + 1).drop_last() =~= ps.take(i as int));
            assert(payments_nonneg(ps.take(i as int))) by {
                assert forall|j: int| 0 <= j < i implies obligations_nonneg(#[trigger] ps.take(i as int)[j].obligations) by {
                    assert(ps.take(i as int)[j] == ps[j]);
                }
            }
            lemma_cover_payments(e0, Seq::empty(), ps.take(i as int));
            lemma_seq_sum_take_le_payments(ps, i as int);
            assert(allocations_total(Seq::<BatchPaymentAllocationView>::empty()) == 0);
        }
        let mut j: usize = 0;
        proof {
            assert(pv.obligations.take(0) =~= Seq::<BatchPaymentObligation>::empty());
            assert(pv.obligations == payment.obligations@);
            assert(obligations_nonneg(pv.obligations));
        }
        while j < payment.obligations.len()
            invariant
                0 <= j <= payment.obligations.len(),
                pv == payment@,
                obligations_nonneg(pv.obligations),
                expenditures_bounded(e_i),
                allocations_nonneg(a_i),
                allocations_total(a_i) + payments_total(ps.take(i as int + 1)) - payments_total(ps.take(i as int)) <= i128::MAX,
                payments_total(ps.take(i as int + 1)) - payments_total(ps.take(i as int)) == obligations_total(pv.obligations),
                ({
                    let (e, a) = cover_obligations(e_i, a_i, pv.payee_id, pv.obligations.take(j as int));
                    &&& expenditures@ == e
                    &&& allocations_view(payments_allocations@) == a
                }),
            decreases payment.obligations.len() - j,
        {
            proof {
                assert(pv.obligations.take(j + 1).drop_last() =~= pv.obligations.take(j as int));
                assert(obligations_nonneg(pv.obligations.take(j as int))) by {
                    assert forall|q: int| 0 <= q < j implies obligation_amount(#[trigger] pv.obligations.take(j as int)[q]) >= 0 by {
                        assert(pv.obligations.take(j as int)[q] == pv.obligations[q]);
                    }
                }
                lemma_cover_obligations(e_i, a_i, pv.payee_id, pv.obligations.take(j as int));
                let f = |o: BatchPaymentObligation| obligation_amount(o);
                lemma_seq_sum_take_nonneg_obligations(pv.obligations, j as int);
                assert(pv.obligations.take(j + 1).last() == pv.obligations[j as int]);
                assert(obligation_amount(pv.obligations[j as int]) >= 0);
            }
            let _ = cover_obligation(
                expenditures,
                &mut payments_allocations,
                &payment.payee_id,
                &payment.obligations[j],
            );
            j = j + 1;
        }
        proof {
            assert(pv.obligations.take(j as int) =~= pv.obligations);
        }
        i = i + 1;
    }
    proof {
        assert(ps.take(i as int) =~= ps);
    }
    Ok(payments_allocations)
}

proof fn lemma_seq_sum_take_le_payments(ps: Seq<BatchPaymentView>, i: int)
    requires
        0 <= i < ps.len(),
        payments_nonneg(ps),
    ensures
        payments_total(ps.take(i + 1)) - payments_total(ps.take(i)) == obligations_total(ps[i].obligations),
        obligations_total(ps[i].obligations) >= 0,
        payments_total(ps.take(i + 1)) <= payments_total(ps),
        payments_total(ps.take(i)) >= 0,
{
    let f = |p: BatchPaymentView| obligations_total(p.obligations);
    assert(ps.take(i + 1).drop_last() =~= ps.take(i));
    assert forall|k: int| 0 <= k < ps.len() implies f(#[trigger] ps[k]) >= 0 by {
        lemma_obligations_total_nonneg(ps[k].obligations);
    }
    lemma_seq_sum_take_le(ps, i + 1, f);
    assert forall|k: int| 0 <= k < ps.take(i).len() implies f(#[trigger] ps.take(i)[k]) >= 0 by {
        assert(ps.take(i)[k] == ps[k]);
    }
    lemma_seq_sum_nonneg(ps.take(i), f);
}

proof fn lemma_obligations_total_nonneg(obs: Seq<BatchPaymentObligation>)
    requires
        obligations_nonneg(obs),
    ensures
        obligations_total(obs) >= 0,
{
    let f = |o: BatchPaymentObligation| obligation_amount(o);
    assert forall|k: int| 0 <= k < obs.len() implies f(#[trigger] obs[k]) >= 0 by {}
    lemma_seq_sum_nonneg(obs, f);
}

proof fn lemma_seq_sum_take_nonneg_obligations(obs: Seq<BatchPaymentObligation>, j: int)
    requires
        0 <= j < obs.len(),
        obligations_nonneg(obs),
    ensures
        obligations_total(obs.take(j)) + obligation_amount(obs[j]) <= obligations_total(obs),
        obligations_total(obs.take(j)) >= 0,
{
    let f = |o: BatchPaymentObligation| obligation_amount(o);
    assert forall|k: int| 0 <= k < obs.len() implies f(#[trigger] obs[k]) >= 0 by {}
    assert(obs.take(j + 1).drop_last() =~= obs.take(j));
    lemma_seq_sum_take_le(obs, j + 1, f);
    assert forall|k: int| 0 <= k < obs.take(j).len() implies f(#[trigger] obs.take(j)[k]) >= 0 by {
        assert(obs.take(j)[k] == obs[k]);
    }
    lemma_seq_sum_nonneg(obs.take(j), f);
}


/// Position of the payee's group, or -1 where there is none.
pub open spec fn payment_index(ps: Seq<BatchPaymentView>, payee_addr: Seq<char>) -> int
    decreases ps.len(),
{
    if ps.len() == 0 {
        -1
    } else {
        let k = payment_index(ps.drop_last(), payee_addr);
        if k >= 0 {
            k
        } else if ps.last().payee_addr == payee_addr {
            ps.len() - 1
        } else {
            -1
        }
    }
}

/// Adds an obligation to the group of its payee, creating the group if there is none.
pub open spec fn payment_insert(
    ps: Seq<BatchPaymentView>,
    payee_addr: Seq<char>,
    payee_id: Seq<char>,
    o: BatchPaymentObligation,
) -> Seq<BatchPaymentView> {
    let k = payment_index(ps, payee_addr);
    if k >= 0 {
        ps.update(
            k,
            BatchPaymentView {
                amount: ps[k].amount + obligation_amount(o),
                obligations: ps[k].obligations.push(o),
                ..ps[k]
            },
        )
    } else {
        ps.push(
            BatchPaymentView {
                payee_addr,
                payee_id,
                amount: obligation_amount(o),
                obligations: seq![o],
            },
        )
    }
}

pub proof fn lemma_payment_index(ps: Seq<BatchPaymentView>, payee_addr: Seq<char>)
    ensures
        -1 <= payment_index(ps, payee_addr) < ps.len(),
        payment_index(ps, payee_addr) >= 0 ==> ps[payment_index(ps, payee_addr)].payee_addr
            == payee_addr,
        payment_index(ps, payee_addr) == -1 ==> forall|j: int|
            0 <= j < ps.len() ==> (#[trigger] ps[j]).payee_addr != payee_addr,
    decreases ps.len(),
{
    if ps.len() > 0 {
        lemma_payment_index(ps.drop_last(), payee_addr);
        if payment_index(ps.drop_last(), payee_addr) == -1 {
            assert forall|j: int| 0 <= j < ps.len() - 1 implies (#[trigger] ps[j]).payee_addr
                != payee_addr by {
                assert(ps[j] == ps.drop_last()[j]);
            }
        }
    }
}

pub proof fn lemma_payment_index_prefix(ps: Seq<BatchPaymentView>, payee_addr: Seq<char>, i: int)
    requires
        0 <= i < ps.len(),
        payment_index(ps.take(i), payee_addr) == -1,
        ps[i].payee_addr == payee_addr,
    ensures
        payment_index(ps, payee_addr) == i,
    decreases ps.len() - i,
{
    if i == ps.len() - 1 {
        assert(ps.drop_last() =~= ps.take(i));
    } else {
        assert(ps.drop_last().take(i) =~= ps.take(i));
        lemma_payment_index_prefix(ps.drop_last(), payee_addr, i);
    }
}

/// Each group's amount is the sum of its obligations, none of them negative.
pub open spec fn payments_consistent(ps: Seq<BatchPaymentView>) -> bool {
    &&& payments_nonneg(ps)
    &&& forall|i: int|
        0 <= i < ps.len() ==> (#[trigger] ps[i]).amount == obligations_total(ps[i].obligations)
}

pub proof fn lemma_payment_insert(
    ps: Seq<BatchPaymentView>,
    payee_addr: Seq<char>,
    payee_id: Seq<char>,
    o: BatchPaymentObligation,
)
    requires
        payments_consistent(ps),
        obligation_amount(o) >= 0,
    ensures
        payments_consistent(payment_insert(ps, payee_addr, payee_id, o)),
        payments_total(payment_insert(ps, payee_addr, payee_id, o)) == payments_total(ps)
            + obligation_amount(o),
{
    lemma_payment_index(ps, payee_addr);
    let k = payment_index(ps, payee_addr);
    let g = |o: BatchPaymentObligation| obligation_amount(o);
    let f = |p: BatchPaymentView| obligations_total(p.obligations);
    let r = payment_insert(ps, payee_addr, payee_id, o);
    if k >= 0 {
        let nv = BatchPaymentView {
            amount: ps[k].amount + obligation_amount(o),
            obligations: ps[k].obligations.push(o),
            ..ps[k]
        };
        lemma_seq_sum_push(ps[k].obligations, o, g);
        lemma_seq_sum_update(ps, k, nv, f);
        assert(obligations_nonneg(nv.obligations)) by {
            assert forall|j: int| 0 <= j < nv.obligations.len() implies obligation_amount(#[trigger] nv.obligations[j]) >= 0 by {
                if j < ps[k].obligations.len() {
                    assert(obligations_nonneg(ps[k].obligations));
                }
            }
        }
        assert forall|i: int| 0 <= i < r.len() implies obligations_nonneg(#[trigger] r[i].obligations) by {
            if i != k {
                assert(obligations_nonneg(ps[i].obligations));
            }
        }
    } else {
        let nv = BatchPaymentView {
            payee_addr,
            payee_id,
            amount: obligation_amount(o),
            obligations: seq![o],
        };
        lemma_seq_sum_push(ps, nv, f);
        assert(seq![o] =~= Seq::<BatchPaymentObligation>::empty().push(o));
        lemma_seq_sum_push(Seq::<BatchPaymentObligation>::empty(), o, g);
        assert(obligations_total(seq![o]) == obligation_amount(o));
        assert forall|i: int| 0 <= i < r.len() implies obligations_nonneg(#[trigger] r[i].obligations) by {
            if i < ps.len() {
                assert(obligations_nonneg(ps[i].obligations));
            }
        }
    }
}

/// Adds an obligation towards `payee_addr` (canonical form `payee_id`) to the payments.
fn add_obligation(
    payments: &mut Vec<BatchPayment>,
    payee_addr: &String,
    payee_id: String,
    obligation: BatchPaymentObligation,
)
    requires
        payments_consistent(payments_view(old(payments)@)),
        obligation_amount(obligation) >= 0,
        payments_total(payments_view(old(payments)@)) + obligation_amount(obligation) <= i128::MAX,
    ensures
        payments_view(final(payments)@) == payment_insert(
            payments_view(old(payments)@),
            payee_addr@,
            payee_id@,
            obligation,
        ),
{
    let ghost p0 = payments_view(payments@);
    proof {
        lemma_payment_index(p0, payee_addr@);
    }
    let amount = match &obligation {
        BatchPaymentObligation::Invoice { amount, .. } => *amount,
        BatchPaymentObligation::DebitNote { amount, .. } => *amount,
    };
    let mut i: usize = 0;
    while i < payments.len()
        invariant
            0 <= i <= payments.len(),
            payments@ == old(payments)@,
            p0 == payments_view(payments@),
            payment_index(p0.take(i as int), payee_addr@) == -1,
            payments_consistent(p0),
            payments_total(p0) + obligation_amount(obligation) <= i128::MAX,
            amount == obligation_amount(obligation),
        decreases payments.len() - i,
    {
        assert(p0.take(i + 1).drop_last() =~= p0.take(i as int));
        if payments[i].payee_addr == *payee_addr {
            proof {
                lemma_payment_index_prefix(p0, payee_addr@, i as int);
                assert(p0[i as int] == payments@[i as int]@);
                let f = |p: BatchPaymentView| obligations_total(p.obligations);
                assert forall|j: int| 0 <= j < p0.len() implies f(#[trigger] p0[j]) >= 0 by {
                    lemma_obligations_total_nonneg(p0[j].obligations);
                }
                lemma_seq_sum_elem_le(p0, i as int, f);
            }
            let entry = &mut payments[i];
            entry.amount = entry.amount + amount;
            entry.obligations.push(obligation);
            proof {
                assert(payments_view(payments@) =~= payment_insert(
                    p0,
                    payee_addr@,
                    payee_id@,
                    obligation,
                ));
            }
            return;
        }
        i = i + 1;
    }
    proof {
        assert(p0.take(i as int) =~= p0);
    }
    let mut obligations = Vec::new();
    obligations.push(obligation);
    payments.push(
        BatchPayment { payee_addr: payee_addr.clone(), payee_id, amount, obligations },
    );
    proof {
        assert(payments_view(payments@) =~= payment_insert(p0, payee_addr@, payee_id@, obligation));
    }
}


/// Whose obligations are resolved, from which address and on which platform, and the
/// start of the window in which documents are considered (milliseconds since the epoch).
#[derive(Debug)]
pub struct ResolveInvoiceArgs {
    pub owner_id: String,
    pub payer_addr: String,
    pub platform: String,
    pub since: i64,
}

/// An activity as the resolver reads it: its amounts, its agreement's payee, platform and
/// last update, and the last of its debit notes that were accepted.
#[derive(Debug)]
pub struct ActivityPaymentRow {
    pub id: String,
    pub owner_id: String,
    pub role: Role,
    pub agreement_id: String,
    pub peer_id: String,
    pub payee_addr: String,
    pub payment_platform: String,
    pub agreement_updated_ts: i64,
    pub total_amount_accepted: i128,
    pub total_amount_scheduled: i128,
    pub debit_note_id: Option<String>,
}

/// An invoice as the resolver reads it, with the amounts of its agreement.
#[derive(Debug)]
pub struct InvoicePaymentRow {
    pub invoice_id: String,
    pub owner_id: String,
    pub role: Role,
    pub status: DocumentStatus,
    pub timestamp: i64,
    pub agreement_id: String,
    pub peer_id: String,
    pub payee_addr: String,
    pub payer_addr: String,
    pub payment_platform: String,
    pub total_amount_accepted: i128,
    pub total_amount_scheduled: i128,
}

pub open spec fn pos_part(x: int) -> int {
    if x > 0 {
        x
    } else {
        0
    }
}

pub open spec fn amounts_bounded(accepted: i128, scheduled: i128) -> bool {
    &&& -amount_limit() <= accepted <= amount_limit()
    &&& -amount_limit() <= scheduled <= amount_limit()
}

/// The requestor's activities on the platform whose agreement changed within the window
/// and that have an accepted amount not fully scheduled.
pub open spec fn activity_selected(r: ActivityPaymentRow, args: ResolveInvoiceArgs) -> bool {
    &&& r.role == Role::Requestor
    &&& r.total_amount_accepted != 0
    &&& r.total_amount_scheduled != r.total_amount_accepted
    &&& r.agreement_updated_ts > args.since
    &&& r.payment_platform@ == args.platform@
    &&& r.owner_id@ == args.owner_id@
}

/// The requestor's accepted invoices from the window, paid from the payer address on
/// the platform.
pub open spec fn invoice_selected(r: InvoicePaymentRow, args: ResolveInvoiceArgs) -> bool {
    &&& r.owner_id@ == args.owner_id@
    &&& r.role == Role::Requestor
    &&& r.payer_addr@ == args.payer_addr@
    &&& r.payment_platform@ == args.platform@
    &&& r.timestamp > args.since
    &&& r.status == DocumentStatus::Accepted
}

pub open spec fn activity_obligation(r: ActivityPaymentRow) -> BatchPaymentObligation {
    BatchPaymentObligation::DebitNote {
        debit_note_id: r.debit_note_id,
        amount: (r.total_amount_accepted - r.total_amount_scheduled) as i128,
        agreement_id: r.agreement_id,
        activity_id: r.id,
    }
}

pub open spec fn invoice_obligation(r: InvoicePaymentRow) -> BatchPaymentObligation {
    BatchPaymentObligation::Invoice {
        id: r.invoice_id,
        amount: (r.total_amount_accepted - r.total_amount_scheduled) as i128,
        agreement_id: r.agreement_id,
    }
}

pub open spec fn activities_pay_total(rows: Seq<ActivityPaymentRow>) -> int {
    seq_sum(
        rows,
        |r: ActivityPaymentRow| pos_part(r.total_amount_accepted - r.total_amount_scheduled),
    )
}

pub open spec fn invoices_pay_total(rows: Seq<InvoicePaymentRow>) -> int {
    seq_sum(
        rows,
        |r: InvoicePaymentRow| pos_part(r.total_amount_accepted - r.total_amount_scheduled),
    )
}

/// Gathering the obligations of the selected activities that still have something to
/// pay, in order; `None` where a payee address of such an activity is no node id.
pub open spec fn activity_part_spec(
    rows: Seq<ActivityPaymentRow>,
    args: ResolveInvoiceArgs,
    ps0: Seq<BatchPaymentView>,
    total0: int,
) -> Option<(Seq<BatchPaymentView>, int)>
    decreases rows.len(),
{
    if rows.len() == 0 {
        Some((ps0, total0))
    } else {
        match activity_part_spec(rows.drop_last(), args, ps0, total0) {
            None => None,
            Some((ps, total)) => {
                let r = rows.last();
                let amount = r.total_amount_accepted - r.total_amount_scheduled;
                if !activity_selected(r, args) || amount <= 0 {
                    Some((ps, total))
                } else {
                    match spec_node_id_text(r.payee_addr@) {
                        None => None,
                        Some(pid) => Some(
                            (payment_insert(ps, r.payee_addr@, pid, activity_obligation(r)), total
                                + amount),
                        ),
                    }
                }
            },
        }
    }
}

/// Gathering the obligations of the selected invoices that still have something to pay.
pub open spec fn agreement_part_spec(
    rows: Seq<InvoicePaymentRow>,
    args: ResolveInvoiceArgs,
    ps0: Seq<BatchPaymentView>,
    total0: int,
) -> Option<(Seq<BatchPaymentView>, int)>
    decreases rows.len(),
{
    if rows.len() == 0 {
        Some((ps0, total0))
    } else {
        match agreement_part_spec(rows.drop_last(), args, ps0, total0) {
            None => None,
            Some((ps, total)) => {
                let r = rows.last();
                let amount = r.total_amount_accepted - r.total_amount_scheduled;
                if !invoice_selected(r, args) || amount <= 0 {
                    Some((ps, total))
                } else {
                    match spec_node_id_text(r.payee_addr@) {
                        None => None,
                        Some(pid) => Some(
                            (payment_insert(ps, r.payee_addr@, pid, invoice_obligation(r)), total
                                + amount),
                        ),
                    }
                }
            },
        }
    }
}

pub proof fn lemma_activity_part(
    rows: Seq<ActivityPaymentRow>,
    args: ResolveInvoiceArgs,
    ps0: Seq<BatchPaymentView>,
    total0: int,
)
    requires
        payments_consistent(ps0),
        payments_total(ps0) == total0,
        forall|i: int|
            0 <= i < rows.len() ==> amounts_bounded(
                #[trigger] rows[i].total_amount_accepted,
                rows[i].total_amount_scheduled,
            ),
    ensures
        activity_part_spec(rows, args, ps0, total0) matches Some((ps, t)) ==> {
            &&& payments_consistent(ps)
            &&& payments_total(ps) == t
            &&& total0 <= t <= total0 + activities_pay_total(rows)
        },
    decreases rows.len(),
{
    if rows.len() > 0 {
        assert forall|i: int| 0 <= i < rows.drop_last().len() implies amounts_bounded(
            #[trigger] rows.drop_last()[i].total_amount_accepted,
            rows.drop_last()[i].total_amount_scheduled,
        ) by {
            assert(rows.drop_last()[i] == rows[i]);
        }
        assert(amounts_bounded(rows.last().total_amount_accepted, rows.last().total_amount_scheduled));
        lemma_activity_part(rows.drop_last(), args, ps0, total0);
        if let Some((ps, t)) = activity_part_spec(rows.drop_last(), args, ps0, total0) {
            let r = rows.last();
            let amount = r.total_amount_accepted - r.total_amount_scheduled;
            if activity_selected(r, args) && amount > 0 {
                if let Some(pid) = spec_node_id_text(r.payee_addr@) {
                    lemma_payment_insert(ps, r.payee_addr@, pid, activity_obligation(r));
                }
            }
        }
    }
}

pub proof fn lemma_agreement_part(
    rows: Seq<InvoicePaymentRow>,
    args: ResolveInvoiceArgs,
    ps0: Seq<BatchPaymentView>,
    total0: int,
)
    requires
        payments_consistent(ps0),
        payments_total(ps0) == total0,
        forall|i: int|
            0 <= i < rows.len() ==> amounts_bounded(
                #[trigger] rows[i].total_amount_accepted,
                rows[i].total_amount_scheduled,
            ),
    ensures
        agreement_part_spec(rows, args, ps0, total0) matches Some((ps, t)) ==> {
            &&& payments_consistent(ps)
            &&& payments_total(ps) == t
            &&& total0 <= t <= total0 + invoices_pay_total(rows)
        },
    decreases rows.len(),
{
    if rows.len() > 0 {
        assert forall|i: int| 0 <= i < rows.drop_last().len() implies amounts_bounded(
            #[trigger] rows.drop_last()[i].total_amount_accepted,
            rows.drop_last()[i].total_amount_scheduled,
        ) by {
            assert(rows.drop_last()[i] == rows[i]);
        }
        assert(amounts_bounded(rows.last().total_amount_accepted, rows.last().total_amount_scheduled));
        lemma_agreement_part(rows.drop_last(), args, ps0, total0);
        if let Some((ps, t)) = agreement_part_spec(rows.drop_last(), args, ps0, total0) {
            let r = rows.last();
            let amount = r.total_amount_accepted - r.total_amount_scheduled;
            if invoice_selected(r, args) && amount > 0 {
                if let Some(pid) = spec_node_id_text(r.payee_addr@) {
                    lemma_payment_insert(ps, r.payee_addr@, pid, invoice_obligation(r));
                }
            }
        }
    }
}

pub open spec fn is_payee_parse_error<T>(r: DbResult<T>) -> bool {
    r matches Err(DbError::Integrity(m)) && m@ == "payee address parsing error"@
}

fn payee_parse_error<T>() -> (r: DbResult<T>)
    ensures
        is_payee_parse_error(r),
{
    Err(DbError::Integrity("payee address parsing error".to_string()))
}

fn activity_selected_exec(r: &ActivityPaymentRow, args: &ResolveInvoiceArgs) -> (b: bool)
    ensures
        b == activity_selected(*r, *args),
{
    r.role == Role::Requestor && r.total_amount_accepted != 0 && r.total_amount_scheduled
        != r.total_amount_accepted && r.agreement_updated_ts > args.since && r.payment_platform
        == args.platform && r.owner_id == args.owner_id
}

fn invoice_selected_exec(r: &InvoicePaymentRow, args: &ResolveInvoiceArgs) -> (b: bool)
    ensures
        b == invoice_selected(*r, *args),
{
    r.owner_id == args.owner_id && r.role == Role::Requestor && r.payer_addr == args.payer_addr
        && r.payment_platform == args.platform && r.timestamp > args.since && r.status
        == DocumentStatus::Accepted
}

/// Gathers, payee by payee, what the selected activities still have to be paid.
pub fn resolve_invoices_activity_part(
    args: &ResolveInvoiceArgs,
    activities: &Vec<ActivityPaymentRow>,
    total_amount: i128,
    payments: Vec<BatchPayment>,
) -> (r: DbResult<(Vec<BatchPayment>, i128)>)
    requires
        forall|i: int|
            0 <= i < activities@.len() ==> amounts_bounded(
                #[trigger] activities@[i].total_amount_accepted,
                activities@[i].total_amount_scheduled,
            ),
        payments_consistent(payments_view(payments@)),
        payments_total(payments_view(payments@)) == total_amount,
        total_amount + activities_pay_total(activities@) <= i128::MAX,
    ensures
        match activity_part_spec(activities@, *args, payments_view(payments@), total_amount as int) {
            None => is_payee_parse_error(r),
            Some((ps, t)) => r matches Ok((v, tt)) && payments_view(v@) == ps && tt == t,
        },
{
    let ghost rows = activities@;
    let ghost ps0 = payments_view(payments@);
    let mut acc: Vec<BatchPayment> = payments;
    let mut total = total_amount;
    let mut i: usize = 0;
    proof {
        assert(rows.take(0) =~= Seq::<ActivityPaymentRow>::empty());
    }
    while i < activities.len()
        invariant
            0 <= i <= activities.len(),
            rows == activities@,
            ps0 == payments_view(payments@),
            forall|k: int|
                0 <= k < rows.len() ==> amounts_bounded(
                    #[trigger] rows[k].total_amount_accepted,
                    rows[k].total_amount_scheduled,
                ),
            payments_consistent(ps0),
            payments_total(ps0) == total_amount,
            total_amount + activities_pay_total(rows) <= i128::MAX,
            activity_part_spec(rows.take(i as int), *args, ps0, total_amount as int) == Some(
                (payments_view(acc@), total as int),
            ),
        decreases activities.len() - i,
    {
        let a = &activities[i];
        proof {
            assert(rows.take(i + 1).drop_last() =~= rows.take(i as int));
            assert(rows.take(i + 1).last() == rows[i as int]);
            assert forall|k: int| 0 <= k < rows.take(i as int).len() implies amounts_bounded(
                #[trigger] rows.take(i as int)[k].total_amount_accepted,
                rows.take(i as int)[k].total_amount_scheduled,
            ) by {
                assert(rows.take(i as int)[k] == rows[k]);
            }
            lemma_activity_part(rows.take(i as int), *args, ps0, total_amount as int);
            let f = |r: ActivityPaymentRow| pos_part(r.total_amount_accepted - r.total_amount_scheduled);
            assert forall|k: int| 0 <= k < rows.len() implies f(#[trigger] rows[k]) >= 0 by {}
            lemma_seq_sum_take_le(rows, i + 1, f);
            assert(activities_pay_total(rows.take(i + 1)) == activities_pay_total(rows.take(i as int)) + f(rows[i as int]));
        }
        if activity_selected_exec(a, args) {
            let amount_to_pay = a.total_amount_accepted - a.total_amount_scheduled;
            if amount_to_pay > 0 {
                match parse_node_id(a.payee_addr.as_str()) {
                    None => {
                        proof {
                            lemma_part_none_stays_activity(rows, *args, ps0, total_amount as int, i as int + 1);
                        }
                        return payee_parse_error();
                    },
                    Some(payee_id) => {
                        let obligation = BatchPaymentObligation::DebitNote {
                            debit_note_id: clone_opt(&a.debit_note_id),
                            amount: amount_to_pay,
                            agreement_id: a.agreement_id.clone(),
                            activity_id: a.id.clone(),
                        };
                        add_obligation(&mut acc, &a.payee_addr, payee_id, obligation);
                        total = total + amount_to_pay;
                    },
                }
            }
        }
        i = i + 1;
    }
    proof {
        assert(rows.take(i as int) =~= rows);
    }
    Ok((acc, total))
}

proof fn lemma_part_none_stays_activity(
    rows: Seq<ActivityPaymentRow>,
    args: ResolveInvoiceArgs,
    ps0: Seq<BatchPaymentView>,
    total0: int,
    k: int,
)
    requires
        0 <= k <= rows.len(),
        activity_part_spec(rows.take(k), args, ps0, total0) is None,
    ensures
        activity_part_spec(rows, args, ps0, total0) is None,
    decreases rows.len() - k,
{
    if k < rows.len() {
        assert(rows.take(k + 1).drop_last() =~= rows.take(k));
        lemma_part_none_stays_activity(rows, args, ps0, total0, k + 1);
    } else {
        assert(rows.take(k) =~= rows);
    }
}

/// Gathers, payee by payee, what the agreements of the selected invoices still have to
/// be paid.
pub fn resolve_invoices_agreement_part(
    args: &ResolveInvoiceArgs,
    invoices: &Vec<InvoicePaymentRow>,
    total_amount: i128,
    payments: Vec<BatchPayment>,
) -> (r: DbResult<(Vec<BatchPayment>, i128)>)
    requires
        forall|i: int|
            0 <= i < invoices@.len() ==> amounts_bounded(
                #[trigger] invoices@[i].total_amount_accepted,
                invoices@[i].total_amount_scheduled,
            ),
        payments_consistent(payments_view(payments@)),
        payments_total(payments_view(payments@)) == total_amount,
        total_amount + invoices_pay_total(invoices@) <= i128::MAX,
    ensures
        match agreement_part_spec(invoices@, *args, payments_view(payments@), total_amount as int) {
            None => is_payee_parse_error(r),
            Some((ps, t)) => r matches Ok((v, tt)) && payments_view(v@) == ps && tt == t,
        },
{
    let ghost rows = invoices@;
    let ghost ps0 = payments_view(payments@);
    let mut acc: Vec<BatchPayment> = payments;
    let mut total = total_amount;
    let mut i: usize = 0;
    proof {
        assert(rows.take(0) =~= Seq::<InvoicePaymentRow>::empty());
    }
    while i < invoices.len()
        invariant
            0 <= i <= invoices.len(),
            rows == invoices@,
            ps0 == payments_view(payments@),
            forall|k: int|
                0 <= k < rows.len() ==> amounts_bounded(
                    #[trigger] rows[k].total_amount_accepted,
                    rows[k].total_amount_scheduled,
                ),
            payments_consistent(ps0),
            payments_total(ps0) == total_amount,
            total_amount + invoices_pay_total(rows) <= i128::MAX,
            agreement_part_spec(rows.take(i as int), *args, ps0, total_amount as int) == Some(
                (payments_view(acc@), total as int),
            ),
        decreases invoices.len() - i,
    {
        let iv = &invoices[i];
        proof {
            assert(rows.take(i + 1).drop_last() =~= rows.take(i as int));
            assert(rows.take(i + 1).last() == rows[i as int]);
            assert forall|k: int| 0 <= k < rows.take(i as int).len() implies amounts_bounded(
                #[trigger] rows.take(i as int)[k].total_amount_accepted,
                rows.take(i as int)[k].total_amount_scheduled,
            ) by {
                assert(rows.take(i as int)[k] == rows[k]);
            }
            lemma_agreement_part(rows.take(i as int), *args, ps0, total_amount as int);
            let f = |r: InvoicePaymentRow| pos_part(r.total_amount_accepted - r.total_amount_scheduled);
            assert forall|k: int| 0 <= k < rows.len() implies f(#[trigger] rows[k]) >= 0 by {}
            lemma_seq_sum_take_le(rows, i + 1, f);
            assert(invoices_pay_total(rows.take(i + 1)) == invoices_pay_total(rows.take(i as int)) + f(rows[i as int]));
        }
        if invoice_selected_exec(iv, args) {
            let amount_to_pay = iv.total_amount_accepted - iv.total_amount_scheduled;
            if amount_to_pay > 0 {
                match parse_node_id(iv.payee_addr.as_str()) {
                    None => {
                        proof {
                            lemma_part_none_stays_invoice(rows, *args, ps0, total_amount as int, i as int + 1);
                        }
                        return payee_parse_error();
                    },
                    Some(payee_id) => {
                        let obligation = BatchPaymentObligation::Invoice {
                            id: iv.invoice_id.clone(),
                            amount: amount_to_pay,
                            agreement_id: iv.agreement_id.clone(),
                        };
                        add_obligation(&mut acc, &iv.payee_addr, payee_id, obligation);
                        total = total + amount_to_pay;
                    },
                }
            }
        }
        i = i + 1;
    }
    proof {
        assert(rows.take(i as int) =~= rows);
    }
    Ok((acc, total))
}

proof fn lemma_part_none_stays_invoice(
    rows: Seq<InvoicePaymentRow>,
    args: ResolveInvoiceArgs,
    ps0: Seq<BatchPaymentView>,
    total0: int,
    k: int,
)
    requires
        0 <= k <= rows.len(),
        agreement_part_spec(rows.take(k), args, ps0, total0) is None,
    ensures
        agreement_part_spec(rows, args, ps0, total0) is None,
    decreases rows.len() - k,
{
    if k < rows.len() {
        assert(rows.take(k + 1).drop_last() =~= rows.take(k));
        lemma_part_none_stays_invoice(rows, args, ps0, total0, k + 1);
    } else {
        assert(rows.take(k) =~= rows);
    }
}


/// A raise of the scheduled amount of an agreement or an activity, owed to what a batch
/// order pays towards it.
#[derive(Debug)]
pub enum ScheduledIncrease {
    Agreement { agreement_id: String, amount: i128 },
    Activity { activity_id: String, amount: i128 },
}

pub open spec fn increase_of(o: BatchPaymentObligationAllocation) -> ScheduledIncrease {
    match o {
        BatchPaymentObligationAllocation::Invoice { amount, agreement_id, .. } => {
            ScheduledIncrease::Agreement { agreement_id, amount }
        },
        BatchPaymentObligationAllocation::DebitNote { amount, activity_id, .. } => {
            ScheduledIncrease::Activity { activity_id, amount }
        },
    }
}

/// The raises owed to the parts of all items, item by item and part by part.
pub open spec fn scheduled_increases(a: Seq<BatchPaymentAllocationView>) -> Seq<ScheduledIncrease>
    decreases a.len(),
{
    if a.len() == 0 {
        Seq::empty()
    } else {
        scheduled_increases(a.drop_last()) + a.last().obligations.map_values(
            |o: BatchPaymentObligationAllocation| increase_of(o),
        )
    }
}

fn increase_for(o: &BatchPaymentObligationAllocation) -> (r: ScheduledIncrease)
    ensures
        r == increase_of(*o),
{
    match o {
        BatchPaymentObligationAllocation::Invoice { amount, agreement_id, .. } => {
            ScheduledIncrease::Agreement { agreement_id: agreement_id.clone(), amount: *amount }
        },
        BatchPaymentObligationAllocation::DebitNote { amount, activity_id, .. } => {
            ScheduledIncrease::Activity { activity_id: activity_id.clone(), amount: *amount }
        },
    }
}

/// The total of the batch items, and the raises of scheduled amounts that the parts
/// they pay call for (an invoice's agreement, or a debit note's activity).
pub fn schedule_covered_payments(
    owner_id: &String,
    payments: &Vec<BatchPaymentAllocation>,
) -> (r: DbResult<(i128, Vec<ScheduledIncrease>)>)
    requires
        allocations_nonneg(allocations_view(payments@)),
        allocations_total(allocations_view(payments@)) <= i128::MAX,
    ensures
        r matches Ok((total, increases)) && total == allocations_total(allocations_view(payments@))
            && increases@ == scheduled_increases(allocations_view(payments@)),
{
    let ghost a = allocations_view(payments@);
    let mut total_amount: i128 = 0;
    let mut increases: Vec<ScheduledIncrease> = Vec::new();
    let mut i: usize = 0;
    proof {
        assert(a.take(0) =~= Seq::<BatchPaymentAllocationView>::empty());
    }
    while i < payments.len()
        invariant
            0 <= i <= payments.len(),
            a == allocations_view(payments@),
            allocations_nonneg(a),
            allocations_total(a) <= i128::MAX,
            total_amount == allocations_total(a.take(i as int)),
            increases@ == scheduled_increases(a.take(i as int)),
        decreases payments.len() - i,
    {
        proof {
            assert(a.take(i + 1).drop_last() =~= a.take(i as int));
            let f = |x: BatchPaymentAllocationView| x.amount;
            assert forall|k: int| 0 <= k < a.len() implies f(#[trigger] a[k]) >= 0 by {
                assert(a[k].amount >= 0);
            }
            lemma_seq_sum_take_le(a, i + 1, f);
            assert(a.take(i + 1).last() == a[i as int]);
        }
        let item = &payments[i];
        total_amount = total_amount + item.amount;
        let ghost before = increases@;
        let mut j: usize = 0;
        while j < item.obligations.len()
            invariant
                0 <= j <= item.obligations.len(),
                increases@ == before + item.obligations@.take(j as int).map_values(
                    |o: BatchPaymentObligationAllocation| increase_of(o),
                ),
            decreases item.obligations.len() - j,
        {
            let inc = increase_for(&item.obligations[j]);
            increases.push(inc);
            proof {
                assert(item.obligations@.take(j + 1).map_values(
                    |o: BatchPaymentObligationAllocation| increase_of(o),
                ) =~= item.obligations@.take(j as int).map_values(
                    |o: BatchPaymentObligationAllocation| increase_of(o),
                ).push(increase_of(item.obligations@[j as int])));
            }
            j = j + 1;
        }
        proof {
            assert(item.obligations@.take(j as int) =~= item.obligations@);
            assert(a[i as int].obligations == item.obligations@);
        }
        i = i + 1;
    }
    proof {
        assert(a.take(i as int) =~= a);
    }
    Ok((total_amount, increases))
}

/// The expenditures that still have an accepted amount not matched by their scheduled
/// amount, in order.
pub open spec fn open_expenditures(e: Seq<ExpenditureRow>) -> Seq<ExpenditureRow>
    decreases e.len(),
{
    if e.len() == 0 {
        Seq::empty()
    } else if e.last().accepted_amount != e.last().scheduled_amount {
        open_expenditures(e.drop_last()).push(e.last())
    } else {
        open_expenditures(e.drop_last())
    }
}

/// Every expenditure with more accepted than scheduled is open, whatever was scheduled on it
/// before: it stands in `open_expenditures` and so is offered to the obligations.
pub proof fn law_unscheduled_expenditure_is_open(e: Seq<ExpenditureRow>, i: int)
    requires
        0 <= i < e.len(),
        e[i].accepted_amount > e[i].scheduled_amount,
    ensures
        open_expenditures(e).contains(e[i]),
    decreases e.len(),
{
    if i == e.len() - 1 {
        assert(open_expenditures(e).last() == e[i]);
    } else {
        assert(e.drop_last()[i] == e[i]);
        law_unscheduled_expenditure_is_open(e.drop_last(), i);
        let p = open_expenditures(e.drop_last());
        let w = choose|w: int| 0 <= w < p.len() && p[w] == e[i];
        if e.last().accepted_amount != e.last().scheduled_amount {
            assert(open_expenditures(e)[w] == p[w]);
        }
    }
}

/// An expenditure belongs to the document of obligation `o`: to its agreement, and to its
/// activity for a debit note or to no activity for an invoice.
pub open spec fn belongs_to_obligation(e: ExpenditureRow, o: BatchPaymentObligation) -> bool {
    match o {
        BatchPaymentObligation::Invoice { agreement_id, .. } => e.agreement_id@ == agreement_id@
            && e.activity_id is None,
        BatchPaymentObligation::DebitNote { agreement_id, activity_id, .. } => e.agreement_id@
            == agreement_id@ && (e.activity_id matches Some(a) && a@ == activity_id@),
    }
}

/// Covering an obligation over the first `k` expenditures leaves those after them as they
/// were, and where it falls short, leaves no expenditure among the first `k` that belongs
/// to the obligation's document with accepted amount still unscheduled.
proof fn lemma_cover_exhausts(
    e0: Seq<ExpenditureRow>,
    a0: Seq<BatchPaymentAllocationView>,
    payee: Seq<char>,
    o: BatchPaymentObligation,
    k: nat,
)
    requires
        k <= e0.len(),
        obligation_amount(o) >= 0,
        expenditures_bounded(e0),
        allocations_nonneg(a0),
    ensures
        ({
            let (e, a, c) = cover_prefix(e0, a0, payee, o, k);
            &&& forall|i: int| k <= i < e0.len() ==> e[i] == e0[i]
            &&& c == 0 ==> e == e0
            &&& forall|i: int|
                0 <= i < e0.len() && #[trigger] e[i] != e0[i] ==> belongs_to_obligation(e0[i], o)
                    && e0[i].accepted_amount > e0[i].scheduled_amount && e[i].scheduled_amount
                    <= e[i].accepted_amount
            &&& c < obligation_amount(o) ==> forall|i: int|
                0 <= i < k && belongs_to_obligation(#[trigger] e[i], o) ==> e[i].accepted_amount
                    <= e[i].scheduled_amount
        }),
    decreases k,
{
    lemma_cover_prefix(e0, a0, payee, o, k);
    if k > 0 {
        lemma_cover_exhausts(e0, a0, payee, o, (k - 1) as nat);
        lemma_cover_prefix(e0, a0, payee, o, (k - 1) as nat);
        let (e, a, c) = cover_prefix(e0, a0, payee, o, (k - 1) as nat);
        let x = e[k - 1];
        assert(expenditure_bounded(e[k - 1]));
        let (e2, a2, c2) = cover_prefix(e0, a0, payee, o, k);
        if expenditure_matches(x, o) && c < obligation_amount(o) {
            let take = min_int(obligation_amount(o) - c, x.accepted_amount - x.scheduled_amount);
            assert(c2 == c + take);
            assert(take > 0);
            assert(e2[k - 1].scheduled_amount == x.scheduled_amount + take);
            assert forall|i: int| 0 <= i < e0.len() && #[trigger] e2[i] != e0[i] implies belongs_to_obligation(
                e0[i],
                o,
            ) && e0[i].accepted_amount > e0[i].scheduled_amount && e2[i].scheduled_amount
                <= e2[i].accepted_amount by {
                if i != k - 1 {
                    assert(e2[i] == e[i]);
                } else {
                    assert(e[k - 1] == e0[k - 1]);
                }
            }
            if c2 < obligation_amount(o) {
                assert(take == x.accepted_amount - x.scheduled_amount);
                assert forall|i: int|
                    0 <= i < k && belongs_to_obligation(#[trigger] e2[i], o) implies e2[i].accepted_amount
                        <= e2[i].scheduled_amount by {
                    if i < k - 1 {
                        assert(e2[i] == e[i]);
                    }
                }
            }
        }
    }
}

/// Covering an obligation takes only from expenditures of its own document (its agreement,
/// and its activity for a debit note or no activity for an invoice) that had accepted
/// amount left unscheduled, and never schedules more on one than was accepted on it.
pub proof fn law_cover_takes_only_from_own_expenditures(
    e0: Seq<ExpenditureRow>,
    a0: Seq<BatchPaymentAllocationView>,
    payee: Seq<char>,
    o: BatchPaymentObligation,
)
    requires
        obligation_amount(o) >= 0,
        expenditures_bounded(e0),
        allocations_nonneg(a0),
    ensures
        ({
            let (e, a, c) = cover_obligation_spec(e0, a0, payee, o);
            forall|i: int|
                0 <= i < e0.len() && #[trigger] e[i] != e0[i] ==> belongs_to_obligation(e0[i], o)
                    && e0[i].accepted_amount > e0[i].scheduled_amount && e[i].scheduled_amount
                    <= e[i].accepted_amount
        }),
{
    lemma_cover_exhausts(e0, a0, payee, o, e0.len());
}

/// Where covering obligation `o` from expenditures `e0` falls short of its amount, no
/// expenditure of the obligation's document is left with accepted amount still
/// unscheduled: each one it could use was used up.
pub proof fn law_uncovered_obligation_uses_all_expenditures(
    e0: Seq<ExpenditureRow>,
    a0: Seq<BatchPaymentAllocationView>,
    payee: Seq<char>,
    o: BatchPaymentObligation,
)
    requires
        obligation_amount(o) >= 0,
        expenditures_bounded(e0),
        allocations_nonneg(a0),
    ensures
        ({
            let (e, a, c) = cover_obligation_spec(e0, a0, payee, o);
            c < obligation_amount(o) ==> forall|i: int|
                0 <= i < e.len() && belongs_to_obligation(#[trigger] e[i], o) ==> e[i].accepted_amount
                    <= e[i].scheduled_amount
        }),
{
    lemma_cover_exhausts(e0, a0, payee, o, e0.len());
    lemma_cover_prefix(e0, a0, payee, o, e0.len());
}

/// Where covering a payee's obligations covers nothing, the expenditures are left as they
/// were and none of them that belongs to the document of an obligation with something owed
/// has accepted amount still unscheduled.
proof fn lemma_nothing_covered_obligations(
    e0: Seq<ExpenditureRow>,
    a0: Seq<BatchPaymentAllocationView>,
    payee: Seq<char>,
    obs: Seq<BatchPaymentObligation>,
)
    requires
        obligations_nonneg(obs),
        expenditures_bounded(e0),
        allocations_nonneg(a0),
    ensures
        ({
            let (e, a) = cover_obligations(e0, a0, payee, obs);
            allocations_total(a) == allocations_total(a0) ==> {
                &&& e == e0
                &&& forall|j: int, i: int|
                    0 <= j < obs.len() && 0 <= i < e0.len() && obligation_amount(#[trigger] obs[j]) > 0
                        && belongs_to_obligation(#[trigger] e0[i], obs[j]) ==> e0[i].accepted_amount
                        <= e0[i].scheduled_amount
            }
        }),
    decreases obs.len(),
{
    lemma_cover_obligations(e0, a0, payee, obs);
    if obs.len() > 0 {
        let pre = obs.drop_last();
        assert(obligations_nonneg(pre)) by {
            assert forall|j: int| 0 <= j < pre.len() implies obligation_amount(#[trigger] pre[j]) >= 0 by {
                assert(pre[j] == obs[j]);
            }
        }
        lemma_cover_obligations(e0, a0, payee, pre);
        lemma_nothing_covered_obligations(e0, a0, payee, pre);
        let (e1, a1) = cover_obligations(e0, a0, payee, pre);
        let last = obs.last();
        assert(obligation_amount(last) >= 0) by {
            assert(last == obs[obs.len() - 1]);
        }
        lemma_cover_prefix(e1, a1, payee, last, e1.len());
        lemma_cover_exhausts(e1, a1, payee, last, e1.len());
        let (e, a) = cover_obligations(e0, a0, payee, obs);
        if allocations_total(a) == allocations_total(a0) {
            assert forall|j: int, i: int|
                0 <= j < obs.len() && 0 <= i < e0.len() && obligation_amount(#[trigger] obs[j]) > 0
                    && belongs_to_obligation(#[trigger] e0[i], obs[j]) implies e0[i].accepted_amount
                    <= e0[i].scheduled_amount by {
                if j < obs.len() - 1 {
                    assert(obs[j] == pre[j]);
                } else {
                    assert(obs[j] == last);
                }
            }
        }
    }
}

/// The same over the obligations of all payees.
proof fn lemma_nothing_covered_payments(
    e0: Seq<ExpenditureRow>,
    a0: Seq<BatchPaymentAllocationView>,
    ps: Seq<BatchPaymentView>,
)
    requires
        payments_nonneg(ps),
        expenditures_bounded(e0),
        allocations_nonneg(a0),
    ensures
        ({
            let (e, a) = cover_payments(e0, a0, ps);
            allocations_total(a) == allocations_total(a0) ==> {
                &&& e == e0
                &&& forall|p: int, j: int, i: int|
                    0 <= p < ps.len() && 0 <= j < ps[p].obligations.len() && 0 <= i < e0.len()
                        && obligation_amount(#[trigger] ps[p].obligations[j]) > 0 && belongs_to_obligation(
                        #[trigger] e0[i],
                        ps[p].obligations[j],
                    ) ==> e0[i].accepted_amount <= e0[i].scheduled_amount
            }
        }),
    decreases ps.len(),
{
    lemma_cover_payments(e0, a0, ps);
    if ps.len() > 0 {
        let pre = ps.drop_last();
        assert(payments_nonneg(pre)) by {
            assert forall|i: int| 0 <= i < pre.len() implies obligations_nonneg(#[trigger] pre[i].obligations) by {
                assert(pre[i] == ps[i]);
            }
        }
        lemma_cover_payments(e0, a0, pre);
        lemma_nothing_covered_payments(e0, a0, pre);
        let (e1, a1) = cover_payments(e0, a0, pre);
        let last = ps.last();
        assert(obligations_nonneg(last.obligations)) by {
            assert(last == ps[ps.len() - 1]);
        }
        lemma_cover_obligations(e1, a1, last.payee_id, last.obligations);
        lemma_nothing_covered_obligations(e1, a1, last.payee_id, last.obligations);
        let (e, a) = cover_payments(e0, a0, ps);
        if allocations_total(a) == allocations_total(a0) {
            assert forall|p: int, j: int, i: int|
                0 <= p < ps.len() && 0 <= j < ps[p].obligations.len() && 0 <= i < e0.len()
                    && obligation_amount(#[trigger] ps[p].obligations[j]) > 0 && belongs_to_obligation(
                    #[trigger] e0[i],
                    ps[p].obligations[j],
                ) implies e0[i].accepted_amount <= e0[i].scheduled_amount by {
                if p < ps.len() - 1 {
                    assert(ps[p] == pre[p]);
                } else {
                    assert(ps[p] == last);
                }
            }
        }
    }
}

/// A resolution covers nothing only where nothing can be covered: where covering the
/// payees' obligations from the open expenditures of `expenditures` yields no batch item
/// amount, every expenditure of the document of an obligation with something owed has no
/// accepted amount left unscheduled, however much was scheduled on it before.
pub proof fn law_nothing_resolved_only_without_payable_expenditure(
    expenditures: Seq<ExpenditureRow>,
    ps: Seq<BatchPaymentView>,
)
    requires
        payments_nonneg(ps),
        expenditures_bounded(expenditures),
    ensures
        allocations_total(cover_payments(open_expenditures(expenditures), Seq::empty(), ps).1) == 0 ==> forall|
            p: int,
            j: int,
            i: int,
        |
            0 <= p < ps.len() && 0 <= j < ps[p].obligations.len() && 0 <= i < expenditures.len()
                && obligation_amount(#[trigger] ps[p].obligations[j]) > 0 && belongs_to_obligation(
                #[trigger] expenditures[i],
                ps[p].obligations[j],
            ) ==> expenditures[i].accepted_amount <= expenditures[i].scheduled_amount,
{
    let e0 = open_expenditures(expenditures);
    lemma_open_expenditures(expenditures);
    assert(allocations_total(Seq::<BatchPaymentAllocationView>::empty()) == 0);
    lemma_nothing_covered_payments(e0, Seq::empty(), ps);
    if allocations_total(cover_payments(e0, Seq::empty(), ps).1) == 0 {
        assert forall|p: int, j: int, i: int|
            0 <= p < ps.len() && 0 <= j < ps[p].obligations.len() && 0 <= i < expenditures.len()
                && obligation_amount(#[trigger] ps[p].obligations[j]) > 0 && belongs_to_obligation(
                #[trigger] expenditures[i],
                ps[p].obligations[j],
            ) implies expenditures[i].accepted_amount <= expenditures[i].scheduled_amount by {
            if expenditures[i].accepted_amount > expenditures[i].scheduled_amount {
                law_unscheduled_expenditure_is_open(expenditures, i);
                let w = choose|w: int| 0 <= w < e0.len() && e0[w] == expenditures[i];
                assert(belongs_to_obligation(e0[w], ps[p].obligations[j]));
            }
        }
    }
}

/// The records of `e` whose scheduled amount differs from the one in `e0`, in order.
pub open spec fn changed_expenditures(
    e0: Seq<ExpenditureRow>,
    e: Seq<ExpenditureRow>,
    k: nat,
) -> Seq<ExpenditureRow>
    decreases k,
{
    if k == 0 {
        Seq::empty()
    } else if e[k - 1].scheduled_amount != e0[k - 1].scheduled_amount {
        changed_expenditures(e0, e, (k - 1) as nat).push(e[k - 1])
    } else {
        changed_expenditures(e0, e, (k - 1) as nat)
    }
}

pub proof fn lemma_open_expenditures(e: Seq<ExpenditureRow>)
    requires
        expenditures_bounded(e),
    ensures
        expenditures_bounded(open_expenditures(e)),
        open_expenditures(e).len() <= e.len(),
    decreases e.len(),
{
    if e.len() > 0 {
        assert(expenditures_bounded(e.drop_last())) by {
            assert forall|i: int| 0 <= i < e.drop_last().len() implies expenditure_bounded(#[trigger] e.drop_last()[i]) by {
                assert(e.drop_last()[i] == e[i]);
            }
        }
        lemma_open_expenditures(e.drop_last());
        assert(expenditure_bounded(e[e.len() - 1]));
    }
}

/// A batch order to be stored: its total, its items with the documents they pay, the
/// expenditures whose scheduled amount it raised (new values), and the raises of the
/// agreements' and activities' scheduled amounts.
#[derive(Debug)]
pub struct ResolvedBatchOrder {
    pub order_id: String,
    pub owner_id: String,
    pub payer_addr: String,
    pub platform: String,
    pub total_amount: i128,
    pub items: Vec<BatchPaymentAllocation>,
    pub expenditures: Vec<ExpenditureRow>,
    pub scheduled: Vec<ScheduledIncrease>,
}

/// Resolves what the owner still owes on the platform from the payer address into one
/// batch order, under the id `order_id`. The obligations of activities come first, then
/// those of invoices; each is covered from the expenditures of its agreement (and
/// activity) that still have unscheduled accepted amounts. `None` where nothing is owed
/// or nothing owed can be covered.
pub fn resolve_invoices(
    args: &ResolveInvoiceArgs,
    activities: &Vec<ActivityPaymentRow>,
    invoices: &Vec<InvoicePaymentRow>,
    expenditures: &Vec<ExpenditureRow>,
    order_id: String,
) -> (r: DbResult<Option<ResolvedBatchOrder>>)
    requires
        forall|i: int|
            0 <= i < activities@.len() ==> amounts_bounded(
                #[trigger] activities@[i].total_amount_accepted,
                activities@[i].total_amount_scheduled,
            ),
        forall|i: int|
            0 <= i < invoices@.len() ==> amounts_bounded(
                #[trigger] invoices@[i].total_amount_accepted,
                invoices@[i].total_amount_scheduled,
            ),
        expenditures_bounded(expenditures@),
        activities_pay_total(activities@) + invoices_pay_total(invoices@) <= i128::MAX,
    ensures
        match activity_part_spec(activities@, *args, Seq::empty(), 0) {
            None => is_payee_parse_error(r),
            Some((ps1, t1)) => match agreement_part_spec(invoices@, *args, ps1, t1) {
                None => is_payee_parse_error(r),
                Some((ps, t)) => if t == 0 {
                    r matches Ok(None)
                } else {
                    let e0 = open_expenditures(expenditures@);
                    let (e, a) = cover_payments(e0, Seq::empty(), ps);
                    if allocations_total(a) == 0 {
                        r matches Ok(None)
                    } else {
                        r matches Ok(Some(o)) && {
                            &&& o.order_id == order_id
                            &&& o.owner_id == args.owner_id
                            &&& o.payer_addr == args.payer_addr
                            &&& o.platform == args.platform
                            &&& o.total_amount == allocations_total(a)
                            &&& allocations_view(o.items@) == a
                            &&& o.expenditures@ == changed_expenditures(e0, e, e0.len())
                            &&& o.scheduled@ == scheduled_increases(a)
                        }
                    }
                },
            },
        },
{
    let payments: Vec<BatchPayment> = Vec::new();
    proof {
        assert(payments_view(payments@) =~= Seq::<BatchPaymentView>::empty());
        assert(payments_total(Seq::<BatchPaymentView>::empty()) == 0);
        let f1 = |r: ActivityPaymentRow| pos_part(r.total_amount_accepted - r.total_amount_scheduled);
        assert forall|k: int| 0 <= k < activities@.len() implies f1(#[trigger] activities@[k]) >= 0 by {}
        lemma_seq_sum_nonneg(activities@, f1);
        let f2 = |r: InvoicePaymentRow| pos_part(r.total_amount_accepted - r.total_amount_scheduled);
        assert forall|k: int| 0 <= k < invoices@.len() implies f2(#[trigger] invoices@[k]) >= 0 by {}
        lemma_seq_sum_nonneg(invoices@, f2);
        lemma_activity_part(activities@, *args, Seq::empty(), 0);
    }
    let (payments, total_amount) = match resolve_invoices_activity_part(args, activities, 0, payments) {
        Ok(v) => v,
        Err(e) => return Err(e),
    };
    proof {
        lemma_agreement_part(invoices@, *args, payments_view(payments@), total_amount as int);
    }
    let (payments, total_amount) = match resolve_invoices_agreement_part(
        args,
        invoices,
        total_amount,
        payments,
    ) {
        Ok(v) => v,
        Err(e) => return Err(e),
    };
    if total_amount == 0 {
        return Ok(None);
    }
    let mut selected: Vec<ExpenditureRow> = Vec::new();
    let mut k: usize = 0;
    proof {
        assert(expenditures@.take(0) =~= Seq::<ExpenditureRow>::empty());
    }
    while k < expenditures.len()
        invariant
            0 <= k <= expenditures.len(),
            selected@ == open_expenditures(expenditures@.take(k as int)),
        decreases expenditures.len() - k,
    {
        proof {
            assert(expenditures@.take(k + 1).drop_last() =~= expenditures@.take(k as int));
        }
        if expenditures[k].accepted_amount != expenditures[k].scheduled_amount {
            selected.push(expenditures[k].duplicate());
        }
        k = k + 1;
    }
    proof {
        assert(expenditures@.take(k as int) =~= expenditures@);
        lemma_open_expenditures(expenditures@);
    }
    let ghost e0 = selected@;
    let mut updated: Vec<ExpenditureRow> = Vec::new();
    let mut k2: usize = 0;
    while k2 < selected.len()
        invariant
            0 <= k2 <= selected.len(),
            selected@ == e0,
            updated@ == e0.take(k2 as int),
        decreases selected.len() - k2,
    {
        updated.push(selected[k2].duplicate());
        proof {
            assert(e0.take(k2 + 1) =~= e0.take(k2 as int).push(e0[k2 as int]));
        }
        k2 = k2 + 1;
    }
    proof {
        assert(e0.take(k2 as int) =~= e0);
        lemma_cover_payments(e0, Seq::empty(), payments_view(payments@));
        assert(allocations_total(Seq::<BatchPaymentAllocationView>::empty()) == 0);
    }
    let payments_allocations = match use_expenditures_on_payments(&mut updated, payments) {
        Ok(v) => v,
        Err(e) => return Err(e),
    };
    let (total_amount, scheduled) = match schedule_covered_payments(
        &args.owner_id,
        &payments_allocations,
    ) {
        Ok(v) => v,
        Err(e) => return Err(e),
    };
    if total_amount == 0 {
        return Ok(None);
    }
    let ghost e1 = updated@;
    let mut changed: Vec<ExpenditureRow> = Vec::new();
    let mut q: usize = 0;
    while q < updated.len()
        invariant
            0 <= q <= updated.len(),
            updated@ == e1,
            selected@ == e0,
            e1.len() == e0.len(),
            changed@ == changed_expenditures(e0, e1, q as nat),
        decreases updated.len() - q,
    {
        if updated[q].scheduled_amount != selected[q].scheduled_amount {
            changed.push(updated[q].duplicate());
        }
        q = q + 1;
    }
    Ok(
        Some(
            ResolvedBatchOrder {
                order_id,
                owner_id: args.owner_id.clone(),
                payer_addr: args.payer_addr.clone(),
                platform: args.platform.clone(),
                total_amount,
                items: payments_allocations,
                expenditures: changed,
                scheduled,
            },
        ),
    )
}


/// Sum of the amounts of the parts an item pays.
pub open spec fn parts_total(obs: Seq<BatchPaymentObligationAllocation>) -> int {
    seq_sum(obs, |o: BatchPaymentObligationAllocation| allocated_amount(o))
}

pub open spec fn parts_positive(obs: Seq<BatchPaymentObligationAllocation>) -> bool {
    forall|j: int| 0 <= j < obs.len() ==> allocated_amount(#[trigger] obs[j]) > 0
}

/// Every item pays exactly the sum of its parts, and every part is positive.
pub open spec fn items_sound(a: Seq<BatchPaymentAllocationView>) -> bool {
    forall|i: int|
        0 <= i < a.len() ==> {
            &&& (#[trigger] a[i]).amount == parts_total(a[i].obligations)
            &&& parts_positive(a[i].obligations)
        }
}

pub proof fn lemma_insert_sound(
    a: Seq<BatchPaymentAllocationView>,
    payee: Seq<char>,
    allocation_id: Seq<char>,
    o: BatchPaymentObligationAllocation,
)
    requires
        items_sound(a),
        allocated_amount(o) > 0,
    ensures
        items_sound(allocation_insert(a, payee, allocation_id, o)),
{
    lemma_allocation_index_bounds(a, payee, allocation_id);
    let k = allocation_index(a, payee, allocation_id);
    let f = |x: BatchPaymentObligationAllocation| allocated_amount(x);
    let a2 = allocation_insert(a, payee, allocation_id, o);
    if k >= 0 {
        lemma_seq_sum_push(a[k].obligations, o, f);
        assert forall|i: int| 0 <= i < a2.len() implies {
            &&& (#[trigger] a2[i]).amount == parts_total(a2[i].obligations)
            &&& parts_positive(a2[i].obligations)
        } by {
            if i != k {
                assert(a2[i] == a[i]);
            } else {
                let obs = a[k].obligations.push(o);
                assert forall|j: int| 0 <= j < obs.len() implies allocated_amount(#[trigger] obs[j]) > 0 by {
                    if j < a[k].obligations.len() {
                        assert(obs[j] == a[k].obligations[j]);
                    }
                }
            }
        }
    } else {
        lemma_seq_sum_push(Seq::<BatchPaymentObligationAllocation>::empty(), o, f);
        assert(seq![o] =~= Seq::<BatchPaymentObligationAllocation>::empty().push(o));
        assert forall|i: int| 0 <= i < a2.len() implies {
            &&& (#[trigger] a2[i]).amount == parts_total(a2[i].obligations)
            &&& parts_positive(a2[i].obligations)
        } by {
            if i < a.len() {
                assert(a2[i] == a[i]);
            }
        }
    }
}

proof fn lemma_prefix_sound(
    e0: Seq<ExpenditureRow>,
    a0: Seq<BatchPaymentAllocationView>,
    payee: Seq<char>,
    o: BatchPaymentObligation,
    k: nat,
)
    requires
        k <= e0.len(),
        obligation_amount(o) >= 0,
        expenditures_bounded(e0),
        allocations_nonneg(a0),
        items_sound(a0),
    ensures
        items_sound(cover_prefix(e0, a0, payee, o, k).1),
    decreases k,
{
    if k > 0 {
        lemma_prefix_sound(e0, a0, payee, o, (k - 1) as nat);
        lemma_cover_prefix(e0, a0, payee, o, (k - 1) as nat);
        let (e, a, c) = cover_prefix(e0, a0, payee, o, (k - 1) as nat);
        let x = e[k - 1];
        if expenditure_matches(x, o) && c < obligation_amount(o) {
            let take = min_int(obligation_amount(o) - c, x.accepted_amount - x.scheduled_amount);
            let part = obligation_part(o, x.allocation_id, take);
            assert(allocated_amount(part) == take);
            lemma_insert_sound(a, payee, x.allocation_id@, part);
        }
    }
}

proof fn lemma_obligations_sound(
    e0: Seq<ExpenditureRow>,
    a0: Seq<BatchPaymentAllocationView>,
    payee: Seq<char>,
    obs: Seq<BatchPaymentObligation>,
)
    requires
        obligations_nonneg(obs),
        expenditures_bounded(e0),
        allocations_nonneg(a0),
        items_sound(a0),
    ensures
        items_sound(cover_obligations(e0, a0, payee, obs).1),
    decreases obs.len(),
{
    if obs.len() > 0 {
        let pre = obs.drop_last();
        assert(obligations_nonneg(pre)) by {
            assert forall|j: int| 0 <= j < pre.len() implies obligation_amount(#[trigger] pre[j]) >= 0 by {
                assert(pre[j] == obs[j]);
            }
        }
        lemma_obligations_sound(e0, a0, payee, pre);
        lemma_cover_obligations(e0, a0, payee, pre);
        let (e, a) = cover_obligations(e0, a0, payee, pre);
        assert(obligation_amount(obs.last()) >= 0) by {
            assert(obs.last() == obs[obs.len() - 1]);
        }
        lemma_prefix_sound(e, a, payee, obs.last(), e.len());
    }
}

/// Covering keeps the items sound.
pub proof fn lemma_payments_sound(
    e0: Seq<ExpenditureRow>,
    a0: Seq<BatchPaymentAllocationView>,
    ps: Seq<BatchPaymentView>,
)
    requires
        payments_nonneg(ps),
        expenditures_bounded(e0),
        allocations_nonneg(a0),
        items_sound(a0),
    ensures
        items_sound(cover_payments(e0, a0, ps).1),
    decreases ps.len(),
{
    if ps.len() > 0 {
        let pre = ps.drop_last();
        assert(payments_nonneg(pre)) by {
            assert forall|i: int| 0 <= i < pre.len() implies obligations_nonneg(#[trigger] pre[i].obligations) by {
                assert(pre[i] == ps[i]);
            }
        }
        lemma_payments_sound(e0, a0, pre);
        lemma_cover_payments(e0, a0, pre);
        let (e, a) = cover_payments(e0, a0, pre);
        assert(obligations_nonneg(ps.last().obligations)) by {
            assert(ps.last() == ps[ps.len() - 1]);
        }
        lemma_obligations_sound(e, a, ps.last().payee_id, ps.last().obligations);
    }
}

pub open spec fn increase_amount(i: ScheduledIncrease) -> int {
    match i {
        ScheduledIncrease::Agreement { amount, .. } => amount as int,
        ScheduledIncrease::Activity { amount, .. } => amount as int,
    }
}

/// Sum of the raises.
pub open spec fn increases_total(s: Seq<ScheduledIncrease>) -> int {
    seq_sum(s, |i: ScheduledIncrease| increase_amount(i))
}

/// The raises of sound items are positive and add up to the items' total.
pub proof fn lemma_increases_of_sound(a: Seq<BatchPaymentAllocationView>)
    requires
        items_sound(a),
    ensures
        increases_total(scheduled_increases(a)) == allocations_total(a),
        forall|k: int|
            0 <= k < scheduled_increases(a).len() ==> increase_amount(
                #[trigger] scheduled_increases(a)[k],
            ) > 0,
    decreases a.len(),
{
    if a.len() > 0 {
        let pre = a.drop_last();
        assert(items_sound(pre)) by {
            assert forall|i: int| 0 <= i < pre.len() implies {
                &&& (#[trigger] pre[i]).amount == parts_total(pre[i].obligations)
                &&& parts_positive(pre[i].obligations)
            } by {
                assert(pre[i] == a[i]);
            }
        }
        lemma_increases_of_sound(pre);
        let last = a.last();
        assert(last == a[a.len() - 1]);
        let g = |o: BatchPaymentObligationAllocation| increase_of(o);
        let f = |i: ScheduledIncrease| increase_amount(i);
        let h = |o: BatchPaymentObligationAllocation| allocated_amount(o);
        assert forall|x: BatchPaymentObligationAllocation| #[trigger] f(g(x)) == h(x) by {}
        lemma_seq_sum_map(last.obligations, g, f, h);
        let tail = last.obligations.map_values(g);
        lemma_seq_sum_concat(scheduled_increases(pre), tail, f);
        let fa = |x: BatchPaymentAllocationView| x.amount;
        assert(a.drop_last() == pre);
        let s = scheduled_increases(a);
        assert(s == scheduled_increases(pre) + tail);
        assert forall|k: int| 0 <= k < s.len() implies increase_amount(#[trigger] s[k]) > 0 by {
            if k < scheduled_increases(pre).len() {
                assert(s[k] == scheduled_increases(pre)[k]);
            } else {
                let j = k - scheduled_increases(pre).len();
                assert(s[k] == tail[j]);
                assert(allocated_amount(last.obligations[j]) > 0);
            }
        }
    }
}

} // verus!
