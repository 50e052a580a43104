//! Stored batch orders, their items (one per payee and allocation) and the documents each
//! item pays.
use vstd::prelude::*;
use crate::batch::BatchOrderItemFullInfo;
use crate::dao::debit_note::{contains_text, texts_view};
use crate::dao::invoice::{lemma_select_by_holds, lemma_select_by_member, select_by};
use crate::error::{DbError, DbResult};
use crate::ledger::{in_range, is_not_found, not_found_error};
use crate::models::clone_opt;
use crate::order::{index_perm, limit, order_by_key, permuted, sorted_by};
use crate::text::text_eq;

verus! {

/// A batch order: what the owner pays from `payer_addr` on `platform`, and how much of it
/// was paid so far.
#[derive(Debug)]
pub struct BatchOrderRow {
    pub id: String,
    pub owner_id: String,
    pub payer_addr: String,
    pub platform: String,
    pub total_amount: i128,
    pub paid_amount: i128,
    pub created_ts: i64,
    pub updated_ts: i64,
}

impl BatchOrderRow {
    pub fn duplicate(&self) -> (r: Self)
        ensures
            r == *self,
    {
        BatchOrderRow {
            id: self.id.clone(),
            owner_id: self.owner_id.clone(),
            payer_addr: self.payer_addr.clone(),
            platform: self.platform.clone(),
            total_amount: self.total_amount,
            paid_amount: self.paid_amount,
            created_ts: self.created_ts,
            updated_ts: self.updated_ts,
        }
    }
}

/// What an order pays one payee from one allocation; `payment_id` is set once the
/// transfer is handed to the driver, `paid` once it is confirmed.
#[derive(Debug)]
pub struct BatchOrderItemRow {
    pub order_id: String,
    pub owner_id: String,
    pub payee_addr: String,
    pub allocation_id: String,
    pub amount: i128,
    pub payment_id: Option<String>,
    pub paid: bool,
}

impl BatchOrderItemRow {
    pub fn duplicate(&self) -> (r: Self)
        ensures
            r == *self,
    {
        BatchOrderItemRow {
            order_id: self.order_id.clone(),
            owner_id: self.owner_id.clone(),
            payee_addr: self.payee_addr.clone(),
            allocation_id: self.allocation_id.clone(),
            amount: self.amount,
            payment_id: clone_opt(&self.payment_id),
            paid: self.paid,
        }
    }
}

/// The part of an item that pays one document: an invoice of an agreement, or the debit
/// notes of an activity.
#[derive(Debug)]
pub struct BatchOrderItemDocumentRow {
    pub order_id: String,
    pub owner_id: String,
    pub payee_addr: String,
    pub allocation_id: String,
    pub agreement_id: String,
    pub invoice_id: Option<String>,
    pub activity_id: Option<String>,
    pub debit_note_id: Option<String>,
    pub amount: i128,
}

/// The deposit of an allocation as JSON text, as the item listing reads it.
#[derive(Debug)]
pub struct AllocationDepositRow {
    pub id: String,
    pub owner_id: String,
    pub deposit: Option<String>,
}

/// Which item documents a listing asks for; `None` leaves a field unconstrained.
#[derive(Debug)]
pub struct BatchItemFilter {
    pub order_id: Option<String>,
    pub payee_addr: Option<String>,
    pub allocation_id: Option<String>,
    pub agreement_id: Option<String>,
    pub activity_id: Option<String>,
    pub payment_id: Option<String>,
}

/// A document paid by an item, with the times of its order.
#[derive(Debug)]
pub struct AgreementBatchOrderItem {
    pub created_ts: i64,
    pub updated_ts: i64,
    pub order_id: String,
    pub owner_id: String,
    pub payee_addr: String,
    pub allocation_id: String,
    pub amount: i128,
    pub agreement_id: String,
    pub invoice_id: Option<String>,
    pub activity_id: Option<String>,
    pub debit_note_id: Option<String>,
}

/// The batch orders a node keeps, with their items and item documents.
#[derive(Debug)]
pub struct BatchDao {
    pub orders: Vec<BatchOrderRow>,
    pub items: Vec<BatchOrderItemRow>,
    pub documents: Vec<BatchOrderItemDocumentRow>,
}

/// `item` is the one of `order_id`, `owner`, payee and allocation.
pub open spec fn item_is(
    item: BatchOrderItemRow,
    order_id: Seq<char>,
    owner: Seq<char>,
    payee_addr: Seq<char>,
    allocation_id: Seq<char>,
) -> bool {
    &&& item.order_id@ == order_id
    &&& item.owner_id@ == owner
    &&& item.payee_addr@ == payee_addr
    &&& item.allocation_id@ == allocation_id
}

/// The number of items of `s` for which `p` holds.
pub open spec fn count_where<A>(s: Seq<A>, p: spec_fn(A) -> bool) -> nat {
    select_by(s, p).len()
}

/// Position of the first item of `s` for which `p` holds, or -1.
pub open spec fn first_where<A>(s: Seq<A>, p: spec_fn(A) -> bool) -> int
    decreases s.len(),
{
    if s.len() == 0 {
        -1
    } else {
        let k = first_where(s.drop_last(), p);
        if k >= 0 {
            k
        } else if p(s.last()) {
            s.len() - 1
        } else {
            -1
        }
    }
}

proof fn lemma_first_where<A>(s: Seq<A>, p: spec_fn(A) -> bool)
    ensures
        -1 <= first_where(s, p) < s.len(),
        first_where(s, p) >= 0 ==> p(s[first_where(s, p)]),
        first_where(s, p) >= 0 ==> forall|k: int| 0 <= k < first_where(s, p) ==> !p(#[trigger] s[k]),
        first_where(s, p) == -1 ==> forall|k: int| 0 <= k < s.len() ==> !p(#[trigger] s[k]),
    decreases s.len(),
{
    if s.len() > 0 {
        lemma_first_where(s.drop_last(), p);
        assert forall|k: int| 0 <= k < s.len() - 1 implies s[k] == s.drop_last()[k] by {}
    }
}

proof fn lemma_first_where_take<A>(s: Seq<A>, p: spec_fn(A) -> bool, i: int)
    requires
        0 <= i <= s.len(),
        forall|k: int| 0 <= k < i ==> !p(#[trigger] s[k]),
    ensures
        first_where(s.take(i), p) == -1,
    decreases i,
{
    if i > 0 {
        assert(s.take(i).drop_last() =~= s.take(i - 1));
        lemma_first_where_take(s, p, i - 1);
    }
}

proof fn lemma_first_where_at<A>(s: Seq<A>, p: spec_fn(A) -> bool, i: int)
    requires
        0 <= i < s.len(),
        p(s[i]),
        forall|k: int| 0 <= k < i ==> !p(#[trigger] s[k]),
    ensures
        first_where(s, p) == i,
{
    lemma_first_where(s, p);
    let f = first_where(s, p);
    if f == -1 {
        assert(!p(s[i]));
    } else if f < i {
        assert(!p(s[f]));
    } else if f > i {
        assert(!p(s[i]));
    }
}

/// Finds the first position of `v` holding an order under `id` (of `owner`, where given).
fn find_order(v: &Vec<BatchOrderRow>, id: &str, owner: Option<&str>) -> (r: Option<usize>)
    ensures
        r matches Some(i) ==> i < v@.len() && first_where(
            v@,
            |o: BatchOrderRow| order_is(o, id@, opt_text(owner)),
        ) == i,
        r is None ==> first_where(v@, |o: BatchOrderRow| order_is(o, id@, opt_text(owner))) == -1,
{
    let ghost p = |o: BatchOrderRow| order_is(o, id@, opt_text(owner));
    let mut i: usize = 0;
    while i < v.len()
        invariant
            0 <= i <= v.len(),
            p == (|o: BatchOrderRow| order_is(o, id@, opt_text(owner))),
            forall|k: int| 0 <= k < i ==> !p(#[trigger] v@[k]),
        decreases v.len() - i,
    {
        let o = &v[i];
        let hit = text_eq(o.id.as_str(), id) && match owner {
            Some(w) => text_eq(o.owner_id.as_str(), w),
            None => true,
        };
        if hit {
            proof {
                lemma_first_where_at(v@, p, i as int);
            }
            return Some(i);
        }
        i = i + 1;
    }
    proof {
        lemma_first_where(v@, p);
        if first_where(v@, p) >= 0 {
            assert(!p(v@[first_where(v@, p)]));
        }
    }
    None
}

pub open spec fn opt_text(o: Option<&str>) -> Option<Seq<char>> {
    match o {
        Some(s) => Some(s@),
        None => None,
    }
}

/// `o` is the order under `id`, of `owner` where one is given.
pub open spec fn order_is(o: BatchOrderRow, id: Seq<char>, owner: Option<Seq<char>>) -> bool {
    &&& o.id@ == id
    &&& (owner matches Some(w) ==> o.owner_id@ == w)
}

/// Whether item document `d` belongs to item `i` and `d`, `i` and the order `o` they
/// belong to pass the filter.
pub open spec fn item_document_listed(
    f: BatchItemFilter,
    o: BatchOrderRow,
    i: BatchOrderItemRow,
    d: BatchOrderItemDocumentRow,
) -> bool {
    &&& d.order_id@ == i.order_id@
    &&& d.owner_id@ == i.owner_id@
    &&& d.allocation_id@ == i.allocation_id@
    &&& d.payee_addr@ == i.payee_addr@
    &&& o.id@ == i.order_id@
    &&& o.owner_id@ == i.owner_id@
    &&& (f.order_id matches Some(x) ==> i.order_id@ == x@)
    &&& (f.payee_addr matches Some(x) ==> i.payee_addr@ == x@)
    &&& (f.allocation_id matches Some(x) ==> i.allocation_id@ == x@)
    &&& (f.agreement_id matches Some(x) ==> d.agreement_id@ == x@)
    &&& (f.activity_id matches Some(x) ==> (d.activity_id matches Some(a) && a@ == x@))
    &&& (f.payment_id matches Some(x) ==> (i.payment_id matches Some(p) && p@ == x@))
}

pub open spec fn listed_item(o: BatchOrderRow, d: BatchOrderItemDocumentRow) -> AgreementBatchOrderItem {
    AgreementBatchOrderItem {
        created_ts: o.created_ts,
        updated_ts: o.updated_ts,
        order_id: d.order_id,
        owner_id: d.owner_id,
        payee_addr: d.payee_addr,
        allocation_id: d.allocation_id,
        amount: d.amount,
        agreement_id: d.agreement_id,
        invoice_id: d.invoice_id,
        activity_id: d.activity_id,
        debit_note_id: d.debit_note_id,
    }
}

/// The joined rows of the item listing for owner `owner`: item by item (in stored order,
/// each of the owner's items), order by order, document by document.
pub open spec fn joined_items(
    orders: Seq<BatchOrderRow>,
    items: Seq<BatchOrderItemRow>,
    docs: Seq<BatchOrderItemDocumentRow>,
    owner: Seq<char>,
    f: BatchItemFilter,
) -> Seq<AgreementBatchOrderItem>
    decreases items.len(),
{
    if items.len() == 0 {
        Seq::empty()
    } else {
        let i = items.last();
        joined_items(orders, items.drop_last(), docs, owner, f) + if i.owner_id@ == owner {
            joined_for_item(orders, i, docs, f, orders.len() as int)
        } else {
            Seq::empty()
        }
    }
}

/// The joined rows of item `i` with the orders below `k`.
pub open spec fn joined_for_item(
    orders: Seq<BatchOrderRow>,
    i: BatchOrderItemRow,
    docs: Seq<BatchOrderItemDocumentRow>,
    f: BatchItemFilter,
    k: int,
) -> Seq<AgreementBatchOrderItem>
    decreases k,
{
    if k <= 0 {
        Seq::empty()
    } else {
        let o = orders[k - 1];
        joined_for_item(orders, i, docs, f, k - 1) + joined_docs(o, i, docs, f, docs.len() as int)
    }
}

/// The joined rows of item `i` and order `o` with the documents below `k`.
pub open spec fn joined_docs(
    o: BatchOrderRow,
    i: BatchOrderItemRow,
    docs: Seq<BatchOrderItemDocumentRow>,
    f: BatchItemFilter,
    k: int,
) -> Seq<AgreementBatchOrderItem>
    decreases k,
{
    if k <= 0 {
        Seq::empty()
    } else {
        let d = docs[k - 1];
        let rest = joined_docs(o, i, docs, f, k - 1);
        if item_document_listed(f, o, i, d) {
            rest.push(listed_item(o, d))
        } else {
            rest
        }
    }
}

pub open spec fn created_times(s: Seq<AgreementBatchOrderItem>) -> Seq<i64> {
    s.map_values(|x: AgreementBatchOrderItem| x.created_ts)
}

pub open spec fn order_created_times(s: Seq<BatchOrderRow>) -> Seq<i64> {
    s.map_values(|x: BatchOrderRow| x.created_ts)
}

fn opt_matches(filter: &Option<String>, value: &str) -> (r: bool)
    ensures
        r == (filter matches Some(x) ==> value@ == x@),
{
    match filter {
        Some(x) => text_eq(value, x.as_str()),
        None => true,
    }
}

fn opt_field_matches(filter: &Option<String>, value: &Option<String>) -> (r: bool)
    ensures
        r == (filter matches Some(x) ==> (*value matches Some(v) && v@ == x@)),
{
    match filter {
        Some(x) => match value {
            Some(v) => text_eq(v.as_str(), x.as_str()),
            None => false,
        },
        None => true,
    }
}

fn listed_exec(
    f: &BatchItemFilter,
    o: &BatchOrderRow,
    i: &BatchOrderItemRow,
    d: &BatchOrderItemDocumentRow,
) -> (r: bool)
    ensures
        r == item_document_listed(*f, *o, *i, *d),
{
    text_eq(d.order_id.as_str(), i.order_id.as_str()) && text_eq(d.owner_id.as_str(), i.owner_id.as_str())
        && text_eq(d.allocation_id.as_str(), i.allocation_id.as_str()) && text_eq(
        d.payee_addr.as_str(),
        i.payee_addr.as_str(),
    ) && text_eq(o.id.as_str(), i.order_id.as_str()) && text_eq(o.owner_id.as_str(), i.owner_id.as_str())
        && opt_matches(&f.order_id, i.order_id.as_str()) && opt_matches(&f.payee_addr, i.payee_addr.as_str())
        && opt_matches(&f.allocation_id, i.allocation_id.as_str()) && opt_matches(
        &f.agreement_id,
        d.agreement_id.as_str(),
    ) && opt_field_matches(&f.activity_id, &d.activity_id) && opt_field_matches(&f.payment_id, &i.payment_id)
}

fn make_listed(o: &BatchOrderRow, d: &BatchOrderItemDocumentRow) -> (r: AgreementBatchOrderItem)
    ensures
        r == listed_item(*o, *d),
{
    AgreementBatchOrderItem {
        created_ts: o.created_ts,
        updated_ts: o.updated_ts,
        order_id: d.order_id.clone(),
        owner_id: d.owner_id.clone(),
        payee_addr: d.payee_addr.clone(),
        allocation_id: d.allocation_id.clone(),
        amount: d.amount,
        agreement_id: d.agreement_id.clone(),
        invoice_id: clone_opt(&d.invoice_id),
        activity_id: clone_opt(&d.activity_id),
        debit_note_id: clone_opt(&d.debit_note_id),
    }
}

fn duplicate_listed(x: &AgreementBatchOrderItem) -> (r: AgreementBatchOrderItem)
    ensures
        r == *x,
{
    AgreementBatchOrderItem {
        created_ts: x.created_ts,
        updated_ts: x.updated_ts,
        order_id: x.order_id.clone(),
        owner_id: x.owner_id.clone(),
        payee_addr: x.payee_addr.clone(),
        allocation_id: x.allocation_id.clone(),
        amount: x.amount,
        agreement_id: x.agreement_id.clone(),
        invoice_id: clone_opt(&x.invoice_id),
        activity_id: clone_opt(&x.activity_id),
        debit_note_id: clone_opt(&x.debit_note_id),
    }
}

/// Whether item `i` is one of `owner`'s items of `order_id` not yet handed to the driver.
pub open spec fn unsent_item(i: BatchOrderItemRow, owner: Seq<char>, order_id: Seq<char>) -> bool {
    &&& i.owner_id@ == owner
    &&& i.order_id@ == order_id
    &&& i.payment_id is None
    &&& !i.paid
}

/// Whether the allocation record `a` is the one of item `i`.
pub open spec fn allocation_of(a: AllocationDepositRow, i: BatchOrderItemRow) -> bool {
    a.id@ == i.allocation_id@ && a.owner_id@ == i.owner_id@
}

/// The full information of item `i` joined with its allocation `a` and its order `o`.
pub open spec fn full_info(i: BatchOrderItemRow, a: AllocationDepositRow, o: BatchOrderRow) -> BatchOrderItemFullInfo {
    BatchOrderItemFullInfo {
        order_id: i.order_id,
        owner_id: i.owner_id,
        payer_addr: o.payer_addr,
        payee_addr: i.payee_addr,
        platform: o.platform,
        allocation_id: i.allocation_id,
        amount: i.amount,
        deposit: a.deposit,
    }
}

/// The unsent items of `order_id` joined with their allocations and their order:
/// item by item, allocation by allocation, order by order.
pub open spec fn unsent_joined(
    items: Seq<BatchOrderItemRow>,
    allocations: Seq<AllocationDepositRow>,
    orders: Seq<BatchOrderRow>,
    owner: Seq<char>,
    order_id: Seq<char>,
) -> Seq<BatchOrderItemFullInfo>
    decreases items.len(),
{
    if items.len() == 0 {
        Seq::empty()
    } else {
        let i = items.last();
        unsent_joined(items.drop_last(), allocations, orders, owner, order_id) + if unsent_item(
            i,
            owner,
            order_id,
        ) {
            item_with_allocations(i, allocations, orders, allocations.len() as int)
        } else {
            Seq::empty()
        }
    }
}

pub open spec fn item_with_allocations(
    i: BatchOrderItemRow,
    allocations: Seq<AllocationDepositRow>,
    orders: Seq<BatchOrderRow>,
    k: int,
) -> Seq<BatchOrderItemFullInfo>
    decreases k,
{
    if k <= 0 {
        Seq::empty()
    } else {
        let a = allocations[k - 1];
        item_with_allocations(i, allocations, orders, k - 1) + if allocation_of(a, i) {
            item_with_orders(i, a, orders, orders.len() as int)
        } else {
            Seq::empty()
        }
    }
}

pub open spec fn item_with_orders(
    i: BatchOrderItemRow,
    a: AllocationDepositRow,
    orders: Seq<BatchOrderRow>,
    k: int,
) -> Seq<BatchOrderItemFullInfo>
    decreases k,
{
    if k <= 0 {
        Seq::empty()
    } else {
        let o = orders[k - 1];
        let rest = item_with_orders(i, a, orders, k - 1);
        if o.id@ == i.order_id@ && o.owner_id@ == i.owner_id@ {
            rest.push(full_info(i, a, o))
        } else {
            rest
        }
    }
}

fn make_full_info(i: &BatchOrderItemRow, a: &AllocationDepositRow, o: &BatchOrderRow) -> (r: BatchOrderItemFullInfo)
    ensures
        r == full_info(*i, *a, *o),
{
    BatchOrderItemFullInfo {
        order_id: i.order_id.clone(),
        owner_id: i.owner_id.clone(),
        payer_addr: o.payer_addr.clone(),
        payee_addr: i.payee_addr.clone(),
        platform: o.platform.clone(),
        allocation_id: i.allocation_id.clone(),
        amount: i.amount,
        deposit: clone_opt(&a.deposit),
    }
}

/// An item of the key not paid yet.
pub open spec fn unpaid_item(
    i: BatchOrderItemRow,
    order_id: Seq<char>,
    owner: Seq<char>,
    payee_addr: Seq<char>,
    allocation_id: Seq<char>,
) -> bool {
    item_is(i, order_id, owner, payee_addr, allocation_id) && !i.paid
}

/// Item `i` after the items of the key are marked paid.
pub open spec fn paid_row(
    i: BatchOrderItemRow,
    order_id: Seq<char>,
    owner: Seq<char>,
    payee_addr: Seq<char>,
    allocation_id: Seq<char>,
) -> BatchOrderItemRow {
    if unpaid_item(i, order_id, owner, payee_addr, allocation_id) {
        BatchOrderItemRow { paid: true, ..i }
    } else {
        i
    }
}

/// `new` is `old` with the unpaid items of the key marked paid.
pub open spec fn items_paid(
    old: Seq<BatchOrderItemRow>,
    new: Seq<BatchOrderItemRow>,
    order_id: Seq<char>,
    owner: Seq<char>,
    payee_addr: Seq<char>,
    allocation_id: Seq<char>,
) -> bool {
    &&& new.len() == old.len()
    &&& forall|k: int|
        0 <= k < old.len() ==> #[trigger] new[k] == paid_row(old[k], order_id, owner, payee_addr, allocation_id)
}

/// `new` is `old` with `payment_id` set on each item of the key.
pub open spec fn items_sent(
    old: Seq<BatchOrderItemRow>,
    new: Seq<BatchOrderItemRow>,
    order_id: Seq<char>,
    owner: Seq<char>,
    payee_addr: Seq<char>,
    allocation_id: Seq<char>,
    payment_id: String,
) -> bool {
    &&& new.len() == old.len()
    &&& forall|k: int|
        0 <= k < old.len() ==> #[trigger] new[k] == if item_is(
            old[k],
            order_id,
            owner,
            payee_addr,
            allocation_id,
        ) {
            BatchOrderItemRow { payment_id: Some(payment_id), ..old[k] }
        } else {
            old[k]
        }
}

/// `r` lists the orders of `node` created after `after`, newest first (`perm` being that
/// order, equal times in stored order), cut to `max_items`.
pub open spec fn orders_listed(
    orders: Seq<BatchOrderRow>,
    node: Seq<char>,
    after: Option<i64>,
    max_items: Option<u32>,
    perm: Seq<usize>,
    r: Seq<BatchOrderRow>,
) -> bool {
    let m = select_by(
        orders,
        |o: BatchOrderRow| o.owner_id@ == node && (after matches Some(t) ==> o.created_ts > t),
    );
    &&& index_perm(perm, m.len())
    &&& sorted_by(order_created_times(m), perm, true)
    &&& r == limit(permuted(m, perm), max_items)
}

/// `r` lists the joined item documents of `owner` that pass the filter, newest order first
/// (`perm` being that order, equal times in joined order).
pub open spec fn items_listed(
    dao: &BatchDao,
    owner: Seq<char>,
    filter: BatchItemFilter,
    perm: Seq<usize>,
    r: Seq<AgreementBatchOrderItem>,
) -> bool {
    let m = joined_items(dao.orders@, dao.items@, dao.documents@, owner, filter);
    &&& index_perm(perm, m.len())
    &&& sorted_by(created_times(m), perm, true)
    &&& r == permuted(m, perm)
}

impl BatchDao {
    pub fn new() -> (r: Self)
        ensures
            r.orders@.len() == 0,
            r.items@.len() == 0,
            r.documents@.len() == 0,
    {
        BatchDao { orders: Vec::new(), items: Vec::new(), documents: Vec::new() }
    }

    /// The order `batch_order_id` of `node_id`, where there is one.
    pub fn get_batch_order(&self, batch_order_id: &str, node_id: &str) -> (r: Option<BatchOrderRow>)
        ensures
            ({
                let k = first_where(
                    self.orders@,
                    |o: BatchOrderRow| order_is(o, batch_order_id@, Some(node_id@)),
                );
                &&& k == -1 ==> r is None
                &&& k >= 0 ==> r == Some(self.orders@[k])
            }),
    {
        match find_order(&self.orders, batch_order_id, Some(node_id)) {
            Some(i) => Some(self.orders[i].duplicate()),
            None => None,
        }
    }

    fn items_where(&self, order_id: Option<&str>, payment_id: Option<&str>, node_id: &str) -> (r: Vec<
        BatchOrderItemRow,
    >)
        ensures
            r@ == select_by(
                self.items@,
                |i: BatchOrderItemRow|
                    i.owner_id@ == node_id@ && (opt_text(order_id) matches Some(x) ==> i.order_id@ == x)
                        && (opt_text(payment_id) matches Some(x) ==> (i.payment_id matches Some(p)
                        && p@ == x)),
            ),
    {
        let ghost p = |i: BatchOrderItemRow|
            i.owner_id@ == node_id@ && (opt_text(order_id) matches Some(x) ==> i.order_id@ == x) && (
            opt_text(payment_id) matches Some(x) ==> (i.payment_id matches Some(p) && p@ == x));
        let mut r: Vec<BatchOrderItemRow> = Vec::new();
        let mut k: usize = 0;
        while k < self.items.len()
            invariant
                0 <= k <= self.items.len(),
                p == (|i: BatchOrderItemRow|
                    i.owner_id@ == node_id@ && (opt_text(order_id) matches Some(x) ==> i.order_id@ == x)
                        && (opt_text(payment_id) matches Some(x) ==> (i.payment_id matches Some(p)
                        && p@ == x))),
                r@ == select_by(self.items@.take(k as int), p),
            decreases self.items.len() - k,
        {
            proof {
                assert(self.items@.take(k + 1).drop_last() =~= self.items@.take(k as int));
                assert(self.items@.take(k + 1).last() == self.items@[k as int]);
            }
            let it = &self.items[k];
            let by_order = match order_id {
                Some(x) => text_eq(it.order_id.as_str(), x),
                None => true,
            };
            let by_payment = match payment_id {
                Some(x) => match &it.payment_id {
                    Some(p) => text_eq(p.as_str(), x),
                    None => false,
                },
                None => true,
            };
            if text_eq(it.owner_id.as_str(), node_id) && by_order && by_payment {
                r.push(it.duplicate());
            }
            k = k + 1;
        }
        proof {
            assert(self.items@.take(k as int) =~= self.items@);
        }
        r
    }

    /// The items of order `batch_order_id` of `node_id`, in stored order.
    pub fn get_batch_order_items(&self, batch_order_id: &str, node_id: &str) -> (r: Vec<BatchOrderItemRow>)
        ensures
            r@ == select_by(
                self.items@,
                |i: BatchOrderItemRow| i.owner_id@ == node_id@ && i.order_id@ == batch_order_id@,
            ),
    {
        let r = self.items_where(Some(batch_order_id), None, node_id);
        proof {
            let p1 = |i: BatchOrderItemRow|
                i.owner_id@ == node_id@ && (opt_text(Some(batch_order_id)) matches Some(x) ==> i.order_id@ == x)
                    && (opt_text(None) matches Some(x) ==> (i.payment_id matches Some(p) && p@ == x));
            let p2 = |i: BatchOrderItemRow| i.owner_id@ == node_id@ && i.order_id@ == batch_order_id@;
            assert(p1 =~= p2);
        }
        r
    }

    /// The items of `node_id` sent as payment `payment_id`, in stored order.
    pub fn get_batch_order_items_by_payment_id(&self, payment_id: &str, node_id: &str) -> (r: Vec<
        BatchOrderItemRow,
    >)
        ensures
            r@ == select_by(
                self.items@,
                |i: BatchOrderItemRow|
                    i.owner_id@ == node_id@ && (i.payment_id matches Some(p) && p@ == payment_id@),
            ),
    {
        let r = self.items_where(None, Some(payment_id), node_id);
        proof {
            let p1 = |i: BatchOrderItemRow|
                i.owner_id@ == node_id@ && (opt_text(None) matches Some(x) ==> i.order_id@ == x) && (
                opt_text(Some(payment_id)) matches Some(x) ==> (i.payment_id matches Some(p) && p@ == x));
            let p2 = |i: BatchOrderItemRow|
                i.owner_id@ == node_id@ && (i.payment_id matches Some(p) && p@ == payment_id@);
            assert(p1 =~= p2);
        }
        r
    }

    /// The items, of any owner, sent as one of the payments `ids`.
    pub fn get_batch_orders(&self, ids: &Vec<String>) -> (r: Vec<BatchOrderItemRow>)
        ensures
            r@ == select_by(
                self.items@,
                |i: BatchOrderItemRow|
                    (i.payment_id matches Some(p) && texts_view(ids@).contains(p@)),
            ),
    {
        let ghost p = |i: BatchOrderItemRow| (i.payment_id matches Some(p) && texts_view(ids@).contains(p@));
        let mut r: Vec<BatchOrderItemRow> = Vec::new();
        let mut k: usize = 0;
        while k < self.items.len()
            invariant
                0 <= k <= self.items.len(),
                p == (|i: BatchOrderItemRow| (i.payment_id matches Some(p) && texts_view(ids@).contains(p@))),
                r@ == select_by(self.items@.take(k as int), p),
            decreases self.items.len() - k,
        {
            proof {
                assert(self.items@.take(k + 1).drop_last() =~= self.items@.take(k as int));
                assert(self.items@.take(k + 1).last() == self.items@[k as int]);
            }
            let it = &self.items[k];
            let hit = match &it.payment_id {
                Some(pid) => contains_text(ids, pid.as_str()),
                None => false,
            };
            if hit {
                r.push(it.duplicate());
            }
            k = k + 1;
        }
        proof {
            assert(self.items@.take(k as int) =~= self.items@);
        }
        r
    }

    /// The orders of `node_id` created after `after_timestamp`, newest first, at most
    /// `max_items` of them.
    pub fn get_for_node_id(&self, node_id: &str, after_timestamp: Option<i64>, max_items: Option<u32>) -> (r:
        Vec<BatchOrderRow>)
        ensures
            exists|perm: Seq<usize>| orders_listed(self.orders@, node_id@, after_timestamp, max_items, perm, r@),
    {
        let ghost p = |o: BatchOrderRow|
            o.owner_id@ == node_id@ && (after_timestamp matches Some(t) ==> o.created_ts > t);
        let mut m: Vec<BatchOrderRow> = Vec::new();
        let mut k: usize = 0;
        while k < self.orders.len()
            invariant
                0 <= k <= self.orders.len(),
                p == (|o: BatchOrderRow|
                    o.owner_id@ == node_id@ && (after_timestamp matches Some(t) ==> o.created_ts > t)),
                m@ == select_by(self.orders@.take(k as int), p),
            decreases self.orders.len() - k,
        {
            proof {
                assert(self.orders@.take(k + 1).drop_last() =~= self.orders@.take(k as int));
                assert(self.orders@.take(k + 1).last() == self.orders@[k as int]);
            }
            let o = &self.orders[k];
            let after = match after_timestamp {
                Some(t) => o.created_ts > t,
                None => true,
            };
            if text_eq(o.owner_id.as_str(), node_id) && after {
                m.push(o.duplicate());
            }
            k = k + 1;
        }
        proof {
            assert(self.orders@.take(k as int) =~= self.orders@);
        }
        let mut keys: Vec<i64> = Vec::new();
        let mut i: usize = 0;
        while i < m.len()
            invariant
                0 <= i <= m.len(),
                keys@ == order_created_times(m@).take(i as int),
            decreases m.len() - i,
        {
            keys.push(m[i].created_ts);
            proof {
                assert(order_created_times(m@).take(i + 1) =~= order_created_times(m@).take(i as int).push(
                    m@[i as int].created_ts,
                ));
            }
            i = i + 1;
        }
        proof {
            assert(order_created_times(m@).take(i as int) =~= order_created_times(m@));
        }
        let perm = order_by_key(&keys, true);
        let n: usize = match max_items {
            Some(max) => if (max as usize) < perm.len() {
                max as usize
            } else {
                perm.len()
            },
            None => perm.len(),
        };
        let ghost ordered = permuted(m@, perm@);
        proof {
            assert(limit(ordered, max_items) =~= ordered.take(n as int));
        }
        let mut r: Vec<BatchOrderRow> = Vec::new();
        let mut j: usize = 0;
        while j < n
            invariant
                0 <= j <= n,
                n <= perm@.len(),
                index_perm(perm@, m@.len()),
                ordered == permuted(m@, perm@),
                r@ == ordered.take(j as int),
            decreases n - j,
        {
            let pos = perm[j];
            r.push(m[pos].duplicate());
            proof {
                assert(ordered.take(j + 1) =~= ordered.take(j as int).push(m@[pos as int]));
            }
            j = j + 1;
        }
        proof {
            assert(orders_listed(self.orders@, node_id@, after_timestamp, max_items, perm@, r@));
        }
        r
    }

    /// The items of `owner_id`'s order `order_id` not yet handed to the driver, joined
    /// with the deposits of their allocations and with their order.
    pub fn get_unsent_batch_items(&self, allocations: &Vec<AllocationDepositRow>, owner_id: &str, order_id: &str) -> (r:
        Vec<BatchOrderItemFullInfo>)
        ensures
            r@ == unsent_joined(self.items@, allocations@, self.orders@, owner_id@, order_id@),
    {
        let mut r: Vec<BatchOrderItemFullInfo> = Vec::new();
        let mut k: usize = 0;
        while k < self.items.len()
            invariant
                0 <= k <= self.items.len(),
                r@ == unsent_joined(self.items@.take(k as int), allocations@, self.orders@, owner_id@, order_id@),
            decreases self.items.len() - k,
        {
            proof {
                assert(self.items@.take(k + 1).drop_last() =~= self.items@.take(k as int));
                assert(self.items@.take(k + 1).last() == self.items@[k as int]);
            }
            let it = &self.items[k];
            if text_eq(it.owner_id.as_str(), owner_id) && text_eq(it.order_id.as_str(), order_id)
                && it.payment_id.is_none() && !it.paid {
                let ghost before = r@;
                let mut a: usize = 0;
                while a < allocations.len()
                    invariant
                        0 <= a <= allocations.len(),
                        r@ == before + item_with_allocations(*it, allocations@, self.orders@, a as int),
                    decreases allocations.len() - a,
                {
                    let al = &allocations[a];
                    if text_eq(al.id.as_str(), it.allocation_id.as_str()) && text_eq(
                        al.owner_id.as_str(),
                        it.owner_id.as_str(),
                    ) {
                        let ghost mid = r@;
                        let mut o: usize = 0;
                        while o < self.orders.len()
                            invariant
                                0 <= o <= self.orders.len(),
                                r@ == mid + item_with_orders(*it, *al, self.orders@, o as int),
                            decreases self.orders.len() - o,
                        {
                            let ord = &self.orders[o];
                            if text_eq(ord.id.as_str(), it.order_id.as_str()) && text_eq(
                                ord.owner_id.as_str(),
                                it.owner_id.as_str(),
                            ) {
                                r.push(make_full_info(it, al, ord));
                                proof {
                                    assert(r@ =~= mid + item_with_orders(*it, *al, self.orders@, o + 1));
                                }
                            }
                            o = o + 1;
                        }
                        proof {
                            assert(r@ =~= before + item_with_allocations(*it, allocations@, self.orders@, a + 1));
                        }
                    }
                    a = a + 1;
                }
                proof {
                    assert(r@ =~= unsent_joined(self.items@.take(k + 1), allocations@, self.orders@, owner_id@, order_id@));
                }
            }
            k = k + 1;
        }
        proof {
            assert(self.items@.take(k as int) =~= self.items@);
        }
        r
    }

    /// The documents paid by `owner_id`'s items that pass the filter, with their order's
    /// times, newest order first (`perm` being that order; rows of orders created at the
    /// same time keep their joined order).
    pub fn get_batch_items(&self, owner_id: &str, filter: &BatchItemFilter) -> (r: Vec<AgreementBatchOrderItem>)
        ensures
            exists|perm: Seq<usize>| items_listed(self, owner_id@, *filter, perm, r@),
    {
        let mut m: Vec<AgreementBatchOrderItem> = Vec::new();
        let mut k: usize = 0;
        while k < self.items.len()
            invariant
                0 <= k <= self.items.len(),
                m@ == joined_items(self.orders@, self.items@.take(k as int), self.documents@, owner_id@, *filter),
            decreases self.items.len() - k,
        {
            proof {
                assert(self.items@.take(k + 1).drop_last() =~= self.items@.take(k as int));
                assert(self.items@.take(k + 1).last() == self.items@[k as int]);
            }
            let it = &self.items[k];
            if text_eq(it.owner_id.as_str(), owner_id) {
                let ghost before = m@;
                let mut o: usize = 0;
                while o < self.orders.len()
                    invariant
                        0 <= o <= self.orders.len(),
                        m@ == before + joined_for_item(self.orders@, *it, self.documents@, *filter, o as int),
                    decreases self.orders.len() - o,
                {
                    let ord = &self.orders[o];
                    let ghost mid = m@;
                    let mut d: usize = 0;
                    while d < self.documents.len()
                        invariant
                            0 <= d <= self.documents.len(),
                            m@ == mid + joined_docs(*ord, *it, self.documents@, *filter, d as int),
                        decreases self.documents.len() - d,
                    {
                        let doc = &self.documents[d];
                        if listed_exec(filter, ord, it, doc) {
                            m.push(make_listed(ord, doc));
                            proof {
                                assert(m@ =~= mid + joined_docs(*ord, *it, self.documents@, *filter, d + 1));
                            }
                        }
                        d = d + 1;
                    }
                    proof {
                        assert(m@ =~= before + joined_for_item(self.orders@, *it, self.documents@, *filter, o + 1));
                    }
                    o = o + 1;
                }
                proof {
                    assert(m@ =~= joined_items(self.orders@, self.items@.take(k + 1), self.documents@, owner_id@, *filter));
                }
            }
            k = k + 1;
        }
        proof {
            assert(self.items@.take(k as int) =~= self.items@);
        }
        let mut keys: Vec<i64> = Vec::new();
        let mut i: usize = 0;
        while i < m.len()
            invariant
                0 <= i <= m.len(),
                keys@ == created_times(m@).take(i as int),
            decreases m.len() - i,
        {
            keys.push(m[i].created_ts);
            proof {
                assert(created_times(m@).take(i + 1) =~= created_times(m@).take(i as int).push(
                    m@[i as int].created_ts,
                ));
            }
            i = i + 1;
        }
        proof {
            assert(created_times(m@).take(i as int) =~= created_times(m@));
        }
        let perm = order_by_key(&keys, true);
        let ghost ordered = permuted(m@, perm@);
        let mut r: Vec<AgreementBatchOrderItem> = Vec::new();
        let mut j: usize = 0;
        while j < perm.len()
            invariant
                0 <= j <= perm@.len(),
                index_perm(perm@, m@.len()),
                ordered == permuted(m@, perm@),
                r@ == ordered.take(j as int),
            decreases perm@.len() - j,
        {
            let pos = perm[j];
            r.push(duplicate_listed(&m[pos]));
            proof {
                assert(ordered.take(j + 1) =~= ordered.take(j as int).push(m@[pos as int]));
            }
            j = j + 1;
        }
        proof {
            assert(ordered.take(j as int) =~= ordered);
            assert(items_listed(self, owner_id@, *filter, perm@, r@));
        }
        r
    }

    /// How many items of the key are not paid yet.
    fn count_unpaid(&self, order_id: &str, owner_id: &str, payee_addr: &str, allocation_id: &str) -> (r: usize)
        ensures
            r == count_where(self.items@, |i: BatchOrderItemRow| unpaid_item(i, order_id@, owner_id@, payee_addr@, allocation_id@)),
    {
        let ghost p = |i: BatchOrderItemRow| unpaid_item(i, order_id@, owner_id@, payee_addr@, allocation_id@);
        let mut count: usize = 0;
        let mut k: usize = 0;
        while k < self.items.len()
            invariant
                0 <= k <= self.items.len(),
                p == (|i: BatchOrderItemRow| unpaid_item(i, order_id@, owner_id@, payee_addr@, allocation_id@)),
                count == count_where(self.items@.take(k as int), p),
                count <= k,
            decreases self.items.len() - k,
        {
            proof {
                assert(self.items@.take(k + 1).drop_last() =~= self.items@.take(k as int));
                assert(self.items@.take(k + 1).last() == self.items@[k as int]);
            }
            let it = &self.items[k];
            if text_eq(it.order_id.as_str(), order_id) && text_eq(it.owner_id.as_str(), owner_id) && text_eq(
                it.payee_addr.as_str(),
                payee_addr,
            ) && text_eq(it.allocation_id.as_str(), allocation_id) && !it.paid {
                count = count + 1;
            }
            k = k + 1;
        }
        proof {
            assert(self.items@.take(k as int) =~= self.items@);
        }
        count
    }

    /// The first item of the key, paid or not.
    fn find_item(&self, order_id: &str, owner_id: &str, payee_addr: &str, allocation_id: &str) -> (r: Option<usize>)
        ensures
            r matches Some(i) ==> i < self.items@.len() && first_where(
                self.items@,
                |i: BatchOrderItemRow| item_is(i, order_id@, owner_id@, payee_addr@, allocation_id@),
            ) == i,
            r is None ==> first_where(
                self.items@,
                |i: BatchOrderItemRow| item_is(i, order_id@, owner_id@, payee_addr@, allocation_id@),
            ) == -1,
    {
        let ghost p = |i: BatchOrderItemRow| item_is(i, order_id@, owner_id@, payee_addr@, allocation_id@);
        let mut k: usize = 0;
        while k < self.items.len()
            invariant
                0 <= k <= self.items.len(),
                p == (|i: BatchOrderItemRow| item_is(i, order_id@, owner_id@, payee_addr@, allocation_id@)),
                forall|j: int| 0 <= j < k ==> !p(#[trigger] self.items@[j]),
            decreases self.items.len() - k,
        {
            let it = &self.items[k];
            if text_eq(it.order_id.as_str(), order_id) && text_eq(it.owner_id.as_str(), owner_id) && text_eq(
                it.payee_addr.as_str(),
                payee_addr,
            ) && text_eq(it.allocation_id.as_str(), allocation_id) {
                proof {
                    lemma_first_where_at(self.items@, p, k as int);
                }
                return Some(k);
            }
            k = k + 1;
        }
        proof {
            lemma_first_where(self.items@, p);
            if first_where(self.items@, p) >= 0 {
                assert(!p(self.items@[first_where(self.items@, p)]));
            }
        }
        None
    }

    /// Records that the item of the key was paid at `now`: its order's paid amount grows
    /// by the item's amount. `Ok(false)` where no unpaid item of the key is left; refused,
    /// with nothing changed, where the order is missing or more than two items were unpaid.
    pub fn batch_order_item_paid(
        &mut self,
        order_id: &str,
        owner_id: &str,
        payee_addr: &str,
        allocation_id: &str,
        now: i64,
    ) -> (r: DbResult<bool>)
        requires
            forall|k: int| 0 <= k < old(self).orders@.len() ==> in_range(#[trigger] old(self).orders@[k].paid_amount as int),
            forall|k: int| 0 <= k < old(self).items@.len() ==> in_range(#[trigger] old(self).items@[k].amount as int),
        ensures
            item_paid_outcome(*old(self), *final(self), r, order_id@, owner_id@, payee_addr@, allocation_id@, now),
            final(self).documents == old(self).documents,
    {
        if find_order(&self.orders, order_id, None).is_none() {
            return Err(not_found_error());
        }
        let unpaid = self.count_unpaid(order_id, owner_id, payee_addr, allocation_id);
        if unpaid == 0 {
            return Ok(false);
        }
        if unpaid > 2 {
            return Err(DbError::Integrity("More than 1 rows updated".to_string()));
        }
        let kc = match find_order(&self.orders, order_id, Some(owner_id)) {
            Some(kc) => kc,
            None => {
                return Err(not_found_error());
            },
        };
        let ki = match self.find_item(order_id, owner_id, payee_addr, allocation_id) {
            Some(ki) => ki,
            None => {
                proof {
                    let p = |i: BatchOrderItemRow| unpaid_item(i, order_id@, owner_id@, payee_addr@, allocation_id@);
                    let q = |i: BatchOrderItemRow| item_is(i, order_id@, owner_id@, payee_addr@, allocation_id@);
                    lemma_first_where(self.items@, q);
                    crate::dao::invoice::lemma_select_by_holds(self.items@, p, 0);
                    crate::dao::invoice::lemma_select_by_member(self.items@, p, 0);
                }
                return Ok(false);
            },
        };
        let amount = self.items[ki].amount;
        let ghost old_items = self.items@;
        let mut k: usize = 0;
        while k < self.items.len()
            invariant
                0 <= k <= self.items.len(),
                self.items@.len() == old_items.len(),
                forall|j: int| k <= j < old_items.len() ==> self.items@[j] == old_items[j],
                forall|j: int|
                    0 <= j < k ==> #[trigger] self.items@[j] == paid_row(
                        old_items[j],
                        order_id@,
                        owner_id@,
                        payee_addr@,
                        allocation_id@,
                    ),
                self.orders == old(self).orders,
                self.documents == old(self).documents,
            decreases self.items.len() - k,
        {
            let hit = {
                let it = &self.items[k];
                text_eq(it.order_id.as_str(), order_id) && text_eq(it.owner_id.as_str(), owner_id) && text_eq(
                    it.payee_addr.as_str(),
                    payee_addr,
                ) && text_eq(it.allocation_id.as_str(), allocation_id) && !it.paid
            };
            if hit {
                let mut row = self.items[k].duplicate();
                row.paid = true;
                self.items.set(k, row);
            }
            k = k + 1;
        }
        let mut order = self.orders[kc].duplicate();
        order.paid_amount = order.paid_amount + amount;
        order.updated_ts = now;
        self.orders.set(kc, order);
        Ok(true)
    }

    /// Records that the items of the key were handed to the driver as payment
    /// `payment_id`; gives back how many were.
    pub fn batch_order_item_send(
        &mut self,
        order_id: &str,
        owner_id: &str,
        payee_addr: &str,
        allocation_id: &str,
        payment_id: String,
    ) -> (r: usize)
        ensures
            items_sent(
                old(self).items@,
                final(self).items@,
                order_id@,
                owner_id@,
                payee_addr@,
                allocation_id@,
                payment_id,
            ),
            r == count_where(
                old(self).items@,
                |i: BatchOrderItemRow| item_is(i, order_id@, owner_id@, payee_addr@, allocation_id@),
            ),
            final(self).orders == old(self).orders,
            final(self).documents == old(self).documents,
    {
        let ghost p = |i: BatchOrderItemRow| item_is(i, order_id@, owner_id@, payee_addr@, allocation_id@);
        let ghost old_items = self.items@;
        let mut count: usize = 0;
        let mut k: usize = 0;
        while k < self.items.len()
            invariant
                0 <= k <= self.items.len(),
                self.items@.len() == old_items.len(),
                p == (|i: BatchOrderItemRow| item_is(i, order_id@, owner_id@, payee_addr@, allocation_id@)),
                count == count_where(old_items.take(k as int), p),
                count <= k,
                forall|j: int| k <= j < old_items.len() ==> self.items@[j] == old_items[j],
                forall|j: int|
                    0 <= j < k ==> #[trigger] self.items@[j] == if p(old_items[j]) {
                        BatchOrderItemRow { payment_id: Some(payment_id), ..old_items[j] }
                    } else {
                        old_items[j]
                    },
                self.orders == old(self).orders,
                self.documents == old(self).documents,
                old_items == old(self).items@,
            decreases self.items.len() - k,
        {
            proof {
                assert(old_items.take(k + 1).drop_last() =~= old_items.take(k as int));
                assert(old_items.take(k + 1).last() == old_items[k as int]);
            }
            let hit = {
                let it = &self.items[k];
                text_eq(it.order_id.as_str(), order_id) && text_eq(it.owner_id.as_str(), owner_id) && text_eq(
                    it.payee_addr.as_str(),
                    payee_addr,
                ) && text_eq(it.allocation_id.as_str(), allocation_id)
            };
            if hit {
                let mut row = self.items[k].duplicate();
                row.payment_id = Some(payment_id.clone());
                self.items.set(k, row);
                count = count + 1;
            }
            k = k + 1;
        }
        proof {
            assert(old_items.take(k as int) =~= old_items);
        }
        count
    }
}

/// Whether some invoice on the requestor's side names agreement `agreement_id` of `owner`.
pub open spec fn requestor_invoiced(l: &crate::ledger::Ledger, agreement_id: Seq<char>, owner: Seq<char>) -> bool {
    exists|k: int|
        0 <= k < l.invoices@.len() && (#[trigger] l.invoices@[k]).agreement_id@ == agreement_id
            && l.invoices@[k].owner_id@ == owner && l.invoices@[k].role == crate::status::Role::Requestor
}

/// Whether activity `a` is one whose debit notes are still to be scheduled: the owner's,
/// on the requestor's side, of an agreement of the same side on `platform` updated after
/// `since` and not invoiced, with an accepted amount above zero and above what is scheduled.
pub open spec fn debit_note_activity(
    l: &crate::ledger::Ledger,
    a: crate::ledger::ActivityRow,
    owner: Seq<char>,
    platform: Seq<char>,
    since: i64,
) -> bool {
    &&& a.role == crate::status::Role::Requestor
    &&& a.owner_id@ == owner
    &&& has_agreement(l, a.agreement_id@, a.owner_id@)
    &&& l.agreement(a.agreement_id@, a.owner_id@).role == a.role
    &&& l.agreement(a.agreement_id@, a.owner_id@).updated_ts > since
    &&& l.agreement(a.agreement_id@, a.owner_id@).payment_platform@ == platform
    &&& a.total_amount_accepted > 0
    &&& a.total_amount_scheduled < a.total_amount_accepted
    &&& !requestor_invoiced(l, a.agreement_id@, a.owner_id@)
}

pub open spec fn has_agreement(l: &crate::ledger::Ledger, id: Seq<char>, owner: Seq<char>) -> bool {
    crate::ledger::has_key(l.agreements@, id, owner)
}

pub open spec fn activity_triple(a: crate::ledger::ActivityRow) -> (String, i128, i128) {
    (a.id, a.total_amount_accepted, a.total_amount_scheduled)
}

fn requestor_invoiced_exec(l: &crate::ledger::Ledger, agreement_id: &str, owner: &str) -> (r: bool)
    ensures
        r == requestor_invoiced(l, agreement_id@, owner@),
{
    let mut k: usize = 0;
    while k < l.invoices.len()
        invariant
            0 <= k <= l.invoices.len(),
            forall|j: int|
                0 <= j < k ==> !((#[trigger] l.invoices@[j]).agreement_id@ == agreement_id@ && l.invoices@[j].owner_id@
                    == owner@ && l.invoices@[j].role == crate::status::Role::Requestor),
        decreases l.invoices.len() - k,
    {
        let inv = &l.invoices[k];
        if text_eq(inv.agreement_id.as_str(), agreement_id) && text_eq(inv.owner_id.as_str(), owner) && inv.role
            == crate::status::Role::Requestor {
            return true;
        }
        k = k + 1;
    }
    false
}

impl BatchDao {
    /// The activities of `owner_id` whose accepted debit notes still have something to be
    /// scheduled on `payment_platform` (see `debit_note_activity`), with their accepted and
    /// scheduled amounts, in stored order.
    pub fn list_debit_notes(
        &self,
        ledger: &crate::ledger::Ledger,
        owner_id: &str,
        payment_platform: &str,
        since: i64,
    ) -> (r: Vec<(String, i128, i128)>)
        requires
            ledger.wf(),
        ensures
            r@ == select_by(
                ledger.activities@,
                |a: crate::ledger::ActivityRow| debit_note_activity(ledger, a, owner_id@, payment_platform@, since),
            ).map_values(|a: crate::ledger::ActivityRow| activity_triple(a)),
    {
        let ghost p = |a: crate::ledger::ActivityRow| debit_note_activity(ledger, a, owner_id@, payment_platform@, since);
        let ghost f = |a: crate::ledger::ActivityRow| activity_triple(a);
        let mut r: Vec<(String, i128, i128)> = Vec::new();
        let mut k: usize = 0;
        while k < ledger.activities.len()
            invariant
                0 <= k <= ledger.activities.len(),
                ledger.wf(),
                p == (|a: crate::ledger::ActivityRow| debit_note_activity(ledger, a, owner_id@, payment_platform@, since)),
                f == (|a: crate::ledger::ActivityRow| activity_triple(a)),
                r@ == select_by(ledger.activities@.take(k as int), p).map_values(f),
            decreases ledger.activities.len() - k,
        {
            let ghost s = ledger.activities@;
            proof {
                assert(s.take(k + 1).drop_last() =~= s.take(k as int));
                assert(s.take(k + 1).last() == s[k as int]);
            }
            let a = &ledger.activities[k];
            let mut hit = a.role == crate::status::Role::Requestor && text_eq(a.owner_id.as_str(), owner_id)
                && a.total_amount_accepted > 0 && a.total_amount_scheduled < a.total_amount_accepted;
            if hit {
                match crate::dao::agreement::locate(ledger, a.agreement_id.as_str(), a.owner_id.as_str()) {
                    Some(g) => {
                        let ag = &ledger.agreements[g];
                        hit = ag.role == a.role && ag.updated_ts > since && text_eq(
                            ag.payment_platform.as_str(),
                            payment_platform,
                        ) && !requestor_invoiced_exec(ledger, a.agreement_id.as_str(), a.owner_id.as_str());
                    },
                    None => {
                        hit = false;
                    },
                }
            }
            if hit {
                let ghost before = r@;
                r.push((a.id.clone(), a.total_amount_accepted, a.total_amount_scheduled));
                proof {
                    let sel0 = select_by(s.take(k as int), p);
                    assert(select_by(s.take(k + 1), p) == sel0.push(s[k as int]));
                    assert(sel0.push(s[k as int]).map_values(f) =~= sel0.map_values(f).push(f(s[k as int])));
                }
            }
            k = k + 1;
        }
        proof {
            assert(ledger.activities@.take(k as int) =~= ledger.activities@);
        }
        r
    }
}


/// What recording the payment of the item of a key does to the batch orders `o`, giving
/// `n` and the answer `r`.
pub open spec fn item_paid_outcome(
    o: BatchDao,
    n: BatchDao,
    r: DbResult<bool>,
    order_id: Seq<char>,
    owner_id: Seq<char>,
    payee_addr: Seq<char>,
    allocation_id: Seq<char>,
    now: i64,
) -> bool {
    let any_order = first_where(o.orders@, |x: BatchOrderRow| order_is(x, order_id, None));
    let unpaid = count_where(
        o.items@,
        |i: BatchOrderItemRow| unpaid_item(i, order_id, owner_id, payee_addr, allocation_id),
    );
    let own_order = first_where(
        o.orders@,
        |x: BatchOrderRow| order_is(x, order_id, Some(owner_id)),
    );
    let item = first_where(
        o.items@,
        |i: BatchOrderItemRow| item_is(i, order_id, owner_id, payee_addr, allocation_id),
    );
    if any_order == -1 {
        r matches Err(e) && is_not_found(e) && n.orders == o.orders && n.items == o.items
    } else if unpaid == 0 {
        r == Ok::<bool, DbError>(false) && n.orders == o.orders && n.items == o.items
    } else if unpaid > 2 {
        r matches Err(DbError::Integrity(m)) && m@ == "More than 1 rows updated"@ && n.orders
            == o.orders && n.items == o.items
    } else if own_order == -1 {
        r matches Err(e) && is_not_found(e) && n.orders == o.orders && n.items == o.items
    } else {
        &&& r == Ok::<bool, DbError>(true)
        &&& items_paid(o.items@, n.items@, order_id, owner_id, payee_addr, allocation_id)
        &&& n.orders@ == o.orders@.update(
            own_order,
            BatchOrderRow {
                paid_amount: (o.orders@[own_order].paid_amount + o.items@[item].amount) as i128,
                updated_ts: now,
                ..o.orders@[own_order]
            },
        )
    }
}

/// Confirming a payment marks every unpaid item of its key paid, so a second
/// confirmation of the same payment finds no unpaid item of the key, and answers `false`.
pub proof fn law_paid_items_stay_paid(
    old: Seq<BatchOrderItemRow>,
    new: Seq<BatchOrderItemRow>,
    order_id: Seq<char>,
    owner: Seq<char>,
    payee_addr: Seq<char>,
    allocation_id: Seq<char>,
)
    requires
        items_paid(old, new, order_id, owner, payee_addr, allocation_id),
    ensures
        count_where(
            new,
            |i: BatchOrderItemRow| unpaid_item(i, order_id, owner, payee_addr, allocation_id),
        ) == 0,
{
    let p = |i: BatchOrderItemRow| unpaid_item(i, order_id, owner, payee_addr, allocation_id);
    if select_by(new, p).len() > 0 {
        lemma_select_by_holds(new, p, 0);
        lemma_select_by_member(new, p, 0);
        let j = choose|j: int| 0 <= j < new.len() && new[j] == select_by(new, p)[0];
        assert(new[j] == paid_row(old[j], order_id, owner, payee_addr, allocation_id));
    }
}


/// An item's amount is added to its order once (`BatchDao::batch_order_item_paid`): after a
/// recording that answered `true`, which added the item's amount to the order's paid
/// amount, recording the same item again answers `false` and changes no order and no item,
/// so the order's paid amount stays the first amount plus the item's, once.
pub proof fn law_item_paid_once(
    s0: BatchDao,
    s1: BatchDao,
    s2: BatchDao,
    r1: DbResult<bool>,
    r2: DbResult<bool>,
    order_id: Seq<char>,
    owner_id: Seq<char>,
    payee_addr: Seq<char>,
    allocation_id: Seq<char>,
    t1: i64,
    t2: i64,
)
    requires
        item_paid_outcome(s0, s1, r1, order_id, owner_id, payee_addr, allocation_id, t1),
        r1 == Ok::<bool, DbError>(true),
        item_paid_outcome(s1, s2, r2, order_id, owner_id, payee_addr, allocation_id, t2),
    ensures
        r2 == Ok::<bool, DbError>(false),
        s2.orders == s1.orders,
        s2.items == s1.items,
        ({
            let k = first_where(s0.orders@, |x: BatchOrderRow| order_is(x, order_id, Some(owner_id)));
            let it = first_where(
                s0.items@,
                |i: BatchOrderItemRow| item_is(i, order_id, owner_id, payee_addr, allocation_id),
            );
            &&& 0 <= k < s2.orders@.len()
            &&& s2.orders@[k].paid_amount == (s0.orders@[k].paid_amount + s0.items@[it].amount) as i128
        }),
{
    let any = |x: BatchOrderRow| order_is(x, order_id, None);
    let own = |x: BatchOrderRow| order_is(x, order_id, Some(owner_id));
    let k = first_where(s0.orders@, own);
    lemma_first_where(s0.orders@, own);
    lemma_first_where(s0.orders@, any);
    lemma_first_where(s1.orders@, any);
    assert(s1.orders@[k].id@ == order_id);
    assert(any(s1.orders@[k]));
    law_paid_items_stay_paid(s0.items@, s1.items@, order_id, owner_id, payee_addr, allocation_id);
}

} // verus!
