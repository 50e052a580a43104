//! Sending a batch order: items paid from a deposit go one by one; the others are grouped
//! into one payment per payer, payee and platform.
use vstd::prelude::*;
use crate::dao::batch_order::{item_is, BatchDao, BatchOrderItemRow};
use crate::ledger::in_range;
use crate::text::text_eq;

verus! {

/// What groups the items of a batch order paid in one transfer.
#[derive(Debug)]
pub struct BatchOrderItemKey {
    pub order_id: String,
    pub platform: String,
    pub owner_id: String,
    pub payer_addr: String,
    pub payee_addr: String,
}

/// An item of a batch order not yet sent, with the deposit it is paid from as JSON text,
/// where there is one.
#[derive(Debug)]
pub struct BatchOrderItemFullInfo {
    pub order_id: String,
    pub owner_id: String,
    pub payer_addr: String,
    pub payee_addr: String,
    pub platform: String,
    pub allocation_id: String,
    pub amount: i128,
    pub deposit: Option<String>,
}

/// Item `a` belongs to the group of `key`.
pub open spec fn has_key(a: BatchOrderItemFullInfo, key: BatchOrderItemKey) -> bool {
    &&& a.deposit is None
    &&& a.order_id@ == key.order_id@
    &&& a.platform@ == key.platform@
    &&& a.owner_id@ == key.owner_id@
    &&& a.payer_addr@ == key.payer_addr@
    &&& a.payee_addr@ == key.payee_addr@
}

pub open spec fn same_key(a: BatchOrderItemKey, b: BatchOrderItemKey) -> bool {
    &&& a.order_id@ == b.order_id@
    &&& a.platform@ == b.platform@
    &&& a.owner_id@ == b.owner_id@
    &&& a.payer_addr@ == b.payer_addr@
    &&& a.payee_addr@ == b.payee_addr@
}

/// The positions below `k` of the items in the group of `key`, in order.
pub open spec fn group_positions(items: Seq<BatchOrderItemFullInfo>, k: int, key: BatchOrderItemKey) -> Seq<usize>
    decreases k,
{
    if k <= 0 {
        Seq::empty()
    } else {
        let rest = group_positions(items, k - 1, key);
        if has_key(items[k - 1], key) {
            rest.push((k - 1) as usize)
        } else {
            rest
        }
    }
}

/// The sum of the amounts of the items at `pos`.
pub open spec fn amount_at(items: Seq<BatchOrderItemFullInfo>, pos: Seq<usize>) -> int
    decreases pos.len(),
{
    if pos.len() == 0 {
        0
    } else {
        amount_at(items, pos.drop_last()) + items[pos.last() as int].amount
    }
}

/// The positions below `k` of the items paid from a deposit, in order.
pub open spec fn deposit_positions(items: Seq<BatchOrderItemFullInfo>, k: int) -> Seq<usize>
    decreases k,
{
    if k <= 0 {
        Seq::empty()
    } else {
        let rest = deposit_positions(items, k - 1);
        if items[k - 1].deposit is Some {
            rest.push((k - 1) as usize)
        } else {
            rest
        }
    }
}

/// One transfer: the items of one key and what they add up to.
#[derive(Debug)]
pub struct PaymentGroup {
    pub key: BatchOrderItemKey,
    pub amount: i128,
    pub items: Vec<usize>,
}

/// How a batch order is sent: the positions of the items paid from deposits, one by one,
/// and the groups of the others.
#[derive(Debug)]
pub struct BatchSendPlan {
    pub deposit_items: Vec<usize>,
    pub groups: Vec<PaymentGroup>,
}

/// `groups` describe the items below `k`: no two share a key, each holds the positions and
/// the total of its key's items, and every item not paid from a deposit is in one.
pub open spec fn groups_cover(items: Seq<BatchOrderItemFullInfo>, k: int, groups: Seq<PaymentGroup>) -> bool {
    &&& forall|a: int, b: int|
        0 <= a < b < groups.len() ==> !same_key(#[trigger] groups[a].key, #[trigger] groups[b].key)
    &&& forall|g: int|
        0 <= g < groups.len() ==> (#[trigger] groups[g]).items@ == group_positions(items, k, groups[g].key)
            && groups[g].amount == amount_at(items, groups[g].items@) && groups[g].items@.len() > 0
    &&& forall|i: int|
        0 <= i < k && items[i].deposit is None ==> exists|g: int|
            0 <= g < groups.len() && has_key(#[trigger] items[i], groups[g].key)
}

proof fn lemma_group_positions_step(items: Seq<BatchOrderItemFullInfo>, k: int, key: BatchOrderItemKey)
    requires
        0 <= k,
    ensures
        group_positions(items, k + 1, key) == if has_key(items[k], key) {
            group_positions(items, k, key).push(k as usize)
        } else {
            group_positions(items, k, key)
        },
{
}

/// Amounts of the items not paid from deposits: none negative, and their sum in range.
pub open spec fn amounts_bounded(items: Seq<BatchOrderItemFullInfo>) -> bool {
    &&& forall|i: int| 0 <= i < items.len() ==> (#[trigger] items[i]).amount >= 0
    &&& in_range(amount_at(items, group_positions_all(items, items.len() as int)))
}

/// The positions below `k` of the items not paid from deposits.
pub open spec fn group_positions_all(items: Seq<BatchOrderItemFullInfo>, k: int) -> Seq<usize>
    decreases k,
{
    if k <= 0 {
        Seq::empty()
    } else {
        let rest = group_positions_all(items, k - 1);
        if items[k - 1].deposit is None {
            rest.push((k - 1) as usize)
        } else {
            rest
        }
    }
}

fn key_matches(a: &BatchOrderItemFullInfo, key: &BatchOrderItemKey) -> (r: bool)
    ensures
        r == (a.order_id@ == key.order_id@ && a.platform@ == key.platform@ && a.owner_id@ == key.owner_id@
            && a.payer_addr@ == key.payer_addr@ && a.payee_addr@ == key.payee_addr@),
{
    text_eq(a.order_id.as_str(), key.order_id.as_str()) && text_eq(a.platform.as_str(), key.platform.as_str())
        && text_eq(a.owner_id.as_str(), key.owner_id.as_str()) && text_eq(
        a.payer_addr.as_str(),
        key.payer_addr.as_str(),
    ) && text_eq(a.payee_addr.as_str(), key.payee_addr.as_str())
}

} // verus!

verus! {

pub open spec fn group_amount(g: PaymentGroup) -> int {
    g.amount as int
}

proof fn lemma_all_positions_mono(items: Seq<BatchOrderItemFullInfo>, k: int)
    requires
        0 <= k <= items.len(),
        forall|i: int| 0 <= i < items.len() ==> (#[trigger] items[i]).amount >= 0,
    ensures
        0 <= amount_at(items, group_positions_all(items, k)) <= amount_at(
            items,
            group_positions_all(items, items.len() as int),
        ),
    decreases items.len() - k,
{
    if k < items.len() {
        lemma_all_positions_mono(items, k + 1);
        let p = group_positions_all(items, k);
        if items[k].deposit is None {
            assert(group_positions_all(items, k + 1) == p.push(k as usize));
            assert(p.push(k as usize).drop_last() =~= p);
        }
    }
    lemma_all_positions_bounded(items, k);
    lemma_amount_at_nonneg(items, group_positions_all(items, k));
}

proof fn lemma_amount_at_nonneg(items: Seq<BatchOrderItemFullInfo>, pos: Seq<usize>)
    requires
        forall|i: int| 0 <= i < items.len() ==> (#[trigger] items[i]).amount >= 0,
        forall|i: int| 0 <= i < pos.len() ==> (#[trigger] pos[i]) < items.len(),
    ensures
        amount_at(items, pos) >= 0,
    decreases pos.len(),
{
    if pos.len() > 0 {
        lemma_amount_at_nonneg(items, pos.drop_last());
        assert(items[pos.last() as int].amount >= 0);
    }
}

proof fn lemma_group_positions_bounded(items: Seq<BatchOrderItemFullInfo>, k: int, key: BatchOrderItemKey)
    requires
        0 <= k <= items.len(),
    ensures
        forall|i: int| 0 <= i < group_positions(items, k, key).len() ==> (#[trigger] group_positions(items, k, key)[i]) < k,
    decreases k,
{
    if k > 0 {
        lemma_group_positions_bounded(items, k - 1, key);
        let rest = group_positions(items, k - 1, key);
        assert forall|i: int| 0 <= i < group_positions(items, k, key).len() implies (#[trigger] group_positions(items, k, key)[i]) < k by {
            if i < rest.len() {
                assert(group_positions(items, k, key)[i] == rest[i]);
            }
        }
    }
}

proof fn lemma_all_positions_bounded(items: Seq<BatchOrderItemFullInfo>, k: int)
    requires
        0 <= k <= items.len(),
    ensures
        forall|i: int| 0 <= i < group_positions_all(items, k).len() ==> (#[trigger] group_positions_all(items, k)[i]) < k,
    decreases k,
{
    if k > 0 {
        lemma_all_positions_bounded(items, k - 1);
        let rest = group_positions_all(items, k - 1);
        assert forall|i: int| 0 <= i < group_positions_all(items, k).len() implies (#[trigger] group_positions_all(items, k)[i]) < k by {
            if i < rest.len() {
                assert(group_positions_all(items, k)[i] == rest[i]);
            }
        }
    }
}

fn clone_key(k: &BatchOrderItemKey) -> (r: BatchOrderItemKey)
    ensures
        r == *k,
{
    BatchOrderItemKey {
        order_id: k.order_id.clone(),
        platform: k.platform.clone(),
        owner_id: k.owner_id.clone(),
        payer_addr: k.payer_addr.clone(),
        payee_addr: k.payee_addr.clone(),
    }
}

fn clone_indices(v: &Vec<usize>) -> (r: Vec<usize>)
    ensures
        r@ == v@,
{
    let mut r: Vec<usize> = Vec::new();
    let mut i: usize = 0;
    while i < v.len()
        invariant
            0 <= i <= v.len(),
            r@ == v@.take(i as int),
        decreases v.len() - i,
    {
        r.push(v[i]);
        proof {
            assert(v@.take(i + 1) =~= v@.take(i as int).push(v@[i as int]));
        }
        i = i + 1;
    }
    proof {
        assert(v@.take(i as int) =~= v@);
    }
    r
}

fn find_group(groups: &Vec<PaymentGroup>, item: &BatchOrderItemFullInfo) -> (r: Option<usize>)
    requires
        item.deposit is None,
    ensures
        r matches Some(g) ==> g < groups@.len() && has_key(*item, groups@[g as int].key),
        r is None ==> forall|t: int| 0 <= t < groups@.len() ==> !has_key(*item, #[trigger] groups@[t].key),
{
    let mut g: usize = 0;
    while g < groups.len()
        invariant
            0 <= g <= groups@.len(),
            item.deposit is None,
            forall|t: int| 0 <= t < g ==> !has_key(*item, #[trigger] groups@[t].key),
        decreases groups@.len() - g,
    {
        if key_matches(item, &groups[g].key) {
            return Some(g);
        }
        g = g + 1;
    }
    None
}

/// Plans the sending of a batch order's items: those paid from a deposit in their order,
/// the others grouped by order, platform, owner, payer and payee, each group with the sum
/// of its items' amounts. The groups come in the order their keys first occur.
pub fn plan_batch_payments(items: &Vec<BatchOrderItemFullInfo>) -> (r: BatchSendPlan)
    requires
        amounts_bounded(items@),
    ensures
        r.deposit_items@ == deposit_positions(items@, items@.len() as int),
        groups_cover(items@, items@.len() as int, r.groups@),
        crate::sums::seq_sum(r.groups@, |g: PaymentGroup| group_amount(g)) == amount_at(
            items@,
            group_positions_all(items@, items@.len() as int),
        ),
{
    let n = items.len();
    let mut deposits: Vec<usize> = Vec::new();
    let mut groups: Vec<PaymentGroup> = Vec::new();
    let mut k: usize = 0;
    proof {
        lemma_all_positions_mono(items@, 0);
    }
    while k < n
        invariant
            n == items@.len(),
            0 <= k <= n,
            amounts_bounded(items@),
            deposits@ == deposit_positions(items@, k as int),
            groups_cover(items@, k as int, groups@),
            crate::sums::seq_sum(groups@, |g: PaymentGroup| group_amount(g)) == amount_at(
                items@,
                group_positions_all(items@, k as int),
            ),
            forall|g: int| 0 <= g < groups@.len() ==> (#[trigger] groups@[g]).amount >= 0,
        decreases n - k,
    {
        let ghost f = |g: PaymentGroup| group_amount(g);
        let ghost old_groups = groups@;
        proof {
            lemma_all_positions_mono(items@, k as int);
            lemma_all_positions_mono(items@, k + 1);
        }
        let item = &items[k];
        if item.deposit.is_some() {
            deposits.push(k);
            proof {
                assert forall|g: int| 0 <= g < groups@.len() implies (#[trigger] groups@[g]).items@
                    == group_positions(items@, k + 1, groups@[g].key) && groups@[g].amount == amount_at(
                    items@,
                    groups@[g].items@,
                ) && groups@[g].items@.len() > 0 by {
                    lemma_group_positions_step(items@, k as int, groups@[g].key);
                }
                assert(group_positions_all(items@, k + 1) == group_positions_all(items@, k as int));
            }
        } else {
            let found = find_group(&groups, item);
            let ghost total_k = amount_at(items@, group_positions_all(items@, k as int));
            proof {
                assert(group_positions_all(items@, k + 1) == group_positions_all(items@, k as int).push(k as usize));
                assert(group_positions_all(items@, k as int).push(k as usize).drop_last() =~= group_positions_all(items@, k as int));
            }
            match found {
                Some(gi) => {
                    proof {
                        crate::sums::lemma_seq_sum_elem_le(old_groups, gi as int, f);
                    }
                    let mut idx = clone_indices(&groups[gi].items);
                    idx.push(k);
                    let new_amount = groups[gi].amount + item.amount;
                    let grp = PaymentGroup { key: clone_key(&groups[gi].key), amount: new_amount, items: idx };
                    groups.set(gi, grp);
                    proof {
                        crate::sums::lemma_seq_sum_update(old_groups, gi as int, grp, f);
                        lemma_group_positions_bounded(items@, k as int, old_groups[gi as int].key);
                        assert forall|a: int, b: int|
                            0 <= a < b < groups@.len() implies !same_key(#[trigger] groups@[a].key, #[trigger] groups@[b].key) by {
                            assert(groups@[a].key == old_groups[a].key);
                            assert(groups@[b].key == old_groups[b].key);
                        }
                        assert forall|t: int| 0 <= t < groups@.len() implies (#[trigger] groups@[t]).items@
                            == group_positions(items@, k + 1, groups@[t].key) && groups@[t].amount == amount_at(
                            items@,
                            groups@[t].items@,
                        ) && groups@[t].items@.len() > 0 by {
                            lemma_group_positions_step(items@, k as int, groups@[t].key);
                            if t == gi as int {
                                assert(groups@[t].items@.drop_last() =~= old_groups[t].items@);
                            } else {
                                if has_key(items@[k as int], old_groups[t].key) {
                                    assert(same_key(old_groups[t].key, old_groups[gi as int].key));
                                    if t < gi as int {
                                        assert(!same_key(old_groups[t].key, old_groups[gi as int].key));
                                    } else {
                                        assert(!same_key(old_groups[gi as int].key, old_groups[t].key));
                                    }
                                }
                            }
                        }
                        assert forall|i: int| 0 <= i < k + 1 && items@[i].deposit is None implies exists|t: int|
                            0 <= t < groups@.len() && has_key(#[trigger] items@[i], groups@[t].key) by {
                            if i < k {
                                let t = choose|t: int| 0 <= t < old_groups.len() && has_key(items@[i], old_groups[t].key);
                                assert(groups@[t].key == old_groups[t].key);
                            } else {
                                assert(has_key(items@[i], groups@[gi as int].key));
                            }
                        }
                    }
                },
                None => {
                    let key = BatchOrderItemKey {
                        order_id: item.order_id.clone(),
                        platform: item.platform.clone(),
                        owner_id: item.owner_id.clone(),
                        payer_addr: item.payer_addr.clone(),
                        payee_addr: item.payee_addr.clone(),
                    };
                    let mut idx: Vec<usize> = Vec::new();
                    idx.push(k);
                    let grp = PaymentGroup { key, amount: item.amount, items: idx };
                    groups.push(grp);
                    proof {
                        crate::sums::lemma_seq_sum_push(old_groups, grp, f);
                        lemma_group_positions_bounded(items@, k as int, grp.key);
                        assert(has_key(items@[k as int], grp.key));
                        assert forall|a: int, b: int|
                            0 <= a < b < groups@.len() implies !same_key(#[trigger] groups@[a].key, #[trigger] groups@[b].key) by {
                            if b == old_groups.len() as int {
                                if same_key(groups@[a].key, groups@[b].key) {
                                    assert(has_key(items@[k as int], old_groups[a].key));
                                }
                            } else {
                                assert(groups@[a].key == old_groups[a].key);
                                assert(groups@[b].key == old_groups[b].key);
                            }
                        }
                        assert(group_positions(items@, k as int, grp.key) =~= Seq::<usize>::empty()) by {
                            lemma_no_earlier_positions(items@, k as int, grp.key, old_groups);
                        }
                        assert forall|t: int| 0 <= t < groups@.len() implies (#[trigger] groups@[t]).items@
                            == group_positions(items@, k + 1, groups@[t].key) && groups@[t].amount == amount_at(
                            items@,
                            groups@[t].items@,
                        ) && groups@[t].items@.len() > 0 by {
                            lemma_group_positions_step(items@, k as int, groups@[t].key);
                            if t == old_groups.len() as int {
                                assert(groups@[t] == grp);
                                assert(grp.items@ =~= seq![k as usize]);
                                assert(seq![k as usize].drop_last() =~= Seq::<usize>::empty());
                                assert(Seq::<usize>::empty().push(k as usize) =~= seq![k as usize]);
                                assert(group_positions(items@, k + 1, grp.key) =~= seq![k as usize]);
                                assert(amount_at(items@, seq![k as usize]) == amount_at(items@, Seq::<usize>::empty()) + items@[k as int].amount);
                            } else {
                                assert(groups@[t] == old_groups[t]);
                            }
                        }
                        assert forall|i: int| 0 <= i < k + 1 && items@[i].deposit is None implies exists|t: int|
                            0 <= t < groups@.len() && has_key(#[trigger] items@[i], groups@[t].key) by {
                            if i < k {
                                let t = choose|t: int| 0 <= t < old_groups.len() && has_key(items@[i], old_groups[t].key);
                                assert(groups@[t] == old_groups[t]);
                            } else {
                                assert(has_key(items@[i], groups@[old_groups.len() as int].key));
                            }
                        }
                    }
                },
            }
        }
        k = k + 1;
    }
    BatchSendPlan { deposit_items: deposits, groups }
}

/// Where no group has the key of item `k`, no item before it has that key.
proof fn lemma_no_earlier_positions(
    items: Seq<BatchOrderItemFullInfo>,
    k: int,
    key: BatchOrderItemKey,
    groups: Seq<PaymentGroup>,
)
    requires
        0 <= k < items.len(),
        groups_cover(items, k, groups),
        forall|t: int| 0 <= t < groups.len() ==> !has_key(items[k], #[trigger] groups[t].key),
        has_key(items[k], key),
    ensures
        group_positions(items, k, key) =~= Seq::<usize>::empty(),
{
    assert forall|i: int| 0 <= i < k implies !has_key(#[trigger] items[i], key) by {
        if has_key(items[i], key) {
            let t = choose|t: int| 0 <= t < groups.len() && has_key(items[i], groups[t].key);
            assert(has_key(items[k], groups[t].key));
        }
    }
    lemma_positions_empty(items, k, key);
}

proof fn lemma_positions_empty(items: Seq<BatchOrderItemFullInfo>, k: int, key: BatchOrderItemKey)
    requires
        0 <= k <= items.len(),
        forall|i: int| 0 <= i < k ==> !has_key(#[trigger] items[i], key),
    ensures
        group_positions(items, k, key) =~= Seq::<usize>::empty(),
    decreases k,
{
    if k > 0 {
        lemma_positions_empty(items, k - 1, key);
    }
}


/// Whether stored item `i` is one that a payment of the items at `positions` of `items`,
/// written for order `order_id` of `owner` to `payee_addr`, covers: it is an item of the
/// order, owner and payee with the allocation of one of those items.
pub open spec fn covered_by_payment(
    i: BatchOrderItemRow,
    items: Seq<BatchOrderItemFullInfo>,
    positions: Seq<usize>,
    order_id: Seq<char>,
    owner: Seq<char>,
    payee_addr: Seq<char>,
) -> bool {
    exists|t: int|
        0 <= t < positions.len() && item_is(i, order_id, owner, payee_addr, #[trigger] items[positions[t] as int].allocation_id@)
}

/// `new` is `old` with the payment `payment_id` written to every item that it covers.
pub open spec fn payment_written(
    old: Seq<BatchOrderItemRow>,
    new: Seq<BatchOrderItemRow>,
    items: Seq<BatchOrderItemFullInfo>,
    positions: Seq<usize>,
    order_id: Seq<char>,
    owner: Seq<char>,
    payee_addr: Seq<char>,
    payment_id: String,
) -> bool {
    &&& new.len() == old.len()
    &&& forall|k: int|
        0 <= k < old.len() ==> #[trigger] new[k] == if covered_by_payment(old[k], items, positions, order_id, owner, payee_addr) {
            BatchOrderItemRow { payment_id: Some(payment_id), ..old[k] }
        } else {
            old[k]
        }
}

/// Records that the driver scheduled payment `payment_id` for the items at `positions` of
/// `items` (a group of the plan, or one item paid from a deposit): each of them is marked
/// sent as that payment (`BatchDao::batch_order_item_send` for order `order_id` of
/// `owner_id`, to `payee_addr`, with the item's allocation).
pub fn record_payment_sent(
    dao: &mut BatchDao,
    order_id: &str,
    owner_id: &str,
    payee_addr: &str,
    items: &Vec<BatchOrderItemFullInfo>,
    positions: &Vec<usize>,
    payment_id: &String,
)
    requires
        forall|t: int| 0 <= t < positions@.len() ==> (#[trigger] positions@[t]) < items@.len(),
    ensures
        payment_written(
            old(dao).items@,
            final(dao).items@,
            items@,
            positions@,
            order_id@,
            owner_id@,
            payee_addr@,
            *payment_id,
        ),
        final(dao).orders == old(dao).orders,
        final(dao).documents == old(dao).documents,
{
    let ghost start = dao.items@;
    let mut t: usize = 0;
    while t < positions.len()
        invariant
            0 <= t <= positions@.len(),
            forall|u: int| 0 <= u < positions@.len() ==> (#[trigger] positions@[u]) < items@.len(),
            start == old(dao).items@,
            payment_written(start, dao.items@, items@, positions@.take(t as int), order_id@, owner_id@, payee_addr@, *payment_id),
            dao.orders == old(dao).orders,
            dao.documents == old(dao).documents,
        decreases positions@.len() - t,
    {
        let p = positions[t];
        let ghost before = dao.items@;
        let _ = dao.batch_order_item_send(order_id, owner_id, payee_addr, items[p].allocation_id.as_str(), payment_id.clone());
        proof {
            let pre = positions@.take(t as int);
            let post = positions@.take(t + 1);
            assert(post =~= pre.push(p));
            assert forall|k: int| 0 <= k < start.len() implies #[trigger] dao.items@[k] == if covered_by_payment(
                start[k],
                items@,
                post,
                order_id@,
                owner_id@,
                payee_addr@,
            ) {
                BatchOrderItemRow { payment_id: Some(*payment_id), ..start[k] }
            } else {
                start[k]
            } by {
                let hit = item_is(start[k], order_id@, owner_id@, payee_addr@, items@[p as int].allocation_id@);
                assert(item_is(before[k], order_id@, owner_id@, payee_addr@, items@[p as int].allocation_id@) == hit);
                if covered_by_payment(start[k], items@, pre, order_id@, owner_id@, payee_addr@) {
                    let w = choose|w: int|
                        0 <= w < pre.len() && item_is(start[k], order_id@, owner_id@, payee_addr@, #[trigger] items@[pre[w] as int].allocation_id@);
                    assert(post[w] == pre[w]);
                } else if hit {
                    assert(post[pre.len() as int] == p);
                } else {
                    assert forall|w: int| 0 <= w < post.len() implies !item_is(
                        start[k],
                        order_id@,
                        owner_id@,
                        payee_addr@,
                        #[trigger] items@[post[w] as int].allocation_id@,
                    ) by {
                        if w < pre.len() {
                            assert(post[w] == pre[w]);
                        }
                    }
                }
            }
        }
        t = t + 1;
    }
    proof {
        assert(positions@.take(positions@.len() as int) =~= positions@);
    }
}

/// Whether the items of a batch order have amounts that planning can sum
/// (`amounts_bounded`): none negative, and the items not paid from deposits together
/// within `amount_limit`.
pub fn batch_amounts_fit(items: &Vec<BatchOrderItemFullInfo>) -> (r: bool)
    ensures
        r == amounts_bounded(items@),
{
    let limit: i128 = 0x2000_0000_0000_0000_0000_0000_0000_0000;
    let n = items.len();
    let mut i: usize = 0;
    while i < n
        invariant
            n == items@.len(),
            0 <= i <= n,
            forall|j: int| 0 <= j < i ==> (#[trigger] items@[j]).amount >= 0,
        decreases n - i,
    {
        if items[i].amount < 0 {
            return false;
        }
        i = i + 1;
    }
    let mut total: i128 = 0;
    let mut k: usize = 0;
    while k < n
        invariant
            n == items@.len(),
            0 <= k <= n,
            limit == crate::dao::batch::amount_limit(),
            forall|j: int| 0 <= j < n ==> (#[trigger] items@[j]).amount >= 0,
            total == amount_at(items@, group_positions_all(items@, k as int)),
            0 <= total <= limit,
        decreases n - k,
    {
        proof {
            lemma_all_positions_mono(items@, k as int);
            lemma_all_positions_mono(items@, k + 1);
        }
        if items[k].deposit.is_none() {
            proof {
                assert(group_positions_all(items@, k + 1) == group_positions_all(items@, k as int).push(k as usize));
                assert(group_positions_all(items@, k as int).push(k as usize).drop_last() =~= group_positions_all(items@, k as int));
            }
            if items[k].amount > limit - total {
                return false;
            }
            total = total + items[k].amount;
        } else {
            proof {
                assert(group_positions_all(items@, k + 1) == group_positions_all(items@, k as int));
            }
        }
        k = k + 1;
    }
    true
}
} // verus!
