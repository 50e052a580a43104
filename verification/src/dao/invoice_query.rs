//! Reading invoices together with their agreement and the activities they cover.
use vstd::prelude::*;
use crate::dao::debit_note::texts_view;
use crate::dao::invoice::{activity_ids_of, select_by, texts, InvoiceDao};
use crate::ledger::{
    find_key, has_key, key_index, key_is, lemma_key_index, InvoiceActivity, InvoiceRow, Ledger,
};
use crate::order::{index_perm, limit, order_by_key, permuted, sorted_by};
use crate::status::{DocumentStatus, Role};

verus! {

/// An invoice as it is read: the stored record, the peer, addresses and platform of its
/// agreement, and the activities it covers.
#[derive(Debug)]
pub struct InvoiceRead {
    pub invoice: InvoiceRow,
    pub peer_id: String,
    pub payee_addr: String,
    pub payer_addr: String,
    pub payment_platform: String,
    pub activity_ids: Vec<String>,
}

/// The reads join each invoice with its agreement; an invoice whose agreement is missing
/// is not read.
pub open spec fn joined(l: &Ledger, r: InvoiceRow) -> bool {
    has_key(l.agreements@, r.agreement_id@, r.owner_id@)
}

/// The activities that invoice `id` of `owner` covers, in stored order.
pub open spec fn links_of(l: &Ledger, id: Seq<char>, owner: Seq<char>) -> Seq<Seq<char>> {
    select_by(
        l.invoice_activities@,
        |x: InvoiceActivity| x.invoice_id@ == id && x.owner_id@ == owner,
    ).map_values(|x: InvoiceActivity| x.activity_id@)
}

/// The activities linked to an invoice id, whoever's copy the link belongs to.
pub open spec fn links_any(l: &Ledger, id: Seq<char>) -> Seq<Seq<char>> {
    select_by(l.invoice_activities@, |x: InvoiceActivity| x.invoice_id@ == id).map_values(
        |x: InvoiceActivity| x.activity_id@,
    )
}

pub open spec fn links_for(l: &Ledger, r: InvoiceRow, scoped: bool) -> Seq<Seq<char>> {
    if scoped {
        links_of(l, r.id@, r.owner_id@)
    } else {
        links_any(l, r.id@)
    }
}

/// `x` is the read of invoice `r`, covering the activities `links`.
pub open spec fn read_of(l: &Ledger, x: InvoiceRead, r: InvoiceRow, links: Seq<Seq<char>>) -> bool {
    let a = l.agreement(r.agreement_id@, r.owner_id@);
    &&& x.invoice == r
    &&& x.peer_id == a.peer_id
    &&& x.payee_addr == a.payee_addr
    &&& x.payer_addr == a.payer_addr
    &&& x.payment_platform == a.payment_platform
    &&& texts(x.activity_ids@) == links
}

/// `r` reads the invoices of `s`, one for one, in order.
pub open spec fn reads_of(l: &Ledger, r: Seq<InvoiceRead>, s: Seq<InvoiceRow>, scoped: bool) -> bool {
    &&& r.len() == s.len()
    &&& forall|k: int| 0 <= k < s.len() ==> read_of(l, #[trigger] r[k], s[k], links_for(l, s[k], scoped))
}

pub open spec fn invoice_timestamps(s: Seq<InvoiceRow>) -> Seq<i64> {
    s.map_values(|r: InvoiceRow| r.timestamp)
}

fn activity_ids_any_owner(ledger: &Ledger, invoice_id: &str) -> (r: Vec<String>)
    ensures
        texts(r@) == links_any(ledger, invoice_id@),
{
    let ghost p = |x: InvoiceActivity| x.invoice_id@ == invoice_id@;
    let ghost f = |x: InvoiceActivity| x.activity_id@;
    let mut r: Vec<String> = Vec::new();
    let mut k: usize = 0;
    while k < ledger.invoice_activities.len()
        invariant
            0 <= k <= ledger.invoice_activities.len(),
            p == (|x: InvoiceActivity| x.invoice_id@ == invoice_id@),
            f == (|x: InvoiceActivity| x.activity_id@),
            texts(r@) == select_by(ledger.invoice_activities@.take(k as int), p).map_values(f),
        decreases ledger.invoice_activities.len() - k,
    {
        let ghost s = ledger.invoice_activities@;
        proof {
            assert(s.take(k + 1).drop_last() =~= s.take(k as int));
            assert(s.take(k + 1).last() == s[k as int]);
        }
        let link = &ledger.invoice_activities[k];
        if crate::text::text_eq(link.invoice_id.as_str(), invoice_id) {
            let ghost before = r@;
            r.push(link.activity_id.clone());
            proof {
                let sel0 = select_by(s.take(k as int), p);
                assert(select_by(s.take(k + 1), p) == sel0.push(s[k as int]));
                assert(texts(r@) =~= texts(before).push(link.activity_id@));
                assert(sel0.push(s[k as int]).map_values(f) =~= sel0.map_values(f).push(f(s[k as int])));
            }
        }
        k = k + 1;
    }
    proof {
        assert(ledger.invoice_activities@.take(k as int) =~= ledger.invoice_activities@);
    }
    r
}

/// Reads invoice `row`, whose agreement is in the ledger.
fn read_joined(ledger: &Ledger, row: &InvoiceRow, scoped: bool) -> (x: InvoiceRead)
    requires
        ledger.wf(),
        joined(ledger, *row),
    ensures
        read_of(ledger, x, *row, links_for(ledger, *row, scoped)),
{
    let i = match find_key(&ledger.agreements, row.agreement_id.as_str(), row.owner_id.as_str()) {
        Some(i) => i,
        None => {
            proof {
                assert(false);
            }
            0
        },
    };
    proof {
        lemma_key_index(ledger.agreements@, row.agreement_id@, row.owner_id@, i as int);
    }
    let a = &ledger.agreements[i];
    let activity_ids = if scoped {
        let v = activity_ids_of(ledger, row.id.as_str(), row.owner_id.as_str());
        proof {
            assert(texts(v@) =~= v@.map_values(|s: String| s@));
            let p1 = |x: InvoiceActivity| x.invoice_id@ == row.id@ && x.owner_id@ == row.owner_id@;
            assert(p1 =~= (|x: InvoiceActivity| x.invoice_id@ == row.id@ && x.owner_id@ == row.owner_id@));
        }
        v
    } else {
        activity_ids_any_owner(ledger, row.id.as_str())
    };
    InvoiceRead {
        invoice: row.duplicate(),
        peer_id: a.peer_id.clone(),
        payee_addr: a.payee_addr.clone(),
        payer_addr: a.payer_addr.clone(),
        payment_platform: a.payment_platform.clone(),
        activity_ids,
    }
}

/// Reads the invoices of `rows` at the positions `order` lists, the first `n` of them.
fn read_in_order(ledger: &Ledger, rows: &Vec<InvoiceRow>, order: &Vec<usize>, n: usize, scoped: bool) -> (r:
    Vec<InvoiceRead>)
    requires
        ledger.wf(),
        n <= order@.len(),
        index_perm(order@, rows@.len()),
        forall|k: int| 0 <= k < rows@.len() ==> joined(ledger, #[trigger] rows@[k]),
    ensures
        reads_of(ledger, r@, permuted(rows@, order@).take(n as int), scoped),
{
    let ghost s = permuted(rows@, order@);
    let mut r: Vec<InvoiceRead> = Vec::new();
    let mut j: usize = 0;
    while j < n
        invariant
            0 <= j <= n,
            n <= order@.len(),
            ledger.wf(),
            index_perm(order@, rows@.len()),
            forall|k: int| 0 <= k < rows@.len() ==> joined(ledger, #[trigger] rows@[k]),
            s == permuted(rows@, order@),
            reads_of(ledger, r@, s.take(j as int), scoped),
        decreases n - j,
    {
        let pos = order[j];
        let x = read_joined(ledger, &rows[pos], scoped);
        r.push(x);
        proof {
            assert(s[j as int] == rows@[pos as int]);
            assert forall|k: int| 0 <= k < j + 1 implies read_of(
                ledger,
                #[trigger] r@[k],
                s.take(j + 1)[k],
                links_for(ledger, s.take(j + 1)[k], scoped),
            ) by {
                if k < j {
                    assert(s.take(j + 1)[k] == s.take(j as int)[k]);
                }
            }
        }
        j = j + 1;
    }
    r
}

/// The invoices of `ledger` that `p` picks, copied in stored order.
fn pick(ledger: &Ledger, sel: &InvoicePick) -> (r: Vec<InvoiceRow>)
    requires
        ledger.wf(),
    ensures
        r@ == select_by(ledger.invoices@, |x: InvoiceRow| picked(ledger, *sel, x)),
{
    let ghost p = |x: InvoiceRow| picked(ledger, *sel, x);
    let mut r: Vec<InvoiceRow> = Vec::new();
    let mut k: usize = 0;
    while k < ledger.invoices.len()
        invariant
            ledger.wf(),
            0 <= k <= ledger.invoices.len(),
            p == (|x: InvoiceRow| picked(ledger, *sel, x)),
            r@ == select_by(ledger.invoices@.take(k as int), p),
        decreases ledger.invoices.len() - k,
    {
        proof {
            assert(ledger.invoices@.take(k + 1).drop_last() =~= ledger.invoices@.take(k as int));
            assert(ledger.invoices@.take(k + 1).last() == ledger.invoices@[k as int]);
        }
        let inv = &ledger.invoices[k];
        if picked_exec(ledger, sel, inv) {
            r.push(inv.duplicate());
        }
        k = k + 1;
    }
    proof {
        assert(ledger.invoices@.take(k as int) =~= ledger.invoices@);
    }
    r
}

/// Which invoices a read picks.
#[derive(Debug)]
pub enum InvoicePick {
    /// Those of one agreement of one owner.
    Agreement { agreement_id: String, owner_id: String },
    /// Those of one owner named in a list.
    Listed { invoice_ids: Vec<String>, owner_id: String },
    /// Those of one owner after a time.
    Owner { owner_id: String, after_timestamp: Option<i64> },
    /// Those of a role and a status, of any owner.
    Kind { role: Option<Role>, status: Option<DocumentStatus> },
    /// Those of one owner accepted with the acceptance not yet delivered.
    UnsentAccepted { owner_id: String },
    /// Those of one owner rejected with the rejection not yet delivered.
    UnsentRejected { owner_id: String },
    /// Those one owner issued as a provider that are issued or accepted, not yet settled.
    Dangling { owner_id: String },
}

pub open spec fn picked(l: &Ledger, sel: InvoicePick, r: InvoiceRow) -> bool {
    &&& joined(l, r)
    &&& match sel {
        InvoicePick::Agreement { agreement_id, owner_id } => r.agreement_id@ == agreement_id@
            && r.owner_id@ == owner_id@,
        InvoicePick::Listed { invoice_ids, owner_id } => texts_view(invoice_ids@).contains(r.id@)
            && r.owner_id@ == owner_id@,
        InvoicePick::Owner { owner_id, after_timestamp } => r.owner_id@ == owner_id@ && (
        after_timestamp matches Some(t) ==> r.timestamp > t),
        InvoicePick::Kind { role, status } => (role matches Some(x) ==> r.role == x) && (
        status matches Some(s) ==> r.status == s),
        InvoicePick::UnsentAccepted { owner_id } => r.owner_id@ == owner_id@ && r.send_accept
            && r.status == DocumentStatus::Accepted,
        InvoicePick::UnsentRejected { owner_id } => r.owner_id@ == owner_id@ && r.send_reject
            && r.status == DocumentStatus::Rejected,
        InvoicePick::Dangling { owner_id } => r.owner_id@ == owner_id@ && r.role == Role::Provider
            && (r.status == DocumentStatus::Issued || r.status == DocumentStatus::Accepted),
    }
}

fn picked_exec(ledger: &Ledger, sel: &InvoicePick, r: &InvoiceRow) -> (b: bool)
    requires
        ledger.wf(),
    ensures
        b == picked(ledger, *sel, *r),
{
    let wanted = match sel {
        InvoicePick::Agreement { agreement_id, owner_id } => crate::text::text_eq(
            r.agreement_id.as_str(),
            agreement_id.as_str(),
        ) && crate::text::text_eq(r.owner_id.as_str(), owner_id.as_str()),
        InvoicePick::Listed { invoice_ids, owner_id } => crate::dao::debit_note::contains_text(
            invoice_ids,
            r.id.as_str(),
        ) && crate::text::text_eq(r.owner_id.as_str(), owner_id.as_str()),
        InvoicePick::Owner { owner_id, after_timestamp } => crate::text::text_eq(
            r.owner_id.as_str(),
            owner_id.as_str(),
        ) && match after_timestamp {
            Some(t) => r.timestamp > *t,
            None => true,
        },
        InvoicePick::Kind { role, status } => (match role {
            Some(x) => r.role == *x,
            None => true,
        }) && (match status {
            Some(s) => r.status == *s,
            None => true,
        }),
        InvoicePick::UnsentAccepted { owner_id } => crate::text::text_eq(
            r.owner_id.as_str(),
            owner_id.as_str(),
        ) && r.send_accept && r.status == DocumentStatus::Accepted,
        InvoicePick::UnsentRejected { owner_id } => crate::text::text_eq(
            r.owner_id.as_str(),
            owner_id.as_str(),
        ) && r.send_reject && r.status == DocumentStatus::Rejected,
        InvoicePick::Dangling { owner_id } => crate::text::text_eq(
            r.owner_id.as_str(),
            owner_id.as_str(),
        ) && r.role == Role::Provider && (r.status == DocumentStatus::Issued || r.status
            == DocumentStatus::Accepted),
    };
    wanted && crate::dao::agreement::locate(ledger, r.agreement_id.as_str(), r.owner_id.as_str()).is_some()
}

/// The positions `0..n` in order.
fn identity_order(n: usize) -> (r: Vec<usize>)
    ensures
        index_perm(r@, n as nat),
        forall|k: int| 0 <= k < n ==> r@[k] == k,
{
    let mut r: Vec<usize> = Vec::new();
    let mut i: usize = 0;
    while i < n
        invariant
            0 <= i <= n,
            r@.len() == i,
            forall|k: int| 0 <= k < i ==> r@[k] == k,
        decreases n - i,
    {
        r.push(i);
        i = i + 1;
    }
    r
}

impl InvoiceDao {
    /// Reads the invoice `invoice_id` of `owner_id`; `None` where there is none or its
    /// agreement is missing.
    pub fn get(ledger: &Ledger, invoice_id: &str, owner_id: &str) -> (r: Option<InvoiceRead>)
        requires
            ledger.wf(),
        ensures
            has_key(ledger.invoices@, invoice_id@, owner_id@) && joined(
                ledger,
                ledger.invoice(invoice_id@, owner_id@),
            ) ==> (r matches Some(x) && read_of(
                ledger,
                x,
                ledger.invoice(invoice_id@, owner_id@),
                links_of(ledger, invoice_id@, owner_id@),
            )),
            !(has_key(ledger.invoices@, invoice_id@, owner_id@) && joined(
                ledger,
                ledger.invoice(invoice_id@, owner_id@),
            )) ==> r is None,
    {
        match find_key(&ledger.invoices, invoice_id, owner_id) {
            Some(i) => {
                proof {
                    lemma_key_index(ledger.invoices@, invoice_id@, owner_id@, i as int);
                }
                let row = &ledger.invoices[i];
                if crate::dao::agreement::locate(ledger, row.agreement_id.as_str(), owner_id).is_some() {
                    Some(read_joined(ledger, row, true))
                } else {
                    None
                }
            },
            None => None,
        }
    }
}

impl InvoiceDao {
    /// Reads the first stored invoice of agreement `agreement_id` of `owner_id`, where there
    /// is one (an agreement has at most one).
    pub fn get_by_agreement(ledger: &Ledger, agreement_id: String, owner_id: String) -> (r: Option<
        InvoiceRead,
    >)
        requires
            ledger.wf(),
        ensures
            ({
                let s = select_by(
                    ledger.invoices@,
                    |x: InvoiceRow|
                        picked(
                            ledger,
                            InvoicePick::Agreement { agreement_id: agreement_id, owner_id: owner_id },
                            x,
                        ),
                );
                &&& s.len() == 0 ==> r is None
                &&& s.len() > 0 ==> (r matches Some(x) && read_of(ledger, x, s[0], links_for(ledger, s[0], true)))
            }),
    {
        let sel = InvoicePick::Agreement { agreement_id, owner_id };
        let rows = pick(ledger, &sel);
        if rows.len() == 0 {
            None
        } else {
            proof {
                crate::dao::invoice::lemma_select_by_holds(
                    ledger.invoices@,
                    |x: InvoiceRow| picked(ledger, sel, x),
                    0,
                );
            }
            Some(read_joined(ledger, &rows[0], true))
        }
    }
}

impl InvoiceDao {
    /// Reads the invoices of `owner_id` named in `invoice_ids`, in stored order; each covers
    /// the activities linked to its id.
    pub fn get_many(ledger: &Ledger, invoice_ids: Vec<String>, owner_id: String) -> (r: Vec<InvoiceRead>)
        requires
            ledger.wf(),
        ensures
            reads_of(
                ledger,
                r@,
                select_by(
                    ledger.invoices@,
                    |x: InvoiceRow|
                        picked(
                            ledger,
                            InvoicePick::Listed { invoice_ids: invoice_ids, owner_id: owner_id },
                            x,
                        ),
                ),
                false,
            ),
    {
        let sel = InvoicePick::Listed { invoice_ids, owner_id };
        let rows = pick(ledger, &sel);
        let order = identity_order(rows.len());
        proof {
            assert(permuted(rows@, order@).take(rows@.len() as int) =~= rows@);
            assert forall|k: int| 0 <= k < rows@.len() implies joined(ledger, #[trigger] rows@[k]) by {
                crate::dao::invoice::lemma_select_by_holds(
                    ledger.invoices@,
                    |x: InvoiceRow| picked(ledger, sel, x),
                    k,
                );
            }
        }
        read_in_order(ledger, &rows, &order, rows.len(), false)
    }
}

/// Whether `r` reads the invoices that `sel` picks, ordered by time (`perm` being that
/// order, ascending or descending, equal times in stored order) and cut to `max_items`.
pub open spec fn ordered_reads(
    l: &Ledger,
    r: Seq<InvoiceRead>,
    sel: InvoicePick,
    desc: bool,
    max_items: Option<u32>,
    perm: Seq<usize>,
) -> bool {
    let m = select_by(l.invoices@, |x: InvoiceRow| picked(l, sel, x));
    &&& index_perm(perm, m.len())
    &&& sorted_by(invoice_timestamps(m), perm, desc)
    &&& reads_of(l, r, limit(permuted(m, perm), max_items), true)
}

fn read_ordered(ledger: &Ledger, sel: &InvoicePick, desc: bool, max_items: Option<u32>) -> (r: Vec<InvoiceRead>)
    requires
        ledger.wf(),
    ensures
        exists|perm: Seq<usize>| ordered_reads(ledger, r@, *sel, desc, max_items, perm),
{
    let rows = pick(ledger, sel);
    let mut keys: Vec<i64> = Vec::new();
    let mut i: usize = 0;
    while i < rows.len()
        invariant
            0 <= i <= rows.len(),
            keys@ == invoice_timestamps(rows@).take(i as int),
        decreases rows.len() - i,
    {
        keys.push(rows[i].timestamp);
        proof {
            assert(invoice_timestamps(rows@).take(i + 1) =~= invoice_timestamps(rows@).take(i as int).push(
                rows@[i as int].timestamp,
            ));
        }
        i = i + 1;
    }
    proof {
        assert(invoice_timestamps(rows@).take(i as int) =~= invoice_timestamps(rows@));
    }
    let order = order_by_key(&keys, desc);
    let n: usize = match max_items {
        Some(max) => if (max as usize) < order.len() {
            max as usize
        } else {
            order.len()
        },
        None => order.len(),
    };
    proof {
        assert(limit(permuted(rows@, order@), max_items) =~= permuted(rows@, order@).take(n as int));
        assert forall|k: int| 0 <= k < rows@.len() implies joined(ledger, #[trigger] rows@[k]) by {
            crate::dao::invoice::lemma_select_by_holds(
                ledger.invoices@,
                |x: InvoiceRow| picked(ledger, *sel, x),
                k,
            );
        }
    }
    let r = read_in_order(ledger, &rows, &order, n, true);
    proof {
        assert(ordered_reads(ledger, r@, *sel, desc, max_items, order@));
    }
    r
}

impl InvoiceDao {
    /// Reads the invoices of `node_id` issued after `after_timestamp`, oldest first, at most
    /// `max_items` of them.
    pub fn get_for_node_id(ledger: &Ledger, node_id: String, after_timestamp: Option<i64>, max_items: Option<u32>) -> (r:
        Vec<InvoiceRead>)
        requires
            ledger.wf(),
        ensures
            exists|perm: Seq<usize>|
                ordered_reads(
                    ledger,
                    r@,
                    InvoicePick::Owner { owner_id: node_id, after_timestamp: after_timestamp },
                    false,
                    max_items,
                    perm,
                ),
    {
        read_ordered(ledger, &InvoicePick::Owner { owner_id: node_id, after_timestamp }, false, max_items)
    }
}

impl InvoiceDao {
    /// Reads the invoices of any owner with the role and the status asked for, newest first.
    pub fn list(ledger: &Ledger, role: Option<Role>, status: Option<DocumentStatus>) -> (r: Vec<InvoiceRead>)
        requires
            ledger.wf(),
        ensures
            exists|perm: Seq<usize>|
                ordered_reads(
                    ledger,
                    r@,
                    InvoicePick::Kind { role: role, status: status },
                    true,
                    None,
                    perm,
                ),
    {
        read_ordered(ledger, &InvoicePick::Kind { role, status }, true, None)
    }
}

} // verus!

verus! {

/// The invoices of one role and status, counted and their amounts summed.
#[derive(Debug)]
pub struct InvoiceStat {
    pub role: Role,
    pub status: DocumentStatus,
    pub total_amount: i128,
    pub count: u64,
}

/// Whether invoice `r` counts in the statistics of `node` since `since`.
pub open spec fn stat_counted(l: &Ledger, r: InvoiceRow, node: Seq<char>, since: i64) -> bool {
    &&& joined(l, r)
    &&& r.owner_id@ == node
    &&& r.timestamp > since
}

/// The sum of the amounts and the number of the counted invoices of `s` with `role` and
/// `status`.
pub open spec fn stat_of(
    l: &Ledger,
    s: Seq<InvoiceRow>,
    node: Seq<char>,
    since: i64,
    role: Role,
    status: DocumentStatus,
) -> (int, int)
    decreases s.len(),
{
    if s.len() == 0 {
        (0, 0)
    } else {
        let r = s.last();
        let rest = stat_of(l, s.drop_last(), node, since, role, status);
        if stat_counted(l, r, node, since) && r.role == role && r.status == status {
            (rest.0 + r.amount, rest.1 + 1)
        } else {
            rest
        }
    }
}

/// Whether some counted invoice of `s` has `role` and `status`.
pub open spec fn stat_present(l: &Ledger, s: Seq<InvoiceRow>, node: Seq<char>, since: i64, role: Role, status: DocumentStatus) -> bool {
    exists|k: int|
        0 <= k < s.len() && stat_counted(l, #[trigger] s[k], node, since) && s[k].role == role && s[k].status
            == status
}

/// `r` holds, once each, every role and status of a counted invoice of `s`, with the sum of
/// their amounts and their number.
pub open spec fn stats_of(l: &Ledger, s: Seq<InvoiceRow>, node: Seq<char>, since: i64, r: Seq<InvoiceStat>) -> bool {
    &&& forall|a: int, b: int|
        0 <= a < b < r.len() ==> !(#[trigger] r[a].role == #[trigger] r[b].role && r[a].status == r[b].status)
    &&& forall|a: int|
        0 <= a < r.len() ==> stat_present(l, s, node, since, (#[trigger] r[a]).role, r[a].status) && (
        r[a].total_amount as int, r[a].count as int) == stat_of(l, s, node, since, r[a].role, r[a].status)
    &&& forall|k: int|
        0 <= k < s.len() && stat_counted(l, #[trigger] s[k], node, since) ==> exists|a: int|
            0 <= a < r.len() && (#[trigger] r[a]).role == s[k].role && r[a].status == s[k].status
}

proof fn lemma_stat_absent(l: &Ledger, s: Seq<InvoiceRow>, node: Seq<char>, since: i64, role: Role, status: DocumentStatus)
    requires
        !stat_present(l, s, node, since, role, status),
    ensures
        stat_of(l, s, node, since, role, status) == (0int, 0int),
    decreases s.len(),
{
    if s.len() > 0 {
        let d = s.drop_last();
        assert(!stat_present(l, d, node, since, role, status)) by {
            if stat_present(l, d, node, since, role, status) {
                let k = choose|k: int|
                    0 <= k < d.len() && stat_counted(l, #[trigger] d[k], node, since) && d[k].role == role
                        && d[k].status == status;
                assert(s[k] == d[k]);
            }
        }
        lemma_stat_absent(l, d, node, since, role, status);
        let last = s[s.len() - 1];
        assert(!(stat_counted(l, last, node, since) && last.role == role && last.status == status));
    }
}

proof fn lemma_stat_count_le(l: &Ledger, s: Seq<InvoiceRow>, node: Seq<char>, since: i64, role: Role, status: DocumentStatus)
    ensures
        0 <= stat_of(l, s, node, since, role, status).1 <= s.len(),
    decreases s.len(),
{
    if s.len() > 0 {
        lemma_stat_count_le(l, s.drop_last(), node, since, role, status);
    }
}

fn find_stat(r: &Vec<InvoiceStat>, role: Role, status: DocumentStatus) -> (f: Option<usize>)
    ensures
        f matches Some(a) ==> a < r@.len() && r@[a as int].role == role && r@[a as int].status == status,
        f is None ==> forall|b: int| 0 <= b < r@.len() ==> !((#[trigger] r@[b]).role == role && r@[b].status == status),
{
    let mut a: usize = 0;
    while a < r.len()
        invariant
            0 <= a <= r.len(),
            forall|b: int| 0 <= b < a ==> !((#[trigger] r@[b]).role == role && r@[b].status == status),
        decreases r.len() - a,
    {
        if r[a].role == role && r[a].status == status {
            return Some(a);
        }
        a = a + 1;
    }
    None
}

proof fn lemma_stats_skip(l: &Ledger, t: Seq<InvoiceRow>, x: InvoiceRow, node: Seq<char>, since: i64, r: Seq<InvoiceStat>)
    requires
        stats_of(l, t, node, since, r),
        !stat_counted(l, x, node, since),
    ensures
        stats_of(l, t.push(x), node, since, r),
{
    let t1 = t.push(x);
    assert(t1.drop_last() =~= t);
    assert forall|j: int| 0 <= j < t.len() implies t1[j] == t[j] by {}
    assert forall|a: int| 0 <= a < r.len() implies stat_present(l, t1, node, since, (#[trigger] r[a]).role, r[a].status)
        && (r[a].total_amount as int, r[a].count as int) == stat_of(l, t1, node, since, r[a].role, r[a].status) by {
        let j = choose|j: int|
            0 <= j < t.len() && stat_counted(l, #[trigger] t[j], node, since) && t[j].role == r[a].role && t[j].status
                == r[a].status;
        assert(t1[j] == t[j]);
    }
    assert forall|j: int| 0 <= j < t1.len() && stat_counted(l, #[trigger] t1[j], node, since) implies exists|b: int|
        0 <= b < r.len() && (#[trigger] r[b]).role == t1[j].role && r[b].status == t1[j].status by {
        assert(j < t.len());
        assert(t1[j] == t[j]);
    }
}

/// Adds the counted invoice `inv` to the statistics of `t`.
fn add_counted(
    ledger: &Ledger,
    r: &mut Vec<InvoiceStat>,
    Ghost(t): Ghost<Seq<InvoiceRow>>,
    inv: &InvoiceRow,
    Ghost(node): Ghost<Seq<char>>,
    since: i64,
)
    requires
        stats_of(ledger, t, node, since, old(r)@),
        stat_counted(ledger, *inv, node, since),
        i128::MIN <= stat_of(ledger, t.push(*inv), node, since, inv.role, inv.status).0 <= i128::MAX,
        t.len() + 1 <= u64::MAX,
    ensures
        stats_of(ledger, t.push(*inv), node, since, final(r)@),
{
    let ghost t1 = t.push(*inv);
    let role = inv.role;
    let status = inv.status;
    let ghost r0 = r@;
    proof {
        assert(t1.drop_last() =~= t);
        assert(t1[t.len() as int] == *inv);
        assert forall|j: int| 0 <= j < t.len() implies t1[j] == t[j] by {}
        assert(stat_present(ledger, t1, node, since, role, status));
        lemma_stat_count_le(ledger, t1, node, since, role, status);
    }
    match find_stat(r, role, status) {
        Some(a) => {
            let total = r[a].total_amount + inv.amount;
            let count = r[a].count + 1;
            r.set(a, InvoiceStat { role, status, total_amount: total, count });
            proof {
                assert forall|b: int| 0 <= b < r@.len() implies stat_present(ledger, t1, node, since, (#[trigger] r@[b]).role, r@[b].status)
                    && (r@[b].total_amount as int, r@[b].count as int) == stat_of(ledger, t1, node, since, r@[b].role, r@[b].status) by {
                    if b != a {
                        assert(r@[b] == r0[b]);
                        let j = choose|j: int|
                            0 <= j < t.len() && stat_counted(ledger, #[trigger] t[j], node, since) && t[j].role == r0[b].role
                                && t[j].status == r0[b].status;
                        assert(t1[j] == t[j]);
                    }
                }
                assert forall|a1: int, b1: int| 0 <= a1 < b1 < r@.len() implies !(#[trigger] r@[a1].role == #[trigger] r@[b1].role && r@[a1].status == r@[b1].status) by {
                    assert(r@[a1].role == r0[a1].role && r@[a1].status == r0[a1].status);
                    assert(r@[b1].role == r0[b1].role && r@[b1].status == r0[b1].status);
                }
                assert forall|j: int| 0 <= j < t1.len() && stat_counted(ledger, #[trigger] t1[j], node, since) implies exists|b: int|
                    0 <= b < r@.len() && (#[trigger] r@[b]).role == t1[j].role && r@[b].status == t1[j].status by {
                    if j < t.len() {
                        assert(t1[j] == t[j]);
                        let b = choose|b: int| 0 <= b < r0.len() && (#[trigger] r0[b]).role == t[j].role && r0[b].status == t[j].status;
                        assert(r@[b].role == r0[b].role && r@[b].status == r0[b].status);
                    } else {
                        assert(r@[a as int].role == role && r@[a as int].status == status);
                    }
                }
            }
        },
        None => {
            proof {
                assert(!stat_present(ledger, t, node, since, role, status)) by {
                    if stat_present(ledger, t, node, since, role, status) {
                        let j = choose|j: int|
                            0 <= j < t.len() && stat_counted(ledger, #[trigger] t[j], node, since) && t[j].role == role
                                && t[j].status == status;
                        let b = choose|b: int| 0 <= b < r0.len() && (#[trigger] r0[b]).role == t[j].role && r0[b].status == t[j].status;
                    }
                }
                lemma_stat_absent(ledger, t, node, since, role, status);
            }
            r.push(InvoiceStat { role, status, total_amount: inv.amount, count: 1 });
            proof {
                assert forall|b: int| 0 <= b < r@.len() implies stat_present(ledger, t1, node, since, (#[trigger] r@[b]).role, r@[b].status)
                    && (r@[b].total_amount as int, r@[b].count as int) == stat_of(ledger, t1, node, since, r@[b].role, r@[b].status) by {
                    if b < r0.len() {
                        assert(r@[b] == r0[b]);
                        let j = choose|j: int|
                            0 <= j < t.len() && stat_counted(ledger, #[trigger] t[j], node, since) && t[j].role == r0[b].role
                                && t[j].status == r0[b].status;
                        assert(t1[j] == t[j]);
                    }
                }
                assert forall|a1: int, b1: int| 0 <= a1 < b1 < r@.len() implies !(#[trigger] r@[a1].role == #[trigger] r@[b1].role && r@[a1].status == r@[b1].status) by {
                    if b1 < r0.len() {
                        assert(r@[a1] == r0[a1] && r@[b1] == r0[b1]);
                    } else {
                        assert(r@[a1] == r0[a1]);
                    }
                }
                assert forall|j: int| 0 <= j < t1.len() && stat_counted(ledger, #[trigger] t1[j], node, since) implies exists|b: int|
                    0 <= b < r@.len() && (#[trigger] r@[b]).role == t1[j].role && r@[b].status == t1[j].status by {
                    if j < t.len() {
                        assert(t1[j] == t[j]);
                        let b = choose|b: int| 0 <= b < r0.len() && (#[trigger] r0[b]).role == t[j].role && r0[b].status == t[j].status;
                        assert(r@[b] == r0[b]);
                    } else {
                        assert(r@[r0.len() as int].role == role && r@[r0.len() as int].status == status);
                    }
                }
            }
        },
    }
}

impl InvoiceDao {
    /// The invoices of `node_id` issued after `since`, counted and their amounts summed for
    /// each role and status that occurs, in the order of first appearance.
    pub fn last_invoice_stats(ledger: &Ledger, node_id: &str, since: i64) -> (r: Vec<InvoiceStat>)
        requires
            ledger.wf(),
            ledger.invoices@.len() <= u64::MAX,
            forall|k: int, role: Role, status: DocumentStatus|
                0 <= k <= ledger.invoices@.len() ==> i128::MIN <= #[trigger] stat_of(
                    ledger,
                    ledger.invoices@.take(k),
                    node_id@,
                    since,
                    role,
                    status,
                ).0 <= i128::MAX,
        ensures
            stats_of(ledger, ledger.invoices@, node_id@, since, r@),
    {
        let ghost s = ledger.invoices@;
        let mut r: Vec<InvoiceStat> = Vec::new();
        let mut k: usize = 0;
        proof {
            assert(s.take(0) =~= Seq::<InvoiceRow>::empty());
        }
        while k < ledger.invoices.len()
            invariant
                0 <= k <= ledger.invoices.len(),
                ledger.wf(),
                s == ledger.invoices@,
                s.len() <= u64::MAX,
                forall|j: int, role: Role, status: DocumentStatus|
                    0 <= j <= s.len() ==> i128::MIN <= #[trigger] stat_of(ledger, s.take(j), node_id@, since, role, status).0
                        <= i128::MAX,
                stats_of(ledger, s.take(k as int), node_id@, since, r@),
            decreases ledger.invoices.len() - k,
        {
            let inv = &ledger.invoices[k];
            proof {
                assert(s.take(k + 1) =~= s.take(k as int).push(*inv));
            }
            let counted = text_eq_owner(inv, node_id) && inv.timestamp > since && crate::dao::agreement::locate(
                ledger,
                inv.agreement_id.as_str(),
                inv.owner_id.as_str(),
            ).is_some();
            if counted {
                proof {
                    assert(i128::MIN <= stat_of(ledger, s.take(k + 1), node_id@, since, inv.role, inv.status).0 <= i128::MAX);
                }
                add_counted(ledger, &mut r, Ghost(s.take(k as int)), inv, Ghost(node_id@), since);
            } else {
                proof {
                    lemma_stats_skip(ledger, s.take(k as int), *inv, node_id@, since, r@);
                }
            }
            k = k + 1;
        }
        proof {
            assert(s.take(k as int) =~= s);
        }
        r
    }
}

fn text_eq_owner(inv: &InvoiceRow, node_id: &str) -> (r: bool)
    ensures
        r == (inv.owner_id@ == node_id@),
{
    crate::text::text_eq(inv.owner_id.as_str(), node_id)
}


/// Reads the invoices that `sel` picks, in stored order, each with its owner's links.
fn read_stored(ledger: &Ledger, sel: &InvoicePick) -> (r: Vec<InvoiceRead>)
    requires
        ledger.wf(),
    ensures
        reads_of(ledger, r@, select_by(ledger.invoices@, |x: InvoiceRow| picked(ledger, *sel, x)), true),
{
    let rows = pick(ledger, sel);
    let order = identity_order(rows.len());
    proof {
        assert(permuted(rows@, order@).take(rows@.len() as int) =~= rows@);
        assert forall|k: int| 0 <= k < rows@.len() implies joined(ledger, #[trigger] rows@[k]) by {
            crate::dao::invoice::lemma_select_by_holds(
                ledger.invoices@,
                |x: InvoiceRow| picked(ledger, *sel, x),
                k,
            );
        }
    }
    read_in_order(ledger, &rows, &order, rows.len(), true)
}

impl InvoiceDao {
    /// Reads the invoices of `owner_id` accepted with the acceptance not yet delivered, in
    /// stored order.
    pub fn unsent_accepted(ledger: &Ledger, owner_id: String) -> (r: Vec<InvoiceRead>)
        requires
            ledger.wf(),
        ensures
            reads_of(
                ledger,
                r@,
                select_by(
                    ledger.invoices@,
                    |x: InvoiceRow| picked(ledger, InvoicePick::UnsentAccepted { owner_id: owner_id }, x),
                ),
                true,
            ),
    {
        read_stored(ledger, &InvoicePick::UnsentAccepted { owner_id })
    }
}

impl InvoiceDao {
    /// Reads the invoices of `owner_id` rejected with the rejection not yet delivered, in
    /// stored order.
    pub fn unsent_rejected(ledger: &Ledger, owner_id: String) -> (r: Vec<InvoiceRead>)
        requires
            ledger.wf(),
        ensures
            reads_of(
                ledger,
                r@,
                select_by(
                    ledger.invoices@,
                    |x: InvoiceRow| picked(ledger, InvoicePick::UnsentRejected { owner_id: owner_id }, x),
                ),
                true,
            ),
    {
        read_stored(ledger, &InvoicePick::UnsentRejected { owner_id })
    }
}

impl InvoiceDao {
    /// Reads the invoices `owner_id` issued as a provider that are issued or accepted, in
    /// stored order.
    pub fn dangling(ledger: &Ledger, owner_id: String) -> (r: Vec<InvoiceRead>)
        requires
            ledger.wf(),
        ensures
            reads_of(
                ledger,
                r@,
                select_by(
                    ledger.invoices@,
                    |x: InvoiceRow| picked(ledger, InvoicePick::Dangling { owner_id: owner_id }, x),
                ),
                true,
            ),
    {
        read_stored(ledger, &InvoicePick::Dangling { owner_id })
    }
}

} // verus!
