//! Payments and the documents each one pays.
use vstd::prelude::*;
use crate::dao::invoice::select_by;
use crate::ledger::{has_key, key_index, Ledger};
use crate::models::clone_opt;
use crate::order::{index_perm, limit, order_by_key, permuted, sorted_by};
use crate::platform::{driver_text, network_text, DriverName, NetworkName};
use crate::status::Role;
use crate::text::{occurs_at, text_contains, text_eq, text_starts_with};

verus! {

/// A payment as a node keeps it: who pays whom, from and to which address, on which
/// platform, how much and when; the driver's confirmation details; whether it still has
/// to be sent to the payee (only the payer's copy is); and its signature, where it has one.
#[derive(Debug)]
pub struct PaymentRow {
    pub id: String,
    pub owner_id: String,
    pub peer_id: String,
    pub payee_addr: String,
    pub payer_addr: String,
    pub payment_platform: String,
    pub role: Role,
    pub amount: i128,
    pub timestamp: i64,
    pub details: Vec<u8>,
    pub send_payment: bool,
    pub signature: Option<Vec<u8>>,
    pub signed_bytes: Option<Vec<u8>>,
}

pub struct PaymentRowView {
    pub id: Seq<char>,
    pub owner_id: Seq<char>,
    pub peer_id: Seq<char>,
    pub payee_addr: Seq<char>,
    pub payer_addr: Seq<char>,
    pub payment_platform: Seq<char>,
    pub role: Role,
    pub amount: i128,
    pub timestamp: i64,
    pub details: Seq<u8>,
    pub send_payment: bool,
    pub signature: Option<Seq<u8>>,
    pub signed_bytes: Option<Seq<u8>>,
}

pub open spec fn bytes_view(b: Option<Vec<u8>>) -> Option<Seq<u8>> {
    match b {
        Some(v) => Some(v@),
        None => None,
    }
}

impl View for PaymentRow {
    type V = PaymentRowView;

    open spec fn view(&self) -> PaymentRowView {
        PaymentRowView {
            id: self.id@,
            owner_id: self.owner_id@,
            peer_id: self.peer_id@,
            payee_addr: self.payee_addr@,
            payer_addr: self.payer_addr@,
            payment_platform: self.payment_platform@,
            role: self.role,
            amount: self.amount,
            timestamp: self.timestamp,
            details: self.details@,
            send_payment: self.send_payment,
            signature: bytes_view(self.signature),
            signed_bytes: bytes_view(self.signed_bytes),
        }
    }
}

fn clone_bytes(v: &Vec<u8>) -> (r: Vec<u8>)
    ensures
        r@ == v@,
{
    let mut r: Vec<u8> = Vec::new();
    let mut i: usize = 0;
    while i < v.len()
        invariant
            0 <= i <= v.len(),
            r@ == v@.take(i as int),
        decreases v.len() - i,
    {
        r.push(v[i]);
        proof {
            assert(v@.take(i + 1) =~= v@.take(i as int).push(v@[i as int]));
        }
        i = i + 1;
    }
    proof {
        assert(v@.take(i as int) =~= v@);
    }
    r
}

fn clone_opt_bytes(v: &Option<Vec<u8>>) -> (r: Option<Vec<u8>>)
    ensures
        bytes_view(r) == bytes_view(*v),
{
    match v {
        Some(b) => Some(clone_bytes(b)),
        None => None,
    }
}

fn bytes_eq(a: &Vec<u8>, b: &Vec<u8>) -> (r: bool)
    ensures
        r == (a@ == b@),
{
    if a.len() != b.len() {
        return false;
    }
    let mut i: usize = 0;
    while i < a.len()
        invariant
            a@.len() == b@.len(),
            0 <= i <= a@.len(),
            forall|k: int| 0 <= k < i ==> a@[k] == b@[k],
        decreases a.len() - i,
    {
        if a[i] != b[i] {
            return false;
        }
        i = i + 1;
    }
    proof {
        assert(a@ =~= b@);
    }
    true
}

impl PaymentRow {
    pub fn duplicate(&self) -> (r: Self)
        ensures
            r@ == self@,
    {
        PaymentRow {
            id: self.id.clone(),
            owner_id: self.owner_id.clone(),
            peer_id: self.peer_id.clone(),
            payee_addr: self.payee_addr.clone(),
            payer_addr: self.payer_addr.clone(),
            payment_platform: self.payment_platform.clone(),
            role: self.role,
            amount: self.amount,
            timestamp: self.timestamp,
            details: clone_bytes(&self.details),
            send_payment: self.send_payment,
            signature: clone_opt_bytes(&self.signature),
            signed_bytes: clone_opt_bytes(&self.signed_bytes),
        }
    }
}

/// What a payment pays of one document: the agreement, and the invoice or the activity
/// (with its debit note), where named.
#[derive(Debug)]
pub struct DocumentPayment {
    pub payment_id: String,
    pub owner_id: String,
    pub agreement_id: String,
    pub invoice_id: Option<String>,
    pub activity_id: Option<String>,
    pub debit_note_id: Option<String>,
    pub amount: i128,
}

impl DocumentPayment {
    pub fn duplicate(&self) -> (r: Self)
        ensures
            r == *self,
    {
        DocumentPayment {
            payment_id: self.payment_id.clone(),
            owner_id: self.owner_id.clone(),
            agreement_id: self.agreement_id.clone(),
            invoice_id: clone_opt(&self.invoice_id),
            activity_id: clone_opt(&self.activity_id),
            debit_note_id: clone_opt(&self.debit_note_id),
            amount: self.amount,
        }
    }
}

/// A payment with the documents it pays.
#[derive(Debug)]
pub struct PaymentRead {
    pub payment: PaymentRow,
    pub documents: Vec<DocumentPayment>,
}

/// `x` reads payment `p` with the documents `docs`.
pub open spec fn read_is(x: PaymentRead, p: PaymentRowView, docs: Seq<DocumentPayment>) -> bool {
    x.payment@ == p && x.documents@ == docs
}

/// The payments of a node and the documents they pay.
#[derive(Debug)]
pub struct PaymentDao {
    pub payments: Vec<PaymentRow>,
    pub documents: Vec<DocumentPayment>,
}

pub open spec fn payments_view(s: Seq<PaymentRow>) -> Seq<PaymentRowView> {
    s.map_values(|p: PaymentRow| p@)
}

/// The documents of payment `id` of `owner`, in stored order.
pub open spec fn documents_of(docs: Seq<DocumentPayment>, id: Seq<char>, owner: Seq<char>) -> Seq<DocumentPayment> {
    select_by(docs, |d: DocumentPayment| d.payment_id@ == id && d.owner_id@ == owner)
}

/// `r` reads the payments `ps` one for one, each with its documents.
pub open spec fn reads_with_documents(r: Seq<PaymentRead>, ps: Seq<PaymentRowView>, docs: Seq<DocumentPayment>) -> bool {
    &&& r.len() == ps.len()
    &&& forall|k: int|
        0 <= k < ps.len() ==> read_is(#[trigger] r[k], ps[k], documents_of(docs, ps[k].id, ps[k].owner_id))
}

/// Whether payment `p` is picked by `pick`, with `node` the owner asked for.
pub open spec fn payment_picked(p: PaymentRowView, pick: PaymentPick) -> bool {
    match pick {
        PaymentPick::Confirmation { details, role } => p.details == details@ && p.role == role,
        PaymentPick::Unsent { owner_id, peer_id } => p.send_payment && p.owner_id == owner_id@ && (
        peer_id matches Some(x) ==> p.peer_id == x@),
        PaymentPick::Node { owner_id, after_timestamp, network, driver } => p.owner_id == owner_id@ && (
        after_timestamp matches Some(t) ==> p.timestamp > t) && (network matches Some(n)
            ==> occurs_at(p.payment_platform, network_text(n), 0)) && (driver matches Some(d)
            ==> exists|i: int| #[trigger] occurs_at(p.payment_platform, driver_text(d), i)),
    }
}

/// Which payments a read picks.
#[derive(Debug)]
pub enum PaymentPick {
    /// Those with these confirmation details, of this role.
    Confirmation { details: Vec<u8>, role: Role },
    /// The owner's ones still to be sent, to `peer_id` where given.
    Unsent { owner_id: String, peer_id: Option<String> },
    /// The node's ones after a time, whose platform starts with the network's name and
    /// names the driver, where these are given.
    Node {
        owner_id: String,
        after_timestamp: Option<i64>,
        network: Option<NetworkName>,
        driver: Option<DriverName>,
    },
}

/// Whether payment document `d` of `node` is read along with its payment: its agreement
/// is in the ledger, and of the application session, where one is asked for.
pub open spec fn document_listed(l: &Ledger, d: DocumentPayment, node: Seq<char>, app: Option<String>) -> bool {
    &&& d.owner_id@ == node
    &&& has_key(l.agreements@, d.agreement_id@, d.owner_id@)
    &&& (app matches Some(a) ==> (l.agreement(d.agreement_id@, d.owner_id@).app_session_id matches Some(s)
        && s@ == a@))
}

pub open spec fn payment_times(s: Seq<PaymentRowView>) -> Seq<i64> {
    s.map_values(|p: PaymentRowView| p.timestamp)
}

/// The documents of payment `p` that the node listing reads.
pub open spec fn listed_documents(
    l: &Ledger,
    docs: Seq<DocumentPayment>,
    p: PaymentRowView,
    node: Seq<char>,
    app: Option<String>,
) -> Seq<DocumentPayment> {
    select_by(
        docs,
        |d: DocumentPayment| d.payment_id@ == p.id && document_listed(l, d, node, app),
    )
}

/// `r` is what the node listing reads: the payments `ps` with their listed documents, and,
/// where an application session is asked for, only those left with some document.
pub open spec fn node_reads(
    l: &Ledger,
    docs: Seq<DocumentPayment>,
    ps: Seq<PaymentRowView>,
    node: Seq<char>,
    app: Option<String>,
    r: Seq<PaymentRead>,
) -> bool
    decreases ps.len(),
{
    if ps.len() == 0 {
        r.len() == 0
    } else {
        let p = ps.last();
        let d = listed_documents(l, docs, p, node, app);
        if app is Some && d.len() == 0 {
            node_reads(l, docs, ps.drop_last(), node, app, r)
        } else {
            r.len() > 0 && read_is(r.last(), p, d) && node_reads(l, docs, ps.drop_last(), node, app, r.drop_last())
        }
    }
}

/// `r` is the node listing of `pick`'s payments, ordered by time (`perm` being that order,
/// equal times in stored order) and cut to `max_events`.
pub open spec fn node_listing(
    dao: &PaymentDao,
    l: &Ledger,
    pick: PaymentPick,
    max_events: Option<u32>,
    app: Option<String>,
    perm: Seq<usize>,
    r: Seq<PaymentRead>,
) -> bool {
    let m = select_by(payments_view(dao.payments@), |p: PaymentRowView| payment_picked(p, pick));
    &&& index_perm(perm, m.len())
    &&& sorted_by(payment_times(m), perm, false)
    &&& node_reads(l, dao.documents@, limit(permuted(m, perm), max_events), pick->Node_owner_id@, app, r)
}

impl PaymentDao {
    pub fn new() -> (r: Self)
        ensures
            r.payments@.len() == 0,
            r.documents@.len() == 0,
    {
        PaymentDao { payments: Vec::new(), documents: Vec::new() }
    }

    /// Marks the payer's copies of payment `payment_id` as sent.
    pub fn mark_sent(&mut self, payment_id: &str)
        ensures
            final(self).payments@.len() == old(self).payments@.len(),
            forall|k: int|
                0 <= k < old(self).payments@.len() ==> (#[trigger] final(self).payments@[k])@ == if old(
                    self,
                ).payments@[k].id@ == payment_id@ && old(self).payments@[k].role == Role::Requestor {
                    PaymentRowView { send_payment: false, ..old(self).payments@[k]@ }
                } else {
                    old(self).payments@[k]@
                },
            final(self).documents == old(self).documents,
    {
        let ghost old_p = self.payments@;
        let mut k: usize = 0;
        while k < self.payments.len()
            invariant
                0 <= k <= self.payments.len(),
                self.payments@.len() == old_p.len(),
                forall|j: int| k <= j < old_p.len() ==> self.payments@[j] == old_p[j],
                forall|j: int|
                    0 <= j < k ==> (#[trigger] self.payments@[j])@ == if old_p[j].id@ == payment_id@
                        && old_p[j].role == Role::Requestor {
                        PaymentRowView { send_payment: false, ..old_p[j]@ }
                    } else {
                        old_p[j]@
                    },
                self.documents == old(self).documents,
                old_p == old(self).payments@,
            decreases self.payments.len() - k,
        {
            if text_eq(self.payments[k].id.as_str(), payment_id) && self.payments[k].role == Role::Requestor {
                let mut row = self.payments[k].duplicate();
                row.send_payment = false;
                self.payments.set(k, row);
            }
            k = k + 1;
        }
    }

    /// Signs the payer's copies of payment `payment_id`.
    pub fn add_signature(&mut self, payment_id: &str, signature: &Vec<u8>, signed_bytes: &Vec<u8>)
        ensures
            final(self).payments@.len() == old(self).payments@.len(),
            forall|k: int|
                0 <= k < old(self).payments@.len() ==> (#[trigger] final(self).payments@[k])@ == if old(
                    self,
                ).payments@[k].id@ == payment_id@ && old(self).payments@[k].role == Role::Requestor {
                    PaymentRowView {
                        signature: Some(signature@),
                        signed_bytes: Some(signed_bytes@),
                        ..old(self).payments@[k]@
                    }
                } else {
                    old(self).payments@[k]@
                },
            final(self).documents == old(self).documents,
    {
        let ghost old_p = self.payments@;
        let mut k: usize = 0;
        while k < self.payments.len()
            invariant
                0 <= k <= self.payments.len(),
                self.payments@.len() == old_p.len(),
                forall|j: int| k <= j < old_p.len() ==> self.payments@[j] == old_p[j],
                forall|j: int|
                    0 <= j < k ==> (#[trigger] self.payments@[j])@ == if old_p[j].id@ == payment_id@
                        && old_p[j].role == Role::Requestor {
                        PaymentRowView {
                            signature: Some(signature@),
                            signed_bytes: Some(signed_bytes@),
                            ..old_p[j]@
                        }
                    } else {
                        old_p[j]@
                    },
                self.documents == old(self).documents,
                old_p == old(self).payments@,
            decreases self.payments.len() - k,
        {
            if text_eq(self.payments[k].id.as_str(), payment_id) && self.payments[k].role == Role::Requestor {
                let mut row = self.payments[k].duplicate();
                row.signature = Some(clone_bytes(signature));
                row.signed_bytes = Some(clone_bytes(signed_bytes));
                self.payments.set(k, row);
            }
            k = k + 1;
        }
    }

    fn documents_for(&self, payment_id: &str, owner_id: &str) -> (r: Vec<DocumentPayment>)
        ensures
            r@ == documents_of(self.documents@, payment_id@, owner_id@),
    {
        let ghost p = |d: DocumentPayment| d.payment_id@ == payment_id@ && d.owner_id@ == owner_id@;
        let mut r: Vec<DocumentPayment> = Vec::new();
        let mut k: usize = 0;
        while k < self.documents.len()
            invariant
                0 <= k <= self.documents.len(),
                p == (|d: DocumentPayment| d.payment_id@ == payment_id@ && d.owner_id@ == owner_id@),
                r@ == select_by(self.documents@.take(k as int), p),
            decreases self.documents.len() - k,
        {
            proof {
                assert(self.documents@.take(k + 1).drop_last() =~= self.documents@.take(k as int));
                assert(self.documents@.take(k + 1).last() == self.documents@[k as int]);
            }
            let d = &self.documents[k];
            if text_eq(d.payment_id.as_str(), payment_id) && text_eq(d.owner_id.as_str(), owner_id) {
                r.push(d.duplicate());
            }
            k = k + 1;
        }
        proof {
            assert(self.documents@.take(k as int) =~= self.documents@);
        }
        r
    }

    /// Payment `payment_id` of `owner_id` with its documents, where there is one (the
    /// first stored).
    pub fn get(&self, payment_id: &str, owner_id: &str) -> (r: Option<PaymentRead>)
        ensures
            ({
                let s = select_by(
                    payments_view(self.payments@),
                    |p: PaymentRowView| p.id == payment_id@ && p.owner_id == owner_id@,
                );
                &&& s.len() == 0 ==> r is None
                &&& s.len() > 0 ==> (r matches Some(x) && read_is(
                    x,
                    s[0],
                    documents_of(self.documents@, payment_id@, owner_id@),
                ))
            }),
    {
        let ghost p = |x: PaymentRowView| x.id == payment_id@ && x.owner_id == owner_id@;
        let ghost pv = payments_view(self.payments@);
        let mut k: usize = 0;
        while k < self.payments.len()
            invariant
                0 <= k <= self.payments.len(),
                pv == payments_view(self.payments@),
                p == (|x: PaymentRowView| x.id == payment_id@ && x.owner_id == owner_id@),
                select_by(pv.take(k as int), p).len() == 0,
            decreases self.payments.len() - k,
        {
            proof {
                assert(pv.take(k + 1).drop_last() =~= pv.take(k as int));
                assert(pv.take(k + 1).last() == self.payments@[k as int]@);
            }
            if text_eq(self.payments[k].id.as_str(), payment_id) && text_eq(
                self.payments[k].owner_id.as_str(),
                owner_id,
            ) {
                proof {
                    lemma_select_first(pv, p, k as int);
                }
                let docs = self.documents_for(payment_id, owner_id);
                return Some(PaymentRead { payment: self.payments[k].duplicate(), documents: docs });
            }
            k = k + 1;
        }
        proof {
            assert(pv.take(k as int) =~= pv);
        }
        None
    }

    fn pick_exec(p: &PaymentRow, pick: &PaymentPick) -> (r: bool)
        ensures
            r == payment_picked(p@, *pick),
    {
        match pick {
            PaymentPick::Confirmation { details, role } => bytes_eq(&p.details, details) && p.role == *role,
            PaymentPick::Unsent { owner_id, peer_id } => p.send_payment && text_eq(
                p.owner_id.as_str(),
                owner_id.as_str(),
            ) && match peer_id {
                Some(x) => text_eq(p.peer_id.as_str(), x.as_str()),
                None => true,
            },
            PaymentPick::Node { owner_id, after_timestamp, network, driver } => {
                let own = text_eq(p.owner_id.as_str(), owner_id.as_str());
                let after = match after_timestamp {
                    Some(t) => p.timestamp > *t,
                    None => true,
                };
                let net = match network {
                    Some(n) => {
                        let t = n.to_text();
                        text_starts_with(p.payment_platform.as_str(), t.as_str())
                    },
                    None => true,
                };
                let drv = match driver {
                    Some(d) => {
                        let t = d.to_text();
                        text_contains(p.payment_platform.as_str(), t.as_str())
                    },
                    None => true,
                };
                own && after && net && drv
            },
        }
    }

    /// The payments that `pick` picks, in stored order.
    fn pick_payments(&self, pick: &PaymentPick) -> (r: Vec<usize>)
        ensures
            r@.len() == select_by(payments_view(self.payments@), |p: PaymentRowView| payment_picked(p, *pick)).len(),
            forall|j: int|
                0 <= j < r@.len() ==> #[trigger] r@[j] < self.payments@.len() && self.payments@[r@[j] as int]@
                    == select_by(payments_view(self.payments@), |p: PaymentRowView| payment_picked(p, *pick))[j],
    {
        let ghost p = |x: PaymentRowView| payment_picked(x, *pick);
        let ghost pv = payments_view(self.payments@);
        let mut r: Vec<usize> = Vec::new();
        let mut k: usize = 0;
        while k < self.payments.len()
            invariant
                0 <= k <= self.payments.len(),
                pv == payments_view(self.payments@),
                p == (|x: PaymentRowView| payment_picked(x, *pick)),
                r@.len() == select_by(pv.take(k as int), p).len(),
                forall|j: int|
                    0 <= j < r@.len() ==> #[trigger] r@[j] < self.payments@.len() && self.payments@[r@[j] as int]@
                        == select_by(pv.take(k as int), p)[j],
            decreases self.payments.len() - k,
        {
            proof {
                assert(pv.take(k + 1).drop_last() =~= pv.take(k as int));
                assert(pv.take(k + 1).last() == self.payments@[k as int]@);
            }
            if Self::pick_exec(&self.payments[k], pick) {
                r.push(k);
            }
            k = k + 1;
        }
        proof {
            assert(pv.take(k as int) =~= pv);
        }
        r
    }

    fn read_all(&self, pos: &Vec<usize>) -> (r: Vec<PaymentRead>)
        requires
            forall|j: int| 0 <= j < pos@.len() ==> #[trigger] pos@[j] < self.payments@.len(),
        ensures
            reads_with_documents(
                r@,
                pos@.map_values(|i: usize| self.payments@[i as int]@),
                self.documents@,
            ),
    {
        let ghost ps = pos@.map_values(|i: usize| self.payments@[i as int]@);
        let mut r: Vec<PaymentRead> = Vec::new();
        let mut j: usize = 0;
        while j < pos.len()
            invariant
                0 <= j <= pos@.len(),
                forall|t: int| 0 <= t < pos@.len() ==> #[trigger] pos@[t] < self.payments@.len(),
                ps == pos@.map_values(|i: usize| self.payments@[i as int]@),
                reads_with_documents(r@, ps.take(j as int), self.documents@),
            decreases pos@.len() - j,
        {
            let row = &self.payments[pos[j]];
            let docs = self.documents_for(row.id.as_str(), row.owner_id.as_str());
            r.push(PaymentRead { payment: row.duplicate(), documents: docs });
            proof {
                assert(ps.take(j + 1) =~= ps.take(j as int).push(ps[j as int]));
            }
            j = j + 1;
        }
        proof {
            assert(ps.take(j as int) =~= ps);
        }
        r
    }

    /// The payments with confirmation `details` of `role`, each with its documents, in
    /// stored order.
    pub fn get_for_confirmation(&self, details: Vec<u8>, role: Role) -> (r: Vec<PaymentRead>)
        ensures
            reads_with_documents(
                r@,
                select_by(
                    payments_view(self.payments@),
                    |p: PaymentRowView| payment_picked(p, PaymentPick::Confirmation { details: details, role: role }),
                ),
                self.documents@,
            ),
    {
        let pick = PaymentPick::Confirmation { details, role };
        let pos = self.pick_payments(&pick);
        let r = self.read_all(&pos);
        proof {
            assert(pos@.map_values(|i: usize| self.payments@[i as int]@) =~= select_by(
                payments_view(self.payments@),
                |p: PaymentRowView| payment_picked(p, pick),
            ));
        }
        r
    }

    /// The payments of `owner` still to be sent (to `peer_id`, where given), each with its
    /// documents, in stored order.
    pub fn list_unsent(&self, owner: String, peer_id: Option<String>) -> (r: Vec<PaymentRead>)
        ensures
            reads_with_documents(
                r@,
                select_by(
                    payments_view(self.payments@),
                    |p: PaymentRowView| payment_picked(p, PaymentPick::Unsent { owner_id: owner, peer_id: peer_id }),
                ),
                self.documents@,
            ),
    {
        let pick = PaymentPick::Unsent { owner_id: owner, peer_id };
        let pos = self.pick_payments(&pick);
        let r = self.read_all(&pos);
        proof {
            assert(pos@.map_values(|i: usize| self.payments@[i as int]@) =~= select_by(
                payments_view(self.payments@),
                |p: PaymentRowView| payment_picked(p, pick),
            ));
        }
        r
    }
    fn listed_documents_exec(&self, l: &Ledger, payment_id: &str, node: &str, app: &Option<String>) -> (r: Vec<
        DocumentPayment,
    >)
        requires
            l.wf(),
        ensures
            r@ == select_by(
                self.documents@,
                |d: DocumentPayment| d.payment_id@ == payment_id@ && document_listed(l, d, node@, *app),
            ),
    {
        let ghost p = |d: DocumentPayment| d.payment_id@ == payment_id@ && document_listed(l, d, node@, *app);
        let mut r: Vec<DocumentPayment> = Vec::new();
        let mut k: usize = 0;
        while k < self.documents.len()
            invariant
                l.wf(),
                0 <= k <= self.documents.len(),
                p == (|d: DocumentPayment| d.payment_id@ == payment_id@ && document_listed(l, d, node@, *app)),
                r@ == select_by(self.documents@.take(k as int), p),
            decreases self.documents.len() - k,
        {
            proof {
                assert(self.documents@.take(k + 1).drop_last() =~= self.documents@.take(k as int));
                assert(self.documents@.take(k + 1).last() == self.documents@[k as int]);
            }
            let d = &self.documents[k];
            let mut hit = text_eq(d.payment_id.as_str(), payment_id) && text_eq(d.owner_id.as_str(), node);
            if hit {
                match crate::ledger::find_key(&l.agreements, d.agreement_id.as_str(), d.owner_id.as_str()) {
                    Some(i) => {
                        proof {
                            crate::ledger::lemma_key_index(l.agreements@, d.agreement_id@, d.owner_id@, i as int);
                        }
                        hit = match app {
                            Some(a) => match &l.agreements[i].app_session_id {
                                Some(x) => text_eq(x.as_str(), a.as_str()),
                                None => false,
                            },
                            None => true,
                        };
                    },
                    None => {
                        hit = false;
                    },
                }
            }
            if hit {
                r.push(d.duplicate());
            }
            k = k + 1;
        }
        proof {
            assert(self.documents@.take(k as int) =~= self.documents@);
        }
        r
    }

    /// The payments of `node_id` after `after_timestamp`, oldest first, at most
    /// `max_events` of them, on the network and driver where given; each with its
    /// documents whose agreements are in the ledger and of the application session where
    /// one is asked for, in which case payments left with no document are not listed.
    pub fn get_for_node_id(
        &self,
        ledger: &Ledger,
        node_id: String,
        after_timestamp: Option<i64>,
        max_events: Option<u32>,
        app_session_id: Option<String>,
        network: Option<NetworkName>,
        driver: Option<DriverName>,
    ) -> (r: Vec<PaymentRead>)
        requires
            ledger.wf(),
        ensures
            exists|perm: Seq<usize>|
                node_listing(
                    self,
                    ledger,
                    PaymentPick::Node {
                        owner_id: node_id,
                        after_timestamp: after_timestamp,
                        network: network,
                        driver: driver,
                    },
                    max_events,
                    app_session_id,
                    perm,
                    r@,
                ),
    {
        let pick = PaymentPick::Node { owner_id: node_id, after_timestamp, network, driver };
        let pos = self.pick_payments(&pick);
        let ghost m = select_by(payments_view(self.payments@), |p: PaymentRowView| payment_picked(p, pick));
        let mut keys: Vec<i64> = Vec::new();
        let mut i: usize = 0;
        while i < pos.len()
            invariant
                0 <= i <= pos@.len(),
                pos@.len() == m.len(),
                forall|j: int| 0 <= j < pos@.len() ==> #[trigger] pos@[j] < self.payments@.len()
                    && self.payments@[pos@[j] as int]@ == m[j],
                keys@ == payment_times(m).take(i as int),
            decreases pos@.len() - i,
        {
            keys.push(self.payments[pos[i]].timestamp);
            proof {
                assert(payment_times(m).take(i + 1) =~= payment_times(m).take(i as int).push(m[i as int].timestamp));
            }
            i = i + 1;
        }
        proof {
            assert(payment_times(m).take(i as int) =~= payment_times(m));
        }
        let perm = order_by_key(&keys, false);
        let n: usize = match max_events {
            Some(max) => if (max as usize) < perm.len() {
                max as usize
            } else {
                perm.len()
            },
            None => perm.len(),
        };
        let ghost ordered = permuted(m, perm@);
        proof {
            assert(limit(ordered, max_events) =~= ordered.take(n as int));
        }
        let node = match &pick {
            PaymentPick::Node { owner_id, .. } => owner_id,
            _ => {
                proof {
                    assert(false);
                }
                return Vec::new();
            },
        };
        let mut r: Vec<PaymentRead> = Vec::new();
        let mut j: usize = 0;
        while j < n
            invariant
                0 <= j <= n,
                n <= perm@.len(),
                ledger.wf(),
                index_perm(perm@, m.len()),
                pos@.len() == m.len(),
                forall|t: int| 0 <= t < pos@.len() ==> #[trigger] pos@[t] < self.payments@.len()
                    && self.payments@[pos@[t] as int]@ == m[t],
                ordered == permuted(m, perm@),
                node@ == pick->Node_owner_id@,
                node_reads(ledger, self.documents@, ordered.take(j as int), node@, app_session_id, r@),
            decreases n - j,
        {
            let row = &self.payments[pos[perm[j]]];
            let docs = self.listed_documents_exec(ledger, row.id.as_str(), node.as_str(), &app_session_id);
            proof {
                assert(ordered.take(j + 1).drop_last() =~= ordered.take(j as int));
                assert(ordered.take(j + 1).last() == row@);
                let p1 = |d: DocumentPayment| d.payment_id@ == row.id@ && document_listed(ledger, d, node@, app_session_id);
                let p2 = |d: DocumentPayment| d.payment_id@ == row@.id && document_listed(ledger, d, node@, app_session_id);
                assert(p1 =~= p2);
                assert(docs@ == listed_documents(ledger, self.documents@, row@, node@, app_session_id));
            }
            if !(app_session_id.is_some() && docs.len() == 0) {
                let x = PaymentRead { payment: row.duplicate(), documents: docs };
                let ghost before = r@;
                r.push(x);
                proof {
                    assert(r@.drop_last() =~= before);
                }
            }
            j = j + 1;
        }
        proof {
            assert(node_listing(self, ledger, pick, max_events, app_session_id, perm@, r@));
        }
        r
    }
}

proof fn lemma_select_first<A>(s: Seq<A>, p: spec_fn(A) -> bool, k: int)
    requires
        0 <= k < s.len(),
        select_by(s.take(k), p).len() == 0,
        p(s[k]),
    ensures
        select_by(s, p).len() > 0,
        select_by(s, p)[0] == s[k],
    decreases s.len() - k,
{
    if k == s.len() - 1 {
        assert(s.drop_last() =~= s.take(k));
    } else {
        assert(s.drop_last().take(k) =~= s.take(k));
        lemma_select_first(s.drop_last(), p, k);
    }
}

} // verus!

verus! {

/// What a payment pays for an activity, from an allocation where named.
#[derive(Debug)]
pub struct ActivityPayment {
    pub activity_id: String,
    pub amount: i128,
    pub allocation_id: Option<String>,
}

/// What a payment pays for an agreement, from an allocation where named.
#[derive(Debug)]
pub struct AgreementPayment {
    pub agreement_id: String,
    pub amount: i128,
    pub allocation_id: Option<String>,
}

/// The largest amount of one part of a payment that the ledger's bounds are checked for.
pub open spec fn part_limit() -> int {
    0x10_0000_0000_0000_0000_0000_0000
}

/// The largest paid total that a ledger may hold before a payment is recorded.
pub open spec fn paid_limit() -> int {
    0x800_0000_0000_0000_0000_0000_0000_0000
}

/// Every paid total of the agreements and activities of `l` is within `b` of zero.
pub open spec fn paid_within(l: &Ledger, b: int) -> bool {
    &&& forall|i: int|
        0 <= i < l.agreements@.len() ==> -b <= #[trigger] l.agreements@[i].total_amount_paid <= b
    &&& forall|i: int|
        0 <= i < l.activities@.len() ==> -b <= #[trigger] l.activities@[i].total_amount_paid <= b
}

/// `states` walks the ledger through the activity payments `ps` of `owner`: before each
/// payment (at even positions) and between its two steps (at odd ones), the activity's
/// agreement is paid, then the activity is (which pays its agreement once more).
pub open spec fn activity_payments_applied(states: Seq<Ledger>, ps: Seq<ActivityPayment>, owner: Seq<char>) -> bool {
    &&& states.len() == 2 * ps.len() + 1
    &&& forall|k: int|
        0 <= k < ps.len() ==> {
            let a = states[2 * k];
            let ag = a.activity((#[trigger] ps[k]).activity_id@, owner).agreement_id@;
            &&& crate::dao::agreement::paid_on_agreement(&a, &states[2 * k + 1], ag, owner, ps[k].amount as int)
            &&& crate::dao::activity::paid_on_activity(
                &states[2 * k + 1],
                &states[2 * k + 2],
                ps[k].activity_id@,
                owner,
                ps[k].amount as int,
            )
        }
}

/// `states` walks the ledger through the agreement payments `ps` of `owner`, one agreement
/// paid per step.
pub open spec fn agreement_payments_applied(states: Seq<Ledger>, ps: Seq<AgreementPayment>, owner: Seq<char>) -> bool {
    &&& states.len() == ps.len() + 1
    &&& forall|k: int|
        0 <= k < ps.len() ==> crate::dao::agreement::paid_on_agreement(
            &states[k],
            &states[k + 1],
            (#[trigger] ps[k]).agreement_id@,
            owner,
            ps[k].amount as int,
        )
}

/// Every activity payment names an activity of `owner` whose agreement is in the ledger.
pub open spec fn activities_known(l: &Ledger, ps: Seq<ActivityPayment>, owner: Seq<char>) -> bool {
    forall|k: int| 0 <= k < ps.len() ==> crate::dao::activity::activity_and_agreement(l, (#[trigger] ps[k]).activity_id@, owner)
}

/// Every agreement payment names an agreement of `owner` in the ledger.
pub open spec fn agreements_known(l: &Ledger, ps: Seq<AgreementPayment>, owner: Seq<char>) -> bool {
    forall|k: int| 0 <= k < ps.len() ==> has_key(l.agreements@, (#[trigger] ps[k]).agreement_id@, owner)
}

/// `b` holds the same keys as `a`, each activity still under the same agreement.
pub open spec fn same_keys(a: &Ledger, b: &Ledger) -> bool {
    &&& b.agreements@.len() == a.agreements@.len()
    &&& b.activities@.len() == a.activities@.len()
    &&& forall|i: int|
        0 <= i < a.agreements@.len() ==> (#[trigger] b.agreements@[i]).id == a.agreements@[i].id
            && b.agreements@[i].owner_id == a.agreements@[i].owner_id
    &&& forall|i: int|
        0 <= i < a.activities@.len() ==> (#[trigger] b.activities@[i]).id == a.activities@[i].id
            && b.activities@[i].owner_id == a.activities@[i].owner_id && b.activities@[i].agreement_id
            == a.activities@[i].agreement_id
}

proof fn lemma_same_keys_has_key<R: crate::ledger::Keyed>(a: Seq<R>, b: Seq<R>, id: Seq<char>, owner: Seq<char>)
    requires
        a.len() == b.len(),
        forall|i: int| 0 <= i < a.len() ==> (#[trigger] b[i]).key_id() == a[i].key_id() && b[i].key_owner() == a[i].key_owner(),
    ensures
        has_key(b, id, owner) == has_key(a, id, owner),
{
    if has_key(a, id, owner) {
        let i = choose|i: int| 0 <= i < a.len() && #[trigger] crate::ledger::key_is(a[i], id, owner);
        assert(crate::ledger::key_is(b[i], id, owner));
    }
    if has_key(b, id, owner) {
        let i = choose|i: int| 0 <= i < b.len() && #[trigger] crate::ledger::key_is(b[i], id, owner);
        assert(crate::ledger::key_is(a[i], id, owner));
    }
}

/// Ledgers with the same keys know the same activities and agreements.
proof fn lemma_same_keys_known(a: &Ledger, b: &Ledger)
    requires
        a.wf(),
        b.wf(),
        same_keys(a, b),
    ensures
        forall|id: Seq<char>, owner: Seq<char>|
            #[trigger] has_key(b.agreements@, id, owner) == has_key(a.agreements@, id, owner),
        forall|id: Seq<char>, owner: Seq<char>|
            #[trigger] crate::dao::activity::activity_and_agreement(b, id, owner)
                == crate::dao::activity::activity_and_agreement(a, id, owner),
{
    assert forall|id: Seq<char>, owner: Seq<char>|
        #[trigger] has_key(b.agreements@, id, owner) == has_key(a.agreements@, id, owner) by {
        lemma_same_keys_has_key(a.agreements@, b.agreements@, id, owner);
    }
    assert forall|id: Seq<char>, owner: Seq<char>|
        #[trigger] crate::dao::activity::activity_and_agreement(b, id, owner)
            == crate::dao::activity::activity_and_agreement(a, id, owner) by {
        lemma_same_keys_has_key(a.activities@, b.activities@, id, owner);
        if has_key(a.activities@, id, owner) {
            let i = key_index(a.activities@, id, owner);
            crate::ledger::lemma_key_index(a.activities@, id, owner, i);
            assert(crate::ledger::key_is(b.activities@[i], id, owner));
            crate::ledger::lemma_key_index(b.activities@, id, owner, i);
            let ag = a.activities@[i].agreement_id@;
            lemma_same_keys_has_key(a.agreements@, b.agreements@, ag, owner);
        }
    }
}

proof fn lemma_same_keys_trans(a: &Ledger, b: &Ledger, c: &Ledger)
    requires
        same_keys(a, b),
        same_keys(b, c),
    ensures
        same_keys(a, c),
{
}

/// Paying an agreement keeps the keys and moves its paid total by the amount.
proof fn lemma_paid_on_agreement_keys(a: &Ledger, m: &Ledger, id: Seq<char>, owner: Seq<char>, amount: int, bound: int)
    requires
        a.wf(),
        has_key(a.agreements@, id, owner),
        crate::dao::agreement::paid_on_agreement(a, m, id, owner, amount),
        paid_within(a, bound),
        -part_limit() <= amount <= part_limit(),
    ensures
        same_keys(a, m),
        paid_within(m, bound + part_limit()),
{
    let k = key_index(a.agreements@, id, owner);
    assert(crate::ledger::key_is(a.agreements@[k], id, owner));
    assert forall|i: int| 0 <= i < a.agreements@.len() implies (#[trigger] m.agreements@[i]).id == a.agreements@[i].id
        && m.agreements@[i].owner_id == a.agreements@[i].owner_id by {}
    assert forall|i: int| 0 <= i < m.agreements@.len() implies -(bound + part_limit()) <= #[trigger] m.agreements@[i].total_amount_paid
        <= bound + part_limit() by {
        assert(-bound <= a.agreements@[i].total_amount_paid <= bound);
    }
    assert forall|i: int| 0 <= i < m.activities@.len() implies -(bound + part_limit()) <= #[trigger] m.activities@[i].total_amount_paid
        <= bound + part_limit() by {
        assert(-bound <= a.activities@[i].total_amount_paid <= bound);
    }
}

/// Paying an activity keeps the keys and moves its paid total, and its agreement's, by
/// the amount.
proof fn lemma_paid_on_activity_keys(m: &Ledger, b: &Ledger, id: Seq<char>, owner: Seq<char>, amount: int, bound: int)
    requires
        m.wf(),
        crate::dao::activity::activity_and_agreement(m, id, owner),
        crate::dao::activity::paid_on_activity(m, b, id, owner, amount),
        paid_within(m, bound),
        -part_limit() <= amount <= part_limit(),
    ensures
        same_keys(m, b),
        paid_within(b, bound + part_limit()),
{
    let k = key_index(m.activities@, id, owner);
    assert(crate::ledger::key_is(m.activities@[k], id, owner));
    let act = m.activity(id, owner);
    let g = key_index(m.agreements@, act.agreement_id@, owner);
    assert(crate::ledger::key_is(m.agreements@[g], act.agreement_id@, owner));
    assert forall|i: int| 0 <= i < m.agreements@.len() implies (#[trigger] b.agreements@[i]).id == m.agreements@[i].id
        && b.agreements@[i].owner_id == m.agreements@[i].owner_id by {}
    assert forall|i: int| 0 <= i < m.activities@.len() implies (#[trigger] b.activities@[i]).id == m.activities@[i].id
        && b.activities@[i].owner_id == m.activities@[i].owner_id && b.activities@[i].agreement_id
        == m.activities@[i].agreement_id by {}
    assert forall|i: int| 0 <= i < b.agreements@.len() implies -(bound + part_limit()) <= #[trigger] b.agreements@[i].total_amount_paid
        <= bound + part_limit() by {
        assert(-bound <= m.agreements@[i].total_amount_paid <= bound);
    }
    assert forall|i: int| 0 <= i < b.activities@.len() implies -(bound + part_limit()) <= #[trigger] b.activities@[i].total_amount_paid
        <= bound + part_limit() by {
        assert(-bound <= m.activities@[i].total_amount_paid <= bound);
    }
}

/// `new` is `old` followed by the records of what payment `payment_id` of `owner` pays for
/// each activity payment of `ps`, under the agreement of its activity in `l`.
pub open spec fn activity_documents_appended(
    old: Seq<DocumentPayment>,
    new: Seq<DocumentPayment>,
    l: &Ledger,
    ps: Seq<ActivityPayment>,
    payment_id: Seq<char>,
    owner: Seq<char>,
) -> bool {
    &&& new.len() == old.len() + ps.len()
    &&& new.take(old.len() as int) == old
    &&& forall|k: int|
        0 <= k < ps.len() ==> {
            let d = #[trigger] new[old.len() + k];
            &&& d.payment_id@ == payment_id
            &&& d.owner_id@ == owner
            &&& d.agreement_id == l.activity(ps[k].activity_id@, owner).agreement_id
            &&& d.invoice_id is None
            &&& d.debit_note_id is None
            &&& (d.activity_id matches Some(a) && a@ == ps[k].activity_id@)
            &&& d.amount == ps[k].amount
        }
}

/// `new` is `old` followed by the records of what payment `payment_id` of `owner` pays for
/// each agreement payment of `ps`.
pub open spec fn agreement_documents_appended(
    old: Seq<DocumentPayment>,
    new: Seq<DocumentPayment>,
    ps: Seq<AgreementPayment>,
    payment_id: Seq<char>,
    owner: Seq<char>,
) -> bool {
    &&& new.len() == old.len() + ps.len()
    &&& new.take(old.len() as int) == old
    &&& forall|k: int|
        0 <= k < ps.len() ==> {
            let d = #[trigger] new[old.len() + k];
            &&& d.payment_id@ == payment_id
            &&& d.owner_id@ == owner
            &&& d.agreement_id == ps[k].agreement_id
            &&& d.invoice_id is None
            &&& d.debit_note_id is None
            &&& d.activity_id is None
            &&& d.amount == ps[k].amount
        }
}

proof fn lemma_same_keys_activity(a: &Ledger, b: &Ledger, id: Seq<char>, owner: Seq<char>)
    requires
        a.wf(),
        b.wf(),
        same_keys(a, b),
        has_key(a.activities@, id, owner),
    ensures
        has_key(b.activities@, id, owner),
        b.activity(id, owner).agreement_id == a.activity(id, owner).agreement_id,
{
    let i = key_index(a.activities@, id, owner);
    crate::ledger::lemma_key_index(a.activities@, id, owner, i);
    assert(crate::ledger::key_is(b.activities@[i], id, owner));
    crate::ledger::lemma_key_index(b.activities@, id, owner, i);
}

fn activities_known_exec(ledger: &Ledger, ps: &Vec<ActivityPayment>, owner: &str) -> (r: bool)
    requires
        ledger.wf(),
    ensures
        r == activities_known(ledger, ps@, owner@),
{
    let mut k: usize = 0;
    while k < ps.len()
        invariant
            ledger.wf(),
            0 <= k <= ps.len(),
            forall|j: int| 0 <= j < k ==> crate::dao::activity::activity_and_agreement(ledger, (#[trigger] ps@[j]).activity_id@, owner@),
        decreases ps.len() - k,
    {
        let a = match crate::dao::activity::locate_activity(ledger, ps[k].activity_id.as_str(), owner) {
            Some(a) => a,
            None => {
                return false;
            },
        };
        if crate::dao::agreement::locate(ledger, ledger.activities[a].agreement_id.as_str(), owner).is_none() {
            return false;
        }
        k = k + 1;
    }
    true
}

fn agreements_known_exec(ledger: &Ledger, ps: &Vec<AgreementPayment>, owner: &str) -> (r: bool)
    requires
        ledger.wf(),
    ensures
        r == agreements_known(ledger, ps@, owner@),
{
    let mut k: usize = 0;
    while k < ps.len()
        invariant
            ledger.wf(),
            0 <= k <= ps.len(),
            forall|j: int| 0 <= j < k ==> has_key(ledger.agreements@, (#[trigger] ps@[j]).agreement_id@, owner@),
        decreases ps.len() - k,
    {
        if crate::dao::agreement::locate(ledger, ps[k].agreement_id.as_str(), owner).is_none() {
            return false;
        }
        k = k + 1;
    }
    true
}

/// Records the activity payments of payment `payment_id` of `owner`: for each, its
/// activity's agreement is paid, then the activity (which pays the agreement once more),
/// and what it paid is recorded.
fn insert_activity_payments(
    ledger: &mut Ledger,
    documents: &mut Vec<DocumentPayment>,
    ps: &Vec<ActivityPayment>,
    payment_id: &str,
    owner: &str,
    Ghost(bound): Ghost<int>,
)
    requires
        old(ledger).wf(),
        activities_known(old(ledger), ps@, owner@),
        paid_within(old(ledger), bound),
        0 <= bound,
        bound + 2 * ps@.len() * part_limit() + part_limit() <= crate::dao::batch::amount_limit(),
        forall|k: int| 0 <= k < ps@.len() ==> 0 < (#[trigger] ps@[k]).amount <= part_limit(),
    ensures
        final(ledger).wf(),
        same_keys(old(ledger), final(ledger)),
        paid_within(final(ledger), bound + 2 * ps@.len() * part_limit()),
        exists|states: Seq<Ledger>|
            activity_payments_applied(states, ps@, owner@) && states[0] == *old(ledger) && states.last()
                == *final(ledger),
        activity_documents_appended(old(documents)@, final(documents)@, old(ledger), ps@, payment_id@, owner@),
{
    let ghost l0 = *ledger;
    let ghost d0 = documents@;
    let ghost mut states: Seq<Ledger> = seq![*ledger];
    let mut k: usize = 0;
    proof {
        assert(documents@.take(d0.len() as int) =~= d0);
    }
    while k < ps.len()
        invariant
            0 <= k <= ps.len(),
            ledger.wf(),
            l0.wf(),
            l0 == *old(ledger),
            d0 == old(documents)@,
            activities_known(&l0, ps@, owner@),
            same_keys(&l0, ledger),
            0 <= bound,
            paid_within(ledger, bound + 2 * k * part_limit()),
            bound + 2 * ps@.len() * part_limit() + part_limit() <= crate::dao::batch::amount_limit(),
            forall|j: int| 0 <= j < ps@.len() ==> 0 < (#[trigger] ps@[j]).amount <= part_limit(),
            activity_payments_applied(states, ps@.take(k as int), owner@),
            states[0] == l0,
            states.last() == *ledger,
            activity_documents_appended(d0, documents@, &l0, ps@.take(k as int), payment_id@, owner@),
        decreases ps.len() - k,
    {
        let p = &ps[k];
        let ghost cur = *ledger;
        let ghost b = bound + 2 * k * part_limit();
        proof {
            lemma_same_keys_known(&l0, &cur);
            assert(crate::dao::activity::activity_and_agreement(&l0, ps@[k as int].activity_id@, owner@));
            lemma_same_keys_activity(&l0, &cur, p.activity_id@, owner@);
            assert(2 * k * part_limit() + part_limit() <= 2 * ps@.len() * part_limit()) by (nonlinear_arith)
                requires k < ps@.len(), part_limit() > 0;
        }
        let a = match crate::dao::activity::locate_activity(ledger, p.activity_id.as_str(), owner) {
            Some(a) => a,
            None => {
                proof {
                    assert(false);
                }
                return;
            },
        };
        let agreement_id = ledger.activities[a].agreement_id.clone();
        proof {
            assert(crate::dao::activity::activity_and_agreement(&cur, p.activity_id@, owner@));
            assert(has_key(cur.agreements@, agreement_id@, owner@));
            let g = key_index(cur.agreements@, agreement_id@, owner@);
            assert(crate::ledger::key_is(cur.agreements@[g], agreement_id@, owner@));
            assert(-b <= cur.agreements@[g].total_amount_paid <= b);
        }
        let _ = crate::dao::agreement::increase_amount_paid(ledger, agreement_id.as_str(), owner, p.amount);
        let ghost mid = *ledger;
        proof {
            lemma_paid_on_agreement_keys(&cur, &mid, agreement_id@, owner@, p.amount as int, b);
            lemma_same_keys_known(&cur, &mid);
            lemma_same_keys_activity(&cur, &mid, p.activity_id@, owner@);
            assert(crate::dao::activity::activity_and_agreement(&mid, p.activity_id@, owner@));
            let ai = key_index(mid.activities@, p.activity_id@, owner@);
            assert(crate::ledger::key_is(mid.activities@[ai], p.activity_id@, owner@));
            assert(-(b + part_limit()) <= mid.activities@[ai].total_amount_paid <= b + part_limit());
            assert(has_key(mid.agreements@, agreement_id@, owner@));
            let gi = key_index(mid.agreements@, agreement_id@, owner@);
            assert(crate::ledger::key_is(mid.agreements@[gi], agreement_id@, owner@));
            assert(-(b + part_limit()) <= mid.agreements@[gi].total_amount_paid <= b + part_limit());
        }
        let _ = crate::dao::activity::increase_amount_paid(ledger, p.activity_id.as_str(), owner, p.amount);
        proof {
            lemma_paid_on_activity_keys(&mid, ledger, p.activity_id@, owner@, p.amount as int, b + part_limit());
            lemma_same_keys_trans(&l0, &cur, &mid);
            lemma_same_keys_trans(&l0, &mid, ledger);
            assert(b + 2 * part_limit() == bound + 2 * (k + 1) * part_limit()) by (nonlinear_arith)
                requires b == bound + 2 * k * part_limit();
            assert(paid_within(ledger, bound + 2 * (k + 1) * part_limit()));
        }
        let ghost d_before = documents@;
        documents.push(
            DocumentPayment {
                payment_id: payment_id.to_string(),
                owner_id: owner.to_string(),
                agreement_id,
                invoice_id: None,
                activity_id: Some(p.activity_id.clone()),
                debit_note_id: None,
                amount: p.amount,
            },
        );
        proof {
            let ghost s1 = states.push(mid).push(*ledger);
            let pk = ps@.take(k + 1);
            assert(pk.take(k as int) =~= ps@.take(k as int));
            assert forall|j: int| 0 <= j < pk.len() implies {
                let a0 = s1[2 * j];
                let ag = a0.activity((#[trigger] pk[j]).activity_id@, owner@).agreement_id@;
                &&& crate::dao::agreement::paid_on_agreement(&a0, &s1[2 * j + 1], ag, owner@, pk[j].amount as int)
                &&& crate::dao::activity::paid_on_activity(
                    &s1[2 * j + 1],
                    &s1[2 * j + 2],
                    pk[j].activity_id@,
                    owner@,
                    pk[j].amount as int,
                )
            } by {
                if j < k {
                    assert(pk[j] == ps@.take(k as int)[j]);
                    assert(s1[2 * j] == states[2 * j]);
                    assert(s1[2 * j + 1] == states[2 * j + 1]);
                    assert(s1[2 * j + 2] == states[2 * j + 2]);
                } else {
                    assert(s1[2 * j] == cur);
                    assert(s1[2 * j + 1] == mid);
                    assert(s1[2 * j + 2] == *ledger);
                }
            }
            states = s1;
            lemma_same_keys_activity(&l0, &cur, p.activity_id@, owner@);
            let dn = documents@;
            assert(dn.take(d0.len() as int) =~= d0) by {
                assert(d_before.take(d0.len() as int) == d0);
            }
            assert forall|j: int| 0 <= j < pk.len() implies {
                let d = #[trigger] dn[d0.len() + j];
                &&& d.payment_id@ == payment_id@
                &&& d.owner_id@ == owner@
                &&& d.agreement_id == l0.activity(pk[j].activity_id@, owner@).agreement_id
                &&& d.invoice_id is None
                &&& d.debit_note_id is None
                &&& (d.activity_id matches Some(x) && x@ == pk[j].activity_id@)
                &&& d.amount == pk[j].amount
            } by {
                if j < k {
                    assert(dn[d0.len() + j] == d_before[d0.len() + j]);
                    assert(pk[j] == ps@.take(k as int)[j]);
                }
            }
        }
        k = k + 1;
    }
    proof {
        assert(ps@.take(k as int) =~= ps@);
    }
}

/// Records the agreement payments of payment `payment_id` of `owner`: each agreement is
/// paid, and what it paid is recorded.
fn insert_agreement_payments(
    ledger: &mut Ledger,
    documents: &mut Vec<DocumentPayment>,
    ps: &Vec<AgreementPayment>,
    payment_id: &str,
    owner: &str,
    Ghost(bound): Ghost<int>,
)
    requires
        old(ledger).wf(),
        agreements_known(old(ledger), ps@, owner@),
        paid_within(old(ledger), bound),
        0 <= bound,
        bound + ps@.len() * part_limit() + part_limit() <= crate::dao::batch::amount_limit(),
        forall|k: int| 0 <= k < ps@.len() ==> -part_limit() <= (#[trigger] ps@[k]).amount <= part_limit(),
    ensures
        final(ledger).wf(),
        same_keys(old(ledger), final(ledger)),
        paid_within(final(ledger), bound + ps@.len() * part_limit()),
        exists|states: Seq<Ledger>|
            agreement_payments_applied(states, ps@, owner@) && states[0] == *old(ledger) && states.last()
                == *final(ledger),
        agreement_documents_appended(old(documents)@, final(documents)@, ps@, payment_id@, owner@),
{
    let ghost l0 = *ledger;
    let ghost d0 = documents@;
    let ghost mut states: Seq<Ledger> = seq![*ledger];
    let mut k: usize = 0;
    proof {
        assert(documents@.take(d0.len() as int) =~= d0);
    }
    while k < ps.len()
        invariant
            0 <= k <= ps.len(),
            ledger.wf(),
            l0.wf(),
            l0 == *old(ledger),
            d0 == old(documents)@,
            agreements_known(&l0, ps@, owner@),
            same_keys(&l0, ledger),
            0 <= bound,
            paid_within(ledger, bound + k * part_limit()),
            bound + ps@.len() * part_limit() + part_limit() <= crate::dao::batch::amount_limit(),
            forall|j: int| 0 <= j < ps@.len() ==> -part_limit() <= (#[trigger] ps@[j]).amount <= part_limit(),
            agreement_payments_applied(states, ps@.take(k as int), owner@),
            states[0] == l0,
            states.last() == *ledger,
            agreement_documents_appended(d0, documents@, ps@.take(k as int), payment_id@, owner@),
        decreases ps.len() - k,
    {
        let p = &ps[k];
        let ghost cur = *ledger;
        let ghost b = bound + k * part_limit();
        proof {
            lemma_same_keys_known(&l0, &cur);
            assert(has_key(l0.agreements@, ps@[k as int].agreement_id@, owner@));
            assert(has_key(cur.agreements@, p.agreement_id@, owner@));
            let g = key_index(cur.agreements@, p.agreement_id@, owner@);
            assert(crate::ledger::key_is(cur.agreements@[g], p.agreement_id@, owner@));
            assert(-b <= cur.agreements@[g].total_amount_paid <= b);
            assert(k * part_limit() + part_limit() <= ps@.len() * part_limit()) by (nonlinear_arith)
                requires k < ps@.len(), part_limit() > 0;
        }
        let _ = crate::dao::agreement::increase_amount_paid(ledger, p.agreement_id.as_str(), owner, p.amount);
        proof {
            lemma_paid_on_agreement_keys(&cur, ledger, p.agreement_id@, owner@, p.amount as int, b);
            lemma_same_keys_trans(&l0, &cur, ledger);
            assert(b + part_limit() == bound + (k + 1) * part_limit()) by (nonlinear_arith)
                requires b == bound + k * part_limit();
        }
        let ghost d_before = documents@;
        documents.push(
            DocumentPayment {
                payment_id: payment_id.to_string(),
                owner_id: owner.to_string(),
                agreement_id: p.agreement_id.clone(),
                invoice_id: None,
                activity_id: None,
                debit_note_id: None,
                amount: p.amount,
            },
        );
        proof {
            let ghost s1 = states.push(*ledger);
            let pk = ps@.take(k + 1);
            assert forall|j: int| 0 <= j < pk.len() implies crate::dao::agreement::paid_on_agreement(
                &s1[j],
                &s1[j + 1],
                (#[trigger] pk[j]).agreement_id@,
                owner@,
                pk[j].amount as int,
            ) by {
                if j < k {
                    assert(pk[j] == ps@.take(k as int)[j]);
                    assert(s1[j] == states[j]);
                    assert(s1[j + 1] == states[j + 1]);
                } else {
                    assert(s1[j] == cur);
                    assert(s1[j + 1] == *ledger);
                }
            }
            states = s1;
            let dn = documents@;
            assert(dn.take(d0.len() as int) =~= d0) by {
                assert(d_before.take(d0.len() as int) == d0);
            }
            assert forall|j: int| 0 <= j < pk.len() implies {
                let d = #[trigger] dn[d0.len() + j];
                &&& d.payment_id@ == payment_id@
                &&& d.owner_id@ == owner@
                &&& d.agreement_id == pk[j].agreement_id
                &&& d.invoice_id is None
                &&& d.debit_note_id is None
                &&& d.activity_id is None
                &&& d.amount == pk[j].amount
            } by {
                if j < k {
                    assert(dn[d0.len() + j] == d_before[d0.len() + j]);
                    assert(pk[j] == ps@.take(k as int)[j]);
                }
            }
        }
        k = k + 1;
    }
    proof {
        assert(ps@.take(k as int) =~= ps@);
    }
}

/// The message of the database's refusal of a second payment under one id and owner.
pub open spec fn duplicate_payment_text() -> Seq<char> {
    "UNIQUE constraint failed: pay_payment.id, pay_payment.owner_id"@
}

/// Whether `s` holds a payment under `id` of `owner`.
pub open spec fn payment_stored(s: Seq<PaymentRow>, id: Seq<char>, owner: Seq<char>) -> bool {
    exists|k: int| 0 <= k < s.len() && (#[trigger] s[k]).id@ == id && s[k].owner_id@ == owner
}

/// The paid totals, amounts and number of parts for which recording a payment stays in range.
pub open spec fn payment_bounded(l: &Ledger, aps: Seq<ActivityPayment>, gps: Seq<AgreementPayment>) -> bool {
    &&& paid_within(l, paid_limit())
    &&& aps.len() + gps.len() <= 0x10_0000
    &&& forall|k: int| 0 <= k < aps.len() ==> 0 < (#[trigger] aps[k]).amount <= part_limit()
    &&& forall|k: int| 0 <= k < gps.len() ==> -part_limit() <= (#[trigger] gps[k]).amount <= part_limit()
}

impl PaymentDao {
    fn stored(&self, id: &str, owner: &str) -> (r: bool)
        ensures
            r == payment_stored(self.payments@, id@, owner@),
    {
        let mut k: usize = 0;
        while k < self.payments.len()
            invariant
                0 <= k <= self.payments.len(),
                forall|j: int| 0 <= j < k ==> !((#[trigger] self.payments@[j]).id@ == id@ && self.payments@[j].owner_id@ == owner@),
            decreases self.payments.len() - k,
        {
            if text_eq(self.payments[k].id.as_str(), id) && text_eq(self.payments[k].owner_id.as_str(), owner) {
                return true;
            }
            k = k + 1;
        }
        false
    }

    /// Records `payment` with the parts it pays: the activity payments, then the agreement
    /// payments (see `activity_payments_applied` and `agreement_payments_applied`), each part
    /// recorded as a payment document. Refused, with nothing changed, where the payment is
    /// stored already or a part names an activity or agreement of the payment's owner that
    /// the ledger lacks.
    pub fn insert(
        &mut self,
        ledger: &mut Ledger,
        payment: PaymentRow,
        activity_payments: &Vec<ActivityPayment>,
        agreement_payments: &Vec<AgreementPayment>,
    ) -> (r: crate::error::DbResult<()>)
        requires
            old(ledger).wf(),
            payment_bounded(old(ledger), activity_payments@, agreement_payments@),
        ensures
            final(ledger).wf(),
            payment_recorded(
                old(self),
                final(self),
                old(ledger),
                final(ledger),
                payment@,
                activity_payments@,
                agreement_payments@,
                r,
            ),
    {
        if self.stored(payment.id.as_str(), payment.owner_id.as_str()) {
            return Err(crate::error::DbError::Query(
                "UNIQUE constraint failed: pay_payment.id, pay_payment.owner_id".to_string(),
            ));
        }
        let owner = payment.owner_id.clone();
        let id = payment.id.clone();
        if !activities_known_exec(ledger, activity_payments, owner.as_str()) || !agreements_known_exec(
            ledger,
            agreement_payments,
            owner.as_str(),
        ) {
            return Err(crate::ledger::not_found_error());
        }
        let ghost old_view = payments_view(self.payments@);
        self.payments.push(payment);
        proof {
            assert(payments_view(self.payments@) =~= old_view.push(payment@));
        }
        let ghost l0 = *ledger;
        let ghost d0 = self.documents@;
        proof {
            assert(2 * activity_payments@.len() * part_limit() <= 0x20_0000 * part_limit()) by (nonlinear_arith)
                requires activity_payments@.len() <= 0x10_0000, part_limit() > 0;
        }
        insert_activity_payments(
            ledger,
            &mut self.documents,
            activity_payments,
            id.as_str(),
            owner.as_str(),
            Ghost(paid_limit()),
        );
        let ghost l1 = *ledger;
        let ghost d1 = self.documents@;
        proof {
            lemma_same_keys_known(&l0, &l1);
            let b1 = paid_limit() + 2 * activity_payments@.len() * part_limit();
            assert(b1 + agreement_payments@.len() * part_limit() + part_limit() <= crate::dao::batch::amount_limit())
                by (nonlinear_arith)
                requires
                    b1 == paid_limit() + 2 * activity_payments@.len() * part_limit(),
                    activity_payments@.len() + agreement_payments@.len() <= 0x10_0000,
                    part_limit() == 0x10_0000_0000_0000_0000_0000_0000,
                    paid_limit() == 0x800_0000_0000_0000_0000_0000_0000_0000,
                    crate::dao::batch::amount_limit() == 0x2000_0000_0000_0000_0000_0000_0000_0000;
            assert forall|k: int| 0 <= k < agreement_payments@.len() implies has_key(
                l1.agreements@,
                (#[trigger] agreement_payments@[k]).agreement_id@,
                owner@,
            ) by {
                assert(has_key(l0.agreements@, agreement_payments@[k].agreement_id@, owner@));
            }
        }
        insert_agreement_payments(
            ledger,
            &mut self.documents,
            agreement_payments,
            id.as_str(),
            owner.as_str(),
            Ghost(paid_limit() + 2 * activity_payments@.len() * part_limit()),
        );
        proof {
            let s1 = choose|s1: Seq<Ledger>|
                activity_payments_applied(s1, activity_payments@, owner@) && s1[0] == l0 && s1.last() == l1;
            let s2 = choose|s2: Seq<Ledger>|
                agreement_payments_applied(s2, agreement_payments@, owner@) && s2[0] == l1 && s2.last() == *ledger;
            assert(activity_documents_appended(d0, d1, &l0, activity_payments@, id@, owner@));
            assert(agreement_documents_appended(d1, self.documents@, agreement_payments@, id@, owner@));
            assert({
                &&& activity_payments_applied(s1, activity_payments@, payment.owner_id@)
                &&& agreement_payments_applied(s2, agreement_payments@, payment.owner_id@)
                &&& s1[0] == *old(ledger)
                &&& s1.last() == s2[0]
                &&& s2.last() == *ledger
            });
        }
        Ok(())
    }
}

/// The payer's record of a payment it sends under `id` at `timestamp`: still to be sent to
/// the payee, not signed yet.
pub open spec fn sent_payment(
    id: Seq<char>,
    timestamp: i64,
    payer_id: Seq<char>,
    payee_id: Seq<char>,
    payer_addr: Seq<char>,
    payee_addr: Seq<char>,
    payment_platform: Seq<char>,
    amount: i128,
    details: Seq<u8>,
) -> PaymentRowView {
    PaymentRowView {
        id: id,
        owner_id: payer_id,
        peer_id: payee_id,
        payee_addr: payee_addr,
        payer_addr: payer_addr,
        payment_platform: payment_platform,
        role: Role::Requestor,
        amount: amount,
        timestamp: timestamp,
        details: details,
        send_payment: true,
        signature: None,
        signed_bytes: None,
    }
}

/// What recording a payment of `owner` under `id` with `row` (its record) and the parts
/// `aps` and `gps` did, from `o`/`ol` (the payments and the ledger before) to `n`/`nl`
/// (after), with outcome `r` (see `PaymentDao::insert`).
pub open spec fn payment_recorded(
    o: &PaymentDao,
    n: &PaymentDao,
    ol: &Ledger,
    nl: &Ledger,
    row: PaymentRowView,
    aps: Seq<ActivityPayment>,
    gps: Seq<AgreementPayment>,
    r: crate::error::DbResult<()>,
) -> bool {
    let id = row.id;
    let owner = row.owner_id;
    if payment_stored(o.payments@, id, owner) {
        (r matches Err(crate::error::DbError::Query(m)) && m@ == duplicate_payment_text()) && *nl == *ol
            && n.payments@ == o.payments@ && n.documents@ == o.documents@
    } else if !(activities_known(ol, aps, owner) && agreements_known(ol, gps, owner)) {
        (r matches Err(e) && crate::ledger::is_not_found(e)) && *nl == *ol && n.payments@ == o.payments@
            && n.documents@ == o.documents@
    } else {
        &&& r is Ok
        &&& payments_view(n.payments@) == payments_view(o.payments@).push(row)
        &&& exists|s1: Seq<Ledger>, s2: Seq<Ledger>|
            {
                &&& activity_payments_applied(s1, aps, owner)
                &&& agreement_payments_applied(s2, gps, owner)
                &&& s1[0] == *ol
                &&& s1.last() == s2[0]
                &&& s2.last() == *nl
            }
        &&& exists|mid: Seq<DocumentPayment>|
            {
                &&& activity_documents_appended(o.documents@, mid, ol, aps, id, owner)
                &&& agreement_documents_appended(mid, n.documents@, gps, id, owner)
            }
    }
}

pub open spec fn unit_result(r: crate::error::DbResult<String>) -> crate::error::DbResult<()> {
    match r {
        Ok(_) => Ok(()),
        Err(e) => Err(e),
    }
}

impl PaymentDao {
    /// Records a payment that `payer_id` sends under `id` at `timestamp` (see `insert`);
    /// gives back `id`.
    pub fn create_new_with(
        &mut self,
        ledger: &mut Ledger,
        id: String,
        timestamp: i64,
        payer_id: String,
        payee_id: String,
        payer_addr: String,
        payee_addr: String,
        payment_platform: String,
        amount: i128,
        details: Vec<u8>,
        activity_payments: &Vec<ActivityPayment>,
        agreement_payments: &Vec<AgreementPayment>,
    ) -> (r: crate::error::DbResult<String>)
        requires
            old(ledger).wf(),
            payment_bounded(old(ledger), activity_payments@, agreement_payments@),
        ensures
            final(ledger).wf(),
            r matches Ok(x) ==> x == id,
            payment_recorded(
                old(self),
                final(self),
                old(ledger),
                final(ledger),
                sent_payment(
                    id@,
                    timestamp,
                    payer_id@,
                    payee_id@,
                    payer_addr@,
                    payee_addr@,
                    payment_platform@,
                    amount,
                    details@,
                ),
                activity_payments@,
                agreement_payments@,
                unit_result(r),
            ),
    {
        let kept = id.clone();
        let payment = PaymentRow {
            id,
            owner_id: payer_id,
            peer_id: payee_id,
            payee_addr,
            payer_addr,
            payment_platform,
            role: Role::Requestor,
            amount,
            timestamp,
            details,
            send_payment: true,
            signature: None,
            signed_bytes: None,
        };
        match self.insert(ledger, payment, activity_payments, agreement_payments) {
            Ok(()) => Ok(kept),
            Err(e) => Err(e),
        }
    }

    /// Records a payment that `payer_id` sends, under a fresh random id at the current time
    /// (see `create_new_with`); gives back its id.
    pub fn create_new(
        &mut self,
        ledger: &mut Ledger,
        payer_id: String,
        payee_id: String,
        payer_addr: String,
        payee_addr: String,
        payment_platform: String,
        amount: i128,
        details: Vec<u8>,
        activity_payments: &Vec<ActivityPayment>,
        agreement_payments: &Vec<AgreementPayment>,
    ) -> (r: crate::error::DbResult<String>)
        requires
            old(ledger).wf(),
            payment_bounded(old(ledger), activity_payments@, agreement_payments@),
        ensures
            final(ledger).wf(),
            exists|id: String, timestamp: i64|
                (r matches Ok(x) ==> x == id) && #[trigger] payment_recorded(
                    old(self),
                    final(self),
                    old(ledger),
                    final(ledger),
                    sent_payment(
                        id@,
                        timestamp,
                        payer_id@,
                        payee_id@,
                        payer_addr@,
                        payee_addr@,
                        payment_platform@,
                        amount,
                        details@,
                    ),
                    activity_payments@,
                    agreement_payments@,
                    unit_result(r),
                ),
    {
        let id = crate::clock::new_uuid();
        let now = crate::clock::now_millis();
        let ghost gid = id;
        let r = self.create_new_with(
            ledger,
            id,
            now,
            payer_id,
            payee_id,
            payer_addr,
            payee_addr,
            payment_platform,
            amount,
            details,
            activity_payments,
            agreement_payments,
        );
        r
    }
}


/// A payment as its payee receives it: the parts it pays, and its details as bytes.
#[derive(Debug)]
pub struct ReceivedPayment {
    pub payment_id: String,
    pub payer_id: String,
    pub payee_id: String,
    pub payer_addr: String,
    pub payee_addr: String,
    pub payment_platform: String,
    pub amount: i128,
    pub timestamp: i64,
    pub agreement_payments: Vec<AgreementPayment>,
    pub activity_payments: Vec<ActivityPayment>,
    pub details: Vec<u8>,
}

/// The record of a received payment: kept by its payee, as the provider, with the
/// signature it came with; nothing left to send.
pub open spec fn received_payment(
    p: ReceivedPayment,
    signature: Option<Seq<u8>>,
    signed_bytes: Option<Seq<u8>>,
) -> PaymentRowView {
    PaymentRowView {
        id: p.payment_id@,
        owner_id: p.payee_id@,
        peer_id: p.payer_id@,
        payee_addr: p.payee_addr@,
        payer_addr: p.payer_addr@,
        payment_platform: p.payment_platform@,
        role: Role::Provider,
        amount: p.amount,
        timestamp: p.timestamp,
        details: p.details@,
        send_payment: false,
        signature,
        signed_bytes,
    }
}

impl PaymentDao {
    /// Records a payment its payee received, with the signature it came with (see
    /// `insert`).
    pub fn insert_received(
        &mut self,
        ledger: &mut Ledger,
        payment: ReceivedPayment,
        signature: Option<Vec<u8>>,
        signed_bytes: Option<Vec<u8>>,
    ) -> (r: crate::error::DbResult<()>)
        requires
            old(ledger).wf(),
            payment_bounded(old(ledger), payment.activity_payments@, payment.agreement_payments@),
        ensures
            final(ledger).wf(),
            payment_recorded(
                old(self),
                final(self),
                old(ledger),
                final(ledger),
                received_payment(payment, bytes_view(signature), bytes_view(signed_bytes)),
                payment.activity_payments@,
                payment.agreement_payments@,
                r,
            ),
    {
        let ghost p0 = payment;
        let ReceivedPayment {
            payment_id,
            payer_id,
            payee_id,
            payer_addr,
            payee_addr,
            payment_platform,
            amount,
            timestamp,
            agreement_payments,
            activity_payments,
            details,
        } = payment;
        let row = PaymentRow {
            id: payment_id,
            owner_id: payee_id,
            peer_id: payer_id,
            payee_addr,
            payer_addr,
            payment_platform,
            role: Role::Provider,
            amount,
            timestamp,
            details,
            send_payment: false,
            signature,
            signed_bytes,
        };
        proof {
            assert(row@ == received_payment(p0, bytes_view(signature), bytes_view(signed_bytes)));
        }
        self.insert(ledger, row, &activity_payments, &agreement_payments)
    }
}

} // verus!
