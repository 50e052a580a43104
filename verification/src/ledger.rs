//! The payment ledger: agreements, activities, invoices and debit notes, each kept under
//! its id and its owner's node id, and the events recorded on the documents.
use vstd::prelude::*;
use crate::error::DbError;
use crate::models::clone_opt;
use crate::status::{DocumentStatus, Role};

verus! {

/// A record kept under an id and an owner.
pub trait Keyed {
    spec fn key_id(&self) -> Seq<char>;

    spec fn key_owner(&self) -> Seq<char>;

    fn id_text(&self) -> (r: &String)
        ensures
            r@ == self.key_id(),
    ;

    fn owner_text(&self) -> (r: &String)
        ensures
            r@ == self.key_owner(),
    ;
}

pub open spec fn key_is<R: Keyed>(r: R, id: Seq<char>, owner: Seq<char>) -> bool {
    r.key_id() == id && r.key_owner() == owner
}

/// Whether `s` holds a record under `id` and `owner`.
pub open spec fn has_key<R: Keyed>(s: Seq<R>, id: Seq<char>, owner: Seq<char>) -> bool {
    exists|i: int| 0 <= i < s.len() && #[trigger] key_is(s[i], id, owner)
}

/// Where `s` holds the record under `id` and `owner`.
pub open spec fn key_index<R: Keyed>(s: Seq<R>, id: Seq<char>, owner: Seq<char>) -> int {
    choose|i: int| 0 <= i < s.len() && #[trigger] key_is(s[i], id, owner)
}

/// No two records of `s` share an id and an owner.
pub open spec fn keys_unique<R: Keyed>(s: Seq<R>) -> bool {
    forall|i: int, j: int|
        0 <= i < s.len() && 0 <= j < s.len() && i != j ==> !(#[trigger] s[i].key_id()
            == #[trigger] s[j].key_id() && s[i].key_owner() == s[j].key_owner())
}

pub proof fn lemma_key_index<R: Keyed>(s: Seq<R>, id: Seq<char>, owner: Seq<char>, i: int)
    requires
        keys_unique(s),
        0 <= i < s.len(),
        key_is(s[i], id, owner),
    ensures
        has_key(s, id, owner),
        key_index(s, id, owner) == i,
{
    let k = key_index(s, id, owner);
    assert(key_is(s[k], id, owner));
    if k != i {
        assert(s[k].key_id() == s[i].key_id());
    }
}

/// Replacing a record by one under the same key keeps the keys unique.
pub proof fn lemma_update_same_key<R: Keyed>(s: Seq<R>, i: int, r: R)
    requires
        keys_unique(s),
        0 <= i < s.len(),
        r.key_id() == s[i].key_id(),
        r.key_owner() == s[i].key_owner(),
    ensures
        keys_unique(s.update(i, r)),
{
    let t = s.update(i, r);
    assert forall|a: int, b: int|
        0 <= a < t.len() && 0 <= b < t.len() && a != b implies !(#[trigger] t[a].key_id()
            == #[trigger] t[b].key_id() && t[a].key_owner() == t[b].key_owner()) by {
        assert(s[a].key_id() == t[a].key_id() && s[a].key_owner() == t[a].key_owner());
        assert(s[b].key_id() == t[b].key_id() && s[b].key_owner() == t[b].key_owner());
    }
}

/// Adding a record under a new key keeps the keys unique.
pub proof fn lemma_push_new_key<R: Keyed>(s: Seq<R>, r: R)
    requires
        keys_unique(s),
        !has_key(s, r.key_id(), r.key_owner()),
    ensures
        keys_unique(s.push(r)),
{
    let t = s.push(r);
    assert forall|a: int, b: int|
        0 <= a < t.len() && 0 <= b < t.len() && a != b implies !(#[trigger] t[a].key_id()
            == #[trigger] t[b].key_id() && t[a].key_owner() == t[b].key_owner()) by {
        if a == s.len() as int {
            if t[a].key_id() == t[b].key_id() && t[a].key_owner() == t[b].key_owner() {
                assert(key_is(s[b], r.key_id(), r.key_owner()));
            }
        } else if b == s.len() as int {
            if t[a].key_id() == t[b].key_id() && t[a].key_owner() == t[b].key_owner() {
                assert(key_is(s[a], r.key_id(), r.key_owner()));
            }
        }
    }
}

/// Finds the record under `id` and `owner`.
pub fn find_key<R: Keyed>(rows: &Vec<R>, id: &str, owner: &str) -> (r: Option<usize>)
    ensures
        r matches Some(i) ==> i < rows.len() && key_is(rows@[i as int], id@, owner@),
        r is None ==> !has_key(rows@, id@, owner@),
{
    let mut i: usize = 0;
    while i < rows.len()
        invariant
            0 <= i <= rows.len(),
            forall|k: int| 0 <= k < i ==> !#[trigger] key_is(rows@[k], id@, owner@),
        decreases rows.len() - i,
    {
        let row = &rows[i];
        if crate::text::text_eq(row.id_text().as_str(), id) && crate::text::text_eq(
            row.owner_text().as_str(),
            owner,
        ) {
            return Some(i);
        }
        i = i + 1;
    }
    None
}

/// The failure of a lookup that finds no record.
pub open spec fn is_not_found(e: DbError) -> bool {
    e matches DbError::Query(m) && m@ == "Record not found"@
}

pub fn not_found_error() -> (e: DbError)
    ensures
        is_not_found(e),
{
    DbError::Query("Record not found".to_string())
}

/// Amounts the ledger keeps stay within this bound, far below what an `i128` holds.
pub open spec fn in_range(x: int) -> bool {
    -crate::dao::batch::amount_limit() <= x <= crate::dao::batch::amount_limit()
}

/// An agreement as the ledger keeps it, with the running totals of what its invoices and
/// debit notes asked for, what was accepted, scheduled for payment and paid, and the
/// application session it belongs to, where there is one.
#[derive(Debug)]
pub struct AgreementRow {
    pub id: String,
    pub owner_id: String,
    pub role: Role,
    pub peer_id: String,
    pub payee_addr: String,
    pub payer_addr: String,
    pub payment_platform: String,
    pub total_amount_due: i128,
    pub total_amount_accepted: i128,
    pub total_amount_scheduled: i128,
    pub total_amount_paid: i128,
    pub created_ts: i64,
    pub updated_ts: i64,
    pub app_session_id: Option<String>,
}

/// An activity under an agreement, with the same running totals.
#[derive(Debug)]
pub struct ActivityRow {
    pub id: String,
    pub owner_id: String,
    pub role: Role,
    pub agreement_id: String,
    pub total_amount_due: i128,
    pub total_amount_accepted: i128,
    pub total_amount_scheduled: i128,
    pub total_amount_paid: i128,
    pub created_ts: i64,
    pub updated_ts: i64,
}

/// An invoice for an agreement. `send_accept` and
/// `send_reject` mark a decision not yet delivered to the other side.
#[derive(Debug)]
pub struct InvoiceRow {
    pub id: String,
    pub owner_id: String,
    pub role: Role,
    pub agreement_id: String,
    pub status: DocumentStatus,
    pub timestamp: i64,
    pub amount: i128,
    pub payment_due_date: i64,
    pub send_accept: bool,
    pub send_reject: bool,
}

/// An activity that an invoice covers.
#[derive(Debug)]
pub struct InvoiceActivity {
    pub invoice_id: String,
    pub activity_id: String,
    pub owner_id: String,
}

/// A debit note for an activity, with its usage counters as JSON text; each names the one issued before it for the same
/// activity, where there is one.
#[derive(Debug)]
pub struct DebitNoteRow {
    pub id: String,
    pub owner_id: String,
    pub role: Role,
    pub previous_debit_note_id: Option<String>,
    pub activity_id: String,
    pub status: DocumentStatus,
    pub timestamp: i64,
    pub total_amount_due: i128,
    pub usage_counter_vector: Option<String>,
    pub payment_due_date: Option<i64>,
    pub send_accept: bool,
}

impl Keyed for AgreementRow {
    open spec fn key_id(&self) -> Seq<char> {
        self.id@
    }

    open spec fn key_owner(&self) -> Seq<char> {
        self.owner_id@
    }

    fn id_text(&self) -> (r: &String) {
        &self.id
    }

    fn owner_text(&self) -> (r: &String) {
        &self.owner_id
    }
}

impl Keyed for ActivityRow {
    open spec fn key_id(&self) -> Seq<char> {
        self.id@
    }

    open spec fn key_owner(&self) -> Seq<char> {
        self.owner_id@
    }

    fn id_text(&self) -> (r: &String) {
        &self.id
    }

    fn owner_text(&self) -> (r: &String) {
        &self.owner_id
    }
}

impl Keyed for InvoiceRow {
    open spec fn key_id(&self) -> Seq<char> {
        self.id@
    }

    open spec fn key_owner(&self) -> Seq<char> {
        self.owner_id@
    }

    fn id_text(&self) -> (r: &String) {
        &self.id
    }

    fn owner_text(&self) -> (r: &String) {
        &self.owner_id
    }
}

impl Keyed for DebitNoteRow {
    open spec fn key_id(&self) -> Seq<char> {
        self.id@
    }

    open spec fn key_owner(&self) -> Seq<char> {
        self.owner_id@
    }

    fn id_text(&self) -> (r: &String) {
        &self.id
    }

    fn owner_text(&self) -> (r: &String) {
        &self.owner_id
    }
}

/// Copies a list of texts.
pub fn clone_texts(v: &Vec<String>) -> (r: Vec<String>)
    ensures
        r@ == v@,
{
    let mut r: Vec<String> = Vec::new();
    let mut i: usize = 0;
    while i < v.len()
        invariant
            0 <= i <= v.len(),
            r@ == v@.take(i as int),
        decreases v.len() - i,
    {
        r.push(v[i].clone());
        proof {
            assert(v@.take(i + 1) =~= v@.take(i as int).push(v@[i as int]));
        }
        i = i + 1;
    }
    proof {
        assert(v@.take(i as int) =~= v@);
    }
    r
}

impl AgreementRow {
    pub fn duplicate(&self) -> (r: Self)
        ensures
            r == *self,
    {
        AgreementRow {
            id: self.id.clone(),
            owner_id: self.owner_id.clone(),
            role: self.role,
            peer_id: self.peer_id.clone(),
            payee_addr: self.payee_addr.clone(),
            payer_addr: self.payer_addr.clone(),
            payment_platform: self.payment_platform.clone(),
            total_amount_due: self.total_amount_due,
            total_amount_accepted: self.total_amount_accepted,
            total_amount_scheduled: self.total_amount_scheduled,
            total_amount_paid: self.total_amount_paid,
            created_ts: self.created_ts,
            updated_ts: self.updated_ts,
            app_session_id: clone_opt(&self.app_session_id),
        }
    }
}

impl ActivityRow {
    pub fn duplicate(&self) -> (r: Self)
        ensures
            r == *self,
    {
        ActivityRow {
            id: self.id.clone(),
            owner_id: self.owner_id.clone(),
            role: self.role,
            agreement_id: self.agreement_id.clone(),
            total_amount_due: self.total_amount_due,
            total_amount_accepted: self.total_amount_accepted,
            total_amount_scheduled: self.total_amount_scheduled,
            total_amount_paid: self.total_amount_paid,
            created_ts: self.created_ts,
            updated_ts: self.updated_ts,
        }
    }
}

impl InvoiceRow {
    pub fn duplicate(&self) -> (r: Self)
        ensures
            r == *self,
    {
        InvoiceRow {
            id: self.id.clone(),
            owner_id: self.owner_id.clone(),
            role: self.role,
            agreement_id: self.agreement_id.clone(),
            status: self.status,
            timestamp: self.timestamp,
            amount: self.amount,
            payment_due_date: self.payment_due_date,
            send_accept: self.send_accept,
            send_reject: self.send_reject,
        }
    }
}

impl DebitNoteRow {
    pub fn duplicate(&self) -> (r: Self)
        ensures
            r == *self,
    {
        DebitNoteRow {
            id: self.id.clone(),
            owner_id: self.owner_id.clone(),
            role: self.role,
            previous_debit_note_id: clone_opt(&self.previous_debit_note_id),
            activity_id: self.activity_id.clone(),
            status: self.status,
            timestamp: self.timestamp,
            total_amount_due: self.total_amount_due,
            usage_counter_vector: clone_opt(&self.usage_counter_vector),
            payment_due_date: self.payment_due_date,
            send_accept: self.send_accept,
        }
    }
}

/// Why a document was rejected.
#[derive(Clone, Copy, Debug, PartialEq, Eq, Structural)]
pub enum RejectionReason {
    UnsolicitedService,
    BadService,
    IncorrectAmount,
}

/// A rejection: the reason, the amount the rejecting side would accept and a message.
#[derive(Debug)]
pub struct Rejection {
    pub rejection_reason: RejectionReason,
    pub total_amount_accepted: i128,
    pub message: Option<String>,
}

/// What happened to an invoice.
#[derive(Debug)]
pub enum InvoiceEventType {
    InvoiceReceivedEvent,
    InvoiceAcceptedEvent,
    InvoiceRejectedEvent { rejection: Rejection },
    InvoiceCancelledEvent,
    InvoiceSettledEvent,
}

/// What happened to a debit note.
#[derive(Debug)]
pub enum DebitNoteEventType {
    DebitNoteReceivedEvent,
    DebitNoteAcceptedEvent,
    DebitNoteRejectedEvent { rejection: Rejection },
    DebitNoteCancelledEvent,
    DebitNoteSettledEvent,
}

#[derive(Debug)]
pub struct InvoiceEvent {
    pub invoice_id: String,
    pub owner_id: String,
    pub event_type: InvoiceEventType,
}

#[derive(Debug)]
pub struct DebitNoteEvent {
    pub debit_note_id: String,
    pub owner_id: String,
    pub event_type: DebitNoteEventType,
}

/// `new` is `old` followed by one event on invoice `id` of `owner` for each of `types`,
/// in their order.
pub open spec fn invoice_events_appended(
    old: Seq<InvoiceEvent>,
    new: Seq<InvoiceEvent>,
    id: Seq<char>,
    owner: Seq<char>,
    types: Seq<InvoiceEventType>,
) -> bool {
    &&& new.len() == old.len() + types.len()
    &&& new.take(old.len() as int) == old
    &&& forall|k: int|
        0 <= k < types.len() ==> {
            &&& (#[trigger] new[old.len() + k]).invoice_id@ == id
            &&& new[old.len() + k].owner_id@ == owner
            &&& new[old.len() + k].event_type == types[k]
        }
}

/// `new` is `old` followed by one event on debit note `id` of `owner` for each of `types`,
/// in their order.
pub open spec fn debit_note_events_appended(
    old: Seq<DebitNoteEvent>,
    new: Seq<DebitNoteEvent>,
    id: Seq<char>,
    owner: Seq<char>,
    types: Seq<DebitNoteEventType>,
) -> bool {
    &&& new.len() == old.len() + types.len()
    &&& new.take(old.len() as int) == old
    &&& forall|k: int|
        0 <= k < types.len() ==> {
            &&& (#[trigger] new[old.len() + k]).debit_note_id@ == id
            &&& new[old.len() + k].owner_id@ == owner
            &&& new[old.len() + k].event_type == types[k]
        }
}

/// The ledger's tables.
#[derive(Debug)]
pub struct Ledger {
    pub agreements: Vec<AgreementRow>,
    pub activities: Vec<ActivityRow>,
    pub invoices: Vec<InvoiceRow>,
    pub invoice_activities: Vec<InvoiceActivity>,
    pub debit_notes: Vec<DebitNoteRow>,
    pub invoice_events: Vec<InvoiceEvent>,
    pub debit_note_events: Vec<DebitNoteEvent>,
}

impl Ledger {
    /// Every table keeps at most one record under an id and an owner.
    pub open spec fn wf(&self) -> bool {
        &&& keys_unique(self.agreements@)
        &&& keys_unique(self.activities@)
        &&& keys_unique(self.invoices@)
        &&& keys_unique(self.debit_notes@)
    }

    pub fn new() -> (r: Ledger)
        ensures
            r.wf(),
            r.agreements@.len() == 0,
            r.activities@.len() == 0,
            r.invoices@.len() == 0,
            r.invoice_activities@.len() == 0,
            r.debit_notes@.len() == 0,
            r.invoice_events@.len() == 0,
            r.debit_note_events@.len() == 0,
    {
        Ledger {
            agreements: Vec::new(),
            activities: Vec::new(),
            invoices: Vec::new(),
            invoice_activities: Vec::new(),
            debit_notes: Vec::new(),
            invoice_events: Vec::new(),
            debit_note_events: Vec::new(),
        }
    }

    /// `b` equals `a` but in the tables whose flag is set.
    pub open spec fn same_except(
        a: &Ledger,
        b: &Ledger,
        agreements: bool,
        activities: bool,
        invoices: bool,
        debit_notes: bool,
        invoice_events: bool,
        debit_note_events: bool,
    ) -> bool {
        &&& !agreements ==> b.agreements == a.agreements
        &&& !activities ==> b.activities == a.activities
        &&& !invoices ==> b.invoices == a.invoices
        &&& b.invoice_activities == a.invoice_activities
        &&& !debit_notes ==> b.debit_notes == a.debit_notes
        &&& !invoice_events ==> b.invoice_events == a.invoice_events
        &&& !debit_note_events ==> b.debit_note_events == a.debit_note_events
    }

    pub open spec fn agreement(&self, id: Seq<char>, owner: Seq<char>) -> AgreementRow {
        self.agreements@[key_index(self.agreements@, id, owner)]
    }

    pub open spec fn activity(&self, id: Seq<char>, owner: Seq<char>) -> ActivityRow {
        self.activities@[key_index(self.activities@, id, owner)]
    }

    pub open spec fn invoice(&self, id: Seq<char>, owner: Seq<char>) -> InvoiceRow {
        self.invoices@[key_index(self.invoices@, id, owner)]
    }

    pub open spec fn debit_note(&self, id: Seq<char>, owner: Seq<char>) -> DebitNoteRow {
        self.debit_notes@[key_index(self.debit_notes@, id, owner)]
    }
}

} // verus!
