//! Listing the events of invoices and debit notes.
use vstd::prelude::*;
use crate::dao::debit_note::{contains_text, texts_view};
use crate::dao::invoice::select_by;
use crate::models::clone_opt;
use crate::order::{index_perm, limit, order_by_key, permuted, sorted_by};
use crate::status::Role;

verus! {

/// An event as the listings read it: the document it is about, whose copy of the
/// document, that side's role, the event's type name, when it happened, its details as
/// JSON text and the application session of the document's agreement.
#[derive(Debug)]
pub struct EventRecord {
    pub document_id: String,
    pub owner_id: String,
    pub role: Role,
    pub event_type: String,
    pub timestamp: i64,
    pub details: Option<String>,
    pub app_session_id: Option<String>,
}

impl EventRecord {
    pub fn duplicate(&self) -> (r: Self)
        ensures
            r == *self,
    {
        EventRecord {
            document_id: self.document_id.clone(),
            owner_id: self.owner_id.clone(),
            role: self.role,
            event_type: self.event_type.clone(),
            timestamp: self.timestamp,
            details: clone_opt(&self.details),
            app_session_id: clone_opt(&self.app_session_id),
        }
    }
}

/// Whose events a listing asks for: those of one document, or all of one node's.
#[derive(Debug)]
pub enum EventSubject {
    Document(String),
    Owner(String),
}

/// The rest of a listing's query: only events after `after_timestamp`, at most
/// `max_events` of them, only of agreements of `app_session_id`, and of the types that
/// each role wants to see.
#[derive(Debug)]
pub struct EventQuery {
    pub after_timestamp: Option<i64>,
    pub max_events: Option<u32>,
    pub app_session_id: Option<String>,
    pub requestor_events: Vec<String>,
    pub provider_events: Vec<String>,
}

/// Whether the stored event `e` is one the query reads: of the subject, later than
/// `after` and of the application session `app`, where these are given.
pub open spec fn event_matches(
    e: EventRecord,
    subject: EventSubject,
    after: Option<i64>,
    app: Option<String>,
) -> bool {
    &&& match subject {
        EventSubject::Document(id) => e.document_id@ == id@,
        EventSubject::Owner(owner) => e.owner_id@ == owner@,
    }
    &&& (after matches Some(t) ==> e.timestamp > t)
    &&& (app matches Some(a) ==> (e.app_session_id matches Some(s) && s@ == a@))
}

/// Whether the side that owns `e` asked for events of its type.
pub open spec fn event_wanted(e: EventRecord, requestor: Seq<String>, provider: Seq<String>) -> bool {
    match e.role {
        Role::Requestor => texts_view(requestor).contains(e.event_type@),
        Role::Provider => texts_view(provider).contains(e.event_type@),
    }
}

pub open spec fn timestamps(s: Seq<EventRecord>) -> Seq<i64> {
    s.map_values(|e: EventRecord| e.timestamp)
}

/// What a listing gives: the matching events ordered by time (`perm` being that order,
/// equal times in stored order), cut to the limit, and then those of the wanted types.
pub open spec fn listed_events(
    events: Seq<EventRecord>,
    subject: EventSubject,
    q: EventQuery,
    perm: Seq<usize>,
) -> Seq<EventRecord> {
    let m = select_by(
        events,
        |e: EventRecord| event_matches(e, subject, q.after_timestamp, q.app_session_id),
    );
    select_by(
        limit(permuted(m, perm), q.max_events),
        |e: EventRecord| event_wanted(e, q.requestor_events@, q.provider_events@),
    )
}

/// Whether `perm` orders the matching events of `events` by time, equal times in stored order.
pub open spec fn orders_matching(
    events: Seq<EventRecord>,
    subject: EventSubject,
    q: EventQuery,
    perm: Seq<usize>,
) -> bool {
    let m = select_by(
        events,
        |e: EventRecord| event_matches(e, subject, q.after_timestamp, q.app_session_id),
    );
    &&& index_perm(perm, m.len())
    &&& sorted_by(timestamps(m), perm, false)
}

fn matches_exec(e: &EventRecord, subject: &EventSubject, q: &EventQuery) -> (r: bool)
    ensures
        r == event_matches(*e, *subject, q.after_timestamp, q.app_session_id),
{
    let of_subject = match subject {
        EventSubject::Document(id) => crate::text::text_eq(e.document_id.as_str(), id.as_str()),
        EventSubject::Owner(owner) => crate::text::text_eq(e.owner_id.as_str(), owner.as_str()),
    };
    if !of_subject {
        return false;
    }
    match q.after_timestamp {
        Some(t) => {
            if e.timestamp <= t {
                return false;
            }
        },
        None => {},
    }
    match &q.app_session_id {
        Some(a) => match &e.app_session_id {
            Some(s) => crate::text::text_eq(s.as_str(), a.as_str()),
            None => false,
        },
        None => true,
    }
}

fn wanted_exec(e: &EventRecord, q: &EventQuery) -> (r: bool)
    ensures
        r == event_wanted(*e, q.requestor_events@, q.provider_events@),
{
    match e.role {
        Role::Requestor => contains_text(&q.requestor_events, e.event_type.as_str()),
        Role::Provider => contains_text(&q.provider_events, e.event_type.as_str()),
    }
}

/// Lists the events of `subject` that the query asks for: the matching ones ordered by
/// time, at most `max_events` of them, and of those the ones whose type the owner's role
/// asked for (the limit is applied before that last filter).
pub fn list_events(events: &Vec<EventRecord>, subject: &EventSubject, q: &EventQuery) -> (r: Vec<
    EventRecord,
>)
    ensures
        exists|perm: Seq<usize>|
            orders_matching(events@, *subject, *q, perm) && r@ == listed_events(
                events@,
                *subject,
                *q,
                perm,
            ),
{
    let ghost p = |e: EventRecord| event_matches(e, *subject, q.after_timestamp, q.app_session_id);
    let ghost w = |e: EventRecord| event_wanted(e, q.requestor_events@, q.provider_events@);
    let mut m: Vec<EventRecord> = Vec::new();
    let mut k: usize = 0;
    while k < events.len()
        invariant
            0 <= k <= events.len(),
            p == (|e: EventRecord| event_matches(e, *subject, q.after_timestamp, q.app_session_id)),
            m@ == select_by(events@.take(k as int), p),
        decreases events.len() - k,
    {
        proof {
            assert(events@.take(k + 1).drop_last() =~= events@.take(k as int));
            assert(events@.take(k + 1).last() == events@[k as int]);
        }
        if matches_exec(&events[k], subject, q) {
            m.push(events[k].duplicate());
        }
        k = k + 1;
    }
    proof {
        assert(events@.take(k as int) =~= events@);
    }
    let mut keys: Vec<i64> = Vec::new();
    let mut i: usize = 0;
    while i < m.len()
        invariant
            0 <= i <= m.len(),
            keys@ == timestamps(m@).take(i as int),
        decreases m.len() - i,
    {
        keys.push(m[i].timestamp);
        proof {
            assert(timestamps(m@).take(i + 1) =~= timestamps(m@).take(i as int).push(m@[i as int].timestamp));
        }
        i = i + 1;
    }
    proof {
        assert(timestamps(m@).take(i as int) =~= timestamps(m@));
    }
    let perm = order_by_key(&keys, false);
    let ghost ordered = permuted(m@, perm@);
    let n: usize = match q.max_events {
        Some(max) => if (max as usize) < perm.len() {
            max as usize
        } else {
            perm.len()
        },
        None => perm.len(),
    };
    proof {
        assert(limit(ordered, q.max_events) =~= ordered.take(n as int));
    }
    let mut r: Vec<EventRecord> = Vec::new();
    let mut j: usize = 0;
    while j < n
        invariant
            0 <= j <= n,
            n <= perm@.len(),
            index_perm(perm@, m@.len()),
            ordered == permuted(m@, perm@),
            w == (|e: EventRecord| event_wanted(e, q.requestor_events@, q.provider_events@)),
            r@ == select_by(ordered.take(j as int), w),
        decreases n - j,
    {
        let pos = perm[j];
        proof {
            assert(ordered.take(j + 1).drop_last() =~= ordered.take(j as int));
            assert(ordered.take(j + 1).last() == m@[pos as int]);
        }
        if wanted_exec(&m[pos], q) {
            r.push(m[pos].duplicate());
        }
        j = j + 1;
    }
    proof {
        assert(orders_matching(events@, *subject, *q, perm@));
        assert(r@ == listed_events(events@, *subject, *q, perm@));
    }
    r
}

/// The invoice events a node keeps, as the listings read them.
#[derive(Debug)]
pub struct InvoiceEventDao {
    pub events: Vec<EventRecord>,
}

impl InvoiceEventDao {
    /// The events of invoice `invoice_id` that the query asks for.
    pub fn get_for_invoice_id(&self, invoice_id: String, q: &EventQuery) -> (r: Vec<EventRecord>)
        ensures
            exists|perm: Seq<usize>|
                orders_matching(self.events@, EventSubject::Document(invoice_id), *q, perm)
                    && r@ == listed_events(self.events@, EventSubject::Document(invoice_id), *q, perm),
    {
        list_events(&self.events, &EventSubject::Document(invoice_id), q)
    }

    /// The events of the invoices of `node_id` that the query asks for.
    pub fn get_for_node_id(&self, node_id: String, q: &EventQuery) -> (r: Vec<EventRecord>)
        ensures
            exists|perm: Seq<usize>|
                orders_matching(self.events@, EventSubject::Owner(node_id), *q, perm)
                    && r@ == listed_events(self.events@, EventSubject::Owner(node_id), *q, perm),
    {
        list_events(&self.events, &EventSubject::Owner(node_id), q)
    }
}

/// The debit note events a node keeps, as the listings read them.
#[derive(Debug)]
pub struct DebitNoteEventDao {
    pub events: Vec<EventRecord>,
}

impl DebitNoteEventDao {
    /// The events of debit note `debit_note_id` that the query asks for.
    pub fn get_for_debit_note_id(&self, debit_note_id: String, q: &EventQuery) -> (r: Vec<
        EventRecord,
    >)
        ensures
            exists|perm: Seq<usize>|
                orders_matching(self.events@, EventSubject::Document(debit_note_id), *q, perm)
                    && r@ == listed_events(
                    self.events@,
                    EventSubject::Document(debit_note_id),
                    *q,
                    perm,
                ),
    {
        list_events(&self.events, &EventSubject::Document(debit_note_id), q)
    }

    /// The events of the debit notes of `node_id` that the query asks for.
    pub fn get_for_node_id(&self, node_id: String, q: &EventQuery) -> (r: Vec<EventRecord>)
        ensures
            exists|perm: Seq<usize>|
                orders_matching(self.events@, EventSubject::Owner(node_id), *q, perm)
                    && r@ == listed_events(self.events@, EventSubject::Owner(node_id), *q, perm),
    {
        list_events(&self.events, &EventSubject::Owner(node_id), q)
    }
}

} // verus!
