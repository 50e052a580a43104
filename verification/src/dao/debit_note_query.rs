//! Reading debit notes together with their activity's agreement.
use vstd::prelude::*;
use crate::dao::debit_note::{contains_text, texts_view, DebitNoteDao};
use crate::dao::invoice::{lemma_select_by_holds, select_by};
use crate::ledger::{has_key, DebitNoteRow, Ledger};
use crate::order::{index_perm, limit, order_by_key, permuted, sorted_by};
use crate::status::{DocumentStatus, Role};
use crate::text::text_eq;

verus! {

/// A debit note as it is read: the stored record, and the agreement of its activity with
/// that agreement's peer, addresses and platform.
#[derive(Debug)]
pub struct DebitNoteRead {
    pub debit_note: DebitNoteRow,
    pub agreement_id: String,
    pub peer_id: String,
    pub payee_addr: String,
    pub payer_addr: String,
    pub payment_platform: String,
}

/// The reads join each debit note with its activity and the activity's agreement; a debit
/// note whose activity or agreement is missing is not read.
pub open spec fn note_read_joined(l: &Ledger, n: DebitNoteRow) -> bool {
    &&& has_key(l.activities@, n.activity_id@, n.owner_id@)
    &&& has_key(l.agreements@, l.activity(n.activity_id@, n.owner_id@).agreement_id@, n.owner_id@)
}

/// `x` is the read of debit note `n`.
pub open spec fn note_read_of(l: &Ledger, x: DebitNoteRead, n: DebitNoteRow) -> bool {
    let act = l.activity(n.activity_id@, n.owner_id@);
    let a = l.agreement(act.agreement_id@, n.owner_id@);
    &&& x.debit_note == n
    &&& x.agreement_id == act.agreement_id
    &&& x.peer_id == a.peer_id
    &&& x.payee_addr == a.payee_addr
    &&& x.payer_addr == a.payer_addr
    &&& x.payment_platform == a.payment_platform
}

/// `r` reads the debit notes of `s`, one for one, in order.
pub open spec fn note_reads_of(l: &Ledger, r: Seq<DebitNoteRead>, s: Seq<DebitNoteRow>) -> bool {
    &&& r.len() == s.len()
    &&& forall|k: int| 0 <= k < s.len() ==> note_read_of(l, #[trigger] r[k], s[k])
}

pub open spec fn note_timestamps(s: Seq<DebitNoteRow>) -> Seq<i64> {
    s.map_values(|n: DebitNoteRow| n.timestamp)
}

/// Which debit notes a read picks.
#[derive(Debug)]
pub enum DebitNotePick {
    /// Of a role and a status, payable or not, of any owner; `None` leaves a field free.
    Kind { role: Option<Role>, status: Option<DocumentStatus>, payable: Option<bool> },
    /// One owner's after a time.
    Owner { owner_id: String, after_timestamp: Option<i64> },
    /// One owner's accepted ones whose acceptance was not delivered yet.
    UnsentAccepted { owner_id: String },
    /// One owner's issued or accepted ones, on the provider's side.
    Dangling { owner_id: String },
}

pub open spec fn note_picked(l: &Ledger, pick: DebitNotePick, n: DebitNoteRow) -> bool {
    &&& note_read_joined(l, n)
    &&& match pick {
        DebitNotePick::Kind { role, status, payable } => (role matches Some(x) ==> n.role == x) && (
        status matches Some(s) ==> n.status == s) && (payable matches Some(p) ==> (
        n.payment_due_date is Some) == p),
        DebitNotePick::Owner { owner_id, after_timestamp } => n.owner_id@ == owner_id@ && (
        after_timestamp matches Some(t) ==> n.timestamp > t),
        DebitNotePick::UnsentAccepted { owner_id } => n.owner_id@ == owner_id@ && n.send_accept
            && n.status == DocumentStatus::Accepted,
        DebitNotePick::Dangling { owner_id } => n.owner_id@ == owner_id@ && n.role == Role::Provider && (
        n.status == DocumentStatus::Issued || n.status == DocumentStatus::Accepted),
    }
}

fn joined_exec(ledger: &Ledger, n: &DebitNoteRow) -> (r: bool)
    requires
        ledger.wf(),
    ensures
        r == note_read_joined(ledger, *n),
{
    match crate::dao::activity::locate_activity(ledger, n.activity_id.as_str(), n.owner_id.as_str()) {
        Some(a) => crate::dao::agreement::locate(
            ledger,
            ledger.activities[a].agreement_id.as_str(),
            n.owner_id.as_str(),
        ).is_some(),
        None => false,
    }
}

fn picked_exec(ledger: &Ledger, pick: &DebitNotePick, n: &DebitNoteRow) -> (r: bool)
    requires
        ledger.wf(),
    ensures
        r == note_picked(ledger, *pick, *n),
{
    let wanted = match pick {
        DebitNotePick::Kind { role, status, payable } => (match role {
            Some(x) => n.role == *x,
            None => true,
        }) && (match status {
            Some(s) => n.status == *s,
            None => true,
        }) && (match payable {
            Some(p) => n.payment_due_date.is_some() == *p,
            None => true,
        }),
        DebitNotePick::Owner { owner_id, after_timestamp } => text_eq(n.owner_id.as_str(), owner_id.as_str())
            && match after_timestamp {
            Some(t) => n.timestamp > *t,
            None => true,
        },
        DebitNotePick::UnsentAccepted { owner_id } => text_eq(n.owner_id.as_str(), owner_id.as_str())
            && n.send_accept && n.status == DocumentStatus::Accepted,
        DebitNotePick::Dangling { owner_id } => text_eq(n.owner_id.as_str(), owner_id.as_str()) && n.role
            == Role::Provider && (n.status == DocumentStatus::Issued || n.status == DocumentStatus::Accepted),
    };
    wanted && joined_exec(ledger, n)
}

fn read_note(ledger: &Ledger, n: &DebitNoteRow) -> (x: DebitNoteRead)
    requires
        ledger.wf(),
        note_read_joined(ledger, *n),
    ensures
        note_read_of(ledger, x, *n),
{
    let a = match crate::dao::activity::locate_activity(ledger, n.activity_id.as_str(), n.owner_id.as_str()) {
        Some(a) => a,
        None => {
            proof {
                assert(false);
            }
            0
        },
    };
    let act = &ledger.activities[a];
    let g = match crate::dao::agreement::locate(ledger, act.agreement_id.as_str(), n.owner_id.as_str()) {
        Some(g) => g,
        None => {
            proof {
                assert(false);
            }
            0
        },
    };
    let ag = &ledger.agreements[g];
    DebitNoteRead {
        debit_note: n.duplicate(),
        agreement_id: act.agreement_id.clone(),
        peer_id: ag.peer_id.clone(),
        payee_addr: ag.payee_addr.clone(),
        payer_addr: ag.payer_addr.clone(),
        payment_platform: ag.payment_platform.clone(),
    }
}

fn pick_notes(ledger: &Ledger, pick: &DebitNotePick) -> (r: Vec<DebitNoteRow>)
    requires
        ledger.wf(),
    ensures
        r@ == select_by(ledger.debit_notes@, |n: DebitNoteRow| note_picked(ledger, *pick, n)),
{
    let ghost p = |n: DebitNoteRow| note_picked(ledger, *pick, n);
    let mut r: Vec<DebitNoteRow> = Vec::new();
    let mut k: usize = 0;
    while k < ledger.debit_notes.len()
        invariant
            ledger.wf(),
            0 <= k <= ledger.debit_notes.len(),
            p == (|n: DebitNoteRow| note_picked(ledger, *pick, n)),
            r@ == select_by(ledger.debit_notes@.take(k as int), p),
        decreases ledger.debit_notes.len() - k,
    {
        proof {
            assert(ledger.debit_notes@.take(k + 1).drop_last() =~= ledger.debit_notes@.take(k as int));
            assert(ledger.debit_notes@.take(k + 1).last() == ledger.debit_notes@[k as int]);
        }
        if picked_exec(ledger, pick, &ledger.debit_notes[k]) {
            r.push(ledger.debit_notes[k].duplicate());
        }
        k = k + 1;
    }
    proof {
        assert(ledger.debit_notes@.take(k as int) =~= ledger.debit_notes@);
    }
    r
}

/// `r` reads the debit notes that `pick` picks ordered by time (`perm` being that order,
/// ascending or descending, equal times in stored order) and cut to `max_items`.
pub open spec fn ordered_note_reads(
    l: &Ledger,
    r: Seq<DebitNoteRead>,
    pick: DebitNotePick,
    desc: bool,
    max_items: Option<u32>,
    perm: Seq<usize>,
) -> bool {
    let m = select_by(l.debit_notes@, |n: DebitNoteRow| note_picked(l, pick, n));
    &&& index_perm(perm, m.len())
    &&& sorted_by(note_timestamps(m), perm, desc)
    &&& note_reads_of(l, r, limit(permuted(m, perm), max_items))
}

fn read_ordered(ledger: &Ledger, pick: &DebitNotePick, desc: bool, max_items: Option<u32>) -> (r: Vec<
    DebitNoteRead,
>)
    requires
        ledger.wf(),
    ensures
        exists|perm: Seq<usize>| ordered_note_reads(ledger, r@, *pick, desc, max_items, perm),
{
    let rows = pick_notes(ledger, pick);
    let mut keys: Vec<i64> = Vec::new();
    let mut i: usize = 0;
    while i < rows.len()
        invariant
            0 <= i <= rows.len(),
            keys@ == note_timestamps(rows@).take(i as int),
        decreases rows.len() - i,
    {
        keys.push(rows[i].timestamp);
        proof {
            assert(note_timestamps(rows@).take(i + 1) =~= note_timestamps(rows@).take(i as int).push(
                rows@[i as int].timestamp,
            ));
        }
        i = i + 1;
    }
    proof {
        assert(note_timestamps(rows@).take(i as int) =~= note_timestamps(rows@));
    }
    let order = order_by_key(&keys, desc);
    let n: usize = match max_items {
        Some(max) => if (max as usize) < order.len() {
            max as usize
        } else {
            order.len()
        },
        None => order.len(),
    };
    let ghost s = permuted(rows@, order@);
    proof {
        assert(limit(s, max_items) =~= s.take(n as int));
    }
    let mut r: Vec<DebitNoteRead> = Vec::new();
    let mut j: usize = 0;
    while j < n
        invariant
            0 <= j <= n,
            n <= order@.len(),
            ledger.wf(),
            index_perm(order@, rows@.len()),
            rows@ == select_by(ledger.debit_notes@, |x: DebitNoteRow| note_picked(ledger, *pick, x)),
            s == permuted(rows@, order@),
            note_reads_of(ledger, r@, s.take(j as int)),
        decreases n - j,
    {
        let pos = order[j];
        proof {
            lemma_select_by_holds(ledger.debit_notes@, |x: DebitNoteRow| note_picked(ledger, *pick, x), pos as int);
        }
        let x = read_note(ledger, &rows[pos]);
        r.push(x);
        proof {
            assert(s[j as int] == rows@[pos as int]);
            assert forall|k: int| 0 <= k < j + 1 implies note_read_of(ledger, #[trigger] r@[k], s.take(j + 1)[k]) by {
                if k < j {
                    assert(s.take(j + 1)[k] == s.take(j as int)[k]);
                }
            }
        }
        j = j + 1;
    }
    proof {
        assert(ordered_note_reads(ledger, r@, *pick, desc, max_items, order@));
    }
    r
}

impl DebitNoteDao {
    /// The debit notes of any owner of the role, status and payability asked for, newest
    /// first.
    pub fn list(ledger: &Ledger, role: Option<Role>, status: Option<DocumentStatus>, payable: Option<bool>) -> (r: Vec<
        DebitNoteRead,
    >)
        requires
            ledger.wf(),
        ensures
            exists|perm: Seq<usize>|
                ordered_note_reads(
                    ledger,
                    r@,
                    DebitNotePick::Kind { role: role, status: status, payable: payable },
                    true,
                    None,
                    perm,
                ),
    {
        read_ordered(ledger, &DebitNotePick::Kind { role, status, payable }, true, None)
    }
}

impl DebitNoteDao {
    /// The debit notes of `node_id` issued after `after_timestamp`, oldest first, at most
    /// `max_items` of them.
    pub fn get_for_node_id(ledger: &Ledger, node_id: String, after_timestamp: Option<i64>, max_items: Option<u32>) -> (r:
        Vec<DebitNoteRead>)
        requires
            ledger.wf(),
        ensures
            exists|perm: Seq<usize>|
                ordered_note_reads(
                    ledger,
                    r@,
                    DebitNotePick::Owner { owner_id: node_id, after_timestamp: after_timestamp },
                    false,
                    max_items,
                    perm,
                ),
    {
        read_ordered(ledger, &DebitNotePick::Owner { owner_id: node_id, after_timestamp }, false, max_items)
    }
}

impl DebitNoteDao {
    /// The accepted debit notes of `owner_id` whose acceptance was not delivered yet, newest
    /// first.
    pub fn unsent_accepted(ledger: &Ledger, owner_id: String) -> (r: Vec<DebitNoteRead>)
        requires
            ledger.wf(),
        ensures
            exists|perm: Seq<usize>|
                ordered_note_reads(
                    ledger,
                    r@,
                    DebitNotePick::UnsentAccepted { owner_id: owner_id },
                    true,
                    None,
                    perm,
                ),
    {
        read_ordered(ledger, &DebitNotePick::UnsentAccepted { owner_id }, true, None)
    }
}

impl DebitNoteDao {
    /// The provider's issued or accepted debit notes of `owner_id`, in stored order.
    pub fn dangling(ledger: &Ledger, owner_id: String) -> (r: Vec<DebitNoteRead>)
        requires
            ledger.wf(),
        ensures
            note_reads_of(
                ledger,
                r@,
                select_by(
                    ledger.debit_notes@,
                    |n: DebitNoteRow| note_picked(ledger, DebitNotePick::Dangling { owner_id: owner_id }, n),
                ),
            ),
    {
        let pick = DebitNotePick::Dangling { owner_id };
        let rows = pick_notes(ledger, &pick);
        let mut r: Vec<DebitNoteRead> = Vec::new();
        let mut j: usize = 0;
        while j < rows.len()
            invariant
                0 <= j <= rows.len(),
                ledger.wf(),
                rows@ == select_by(ledger.debit_notes@, |x: DebitNoteRow| note_picked(ledger, pick, x)),
                note_reads_of(ledger, r@, rows@.take(j as int)),
            decreases rows.len() - j,
        {
            proof {
                lemma_select_by_holds(ledger.debit_notes@, |x: DebitNoteRow| note_picked(ledger, pick, x), j as int);
            }
            let x = read_note(ledger, &rows[j]);
            r.push(x);
            proof {
                assert forall|k: int| 0 <= k < j + 1 implies note_read_of(ledger, #[trigger] r@[k], rows@.take(j + 1)[k]) by {
                    if k < j {
                        assert(rows@.take(j + 1)[k] == rows@.take(j as int)[k]);
                    }
                }
            }
            j = j + 1;
        }
        proof {
            assert(rows@.take(j as int) =~= rows@);
        }
        r
    }
}

/// Whether debit note `n` is one of `owner`'s named in `ids`.
pub open spec fn note_listed(n: DebitNoteRow, ids: Seq<String>, owner: Seq<char>) -> bool {
    texts_view(ids).contains(n.id@) && n.owner_id@ == owner
}

/// The largest amount due among the listed debit notes of `activity` in `s`, and nothing
/// below zero.
pub open spec fn max_due(s: Seq<DebitNoteRow>, ids: Seq<String>, owner: Seq<char>, activity: Seq<char>) -> int
    decreases s.len(),
{
    if s.len() == 0 {
        0
    } else {
        let n = s.last();
        let rest = max_due(s.drop_last(), ids, owner, activity);
        if note_listed(n, ids, owner) && n.activity_id@ == activity && n.total_amount_due > rest {
            n.total_amount_due as int
        } else {
            rest
        }
    }
}

/// Whether some listed debit note in `s` is of `activity`.
pub open spec fn activity_listed(s: Seq<DebitNoteRow>, ids: Seq<String>, owner: Seq<char>, activity: Seq<char>) -> bool {
    exists|k: int| 0 <= k < s.len() && note_listed(#[trigger] s[k], ids, owner) && s[k].activity_id@ == activity
}

/// `r` holds, once each, every activity of a listed debit note in `s`, with the largest
/// amount due among that activity's listed notes (nothing below zero).
pub open spec fn paid_amounts(s: Seq<DebitNoteRow>, ids: Seq<String>, owner: Seq<char>, r: Seq<(String, i128)>) -> bool {
    &&& forall|a: int, b: int| 0 <= a < b < r.len() ==> #[trigger] r[a].0@ != #[trigger] r[b].0@
    &&& forall|a: int|
        0 <= a < r.len() ==> activity_listed(s, ids, owner, (#[trigger] r[a]).0@) && r[a].1 == max_due(
            s,
            ids,
            owner,
            r[a].0@,
        )
    &&& forall|k: int|
        0 <= k < s.len() && note_listed(#[trigger] s[k], ids, owner) ==> exists|a: int|
            0 <= a < r.len() && (#[trigger] r[a]).0@ == s[k].activity_id@
}

proof fn lemma_max_due_absent(s: Seq<DebitNoteRow>, ids: Seq<String>, owner: Seq<char>, activity: Seq<char>)
    requires
        !activity_listed(s, ids, owner, activity),
    ensures
        max_due(s, ids, owner, activity) == 0,
    decreases s.len(),
{
    if s.len() > 0 {
        let d = s.drop_last();
        assert(!activity_listed(d, ids, owner, activity)) by {
            if activity_listed(d, ids, owner, activity) {
                let k = choose|k: int| 0 <= k < d.len() && note_listed(#[trigger] d[k], ids, owner) && d[k].activity_id@ == activity;
                assert(s[k] == d[k]);
            }
        }
        lemma_max_due_absent(d, ids, owner, activity);
        assert(!(note_listed(s[s.len() - 1], ids, owner) && s[s.len() - 1].activity_id@ == activity));
    }
}

fn find_activity(r: &Vec<(String, i128)>, activity: &str) -> (f: Option<usize>)
    ensures
        f matches Some(a) ==> a < r@.len() && r@[a as int].0@ == activity@,
        f is None ==> forall|b: int| 0 <= b < r@.len() ==> (#[trigger] r@[b]).0@ != activity@,
{
    let mut a: usize = 0;
    while a < r.len()
        invariant
            0 <= a <= r.len(),
            forall|b: int| 0 <= b < a ==> (#[trigger] r@[b]).0@ != activity@,
        decreases r.len() - a,
    {
        if text_eq(r[a].0.as_str(), activity) {
            return Some(a);
        }
        a = a + 1;
    }
    None
}

/// For each activity of the debit notes of `owner_id` named in `debit_note_ids`, the
/// largest amount due among those notes (nothing below zero), each activity once, in the
/// order of first appearance.
pub fn get_paid_amount_per_activity(ledger: &Ledger, debit_note_ids: &Vec<String>, owner_id: &str) -> (r: Vec<
    (String, i128),
>)
    ensures
        paid_amounts(ledger.debit_notes@, debit_note_ids@, owner_id@, r@),
{
    let ghost s = ledger.debit_notes@;
    let ghost ids = debit_note_ids@;
    let mut r: Vec<(String, i128)> = Vec::new();
    let mut k: usize = 0;
    proof {
        assert(s.take(0) =~= Seq::<DebitNoteRow>::empty());
    }
    while k < ledger.debit_notes.len()
        invariant
            0 <= k <= ledger.debit_notes.len(),
            s == ledger.debit_notes@,
            ids == debit_note_ids@,
            paid_amounts(s.take(k as int), ids, owner_id@, r@),
        decreases ledger.debit_notes.len() - k,
    {
        let ghost t = s.take(k as int);
        let ghost t1 = s.take(k + 1);
        proof {
            assert(t1.drop_last() =~= t);
            assert(t1.last() == s[k as int]);
            assert forall|j: int| 0 <= j < t.len() implies t1[j] == t[j] by {}
            assert forall|x: Seq<char>| activity_listed(t, ids, owner_id@, x) implies activity_listed(
                t1,
                ids,
                owner_id@,
                x,
            ) by {
                let j = choose|j: int| 0 <= j < t.len() && note_listed(#[trigger] t[j], ids, owner_id@) && t[j].activity_id@ == x;
                assert(t1[j] == t[j]);
            }
        }
        let n = &ledger.debit_notes[k];
        if contains_text(debit_note_ids, n.id.as_str()) && text_eq(n.owner_id.as_str(), owner_id) {
            let ghost act = n.activity_id@;
            let ghost r0 = r@;
            proof {
                assert(note_listed(t1[k as int], ids, owner_id@));
                assert(activity_listed(t1, ids, owner_id@, act));
                assert forall|x: Seq<char>| x != act implies max_due(t1, ids, owner_id@, x) == max_due(
                    t,
                    ids,
                    owner_id@,
                    x,
                ) by {}
            }
            match find_activity(&r, n.activity_id.as_str()) {
                Some(a) => {
                    let cur = r[a].1;
                    if n.total_amount_due > cur {
                        let name = r[a].0.clone();
                        r.set(a, (name, n.total_amount_due));
                    }
                    proof {
                        assert(r0[a as int].1 == max_due(t, ids, owner_id@, act));
                        assert forall|b: int| 0 <= b < r@.len() implies activity_listed(t1, ids, owner_id@, (#[trigger] r@[b]).0@)
                            && r@[b].1 == max_due(t1, ids, owner_id@, r@[b].0@) by {
                            if b != a {
                                assert(r@[b] == r0[b]);
                                assert(activity_listed(t, ids, owner_id@, r0[b].0@));
                            }
                        }
                        assert forall|j: int| 0 <= j < t1.len() && note_listed(#[trigger] t1[j], ids, owner_id@) implies exists|b: int|
                            0 <= b < r@.len() && (#[trigger] r@[b]).0@ == t1[j].activity_id@ by {
                            if j < k {
                                assert(t1[j] == t[j]);
                                let b = choose|b: int| 0 <= b < r0.len() && (#[trigger] r0[b]).0@ == t[j].activity_id@;
                                assert(r@[b].0@ == r0[b].0@);
                            } else {
                                assert(r@[a as int].0@ == act);
                            }
                        }
                    }
                },
                None => {
                    proof {
                        assert(!activity_listed(t, ids, owner_id@, act)) by {
                            if activity_listed(t, ids, owner_id@, act) {
                                let j = choose|j: int| 0 <= j < t.len() && note_listed(#[trigger] t[j], ids, owner_id@) && t[j].activity_id@ == act;
                                let b = choose|b: int| 0 <= b < r0.len() && (#[trigger] r0[b]).0@ == t[j].activity_id@;
                            }
                        }
                        lemma_max_due_absent(t, ids, owner_id@, act);
                    }
                    let amount: i128 = if n.total_amount_due > 0 {
                        n.total_amount_due
                    } else {
                        0
                    };
                    r.push((n.activity_id.clone(), amount));
                    proof {
                        assert forall|b: int| 0 <= b < r@.len() implies activity_listed(t1, ids, owner_id@, (#[trigger] r@[b]).0@)
                            && r@[b].1 == max_due(t1, ids, owner_id@, r@[b].0@) by {
                            if b < r0.len() {
                                assert(r@[b] == r0[b]);
                                assert(activity_listed(t, ids, owner_id@, r0[b].0@));
                            }
                        }
                        assert forall|a: int, b: int| 0 <= a < b < r@.len() implies #[trigger] r@[a].0@ != #[trigger] r@[b].0@ by {
                            if b < r0.len() {
                                assert(r@[a] == r0[a] && r@[b] == r0[b]);
                            } else {
                                assert(r@[a] == r0[a]);
                            }
                        }
                        assert forall|j: int| 0 <= j < t1.len() && note_listed(#[trigger] t1[j], ids, owner_id@) implies exists|b: int|
                            0 <= b < r@.len() && (#[trigger] r@[b]).0@ == t1[j].activity_id@ by {
                            if j < k {
                                assert(t1[j] == t[j]);
                                let b = choose|b: int| 0 <= b < r0.len() && (#[trigger] r0[b]).0@ == t[j].activity_id@;
                                assert(r@[b] == r0[b]);
                            } else {
                                assert(r@[r0.len() as int].0@ == act);
                            }
                        }
                    }
                },
            }
        } else {
            proof {
                assert(!note_listed(t1[k as int], ids, owner_id@));
                assert forall|x: Seq<char>| max_due(t1, ids, owner_id@, x) == max_due(t, ids, owner_id@, x) by {}
                assert forall|x: Seq<char>| activity_listed(t1, ids, owner_id@, x) implies activity_listed(
                    t,
                    ids,
                    owner_id@,
                    x,
                ) by {
                    let j = choose|j: int| 0 <= j < t1.len() && note_listed(#[trigger] t1[j], ids, owner_id@) && t1[j].activity_id@ == x;
                    assert(j < k);
                    assert(t1[j] == t[j]);
                }
                assert forall|j: int| 0 <= j < t1.len() && note_listed(#[trigger] t1[j], ids, owner_id@) implies exists|b: int|
                    0 <= b < r@.len() && (#[trigger] r@[b]).0@ == t1[j].activity_id@ by {
                    assert(j < k);
                    assert(t1[j] == t[j]);
                }
            }
        }
        k = k + 1;
    }
    proof {
        assert(s.take(k as int) =~= s);
    }
    r
}

} // verus!
