//! Debit notes in the ledger: how they are received, accepted, rejected and cancelled.
use vstd::prelude::*;
use crate::error::{DbError, DbResult};
use crate::ledger::{
    debit_note_events_appended, find_key, has_key, in_range, is_not_found, key_index, key_is,
    lemma_key_index, lemma_update_same_key, not_found_error, DebitNoteEvent, DebitNoteEventType,
    DebitNoteRow, Ledger,
};
use crate::status::{DocumentStatus, Role};

verus! {

/// The debit notes of the ledger; each function takes the ledger it reads or changes.
pub struct DebitNoteDao;

pub open spec fn texts_view(v: Seq<String>) -> Seq<Seq<char>> {
    v.map_values(|s: String| s@)
}

/// The debit note `r` after setting the status of the notes `ids` of `owner` to `status`.
pub open spec fn with_status_if_listed(
    r: DebitNoteRow,
    ids: Seq<Seq<char>>,
    owner: Seq<char>,
    status: DocumentStatus,
) -> DebitNoteRow {
    if ids.contains(r.id@) && r.owner_id@ == owner {
        DebitNoteRow { status, ..r }
    } else {
        r
    }
}

/// Sets the status of every debit note of `owner_id` whose id is listed.
pub fn update_status(ledger: &mut Ledger, debit_note_ids: &Vec<String>, owner_id: &str, status: DocumentStatus)
    requires
        old(ledger).wf(),
    ensures
        final(ledger).wf(),
        Ledger::same_except(old(ledger), final(ledger), false, false, false, true, false, false),
        final(ledger).debit_notes@.len() == old(ledger).debit_notes@.len(),
        forall|k: int|
            0 <= k < old(ledger).debit_notes@.len() ==> #[trigger] final(ledger).debit_notes@[k]
                == with_status_if_listed(
                old(ledger).debit_notes@[k],
                texts_view(debit_note_ids@),
                owner_id@,
                status,
            ),
{
    let ghost ids = texts_view(debit_note_ids@);
    let mut k: usize = 0;
    while k < ledger.debit_notes.len()
        invariant
            ledger.wf(),
            0 <= k <= ledger.debit_notes.len(),
            ids == texts_view(debit_note_ids@),
            Ledger::same_except(old(ledger), ledger, false, false, false, true, false, false),
            ledger.debit_notes@.len() == old(ledger).debit_notes@.len(),
            forall|j: int|
                0 <= j < k ==> #[trigger] ledger.debit_notes@[j] == with_status_if_listed(
                    old(ledger).debit_notes@[j],
                    ids,
                    owner_id@,
                    status,
                ),
            forall|j: int| k <= j < ledger.debit_notes@.len() ==> #[trigger] ledger.debit_notes@[j] == old(ledger).debit_notes@[j],
        decreases ledger.debit_notes.len() - k,
    {
        let listed = contains_text(debit_note_ids, ledger.debit_notes[k].id.as_str());
        if listed && crate::text::text_eq(ledger.debit_notes[k].owner_id.as_str(), owner_id) {
            let mut row = ledger.debit_notes[k].duplicate();
            row.status = status;
            proof {
                lemma_update_same_key(ledger.debit_notes@, k as int, row);
            }
            ledger.debit_notes.set(k, row);
        }
        k = k + 1;
    }
}

/// Whether `v` holds the text `s`.
pub fn contains_text(v: &Vec<String>, s: &str) -> (r: bool)
    ensures
        r == texts_view(v@).contains(s@),
{
    let mut i: usize = 0;
    while i < v.len()
        invariant
            0 <= i <= v.len(),
            forall|k: int| 0 <= k < i ==> v@[k]@ != s@,
        decreases v.len() - i,
    {
        if crate::text::text_eq(v[i].as_str(), s) {
            proof {
                assert(texts_view(v@)[i as int] == s@);
            }
            return true;
        }
        i = i + 1;
    }
    proof {
        if texts_view(v@).contains(s@) {
            let j = choose|j: int| 0 <= j < texts_view(v@).len() && texts_view(v@)[j] == s@;
            assert(v@[j]@ == s@);
        }
    }
    false
}

/// Records `event_type` on the debit note under `debit_note_id` and `owner_id`.
pub fn create_event(
    ledger: &mut Ledger,
    debit_note_id: &str,
    owner_id: &str,
    event_type: DebitNoteEventType,
)
    requires
        old(ledger).wf(),
    ensures
        final(ledger).wf(),
        Ledger::same_except(old(ledger), final(ledger), false, false, false, false, false, true),
        debit_note_events_appended(
            old(ledger).debit_note_events@,
            final(ledger).debit_note_events@,
            debit_note_id@,
            owner_id@,
            seq![event_type],
        ),
{
    let ghost t = event_type;
    ledger.debit_note_events.push(
        DebitNoteEvent {
            debit_note_id: debit_note_id.to_string(),
            owner_id: owner_id.to_string(),
            event_type,
        },
    );
    proof {
        let o = old(ledger).debit_note_events@;
        let n = ledger.debit_note_events@;
        assert(n.take(o.len() as int) =~= o);
        assert(n[o.len() as int] == n.last());
        assert(seq![t][0] == t);
    }
}

} // verus!

verus! {

/// `new` is `old` followed by one event of type `t` for each debit note of `owner` in
/// `ids`, in their order.
pub open spec fn events_for_notes(
    old: Seq<DebitNoteEvent>,
    new: Seq<DebitNoteEvent>,
    ids: Seq<Seq<char>>,
    owner: Seq<char>,
    t: DebitNoteEventType,
) -> bool {
    &&& new.len() == old.len() + ids.len()
    &&& new.take(old.len() as int) == old
    &&& forall|k: int|
        0 <= k < ids.len() ==> {
            &&& (#[trigger] new[old.len() + k]).debit_note_id@ == ids[k]
            &&& new[old.len() + k].owner_id@ == owner
            &&& new[old.len() + k].event_type == t
        }
}

/// A debit note of `activity_id` and `owner`, neither cancelled nor settled, whose amount
/// due is covered by `paid`.
pub open spec fn settled_by(r: DebitNoteRow, activity_id: Seq<char>, owner: Seq<char>, paid: int) -> bool {
    &&& r.activity_id@ == activity_id
    &&& r.owner_id@ == owner
    &&& r.status != DocumentStatus::Cancelled
    &&& r.status != DocumentStatus::Settled
    &&& r.total_amount_due <= paid
}

/// The ids of the debit notes in `s` that `paid` settles, in their order.
pub open spec fn settled_ids(s: Seq<DebitNoteRow>, activity_id: Seq<char>, owner: Seq<char>, paid: int) -> Seq<
    Seq<char>,
>
    decreases s.len(),
{
    if s.len() == 0 {
        Seq::empty()
    } else {
        let rest = settled_ids(s.drop_last(), activity_id, owner, paid);
        if settled_by(s.last(), activity_id, owner, paid) {
            rest.push(s.last().id@)
        } else {
            rest
        }
    }
}

/// The debit note `r` after a payment that brings its activity's paid total to `paid`.
pub open spec fn after_payment(r: DebitNoteRow, activity_id: Seq<char>, owner: Seq<char>, paid: int) -> DebitNoteRow {
    if settled_by(r, activity_id, owner, paid) {
        DebitNoteRow { status: DocumentStatus::Settled, ..r }
    } else {
        r
    }
}

/// Settles every open debit note of the activity that `paid` covers, recording an event for
/// each, in the order the ledger keeps them.
pub fn settle_covered(ledger: &mut Ledger, activity_id: &str, owner_id: &str, paid: i128)
    requires
        old(ledger).wf(),
    ensures
        final(ledger).wf(),
        Ledger::same_except(old(ledger), final(ledger), false, false, false, true, false, true),
        final(ledger).debit_notes@.len() == old(ledger).debit_notes@.len(),
        forall|k: int|
            0 <= k < old(ledger).debit_notes@.len() ==> #[trigger] final(ledger).debit_notes@[k]
                == after_payment(old(ledger).debit_notes@[k], activity_id@, owner_id@, paid as int),
        events_for_notes(
            old(ledger).debit_note_events@,
            final(ledger).debit_note_events@,
            settled_ids(old(ledger).debit_notes@, activity_id@, owner_id@, paid as int),
            owner_id@,
            DebitNoteEventType::DebitNoteSettledEvent,
        ),
{
    let ghost notes0 = old(ledger).debit_notes@;
    let ghost events0 = old(ledger).debit_note_events@;
    proof {
        assert(notes0.take(0) =~= Seq::<DebitNoteRow>::empty());
        assert(events0.take(events0.len() as int) =~= events0);
    }
    let mut k: usize = 0;
    while k < ledger.debit_notes.len()
        invariant
            ledger.wf(),
            0 <= k <= ledger.debit_notes.len(),
            notes0 == old(ledger).debit_notes@,
            events0 == old(ledger).debit_note_events@,
            Ledger::same_except(old(ledger), ledger, false, false, false, true, false, true),
            ledger.debit_notes@.len() == notes0.len(),
            forall|j: int|
                0 <= j < k ==> #[trigger] ledger.debit_notes@[j] == after_payment(
                    notes0[j],
                    activity_id@,
                    owner_id@,
                    paid as int,
                ),
            forall|j: int| k <= j < notes0.len() ==> #[trigger] ledger.debit_notes@[j] == notes0[j],
            events_for_notes(
                events0,
                ledger.debit_note_events@,
                settled_ids(notes0.take(k as int), activity_id@, owner_id@, paid as int),
                owner_id@,
                DebitNoteEventType::DebitNoteSettledEvent,
            ),
        decreases ledger.debit_notes.len() - k,
    {
        proof {
            assert(notes0.take(k + 1).drop_last() =~= notes0.take(k as int));
            assert(notes0.take(k + 1).last() == notes0[k as int]);
        }
        let note = &ledger.debit_notes[k];
        let settles = crate::text::text_eq(note.activity_id.as_str(), activity_id)
            && crate::text::text_eq(note.owner_id.as_str(), owner_id)
            && !matches!(note.status, DocumentStatus::Cancelled)
            && !matches!(note.status, DocumentStatus::Settled)
            && note.total_amount_due <= paid;
        if settles {
            let mut row = note.duplicate();
            let id = row.id.clone();
            row.status = DocumentStatus::Settled;
            proof {
                lemma_update_same_key(ledger.debit_notes@, k as int, row);
            }
            ledger.debit_notes.set(k, row);
            let ghost before = ledger.debit_note_events@;
            ledger.debit_note_events.push(
                DebitNoteEvent {
                    debit_note_id: id,
                    owner_id: owner_id.to_string(),
                    event_type: DebitNoteEventType::DebitNoteSettledEvent,
                },
            );
            proof {
                let ids = settled_ids(notes0.take(k + 1), activity_id@, owner_id@, paid as int);
                let ids0 = settled_ids(notes0.take(k as int), activity_id@, owner_id@, paid as int);
                assert(ids == ids0.push(notes0[k as int].id@));
                let n = ledger.debit_note_events@;
                assert(n.take(events0.len() as int) =~= events0) by {
                    assert(n.take(before.len() as int) =~= before);
                    assert(before.take(events0.len() as int) == events0);
                }
                assert forall|j: int| 0 <= j < ids.len() implies {
                    &&& (#[trigger] n[events0.len() + j]).debit_note_id@ == ids[j]
                    &&& n[events0.len() + j].owner_id@ == owner_id@
                    &&& n[events0.len() + j].event_type == DebitNoteEventType::DebitNoteSettledEvent
                } by {
                    if j < ids0.len() {
                        assert(n[events0.len() + j] == before[events0.len() + j]);
                    }
                }
            }
        }
        k = k + 1;
    }
    proof {
        assert(notes0.take(k as int) =~= notes0);
    }
}

} // verus!

verus! {

/// Replaces the debit note at `i` by `row`, which keeps its key.
fn put_note(ledger: &mut Ledger, i: usize, row: DebitNoteRow)
    requires
        old(ledger).wf(),
        i < old(ledger).debit_notes.len(),
        row.id == old(ledger).debit_notes@[i as int].id,
        row.owner_id == old(ledger).debit_notes@[i as int].owner_id,
    ensures
        final(ledger).wf(),
        final(ledger).debit_notes@ == old(ledger).debit_notes@.update(i as int, row),
        Ledger::same_except(old(ledger), final(ledger), false, false, false, true, false, false),
{
    proof {
        lemma_update_same_key(old(ledger).debit_notes@, i as int, row);
    }
    ledger.debit_notes.set(i, row);
}

pub(crate) fn locate_note(ledger: &Ledger, debit_note_id: &str, owner_id: &str) -> (r: Option<usize>)
    requires
        ledger.wf(),
    ensures
        r matches Some(i) ==> i < ledger.debit_notes.len() && has_key(
            ledger.debit_notes@,
            debit_note_id@,
            owner_id@,
        ) && key_index(ledger.debit_notes@, debit_note_id@, owner_id@) == i,
        r is None ==> !has_key(ledger.debit_notes@, debit_note_id@, owner_id@),
{
    let r = find_key(&ledger.debit_notes, debit_note_id, owner_id);
    match r {
        Some(i) => {
            proof {
                lemma_key_index(ledger.debit_notes@, debit_note_id@, owner_id@, i as int);
            }
        },
        None => {},
    }
    r
}

/// The debit note under `id` and `owner`, its activity and the activity's agreement are all
/// in the ledger.
pub open spec fn note_joined(l: &Ledger, id: Seq<char>, owner: Seq<char>) -> bool {
    let n = l.debit_note(id, owner);
    &&& has_key(l.debit_notes@, id, owner)
    &&& has_key(l.activities@, n.activity_id@, owner)
    &&& has_key(l.agreements@, l.activity(n.activity_id@, owner).agreement_id@, owner)
}

/// The other side of the agreement that the debit note belongs to.
pub open spec fn note_peer(l: &Ledger, id: Seq<char>, owner: Seq<char>) -> String {
    let n = l.debit_note(id, owner);
    l.agreement(l.activity(n.activity_id@, owner).agreement_id@, owner).peer_id
}

/// What the state rules of a debit note need to know of it.
#[derive(Debug)]
pub struct DebitNoteShort {
    pub activity_id: String,
    pub role: Role,
    pub status: DocumentStatus,
    pub peer_id: String,
}

/// Reads the debit note under `debit_note_id` and `owner_id`, with the other side of its
/// agreement.
pub fn select_debit_note(ledger: &Ledger, debit_note_id: &str, owner_id: &str) -> (r: DbResult<
    (usize, DebitNoteShort),
>)
    requires
        ledger.wf(),
    ensures
        !note_joined(ledger, debit_note_id@, owner_id@) ==> (r matches Err(e) && is_not_found(e)),
        note_joined(ledger, debit_note_id@, owner_id@) ==> (r matches Ok((i, s)) && i == key_index(
            ledger.debit_notes@,
            debit_note_id@,
            owner_id@,
        ) && s.activity_id == ledger.debit_note(debit_note_id@, owner_id@).activity_id && s.role
            == ledger.debit_note(debit_note_id@, owner_id@).role && s.status == ledger.debit_note(
            debit_note_id@,
            owner_id@,
        ).status && s.peer_id == note_peer(ledger, debit_note_id@, owner_id@)),
{
    let i = match locate_note(ledger, debit_note_id, owner_id) {
        Some(i) => i,
        None => {
            return Err(not_found_error());
        },
    };
    let note = &ledger.debit_notes[i];
    let a = match crate::dao::activity::locate_activity(ledger, note.activity_id.as_str(), owner_id) {
        Some(a) => a,
        None => {
            return Err(not_found_error());
        },
    };
    let g = match crate::dao::agreement::locate(
        ledger,
        ledger.activities[a].agreement_id.as_str(),
        owner_id,
    ) {
        Some(g) => g,
        None => {
            return Err(not_found_error());
        },
    };
    Ok(
        (
            i,
            DebitNoteShort {
                activity_id: note.activity_id.clone(),
                role: note.role,
                status: note.status,
                peer_id: ledger.agreements[g].peer_id.clone(),
            },
        ),
    )
}

/// The text under which a document status is reported.
fn status_name(s: DocumentStatus) -> (r: String)
    ensures
        r@ == crate::status::status_text(s),
{
    s.to_text()
}

pub open spec fn role_debug_text(r: Role) -> Seq<char> {
    match r {
        Role::Provider => "Provider"@,
        Role::Requestor => "Requestor"@,
    }
}

/// Whether another debit note of the activity names `id` as the one before it.
pub open spec fn has_continuation(s: Seq<DebitNoteRow>, activity_id: Seq<char>, id: Seq<char>) -> bool {
    exists|k: int| 0 <= k < s.len() && continues(#[trigger] s[k], activity_id, id)
}

/// Debit note `r` of the activity follows the one under `id`.
pub open spec fn continues(r: DebitNoteRow, activity_id: Seq<char>, id: Seq<char>) -> bool {
    &&& r.activity_id@ == activity_id
    &&& r.id@ != id
    &&& r.previous_debit_note_id matches Some(p) && p@ == id
}

fn continuation_exists(notes: &Vec<DebitNoteRow>, activity_id: &str, id: &str) -> (r: bool)
    ensures
        r == has_continuation(notes@, activity_id@, id@),
{
    let mut k: usize = 0;
    while k < notes.len()
        invariant
            0 <= k <= notes.len(),
            forall|j: int|
                0 <= j < k ==> !continues(#[trigger] notes@[j], activity_id@, id@),
        decreases notes.len() - k,
    {
        let n = &notes[k];
        if crate::text::text_eq(n.activity_id.as_str(), activity_id) && !crate::text::text_eq(
            n.id.as_str(),
            id,
        ) {
            match &n.previous_debit_note_id {
                Some(p) => {
                    if crate::text::text_eq(p.as_str(), id) {
                        return true;
                    }
                },
                None => {},
            }
        }
        k = k + 1;
    }
    false
}

/// What cancelling a debit note gives: refused where the note is not issued, failed or
/// received, where `role` is not the note's side, or where a later note follows it; else
/// the note is cancelled, the cancellation recorded, and the other side named.
pub open spec fn note_cancelled(old: &Ledger, new: &Ledger, role: Role, id: Seq<char>, owner: Seq<char>, r: DbResult<String>) -> bool {
    let n = old.debit_note(id, owner);
    if !note_joined(old, id, owner) {
        r matches Err(e) && is_not_found(e) && *new == *old
    } else if !(n.status == DocumentStatus::Issued || n.status == DocumentStatus::Failed
        || n.status == DocumentStatus::Received) {
        r matches Err(DbError::Integrity(m)) && m@ == "unable to cancel debit note in state: "@
            + crate::status::status_text(n.status) && *new == *old
    } else if n.role != role {
        r matches Err(DbError::Integrity(m)) && m@ == "unable to cancel debit note for role "@
            + role_debug_text(role) && *new == *old
    } else if has_continuation(old.debit_notes@, n.activity_id@, id) {
        r matches Err(DbError::Integrity(m)) && m@ == "note has continuation"@ && *new == *old
    } else {
        &&& r == Ok::<String, DbError>(note_peer(old, id, owner))
        &&& new.debit_notes@ == old.debit_notes@.update(
            key_index(old.debit_notes@, id, owner),
            DebitNoteRow { status: DocumentStatus::Cancelled, ..n },
        )
        &&& debit_note_events_appended(
            old.debit_note_events@,
            new.debit_note_events@,
            id,
            owner,
            seq![DebitNoteEventType::DebitNoteCancelledEvent],
        )
        &&& Ledger::same_except(old, new, false, false, false, true, false, true)
    }
}

impl DebitNoteDao {
    /// Cancels a debit note on behalf of `role`; gives back the other side of its agreement.
    pub fn cancel(ledger: &mut Ledger, owner_id: &str, role: Role, debit_note_id: &str) -> (r: DbResult<String>)
        requires
            old(ledger).wf(),
        ensures
            final(ledger).wf(),
            note_cancelled(old(ledger), final(ledger), role, debit_note_id@, owner_id@, r),
    {
        let (i, note) = match select_debit_note(ledger, debit_note_id, owner_id) {
            Ok(x) => x,
            Err(e) => {
                return Err(e);
            },
        };
        match note.status {
            DocumentStatus::Issued | DocumentStatus::Failed | DocumentStatus::Received => {},
            _ => {
                let s = status_name(note.status);
                return Err(DbError::Integrity(crate::text::concat("unable to cancel debit note in state: ", s.as_str())));
            },
        }
        if note.role != role {
            let name = match role {
                Role::Provider => "Provider",
                Role::Requestor => "Requestor",
            };
            return Err(DbError::Integrity(crate::text::concat("unable to cancel debit note for role ", name)));
        }
        if continuation_exists(&ledger.debit_notes, note.activity_id.as_str(), debit_note_id) {
            return Err(DbError::Integrity("note has continuation".to_string()));
        }
        let mut row = ledger.debit_notes[i].duplicate();
        row.status = DocumentStatus::Cancelled;
        put_note(ledger, i, row);
        create_event(ledger, debit_note_id, owner_id, DebitNoteEventType::DebitNoteCancelledEvent);
        Ok(note.peer_id)
    }
}

/// What recording the other side's rejection of a debit note gives: refused where the note
/// is not the provider's or is accepted, or where `peer_id` is not the other side; a note
/// already rejected stays as it is; else the note is rejected and the rejection recorded.
pub open spec fn note_reject_received(
    old: &Ledger,
    new: &Ledger,
    owner: Seq<char>,
    id: Seq<char>,
    peer_id: Seq<char>,
    rejection: crate::ledger::Rejection,
    r: DbResult<()>,
) -> bool {
    let n = old.debit_note(id, owner);
    if !note_joined(old, id, owner) {
        r matches Err(e) && is_not_found(e) && *new == *old
    } else if n.role != Role::Provider {
        r matches Err(DbError::Integrity(m)) && m@ == "invalid request"@ && *new == *old
    } else if n.status == DocumentStatus::Rejected {
        r is Ok && *new == *old
    } else if n.status == DocumentStatus::Accepted {
        r matches Err(DbError::Integrity(m)) && m@ == "unable to cancel debit note in state: ACCEPTED"@
            && *new == *old
    } else if note_peer(old, id, owner)@ != peer_id {
        r matches Err(DbError::Forbidden) && *new == *old
    } else {
        &&& r is Ok
        &&& new.debit_notes@ == old.debit_notes@.update(
            key_index(old.debit_notes@, id, owner),
            DebitNoteRow { status: DocumentStatus::Rejected, ..n },
        )
        &&& debit_note_events_appended(
            old.debit_note_events@,
            new.debit_note_events@,
            id,
            owner,
            seq![DebitNoteEventType::DebitNoteRejectedEvent { rejection }],
        )
        &&& Ledger::same_except(old, new, false, false, false, true, false, true)
    }
}

impl DebitNoteDao {
    /// Records that `peer_id` rejected the provider's debit note.
    pub fn mark_reject_recv(
        ledger: &mut Ledger,
        owner_id: &str,
        debit_note_id: &str,
        peer_id: &str,
        rejection: crate::ledger::Rejection,
    ) -> (r: DbResult<()>)
        requires
            old(ledger).wf(),
        ensures
            final(ledger).wf(),
            note_reject_received(old(ledger), final(ledger), owner_id@, debit_note_id@, peer_id@, rejection, r),
    {
        let (i, note) = match select_debit_note(ledger, debit_note_id, owner_id) {
            Ok(x) => x,
            Err(e) => {
                return Err(e);
            },
        };
        if !matches!(note.role, Role::Provider) {
            return Err(DbError::Integrity("invalid request".to_string()));
        }
        if matches!(note.status, DocumentStatus::Rejected) {
            return Ok(());
        }
        if matches!(note.status, DocumentStatus::Accepted) {
            proof {
                reveal_strlit("ACCEPTED");
            }
            return Err(DbError::Integrity("unable to cancel debit note in state: ACCEPTED".to_string()));
        }
        if !crate::text::text_eq(note.peer_id.as_str(), peer_id) {
            return Err(DbError::Forbidden);
        }
        let mut row = ledger.debit_notes[i].duplicate();
        row.status = DocumentStatus::Rejected;
        put_note(ledger, i, row);
        create_event(ledger, debit_note_id, owner_id, DebitNoteEventType::DebitNoteRejectedEvent { rejection });
        Ok(())
    }
}

/// What rejecting a debit note gives: refused where the note is neither issued nor
/// received; else it is rejected, on the provider's side a cancellation event is recorded,
/// and the other side is named.
pub open spec fn note_rejected(old: &Ledger, new: &Ledger, owner: Seq<char>, id: Seq<char>, r: DbResult<String>) -> bool {
    let n = old.debit_note(id, owner);
    if !note_joined(old, id, owner) {
        r matches Err(e) && is_not_found(e) && *new == *old
    } else if !(n.status == DocumentStatus::Issued || n.status == DocumentStatus::Received) {
        r matches Err(DbError::Integrity(m)) && m@ == "unable to reject debit note in state: "@
            + crate::status::status_text(n.status) && *new == *old
    } else {
        &&& r == Ok::<String, DbError>(note_peer(old, id, owner))
        &&& new.debit_notes@ == old.debit_notes@.update(
            key_index(old.debit_notes@, id, owner),
            DebitNoteRow { status: DocumentStatus::Rejected, ..n },
        )
        &&& if n.role == Role::Provider {
            debit_note_events_appended(
                old.debit_note_events@,
                new.debit_note_events@,
                id,
                owner,
                seq![DebitNoteEventType::DebitNoteCancelledEvent],
            )
        } else {
            new.debit_note_events == old.debit_note_events
        }
        &&& Ledger::same_except(old, new, false, false, false, true, false, true)
    }
}

impl DebitNoteDao {
    /// Rejects a debit note; gives back the other side of its agreement.
    pub fn reject(ledger: &mut Ledger, owner_id: &str, debit_note_id: &str) -> (r: DbResult<String>)
        requires
            old(ledger).wf(),
        ensures
            final(ledger).wf(),
            note_rejected(old(ledger), final(ledger), owner_id@, debit_note_id@, r),
    {
        let (i, note) = match select_debit_note(ledger, debit_note_id, owner_id) {
            Ok(x) => x,
            Err(e) => {
                return Err(e);
            },
        };
        match note.status {
            DocumentStatus::Issued | DocumentStatus::Received => {},
            _ => {
                let s = status_name(note.status);
                return Err(DbError::Integrity(crate::text::concat("unable to reject debit note in state: ", s.as_str())));
            },
        }
        let mut row = ledger.debit_notes[i].duplicate();
        row.status = DocumentStatus::Rejected;
        put_note(ledger, i, row);
        if matches!(note.role, Role::Provider) {
            create_event(ledger, debit_note_id, owner_id, DebitNoteEventType::DebitNoteCancelledEvent);
        }
        Ok(note.peer_id)
    }
}

} // verus!

verus! {

/// How many debit notes of `s` wait for their acceptance to be delivered.
pub open spec fn count_unsent(s: Seq<DebitNoteRow>) -> nat
    decreases s.len(),
{
    if s.len() == 0 {
        0
    } else {
        count_unsent(s.drop_last()) + if s.last().send_accept {
            1nat
        } else {
            0nat
        }
    }
}

pub proof fn lemma_count_unsent_update(s: Seq<DebitNoteRow>, i: int)
    requires
        0 <= i < s.len(),
        s[i].send_accept,
    ensures
        count_unsent(s.update(i, DebitNoteRow { send_accept: false, ..s[i] })) + 1 == count_unsent(s),
    decreases s.len(),
{
    let t = s.update(i, DebitNoteRow { send_accept: false, ..s[i] });
    if i == s.len() - 1 {
        assert(t.drop_last() =~= s.drop_last());
    } else {
        lemma_count_unsent_update(s.drop_last(), i);
        assert(t.drop_last() =~= s.drop_last().update(i, DebitNoteRow { send_accept: false, ..s[i] }));
    }
}

/// Note `s[i]` with its acceptance marked as delivered.
pub open spec fn accept_marked(s: Seq<DebitNoteRow>, i: int) -> Seq<DebitNoteRow> {
    s.update(i, DebitNoteRow { send_accept: false, ..s[i] })
}

/// The debit notes after marking as delivered the acceptance of note `id` of `owner` and of
/// the notes before it, following each note's previous note, for at most `steps` notes;
/// the walk ends at a note that names none before it or at one that is not kept.
pub open spec fn accept_chain(s: Seq<DebitNoteRow>, id: Seq<char>, owner: Seq<char>, steps: nat) -> Seq<
    DebitNoteRow,
>
    decreases steps,
{
    if steps == 0 || !has_key(s, id, owner) {
        s
    } else {
        let i = key_index(s, id, owner);
        match s[i].previous_debit_note_id {
            Some(p) => accept_chain(accept_marked(s, i), p@, owner, (steps - 1) as nat),
            None => accept_marked(s, i),
        }
    }
}

/// Where the `k`-th note of the chain that starts at note `id` of `owner` is kept, following
/// each note's previous note.
pub open spec fn chain_pos(s: Seq<DebitNoteRow>, id: Seq<char>, owner: Seq<char>, k: nat) -> Option<int>
    decreases k,
{
    if !has_key(s, id, owner) {
        None
    } else {
        let i = key_index(s, id, owner);
        if k == 0 {
            Some(i)
        } else {
            match s[i].previous_debit_note_id {
                Some(p) => chain_pos(s, p@, owner, (k - 1) as nat),
                None => None,
            }
        }
    }
}

impl DebitNoteDao {
    /// Marks the acceptance of a debit note as delivered to the other side, and with it that
    /// of every earlier note of its chain. The walk goes over at most as many notes as are
    /// kept, which reaches every note of the chain: a chain of distinct notes is no longer.
    pub fn mark_accept_sent(ledger: &mut Ledger, debit_note_id: &str, owner_id: &str) -> (r: DbResult<()>)
        requires
            old(ledger).wf(),
        ensures
            final(ledger).wf(),
            r is Ok,
            final(ledger).debit_notes@ == accept_chain(
                old(ledger).debit_notes@,
                debit_note_id@,
                owner_id@,
                old(ledger).debit_notes@.len(),
            ),
            Ledger::same_except(old(ledger), final(ledger), false, false, false, true, false, false),
    {
        let n = ledger.debit_notes.len();
        let mut cur = debit_note_id.to_string();
        let mut steps: usize = n;
        let mut done = false;
        while !done && steps > 0
            invariant
                ledger.wf(),
                ledger.debit_notes@.len() == n,
                n == old(ledger).debit_notes@.len(),
                steps <= n,
                Ledger::same_except(old(ledger), ledger, false, false, false, true, false, false),
                accept_chain(ledger.debit_notes@, cur@, owner_id@, steps as nat) == accept_chain(
                    old(ledger).debit_notes@,
                    debit_note_id@,
                    owner_id@,
                    n as nat,
                ),
                done ==> accept_chain(ledger.debit_notes@, cur@, owner_id@, steps as nat)
                    == ledger.debit_notes@,
            decreases steps, if done { 0int } else { 1int },
        {
            match locate_note(ledger, cur.as_str(), owner_id) {
                None => {
                    done = true;
                },
                Some(i) => {
                    let ghost s = ledger.debit_notes@;
                    let mut row = ledger.debit_notes[i].duplicate();
                    row.send_accept = false;
                    let prev = clone_opt_text(&row.previous_debit_note_id);
                    put_note(ledger, i, row);
                    proof {
                        assert(ledger.debit_notes@ == accept_marked(s, i as int));
                    }
                    match prev {
                        Some(p) => {
                            cur = p;
                            steps = steps - 1;
                        },
                        None => {
                            proof {
                                let t = ledger.debit_notes@;
                                assert(key_is(t[i as int], cur@, owner_id@));
                                lemma_key_index(t, cur@, owner_id@, i as int);
                                assert(accept_marked(t, i as int) =~= t);
                            }
                            done = true;
                        },
                    }
                },
            }
        }
        proof {
            if !done {
                assert(steps == 0);
            }
        }
        Ok(())
    }
}

fn clone_opt_text(o: &Option<String>) -> (r: Option<String>)
    ensures
        r == *o,
{
    crate::models::clone_opt(o)
}

} // verus!

verus! {

/// A debit note of `activity_id`, of `owner` where one is given.
pub open spec fn of_activity(r: DebitNoteRow, activity_id: Seq<char>, owner: Option<Seq<char>>) -> bool {
    &&& r.activity_id@ == activity_id
    &&& owner matches Some(o) ==> r.owner_id@ == o
}

/// Note `i` is the latest of the activity's notes: none is later, and of those as late it
/// comes first.
pub open spec fn is_latest(s: Seq<DebitNoteRow>, i: int, activity_id: Seq<char>, owner: Option<Seq<char>>) -> bool {
    &&& 0 <= i < s.len()
    &&& of_activity(s[i], activity_id, owner)
    &&& forall|j: int|
        0 <= j < s.len() && of_activity(#[trigger] s[j], activity_id, owner) ==> s[j].timestamp
            <= s[i].timestamp && (s[j].timestamp == s[i].timestamp ==> i <= j)
}

/// The id of the latest note of the activity, where it has one.
pub open spec fn latest_note(s: Seq<DebitNoteRow>, activity_id: Seq<char>, owner: Option<Seq<char>>) -> Option<String> {
    if exists|i: int| #[trigger] is_latest(s, i, activity_id, owner) {
        Some(s[choose|i: int| #[trigger] is_latest(s, i, activity_id, owner)].id)
    } else {
        None
    }
}

fn of_activity_exec(r: &DebitNoteRow, activity_id: &str, owner: &Option<String>) -> (b: bool)
    ensures
        b == of_activity(*r, activity_id@, crate::platform::opt_view(*owner)),
{
    crate::text::text_eq(r.activity_id.as_str(), activity_id) && match owner {
        Some(o) => crate::text::text_eq(r.owner_id.as_str(), o.as_str()),
        None => true,
    }
}

/// Finds the id of the latest note of the activity.
pub fn find_latest(notes: &Vec<DebitNoteRow>, activity_id: &str, owner: &Option<String>) -> (r: Option<String>)
    ensures
        r == latest_note(notes@, activity_id@, crate::platform::opt_view(*owner)),
{
    let ghost o = crate::platform::opt_view(*owner);
    let mut best: Option<usize> = None;
    let mut k: usize = 0;
    while k < notes.len()
        invariant
            0 <= k <= notes.len(),
            o == crate::platform::opt_view(*owner),
            best matches Some(b) ==> b < k && is_latest(notes@.take(k as int), b as int, activity_id@, o),
            best is None ==> forall|j: int| 0 <= j < k ==> !of_activity(#[trigger] notes@[j], activity_id@, o),
        decreases notes.len() - k,
    {
        let ghost t = notes@.take(k + 1);
        if of_activity_exec(&notes[k], activity_id, owner) {
            match best {
                Some(b) => {
                    if notes[k].timestamp > notes[b].timestamp {
                        best = Some(k);
                    }
                },
                None => {
                    best = Some(k);
                },
            }
        }
        proof {
            match best {
                Some(b) => {
                    assert forall|j: int| 0 <= j < t.len() && of_activity(#[trigger] t[j], activity_id@, o) implies t[j].timestamp
                        <= t[b as int].timestamp && (t[j].timestamp == t[b as int].timestamp ==> b <= j) by {
                        assert(t[j] == notes@[j]);
                        if j < k {
                            assert(notes@.take(k as int)[j] == notes@[j]);
                        }
                    }
                    assert(t[b as int] == notes@[b as int]);
                },
                None => {},
            }
        }
        k = k + 1;
    }
    proof {
        assert(notes@.take(k as int) =~= notes@);
    }
    match best {
        Some(b) => {
            proof {
                let c = choose|i: int| #[trigger] is_latest(notes@, i, activity_id@, o);
                assert(is_latest(notes@, c, activity_id@, o));
                assert(of_activity(notes@[c], activity_id@, o));
                assert(of_activity(notes@[b as int], activity_id@, o));
            }
            Some(notes[b].id.clone())
        },
        None => {
            proof {
                if exists|i: int| #[trigger] is_latest(notes@, i, activity_id@, o) {
                    let c = choose|i: int| #[trigger] is_latest(notes@, i, activity_id@, o);
                    assert(of_activity(notes@[c], activity_id@, o));
                }
            }
            None
        },
    }
}

} // verus!

verus! {

pub open spec fn negative_note_text() -> Seq<char> {
    "Debit note total amount due cannot be negative"@
}

pub open spec fn duplicate_note_text() -> Seq<char> {
    "UNIQUE constraint failed: pay_debit_note.id, pay_debit_note.owner_id"@
}

/// The activities and agreements of `new` after raising the activity's amount due to
/// `total`, as `activity::set_amount_due` does where it succeeds.
pub open spec fn due_raised(old: &Ledger, new: &Ledger, activity_id: Seq<char>, owner: Seq<char>, total: int) -> bool {
    let act = old.activity(activity_id, owner);
    let agr = old.agreement(act.agreement_id@, owner);
    let delta = total - act.total_amount_due;
    if delta <= 0 {
        new.activities == old.activities && new.agreements == old.agreements
    } else {
        &&& new.activities@ == old.activities@.update(
            key_index(old.activities@, activity_id, owner),
            crate::ledger::ActivityRow { total_amount_due: total as i128, ..act },
        )
        &&& new.agreements@ == old.agreements@.update(
            key_index(old.agreements@, act.agreement_id@, owner),
            crate::ledger::AgreementRow { total_amount_due: (agr.total_amount_due + delta) as i128, ..agr },
        )
    }
}

/// What storing debit note `row` does: refuse a negative amount or a taken id; raise its
/// activity's amount due as `activity::set_amount_due` does (refused, changing nothing,
/// where the activity or, when the amount grows, its agreement is missing); store the note
/// naming the latest earlier note of the activity (of `prev_owner` where one is given);
/// record that it was received.
pub open spec fn note_inserted(
    old: &Ledger,
    new: &Ledger,
    row: DebitNoteRow,
    prev_owner: Option<Seq<char>>,
    r: DbResult<()>,
) -> bool {
    let owner = row.owner_id@;
    let act = old.activity(row.activity_id@, owner);
    let delta = row.total_amount_due - act.total_amount_due;
    if row.total_amount_due < 0 {
        r matches Err(DbError::Query(m)) && m@ == negative_note_text() && *new == *old
    } else if has_key(old.debit_notes@, row.id@, owner) {
        r matches Err(DbError::Query(m)) && m@ == duplicate_note_text() && *new == *old
    } else if !has_key(old.activities@, row.activity_id@, owner) || (delta > 0 && !has_key(
        old.agreements@,
        act.agreement_id@,
        owner,
    )) {
        r matches Err(e) && is_not_found(e) && *new == *old
    } else {
        &&& r is Ok
        &&& due_raised(old, new, row.activity_id@, owner, row.total_amount_due as int)
        &&& new.debit_notes@ == old.debit_notes@.push(
            DebitNoteRow {
                previous_debit_note_id: latest_note(old.debit_notes@, row.activity_id@, prev_owner),
                ..row
            },
        )
        &&& debit_note_events_appended(
            old.debit_note_events@,
            new.debit_note_events@,
            row.id@,
            owner,
            seq![DebitNoteEventType::DebitNoteReceivedEvent],
        )
        &&& Ledger::same_except(old, new, true, true, false, true, false, true)
    }
}

/// Stores a debit note; its link to the note before it is worked out here.
pub fn insert(ledger: &mut Ledger, row: DebitNoteRow, prev_owner: &Option<String>) -> (r: DbResult<()>)
    requires
        old(ledger).wf(),
        in_range(row.total_amount_due as int),
        crate::dao::activity::raise_in_range(
            old(ledger),
            row.activity_id@,
            row.owner_id@,
            row.total_amount_due as int,
            false,
        ),
    ensures
        final(ledger).wf(),
        note_inserted(old(ledger), final(ledger), row, crate::platform::opt_view(*prev_owner), r),
{
    if row.total_amount_due < 0 {
        return Err(DbError::Query("Debit note total amount due cannot be negative".to_string()));
    }
    if locate_note(ledger, row.id.as_str(), row.owner_id.as_str()).is_some() {
        return Err(DbError::Query("UNIQUE constraint failed: pay_debit_note.id, pay_debit_note.owner_id".to_string()));
    }
    let previous = find_latest(&ledger.debit_notes, row.activity_id.as_str(), prev_owner);
    let ghost l0 = *ledger;
    let res = crate::dao::activity::set_amount_due(
        ledger,
        row.activity_id.as_str(),
        row.owner_id.as_str(),
        row.total_amount_due,
    );
    match res {
        Err(e) => {
            return Err(e);
        },
        Ok(()) => {},
    }
    let id = row.id.clone();
    let owner_id = row.owner_id.clone();
    let mut note = row;
    note.previous_debit_note_id = previous;
    proof {
        crate::ledger::lemma_push_new_key(ledger.debit_notes@, note);
    }
    ledger.debit_notes.push(note);
    create_event(ledger, id.as_str(), owner_id.as_str(), DebitNoteEventType::DebitNoteReceivedEvent);
    Ok(())
}

/// A debit note as its issuer writes it; usage counters as JSON text.
#[derive(Debug)]
pub struct NewDebitNote {
    pub activity_id: String,
    pub total_amount_due: i128,
    pub usage_counter_vector: Option<String>,
    pub payment_due_date: Option<i64>,
}

/// The record of a debit note that `issuer` issues under `id` at `timestamp`.
pub open spec fn issued_note(n: NewDebitNote, issuer: String, id: String, timestamp: i64) -> DebitNoteRow {
    DebitNoteRow {
        id,
        owner_id: issuer,
        role: Role::Provider,
        previous_debit_note_id: None,
        activity_id: n.activity_id,
        status: DocumentStatus::Issued,
        timestamp,
        total_amount_due: n.total_amount_due,
        usage_counter_vector: n.usage_counter_vector,
        payment_due_date: n.payment_due_date,
        send_accept: false,
    }
}

impl DebitNoteDao {
    /// Issues a debit note under `id` at `timestamp`; its link goes to the issuer's latest
    /// earlier note of the activity. On success gives back `id`.
    pub fn create_new_with(
        ledger: &mut Ledger,
        debit_note: NewDebitNote,
        issuer_id: &String,
        id: String,
        timestamp: i64,
    ) -> (r: DbResult<String>)
        requires
            old(ledger).wf(),
            in_range(debit_note.total_amount_due as int),
            crate::dao::activity::raise_in_range(
                old(ledger),
                debit_note.activity_id@,
                issuer_id@,
                debit_note.total_amount_due as int,
                false,
            ),
        ensures
            final(ledger).wf(),
            note_inserted(
                old(ledger),
                final(ledger),
                issued_note(debit_note, *issuer_id, id, timestamp),
                Some(issuer_id@),
                match r {
                    Ok(_) => Ok(()),
                    Err(e) => Err(e),
                },
            ),
            r matches Ok(x) ==> x == id,
    {
        let NewDebitNote { activity_id, total_amount_due, usage_counter_vector, payment_due_date } = debit_note;
        let row = DebitNoteRow {
            id: id.clone(),
            owner_id: issuer_id.clone(),
            role: Role::Provider,
            previous_debit_note_id: None,
            activity_id,
            status: DocumentStatus::Issued,
            timestamp,
            total_amount_due,
            usage_counter_vector,
            payment_due_date,
            send_accept: false,
        };
        match insert(ledger, row, &Some(issuer_id.clone())) {
            Ok(()) => Ok(id),
            Err(e) => Err(e),
        }
    }
}

impl DebitNoteDao {
    /// Issues a debit note under a fresh random id, stamped with the current time.
    pub fn create_new(ledger: &mut Ledger, debit_note: NewDebitNote, issuer_id: &String) -> (r: DbResult<String>)
        requires
            old(ledger).wf(),
            in_range(debit_note.total_amount_due as int),
            crate::dao::activity::raise_in_range(
                old(ledger),
                debit_note.activity_id@,
                issuer_id@,
                debit_note.total_amount_due as int,
                false,
            ),
        ensures
            final(ledger).wf(),
            exists|id: String, timestamp: i64|
                note_inserted(
                    old(ledger),
                    final(ledger),
                    #[trigger] issued_note(debit_note, *issuer_id, id, timestamp),
                    Some(issuer_id@),
                    match r {
                        Ok(_) => Ok(()),
                        Err(e) => Err(e),
                    },
                ) && (r matches Ok(x) ==> x == id),
    {
        let id = crate::clock::new_uuid();
        let timestamp = crate::clock::now_millis();
        Self::create_new_with(ledger, debit_note, issuer_id, id, timestamp)
    }
}

/// A debit note as the other side sends it.
#[derive(Debug)]
pub struct DebitNote {
    pub debit_note_id: String,
    pub issuer_id: String,
    pub recipient_id: String,
    pub payee_addr: String,
    pub payer_addr: String,
    pub payment_platform: String,
    pub previous_debit_note_id: Option<String>,
    pub timestamp: i64,
    pub agreement_id: String,
    pub activity_id: String,
    pub total_amount_due: i128,
    pub usage_counter_vector: Option<String>,
    pub payment_due_date: Option<i64>,
    pub status: DocumentStatus,
}

/// The record of a debit note received from its issuer.
pub open spec fn received_note(n: DebitNote) -> DebitNoteRow {
    DebitNoteRow {
        id: n.debit_note_id,
        owner_id: n.recipient_id,
        role: Role::Requestor,
        previous_debit_note_id: None,
        activity_id: n.activity_id,
        status: DocumentStatus::Received,
        timestamp: n.timestamp,
        total_amount_due: n.total_amount_due,
        usage_counter_vector: n.usage_counter_vector,
        payment_due_date: n.payment_due_date,
        send_accept: false,
    }
}

impl DebitNoteDao {
    /// Stores a debit note received from its issuer; its link goes to the latest earlier note
    /// of the activity, whoever holds it.
    pub fn insert_received(ledger: &mut Ledger, debit_note: DebitNote) -> (r: DbResult<()>)
        requires
            old(ledger).wf(),
            in_range(debit_note.total_amount_due as int),
            crate::dao::activity::raise_in_range(
                old(ledger),
                debit_note.activity_id@,
                debit_note.recipient_id@,
                debit_note.total_amount_due as int,
                false,
            ),
        ensures
            final(ledger).wf(),
            note_inserted(old(ledger), final(ledger), received_note(debit_note), None, r),
    {
        let DebitNote {
            debit_note_id,
            issuer_id: _,
            recipient_id,
            payee_addr: _,
            payer_addr: _,
            payment_platform: _,
            previous_debit_note_id: _,
            timestamp,
            agreement_id: _,
            activity_id,
            total_amount_due,
            usage_counter_vector,
            payment_due_date,
            status: _,
        } = debit_note;
        let row = DebitNoteRow {
            id: debit_note_id,
            owner_id: recipient_id,
            role: Role::Requestor,
            previous_debit_note_id: None,
            activity_id,
            status: DocumentStatus::Received,
            timestamp,
            total_amount_due,
            usage_counter_vector,
            payment_due_date,
            send_accept: false,
        };
        insert(ledger, row, &None)
    }
}

} // verus!

verus! {

impl DebitNoteDao {
    /// Sets the status of the debit note under `debit_note_id` and `owner_id` to received.
    pub fn mark_received(ledger: &mut Ledger, debit_note_id: &str, owner_id: &str) -> (r: DbResult<()>)
        requires
            old(ledger).wf(),
        ensures
            final(ledger).wf(),
            r is Ok,
            Ledger::same_except(old(ledger), final(ledger), false, false, false, true, false, false),
            has_key(old(ledger).debit_notes@, debit_note_id@, owner_id@) ==> final(ledger).debit_notes@
                == old(ledger).debit_notes@.update(
                key_index(old(ledger).debit_notes@, debit_note_id@, owner_id@),
                DebitNoteRow {
                    status: DocumentStatus::Received,
                    ..old(ledger).debit_note(debit_note_id@, owner_id@)
                },
            ),
            !has_key(old(ledger).debit_notes@, debit_note_id@, owner_id@) ==> *final(ledger) == *old(ledger),
    {
        match locate_note(ledger, debit_note_id, owner_id) {
            Some(i) => {
                let mut row = ledger.debit_notes[i].duplicate();
                row.status = DocumentStatus::Received;
                put_note(ledger, i, row);
            },
            None => {},
        }
        Ok(())
    }
}

/// Whether accepting the debit note under `id` and `owner` can be carried out: the note and
/// its activity are there, and so is the activity's agreement where the accepted total
/// grows.
pub open spec fn note_acceptable(l: &Ledger, id: Seq<char>, owner: Seq<char>) -> bool {
    let n = l.debit_note(id, owner);
    let act = l.activity(n.activity_id@, owner);
    &&& has_key(l.debit_notes@, id, owner)
    &&& has_key(l.activities@, n.activity_id@, owner)
    &&& n.total_amount_due - act.total_amount_accepted > 0 ==> has_key(
        l.agreements@,
        act.agreement_id@,
        owner,
    )
}

/// What accepting a debit note does: a zero amount settles it at once, any other leaves it
/// accepted; on the requestor's side it is marked for sending the acceptance; its activity's
/// accepted total is raised to its amount as `activity::set_amount_accepted` does; the
/// acceptance (and the settlement) is recorded.
pub open spec fn note_accepted(old: &Ledger, new: &Ledger, id: Seq<char>, owner: Seq<char>) -> bool {
    let n = old.debit_note(id, owner);
    let zero = n.total_amount_due == 0;
    let act = old.activity(n.activity_id@, owner);
    let agr = old.agreement(act.agreement_id@, owner);
    let delta = n.total_amount_due - act.total_amount_accepted;
    &&& new.debit_notes@ == old.debit_notes@.update(
        key_index(old.debit_notes@, id, owner),
        DebitNoteRow {
            status: if zero { DocumentStatus::Settled } else { DocumentStatus::Accepted },
            send_accept: if n.role == Role::Requestor { true } else { n.send_accept },
            ..n
        },
    )
    &&& if delta <= 0 {
        new.activities == old.activities && new.agreements == old.agreements
    } else {
        &&& new.activities@ == old.activities@.update(
            key_index(old.activities@, n.activity_id@, owner),
            crate::ledger::ActivityRow { total_amount_accepted: n.total_amount_due, ..act },
        )
        &&& new.agreements@ == old.agreements@.update(
            key_index(old.agreements@, act.agreement_id@, owner),
            crate::ledger::AgreementRow {
                total_amount_accepted: (agr.total_amount_accepted + delta) as i128,
                ..agr
            },
        )
    }
    &&& debit_note_events_appended(
        old.debit_note_events@,
        new.debit_note_events@,
        id,
        owner,
        if zero {
            seq![DebitNoteEventType::DebitNoteAcceptedEvent, DebitNoteEventType::DebitNoteSettledEvent]
        } else {
            seq![DebitNoteEventType::DebitNoteAcceptedEvent]
        },
    )
    &&& Ledger::same_except(old, new, true, true, false, true, false, true)
}

impl DebitNoteDao {
    /// Accepts the debit note under `debit_note_id` and `owner_id`.
    pub fn accept(ledger: &mut Ledger, debit_note_id: &str, owner_id: &str) -> (r: DbResult<()>)
        requires
            old(ledger).wf(),
            has_key(old(ledger).debit_notes@, debit_note_id@, owner_id@) ==> {
                let n = old(ledger).debit_note(debit_note_id@, owner_id@);
                &&& in_range(n.total_amount_due as int)
                &&& crate::dao::activity::raise_in_range(
                    old(ledger),
                    n.activity_id@,
                    owner_id@,
                    n.total_amount_due as int,
                    true,
                )
            },
        ensures
            final(ledger).wf(),
            !note_acceptable(old(ledger), debit_note_id@, owner_id@) ==> (r matches Err(e)
                && is_not_found(e) && *final(ledger) == *old(ledger)),
            note_acceptable(old(ledger), debit_note_id@, owner_id@) ==> (r is Ok && note_accepted(
                old(ledger),
                final(ledger),
                debit_note_id@,
                owner_id@,
            )),
    {
        let i = match locate_note(ledger, debit_note_id, owner_id) {
            Some(i) => i,
            None => {
                return Err(not_found_error());
            },
        };
        let activity_id = ledger.debit_notes[i].activity_id.clone();
        let amount = ledger.debit_notes[i].total_amount_due;
        let a = match crate::dao::activity::locate_activity(ledger, activity_id.as_str(), owner_id) {
            Some(a) => a,
            None => {
                return Err(not_found_error());
            },
        };
        if amount - ledger.activities[a].total_amount_accepted > 0 {
            match crate::dao::agreement::locate(ledger, ledger.activities[a].agreement_id.as_str(), owner_id) {
                Some(_) => {},
                None => {
                    return Err(not_found_error());
                },
            }
        }
        let zero = amount == 0;
        let mut row = ledger.debit_notes[i].duplicate();
        if matches!(row.role, Role::Requestor) {
            row.send_accept = true;
        }
        row.status = if zero {
            DocumentStatus::Settled
        } else {
            DocumentStatus::Accepted
        };
        put_note(ledger, i, row);
        let _ = crate::dao::activity::set_amount_accepted(ledger, activity_id.as_str(), owner_id, amount);
        let ghost e0 = ledger.debit_note_events@;
        create_event(ledger, debit_note_id, owner_id, DebitNoteEventType::DebitNoteAcceptedEvent);
        if zero {
            let ghost e1 = ledger.debit_note_events@;
            create_event(ledger, debit_note_id, owner_id, DebitNoteEventType::DebitNoteSettledEvent);
            proof {
                let n = ledger.debit_note_events@;
                assert(n.take(e0.len() as int) =~= e0) by {
                    assert(n.take(e1.len() as int) == e1);
                    assert(e1.take(e0.len() as int) == e0);
                    assert(n.take(e0.len() as int) =~= e1.take(e0.len() as int));
                }
                let t = seq![DebitNoteEventType::DebitNoteAcceptedEvent, DebitNoteEventType::DebitNoteSettledEvent];
                assert forall|k: int| 0 <= k < t.len() implies {
                    &&& (#[trigger] n[e0.len() + k]).debit_note_id@ == debit_note_id@
                    &&& n[e0.len() + k].owner_id@ == owner_id@
                    &&& n[e0.len() + k].event_type == t[k]
                } by {
                    if k == 0 {
                        assert(n[e0.len() + k] == e1[e0.len() + 0int]);
                        assert(seq![DebitNoteEventType::DebitNoteAcceptedEvent][0] == DebitNoteEventType::DebitNoteAcceptedEvent);
                    } else {
                        assert(e0.len() + k == e1.len() + 0int);
                        assert(seq![DebitNoteEventType::DebitNoteSettledEvent][0] == DebitNoteEventType::DebitNoteSettledEvent);
                    }
                }
            }
        }
        Ok(())
    }
}

} // verus!

verus! {

/// Marking keeps every note's key and previous note, and clears what it touches only.
proof fn lemma_accept_chain_keeps(s: Seq<DebitNoteRow>, id: Seq<char>, owner: Seq<char>, steps: nat)
    ensures
        accept_chain(s, id, owner, steps).len() == s.len(),
        forall|k: int|
            0 <= k < s.len() ==> {
                &&& (#[trigger] accept_chain(s, id, owner, steps)[k]).id == s[k].id
                &&& accept_chain(s, id, owner, steps)[k].owner_id == s[k].owner_id
                &&& accept_chain(s, id, owner, steps)[k].previous_debit_note_id
                    == s[k].previous_debit_note_id
                &&& (!s[k].send_accept ==> !accept_chain(s, id, owner, steps)[k].send_accept)
            },
    decreases steps,
{
    if steps > 0 && has_key(s, id, owner) {
        let i = key_index(s, id, owner);
        let t = accept_marked(s, i);
        match s[i].previous_debit_note_id {
            Some(p) => {
                lemma_accept_chain_keeps(t, p@, owner, (steps - 1) as nat);
            },
            None => {},
        }
    }
}

/// Marking keeps the keys unique and the chain where it was.
proof fn lemma_marked_keeps_chain(s: Seq<DebitNoteRow>, i: int, id: Seq<char>, owner: Seq<char>, k: nat)
    requires
        crate::ledger::keys_unique(s),
        0 <= i < s.len(),
    ensures
        crate::ledger::keys_unique(accept_marked(s, i)),
        chain_pos(accept_marked(s, i), id, owner, k) == chain_pos(s, id, owner, k),
    decreases k,
{
    let t = accept_marked(s, i);
    lemma_update_same_key(s, i, t[i]);
    if has_key(s, id, owner) {
        let j = key_index(s, id, owner);
        assert(key_is(t[j], id, owner));
        lemma_key_index(t, id, owner, j);
        lemma_key_index(s, id, owner, j);
        if k > 0 {
            match s[j].previous_debit_note_id {
                Some(p) => {
                    lemma_marked_keeps_chain(s, i, p@, owner, (k - 1) as nat);
                },
                None => {},
            }
        }
    } else {
        assert(!has_key(t, id, owner)) by {
            if has_key(t, id, owner) {
                let j = key_index(t, id, owner);
                assert(key_is(s[j], id, owner));
            }
        }
    }
}

/// Marking the acceptance of a debit note as delivered marks every note its chain reaches
/// within `steps` notes, and no note that did not wait starts waiting.
pub proof fn law_accept_sent_clears(s: Seq<DebitNoteRow>, id: Seq<char>, owner: Seq<char>, steps: nat, k: nat)
    requires
        crate::ledger::keys_unique(s),
        k < steps,
    ensures
        accept_chain(s, id, owner, steps).len() == s.len(),
        chain_pos(s, id, owner, k) matches Some(q) ==> !accept_chain(s, id, owner, steps)[q].send_accept,
        forall|j: int|
            0 <= j < s.len() && !s[j].send_accept ==> !(#[trigger] accept_chain(s, id, owner, steps)[j]).send_accept,
    decreases k,
{
    lemma_accept_chain_keeps(s, id, owner, steps);
    if has_key(s, id, owner) {
        let i = key_index(s, id, owner);
        let t = accept_marked(s, i);
        match s[i].previous_debit_note_id {
            Some(p) => {
                lemma_accept_chain_keeps(t, p@, owner, (steps - 1) as nat);
                assert(!t[i].send_accept);
                if k > 0 {
                    lemma_marked_keeps_chain(s, i, p@, owner, (k - 1) as nat);
                    law_accept_sent_clears(t, p@, owner, (steps - 1) as nat, (k - 1) as nat);
                }
            },
            None => {},
        }
    }
}

/// After a payment for an activity, no debit note of the activity that the new paid total
/// covers is left open: each is settled, or was settled or cancelled before.
pub proof fn law_payment_settles_covered_notes(
    old: Seq<DebitNoteRow>,
    new: Seq<DebitNoteRow>,
    activity_id: Seq<char>,
    owner: Seq<char>,
    paid: int,
)
    requires
        new.len() == old.len(),
        forall|k: int| 0 <= k < old.len() ==> #[trigger] new[k] == after_payment(old[k], activity_id, owner, paid),
    ensures
        forall|k: int|
            0 <= k < new.len() && (#[trigger] new[k]).activity_id@ == activity_id && new[k].owner_id@ == owner
                && new[k].total_amount_due <= paid ==> new[k].status == DocumentStatus::Settled
                || new[k].status == DocumentStatus::Cancelled,
        forall|k: int| 0 <= k < new.len() ==> (#[trigger] new[k]).total_amount_due == old[k].total_amount_due,
{
}

} // verus!
