//! Activities in the ledger, and the running totals kept on them and on their agreements.
use vstd::prelude::*;
use crate::clock::now_millis;
use crate::dao::agreement::{locate, paid_on_agreement_tables};
use crate::error::{DbError, DbResult};
use crate::ledger::{
    find_key, has_key, in_range, is_not_found, key_index, lemma_key_index, lemma_push_new_key,
    lemma_update_same_key, not_found_error, ActivityRow, AgreementRow, DebitNoteEventType,
    DebitNoteRow, Ledger,
};
use crate::status::{DocumentStatus, Role};

verus! {

/// The activities of the ledger; each function takes the ledger it reads or changes.
pub struct ActivityDao;

/// Finds the activity under `id` and `owner`.
pub(crate) fn locate_activity(ledger: &Ledger, activity_id: &str, owner_id: &str) -> (r: Option<usize>)
    requires
        ledger.wf(),
    ensures
        r matches Some(i) ==> i < ledger.activities.len() && has_key(
            ledger.activities@,
            activity_id@,
            owner_id@,
        ) && key_index(ledger.activities@, activity_id@, owner_id@) == i,
        r is None ==> !has_key(ledger.activities@, activity_id@, owner_id@),
{
    let r = find_key(&ledger.activities, activity_id, owner_id);
    match r {
        Some(i) => {
            proof {
                lemma_key_index(ledger.activities@, activity_id@, owner_id@, i as int);
            }
        },
        None => {},
    }
    r
}

/// Replaces the activity at `i` by `row`, which keeps its key.
pub(crate) fn put_activity(ledger: &mut Ledger, i: usize, row: ActivityRow)
    requires
        old(ledger).wf(),
        i < old(ledger).activities.len(),
        row.id == old(ledger).activities@[i as int].id,
        row.owner_id == old(ledger).activities@[i as int].owner_id,
    ensures
        final(ledger).wf(),
        final(ledger).activities@ == old(ledger).activities@.update(i as int, row),
        Ledger::same_except(old(ledger), final(ledger), false, true, false, false, false, false),
{
    proof {
        lemma_update_same_key(old(ledger).activities@, i as int, row);
    }
    ledger.activities.set(i, row);
}

/// The activity under `id` and `owner` and its agreement are both in the ledger.
pub open spec fn activity_and_agreement(l: &Ledger, id: Seq<char>, owner: Seq<char>) -> bool {
    &&& has_key(l.activities@, id, owner)
    &&& has_key(l.agreements@, l.activity(id, owner).agreement_id@, owner)
}

/// `new` is `old` with the activity under `id` and `owner` replaced by `act`, and its
/// agreement by `agr`.
pub open spec fn activity_and_agreement_replaced(
    old: &Ledger,
    new: &Ledger,
    id: Seq<char>,
    owner: Seq<char>,
    act: ActivityRow,
    agr: AgreementRow,
) -> bool {
    &&& new.activities@ == old.activities@.update(key_index(old.activities@, id, owner), act)
    &&& new.agreements@ == old.agreements@.update(
        key_index(old.agreements@, old.activity(id, owner).agreement_id@, owner),
        agr,
    )
    &&& Ledger::same_except(old, new, true, true, false, false, false, false)
}

/// The running totals that a raise of an activity's total touches stay in range.
pub open spec fn raise_in_range(l: &Ledger, id: Seq<char>, owner: Seq<char>, total: int, accepted: bool) -> bool {
    let act = l.activity(id, owner);
    let agr = l.agreement(act.agreement_id@, owner);
    &&& has_key(l.activities@, id, owner) ==> in_range(
        if accepted { act.total_amount_accepted as int } else { act.total_amount_due as int },
    )
    &&& activity_and_agreement(l, id, owner) ==> in_range(
        if accepted {
            agr.total_amount_accepted + total - act.total_amount_accepted
        } else {
            agr.total_amount_due + total - act.total_amount_due
        },
    )
}

/// What raising an activity's amount due to `total` does: nothing where it does not
/// grow; else the activity takes `total` and its agreement grows by the difference. A
/// missing activity, or a missing agreement where it grows, is reported and nothing
/// changes.
pub open spec fn amount_due_set(
    old: &Ledger,
    new: &Ledger,
    id: Seq<char>,
    owner: Seq<char>,
    total: int,
    r: DbResult<()>,
) -> bool {
    let act = old.activity(id, owner);
    let agr = old.agreement(act.agreement_id@, owner);
    let delta = total - act.total_amount_due;
    if !has_key(old.activities@, id, owner) {
        r matches Err(e) && is_not_found(e) && *new == *old
    } else if delta <= 0 {
        r is Ok && *new == *old
    } else if !has_key(old.agreements@, act.agreement_id@, owner) {
        r matches Err(e) && is_not_found(e) && *new == *old
    } else {
        r is Ok && activity_and_agreement_replaced(
            old,
            new,
            id,
            owner,
            ActivityRow { total_amount_due: total as i128, ..act },
            AgreementRow { total_amount_due: (agr.total_amount_due + delta) as i128, ..agr },
        )
    }
}

/// Raises what an activity asks for to `total_amount_due`; a lower or equal total, from a
/// debit note older than one already received, changes nothing.
pub fn set_amount_due(ledger: &mut Ledger, activity_id: &str, owner_id: &str, total_amount_due: i128) -> (r:
    DbResult<()>)
    requires
        old(ledger).wf(),
        in_range(total_amount_due as int),
        raise_in_range(old(ledger), activity_id@, owner_id@, total_amount_due as int, false),
    ensures
        final(ledger).wf(),
        amount_due_set(old(ledger), final(ledger), activity_id@, owner_id@, total_amount_due as int, r),
{
    let i = match locate_activity(ledger, activity_id, owner_id) {
        Some(i) => i,
        None => {
            return Err(not_found_error());
        },
    };
    let old_amount = ledger.activities[i].total_amount_due;
    if total_amount_due - old_amount <= 0 {
        return Ok(());
    }
    let amount_delta = total_amount_due - old_amount;
    let agreement_id = ledger.activities[i].agreement_id.clone();
    match locate(ledger, agreement_id.as_str(), owner_id) {
        Some(_) => {},
        None => {
            return Err(not_found_error());
        },
    }
    let mut row = ledger.activities[i].duplicate();
    row.total_amount_due = total_amount_due;
    put_activity(ledger, i, row);
    let r = crate::dao::agreement::increase_amount_due(ledger, agreement_id.as_str(), owner_id, amount_delta);
    r
}

/// Like `amount_due_set`, for what was accepted on an activity and its agreement.
pub open spec fn amount_accepted_set(
    old: &Ledger,
    new: &Ledger,
    id: Seq<char>,
    owner: Seq<char>,
    total: int,
    r: DbResult<()>,
) -> bool {
    let act = old.activity(id, owner);
    let agr = old.agreement(act.agreement_id@, owner);
    let delta = total - act.total_amount_accepted;
    if !has_key(old.activities@, id, owner) {
        r matches Err(e) && is_not_found(e) && *new == *old
    } else if delta <= 0 {
        r is Ok && *new == *old
    } else if !has_key(old.agreements@, act.agreement_id@, owner) {
        r matches Err(e) && is_not_found(e) && *new == *old
    } else {
        r is Ok && activity_and_agreement_replaced(
            old,
            new,
            id,
            owner,
            ActivityRow { total_amount_accepted: total as i128, ..act },
            AgreementRow {
                total_amount_accepted: (agr.total_amount_accepted + delta) as i128,
                ..agr
            },
        )
    }
}

/// Raises what was accepted on an activity to `total_amount_accepted`; a lower or equal
/// total changes nothing.
pub fn set_amount_accepted(
    ledger: &mut Ledger,
    activity_id: &str,
    owner_id: &str,
    total_amount_accepted: i128,
) -> (r: DbResult<()>)
    requires
        old(ledger).wf(),
        in_range(total_amount_accepted as int),
        raise_in_range(old(ledger), activity_id@, owner_id@, total_amount_accepted as int, true),
    ensures
        final(ledger).wf(),
        amount_accepted_set(
            old(ledger),
            final(ledger),
            activity_id@,
            owner_id@,
            total_amount_accepted as int,
            r,
        ),
{
    let i = match locate_activity(ledger, activity_id, owner_id) {
        Some(i) => i,
        None => {
            return Err(not_found_error());
        },
    };
    let old_amount = ledger.activities[i].total_amount_accepted;
    if total_amount_accepted - old_amount <= 0 {
        return Ok(());
    }
    let amount_delta = total_amount_accepted - old_amount;
    let agreement_id = ledger.activities[i].agreement_id.clone();
    match locate(ledger, agreement_id.as_str(), owner_id) {
        Some(_) => {},
        None => {
            return Err(not_found_error());
        },
    }
    let mut row = ledger.activities[i].duplicate();
    row.total_amount_accepted = total_amount_accepted;
    put_activity(ledger, i, row);
    crate::dao::agreement::increase_amount_accepted(
        ledger,
        agreement_id.as_str(),
        owner_id,
        amount_delta,
    )
}

/// Adds `amount` to what is scheduled for payment on an activity and on its agreement.
pub fn increase_amount_scheduled(ledger: &mut Ledger, activity_id: &str, owner_id: &str, amount: i128) -> (r:
    DbResult<()>)
    requires
        old(ledger).wf(),
        amount > 0,
        activity_and_agreement(old(ledger), activity_id@, owner_id@) ==> {
            let act = old(ledger).activity(activity_id@, owner_id@);
            &&& in_range(act.total_amount_scheduled + amount)
            &&& in_range(
                old(ledger).agreement(act.agreement_id@, owner_id@).total_amount_scheduled + amount,
            )
        },
    ensures
        final(ledger).wf(),
        !activity_and_agreement(old(ledger), activity_id@, owner_id@) ==> (r matches Err(e)
            && is_not_found(e) && *final(ledger) == *old(ledger)),
        activity_and_agreement(old(ledger), activity_id@, owner_id@) ==> ({
            let act = old(ledger).activity(activity_id@, owner_id@);
            let agr = old(ledger).agreement(act.agreement_id@, owner_id@);
            r is Ok && activity_and_agreement_replaced(
                old(ledger),
                final(ledger),
                activity_id@,
                owner_id@,
                ActivityRow {
                    total_amount_scheduled: (act.total_amount_scheduled + amount) as i128,
                    ..act
                },
                AgreementRow {
                    total_amount_scheduled: (agr.total_amount_scheduled + amount) as i128,
                    ..agr
                },
            )
        }),
{
    let i = match locate_activity(ledger, activity_id, owner_id) {
        Some(i) => i,
        None => {
            return Err(not_found_error());
        },
    };
    let agreement_id = ledger.activities[i].agreement_id.clone();
    match locate(ledger, agreement_id.as_str(), owner_id) {
        Some(_) => {},
        None => {
            return Err(not_found_error());
        },
    }
    let mut row = ledger.activities[i].duplicate();
    row.total_amount_scheduled = row.total_amount_scheduled + amount;
    put_activity(ledger, i, row);
    crate::dao::agreement::increase_amount_scheduled(ledger, agreement_id.as_str(), owner_id, amount)
}

} // verus!

verus! {

/// What paying `amount` for an activity does: the activity's paid total grows by it, every
/// open debit note of the activity that the new total covers is settled with an event, and
/// the activity's agreement is paid as `paid_on_agreement_tables` says.
pub open spec fn paid_on_activity(
    old: &Ledger,
    new: &Ledger,
    id: Seq<char>,
    owner: Seq<char>,
    amount: int,
) -> bool {
    let act = old.activity(id, owner);
    let paid = act.total_amount_paid + amount;
    &&& new.activities@ == old.activities@.update(
        key_index(old.activities@, id, owner),
        ActivityRow { total_amount_paid: paid as i128, ..act },
    )
    &&& new.debit_notes@.len() == old.debit_notes@.len()
    &&& forall|k: int|
        0 <= k < old.debit_notes@.len() ==> #[trigger] new.debit_notes@[k]
            == crate::dao::debit_note::after_payment(old.debit_notes@[k], id, owner, paid)
    &&& crate::dao::debit_note::events_for_notes(
        old.debit_note_events@,
        new.debit_note_events@,
        crate::dao::debit_note::settled_ids(old.debit_notes@, id, owner, paid),
        owner,
        DebitNoteEventType::DebitNoteSettledEvent,
    )
    &&& paid_on_agreement_tables(old, new, act.agreement_id@, owner, amount)
    &&& new.invoice_activities == old.invoice_activities
}

/// Adds `amount` to what was paid for an activity, settles the debit notes it covers, and
/// pays the same amount on the activity's agreement.
pub fn increase_amount_paid(ledger: &mut Ledger, activity_id: &str, owner_id: &str, amount: i128) -> (r:
    DbResult<()>)
    requires
        old(ledger).wf(),
        amount > 0,
        activity_and_agreement(old(ledger), activity_id@, owner_id@) ==> {
            let act = old(ledger).activity(activity_id@, owner_id@);
            &&& in_range(act.total_amount_paid + amount)
            &&& in_range(
                old(ledger).agreement(act.agreement_id@, owner_id@).total_amount_paid + amount,
            )
        },
    ensures
        final(ledger).wf(),
        !activity_and_agreement(old(ledger), activity_id@, owner_id@) ==> (r matches Err(e)
            && is_not_found(e) && *final(ledger) == *old(ledger)),
        activity_and_agreement(old(ledger), activity_id@, owner_id@) ==> (r is Ok
            && paid_on_activity(old(ledger), final(ledger), activity_id@, owner_id@, amount as int)),
{
    let i = match locate_activity(ledger, activity_id, owner_id) {
        Some(i) => i,
        None => {
            return Err(not_found_error());
        },
    };
    let agreement_id = ledger.activities[i].agreement_id.clone();
    match locate(ledger, agreement_id.as_str(), owner_id) {
        Some(_) => {},
        None => {
            return Err(not_found_error());
        },
    }
    let mut row = ledger.activities[i].duplicate();
    let total_amount_paid = row.total_amount_paid + amount;
    row.total_amount_paid = total_amount_paid;
    put_activity(ledger, i, row);
    crate::dao::debit_note::settle_covered(ledger, activity_id, owner_id, total_amount_paid);
    crate::dao::agreement::increase_amount_paid(ledger, agreement_id.as_str(), owner_id, amount)
}

/// The paid total that `amounts` gives the activity `r`, where it names it.
pub open spec fn paid_from(r: ActivityRow, amounts: Seq<(String, i128)>, owner: Seq<char>) -> ActivityRow
    decreases amounts.len(),
{
    if amounts.len() == 0 {
        r
    } else {
        let last = amounts.last();
        if last.0@ == r.id@ && r.owner_id@ == owner {
            ActivityRow { total_amount_paid: last.1, ..r }
        } else {
            paid_from(r, amounts.drop_last(), owner)
        }
    }
}

/// Sets the paid total of each named activity of `owner_id` to the amount given for it;
/// where an activity is named twice, the later amount stands.
pub fn set_amounts_paid(ledger: &mut Ledger, amounts: &Vec<(String, i128)>, owner_id: &str) -> (r: DbResult<()>)
    requires
        old(ledger).wf(),
    ensures
        final(ledger).wf(),
        r is Ok,
        Ledger::same_except(old(ledger), final(ledger), false, true, false, false, false, false),
        final(ledger).activities@.len() == old(ledger).activities@.len(),
        forall|k: int|
            0 <= k < old(ledger).activities@.len() ==> #[trigger] final(ledger).activities@[k]
                == paid_from(old(ledger).activities@[k], amounts@, owner_id@),
{
    let ghost acts0 = old(ledger).activities@;
    let mut n: usize = 0;
    while n < amounts.len()
        invariant
            ledger.wf(),
            0 <= n <= amounts.len(),
            acts0 == old(ledger).activities@,
            Ledger::same_except(old(ledger), ledger, false, true, false, false, false, false),
            ledger.activities@.len() == acts0.len(),
            forall|k: int|
                0 <= k < acts0.len() ==> #[trigger] ledger.activities@[k] == paid_from(
                    acts0[k],
                    amounts@.take(n as int),
                    owner_id@,
                ),
        decreases amounts.len() - n,
    {
        let (activity_id, amount) = &amounts[n];
        let ghost before = ledger.activities@;
        let found = find_key(&ledger.activities, activity_id.as_str(), owner_id);
        match found {
            Some(i) => {
                let mut row = ledger.activities[i].duplicate();
                row.total_amount_paid = *amount;
                proof {
                    lemma_update_same_key(ledger.activities@, i as int, row);
                }
                ledger.activities.set(i, row);
            },
            None => {},
        }
        proof {
            let t = amounts@.take(n + 1);
            assert(t.drop_last() =~= amounts@.take(n as int));
            assert(t.last() == amounts@[n as int]);
            assert forall|k: int| 0 <= k < acts0.len() implies #[trigger] ledger.activities@[k]
                == paid_from(acts0[k], t, owner_id@) by {
                let named = amounts@[n as int].0@ == acts0[k].id@ && acts0[k].owner_id@ == owner_id@;
                lemma_paid_from_key(acts0[k], amounts@.take(n as int), owner_id@);
                if named {
                    assert(crate::ledger::key_is(before[k], activity_id@, owner_id@));
                    match found {
                        Some(i) => {
                            if i as int != k {
                                assert(before[i as int].id@ == before[k].id@);
                            }
                        },
                        None => {},
                    }
                } else {
                    match found {
                        Some(i) => {
                            if i as int == k {
                                assert(false);
                            }
                        },
                        None => {},
                    }
                }
            }
        }
        n = n + 1;
    }
    proof {
        assert(amounts@.take(n as int) =~= amounts@);
    }
    Ok(())
}

proof fn lemma_paid_from_key(r: ActivityRow, amounts: Seq<(String, i128)>, owner: Seq<char>)
    ensures
        paid_from(r, amounts, owner).id == r.id,
        paid_from(r, amounts, owner).owner_id == r.owner_id,
        (ActivityRow { total_amount_paid: r.total_amount_paid, ..paid_from(r, amounts, owner) }) == r,
    decreases amounts.len(),
{
    if amounts.len() > 0 {
        lemma_paid_from_key(r, amounts.drop_last(), owner);
    }
}

} // verus!

verus! {

/// Raising an activity's amount due never lowers it, and its agreement's amount due grows
/// by exactly what the activity's grew.
pub proof fn law_amount_due_never_lowered(
    old: Ledger,
    new: Ledger,
    id: Seq<char>,
    owner: Seq<char>,
    total: int,
    r: DbResult<()>,
)
    requires
        old.wf(),
        new.wf(),
        amount_due_set(&old, &new, id, owner, total, r),
        r is Ok,
        i128::MIN <= total <= i128::MAX,
        ({
            let act = old.activity(id, owner);
            i128::MIN <= old.agreement(act.agreement_id@, owner).total_amount_due + total - act.total_amount_due
                <= i128::MAX
        }),
    ensures
        new.activity(id, owner).total_amount_due >= old.activity(id, owner).total_amount_due,
        new.activity(id, owner).total_amount_due >= total,
        ({
            let ag = old.activity(id, owner).agreement_id@;
            new.agreement(ag, owner).total_amount_due - old.agreement(ag, owner).total_amount_due
                == new.activity(id, owner).total_amount_due - old.activity(id, owner).total_amount_due
        }),
{
    let act = old.activity(id, owner);
    let ai = key_index(old.activities@, id, owner);
    assert(has_key(old.activities@, id, owner));
    assert(crate::ledger::key_is(old.activities@[ai], id, owner));
    if total - act.total_amount_due <= 0 {
        assert(new == old);
    } else {
        let gi = key_index(old.agreements@, act.agreement_id@, owner);
        assert(crate::ledger::key_is(old.agreements@[gi], act.agreement_id@, owner));
        assert(crate::ledger::key_is(new.activities@[ai], id, owner));
        assert(crate::ledger::key_is(new.agreements@[gi], act.agreement_id@, owner));
        lemma_key_index(new.activities@, id, owner, ai);
        lemma_key_index(new.agreements@, act.agreement_id@, owner, gi);
        assert(new.activity(id, owner) == new.activities@[ai]);
        assert(new.activities@[ai].total_amount_due == total);
    }
}

} // verus!

verus! {

/// An activity as it is read, with the peer and addresses of its agreement.
#[derive(Debug)]
pub struct ActivityRead {
    pub activity: ActivityRow,
    pub peer_id: String,
    pub payee_addr: String,
    pub payer_addr: String,
}

impl ActivityDao {
    /// The activity under `activity_id` and `owner_id` with its agreement's peer and addresses;
    /// `None` where there is no such activity or its agreement is missing.
    pub fn get(ledger: &Ledger, activity_id: &str, owner_id: &str) -> (r: Option<ActivityRead>)
        requires
            ledger.wf(),
        ensures
            activity_and_agreement(ledger, activity_id@, owner_id@) ==> (r matches Some(x) && {
                let act = ledger.activity(activity_id@, owner_id@);
                let ag = ledger.agreement(act.agreement_id@, owner_id@);
                &&& x.activity == act
                &&& x.peer_id == ag.peer_id
                &&& x.payee_addr == ag.payee_addr
                &&& x.payer_addr == ag.payer_addr
            }),
            !activity_and_agreement(ledger, activity_id@, owner_id@) ==> r is None,
    {
        let i = match locate_activity(ledger, activity_id, owner_id) {
            Some(i) => i,
            None => {
                return None;
            },
        };
        let act = &ledger.activities[i];
        match locate(ledger, act.agreement_id.as_str(), owner_id) {
            Some(k) => {
                let ag = &ledger.agreements[k];
                Some(
                    ActivityRead {
                        activity: act.duplicate(),
                        peer_id: ag.peer_id.clone(),
                        payee_addr: ag.payee_addr.clone(),
                        payer_addr: ag.payer_addr.clone(),
                    },
                )
            },
            None => None,
        }
    }
}

impl ActivityDao {
    /// Stores activity `id` of `owner_id` under agreement `agreement_id`, with nothing due,
    /// accepted, scheduled or paid yet, created at `now`; unless one is kept under that id and
    /// owner already.
    pub fn create_if_not_exists(
        ledger: &mut Ledger,
        id: String,
        owner_id: String,
        role: Role,
        agreement_id: String,
        now: i64,
    ) -> (r: DbResult<()>)
        requires
            old(ledger).wf(),
        ensures
            final(ledger).wf(),
            r is Ok,
            has_key(old(ledger).activities@, id@, owner_id@) ==> *final(ledger) == *old(ledger),
            !has_key(old(ledger).activities@, id@, owner_id@) ==> final(ledger).activities@
                == old(ledger).activities@.push(
                ActivityRow {
                    id: id,
                    owner_id: owner_id,
                    role: role,
                    agreement_id: agreement_id,
                    total_amount_due: 0,
                    total_amount_accepted: 0,
                    total_amount_scheduled: 0,
                    total_amount_paid: 0,
                    created_ts: now,
                    updated_ts: now,
                },
            ) && Ledger::same_except(old(ledger), final(ledger), false, true, false, false, false, false),
    {
        if locate_activity(ledger, id.as_str(), owner_id.as_str()).is_some() {
            return Ok(());
        }
        let row = ActivityRow {
            id,
            owner_id,
            role,
            agreement_id,
            total_amount_due: 0,
            total_amount_accepted: 0,
            total_amount_scheduled: 0,
            total_amount_paid: 0,
            created_ts: now,
            updated_ts: now,
        };
        proof {
            lemma_push_new_key(ledger.activities@, row);
        }
        ledger.activities.push(row);
        Ok(())
    }
}

} // verus!
