//! Allocations: funds set aside by a requestor, and what is spent from them.
use vstd::prelude::*;
use crate::amount::{format_two_amounts, two_amounts_text};
use crate::dao::batch::{amount_limit, expenditure_bounded};
use crate::error::{DbError, DbResult};
use crate::models::{clone_opt, ExpenditureRow};

verus! {

/// A deposit contract backing an allocation; `validate` holds the arguments of the call
/// that validates it, where there is one.
#[derive(Debug)]
pub struct Deposit {
    pub id: String,
    pub contract: String,
    pub validate: Option<Vec<(String, String)>>,
}

/// Copies a list of text pairs.
pub fn clone_pairs(v: &Vec<(String, String)>) -> (r: Vec<(String, String)>)
    ensures
        r@ == v@,
{
    let mut r: Vec<(String, String)> = Vec::new();
    let mut i: usize = 0;
    while i < v.len()
        invariant
            0 <= i <= v.len(),
            r@ == v@.take(i as int),
        decreases v.len() - i,
    {
        let (a, b) = &v[i];
        r.push((a.clone(), b.clone()));
        proof {
            assert(v@.take(i + 1) =~= v@.take(i as int).push(v@[i as int]));
        }
        i = i + 1;
    }
    proof {
        assert(v@.take(i as int) =~= v@);
    }
    r
}

/// The view of a deposit: the validation arguments as a sequence.
pub struct DepositView {
    pub id: Seq<char>,
    pub contract: Seq<char>,
    pub validate: Option<Seq<(String, String)>>,
}

impl View for Deposit {
    type V = DepositView;

    open spec fn view(&self) -> DepositView {
        DepositView {
            id: self.id@,
            contract: self.contract@,
            validate: match self.validate {
                Some(v) => Some(v@),
                None => None,
            },
        }
    }
}

pub open spec fn opt_deposit_view(d: Option<Deposit>) -> Option<DepositView> {
    match d {
        Some(d) => Some(d@),
        None => None,
    }
}

impl Deposit {
    pub fn duplicate(&self) -> (r: Self)
        ensures
            r@ == self@,
    {
        Deposit {
            id: self.id.clone(),
            contract: self.contract.clone(),
            validate: match &self.validate {
                Some(v) => Some(clone_pairs(v)),
                None => None,
            },
        }
    }
}

pub fn clone_deposit(d: &Option<Deposit>) -> (r: Option<Deposit>)
    ensures
        opt_deposit_view(r) == opt_deposit_view(*d),
{
    match d {
        Some(d) => Some(d.duplicate()),
        None => None,
    }
}

/// A stored allocation. `avail_amount` is what can still be spent: the total minus what
/// has been spent.
#[derive(Debug)]
pub struct AllocationRow {
    pub id: String,
    pub owner_id: String,
    pub payment_platform: String,
    pub address: String,
    pub total_amount: i128,
    pub spent_amount: i128,
    pub avail_amount: i128,
    pub created_ts: i64,
    pub updated_ts: i64,
    pub timeout: Option<i64>,
    pub make_deposit: bool,
    pub deposit: Option<Deposit>,
    pub deposit_status: Option<String>,
    pub released: bool,
}

/// The view of a stored allocation.
pub struct AllocationRowView {
    pub id: Seq<char>,
    pub owner_id: Seq<char>,
    pub payment_platform: Seq<char>,
    pub address: Seq<char>,
    pub total_amount: int,
    pub spent_amount: int,
    pub avail_amount: int,
    pub created_ts: int,
    pub updated_ts: int,
    pub timeout: Option<i64>,
    pub make_deposit: bool,
    pub deposit: Option<DepositView>,
    pub deposit_status: Option<Seq<char>>,
    pub released: bool,
}

pub open spec fn opt_text_view(s: Option<String>) -> Option<Seq<char>> {
    match s {
        Some(t) => Some(t@),
        None => None,
    }
}

impl View for AllocationRow {
    type V = AllocationRowView;

    open spec fn view(&self) -> AllocationRowView {
        AllocationRowView {
            id: self.id@,
            owner_id: self.owner_id@,
            payment_platform: self.payment_platform@,
            address: self.address@,
            total_amount: self.total_amount as int,
            spent_amount: self.spent_amount as int,
            avail_amount: self.avail_amount as int,
            created_ts: self.created_ts as int,
            updated_ts: self.updated_ts as int,
            timeout: self.timeout,
            make_deposit: self.make_deposit,
            deposit: opt_deposit_view(self.deposit),
            deposit_status: opt_text_view(self.deposit_status),
            released: self.released,
        }
    }
}

impl AllocationRow {
    pub fn duplicate(&self) -> (r: Self)
        ensures
            r@ == self@,
    {
        AllocationRow {
            id: self.id.clone(),
            owner_id: self.owner_id.clone(),
            payment_platform: self.payment_platform.clone(),
            address: self.address.clone(),
            total_amount: self.total_amount,
            spent_amount: self.spent_amount,
            avail_amount: self.avail_amount,
            created_ts: self.created_ts,
            updated_ts: self.updated_ts,
            timeout: self.timeout,
            make_deposit: self.make_deposit,
            deposit: clone_deposit(&self.deposit),
            deposit_status: clone_opt(&self.deposit_status),
            released: self.released,
        }
    }
}

/// An allocation as the API shows it.
#[derive(Debug)]
pub struct Allocation {
    pub allocation_id: String,
    pub address: String,
    pub payment_platform: String,
    pub total_amount: i128,
    pub spent_amount: i128,
    pub remaining_amount: i128,
    pub timestamp: i64,
    pub timeout: Option<i64>,
    pub deposit: Option<Deposit>,
    pub make_deposit: bool,
}

pub struct AllocationView {
    pub allocation_id: Seq<char>,
    pub address: Seq<char>,
    pub payment_platform: Seq<char>,
    pub total_amount: int,
    pub spent_amount: int,
    pub remaining_amount: int,
    pub timestamp: int,
    pub timeout: Option<i64>,
    pub deposit: Option<DepositView>,
    pub make_deposit: bool,
}

impl View for Allocation {
    type V = AllocationView;

    open spec fn view(&self) -> AllocationView {
        AllocationView {
            allocation_id: self.allocation_id@,
            address: self.address@,
            payment_platform: self.payment_platform@,
            total_amount: self.total_amount as int,
            spent_amount: self.spent_amount as int,
            remaining_amount: self.remaining_amount as int,
            timestamp: self.timestamp as int,
            timeout: self.timeout,
            deposit: opt_deposit_view(self.deposit),
            make_deposit: self.make_deposit,
        }
    }
}

/// How a stored allocation reads through the API.
pub open spec fn row_to_allocation(r: AllocationRowView) -> AllocationView {
    AllocationView {
        allocation_id: r.id,
        address: r.address,
        payment_platform: r.payment_platform,
        total_amount: r.total_amount,
        spent_amount: r.spent_amount,
        remaining_amount: r.avail_amount,
        timestamp: r.created_ts,
        timeout: r.timeout,
        deposit: r.deposit,
        make_deposit: r.make_deposit,
    }
}

impl AllocationRow {
    pub fn to_allocation(&self) -> (r: Allocation)
        ensures
            r@ == row_to_allocation(self@),
    {
        Allocation {
            allocation_id: self.id.clone(),
            address: self.address.clone(),
            payment_platform: self.payment_platform.clone(),
            total_amount: self.total_amount,
            spent_amount: self.spent_amount,
            remaining_amount: self.avail_amount,
            timestamp: self.created_ts,
            timeout: self.timeout,
            deposit: clone_deposit(&self.deposit),
            make_deposit: self.make_deposit,
        }
    }
}

/// What spending from an allocation names: whose allocation, which one, what it pays
/// for (an agreement, and an activity where the spend is for a debit note) and how much.
#[derive(Debug)]
pub struct SpendFromAllocationArgs {
    pub owner_id: String,
    pub allocation_id: String,
    pub agreement_id: String,
    pub activity_id: Option<String>,
    pub amount: i128,
}

pub open spec fn not_enough_funds_text(needed: int, remaining: int) -> Seq<char> {
    two_amounts_text(
        "Not enough funds in allocation. Needed: "@,
        needed,
        " Remaining: "@,
        remaining,
    )
}

/// The stored record after spending `amount`: spent grows and available shrinks by it.
pub open spec fn spent_row(s: AllocationRowView, amount: int) -> AllocationRowView {
    AllocationRowView {
        spent_amount: s.spent_amount + amount,
        avail_amount: s.avail_amount - amount,
        ..s
    }
}

/// Whether an expenditure record is the one of this spend.
pub open spec fn expenditure_of(e: ExpenditureRow, args: SpendFromAllocationArgs) -> bool {
    &&& e.owner_id@ == args.owner_id@
    &&& e.allocation_id@ == args.allocation_id@
    &&& e.agreement_id@ == args.agreement_id@
    &&& match (e.activity_id, args.activity_id) {
        (Some(a), Some(b)) => a@ == b@,
        (None, None) => true,
        _ => false,
    }
}

/// Position of the expenditure of this spend, or -1 where there is none.
pub open spec fn expenditure_index(e: Seq<ExpenditureRow>, args: SpendFromAllocationArgs) -> int
    decreases e.len(),
{
    if e.len() == 0 {
        -1
    } else {
        let k = expenditure_index(e.drop_last(), args);
        if k >= 0 {
            k
        } else if expenditure_of(e.last(), args) {
            e.len() - 1
        } else {
            -1
        }
    }
}

/// The expenditures after a spend of `args.amount`: the spend's record has its accepted
/// amount raised, or a new record is added with nothing scheduled yet.
pub open spec fn spend_expenditures(
    e: Seq<ExpenditureRow>,
    args: SpendFromAllocationArgs,
) -> Seq<ExpenditureRow> {
    let k = expenditure_index(e, args);
    if k >= 0 {
        e.update(
            k,
            ExpenditureRow {
                accepted_amount: (e[k].accepted_amount + args.amount) as i128,
                ..e[k]
            },
        )
    } else {
        e.push(
            ExpenditureRow {
                owner_id: args.owner_id,
                allocation_id: args.allocation_id,
                agreement_id: args.agreement_id,
                activity_id: args.activity_id,
                accepted_amount: args.amount,
                scheduled_amount: 0,
            },
        )
    }
}

pub proof fn lemma_expenditure_index(e: Seq<ExpenditureRow>, args: SpendFromAllocationArgs)
    ensures
        -1 <= expenditure_index(e, args) < e.len(),
        expenditure_index(e, args) >= 0 ==> expenditure_of(e[expenditure_index(e, args)], args),
    decreases e.len(),
{
    if e.len() > 0 {
        lemma_expenditure_index(e.drop_last(), args);
    }
}

proof fn lemma_expenditure_index_prefix(e: Seq<ExpenditureRow>, args: SpendFromAllocationArgs, i: int)
    requires
        0 <= i < e.len(),
        expenditure_index(e.take(i), args) == -1,
        expenditure_of(e[i], args),
    ensures
        expenditure_index(e, args) == i,
    decreases e.len() - i,
{
    if i == e.len() - 1 {
        assert(e.drop_last() =~= e.take(i));
    } else {
        assert(e.drop_last().take(i) =~= e.take(i));
        lemma_expenditure_index_prefix(e.drop_last(), args, i);
    }
}

/// The activity an expenditure or a spend is for, as text: `None` for an agreement's own.
pub open spec fn activity_view(a: Option<String>) -> Option<Seq<char>> {
    match a {
        Some(x) => Some(x@),
        None => None,
    }
}

/// A spend changes only its own expenditure: a record whose owner, allocation, agreement or
/// activity differs from the spend's (an expenditure of another activity of the same
/// agreement, or the agreement's own one where the spend is for an activity) is left as
/// it was; and after the spend there is a record of exactly the spend's owner,
/// allocation, agreement and activity.
pub proof fn law_spend_changes_only_its_expenditure(
    e: Seq<ExpenditureRow>,
    args: SpendFromAllocationArgs,
    j: int,
)
    requires
        0 <= j < e.len(),
        !(e[j].owner_id@ == args.owner_id@ && e[j].allocation_id@ == args.allocation_id@
            && e[j].agreement_id@ == args.agreement_id@ && activity_view(e[j].activity_id)
            == activity_view(args.activity_id)),
    ensures
        spend_expenditures(e, args)[j] == e[j],
        spend_expenditures(e, args).len() >= e.len(),
        exists|i: int|
            0 <= i < spend_expenditures(e, args).len() && {
                let x = #[trigger] spend_expenditures(e, args)[i];
                &&& x.owner_id@ == args.owner_id@
                &&& x.allocation_id@ == args.allocation_id@
                &&& x.agreement_id@ == args.agreement_id@
                &&& activity_view(x.activity_id) == activity_view(args.activity_id)
            },
{
    lemma_expenditure_index(e, args);
    let k = expenditure_index(e, args);
    let n = spend_expenditures(e, args);
    if k >= 0 {
        assert(k != j);
        assert(n[k].owner_id == e[k].owner_id);
    } else {
        assert(n[e.len() as int].activity_id == args.activity_id);
    }
}

proof fn lemma_expenditure_index_first(e: Seq<ExpenditureRow>, args: SpendFromAllocationArgs)
    ensures
        forall|i: int|
            0 <= i < e.len() && (expenditure_index(e, args) == -1 || i < expenditure_index(e, args))
                ==> !expenditure_of(#[trigger] e[i], args),
    decreases e.len(),
{
    if e.len() > 0 {
        lemma_expenditure_index_first(e.drop_last(), args);
        lemma_expenditure_index(e.drop_last(), args);
        assert forall|i: int|
            0 <= i < e.len() && (expenditure_index(e, args) == -1 || i < expenditure_index(e, args))
                implies !expenditure_of(#[trigger] e[i], args) by {
            if i < e.len() - 1 {
                assert(e[i] == e.drop_last()[i]);
            }
        }
    }
}

/// A spend whose owner, allocation, agreement and activity are those of a stored
/// expenditure (the first such one) adds its amount to that expenditure's accepted amount
/// and adds no record.
pub proof fn law_spend_raises_its_expenditure(e: Seq<ExpenditureRow>, args: SpendFromAllocationArgs, j: int)
    requires
        0 <= j < e.len(),
        e[j].owner_id@ == args.owner_id@,
        e[j].allocation_id@ == args.allocation_id@,
        e[j].agreement_id@ == args.agreement_id@,
        activity_view(e[j].activity_id) == activity_view(args.activity_id),
        forall|i: int|
            0 <= i < j ==> !((#[trigger] e[i]).owner_id@ == args.owner_id@ && e[i].allocation_id@
                == args.allocation_id@ && e[i].agreement_id@ == args.agreement_id@ && activity_view(
                e[i].activity_id,
            ) == activity_view(args.activity_id)),
    ensures
        spend_expenditures(e, args).len() == e.len(),
        spend_expenditures(e, args)[j] == (ExpenditureRow {
            accepted_amount: (e[j].accepted_amount + args.amount) as i128,
            ..e[j]
        }),
{
    lemma_expenditure_index(e, args);
    lemma_expenditure_index_first(e, args);
    let k = expenditure_index(e, args);
    assert(expenditure_of(e[j], args));
    if k == -1 || j < k {
        assert(!expenditure_of(e[j], args));
    }
    if k < j {
        assert(expenditure_of(e[k], args));
    }
}

fn expenditure_of_exec(e: &ExpenditureRow, args: &SpendFromAllocationArgs) -> (r: bool)
    ensures
        r == expenditure_of(*e, *args),
{
    if e.owner_id != args.owner_id || e.allocation_id != args.allocation_id || e.agreement_id
        != args.agreement_id {
        return false;
    }
    match (&e.activity_id, &args.activity_id) {
        (Some(a), Some(b)) => *a == *b,
        (None, None) => true,
        _ => false,
    }
}

/// Spends `args.amount` from `allocation` (the stored record of the allocation that
/// `args` names): refused where the amount exceeds what is available; otherwise the
/// spent amount grows and the available amount shrinks by it, and the expenditure of the
/// agreement (and activity) on this allocation records it as accepted.
pub fn spend_from_allocation(
    allocation: &AllocationRow,
    expenditures: &mut Vec<ExpenditureRow>,
    args: &SpendFromAllocationArgs,
) -> (r: DbResult<AllocationRow>)
    requires
        -amount_limit() <= args.amount <= amount_limit(),
        -amount_limit() <= allocation.spent_amount <= amount_limit(),
        -amount_limit() <= allocation.avail_amount <= amount_limit(),
        forall|i: int|
            0 <= i < old(expenditures)@.len() ==> expenditure_bounded(#[trigger] old(expenditures)@[i]),
    ensures
        args.amount > allocation.avail_amount ==> {
            &&& r matches Err(DbError::Query(m)) && m@ == not_enough_funds_text(
                args.amount as int,
                allocation.avail_amount as int,
            )
            &&& final(expenditures)@ == old(expenditures)@
        },
        args.amount <= allocation.avail_amount ==> {
            &&& r matches Ok(n) && n@ == spent_row(allocation@, args.amount as int)
            &&& final(expenditures)@ == spend_expenditures(old(expenditures)@, *args)
        },
{
    if args.amount > allocation.avail_amount {
        return Err(
            DbError::Query(
                format_two_amounts(
                    "Not enough funds in allocation. Needed: ",
                    args.amount,
                    " Remaining: ",
                    allocation.avail_amount,
                ),
            ),
        );
    }
    let mut updated = allocation.duplicate();
    updated.spent_amount = allocation.spent_amount + args.amount;
    updated.avail_amount = allocation.avail_amount - args.amount;

    let ghost e0 = expenditures@;
    let mut i: usize = 0;
    while i < expenditures.len()
        invariant
            0 <= i <= expenditures.len(),
            expenditures@ == e0,
            e0 == old(expenditures)@,
            forall|k: int| 0 <= k < e0.len() ==> expenditure_bounded(#[trigger] e0[k]),
            -amount_limit() <= args.amount <= amount_limit(),
            expenditure_index(e0.take(i as int), *args) == -1,
            args.amount <= allocation.avail_amount,
            updated@ == spent_row(allocation@, args.amount as int),
        decreases expenditures.len() - i,
    {
        proof {
            assert(e0.take(i + 1).drop_last() =~= e0.take(i as int));
        }
        if expenditure_of_exec(&expenditures[i], args) {
            proof {
                lemma_expenditure_index_prefix(e0, *args, i as int);
                assert(expenditure_bounded(e0[i as int]));
            }
            let entry = &mut expenditures[i];
            entry.accepted_amount = entry.accepted_amount + args.amount;
            proof {
                assert(expenditures@ =~= spend_expenditures(e0, *args));
            }
            return Ok(updated);
        }
        i = i + 1;
    }
    proof {
        assert(e0.take(i as int) =~= e0);
    }
    expenditures.push(
        ExpenditureRow {
            owner_id: args.owner_id.clone(),
            allocation_id: args.allocation_id.clone(),
            agreement_id: args.agreement_id.clone(),
            activity_id: clone_opt(&args.activity_id),
            accepted_amount: args.amount,
            scheduled_amount: 0,
        },
    );
    proof {
        assert(expenditures@ =~= spend_expenditures(e0, *args));
    }
    Ok(updated)
}


pub open spec fn amend_below_spent_text(total: int, spent: int) -> Seq<char> {
    two_amounts_text(
        "Amended allocation total "@,
        total,
        " is smaller than the already spent amount "@,
        spent,
    )
}

/// The stored record after an amend: the total, timeout and deposit come from the
/// amended allocation, the spent amount stays what is stored, and what is available is
/// the new total minus that.
pub open spec fn amended_row(stored: AllocationRowView, allocation: AllocationView) -> AllocationRowView {
    AllocationRowView {
        total_amount: allocation.total_amount,
        avail_amount: allocation.total_amount - stored.spent_amount,
        timeout: allocation.timeout,
        deposit: allocation.deposit,
        ..stored
    }
}

/// Applies an amend to the stored allocation, as read when the amend is written.
///
/// `allocation` may have been read earlier and carry a stale spent amount; it is not
/// written back. The spent amount stays the stored one, and what is available is the
/// amended total minus it, so a spend made in between is kept. `Ok(None)` where the
/// allocation is gone or released; an error where the amended total is smaller than the
/// stored spent amount.
pub fn replace(stored: Option<&AllocationRow>, allocation: &Allocation) -> (r: DbResult<
    Option<AllocationRow>,
>)
    requires
        stored matches Some(s) ==> -amount_limit() <= s.spent_amount <= amount_limit(),
        -amount_limit() <= allocation.total_amount <= amount_limit(),
    ensures
        match stored {
            None => r matches Ok(None),
            Some(s) => if s.released {
                r matches Ok(None)
            } else if allocation.total_amount < s.spent_amount {
                r matches Err(DbError::Query(m)) && m@ == amend_below_spent_text(
                    allocation.total_amount as int,
                    s.spent_amount as int,
                )
            } else {
                r matches Ok(Some(n)) && n@ == amended_row(s@, allocation@)
            },
        },
{
    let current = match stored {
        Some(current) => current,
        None => return Ok(None),
    };
    if current.released {
        return Ok(None);
    }
    let avail_amount = allocation.total_amount - current.spent_amount;
    if avail_amount < 0 {
        return Err(
            DbError::Query(
                format_two_amounts(
                    "Amended allocation total ",
                    allocation.total_amount,
                    " is smaller than the already spent amount ",
                    current.spent_amount,
                ),
            ),
        );
    }
    let mut updated = current.duplicate();
    updated.total_amount = allocation.total_amount;
    updated.avail_amount = avail_amount;
    updated.timeout = allocation.timeout;
    updated.deposit = clone_deposit(&allocation.deposit);
    Ok(Some(updated))
}

/// What reading an allocation finds.
#[derive(Debug)]
pub enum AllocationStatus {
    Active(Allocation),
    Gone,
    NotFound,
}

/// Reads the allocation of `owner_id` from its stored record: records that are released
/// or belong to someone else are not found.
pub fn get(stored: Option<&AllocationRow>, owner_id: &String) -> (r: AllocationStatus)
    ensures
        match stored {
            Some(s) => if !s.released && s.owner_id@ == owner_id@ {
                r matches AllocationStatus::Active(a) && a@ == row_to_allocation(s@)
            } else {
                r is NotFound
            },
            None => r is NotFound,
        },
{
    match stored {
        Some(s) => {
            if !s.released && s.owner_id == *owner_id {
                AllocationStatus::Active(s.to_allocation())
            } else {
                AllocationStatus::NotFound
            }
        },
        None => AllocationStatus::NotFound,
    }
}

/// What releasing an allocation finds.
#[derive(Debug)]
pub enum AllocationReleaseStatus {
    Gone,
    NotFound,
    Released { deposit: Option<Deposit>, platform: String },
}

/// Releases the allocation of `owner_id`: not found where there is no record or it is
/// someone else's, gone where it is already released; otherwise the record is marked
/// released (returned for writing) and its deposit and platform are reported.
pub fn release(stored: Option<&AllocationRow>, owner_id: &String) -> (r: (
    AllocationReleaseStatus,
    Option<AllocationRow>,
))
    ensures
        match stored {
            None => r.0 is NotFound && r.1 is None,
            Some(s) => if s.owner_id@ != owner_id@ {
                r.0 is NotFound && r.1 is None
            } else if s.released {
                r.0 is Gone && r.1 is None
            } else {
                &&& r.0 matches AllocationReleaseStatus::Released { deposit, platform }
                    && opt_deposit_view(deposit) == s@.deposit && platform@ == s.payment_platform@
                &&& r.1 matches Some(n) && n@ == (AllocationRowView { released: true, ..s@ })
            },
        },
{
    match stored {
        None => (AllocationReleaseStatus::NotFound, None),
        Some(s) => {
            if s.owner_id != *owner_id {
                return (AllocationReleaseStatus::NotFound, None);
            }
            if s.released {
                return (AllocationReleaseStatus::Gone, None);
            }
            let mut updated = s.duplicate();
            updated.released = true;
            (
                AllocationReleaseStatus::Released {
                    deposit: clone_deposit(&s.deposit),
                    platform: s.payment_platform.clone(),
                },
                Some(updated),
            )
        },
    }
}

pub open spec fn deposit_status_is(s: AllocationRowView, status: Seq<char>) -> bool {
    s.deposit_status matches Some(t) && t == status
}

fn status_is(s: &Option<String>, status: &str) -> (r: bool)
    ensures
        r == (opt_text_view(*s) matches Some(t) && t == status@),
{
    match s {
        Some(t) => t.as_str().to_string() == status.to_string(),
        None => false,
    }
}

/// Marks the deposit of a released allocation of `owner_id` as being closed: only where
/// its deposit is still open. Returns whether it was marked, with the record to write.
pub fn mark_allocation_closing(stored: &AllocationRow, owner_id: &String) -> (r: (
    bool,
    Option<AllocationRow>,
))
    ensures
        ({
            let ok = stored.owner_id@ == owner_id@ && stored.released && stored.deposit is Some
                && deposit_status_is(stored@, "open"@);
            &&& r.0 == ok
            &&& ok ==> (r.1 matches Some(n) && n@ == (AllocationRowView {
                deposit_status: Some("closing"@),
                ..stored@
            }))
            &&& !ok ==> r.1 is None
        }),
{
    if stored.owner_id == *owner_id && stored.released && stored.deposit.is_some() && status_is(
        &stored.deposit_status,
        "open",
    ) {
        let mut updated = stored.duplicate();
        updated.deposit_status = Some("closing".to_string());
        (true, Some(updated))
    } else {
        (false, None)
    }
}

/// Marks the deposit of a released allocation of `owner_id` as closed: only where it is
/// being closed.
pub fn mark_allocation_closed(stored: &AllocationRow, owner_id: &String) -> (r: (
    bool,
    Option<AllocationRow>,
))
    ensures
        ({
            let ok = stored.owner_id@ == owner_id@ && stored.released && stored.deposit is Some
                && deposit_status_is(stored@, "closing"@);
            &&& r.0 == ok
            &&& ok ==> (r.1 matches Some(n) && n@ == (AllocationRowView {
                deposit_status: Some("closed"@),
                ..stored@
            }))
            &&& !ok ==> r.1 is None
        }),
{
    if stored.owner_id == *owner_id && stored.released && stored.deposit.is_some() && status_is(
        &stored.deposit_status,
        "closing",
    ) {
        let mut updated = stored.duplicate();
        updated.deposit_status = Some("closed".to_string());
        (true, Some(updated))
    } else {
        (false, None)
    }
}


/// Whether the allocation's amounts balance: what is available is the total minus what
/// is spent.
pub open spec fn balanced(s: AllocationRowView) -> bool {
    s.avail_amount == s.total_amount - s.spent_amount
}

/// A spend that lands between the read of an allocation and the write of its amend is
/// kept: after `amount` is spent from the stored record, an amend built on a copy read
/// before the spend leaves the spent amount at what it was plus `amount`, and makes
/// available the amended total minus that.
pub proof fn law_amend_keeps_concurrent_spend(
    s0: AllocationRowView,
    amount: int,
    stale: AllocationView,
)
    ensures
        amended_row(spent_row(s0, amount), stale).spent_amount == s0.spent_amount + amount,
        amended_row(spent_row(s0, amount), stale).avail_amount == stale.total_amount - (
        s0.spent_amount + amount),
        amended_row(spent_row(s0, amount), stale).total_amount == stale.total_amount,
{
}

/// Spending and amending keep an allocation balanced: a spend moves the same amount from
/// available to spent, and an amend sets available to the new total minus what is spent.
pub proof fn law_balance_kept(s: AllocationRowView, amount: int, a: AllocationView)
    requires
        balanced(s),
    ensures
        balanced(spent_row(s, amount)),
        balanced(amended_row(s, a)),
        spent_row(s, amount).total_amount == s.total_amount,
{
}

/// What a new allocation is stored as.
#[derive(Debug)]
pub struct NewAllocation {
    pub address: Option<String>,
    pub total_amount: i128,
    pub timeout: Option<i64>,
    pub deposit: Option<Deposit>,
    pub make_deposit: bool,
}

/// The message of a store that already holds an allocation under the id and owner.
pub open spec fn duplicate_allocation_text() -> Seq<char> {
    "UNIQUE constraint failed: pay_allocation.owner_id, pay_allocation.id"@
}

/// `new` is `old` with the deposit of the stored allocation under `id` and `owner` moved
/// from status `from` to `to`, where that allocation is released, has a deposit in status
/// `from`; `r` tells whether it moved.
pub open spec fn deposit_marked(
    old: Seq<AllocationRow>,
    new: Seq<AllocationRow>,
    id: Seq<char>,
    owner: Seq<char>,
    from: Seq<char>,
    to: Seq<char>,
    r: DbResult<bool>,
) -> bool {
    match stored_row(old, id, owner) {
        None => r == Ok::<bool, DbError>(false) && new == old,
        Some(s) => if s.released && s.deposit is Some && deposit_status_is(s@, from) {
            let k = crate::ledger::key_index(old, id, owner);
            &&& r == Ok::<bool, DbError>(true)
            &&& new.len() == old.len()
            &&& forall|j: int| 0 <= j < old.len() && j != k ==> #[trigger] new[j] == old[j]
            &&& new[k]@ == (AllocationRowView { deposit_status: Some(to), ..s@ })
        } else {
            r == Ok::<bool, DbError>(false) && new == old
        },
    }
}

/// The record of a new allocation under the id `id`, created at `now`: nothing spent,
/// the whole total available, not released; a deposit starts out open.
pub open spec fn created_row(
    allocation: NewAllocation,
    id: Seq<char>,
    owner_id: Seq<char>,
    payment_platform: Seq<char>,
    address: Seq<char>,
    now: i64,
) -> AllocationRowView {
    AllocationRowView {
        id,
        owner_id,
        payment_platform,
        address,
        total_amount: allocation.total_amount as int,
        spent_amount: 0,
        avail_amount: allocation.total_amount as int,
        created_ts: now as int,
        updated_ts: now as int,
        timeout: allocation.timeout,
        make_deposit: allocation.make_deposit,
        deposit: opt_deposit_view(allocation.deposit),
        deposit_status: if allocation.deposit is Some {
            Some("open"@)
        } else {
            None
        },
        released: false,
    }
}

/// The record of a new allocation under the id `id`, created at `now`: nothing spent,
/// the whole total available, not released; a deposit starts out open.
pub fn create(
    allocation: &NewAllocation,
    id: String,
    owner_id: &String,
    payment_platform: &String,
    address: &String,
    now: i64,
) -> (r: AllocationRow)
    ensures
        r@ == created_row(*allocation, id@, owner_id@, payment_platform@, address@, now),
{
    AllocationRow {
        id,
        owner_id: owner_id.clone(),
        payment_platform: payment_platform.clone(),
        address: address.clone(),
        total_amount: allocation.total_amount,
        spent_amount: 0,
        avail_amount: allocation.total_amount,
        created_ts: now,
        updated_ts: now,
        timeout: allocation.timeout,
        make_deposit: allocation.make_deposit,
        deposit: clone_deposit(&allocation.deposit),
        deposit_status: if allocation.deposit.is_some() {
            Some("open".to_string())
        } else {
            None
        },
        released: false,
    }
}

/// Which allocations a listing asks for; `None` leaves a field unconstrained.
#[derive(Debug)]
pub struct AllocationFilter {
    pub owner_id: Option<String>,
    pub after_timestamp: Option<i64>,
    pub max_items: Option<u32>,
    pub payment_platform: Option<String>,
    pub address: Option<String>,
    pub released: Option<bool>,
}

pub open spec fn text_filter_ok(f: Option<String>, v: Seq<char>) -> bool {
    match f {
        Some(t) => t@ == v,
        None => true,
    }
}

/// Whether a stored allocation passes the filter: released as asked, of the owner, with
/// a timeout after the timestamp, on the platform, at the address.
pub open spec fn allocation_selected(r: AllocationRowView, f: AllocationFilter) -> bool {
    &&& (f.released matches Some(b) ==> r.released == b)
    &&& text_filter_ok(f.owner_id, r.owner_id)
    &&& (f.after_timestamp matches Some(t) ==> (r.timeout matches Some(to) && to > t))
    &&& text_filter_ok(f.payment_platform, r.payment_platform)
    &&& text_filter_ok(f.address, r.address)
}

pub open spec fn limited<A>(s: Seq<A>, max_items: Option<u32>) -> Seq<A> {
    match max_items {
        Some(m) => if m < s.len() {
            s.take(m as int)
        } else {
            s
        },
        None => s,
    }
}

fn text_filter_ok_exec(f: &Option<String>, v: &String) -> (r: bool)
    ensures
        r == text_filter_ok(*f, v@),
{
    match f {
        Some(t) => *t == *v,
        None => true,
    }
}

fn allocation_selected_exec(r: &AllocationRow, f: &AllocationFilter) -> (b: bool)
    ensures
        b == allocation_selected(r@, *f),
{
    let released_ok = match f.released {
        Some(b) => r.released == b,
        None => true,
    };
    let after_ok = match f.after_timestamp {
        Some(t) => match r.timeout {
            Some(to) => to > t,
            None => false,
        },
        None => true,
    };
    released_ok && text_filter_ok_exec(&f.owner_id, &r.owner_id) && after_ok
        && text_filter_ok_exec(&f.payment_platform, &r.payment_platform) && text_filter_ok_exec(
        &f.address,
        &r.address,
    )
}

} // verus!

verus! {

impl crate::ledger::Keyed for AllocationRow {
    open spec fn key_id(&self) -> Seq<char> {
        self.id@
    }

    open spec fn key_owner(&self) -> Seq<char> {
        self.owner_id@
    }

    fn id_text(&self) -> (r: &String) {
        &self.id
    }

    fn owner_text(&self) -> (r: &String) {
        &self.owner_id
    }
}

/// The allocations a node keeps, at most one per id and owner, and what was spent from
/// them.
#[derive(Debug)]
pub struct AllocationDao {
    pub allocations: Vec<AllocationRow>,
    pub expenditures: Vec<ExpenditureRow>,
}

/// What releasing allocation `allocation_id` of `owner_id` does to the store `o`, giving
/// `n` and the answer `r`.
pub open spec fn release_outcome(
    o: AllocationDao,
    n: AllocationDao,
    r: DbResult<AllocationReleaseStatus>,
    allocation_id: Seq<char>,
    owner_id: Seq<char>,
) -> bool {
    match stored_row(o.allocations@, allocation_id, owner_id) {
        None => (r matches Ok(AllocationReleaseStatus::NotFound)) && n.allocations
            == o.allocations,
        Some(s) => if s.released {
            (r matches Ok(AllocationReleaseStatus::Gone)) && n.allocations
                == o.allocations
        } else if crate::dao::batch_order::count_where(
            o.allocations@,
            |x: AllocationRow| x.id@ == allocation_id && !x.released,
        ) != 1 {
            (r matches Err(DbError::Query(m)) && m@ == "Update error occurred when releasing allocation "@
                + allocation_id) && n.allocations == o.allocations
        } else {
            let k = crate::ledger::key_index(o.allocations@, allocation_id, owner_id);
            &&& r matches Ok(AllocationReleaseStatus::Released { deposit, platform })
                && opt_deposit_view(deposit) == s@.deposit && platform@ == s.payment_platform@
            &&& n.allocations@.len() == o.allocations@.len()
            &&& forall|j: int|
                0 <= j < o.allocations@.len() && j != k ==> #[trigger] n.allocations@[j]
                    == o.allocations@[j]
            &&& n.allocations@[k]@ == (AllocationRowView { released: true, ..s@ })
        },
    }
}

/// A released allocation stays released: after a release that answered `Released`,
/// releasing the same allocation again answers `Gone` and changes nothing.
pub proof fn law_second_release_is_gone(
    s0: AllocationDao,
    s1: AllocationDao,
    s2: AllocationDao,
    r1: DbResult<AllocationReleaseStatus>,
    r2: DbResult<AllocationReleaseStatus>,
    allocation_id: Seq<char>,
    owner_id: Seq<char>,
)
    requires
        s0.wf(),
        s1.wf(),
        release_outcome(s0, s1, r1, allocation_id, owner_id),
        r1 matches Ok(AllocationReleaseStatus::Released { .. }),
        release_outcome(s1, s2, r2, allocation_id, owner_id),
    ensures
        r2 matches Ok(AllocationReleaseStatus::Gone),
        s2.allocations == s1.allocations,
{
    let k = crate::ledger::key_index(s0.allocations@, allocation_id, owner_id);
    assert(crate::ledger::key_is(s1.allocations@[k], allocation_id, owner_id));
    crate::ledger::lemma_key_index(s1.allocations@, allocation_id, owner_id, k);
}

/// The stored allocation under `id` and `owner`, where there is one.
pub open spec fn stored_row(rows: Seq<AllocationRow>, id: Seq<char>, owner: Seq<char>) -> Option<AllocationRow> {
    if crate::ledger::has_key(rows, id, owner) {
        Some(rows[crate::ledger::key_index(rows, id, owner)])
    } else {
        None
    }
}

/// The sum of the available amounts of the allocations on `platform` at `address` not
/// released and timing out after `after`.
pub open spec fn remaining_total(rows: Seq<AllocationRow>, platform: Seq<char>, address: Seq<char>, after: i64) -> int
    decreases rows.len(),
{
    if rows.len() == 0 {
        0
    } else {
        let r = rows.last();
        remaining_total(rows.drop_last(), platform, address, after) + if remaining_counted(r, platform, address, after) {
            r.avail_amount as int
        } else {
            0
        }
    }
}

pub open spec fn remaining_counted(r: AllocationRow, platform: Seq<char>, address: Seq<char>, after: i64) -> bool {
    &&& r.payment_platform@ == platform
    &&& r.address@ == address
    &&& !r.released
    &&& (r.timeout matches Some(t) && t > after)
}

/// The released allocations of `owner` on `platform` whose deposit is still open.
pub open spec fn to_close(r: AllocationRow, owner: Seq<char>, platform: Seq<char>) -> bool {
    &&& r.owner_id@ == owner
    &&& r.released
    &&& r.deposit is Some
    &&& r.payment_platform@ == platform
    &&& deposit_status_is(r@, "open"@)
}

pub open spec fn updated_times(s: Seq<AllocationRow>) -> Seq<i64> {
    s.map_values(|r: AllocationRow| r.updated_ts)
}

/// `r` lists, as the API shows them, the allocations that pass the filter ordered by their
/// last update (`perm` being that order, equal times in stored order), cut to the limit.
pub open spec fn filtered_listing(
    rows: Seq<AllocationRow>,
    f: AllocationFilter,
    perm: Seq<usize>,
    r: Seq<Allocation>,
) -> bool {
    let m = crate::dao::invoice::select_by(rows, |x: AllocationRow| allocation_selected(x@, f));
    &&& crate::order::index_perm(perm, m.len())
    &&& crate::order::sorted_by(updated_times(m), perm, false)
    &&& r.map_values(|a: Allocation| a@) == limited(crate::order::permuted(m, perm), f.max_items).map_values(
        |x: AllocationRow| row_to_allocation(x@),
    )
}

impl AllocationDao {
    pub open spec fn wf(&self) -> bool {
        crate::ledger::keys_unique(self.allocations@)
    }

    pub(crate) fn locate(&self, id: &str, owner: &str) -> (r: Option<usize>)
        requires
            self.wf(),
        ensures
            r matches Some(i) ==> i < self.allocations@.len() && crate::ledger::has_key(self.allocations@, id@, owner@)
                && crate::ledger::key_index(self.allocations@, id@, owner@) == i,
            r is None ==> !crate::ledger::has_key(self.allocations@, id@, owner@),
    {
        let r = crate::ledger::find_key(&self.allocations, id, owner);
        match r {
            Some(i) => {
                proof {
                    crate::ledger::lemma_key_index(self.allocations@, id@, owner@, i as int);
                }
            },
            None => {},
        }
        r
    }

    /// Reads allocation `allocation_id` of `owner_id` (`get` on its stored record).
    pub fn get(&self, allocation_id: &String, owner_id: &String) -> (r: AllocationStatus)
        requires
            self.wf(),
        ensures
            match stored_row(self.allocations@, allocation_id@, owner_id@) {
                Some(s) => if !s.released {
                    r matches AllocationStatus::Active(a) && a@ == row_to_allocation(s@)
                } else {
                    r is NotFound
                },
                None => r is NotFound,
            },
    {
        match self.locate(allocation_id.as_str(), owner_id.as_str()) {
            Some(i) => get(Some(&self.allocations[i]), owner_id),
            None => get(None, owner_id),
        }
    }

    /// Spends from the allocation that `args` names (`spend_from_allocation`), refused
    /// where there is no such allocation; a refused spend changes nothing.
    pub fn spend_from_allocation_transaction(&mut self, args: &SpendFromAllocationArgs) -> (r: DbResult<()>)
        requires
            old(self).wf(),
            -amount_limit() <= args.amount <= amount_limit(),
            forall|k: int|
                0 <= k < old(self).allocations@.len() ==> -amount_limit() <= #[trigger] old(
                    self,
                ).allocations@[k].spent_amount <= amount_limit() && -amount_limit()
                    <= old(self).allocations@[k].avail_amount <= amount_limit(),
            forall|i: int|
                0 <= i < old(self).expenditures@.len() ==> expenditure_bounded(#[trigger] old(self).expenditures@[i]),
        ensures
            final(self).wf(),
            match stored_row(old(self).allocations@, args.allocation_id@, args.owner_id@) {
                None => (r matches Err(e) && crate::ledger::is_not_found(e)) && final(self).allocations
                    == old(self).allocations && final(self).expenditures == old(self).expenditures,
                Some(s) => if args.amount > s.avail_amount {
                    (r matches Err(DbError::Query(m)) && m@ == not_enough_funds_text(
                        args.amount as int,
                        s.avail_amount as int,
                    )) && final(self).allocations == old(self).allocations && final(self).expenditures@
                        == old(self).expenditures@
                } else {
                    &&& r is Ok
                    &&& final(self).allocations@.len() == old(self).allocations@.len()
                    &&& forall|k: int|
                        0 <= k < old(self).allocations@.len() && k != crate::ledger::key_index(
                            old(self).allocations@,
                            args.allocation_id@,
                            args.owner_id@,
                        ) ==> #[trigger] final(self).allocations@[k] == old(self).allocations@[k]
                    &&& final(self).allocations@[crate::ledger::key_index(
                        old(self).allocations@,
                        args.allocation_id@,
                        args.owner_id@,
                    )]@ == spent_row(s@, args.amount as int)
                    &&& final(self).expenditures@ == spend_expenditures(old(self).expenditures@, *args)
                },
            },
    {
        let i = match self.locate(args.allocation_id.as_str(), args.owner_id.as_str()) {
            Some(i) => i,
            None => {
                return Err(crate::ledger::not_found_error());
            },
        };
        let ghost e0 = self.expenditures@;
        let res = spend_from_allocation(&self.allocations[i], &mut self.expenditures, args);
        match res {
            Ok(row) => {
                proof {
                    crate::ledger::lemma_update_same_key(self.allocations@, i as int, row);
                }
                let ghost before = self.allocations@;
                self.allocations.set(i, row);
                proof {
                    assert(self.allocations@ == before.update(i as int, row));
                    assert(stored_row(old(self).allocations@, args.allocation_id@, args.owner_id@) == Some(before[i as int]));
                }
                Ok(())
            },
            Err(e) => {
                proof {
                    assert(self.expenditures@ == e0);
                }
                Err(e)
            },
        }
    }

    /// The expenditures of `owner_id` on allocation `allocation_id`, in stored order.
    pub fn get_expenditures(&self, owner_id: &str, allocation_id: &str) -> (r: Vec<ExpenditureRow>)
        ensures
            r@ == crate::dao::invoice::select_by(
                self.expenditures@,
                |e: ExpenditureRow| e.owner_id@ == owner_id@ && e.allocation_id@ == allocation_id@,
            ),
    {
        let ghost p = |e: ExpenditureRow| e.owner_id@ == owner_id@ && e.allocation_id@ == allocation_id@;
        let mut r: Vec<ExpenditureRow> = Vec::new();
        let mut k: usize = 0;
        while k < self.expenditures.len()
            invariant
                0 <= k <= self.expenditures.len(),
                p == (|e: ExpenditureRow| e.owner_id@ == owner_id@ && e.allocation_id@ == allocation_id@),
                r@ == crate::dao::invoice::select_by(self.expenditures@.take(k as int), p),
            decreases self.expenditures.len() - k,
        {
            proof {
                assert(self.expenditures@.take(k + 1).drop_last() =~= self.expenditures@.take(k as int));
                assert(self.expenditures@.take(k + 1).last() == self.expenditures@[k as int]);
            }
            let e = &self.expenditures[k];
            if crate::text::text_eq(e.owner_id.as_str(), owner_id) && crate::text::text_eq(
                e.allocation_id.as_str(),
                allocation_id,
            ) {
                r.push(e.duplicate());
            }
            k = k + 1;
        }
        proof {
            assert(self.expenditures@.take(k as int) =~= self.expenditures@);
        }
        r
    }

    /// Applies an amend to allocation `allocation.allocation_id` of `owner_id` (`replace` on
    /// its stored record). `Ok(true)` where it was written, `Ok(false)` where the allocation
    /// is gone or released.
    pub fn replace(&mut self, allocation: &Allocation, owner_id: &String) -> (r: DbResult<bool>)
        requires
            old(self).wf(),
            -amount_limit() <= allocation.total_amount <= amount_limit(),
            forall|k: int|
                0 <= k < old(self).allocations@.len() ==> -amount_limit() <= #[trigger] old(
                    self,
                ).allocations@[k].spent_amount <= amount_limit(),
        ensures
            final(self).wf(),
            final(self).expenditures == old(self).expenditures,
            match stored_row(old(self).allocations@, allocation.allocation_id@, owner_id@) {
                None => r == Ok::<bool, DbError>(false) && final(self).allocations == old(self).allocations,
                Some(s) => if s.released {
                    r == Ok::<bool, DbError>(false) && final(self).allocations == old(self).allocations
                } else if allocation.total_amount < s.spent_amount {
                    (r matches Err(DbError::Query(m)) && m@ == amend_below_spent_text(
                        allocation.total_amount as int,
                        s.spent_amount as int,
                    )) && final(self).allocations == old(self).allocations
                } else {
                    let k = crate::ledger::key_index(old(self).allocations@, allocation.allocation_id@, owner_id@);
                    &&& r == Ok::<bool, DbError>(true)
                    &&& final(self).allocations@.len() == old(self).allocations@.len()
                    &&& forall|j: int|
                        0 <= j < old(self).allocations@.len() && j != k ==> #[trigger] final(self).allocations@[j]
                            == old(self).allocations@[j]
                    &&& final(self).allocations@[k]@ == amended_row(s@, allocation@)
                },
            },
    {
        let i = match self.locate(allocation.allocation_id.as_str(), owner_id.as_str()) {
            Some(i) => i,
            None => {
                return Ok(false);
            },
        };
        match replace(Some(&self.allocations[i]), allocation) {
            Ok(Some(row)) => {
                proof {
                    crate::ledger::lemma_update_same_key(self.allocations@, i as int, row);
                }
                self.allocations.set(i, row);
                Ok(true)
            },
            Ok(None) => Ok(false),
            Err(e) => Err(e),
        }
    }

    /// Stores allocation `allocation` of `owner_id` under the id `id`, created at `now`.
    /// An allocation of the owner under that id already stored refuses the new one.
    pub fn create_with(
        &mut self,
        allocation: &NewAllocation,
        id: String,
        owner_id: &String,
        payment_platform: &String,
        address: &String,
        now: i64,
    ) -> (r: DbResult<String>)
        requires
            old(self).wf(),
        ensures
            final(self).wf(),
            final(self).expenditures == old(self).expenditures,
            crate::ledger::has_key(old(self).allocations@, id@, owner_id@) ==> (r matches Err(
                DbError::Query(m),
            ) && m@ == duplicate_allocation_text()) && final(self).allocations == old(
                self,
            ).allocations,
            !crate::ledger::has_key(old(self).allocations@, id@, owner_id@) ==> {
                &&& r == Ok::<String, DbError>(id)
                &&& final(self).allocations@.len() == old(self).allocations@.len() + 1
                &&& final(self).allocations@.take(old(self).allocations@.len() as int)
                    == old(self).allocations@
                &&& final(self).allocations@.last()@ == created_row(
                    *allocation,
                    id@,
                    owner_id@,
                    payment_platform@,
                    address@,
                    now,
                )
            },
    {
        if self.locate(id.as_str(), owner_id.as_str()).is_some() {
            return Err(DbError::Query("UNIQUE constraint failed: pay_allocation.owner_id, pay_allocation.id".to_string()));
        }
        let row = create(allocation, id.clone(), owner_id, payment_platform, address, now);
        proof {
            crate::ledger::lemma_push_new_key(self.allocations@, row);
        }
        let ghost before = self.allocations@;
        self.allocations.push(row);
        proof {
            assert(self.allocations@.take(before.len() as int) =~= before);
        }
        Ok(id)
    }

    /// Stores a new allocation of `owner_id` under a fresh random id, created now; returns
    /// the id. Whatever id and time came back, the outcome is that of `create_with`: it
    /// fails only where the owner already has an allocation under the id that came back.
    pub fn create(
        &mut self,
        allocation: &NewAllocation,
        owner_id: &String,
        payment_platform: &String,
        address: &String,
    ) -> (r: DbResult<String>)
        requires
            old(self).wf(),
        ensures
            final(self).wf(),
            final(self).expenditures == old(self).expenditures,
            r is Ok ==> final(self).allocations@.len() == old(self).allocations@.len() + 1
                && final(self).allocations@.take(old(self).allocations@.len() as int) == old(
                self,
            ).allocations@ && r->Ok_0@ == final(self).allocations@.last().id@ && exists|now: i64|
                final(self).allocations@.last()@ == #[trigger] created_row(
                    *allocation,
                    r->Ok_0@,
                    owner_id@,
                    payment_platform@,
                    address@,
                    now,
                ),
            r is Ok ==> crate::clock::uuid_v4_text(r->Ok_0@),
            r is Err ==> final(self).allocations == old(self).allocations,
            r is Err ==> (r matches Err(DbError::Query(m)) && m@ == duplicate_allocation_text())
                && exists|k: int|
                0 <= k < old(self).allocations@.len() && (#[trigger] old(self).allocations@[k]).owner_id@
                    == owner_id@,
    {
        let id = crate::clock::new_uuid();
        let now = crate::clock::now_millis();
        let ghost id_view = id@;
        let r = self.create_with(allocation, id, owner_id, payment_platform, address, now);
        proof {
            if r is Err {
                let k = choose|k: int|
                    0 <= k < old(self).allocations@.len() && #[trigger] crate::ledger::key_is(
                        old(self).allocations@[k],
                        id_view,
                        owner_id@,
                    );
                assert(old(self).allocations@[k].owner_id@ == owner_id@);
            }
            if r is Ok {
                let c = created_row(*allocation, id_view, owner_id@, payment_platform@, address@, now);
                assert(self.allocations@.last()@ == c);
                assert(self.allocations@.last()@.id == self.allocations@.last().id@);
            }
        }
        r
    }

    /// Marks the deposit of released allocation `allocation_id` of `owner_id` as being
    /// closed, where it is still open; returns whether it did.
    pub fn mark_allocation_closing(&mut self, allocation_id: &String, owner_id: &String) -> (r:
        DbResult<bool>)
        requires
            old(self).wf(),
        ensures
            final(self).wf(),
            final(self).expenditures == old(self).expenditures,
            deposit_marked(
                old(self).allocations@,
                final(self).allocations@,
                allocation_id@,
                owner_id@,
                "open"@,
                "closing"@,
                r,
            ),
    {
        let i = match self.locate(allocation_id.as_str(), owner_id.as_str()) {
            Some(i) => i,
            None => {
                return Ok(false);
            },
        };
        match mark_allocation_closing(&self.allocations[i], owner_id) {
            (true, Some(row)) => {
                proof {
                    crate::ledger::lemma_update_same_key(self.allocations@, i as int, row);
                }
                self.allocations.set(i, row);
                Ok(true)
            },
            _ => Ok(false),
        }
    }

    /// Marks the deposit of released allocation `allocation_id` of `owner_id` as closed,
    /// where it is being closed; returns whether it did.
    pub fn mark_allocation_closed(&mut self, allocation_id: &String, owner_id: &String) -> (r:
        DbResult<bool>)
        requires
            old(self).wf(),
        ensures
            final(self).wf(),
            final(self).expenditures == old(self).expenditures,
            deposit_marked(
                old(self).allocations@,
                final(self).allocations@,
                allocation_id@,
                owner_id@,
                "closing"@,
                "closed"@,
                r,
            ),
    {
        let i = match self.locate(allocation_id.as_str(), owner_id.as_str()) {
            Some(i) => i,
            None => {
                return Ok(false);
            },
        };
        match mark_allocation_closed(&self.allocations[i], owner_id) {
            (true, Some(row)) => {
                proof {
                    crate::ledger::lemma_update_same_key(self.allocations@, i as int, row);
                }
                self.allocations.set(i, row);
                Ok(true)
            },
            _ => Ok(false),
        }
    }

    /// Releases allocation `allocation_id` of `owner_id`. The release marks every
    /// unreleased allocation under that id; where that is not exactly the owner's one, it
    /// is refused and nothing changes.
    pub fn release(&mut self, allocation_id: &String, owner_id: &String) -> (r: DbResult<AllocationReleaseStatus>)
        requires
            old(self).wf(),
        ensures
            final(self).wf(),
            final(self).expenditures == old(self).expenditures,
            release_outcome(*old(self), *final(self), r, allocation_id@, owner_id@),
    {
        let i = match self.locate(allocation_id.as_str(), owner_id.as_str()) {
            Some(i) => i,
            None => {
                return Ok(AllocationReleaseStatus::NotFound);
            },
        };
        if self.allocations[i].released {
            return Ok(AllocationReleaseStatus::Gone);
        }
        let ghost p = |x: AllocationRow| x.id@ == allocation_id@ && !x.released;
        let mut count: usize = 0;
        let mut k: usize = 0;
        while k < self.allocations.len()
            invariant
                0 <= k <= self.allocations.len(),
                p == (|x: AllocationRow| x.id@ == allocation_id@ && !x.released),
                count == crate::dao::batch_order::count_where(self.allocations@.take(k as int), p),
                count <= k,
            decreases self.allocations.len() - k,
        {
            proof {
                assert(self.allocations@.take(k + 1).drop_last() =~= self.allocations@.take(k as int));
                assert(self.allocations@.take(k + 1).last() == self.allocations@[k as int]);
            }
            if *allocation_id == self.allocations[k].id && !self.allocations[k].released {
                count = count + 1;
            }
            k = k + 1;
        }
        proof {
            assert(self.allocations@.take(k as int) =~= self.allocations@);
        }
        if count != 1 {
            return Err(DbError::Query(crate::text::concat("Update error occurred when releasing allocation ", allocation_id.as_str())));
        }
        let (status, row) = release(Some(&self.allocations[i]), owner_id);
        match row {
            Some(row) => {
                proof {
                    crate::ledger::lemma_update_same_key(self.allocations@, i as int, row);
                }
                self.allocations.set(i, row);
            },
            None => {},
        }
        Ok(status)
    }

    /// The released allocations of `owner_id` on `platform` whose deposit is still open, as
    /// the API shows them, in stored order.
    pub fn get_allocations_to_close(&self, owner_id: &str, platform: &str) -> (r: Vec<Allocation>)
        ensures
            r@.map_values(|a: Allocation| a@) == crate::dao::invoice::select_by(
                self.allocations@,
                |x: AllocationRow| to_close(x, owner_id@, platform@),
            ).map_values(|x: AllocationRow| row_to_allocation(x@)),
    {
        let ghost p = |x: AllocationRow| to_close(x, owner_id@, platform@);
        let ghost f = |x: AllocationRow| row_to_allocation(x@);
        let ghost g = |a: Allocation| a@;
        let mut r: Vec<Allocation> = Vec::new();
        let mut k: usize = 0;
        while k < self.allocations.len()
            invariant
                0 <= k <= self.allocations.len(),
                p == (|x: AllocationRow| to_close(x, owner_id@, platform@)),
                f == (|x: AllocationRow| row_to_allocation(x@)),
                g == (|a: Allocation| a@),
                r@.map_values(g) == crate::dao::invoice::select_by(self.allocations@.take(k as int), p).map_values(f),
            decreases self.allocations.len() - k,
        {
            let ghost s = self.allocations@;
            proof {
                assert(s.take(k + 1).drop_last() =~= s.take(k as int));
                assert(s.take(k + 1).last() == s[k as int]);
            }
            let a = &self.allocations[k];
            if crate::text::text_eq(a.owner_id.as_str(), owner_id) && a.released && a.deposit.is_some()
                && crate::text::text_eq(a.payment_platform.as_str(), platform) && status_is(&a.deposit_status, "open") {
                let ghost before = r@;
                let x = a.to_allocation();
                r.push(x);
                proof {
                    let sel0 = crate::dao::invoice::select_by(s.take(k as int), p);
                    assert(crate::dao::invoice::select_by(s.take(k + 1), p) == sel0.push(s[k as int]));
                    assert(r@.map_values(g) =~= before.map_values(g).push(x@));
                    assert(sel0.push(s[k as int]).map_values(f) =~= sel0.map_values(f).push(f(s[k as int])));
                }
            }
            k = k + 1;
        }
        proof {
            assert(self.allocations@.take(k as int) =~= self.allocations@);
        }
        r
    }

    /// The unreleased allocations of `owner_id` named in `allocation_ids`, as the API shows
    /// them, in stored order.
    pub fn get_many(&self, allocation_ids: &Vec<String>, owner_id: &str) -> (r: Vec<Allocation>)
        ensures
            r@.map_values(|a: Allocation| a@) == crate::dao::invoice::select_by(
                self.allocations@,
                |x: AllocationRow|
                    x.owner_id@ == owner_id@ && !x.released && crate::dao::debit_note::texts_view(
                        allocation_ids@,
                    ).contains(x.id@),
            ).map_values(|x: AllocationRow| row_to_allocation(x@)),
    {
        let ghost p = |x: AllocationRow|
            x.owner_id@ == owner_id@ && !x.released && crate::dao::debit_note::texts_view(allocation_ids@).contains(x.id@);
        let ghost f = |x: AllocationRow| row_to_allocation(x@);
        let ghost g = |a: Allocation| a@;
        let mut r: Vec<Allocation> = Vec::new();
        let mut k: usize = 0;
        while k < self.allocations.len()
            invariant
                0 <= k <= self.allocations.len(),
                p == (|x: AllocationRow|
                    x.owner_id@ == owner_id@ && !x.released && crate::dao::debit_note::texts_view(allocation_ids@).contains(x.id@)),
                f == (|x: AllocationRow| row_to_allocation(x@)),
                g == (|a: Allocation| a@),
                r@.map_values(g) == crate::dao::invoice::select_by(self.allocations@.take(k as int), p).map_values(f),
            decreases self.allocations.len() - k,
        {
            let ghost s = self.allocations@;
            proof {
                assert(s.take(k + 1).drop_last() =~= s.take(k as int));
                assert(s.take(k + 1).last() == s[k as int]);
            }
            let a = &self.allocations[k];
            if crate::text::text_eq(a.owner_id.as_str(), owner_id) && !a.released
                && crate::dao::debit_note::contains_text(allocation_ids, a.id.as_str()) {
                let ghost before = r@;
                let x = a.to_allocation();
                r.push(x);
                proof {
                    let sel0 = crate::dao::invoice::select_by(s.take(k as int), p);
                    assert(crate::dao::invoice::select_by(s.take(k + 1), p) == sel0.push(s[k as int]));
                    assert(r@.map_values(g) =~= before.map_values(g).push(x@));
                    assert(sel0.push(s[k as int]).map_values(f) =~= sel0.map_values(f).push(f(s[k as int])));
                }
            }
            k = k + 1;
        }
        proof {
            assert(self.allocations@.take(k as int) =~= self.allocations@);
        }
        r
    }

    /// The allocations that pass the filter, as the API shows them, ordered by their last
    /// update, at most `max_items` of them.
    pub fn get_filtered(&self, filter: &AllocationFilter) -> (r: Vec<Allocation>)
        ensures
            exists|perm: Seq<usize>|
                filtered_listing(self.allocations@, *filter, perm, r@),
    {
        let ghost p = |x: AllocationRow| allocation_selected(x@, *filter);
        let mut m: Vec<usize> = Vec::new();
        let ghost ms: Seq<AllocationRow> = Seq::empty();
        let mut k: usize = 0;
        while k < self.allocations.len()
            invariant
                0 <= k <= self.allocations.len(),
                p == (|x: AllocationRow| allocation_selected(x@, *filter)),
                ms == crate::dao::invoice::select_by(self.allocations@.take(k as int), p),
                m@.len() == ms.len(),
                forall|j: int| 0 <= j < m@.len() ==> #[trigger] m@[j] < self.allocations@.len()
                    && self.allocations@[m@[j] as int] == ms[j],
            decreases self.allocations.len() - k,
        {
            proof {
                assert(self.allocations@.take(k + 1).drop_last() =~= self.allocations@.take(k as int));
                assert(self.allocations@.take(k + 1).last() == self.allocations@[k as int]);
            }
            if allocation_selected_exec(&self.allocations[k], filter) {
                m.push(k);
                proof {
                    ms = ms.push(self.allocations@[k as int]);
                }
            }
            k = k + 1;
        }
        proof {
            assert(self.allocations@.take(k as int) =~= self.allocations@);
        }
        let mut keys: Vec<i64> = Vec::new();
        let mut i: usize = 0;
        while i < m.len()
            invariant
                0 <= i <= m.len(),
                m@.len() == ms.len(),
                forall|j: int| 0 <= j < m@.len() ==> #[trigger] m@[j] < self.allocations@.len()
                    && self.allocations@[m@[j] as int] == ms[j],
                keys@ == updated_times(ms).take(i as int),
            decreases m.len() - i,
        {
            keys.push(self.allocations[m[i]].updated_ts);
            proof {
                assert(updated_times(ms).take(i + 1) =~= updated_times(ms).take(i as int).push(ms[i as int].updated_ts));
            }
            i = i + 1;
        }
        proof {
            assert(updated_times(ms).take(i as int) =~= updated_times(ms));
        }
        let perm = crate::order::order_by_key(&keys, false);
        let n: usize = match filter.max_items {
            Some(max) => if (max as usize) < perm.len() {
                max as usize
            } else {
                perm.len()
            },
            None => perm.len(),
        };
        let ghost ordered = crate::order::permuted(ms, perm@);
        proof {
            assert(limited(ordered, filter.max_items) =~= ordered.take(n as int));
        }
        let ghost g = |a: Allocation| a@;
        let ghost f = |x: AllocationRow| row_to_allocation(x@);
        let mut r: Vec<Allocation> = Vec::new();
        let mut j: usize = 0;
        while j < n
            invariant
                0 <= j <= n,
                n <= perm@.len(),
                crate::order::index_perm(perm@, ms.len()),
                m@.len() == ms.len(),
                forall|t: int| 0 <= t < m@.len() ==> #[trigger] m@[t] < self.allocations@.len()
                    && self.allocations@[m@[t] as int] == ms[t],
                ordered == crate::order::permuted(ms, perm@),
                g == (|a: Allocation| a@),
                f == (|x: AllocationRow| row_to_allocation(x@)),
                r@.map_values(g) == ordered.take(j as int).map_values(f),
            decreases n - j,
        {
            let pos = perm[j];
            let x = self.allocations[m[pos]].to_allocation();
            let ghost before = r@;
            r.push(x);
            proof {
                assert(ordered[j as int] == ms[pos as int]);
                assert(r@.map_values(g) =~= before.map_values(g).push(x@));
                assert(ordered.take(j + 1).map_values(f) =~= ordered.take(j as int).map_values(f).push(f(ordered[j as int])));
            }
            j = j + 1;
        }
        proof {
            assert(filtered_listing(self.allocations@, *filter, perm@, r@));
        }
        r
    }

    /// The allocations of `owner_id`, timing out after `after_timestamp` and released as
    /// asked, where these are given.
    pub fn get_for_owner(&self, owner_id: String, after_timestamp: Option<i64>, max_items: Option<u32>, released: Option<bool>) -> (r: Vec<Allocation>)
        ensures
            exists|perm: Seq<usize>|
                filtered_listing(
                    self.allocations@,
                    AllocationFilter {
                        owner_id: Some(owner_id),
                        after_timestamp: after_timestamp,
                        max_items: max_items,
                        payment_platform: None,
                        address: None,
                        released: released,
                    },
                    perm,
                    r@,
                ),
    {
        self.get_filtered(&AllocationFilter {
            owner_id: Some(owner_id),
            after_timestamp,
            max_items,
            payment_platform: None,
            address: None,
            released,
        })
    }

    /// The allocations on `payment_platform` at `address`, released as asked, where given.
    pub fn get_for_address(&self, payment_platform: String, address: String, released: Option<bool>) -> (r: Vec<Allocation>)
        ensures
            exists|perm: Seq<usize>|
                filtered_listing(
                    self.allocations@,
                    AllocationFilter {
                        owner_id: None,
                        after_timestamp: None,
                        max_items: None,
                        payment_platform: Some(payment_platform),
                        address: Some(address),
                        released: released,
                    },
                    perm,
                    r@,
                ),
    {
        self.get_filtered(&AllocationFilter {
            owner_id: None,
            after_timestamp: None,
            max_items: None,
            payment_platform: Some(payment_platform),
            address: Some(address),
            released,
        })
    }

    /// What is left to spend on `platform` from `address`: the available amounts of the
    /// allocations there not released and timing out after `after_timestamp`.
    pub fn total_remaining_allocation(&self, platform: &str, address: &str, after_timestamp: i64) -> (r: i128)
        requires
            forall|k: int|
                0 <= k <= self.allocations@.len() ==> i128::MIN <= #[trigger] remaining_total(
                    self.allocations@.take(k),
                    platform@,
                    address@,
                    after_timestamp,
                ) <= i128::MAX,
        ensures
            r == remaining_total(self.allocations@, platform@, address@, after_timestamp),
    {
        let mut total: i128 = 0;
        let mut k: usize = 0;
        proof {
            assert(self.allocations@.take(0) =~= Seq::<AllocationRow>::empty());
        }
        while k < self.allocations.len()
            invariant
                0 <= k <= self.allocations.len(),
                total == remaining_total(self.allocations@.take(k as int), platform@, address@, after_timestamp),
                forall|j: int|
                    0 <= j <= self.allocations@.len() ==> i128::MIN <= #[trigger] remaining_total(
                        self.allocations@.take(j),
                        platform@,
                        address@,
                        after_timestamp,
                    ) <= i128::MAX,
            decreases self.allocations.len() - k,
        {
            proof {
                assert(self.allocations@.take(k + 1).drop_last() =~= self.allocations@.take(k as int));
                assert(self.allocations@.take(k + 1).last() == self.allocations@[k as int]);
                assert(i128::MIN <= remaining_total(self.allocations@.take(k + 1), platform@, address@, after_timestamp) <= i128::MAX);
            }
            let a = &self.allocations[k];
            let counted = crate::text::text_eq(a.payment_platform.as_str(), platform) && crate::text::text_eq(
                a.address.as_str(),
                address,
            ) && !a.released && match a.timeout {
                Some(t) => t > after_timestamp,
                None => false,
            };
            if counted {
                total = total + a.avail_amount;
            }
            k = k + 1;
        }
        proof {
            assert(self.allocations@.take(k as int) =~= self.allocations@);
        }
        total
    }
}

} // verus!
