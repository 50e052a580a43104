//! The chain of an activity's debit notes, from the latest back to the first.
use vstd::prelude::*;
use crate::cli::{decimal, decimal_text};
use crate::status::DocumentStatus;
use crate::text::{concat, concat3, text_eq};

verus! {

/// A debit note as the activity endpoints show it.
#[derive(Debug)]
pub struct DebitNoteForApi {
    pub debit_note_id: String,
    pub previous_debit_note_id: Option<String>,
    pub activity_id: String,
    pub agreement_id: String,
    pub status: DocumentStatus,
    pub timestamp: i64,
    pub total_amount_due: i128,
    pub payment_due_date: Option<i64>,
}

impl DebitNoteForApi {
    pub fn duplicate(&self) -> (r: Self)
        ensures
            r == *self,
    {
        DebitNoteForApi {
            debit_note_id: self.debit_note_id.clone(),
            previous_debit_note_id: crate::models::clone_opt(&self.previous_debit_note_id),
            activity_id: self.activity_id.clone(),
            agreement_id: self.agreement_id.clone(),
            status: self.status,
            timestamp: self.timestamp,
            total_amount_due: self.total_amount_due,
            payment_due_date: self.payment_due_date,
        }
    }
}

pub open spec fn prev_is(d: DebitNoteForApi, id: Seq<char>) -> bool {
    d.previous_debit_note_id matches Some(p) && p@ == id
}

/// The first fault of the list scanned from position `k`: a repeated id, or a repeated
/// previous id, each checked in list order, the id before the previous id of each note.
pub open spec fn duplicate_fault(l: Seq<DebitNoteForApi>, k: int) -> Option<Seq<char>>
    decreases l.len() - k,
{
    if k < 0 || k >= l.len() {
        None
    } else if exists|j: int| 0 <= j < k && (#[trigger] l[j]).debit_note_id@ == l[k].debit_note_id@ {
        Some("Duplicate debit note with id "@ + l[k].debit_note_id@)
    } else if l[k].previous_debit_note_id is Some && exists|j: int|
        0 <= j < k && (#[trigger] l[j]).previous_debit_note_id is Some
            && l[j].previous_debit_note_id->0@ == l[k].previous_debit_note_id->0@ {
        Some("Duplicate debit note with previous id "@ + l[k].previous_debit_note_id->0@)
    } else {
        duplicate_fault(l, k + 1)
    }
}

/// No note of the list names note `i` as the one before it.
pub open spec fn is_head(l: Seq<DebitNoteForApi>, i: int) -> bool {
    forall|j: int| 0 <= j < l.len() ==> !prev_is(#[trigger] l[j], l[i].debit_note_id@)
}

/// How many of the first `k` notes no note names as the one before it.
pub open spec fn head_count(l: Seq<DebitNoteForApi>, k: int) -> nat
    decreases k,
{
    if k <= 0 {
        0
    } else {
        head_count(l, k - 1) + if is_head(l, k - 1) {
            1nat
        } else {
            0nat
        }
    }
}

/// The first note of the list that no note names as the one before it.
pub open spec fn first_head(l: Seq<DebitNoteForApi>, i: int) -> bool {
    &&& 0 <= i < l.len()
    &&& is_head(l, i)
    &&& forall|k: int| 0 <= k < i ==> !is_head(l, k)
}

/// `d` is a note of the list.
pub open spec fn in_list(l: Seq<DebitNoteForApi>, d: DebitNoteForApi) -> bool {
    exists|j: int| 0 <= j < l.len() && l[j] == d
}

/// `c` walks the list from its head: each note is in the list, and each after the first is
/// the one its predecessor names as the one before it.
pub open spec fn is_walk(l: Seq<DebitNoteForApi>, head: int, c: Seq<DebitNoteForApi>) -> bool {
    &&& c.len() >= 1
    &&& c[0] == l[head]
    &&& forall|i: int| 0 <= i < c.len() ==> in_list(l, #[trigger] c[i])
    &&& forall|i: int|
        0 <= i < c.len() - 1 ==> #[trigger] walk_link(c, i)
}

/// Note `i` of `c` names note `i + 1` as the one before it.
pub open spec fn walk_link(c: Seq<DebitNoteForApi>, i: int) -> bool {
    prev_is(c[i], c[i + 1].debit_note_id@)
}

/// The note at position `i` of the walk names the note at position `i + 1`.
pub open spec fn pos_link(l: Seq<DebitNoteForApi>, pos: Seq<int>, i: int) -> bool {
    prev_is(l[pos[i]], l[pos[i + 1]].debit_note_id@)
}

/// The walk `c` from the head ends at a note naming one before it that the list lacks, and
/// `m` reports it.
pub open spec fn walk_breaks(l: Seq<DebitNoteForApi>, head: int, c: Seq<DebitNoteForApi>, m: Seq<char>) -> bool {
    let p = c.last().previous_debit_note_id->0@;
    &&& is_walk(l, head, c)
    &&& c.last().previous_debit_note_id is Some
    &&& forall|j: int| 0 <= j < l.len() ==> (#[trigger] l[j]).debit_note_id@ != p
    &&& m == "Debit note "@ + p + " not found when building debit note chain"@
}

/// What building the chain gives: an empty chain for no notes; the first duplicate fault;
/// failing a head, a missing head; else the walk from the first head, ending at a note that
/// names none before it, or failing where a named note is missing.
pub open spec fn chain_result(l: Seq<DebitNoteForApi>, r: Result<Vec<DebitNoteForApi>, String>) -> bool {
    if l.len() == 0 {
        r matches Ok(c) && c@.len() == 0
    } else if duplicate_fault(l, 0) is Some {
        r matches Err(m) && m@ == duplicate_fault(l, 0)->0
    } else if head_count(l, l.len() as int) > 1 {
        r matches Err(m) && m@ == "Expected exactly one debit note with no previous debit note, found "@
            + decimal(head_count(l, l.len() as int))
    } else if !exists|i: int| #[trigger] first_head(l, i) {
        r matches Err(m) && m@ == "Debit note with no previous debit note not found"@
    } else {
        let head = choose|i: int| #[trigger] first_head(l, i);
        match r {
            Ok(c) => is_walk(l, head, c@) && c@.last().previous_debit_note_id is None,
            Err(m) => exists|c: Seq<DebitNoteForApi>| #[trigger] walk_breaks(l, head, c, m@),
        }
    }
}

fn find_by_id(l: &Vec<DebitNoteForApi>, id: &str) -> (r: Option<usize>)
    ensures
        r matches Some(j) ==> j < l.len() && l@[j as int].debit_note_id@ == id@,
        r is None ==> forall|j: int| 0 <= j < l.len() ==> (#[trigger] l@[j]).debit_note_id@ != id@,
{
    let mut j: usize = 0;
    while j < l.len()
        invariant
            0 <= j <= l.len(),
            forall|k: int| 0 <= k < j ==> (#[trigger] l@[k]).debit_note_id@ != id@,
        decreases l.len() - j,
    {
        if text_eq(l[j].debit_note_id.as_str(), id) {
            return Some(j);
        }
        j = j + 1;
    }
    None
}

fn named_as_previous(l: &Vec<DebitNoteForApi>, id: &str) -> (r: bool)
    ensures
        r == exists|j: int| 0 <= j < l.len() && prev_is(#[trigger] l@[j], id@),
{
    let mut j: usize = 0;
    while j < l.len()
        invariant
            0 <= j <= l.len(),
            forall|k: int| 0 <= k < j ==> !prev_is(#[trigger] l@[k], id@),
        decreases l.len() - j,
    {
        match &l[j].previous_debit_note_id {
            Some(p) => {
                if text_eq(p.as_str(), id) {
                    return true;
                }
            },
            None => {},
        }
        j = j + 1;
    }
    false
}

} // verus!

verus! {

proof fn lemma_distinct_bounded(pos: Seq<int>, n: int)
    requires
        0 <= n,
        pos.no_duplicates(),
        forall|i: int| 0 <= i < pos.len() ==> 0 <= #[trigger] pos[i] < n,
    ensures
        pos.len() <= n,
{
    pos.unique_seq_to_set();
    vstd::set_lib::lemma_int_range(0, n);
    assert(pos.to_set().subset_of(vstd::set_lib::set_int_range(0, n)));
    vstd::set_lib::lemma_len_subset(pos.to_set(), vstd::set_lib::set_int_range(0, n));
}

proof fn lemma_no_fault_step(l: Seq<DebitNoteForApi>, k: int)
    requires
        0 <= k < l.len(),
        !exists|j: int| 0 <= j < k && (#[trigger] l[j]).debit_note_id@ == l[k].debit_note_id@,
        !(l[k].previous_debit_note_id is Some && exists|j: int|
            0 <= j < k && (#[trigger] l[j]).previous_debit_note_id is Some
                && l[j].previous_debit_note_id->0@ == l[k].previous_debit_note_id->0@),
    ensures
        duplicate_fault(l, k) == duplicate_fault(l, k + 1),
{
}

/// The positions `pos` walk the list from `head`.
pub open spec fn walk_positions(l: Seq<DebitNoteForApi>, pos: Seq<int>, head: int) -> bool {
    &&& pos.len() >= 1
    &&& pos[0] == head
    &&& pos.no_duplicates()
    &&& forall|i: int| 0 <= i < pos.len() ==> 0 <= #[trigger] pos[i] < l.len()
    &&& forall|i: int| 0 <= i < pos.len() - 1 ==> #[trigger] pos_link(l, pos, i)
}

/// The note that the walk's last note names as the one before it is not yet on the walk.
proof fn lemma_not_on_walk(l: Seq<DebitNoteForApi>, pos: Seq<int>, head: int, j: int)
    requires
        first_head(l, head),
        links_unique(l),
        walk_positions(l, pos, head),
        0 <= j < l.len(),
        prev_is(l[pos.last()], l[j].debit_note_id@),
    ensures
        forall|t: int| 0 <= t < pos.len() ==> #[trigger] pos[t] != j,
{
    reveal(links_unique);
    let cur = pos.last();
    assert forall|t: int| 0 <= t < pos.len() implies #[trigger] pos[t] != j by {
        if pos[t] == j {
            if t == 0 {
                assert(!prev_is(l[cur], l[head].debit_note_id@));
            } else {
                let a = pos[t - 1];
                assert(pos_link(l, pos, t - 1));
                assert(prev_is(l[a], l[pos[t]].debit_note_id@));
                if a != cur {
                    if a < cur {
                        assert(l[a].previous_debit_note_id->0@ != l[cur].previous_debit_note_id->0@);
                    } else {
                        assert(l[cur].previous_debit_note_id->0@ != l[a].previous_debit_note_id->0@);
                    }
                } else {
                    assert(pos[t - 1] == pos[pos.len() - 1]);
                }
            }
        }
    }
}

/// Adding a position not yet on the walk keeps the positions distinct and within the list.
proof fn lemma_walk_grows(pos: Seq<int>, j: int, n: int)
    requires
        0 <= j < n,
        pos.no_duplicates(),
        forall|i: int| 0 <= i < pos.len() ==> 0 <= #[trigger] pos[i] < n,
        forall|t: int| 0 <= t < pos.len() ==> #[trigger] pos[t] != j,
    ensures
        pos.push(j).no_duplicates(),
        pos.push(j).len() <= n,
{
    let np = pos.push(j);
    assert forall|a: int, b: int| 0 <= a < np.len() && 0 <= b < np.len() && a != b implies np[a] != np[b] by {
        if a < pos.len() && b < pos.len() {
            assert(pos[a] != pos[b]);
        } else if a == pos.len() as int {
            assert(np[b] == pos[b]);
        } else {
            assert(np[a] == pos[a]);
        }
    }
    lemma_distinct_bounded(np, n);
}

/// The notes at the walk's positions form a walk.
proof fn lemma_walk_of_positions(l: Seq<DebitNoteForApi>, pos: Seq<int>, head: int, c: Seq<DebitNoteForApi>)
    requires
        walk_positions(l, pos, head),
        c.len() == pos.len(),
        forall|i: int| 0 <= i < pos.len() ==> c[i] == l[#[trigger] pos[i]],
    ensures
        is_walk(l, head, c),
{
    assert forall|i: int| 0 <= i < c.len() implies in_list(l, #[trigger] c[i]) by {
        assert(l[pos[i]] == c[i]);
    }
    assert forall|i: int| 0 <= i < c.len() - 1 implies #[trigger] walk_link(c, i) by {
        assert(pos_link(l, pos, i));
        assert(c[i] == l[pos[i]]);
        assert(c[i + 1] == l[pos[i + 1]]);
    }
}

/// No two notes share an id, nor name the same note as the one before them.
#[verifier::opaque]
pub open spec fn links_unique(l: Seq<DebitNoteForApi>) -> bool {
    &&& forall|a: int, b: int|
        0 <= a < b < l.len() ==> (#[trigger] l[a]).debit_note_id@ != (#[trigger] l[b]).debit_note_id@
    &&& forall|a: int, b: int|
        0 <= a < b < l.len() && (#[trigger] l[a]).previous_debit_note_id is Some
            && (#[trigger] l[b]).previous_debit_note_id is Some ==> l[a].previous_debit_note_id->0@
            != l[b].previous_debit_note_id->0@
}

fn check_duplicates(l: &Vec<DebitNoteForApi>) -> (r: Option<String>)
    ensures
        r matches Some(m) ==> duplicate_fault(l@, 0) == Some(m@),
        r is None ==> duplicate_fault(l@, 0) is None && links_unique(l@),
{
    reveal(links_unique);
    let n = l.len();
    let mut k: usize = 0;
    while k < n
        invariant
            n == l.len(),
            0 <= k <= n,
            duplicate_fault(l@, 0) == duplicate_fault(l@, k as int),
            forall|a: int, b: int| 0 <= a < b < k ==> (#[trigger] l@[a]).debit_note_id@ != (#[trigger] l@[b]).debit_note_id@,
            forall|a: int, b: int|
                0 <= a < b < k && (#[trigger] l@[a]).previous_debit_note_id is Some
                    && (#[trigger] l@[b]).previous_debit_note_id is Some ==> l@[a].previous_debit_note_id->0@
                    != l@[b].previous_debit_note_id->0@,
        decreases n - k,
    {
        let mut j: usize = 0;
        while j < k
            invariant
                n == l.len(),
                0 <= j <= k < n,
                duplicate_fault(l@, 0) == duplicate_fault(l@, k as int),
                forall|t: int| 0 <= t < j ==> (#[trigger] l@[t]).debit_note_id@ != l@[k as int].debit_note_id@,
            decreases k - j,
        {
            if text_eq(l[j].debit_note_id.as_str(), l[k].debit_note_id.as_str()) {
                let m = concat("Duplicate debit note with id ", l[k].debit_note_id.as_str());
                proof {
                    assert(l@[j as int].debit_note_id@ == l@[k as int].debit_note_id@);
                    assert(exists|t: int| 0 <= t < k && (#[trigger] l@[t]).debit_note_id@ == l@[k as int].debit_note_id@);
                    assert(duplicate_fault(l@, k as int) == Some(m@));
                }
                return Some(m);
            }
            j = j + 1;
        }
        match &l[k].previous_debit_note_id {
            Some(p) => {
                let mut j: usize = 0;
                while j < k
                    invariant
                        n == l.len(),
                        0 <= j <= k < n,
                        l@[k as int].previous_debit_note_id == Some(*p),
                        duplicate_fault(l@, 0) == duplicate_fault(l@, k as int),
                        forall|t: int| 0 <= t < k ==> (#[trigger] l@[t]).debit_note_id@ != l@[k as int].debit_note_id@,
                        forall|t: int|
                            0 <= t < j ==> !((#[trigger] l@[t]).previous_debit_note_id is Some
                                && l@[t].previous_debit_note_id->0@ == p@),
                    decreases k - j,
                {
                    match &l[j].previous_debit_note_id {
                        Some(q) => {
                            if text_eq(q.as_str(), p.as_str()) {
                                let m = concat("Duplicate debit note with previous id ", p.as_str());
                                proof {
                                    assert(l@[j as int].previous_debit_note_id is Some);
                                    assert(!exists|t: int| 0 <= t < k && (#[trigger] l@[t]).debit_note_id@ == l@[k as int].debit_note_id@);
                                    assert(exists|t: int|
                                        0 <= t < k && (#[trigger] l@[t]).previous_debit_note_id is Some
                                            && l@[t].previous_debit_note_id->0@ == l@[k as int].previous_debit_note_id->0@);
                                    assert(duplicate_fault(l@, k as int) == Some(m@));
                                }
                                return Some(m);
                            }
                        },
                        None => {},
                    }
                    j = j + 1;
                }
            },
            None => {},
        }
        proof {
            lemma_no_fault_step(l@, k as int);
        }
        k = k + 1;
    }
    None
}

fn count_heads(l: &Vec<DebitNoteForApi>) -> (r: usize)
    ensures
        r == head_count(l@, l@.len() as int),
{
    let n = l.len();
    let mut count: usize = 0;
    let mut h: usize = 0;
    while h < n
        invariant
            n == l.len(),
            0 <= h <= n,
            count == head_count(l@, h as int),
            count <= h,
        decreases n - h,
    {
        let named = named_as_previous(l, l[h].debit_note_id.as_str());
        proof {
            if !named {
                assert forall|j: int| 0 <= j < l@.len() implies !prev_is(#[trigger] l@[j], l@[h as int].debit_note_id@) by {
                    if prev_is(l@[j], l@[h as int].debit_note_id@) {
                        assert(exists|t: int| 0 <= t < l@.len() && prev_is(#[trigger] l@[t], l@[h as int].debit_note_id@));
                    }
                }
                assert(is_head(l@, h as int));
            } else {
                let t = choose|t: int| 0 <= t < l@.len() && prev_is(#[trigger] l@[t], l@[h as int].debit_note_id@);
                assert(!is_head(l@, h as int));
            }
        }
        if !named {
            count = count + 1;
        }
        h = h + 1;
    }
    count
}

fn find_head(l: &Vec<DebitNoteForApi>) -> (r: Option<usize>)
    ensures
        r matches Some(h) ==> first_head(l@, h as int),
        r is None ==> !exists|i: int| #[trigger] first_head(l@, i),
{
    let n = l.len();
    let mut h: usize = 0;
    while h < n
        invariant
            n == l.len(),
            0 <= h <= n,
            forall|t: int| 0 <= t < h ==> !is_head(l@, t),
        decreases n - h,
    {
        let named = named_as_previous(l, l[h].debit_note_id.as_str());
        if !named {
            proof {
                assert forall|j: int| 0 <= j < l@.len() implies !prev_is(#[trigger] l@[j], l@[h as int].debit_note_id@) by {
                    if prev_is(l@[j], l@[h as int].debit_note_id@) {
                        assert(exists|t: int| 0 <= t < l@.len() && prev_is(#[trigger] l@[t], l@[h as int].debit_note_id@));
                    }
                }
                assert(is_head(l@, h as int));
            }
            return Some(h);
        }
        h = h + 1;
    }
    proof {
        if exists|i: int| #[trigger] first_head(l@, i) {
            let i = choose|i: int| #[trigger] first_head(l@, i);
            assert(!is_head(l@, i));
        }
    }
    None
}

/// Walks the notes from `head` back along the notes each names as the one before it.
fn walk_from(l: &Vec<DebitNoteForApi>, head: usize) -> (r: Result<Vec<DebitNoteForApi>, String>)
    requires
        first_head(l@, head as int),
        links_unique(l@),
    ensures
        r is Ok ==> is_walk(l@, head as int, r->Ok_0@) && r->Ok_0@.last().previous_debit_note_id is None,
        r is Err ==> exists|c: Seq<DebitNoteForApi>| #[trigger] walk_breaks(l@, head as int, c, r->Err_0@),
{
    let n = l.len();
    let mut chain: Vec<DebitNoteForApi> = Vec::new();
    chain.push(l[head].duplicate());
    let ghost mut pos: Seq<int> = seq![head as int];
    let mut cur: usize = head;
    loop
        invariant
            n == l.len(),
            first_head(l@, head as int),
            links_unique(l@),
            walk_positions(l@, pos, head as int),
            pos.len() == chain@.len(),
            pos.last() == cur as int,
            cur < n,
            forall|i: int| 0 <= i < pos.len() ==> chain@[i] == l@[#[trigger] pos[i]],
        decreases n - chain@.len(),
    {
        let p = match &l[cur].previous_debit_note_id {
            Some(p) => p,
            None => {
                proof {
                    lemma_walk_of_positions(l@, pos, head as int, chain@);
                    assert(chain@.last() == l@[cur as int]);
                }
                return Ok(chain);
            },
        };
        let j = match find_by_id(l, p.as_str()) {
            Some(j) => j,
            None => {
                let m = concat3("Debit note ", p.as_str(), " not found when building debit note chain");
                proof {
                    lemma_walk_of_positions(l@, pos, head as int, chain@);
                    assert(chain@.last() == l@[cur as int]);
                }
                let r: Result<Vec<DebitNoteForApi>, String> = Err(m);
                proof {
                    assert(walk_breaks(l@, head as int, chain@, r->Err_0@));
                }
                return r;
            },
        };
        proof {
            lemma_not_on_walk(l@, pos, head as int, j as int);
            lemma_walk_grows(pos, j as int, n as int);
        }
        let ghost old_pos = pos;
        chain.push(l[j].duplicate());
        proof {
            pos = pos.push(j as int);
            assert forall|i: int| 0 <= i < pos.len() - 1 implies #[trigger] pos_link(l@, pos, i) by {
                if i < old_pos.len() - 1 {
                    assert(pos_link(l@, old_pos, i));
                    assert(pos[i] == old_pos[i] && pos[i + 1] == old_pos[i + 1]);
                } else {
                    assert(pos[i] == cur as int);
                }
            }
        }
        cur = j;
    }
}

/// Orders an activity's debit notes into the chain from the latest, which no other note
/// names as the one before it, back along the notes each names as the one before it.
pub fn get_debit_note_chain(debit_list: Vec<DebitNoteForApi>) -> (r: Result<Vec<DebitNoteForApi>, String>)
    ensures
        chain_result(debit_list@, r),
{
    if debit_list.len() == 0 {
        return Ok(Vec::new());
    }
    match check_duplicates(&debit_list) {
        Some(m) => {
            return Err(m);
        },
        None => {},
    }
    let heads = count_heads(&debit_list);
    if heads > 1 {
        let n = decimal_text(heads as u128);
        return Err(concat("Expected exactly one debit note with no previous debit note, found ", n.as_str()));
    }
    let head = match find_head(&debit_list) {
        Some(h) => h,
        None => {
            return Err("Debit note with no previous debit note not found".to_string());
        },
    };
    proof {
        let c = choose|i: int| #[trigger] first_head(debit_list@, i);
        if c < head {
            assert(!is_head(debit_list@, c));
        } else if head < c {
            assert(!is_head(debit_list@, head as int));
        }
    }
    walk_from(&debit_list, head)
}

} // verus!
