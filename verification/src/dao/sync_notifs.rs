//! Peers that still have to be told about documents they may have missed.
use vstd::prelude::*;
use crate::dao::invoice::{lemma_select_by_holds, lemma_select_by_member, select_by};
use crate::error::{DbError, DbResult};
use crate::ledger::{is_not_found, not_found_error};
use crate::text::text_eq;

verus! {

/// A peer to notify: when it was last tried and how many tries failed.
#[derive(Debug)]
pub struct SyncNotif {
    pub id: String,
    pub last_ping: i64,
    pub retries: i32,
}

impl SyncNotif {
    pub fn duplicate(&self) -> (r: Self)
        ensures
            r == *self,
    {
        SyncNotif { id: self.id.clone(), last_ping: self.last_ping, retries: self.retries }
    }
}

/// The peers to notify, each at most once.
#[derive(Debug)]
pub struct SyncNotifsDao {
    pub notifs: Vec<SyncNotif>,
}

/// No two entries of `s` are for the same peer.
pub open spec fn ids_unique(s: Seq<SyncNotif>) -> bool {
    forall|i: int, j: int| 0 <= i < j < s.len() ==> #[trigger] s[i].id@ != #[trigger] s[j].id@
}

/// The entries of `s` that are not for `peer`, in order.
pub open spec fn without(s: Seq<SyncNotif>, peer: Seq<char>) -> Seq<SyncNotif> {
    select_by(s, |n: SyncNotif| n.id@ != peer)
}

impl SyncNotifsDao {
    pub open spec fn wf(&self) -> bool {
        ids_unique(self.notifs@)
    }

    pub fn new() -> (r: Self)
        ensures
            r.wf(),
            r.notifs@.len() == 0,
    {
        SyncNotifsDao { notifs: Vec::new() }
    }

    fn find(&self, peer_id: &str) -> (r: Option<usize>)
        ensures
            r matches Some(i) ==> i < self.notifs@.len() && self.notifs@[i as int].id@ == peer_id@,
            r is None ==> forall|k: int| 0 <= k < self.notifs@.len() ==> #[trigger] self.notifs@[k].id@ != peer_id@,
    {
        let mut i: usize = 0;
        while i < self.notifs.len()
            invariant
                0 <= i <= self.notifs.len(),
                forall|k: int| 0 <= k < i ==> #[trigger] self.notifs@[k].id@ != peer_id@,
            decreases self.notifs.len() - i,
        {
            if text_eq(self.notifs[i].id.as_str(), peer_id) {
                return Some(i);
            }
            i = i + 1;
        }
        None
    }

    /// Removes the entry of `peer_id`, where there is one.
    pub fn drop(&mut self, peer_id: &str) -> (r: DbResult<()>)
        requires
            old(self).wf(),
        ensures
            final(self).wf(),
            r is Ok,
            final(self).notifs@ == without(old(self).notifs@, peer_id@),
    {
        let ghost s = self.notifs@;
        let ghost p = |n: SyncNotif| n.id@ != peer_id@;
        let mut kept: Vec<SyncNotif> = Vec::new();
        let mut i: usize = 0;
        while i < self.notifs.len()
            invariant
                0 <= i <= self.notifs.len(),
                self.notifs@ == s,
                p == (|n: SyncNotif| n.id@ != peer_id@),
                kept@ == select_by(s.take(i as int), p),
            decreases self.notifs.len() - i,
        {
            proof {
                assert(s.take(i + 1).drop_last() =~= s.take(i as int));
                assert(s.take(i + 1).last() == s[i as int]);
            }
            if !text_eq(self.notifs[i].id.as_str(), peer_id) {
                kept.push(self.notifs[i].duplicate());
            }
            i = i + 1;
        }
        proof {
            assert(s.take(i as int) =~= s);
            assert forall|a: int, b: int| 0 <= a < b < kept@.len() implies #[trigger] kept@[a].id@
                != #[trigger] kept@[b].id@ by {
                lemma_filter_order(s, p, a, b);
            }
        }
        self.notifs = kept;
        Ok(())
    }

    /// Starts tracking `peer_id` anew at `now`: a former entry of it goes, and one with no
    /// failed tries is added.
    pub fn upsert(&mut self, peer_id: &str, now: i64) -> (r: DbResult<()>)
        requires
            old(self).wf(),
        ensures
            final(self).wf(),
            r is Ok,
            final(self).notifs@.len() == without(old(self).notifs@, peer_id@).len() + 1,
            final(self).notifs@.drop_last() == without(old(self).notifs@, peer_id@),
            final(self).notifs@.last().id@ == peer_id@,
            final(self).notifs@.last().last_ping == now,
            final(self).notifs@.last().retries == 0,
    {
        let _ = self.drop(peer_id);
        let ghost before = self.notifs@;
        let entry = SyncNotif { id: peer_id.to_string(), last_ping: now, retries: 0 };
        self.notifs.push(entry);
        proof {
            assert forall|k: int| 0 <= k < before.len() implies #[trigger] before[k].id@ != peer_id@ by {
                assert(before[k] == without(old(self).notifs@, peer_id@)[k]);
                lemma_select_by_holds(old(self).notifs@, |n: SyncNotif| n.id@ != peer_id@, k);
            }
            assert forall|a: int, b: int| 0 <= a < b < self.notifs@.len() implies #[trigger] self.notifs@[a].id@
                != #[trigger] self.notifs@[b].id@ by {
                if b == before.len() {
                    assert(self.notifs@[a] == before[a]);
                } else {
                    assert(self.notifs@[a] == before[a] && self.notifs@[b] == before[b]);
                }
            }
        }
        Ok(())
    }

    /// Counts one more failed try of `peer_id`, made at `ts`; refused where the peer is not
    /// tracked.
    pub fn increment_retry(&mut self, peer_id: &str, ts: i64) -> (r: DbResult<()>)
        requires
            old(self).wf(),
            forall|k: int|
                0 <= k < old(self).notifs@.len() && #[trigger] old(self).notifs@[k].id@ == peer_id@
                    ==> old(self).notifs@[k].retries < i32::MAX,
        ensures
            final(self).wf(),
            (exists|k: int| 0 <= k < old(self).notifs@.len() && #[trigger] old(self).notifs@[k].id@ == peer_id@)
                ==> r is Ok && exists|k: int|
                0 <= k < old(self).notifs@.len() && #[trigger] old(self).notifs@[k].id@ == peer_id@
                    && final(self).notifs@ == old(self).notifs@.update(
                    k,
                    SyncNotif {
                        retries: (old(self).notifs@[k].retries + 1) as i32,
                        last_ping: ts,
                        ..old(self).notifs@[k]
                    },
                ),
            !(exists|k: int| 0 <= k < old(self).notifs@.len() && #[trigger] old(self).notifs@[k].id@ == peer_id@)
                ==> (r matches Err(e) && is_not_found(e)) && final(self).notifs@ == old(self).notifs@,
    {
        match self.find(peer_id) {
            Some(i) => {
                let mut n = self.notifs[i].duplicate();
                n.retries = n.retries + 1;
                n.last_ping = ts;
                self.notifs.set(i, n);
                proof {
                    let t = self.notifs@;
                    assert forall|a: int, b: int| 0 <= a < b < t.len() implies #[trigger] t[a].id@ != #[trigger] t[b].id@ by {
                        assert(t[a].id == old(self).notifs@[a].id);
                        assert(t[b].id == old(self).notifs@[b].id);
                    }
                }
                Ok(())
            },
            None => Err(not_found_error()),
        }
    }

    /// All the tracked peers.
    pub fn list(&self) -> (r: Vec<SyncNotif>)
        ensures
            r@ == self.notifs@,
    {
        let mut r: Vec<SyncNotif> = Vec::new();
        let mut i: usize = 0;
        while i < self.notifs.len()
            invariant
                0 <= i <= self.notifs.len(),
                r@ == self.notifs@.take(i as int),
            decreases self.notifs.len() - i,
        {
            r.push(self.notifs[i].duplicate());
            proof {
                assert(self.notifs@.take(i + 1) =~= self.notifs@.take(i as int).push(self.notifs@[i as int]));
            }
            i = i + 1;
        }
        proof {
            assert(self.notifs@.take(i as int) =~= self.notifs@);
        }
        r
    }
}

/// Two rows that `select_by` keeps from a sequence of distinct ids have distinct ids.
proof fn lemma_filter_order(s: Seq<SyncNotif>, p: spec_fn(SyncNotif) -> bool, a: int, b: int)
    requires
        ids_unique(s),
        0 <= a < b < select_by(s, p).len(),
    ensures
        select_by(s, p)[a].id@ != select_by(s, p)[b].id@,
    decreases s.len(),
{
    if s.len() > 0 {
        let d = s.drop_last();
        assert(ids_unique(d)) by {
            assert forall|i: int, j: int| 0 <= i < j < d.len() implies #[trigger] d[i].id@ != #[trigger] d[j].id@ by {
                assert(d[i] == s[i] && d[j] == s[j]);
            }
        }
        let fd = select_by(d, p);
        if p(s.last()) {
            assert(select_by(s, p) == fd.push(s.last()));
            if b < fd.len() {
                lemma_filter_order(d, p, a, b);
            } else {
                lemma_select_by_member(d, p, a);
                let j = choose|j: int| 0 <= j < d.len() && d[j] == fd[a];
                assert(s[j] == d[j]);
                assert(s[j].id@ != s[s.len() - 1].id@);
            }
        } else {
            assert(select_by(s, p) == fd);
            lemma_filter_order(d, p, a, b);
        }
    }
}

} // verus!
