//! Batch cycles: when the payments of an owner on a platform are processed next.
use vstd::prelude::*;
use crate::error::{DbError, DbResult};
use crate::ledger::{
    find_key, has_key, key_index, key_is, keys_unique, lemma_key_index, lemma_push_new_key,
    lemma_update_same_key, Keyed,
};
use crate::text::{concat, concat3};

verus! {

/// When payments are processed for an owner on a platform: every `cycle_interval`
/// milliseconds or by a cron schedule, with the last and the next processing times.
#[derive(Debug)]
pub struct BatchCycle {
    pub owner_id: String,
    pub platform: String,
    pub created_ts: i64,
    pub updated_ts: i64,
    pub cycle_interval: Option<i64>,
    pub cycle_cron: Option<String>,
    pub cycle_last_process: Option<i64>,
    pub cycle_next_process: i64,
    pub cycle_max_interval: i64,
    pub cycle_extra_pay_time: i64,
}

impl BatchCycle {
    pub fn duplicate(&self) -> (r: Self)
        ensures
            r == *self,
    {
        BatchCycle {
            owner_id: self.owner_id.clone(),
            platform: self.platform.clone(),
            created_ts: self.created_ts,
            updated_ts: self.updated_ts,
            cycle_interval: self.cycle_interval,
            cycle_cron: crate::models::clone_opt(&self.cycle_cron),
            cycle_last_process: self.cycle_last_process,
            cycle_next_process: self.cycle_next_process,
            cycle_max_interval: self.cycle_max_interval,
            cycle_extra_pay_time: self.cycle_extra_pay_time,
        }
    }
}

/// The milliseconds that a `humantime` duration text denotes, `None` where it is no
/// duration or does not fit.
pub uninterp spec fn spec_duration_millis(s: Seq<char>) -> Option<int>;

/// The number of decimal digits in `s`.
pub open spec fn digit_count(s: Seq<char>) -> nat
    decreases s.len(),
{
    if s.len() == 0 {
        0
    } else {
        digit_count(s.drop_last()) + if '0' <= s.last() && s.last() <= '9' {
            1nat
        } else {
            0nat
        }
    }
}

proof fn lemma_digit_count_le_len(s: Seq<char>)
    ensures
        digit_count(s) <= s.len(),
    decreases s.len(),
{
    if s.len() > 0 {
        lemma_digit_count_le_len(s.drop_last());
    }
}

/// A duration text with at most 11 digits. Each of its spans is below ten to the number
/// of its digits times a year, so the whole stays far below `u64::MAX` seconds: the parse
/// cannot reach the seconds count at which `humantime` overflows building its `Duration`.
pub open spec fn duration_text_fits(s: Seq<char>) -> bool {
    digit_count(s) <= 11
}

/// Whether `s` is a duration text that can be parsed (see `duration_text_fits`).
pub fn duration_text_fits_exec(s: &str) -> (r: bool)
    ensures
        r == duration_text_fits(s@),
{
    let n = s.unicode_len();
    let mut count: usize = 0;
    let mut i: usize = 0;
    while i < n
        invariant
            n == s@.len(),
            0 <= i <= n,
            count == digit_count(s@.take(i as int)),
            count <= i,
        decreases n - i,
    {
        proof {
            assert(s@.take(i + 1).drop_last() =~= s@.take(i as int));
            assert(s@.take(i + 1).last() == s@[i as int]);
        }
        let c = s.get_char(i);
        if '0' <= c && c <= '9' {
            count = count + 1;
        }
        i = i + 1;
    }
    proof {
        assert(s@.take(n as int) =~= s@);
    }
    count <= 11
}

/// Reads a duration with `humantime::parse_duration` and converts it with
/// `chrono::Duration::from_std` to whole milliseconds. The text must fit (see
/// `duration_text_fits`): on a text denoting `u64::MAX` seconds with a carry of the
/// nanoseconds, `humantime` panics.
#[verifier::external_body]
pub(crate) fn parse_duration_millis(s: &str) -> (r: Option<i64>)
    requires
        duration_text_fits(s@),
    ensures
        r matches Some(v) ==> spec_duration_millis(s@) == Some(v as int),
        r is None ==> spec_duration_millis(s@) is None,
{
    let d = humantime::parse_duration(s).ok()?;
    chrono::Duration::from_std(d).ok().map(|c| c.num_milliseconds())
}

/// The configured duration, or `default_text` where none is configured; `None` where the
/// text in force is no duration.
pub fn payment_cycle_duration(configured: Option<&str>, default_text: &str) -> (r: Option<i64>)
    requires
        duration_text_fits(
            match configured {
                Some(c) => c@,
                None => default_text@,
            },
        ),
    ensures
        r matches Some(v) ==> spec_duration_millis(
            match configured {
                Some(c) => c@,
                None => default_text@,
            },
        ) == Some(v as int),
        r is None ==> spec_duration_millis(
            match configured {
                Some(c) => c@,
                None => default_text@,
            },
        ) is None,
{
    match configured {
        Some(c) => parse_duration_millis(c),
        None => parse_duration_millis(default_text),
    }
}

/// The default processing interval: `PAYMENT_CYCLE_DEFAULT_INTERVAL`, else a day.
pub fn get_default_payment_cycle_interval(configured: Option<&str>) -> (r: Option<i64>)
    requires
        configured matches Some(c) ==> duration_text_fits(c@),
    ensures
        r matches Some(v) ==> spec_duration_millis(
            match configured {
                Some(c) => c@,
                None => "24h"@,
            },
        ) == Some(v as int),
        r is None ==> spec_duration_millis(
            match configured {
                Some(c) => c@,
                None => "24h"@,
            },
        ) is None,
{
    proof {
        reveal_strlit("24h");
        lemma_digit_count_le_len("24h"@);
    }
    payment_cycle_duration(configured, "24h")
}

/// The default extra time to pay: `PAYMENT_CYCLE_DEFAULT_EXTRA_PAY_TIME`, else an hour.
pub fn get_default_payment_cycle_extra_pay_time(configured: Option<&str>) -> (r: Option<i64>)
    requires
        configured matches Some(c) ==> duration_text_fits(c@),
    ensures
        r matches Some(v) ==> spec_duration_millis(
            match configured {
                Some(c) => c@,
                None => "1h"@,
            },
        ) == Some(v as int),
        r is None ==> spec_duration_millis(
            match configured {
                Some(c) => c@,
                None => "1h"@,
            },
        ) is None,
{
    proof {
        reveal_strlit("1h");
        lemma_digit_count_le_len("1h"@);
    }
    payment_cycle_duration(configured, "1h")
}

/// A cycle run every `interval` milliseconds from `now`, paying `extra_pay_time` after.
pub fn new_interval_cycle(owner_id: String, platform: String, interval: i64, extra_pay_time: i64, now: i64) -> (r:
    BatchCycle)
    requires
        now + interval <= i64::MAX,
        now + interval >= i64::MIN,
    ensures
        r == (BatchCycle {
            owner_id,
            platform,
            created_ts: now,
            updated_ts: now,
            cycle_interval: Some(interval),
            cycle_cron: None,
            cycle_last_process: None,
            cycle_next_process: (now + interval) as i64,
            cycle_max_interval: interval,
            cycle_extra_pay_time: extra_pay_time,
        }),
{
    BatchCycle {
        owner_id,
        platform,
        created_ts: now,
        updated_ts: now,
        cycle_interval: Some(interval),
        cycle_cron: None,
        cycle_last_process: None,
        cycle_next_process: now + interval,
        cycle_max_interval: interval,
        cycle_extra_pay_time: extra_pay_time,
    }
}

/// How a cycle is set up: by interval, by cron schedule, or neither.
#[derive(Debug)]
pub enum CycleSource {
    Interval(i64),
    Cron(String),
}

/// An interval wins over a cron schedule; one of them must be given.
pub fn choose_cycle_source(interval: Option<i64>, cron: Option<String>) -> (r: DbResult<CycleSource>)
    ensures
        match (interval, cron) {
            (Some(i), _) => r matches Ok(CycleSource::Interval(x)) && x == i,
            (None, Some(c)) => r matches Ok(CycleSource::Cron(x)) && x == c,
            (None, None) => r matches Err(DbError::Query(m)) && m@ == "Either interval or cron must be provided"@,
        },
{
    match interval {
        Some(i) => Ok(CycleSource::Interval(i)),
        None => match cron {
            Some(c) => Ok(CycleSource::Cron(c)),
            None => Err(DbError::Query("Either interval or cron must be provided".to_string())),
        },
    }
}

/// A cycle run by the cron schedule `cron`, whose next time after `now` is `next`.
pub fn new_cron_cycle(owner_id: String, platform: String, cron: String, next: i64, extra_pay_time: i64, now: i64) -> (r:
    BatchCycle)
    requires
        i64::MIN <= next - now <= i64::MAX,
    ensures
        r == (BatchCycle {
            owner_id,
            platform,
            created_ts: now,
            updated_ts: now,
            cycle_interval: None,
            cycle_cron: Some(cron),
            cycle_last_process: None,
            cycle_next_process: next,
            cycle_max_interval: (next - now) as i64,
            cycle_extra_pay_time: extra_pay_time,
        }),
{
    BatchCycle {
        owner_id,
        platform,
        created_ts: now,
        updated_ts: now,
        cycle_interval: None,
        cycle_cron: Some(cron),
        cycle_last_process: None,
        cycle_next_process: next,
        cycle_max_interval: next - now,
        cycle_extra_pay_time: extra_pay_time,
    }
}

/// The fresh cycle that a set-up request asks for at `now`, or the refusal's text: an
/// interval wins over a cron schedule, whose next time `cron_next` gives; one of the two
/// must be given.
pub open spec fn requested_cycle(
    owner_id: String,
    platform: String,
    interval: Option<i64>,
    cron: Option<String>,
    extra_pay_time: i64,
    cron_next: CronNext,
    now: i64,
) -> Result<BatchCycle, Seq<char>> {
    match interval {
        Some(i) => Ok(BatchCycle {
            owner_id,
            platform,
            created_ts: now,
            updated_ts: now,
            cycle_interval: Some(i),
            cycle_cron: None,
            cycle_last_process: None,
            cycle_next_process: (now + i) as i64,
            cycle_max_interval: i,
            cycle_extra_pay_time: extra_pay_time,
        }),
        None => match cron {
            None => Err("Either interval or cron must be provided"@),
            Some(c) => match cron_next {
                CronNext::Invalid(e) => Err("Error creating batch cycle based on cron "@ + e@),
                CronNext::NoUpcoming => Err("Error creating batch cycle based on cron "@ + c@),
                CronNext::At(t) => Ok(BatchCycle {
                    owner_id,
                    platform,
                    created_ts: now,
                    updated_ts: now,
                    cycle_interval: None,
                    cycle_cron: Some(c),
                    cycle_last_process: None,
                    cycle_next_process: t,
                    cycle_max_interval: (t - now) as i64,
                    cycle_extra_pay_time: extra_pay_time,
                }),
            },
        },
    }
}

/// When a stored cycle that was processed before next runs after being set up anew: one
/// interval after its last processing, or `next_running_time` where that comes earlier.
pub open spec fn merged_next(existing: BatchCycle, fresh: BatchCycle, next_running_time: Option<i64>) -> i64 {
    match (existing.cycle_last_process, fresh.cycle_interval) {
        (Some(last), Some(interval)) => {
            let max_next = (last + interval) as i64;
            match next_running_time {
                Some(n) => if n < max_next {
                    n
                } else {
                    max_next
                },
                None => max_next,
            }
        },
        _ => fresh.cycle_next_process,
    }
}

/// A stored cycle set up anew as `fresh` at time `now`: it keeps its owner, platform,
/// creation time and last processing.
pub fn merge_cycle(existing: &BatchCycle, fresh: &BatchCycle, next_running_time: Option<i64>, now: i64) -> (r:
    BatchCycle)
    requires
        existing.cycle_last_process matches Some(l) ==> (fresh.cycle_interval matches Some(i)
            ==> i64::MIN <= l + i <= i64::MAX),
    ensures
        r == (BatchCycle {
            updated_ts: now,
            cycle_interval: fresh.cycle_interval,
            cycle_cron: fresh.cycle_cron,
            cycle_next_process: merged_next(*existing, *fresh, next_running_time),
            cycle_max_interval: fresh.cycle_max_interval,
            cycle_extra_pay_time: fresh.cycle_extra_pay_time,
            ..*existing
        }),
{
    let mut entry = existing.duplicate();
    entry.updated_ts = now;
    entry.cycle_interval = fresh.cycle_interval;
    entry.cycle_cron = crate::models::clone_opt(&fresh.cycle_cron);
    entry.cycle_next_process = fresh.cycle_next_process;
    entry.cycle_max_interval = fresh.cycle_max_interval;
    entry.cycle_extra_pay_time = fresh.cycle_extra_pay_time;
    match (entry.cycle_last_process, fresh.cycle_interval) {
        (Some(last), Some(interval)) => {
            let max_next = last + interval;
            entry.cycle_next_process = match next_running_time {
                Some(n) => if n < max_next {
                    n
                } else {
                    max_next
                },
                None => max_next,
            };
        },
        _ => {},
    }
    entry
}

/// What a cron schedule says of the time after now.
#[derive(Debug)]
pub enum CronNext {
    /// The expression does not parse; the parser's message.
    Invalid(String),
    /// The schedule has no time to come.
    NoUpcoming,
    /// The next time, in milliseconds since the epoch.
    At(i64),
}

/// A cycle after processing at `now`: the stored record takes `now` as its last processing,
/// and both it and the record handed back take the next time, one interval on for an
/// interval cycle, the schedule's next time for a cron cycle. A cron expression that does
/// not parse, or has no time to come, is refused.
pub fn cycle_after_process(entry: &BatchCycle, now: i64, cron_next: &CronNext) -> (r: DbResult<(BatchCycle, BatchCycle)>)
    requires
        entry.cycle_interval matches Some(i) ==> i64::MIN <= now + i <= i64::MAX,
    ensures
        match entry.cycle_interval {
            Some(i) => r matches Ok((stored, returned)) && returned == (BatchCycle {
                cycle_next_process: (now + i) as i64,
                ..*entry
            }) && stored == (BatchCycle { cycle_last_process: Some(now), ..returned }),
            None => match entry.cycle_cron {
                None => r matches Ok((stored, returned)) && returned == *entry && stored == (BatchCycle {
                    cycle_last_process: Some(now),
                    ..*entry
                }),
                Some(c) => match *cron_next {
                    CronNext::Invalid(e) => r matches Err(DbError::Query(m)) && m@
                        == "Failed to parse cron expression: "@ + c@ + " "@ + e@,
                    CronNext::NoUpcoming => r matches Err(DbError::Query(m)) && m@
                        == "Failed to get next running time for cron expression: "@ + c@,
                    CronNext::At(t) => r matches Ok((stored, returned)) && returned == (BatchCycle {
                        cycle_next_process: t,
                        ..*entry
                    }) && stored == (BatchCycle { cycle_last_process: Some(now), ..returned }),
                },
            },
        },
{
    let mut returned = entry.duplicate();
    match entry.cycle_interval {
        Some(i) => {
            returned.cycle_next_process = now + i;
        },
        None => match &entry.cycle_cron {
            None => {},
            Some(c) => match cron_next {
                CronNext::Invalid(e) => {
                    let head = concat3("Failed to parse cron expression: ", c.as_str(), " ");
                    return Err(DbError::Query(concat(head.as_str(), e.as_str())));
                },
                CronNext::NoUpcoming => {
                    return Err(DbError::Query(concat("Failed to get next running time for cron expression: ", c.as_str())));
                },
                CronNext::At(t) => {
                    returned.cycle_next_process = *t;
                },
            },
        },
    }
    let mut stored = returned.duplicate();
    stored.cycle_last_process = Some(now);
    Ok((stored, returned))
}

impl Keyed for BatchCycle {
    open spec fn key_id(&self) -> Seq<char> {
        self.platform@
    }

    open spec fn key_owner(&self) -> Seq<char> {
        self.owner_id@
    }

    fn id_text(&self) -> (r: &String) {
        &self.platform
    }

    fn owner_text(&self) -> (r: &String) {
        &self.owner_id
    }
}

/// The batch cycles a node keeps, at most one per owner and platform.
#[derive(Debug)]
pub struct BatchCycleDao {
    pub cycles: Vec<BatchCycle>,
}

impl BatchCycleDao {
    pub open spec fn wf(&self) -> bool {
        keys_unique(self.cycles@)
    }

    /// The cycle stored for `owner` on `platform`.
    pub open spec fn cycle(&self, owner: Seq<char>, platform: Seq<char>) -> BatchCycle {
        self.cycles@[key_index(self.cycles@, platform, owner)]
    }

    pub fn new() -> (r: Self)
        ensures
            r.wf(),
            r.cycles@.len() == 0,
    {
        BatchCycleDao { cycles: Vec::new() }
    }

    /// The cycle of `owner_id` on `platform`; where there is none, one run every
    /// `interval` milliseconds from `now` with `extra_pay_time` is stored first.
    pub fn get_or_insert_default(
        &mut self,
        owner_id: &String,
        platform: &String,
        interval: i64,
        extra_pay_time: i64,
        now: i64,
    ) -> (r: BatchCycle)
        requires
            old(self).wf(),
            i64::MIN <= now + interval <= i64::MAX,
        ensures
            final(self).wf(),
            has_key(old(self).cycles@, platform@, owner_id@) ==> final(self).cycles@ == old(self).cycles@
                && r == old(self).cycle(owner_id@, platform@),
            !has_key(old(self).cycles@, platform@, owner_id@) ==> r == (BatchCycle {
                owner_id: *owner_id,
                platform: *platform,
                created_ts: now,
                updated_ts: now,
                cycle_interval: Some(interval),
                cycle_cron: None,
                cycle_last_process: None,
                cycle_next_process: (now + interval) as i64,
                cycle_max_interval: interval,
                cycle_extra_pay_time: extra_pay_time,
            }) && final(self).cycles@ == old(self).cycles@.push(r),
            has_key(final(self).cycles@, platform@, owner_id@),
            final(self).cycle(owner_id@, platform@) == r,
    {
        match find_key(&self.cycles, platform.as_str(), owner_id.as_str()) {
            Some(i) => {
                proof {
                    lemma_key_index(self.cycles@, platform@, owner_id@, i as int);
                }
                self.cycles[i].duplicate()
            },
            None => {
                let fresh = new_interval_cycle(
                    owner_id.clone(),
                    platform.clone(),
                    interval,
                    extra_pay_time,
                    now,
                );
                let kept = fresh.duplicate();
                proof {
                    lemma_push_new_key(self.cycles@, fresh);
                }
                self.cycles.push(fresh);
                proof {
                    let n = self.cycles@.len() - 1;
                    assert(key_is(self.cycles@[n], platform@, owner_id@));
                    lemma_key_index(self.cycles@, platform@, owner_id@, n);
                }
                kept
            },
        }
    }

    /// Sets up the cycle of `fresh`'s owner and platform anew at `now`: a stored one is
    /// merged with it (`merge_cycle`), else `fresh` is stored. Gives back what is stored.
    pub fn store_cycle(
        &mut self,
        fresh: BatchCycle,
        next_running_time: Option<i64>,
        now: i64,
    ) -> (r: BatchCycle)
        requires
            old(self).wf(),
            has_key(old(self).cycles@, fresh.platform@, fresh.owner_id@) ==> (old(self).cycle(
                fresh.owner_id@,
                fresh.platform@,
            ).cycle_last_process matches Some(l) ==> (fresh.cycle_interval matches Some(i)
                ==> i64::MIN <= l + i <= i64::MAX)),
        ensures
            final(self).wf(),
            has_key(old(self).cycles@, fresh.platform@, fresh.owner_id@) ==> {
                let k = key_index(old(self).cycles@, fresh.platform@, fresh.owner_id@);
                &&& r == (BatchCycle {
                    updated_ts: now,
                    cycle_interval: fresh.cycle_interval,
                    cycle_cron: fresh.cycle_cron,
                    cycle_next_process: merged_next(old(self).cycles@[k], fresh, next_running_time),
                    cycle_max_interval: fresh.cycle_max_interval,
                    cycle_extra_pay_time: fresh.cycle_extra_pay_time,
                    ..old(self).cycles@[k]
                })
                &&& final(self).cycles@ == old(self).cycles@.update(k, r)
            },
            !has_key(old(self).cycles@, fresh.platform@, fresh.owner_id@) ==> r == fresh
                && final(self).cycles@ == old(self).cycles@.push(fresh),
    {
        match find_key(&self.cycles, fresh.platform.as_str(), fresh.owner_id.as_str()) {
            Some(i) => {
                proof {
                    lemma_key_index(self.cycles@, fresh.platform@, fresh.owner_id@, i as int);
                }
                let merged = merge_cycle(&self.cycles[i], &fresh, next_running_time, now);
                let kept = merged.duplicate();
                proof {
                    lemma_update_same_key(self.cycles@, i as int, merged);
                }
                self.cycles.set(i, merged);
                kept
            },
            None => {
                let kept = fresh.duplicate();
                proof {
                    lemma_push_new_key(self.cycles@, fresh);
                }
                self.cycles.push(fresh);
                kept
            },
        }
    }

    /// Sets up the cycle of `owner_id` on `platform` at `now` from a request: the fresh
    /// cycle that `requested_cycle` gives goes through `store_cycle`; a request that gives
    /// neither an interval nor a cron schedule, or whose schedule has no next time, is
    /// refused and nothing is stored. The cycle pays `safe_payout` after processing, or
    /// `default_extra_pay_time` where the request gives none; `cron_next` is what the cron
    /// schedule says of the time after `now`.
    pub fn create_or_update(
        &mut self,
        owner_id: String,
        platform: String,
        interval: Option<i64>,
        cron: Option<String>,
        safe_payout: Option<i64>,
        default_extra_pay_time: i64,
        cron_next: &CronNext,
        next_running_time: Option<i64>,
        now: i64,
    ) -> (r: DbResult<BatchCycle>)
        requires
            old(self).wf(),
            interval matches Some(i) ==> i64::MIN <= now + i <= i64::MAX,
            interval matches Some(i) ==> (has_key(old(self).cycles@, platform@, owner_id@) ==> (old(
                self,
            ).cycle(owner_id@, platform@).cycle_last_process matches Some(l) ==> i64::MIN <= l + i
                <= i64::MAX)),
            interval is None && cron is Some ==> (*cron_next matches CronNext::At(t) ==> i64::MIN <= t
                - now <= i64::MAX),
        ensures
            final(self).wf(),
            match requested_cycle(
                owner_id,
                platform,
                interval,
                cron,
                match safe_payout {
                    Some(p) => p,
                    None => default_extra_pay_time,
                },
                *cron_next,
                now,
            ) {
                Err(m) => r matches Err(DbError::Query(t)) && t@ == m && final(self).cycles@ == old(
                    self,
                ).cycles@,
                Ok(fresh) => r matches Ok(c) && if has_key(old(self).cycles@, platform@, owner_id@) {
                    let k = key_index(old(self).cycles@, platform@, owner_id@);
                    &&& c == (BatchCycle {
                        updated_ts: now,
                        cycle_interval: fresh.cycle_interval,
                        cycle_cron: fresh.cycle_cron,
                        cycle_next_process: merged_next(old(self).cycles@[k], fresh, next_running_time),
                        cycle_max_interval: fresh.cycle_max_interval,
                        cycle_extra_pay_time: fresh.cycle_extra_pay_time,
                        ..old(self).cycles@[k]
                    })
                    &&& final(self).cycles@ == old(self).cycles@.update(k, c)
                } else {
                    c == fresh && final(self).cycles@ == old(self).cycles@.push(fresh)
                },
            },
    {
        let extra_pay_time = match safe_payout {
            Some(p) => p,
            None => default_extra_pay_time,
        };
        let fresh = match choose_cycle_source(interval, cron) {
            Err(e) => {
                return Err(e);
            },
            Ok(CycleSource::Interval(i)) => new_interval_cycle(owner_id, platform, i, extra_pay_time, now),
            Ok(CycleSource::Cron(c)) => match cron_next {
                CronNext::Invalid(e) => {
                    return Err(DbError::Query(concat("Error creating batch cycle based on cron ", e.as_str())));
                },
                CronNext::NoUpcoming => {
                    return Err(DbError::Query(concat("Error creating batch cycle based on cron ", c.as_str())));
                },
                CronNext::At(t) => new_cron_cycle(owner_id, platform, c, *t, extra_pay_time, now),
            },
        };
        Ok(self.store_cycle(fresh, next_running_time, now))
    }

    /// Records that the payments of `owner_id` on `platform` were processed at `now`
    /// (`cycle_after_process`), on the cycle that `get_or_insert_default` gives. Gives back
    /// the cycle with its next time; a cron schedule that fails leaves the stored cycle as
    /// `get_or_insert_default` left it.
    pub fn mark_process_and_next(
        &mut self,
        owner_id: &String,
        platform: &String,
        interval: i64,
        extra_pay_time: i64,
        now: i64,
        cron_next: &CronNext,
    ) -> (r: DbResult<BatchCycle>)
        requires
            old(self).wf(),
            i64::MIN <= now + interval <= i64::MAX,
            has_key(old(self).cycles@, platform@, owner_id@) ==> (old(self).cycle(
                owner_id@,
                platform@,
            ).cycle_interval matches Some(i) ==> i64::MIN <= now + i <= i64::MAX),
        ensures
            final(self).wf(),
            has_key(final(self).cycles@, platform@, owner_id@),
            ({
                let e = if has_key(old(self).cycles@, platform@, owner_id@) {
                    old(self).cycle(owner_id@, platform@)
                } else {
                    BatchCycle {
                        owner_id: *owner_id,
                        platform: *platform,
                        created_ts: now,
                        updated_ts: now,
                        cycle_interval: Some(interval),
                        cycle_cron: None,
                        cycle_last_process: None,
                        cycle_next_process: (now + interval) as i64,
                        cycle_max_interval: interval,
                        cycle_extra_pay_time: extra_pay_time,
                    }
                };
                let k = key_index(final(self).cycles@, platform@, owner_id@);
                let before = if has_key(old(self).cycles@, platform@, owner_id@) {
                    old(self).cycles@
                } else {
                    old(self).cycles@.push(e)
                };
                match cycle_outcome(e, now, *cron_next) {
                    Ok(next) => r matches Ok(returned) && returned == next
                        && final(self).cycles@ == before.update(
                        k,
                        BatchCycle { cycle_last_process: Some(now), ..next },
                    ),
                    Err(m) => r matches Err(DbError::Query(t)) && t@ == m && final(self).cycles@ == before,
                }
            }),
    {
        let entry = self.get_or_insert_default(owner_id, platform, interval, extra_pay_time, now);
        let i = match find_key(&self.cycles, platform.as_str(), owner_id.as_str()) {
            Some(i) => i,
            None => {
                return Err(DbError::Query("Failed to insert default batch cycle".to_string()));
            },
        };
        proof {
            lemma_key_index(self.cycles@, platform@, owner_id@, i as int);
        }
        let ghost before = self.cycles@;
        match cycle_after_process(&entry, now, cron_next) {
            Ok((stored, returned)) => {
                proof {
                    lemma_update_same_key(self.cycles@, i as int, stored);
                }
                self.cycles.set(i, stored);
                proof {
                    assert(key_is(self.cycles@[i as int], platform@, owner_id@));
                    lemma_key_index(self.cycles@, platform@, owner_id@, i as int);
                }
                Ok(returned)
            },
            Err(e) => {
                proof {
                    assert(self.cycles@ == before);
                }
                Err(e)
            },
        }
    }
}

/// What `cycle_after_process` makes of `entry`: the cycle handed back, or the refusal's text.
pub open spec fn cycle_outcome(entry: BatchCycle, now: i64, cron_next: CronNext) -> Result<BatchCycle, Seq<char>> {
    match entry.cycle_interval {
        Some(i) => Ok(BatchCycle { cycle_next_process: (now + i) as i64, ..entry }),
        None => match entry.cycle_cron {
            None => Ok(entry),
            Some(c) => match cron_next {
                CronNext::Invalid(e) => Err("Failed to parse cron expression: "@ + c@ + " "@ + e@),
                CronNext::NoUpcoming => Err("Failed to get next running time for cron expression: "@ + c@),
                CronNext::At(t) => Ok(BatchCycle { cycle_next_process: t, ..entry }),
            },
        },
    }
}

} // verus!
