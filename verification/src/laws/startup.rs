//! What the cleanup at startup has seen of the kernel's rules by the time it is reported as done.
use crate::daemon::maintenance::{
    dump_begun, dump_ended, family_at, family_from, retry_scheduled, send_failed, step,
    with_waiting, Action, Limits, MaintenanceReport,
};
use crate::daemon::state::{CleanupSummary, Core, MaintenanceJob, State};
use crate::netlink::codec::seq_after;
use vstd::prelude::*;

verus! {

/// How far a cleanup at startup has come: the daemon, the family that a dump was last asked for,
/// and the families whose dumps were read to their end since the cleanup began.
pub struct Progress {
    pub core: Core,
    pub state: State,
    pub asked: Option<i32>,
    pub read: Set<i32>,
}

/// What happens while the cleanup goes on.
pub enum Happening {
    /// The daemon takes a step of its maintenance.
    Step { budget: usize, now: u64 },
    /// The dump that was asked for was sent under a number.
    Begun { seq: u32 },
    /// The dump was read to its end; it left the daemon with these keys.
    Ended { core: Core },
    /// Something else happened, which left the job as it was, or had it wait for a batch, or gave
    /// it up.
    Elsewhere { core: Core, state: State },
}

/// Whether something can happen.
pub open spec fn can_happen(p: Progress, h: Happening) -> bool {
    match h {
        Happening::Step { .. } => true,
        Happening::Begun { .. } => {
            &&& p.asked is Some
            &&& p.state.maintenance matches MaintenanceJob::StartupCleanupDumpCollect {
                seq: None,
                ..
            }
        },
        Happening::Ended { .. } => {
            &&& p.asked is Some
            &&& p.state.maintenance matches MaintenanceJob::StartupCleanupDumpCollect {
                family_idx,
                seq: Some(_),
                ..
            } && family_idx <= 1
        },
        Happening::Elsewhere { state, .. } => {
            ||| state.maintenance == p.state.maintenance
            ||| state.maintenance == MaintenanceJob::Idle
            ||| exists|id: u64| state.maintenance == #[trigger] with_waiting(p.state.maintenance, id)
        },
    }
}

/// What comes of it. A step from idleness starts over.
pub open spec fn happened(limits: Limits, p: Progress, h: Happening) -> Progress {
    match h {
        Happening::Step { budget, now } => {
            let r = step(p.core, p.state, budget, limits, now);
            Progress {
                core: r.core,
                state: r.state,
                asked: match r.action {
                    Action::StartDump { family, .. } => Some(family),
                    _ => p.asked,
                },
                read: if p.state.maintenance == MaintenanceJob::Idle {
                    Set::empty()
                } else {
                    p.read
                },
            }
        },
        Happening::Begun { seq } => {
            let (core, state) = dump_begun(p.core, p.state, seq);
            Progress { core, state, ..p }
        },
        Happening::Ended { core } => match p.state.maintenance {
            MaintenanceJob::StartupCleanupDumpCollect { family_idx, batch_id, summary, .. } =>
                Progress {
                    core,
                    state: dump_ended(core, p.state, family_idx, batch_id, summary),
                    asked: None,
                    read: p.read.insert(p.asked->0),
                },
            _ => p,
        },
        Happening::Elsewhere { core, state } => Progress {
            core,
            state,
            asked: if state.maintenance == p.state.maintenance {
                p.asked
            } else {
                None
            },
            ..p
        },
    }
}

/// What comes of several things that happen one after the other.
pub open spec fn all_happened(limits: Limits, p: Progress, hs: Seq<Happening>) -> Progress
    decreases hs.len(),
{
    if hs.len() == 0 {
        p
    } else {
        happened(limits, all_happened(limits, p, hs.drop_last()), hs.last())
    }
}

/// Whether several things can happen one after the other.
pub open spec fn all_can_happen(limits: Limits, p: Progress, hs: Seq<Happening>) -> bool {
    forall|i: int|
        0 <= i < hs.len() ==> can_happen(all_happened(limits, p, hs.take(i)), #[trigger] hs[i])
}

/// What a job shows of the dumps that were read.
spec fn shows_dumps(limits: Limits, p: Progress) -> bool {
    &&& p.read.contains(10) ==> limits.ipv6
    &&& p.asked matches Some(f) ==> f == 2 || f == 10 && limits.ipv6
    &&& match p.state.maintenance {
        MaintenanceJob::StartupCleanupDumpCollect { family_idx, seq, .. } => {
            &&& family_idx <= 2
            &&& family_idx >= 1 ==> p.read.contains(2)
            &&& family_idx >= 2 && limits.ipv6 ==> p.read.contains(10)
            &&& p.asked matches Some(f) ==> f == if family_idx == 0 {
                2i32
            } else {
                10
            }
            &&& seq is Some || p.asked is Some ==> family_idx <= 1
        },
        MaintenanceJob::StartupCleanupDumpApply { next_family_idx, .. } => {
            &&& p.read.contains(2)
            &&& next_family_idx >= 2 && limits.ipv6 ==> p.read.contains(10)
            &&& next_family_idx >= 1
            &&& p.asked is None
        },
        _ => p.asked is None,
    }
}

/// What a step does to a job that collects rules.
#[verifier::rlimit(40)]
proof fn lemma_collecting(
    c: Core,
    s: State,
    budget: usize,
    limits: Limits,
    now: u64,
    family_idx: usize,
    seq: Option<u32>,
)
    requires
        s.maintenance matches MaintenanceJob::StartupCleanupDumpCollect {
            family_idx: i,
            seq: q,
            ..
        } && i == family_idx && q == seq,
        family_idx <= 2,
    ensures
        ({
            let r = step(c, s, budget, limits, now);
            if family_idx == 0 || family_idx == 1 && limits.ipv6 {
                &&& r.state.maintenance == s.maintenance
                &&& r.report is None
                &&& r.action matches Action::StartDump { family, .. } ==> family == (if family_idx
                    == 0 {
                    2i32
                } else {
                    10
                })
            } else {
                &&& !(r.action is StartDump)
                &&& r.state.maintenance == MaintenanceJob::Idle || (r.state.maintenance matches
                    MaintenanceJob::StartupCleanupDumpApply { next_family_idx, .. }
                    && next_family_idx == family_idx + 1)
            }
        }),
{
}

/// What a step does to a job that removes rules that were collected.
#[verifier::rlimit(40)]
proof fn lemma_removing(
    c: Core,
    s: State,
    budget: usize,
    limits: Limits,
    now: u64,
    next_idx: usize,
)
    requires
        s.maintenance matches MaintenanceJob::StartupCleanupDumpApply { next_family_idx, .. }
            && next_family_idx == next_idx,
        next_idx >= 1,
    ensures
        ({
            let r = step(c, s, budget, limits, now);
            &&& !(r.action is StartDump)
            &&& match r.state.maintenance {
                MaintenanceJob::Idle => !(next_idx == 1 && limits.ipv6),
                MaintenanceJob::StartupCleanupDumpCollect { family_idx, seq, .. } => family_idx
                    == next_idx && seq is None && next_idx == 1 && limits.ipv6,
                MaintenanceJob::StartupCleanupDumpApply { next_family_idx, .. } => next_family_idx
                    == next_idx,
                _ => false,
            }
            &&& r.report is Some ==> r.state.maintenance == MaintenanceJob::Idle
        }),
{
}

/// What a step does to any other job.
#[verifier::rlimit(40)]
proof fn lemma_other_jobs(c: Core, s: State, budget: usize, limits: Limits, now: u64)
    requires
        !(s.maintenance is StartupCleanupDumpCollect),
        !(s.maintenance is StartupCleanupDumpApply),
    ensures
        ({
            let r = step(c, s, budget, limits, now);
            &&& !(r.action is StartDump)
            &&& !(r.state.maintenance is StartupCleanupDumpApply)
            &&& r.state.maintenance matches MaintenanceJob::StartupCleanupDumpCollect {
                family_idx,
                seq,
                ..
            } ==> family_idx == 0 && seq is None && s.maintenance == MaintenanceJob::Idle
            &&& !(r.report matches Some(MaintenanceReport::StartupCleanup { .. }))
        }),
{
    match s.maintenance {
        MaintenanceJob::Idle => {},
        MaintenanceJob::ResyncBuild { .. } => {},
        MaintenanceJob::ResyncApply { .. } => {},
        _ => {},
    }
}

/// A step keeps what a job shows, and reports only what it shows.
proof fn lemma_step_shows_dumps(limits: Limits, p: Progress, budget: usize, now: u64)
    requires
        shows_dumps(limits, p),
    ensures
        shows_dumps(limits, happened(limits, p, Happening::Step { budget, now })),
        step(p.core, p.state, budget, limits, now).report matches Some(
            MaintenanceReport::StartupCleanup { .. },
        ) ==> p.read.contains(2) && (limits.ipv6 ==> p.read.contains(10)),
{
    match p.state.maintenance {
        MaintenanceJob::StartupCleanupDumpCollect { family_idx, seq, .. } => {
            lemma_collecting(p.core, p.state, budget, limits, now, family_idx, seq);
        },
        MaintenanceJob::StartupCleanupDumpApply { next_family_idx, .. } => {
            lemma_removing(p.core, p.state, budget, limits, now, next_family_idx);
        },
        _ => {
            lemma_other_jobs(p.core, p.state, budget, limits, now);
        },
    }
}

/// What happens keeps what a job shows.
proof fn lemma_shows_dumps(limits: Limits, p: Progress, h: Happening)
    requires
        shows_dumps(limits, p),
        can_happen(p, h),
    ensures
        shows_dumps(limits, happened(limits, p, h)),
{
    match h {
        Happening::Step { budget, now } => {
            lemma_step_shows_dumps(limits, p, budget, now);
        },
        Happening::Begun { seq } => {},
        Happening::Ended { core } => {},
        Happening::Elsewhere { core, state } => {
            if state.maintenance != p.state.maintenance && state.maintenance
                != MaintenanceJob::Idle {
                let id = choose|id: u64|
                    state.maintenance == #[trigger] with_waiting(p.state.maintenance, id);
                assert(state.maintenance == with_waiting(p.state.maintenance, id));
            }
        },
    }
}

/// Several things keep what a job shows.
proof fn lemma_all_show_dumps(limits: Limits, p: Progress, hs: Seq<Happening>)
    requires
        shows_dumps(limits, p),
        all_can_happen(limits, p, hs),
    ensures
        shows_dumps(limits, all_happened(limits, p, hs)),
    decreases hs.len(),
{
    if hs.len() > 0 {
        let fewer = hs.drop_last();
        assert forall|i: int| 0 <= i < fewer.len() implies can_happen(
            all_happened(limits, p, fewer.take(i)),
            #[trigger] fewer[i],
        ) by {
            assert(fewer.take(i) =~= hs.take(i));
            assert(fewer[i] == hs[i]);
        }
        lemma_all_show_dumps(limits, p, fewer);
        assert(hs.take(hs.len() - 1) =~= fewer);
        assert(hs[hs.len() - 1] == hs.last());
        lemma_shows_dumps(limits, all_happened(limits, p, fewer), hs.last());
    }
}

/// Whatever happens from idleness on: once the cleanup at startup is reported as done, a dump of
/// IPv4 rules (2) was asked for and read to its end, and, with IPv6 enabled, a dump of IPv6 rules
/// (10) too. With IPv6 disabled no dump of IPv6 rules was read.
pub proof fn startup_cleanup_has_read_every_family(
    limits: Limits,
    p: Progress,
    hs: Seq<Happening>,
    budget: usize,
    now: u64,
)
    requires
        p.state.maintenance == MaintenanceJob::Idle,
        p.asked is None,
        p.read == Set::<i32>::empty(),
        all_can_happen(limits, p, hs),
    ensures
        ({
            let q = all_happened(limits, p, hs);
            let r = step(q.core, q.state, budget, limits, now);
            &&& r.report matches Some(MaintenanceReport::StartupCleanup { .. }) ==> q.read.contains(
                2,
            ) && (limits.ipv6 ==> q.read.contains(10))
            &&& !limits.ipv6 ==> !q.read.contains(10)
        }),
{
    lemma_all_show_dumps(limits, p, hs);
    lemma_step_shows_dumps(limits, all_happened(limits, p, hs), budget, now);
}

/// Only a job that collects rules asks for dumps.
proof fn lemma_only_collecting_dumps(c: Core, s: State, budget: usize, limits: Limits, now: u64)
    ensures
        step(c, s, budget, limits, now).action is StartDump || step(
            c,
            s,
            budget,
            limits,
            now,
        ).action is PollDump ==> s.maintenance is StartupCleanupDumpCollect,
{
    match s.maintenance {
        MaintenanceJob::Idle => {},
        MaintenanceJob::StartupCleanupDumpCollect { .. } => {},
        MaintenanceJob::StartupCleanupDumpApply { .. } => {},
        MaintenanceJob::ResyncBuild { .. } => {},
        MaintenanceJob::ResyncApply { .. } => {},
        MaintenanceJob::CleanupTracked { .. } => {},
    }
}

/// A step asks for, or goes on reading, a dump of IPv4 rules (2) or, with IPv6 enabled, of IPv6
/// rules (10), and of nothing else; the first family is IPv4. The rules of the dump that is read
/// are looked for in the family that was asked for.
#[verifier::rlimit(40)]
pub proof fn dumps_are_of_the_families_in_use(
    c: Core,
    s: State,
    budget: usize,
    limits: Limits,
    now: u64,
    idx: int,
)
    ensures
        step(c, s, budget, limits, now).action matches Action::StartDump { family, .. } ==> {
            &&& family == 2 || family == 10 && limits.ipv6
            &&& s.maintenance matches MaintenanceJob::StartupCleanupDumpCollect { family_idx, .. }
                && (family == 2 <==> family_idx == 0) && family == family_at(family_idx as int)
        },
        step(c, s, budget, limits, now).action matches Action::PollDump { family, seq } ==> {
            &&& family == 2 || family == 10 && limits.ipv6
            &&& s.maintenance matches MaintenanceJob::StartupCleanupDumpCollect {
                family_idx,
                seq: Some(q),
                ..
            } && (family == 2 <==> family_idx == 0) && family == family_at(family_idx as int)
                && seq == q
        },
        family_from(0, limits.ipv6) == Some((0int, 2i32)),
        family_from(1, true) == Some((1int, 10i32)),
        family_from(1, false) is None,
        idx >= 2 ==> family_from(idx, limits.ipv6) is None,
{
    lemma_only_collecting_dumps(c, s, budget, limits, now);
}

/// A cleanup at startup that fails is tried again half a second later, three times; after the
/// fourth failure it is given up. Either way the rules are compared with the addresses next, what
/// was collected is forgotten, and the rules that are owned stay so.
pub proof fn startup_cleanup_is_tried_again(c: Core, s: State, now: u64)
    ensures
        ({
            let (core, state) = retry_scheduled(c, s, now);
            let again = s.startup_cleanup_retry_count < 3;
            &&& core.startup.len() == 0
            &&& core.owned == c.owned && core.next_seq == c.next_seq
            &&& state.maintenance == MaintenanceJob::Idle
            &&& state.resync_requested
            &&& state.startup_cleanup_started_at is None
            &&& state.pending == s.pending && state.inflight == s.inflight
            &&& state.shutdown_requested == s.shutdown_requested
            &&& state.startup_cleanup_pending <==> again
            &&& again ==> state.startup_cleanup_retry_count == s.startup_cleanup_retry_count + 1
                && state.startup_cleanup_retry_deadline is Some
                && state.startup_cleanup_retry_deadline.unwrap() - now == 500_000_000
            &&& !again ==> state.startup_cleanup_retry_deadline is None
        }),
        s.startup_cleanup_retry_count == 0 ==> ({
            let one = retry_scheduled(c, s, now).1;
            let two = retry_scheduled(c, one, now).1;
            let three = retry_scheduled(c, two, now).1;
            let four = retry_scheduled(c, three, now).1;
            one.startup_cleanup_pending && two.startup_cleanup_pending
                && three.startup_cleanup_pending && !four.startup_cleanup_pending
        }),
{
}

/// A cleanup waits for its time to be tried again, starts with nothing collected, and notes when
/// it started; what it reports is how long it took since.
pub proof fn startup_cleanup_starts_when_it_is_due(
    c: Core,
    s: State,
    budget: usize,
    limits: Limits,
    now: u64,
    later: u64,
)
    requires
        s.maintenance == MaintenanceJob::Idle,
        s.startup_cleanup_pending,
        !s.shutdown_requested,
    ensures
        ({
            let r = step(c, s, budget, limits, now);
            &&& (s.startup_cleanup_retry_deadline matches Some(d) && now < d) ==> r.state == s
                && r.core == c && r.action == Action::Yield && r.budget == budget
            &&& (s.startup_cleanup_retry_deadline matches Some(d) ==> now >= d) ==> ({
                &&& r.action == Action::Again
                &&& r.budget == budget
                &&& r.core.startup.len() == 0
                &&& r.core.owned == c.owned
                &&& !r.state.startup_cleanup_pending
                &&& r.state.startup_cleanup_retry_deadline is None
                &&& r.state.startup_cleanup_started_at == Some(now)
                &&& r.state.maintenance matches MaintenanceJob::StartupCleanupDumpCollect {
                    family_idx,
                    seq,
                    batch_id,
                    summary,
                } && family_idx == 0 && seq is None && batch_id == s.batch_id && summary.removed
                    == 0 && summary.noop == 0 && summary.failed == 0
            })
        }),
{
}

/// Once the cleanup at startup is done: the rules are compared with the addresses next, no failure
/// is remembered, and the report says what was removed, and how long it took since the start.
#[verifier::rlimit(40)]
pub proof fn startup_cleanup_is_reported(
    c: Core,
    s: State,
    budget: usize,
    limits: Limits,
    now: u64,
)
    ensures
        ({
            let r = step(c, s, budget, limits, now);
            r.report matches Some(MaintenanceReport::StartupCleanup { summary, duration }) ==> {
                &&& r.state.resync_requested
                &&& r.state.startup_cleanup_retry_count == 0
                &&& r.state.startup_cleanup_started_at is None
                &&& r.state.maintenance == MaintenanceJob::Idle
                &&& r.core.startup.len() == 0
                &&& r.action == Action::Again
                &&& s.startup_cleanup_started_at is None ==> duration == 0
                &&& s.startup_cleanup_started_at matches Some(t) ==> (now >= t ==> duration == now
                    - t) && (now < t ==> duration == 0)
                &&& s.maintenance matches MaintenanceJob::StartupCleanupDumpCollect {
                    summary: sum,
                    ..
                } ==> summary == sum && c.startup.len() == 0
                &&& s.maintenance matches MaintenanceJob::StartupCleanupDumpApply {
                    summary: sum,
                    waiting_batch_id: None,
                    ..
                } ==> summary == sum
                &&& s.maintenance matches MaintenanceJob::StartupCleanupDumpApply {
                    summary: sum,
                    waiting_batch_id: Some(_),
                    ..
                } ==> (s.completed_batch matches Some(d) ==> (sum.removed + d.result.deleted
                    <= u128::MAX ==> summary.removed == sum.removed + d.result.deleted) && (
                sum.noop + d.result.noop <= u128::MAX ==> summary.noop == sum.noop
                    + d.result.noop) && (sum.failed + d.result.failed <= u128::MAX
                    ==> summary.failed == sum.failed + d.result.failed))
            }
        }),
{
}

/// A batch of deletions that cannot be sent counts as a failed cleanup at startup; another job is
/// given up.
pub proof fn unsent_batch_ends_the_job(c: Core, s: State, now: u64)
    ensures
        send_failed(c, s, now).1.maintenance == MaintenanceJob::Idle,
        s.maintenance is StartupCleanupDumpApply ==> send_failed(c, s, now) == retry_scheduled(
            c,
            s,
            now,
        ),
        !(s.maintenance is StartupCleanupDumpApply) ==> send_failed(c, s, now).0 == c
            && send_failed(c, s, now).1.startup_cleanup_pending == s.startup_cleanup_pending
            && send_failed(c, s, now).1.pending == s.pending && send_failed(
            c,
            s,
            now,
        ).1.resync_requested == s.resync_requested,
{
}

/// A dump is asked for under the next number, which is then used up, and read on under the number it
/// was begun with; either costs one of the budget and changes nothing else.
#[verifier::rlimit(40)]
pub proof fn dumps_are_numbered(c: Core, s: State, budget: usize, limits: Limits, now: u64)
    requires
        s.maintenance is StartupCleanupDumpCollect,
        step(c, s, budget, limits, now).action is StartDump || step(
            c,
            s,
            budget,
            limits,
            now,
        ).action is PollDump,
    ensures
        ({
            let r = step(c, s, budget, limits, now);
            let first = s.maintenance->StartupCleanupDumpCollect_seq is None;
            &&& r.state == s && r.report is None
            &&& budget > 0 ==> r.budget + 1 == budget
            &&& budget == 0 ==> r.budget == 0
            &&& r.action is StartDump <==> first
            &&& r.action matches Action::StartDump { seq, .. } ==> seq == (if c.next_seq == 0 {
                1
            } else {
                c.next_seq
            }) && r.core.next_seq == seq_after(c.next_seq, 1) && r.core.owned == c.owned
                && r.core.startup == c.startup && r.core.dump_seen == c.dump_seen
            &&& r.action is PollDump ==> r.core == c
        }),
{
}

/// Every step of a cleanup at startup that collects rules costs one of the budget. Once no family is
/// left, what was collected and not yet removed is removed from its start, and where there is
/// nothing the cleanup is done.
#[verifier::rlimit(40)]
pub proof fn collecting_ends_with_the_last_family(
    c: Core,
    s: State,
    budget: usize,
    limits: Limits,
    now: u64,
    family_idx: usize,
    seq: Option<u32>,
    batch_id: u64,
    summary: CleanupSummary,
)
    requires
        s.maintenance == (MaintenanceJob::StartupCleanupDumpCollect {
            family_idx,
            seq,
            batch_id,
            summary,
        }),
        family_idx <= 2,
    ensures
        ({
            let r = step(c, s, budget, limits, now);
            let over = family_idx == 2 || family_idx == 1 && !limits.ipv6;
            &&& budget > 0 ==> r.budget + 1 == budget
            &&& budget == 0 ==> r.budget == 0
            &&& over && c.startup.len() == 0 ==> r.core == c && r.state.batch_id == batch_id && (
            r.report matches Some(MaintenanceReport::StartupCleanup { summary: sum, .. }) && sum
                == summary)
            &&& over && c.startup.len() > 0 ==> r.core == c && r.report is None
                && r.state.maintenance == (MaintenanceJob::StartupCleanupDumpApply {
                offset: 0,
                batch_id,
                summary,
                waiting_batch_id: None,
                next_family_idx: (family_idx + 1) as usize,
            })
            &&& over ==> r.action == Action::Again
        }),
{
}

} // verus!
