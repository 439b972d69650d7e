//! The timer, what reads of event descriptors mean, and what is logged of a run.
use crate::config::Options;
use crate::daemon::state::CleanupSummary;
use crate::logger::{
    lemma_none_missing, missing_fields, schema_fields, Field, FieldValue, LogEventSchema,
};
use crate::sys::{EAGAIN, EINTR};
use vstd::prelude::*;

verus! {

/// The setting of the timer for a deadline: seconds and nanoseconds, both zero for none.
#[derive(Debug, Clone, Copy, PartialEq, Eq, Structural)]
pub struct TimerSpec {
    pub sec: u128,
    pub nsec: u32,
}

/// How long the timer is to run: up to the deadline, but at least one nanosecond.
pub open spec fn timer_nanos(now: u64, deadline: u128) -> int {
    if deadline > now {
        deadline - now
    } else {
        1
    }
}

/// The setting of the timer for a deadline. A deadline that has come is no reason to stop the
/// timer: it fires at once.
pub fn timer_spec(now: u64, deadline: Option<u128>) -> (r: TimerSpec)
    ensures
        match deadline {
            None => r == (TimerSpec { sec: 0, nsec: 0 }),
            Some(d) => {
                &&& r.nsec < 1_000_000_000
                &&& r.sec * 1_000_000_000 + r.nsec == timer_nanos(now, d)
                &&& r.sec > 0 || r.nsec > 0
            },
        },
{
    match deadline {
        None => TimerSpec { sec: 0, nsec: 0 },
        Some(d) => {
            let now: u128 = now as u128;
            let nanos: u128 = if d > now {
                d - now
            } else {
                1
            };
            TimerSpec { sec: nanos / 1_000_000_000, nsec: (nanos % 1_000_000_000) as u32 }
        },
    }
}

/// What a read of an event descriptor means.
#[derive(Debug, Clone, Copy, PartialEq, Eq, Structural)]
pub enum DrainStep {
    /// One whole record was read: take it and read again.
    Record,
    /// A signal interrupted the read: read again.
    Retry,
    /// There is nothing more to read.
    Done,
    /// The read failed.
    Failed,
}

/// Reads the return value of `read` on an event descriptor whose records have `size` bytes.
pub fn drain_step(rc: i64, size: i64, errno: Option<i32>) -> (r: DrainStep)
    requires
        size > 0,
    ensures
        r == (if rc == size {
            DrainStep::Record
        } else if rc >= 0 || errno == Some(EAGAIN) {
            DrainStep::Done
        } else if errno == Some(EINTR) {
            DrainStep::Retry
        } else {
            DrainStep::Failed
        }),
        r == DrainStep::Record <==> rc == size,
        r == DrainStep::Retry <==> rc < 0 && errno == Some(4i32),
        r == DrainStep::Failed <==> rc < 0 && errno != Some(4i32) && errno != Some(11i32),
{
    if rc == size {
        return DrainStep::Record;
    }
    if rc >= 0 {
        return DrainStep::Done;
    }
    match errno {
        Some(code) => if code == EAGAIN {
            DrainStep::Done
        } else if code == EINTR {
            DrainStep::Retry
        } else {
            DrainStep::Failed
        },
        None => DrainStep::Failed,
    }
}

/// What is logged when the daemon starts.
pub fn started_fields(opts: &Options) -> (r: Vec<Field<'static>>)
    ensures
        r@ == seq![
            ("pref", FieldValue::<'static>::U32(opts.pref)),
            ("table_id", FieldValue::<'static>::U32(opts.table_id)),
            ("ipv6_enabled", FieldValue::<'static>::Bool(opts.ipv6)),
            ("debounce_ms", FieldValue::<'static>::U64(opts.debounce_ms)),
            ("debounce_max_ms", FieldValue::<'static>::U64(opts.debounce_max_ms)),
            ("batch_max", FieldValue::<'static>::Usize(opts.batch_max)),
            ("count_cleanup_removed", FieldValue::<'static>::Usize(0)),
            ("count_resync_add", FieldValue::<'static>::Usize(0)),
            ("count_resync_del", FieldValue::<'static>::Usize(0)),
            ("count_resync_failed", FieldValue::<'static>::Usize(0)),
        ],
        missing_fields(schema_fields(LogEventSchema::DaemonStarted), r@).len() == 0,
{
    let r: Vec<Field<'static>> = vec![
        ("pref", FieldValue::U32(opts.pref)),
        ("table_id", FieldValue::U32(opts.table_id)),
        ("ipv6_enabled", FieldValue::Bool(opts.ipv6)),
        ("debounce_ms", FieldValue::U64(opts.debounce_ms)),
        ("debounce_max_ms", FieldValue::U64(opts.debounce_max_ms)),
        ("batch_max", FieldValue::Usize(opts.batch_max)),
        ("count_cleanup_removed", FieldValue::Usize(0)),
        ("count_resync_add", FieldValue::Usize(0)),
        ("count_resync_del", FieldValue::Usize(0)),
        ("count_resync_failed", FieldValue::Usize(0)),
    ];
    proof {
        let required = schema_fields(LogEventSchema::DaemonStarted);
        assert(r@[0].0@ == required[0]);
        assert(r@[1].0@ == required[1]);
        assert(r@[5].0@ == required[2]);
        assert(r@[6].0@ == required[3]);
        assert(r@[7].0@ == required[4]);
        assert(r@[8].0@ == required[5]);
        assert(r@[9].0@ == required[6]);
        lemma_none_missing(required, r@);
    }
    r
}

/// What is logged when the daemon has stopped: how many rules were removed at the end, and how
/// many events were dropped.
pub fn stopped_fields(removed: u128, dropped_events: u64, cleanup: CleanupSummary) -> (r: Vec<
    Field<'static>,
>)
    ensures
        r@ == seq![
            ("count_cleanup_removed", FieldValue::<'static>::U128(removed)),
            ("count_dropped_events", FieldValue::<'static>::U64(dropped_events)),
            ("count_cleanup_noop", FieldValue::<'static>::U128(cleanup.noop)),
            ("count_cleanup_failed", FieldValue::<'static>::U128(cleanup.failed)),
        ],
        missing_fields(schema_fields(LogEventSchema::DaemonStopped), r@).len() == 0,
{
    let r: Vec<Field<'static>> = vec![
        ("count_cleanup_removed", FieldValue::U128(removed)),
        ("count_dropped_events", FieldValue::U64(dropped_events)),
        ("count_cleanup_noop", FieldValue::U128(cleanup.noop)),
        ("count_cleanup_failed", FieldValue::U128(cleanup.failed)),
    ];
    proof {
        let required = schema_fields(LogEventSchema::DaemonStopped);
        assert(r@[0].0@ == required[0]);
        assert(r@[1].0@ == required[1]);
        lemma_none_missing(required, r@);
    }
    r
}

} // verus!
