//! The expiration side of the store: a time-ordered queue of keys, each
//! scheduled to come due after the configured timeout.
//!
//! The queue itself is `tokio_util::time::DelayQueue`; this module gives it a
//! mathematical face. `dq_entries` names, for a queue value, the map from live
//! handle to the key scheduled under it. Every call into the queue goes
//! through a wrapper below whose contract says how it moves that map.

use vstd::prelude::*;

verus! {

/// A deadline handle minted by `DelayQueue::insert`; it identifies one
/// scheduled expiration and is consumed by `remove` or by expiry.
#[verifier::external_type_specification]
#[verifier::external_body]
pub struct ExDelayKey(tokio_util::time::delay_queue::Key);

/// The deadline-ordered queue of scheduled expirations.
#[verifier::external_type_specification]
#[verifier::external_body]
#[verifier::reject_recursive_types(T)]
pub struct ExDelayQueue<T>(tokio_util::time::DelayQueue<T>);

/// The task context handed to a suspension-capable drain step.
#[verifier::external_type_specification]
#[verifier::external_body]
pub struct ExContext<'a>(core::task::Context<'a>);

/// The live contents of a delay queue: which key is scheduled under each
/// still-valid handle. Deadlines are kept by the queue itself and depend on
/// the clock, so they are not part of this abstraction.
pub uninterp spec fn dq_entries(
    q: tokio_util::time::DelayQueue<u64>,
) -> Map<tokio_util::time::delay_queue::Key, u64>;

/// The contents of a queue holding no entries.
pub open spec fn dq_empty() -> Map<tokio_util::time::delay_queue::Key, u64> {
    Map::empty()
}

/// The timer wheel behind the queue spans a little under 2^36 milliseconds;
/// deadlines up to 2^35 milliseconds — about 13 months — are always accepted.
pub const MAX_TIMEOUT_MS: u64 = 0x8_0000_0000;

/// The queue's slab refuses to grow past 2^30 - 1 entries; inserting below
/// this count is always accepted.
pub const MAX_QUEUE_ENTRIES: u64 = 0x3FFF_FFFF;

/// One step of draining the queue.
pub enum DrainStep {
    /// An entry's deadline has passed: its handle and its key, both now
    /// removed from the queue.
    Expired(tokio_util::time::delay_queue::Key, u64),
    /// The queue holds no entries at all.
    Empty,
    /// Entries remain but none is due yet; the task context has been
    /// registered for a wake-up at the next deadline.
    NotReady,
}

/// Relies on `tokio_util::time::DelayQueue::new`: a freshly created queue
/// holds no entries.
#[verifier::external_body]
pub(crate) fn dq_new() -> (q: tokio_util::time::DelayQueue<u64>)
    ensures
        dq_entries(q) == dq_empty(),
{
    tokio_util::time::DelayQueue::new()
}

/// Relies on `tokio_util::time::DelayQueue::insert`: schedules `key` to come
/// due after `timeout_ms` milliseconds and returns a handle distinct from
/// every handle currently live in the queue (the slab hands out a vacant
/// slot). Its two input-dependent panics — a timeout beyond the timer
/// wheel's range, and a slab already at its maximum entry count — are ruled
/// out by the preconditions. Two environmental panics remain that no
/// precondition can state: the call needs a timer driver, so the surrounding
/// program must run it inside a tokio runtime; and after years of process
/// uptime the wheel's elapsed clock can lag the real clock far enough that
/// even a small timeout lands beyond the wheel's range.
#[verifier::external_body]
pub(crate) fn dq_insert(
    q: &mut tokio_util::time::DelayQueue<u64>,
    key: u64,
    timeout_ms: u64,
) -> (h: tokio_util::time::delay_queue::Key)
    requires
        timeout_ms <= MAX_TIMEOUT_MS,
        dq_entries(*old(q)).dom().len() < MAX_QUEUE_ENTRIES,
    ensures
        !dq_entries(*old(q)).dom().contains(h),
        dq_entries(*final(q)) == dq_entries(*old(q)).insert(h, key),
{
    q.insert(key, std::time::Duration::from_millis(timeout_ms))
}

/// Relies on `tokio_util::time::DelayQueue::remove`: removes the entry under
/// `h` and returns its key. Panics when `h` is not live, which the
/// precondition rules out; rescheduling its timer needs a tokio runtime.
#[verifier::external_body]
pub(crate) fn dq_remove(
    q: &mut tokio_util::time::DelayQueue<u64>,
    h: tokio_util::time::delay_queue::Key,
) -> (key: u64)
    requires
        dq_entries(*old(q)).dom().contains(h),
    ensures
        key == dq_entries(*old(q))[h],
        dq_entries(*final(q)) == dq_entries(*old(q)).remove(h),
{
    q.remove(&h).into_inner()
}

/// Relies on `tokio_util::time::DelayQueue::reset`: moves the deadline of the
/// entry under `h` to `timeout_ms` milliseconds from now, leaving the queue's
/// handle-to-key contents unchanged. Panics when `h` is not live or the
/// timeout is beyond the wheel's range; the preconditions rule both out,
/// up to the same environmental caveats as for insertion (a tokio runtime
/// must be current, and the wheel's elapsed clock must not lag by years).
#[verifier::external_body]
pub(crate) fn dq_reset(
    q: &mut tokio_util::time::DelayQueue<u64>,
    h: tokio_util::time::delay_queue::Key,
    timeout_ms: u64,
)
    requires
        dq_entries(*old(q)).dom().contains(h),
        timeout_ms <= MAX_TIMEOUT_MS,
    ensures
        dq_entries(*final(q)) == dq_entries(*old(q)),
{
    q.reset(&h, std::time::Duration::from_millis(timeout_ms))
}

/// Relies on `tokio_util::time::DelayQueue::clear`: removes every entry.
#[verifier::external_body]
pub(crate) fn dq_clear(q: &mut tokio_util::time::DelayQueue<u64>)
    ensures
        dq_entries(*final(q)) == dq_empty(),
{
    q.clear()
}

/// Relies on `tokio_util::time::DelayQueue::poll_expired`: pulls out one
/// entry whose deadline has passed, or reports that the queue is exhausted
/// (`Ready(None)` comes only when no entries remain), or that none is due yet
/// (`Pending`, after registering the context's waker — an answer possible
/// only while some entry is live, since only a pending timer produces it).
/// Which answer comes back depends on the clock, so the contract only
/// relates each answer to the queue's contents. Polling a live timer needs a
/// tokio runtime.
#[verifier::external_body]
pub(crate) fn dq_poll_one(
    q: &mut tokio_util::time::DelayQueue<u64>,
    cx: &mut core::task::Context<'_>,
) -> (step: DrainStep)
    ensures
        (step matches DrainStep::Expired(h, key) ==> {
            &&& dq_entries(*old(q)).dom().contains(h)
            &&& key == dq_entries(*old(q))[h]
            &&& dq_entries(*final(q)) == dq_entries(*old(q)).remove(h)
        }),
        step is Empty ==> dq_entries(*final(q)) == dq_entries(*old(q))
            && dq_entries(*old(q)) == dq_empty(),
        step is NotReady ==> dq_entries(*final(q)) == dq_entries(*old(q))
            && (exists|h: tokio_util::time::delay_queue::Key|
            #[trigger] dq_entries(*old(q)).dom().contains(h)),
{
    match q.poll_expired(cx) {
        std::task::Poll::Ready(Some(e)) => {
            let h = e.key();
            DrainStep::Expired(h, e.into_inner())
        },
        std::task::Poll::Ready(None) => DrainStep::Empty,
        std::task::Poll::Pending => DrainStep::NotReady,
    }
}

/// Relies on `futures::task::noop_waker_ref`: a task context whose waker
/// ignores wake calls, for draining the queue eagerly from synchronous code.
#[verifier::external_body]
pub(crate) fn noop_context() -> (cx: core::task::Context<'static>) {
    core::task::Context::from_waker(futures::task::noop_waker_ref())
}

} // verus!
