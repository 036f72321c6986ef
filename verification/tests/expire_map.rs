//! Behavioural tests for the sliding-TTL map, driven against the real clock.
//!
//! The expiration queue registers with tokio's timer, so every operation that
//! schedules or drains a deadline runs inside a current-thread runtime.

use expire_map::ExpireMap;

fn rt() -> tokio::runtime::Runtime {
    tokio::runtime::Builder::new_current_thread()
        .enable_time()
        .build()
        .unwrap()
}

async fn wait_ms(ms: u64) {
    tokio::time::sleep(std::time::Duration::from_millis(ms)).await;
}

#[test]
fn insert_and_get_roundtrip() {
    rt().block_on(async {
        let mut m = ExpireMap::new(60_000);
        assert_eq!(m.insert(1, 10), None);
        assert_eq!(m.get(1), Some(10));
        assert_eq!(m.get(2), None);
        assert!(m.contains_key(1));
        assert!(!m.contains_key(2));
        assert_eq!(m.len(), 1);
        assert!(!m.is_empty());
    });
}

#[test]
fn replacement_returns_superseded_value() {
    rt().block_on(async {
        let mut m = ExpireMap::new(60_000);
        assert_eq!(m.insert(1, 1), None);
        assert_eq!(m.insert(1, 2), Some(1));
        assert_eq!(m.get(1), Some(2));
        assert_eq!(m.len(), 1);
    });
}

#[test]
fn replacement_measures_deadline_from_second_insert() {
    rt().block_on(async {
        // Timeout 240 ms. The first insert's deadline (t=240) is withdrawn by
        // the second insert at t=160, whose own deadline is t=400; at t=280
        // the entry must still be alive.
        let mut m = ExpireMap::new(240);
        assert_eq!(m.insert(1, 1), None);
        wait_ms(160).await;
        assert_eq!(m.insert(1, 2), Some(1));
        wait_ms(120).await;
        assert_eq!(m.get(1), Some(2));
    });
}

#[test]
fn removal_erases_key_for_good() {
    rt().block_on(async {
        let mut m = ExpireMap::new(60_000);
        m.insert(1, 10);
        m.insert(2, 20);
        assert_eq!(m.remove(1), Some(10));
        assert_eq!(m.remove(1), None);
        assert_eq!(m.get(1), None);
        assert!(!m.contains_key(1));
        m.purge();
        assert_eq!(m.get(1), None);
        assert_eq!(m.len(), 1);
        assert_eq!(m.get(2), Some(20));
    });
}

#[test]
fn removal_withdraws_pending_expiration() {
    rt().block_on(async {
        // Timeout 240 ms. Key 1's original deadline (t=240) is withdrawn by
        // the removal at t=80; the re-insert at t=120 schedules t=360, so at
        // t=300 the entry is alive only if the stale deadline really left the
        // queue.
        let mut m = ExpireMap::new(240);
        m.insert(1, 1);
        wait_ms(80).await;
        assert_eq!(m.remove(1), Some(1));
        wait_ms(40).await;
        assert_eq!(m.insert(1, 2), None);
        wait_ms(180).await;
        assert_eq!(m.get(1), Some(2));
    });
}

#[test]
fn purge_is_idempotent() {
    rt().block_on(async {
        let mut m = ExpireMap::new(60_000);
        m.insert(1, 1);
        m.insert(2, 2);
        m.insert(3, 3);
        m.purge();
        let after_first = m.len();
        m.purge();
        assert_eq!(m.len(), after_first);
        assert_eq!(after_first, 3);
    });
}

#[test]
fn unread_entry_expires_after_timeout() {
    rt().block_on(async {
        // Timeout 200 ms; an immediate read hits, and after 240 ms without
        // reads the entry is gone.
        let mut m = ExpireMap::new(200);
        m.insert(1, 1);
        assert_eq!(m.get(1), Some(1));
        wait_ms(240).await;
        assert_eq!(m.get(1), None);
        assert_eq!(m.len(), 0);
    });
}

#[test]
fn read_resets_the_deadline() {
    rt().block_on(async {
        // Timeout 400 ms. Reads at t=320 and t=600 each push the deadline a
        // full timeout out, so the entry outlives its original deadline of
        // t=400; once reads stop it is gone a timeout later.
        let mut m = ExpireMap::new(400);
        m.insert(1, 1);
        wait_ms(320).await;
        assert_eq!(m.get(1), Some(1));
        wait_ms(280).await;
        assert_eq!(m.get(1), Some(1));
        wait_ms(440).await;
        assert_eq!(m.get(1), None);
    });
}

#[test]
fn repeated_reads_keep_entry_alive() {
    rt().block_on(async {
        // Timeout 320 ms, reads every 120 ms: the entry survives well past
        // several timeouts' worth of wall time, then expires once reads stop.
        let mut m = ExpireMap::new(320);
        m.insert(1, 7);
        for _ in 0..8 {
            wait_ms(120).await;
            assert_eq!(m.get(1), Some(7));
        }
        wait_ms(360).await;
        assert_eq!(m.get(1), None);
    });
}

#[test]
fn insert_over_expired_key_finds_nothing() {
    rt().block_on(async {
        let mut m = ExpireMap::new(160);
        m.insert(1, 5);
        wait_ms(200).await;
        assert_eq!(m.insert(1, 6), None);
        assert_eq!(m.get(1), Some(6));
    });
}

#[test]
fn get_mut_replaces_value_and_refreshes() {
    rt().block_on(async {
        // Timeout 240 ms. The mutable lookup at t=160 both rewrites the value
        // and pushes the deadline to t=400, so the read at t=300 sees the new
        // value; absent keys are untouched.
        let mut m = ExpireMap::new(240);
        m.insert(1, 5);
        assert_eq!(m.get_mut(2, 9), None);
        wait_ms(160).await;
        assert_eq!(m.get_mut(1, 9), Some(5));
        wait_ms(140).await;
        assert_eq!(m.get(1), Some(9));
        wait_ms(280).await;
        assert_eq!(m.get_mut(1, 3), None);
        assert_eq!(m.len(), 0);
    });
}

#[test]
fn clear_empties_both_structures() {
    rt().block_on(async {
        let mut m = ExpireMap::new(60_000);
        m.insert(1, 1);
        m.insert(2, 2);
        m.clear();
        assert!(m.is_empty());
        assert_eq!(m.len(), 0);
        assert_eq!(m.get(1), None);
        assert_eq!(m.insert(1, 3), None);
        assert_eq!(m.get(1), Some(3));
    });
}

#[test]
fn with_duration_and_hasher_builds_working_map() {
    rt().block_on(async {
        let hasher = std::collections::hash_map::RandomState::default();
        let mut m = ExpireMap::with_duration_and_hasher(60_000, hasher);
        assert!(m.is_empty());
        assert_eq!(m.insert(4, 44), None);
        assert_eq!(m.get(4), Some(44));
    });
}

#[test]
fn core_operations_are_exact_without_purging() {
    rt().block_on(async {
        let mut m = ExpireMap::new(60_000);
        m.insert(1, 10);
        assert_eq!(m.remove_now(1), Some(10));
        assert_eq!(m.remove_now(1), None);
        m.insert(2, 20);
        assert_eq!(m.insert_now(2, 21), Some(20));
        assert_eq!(m.get_mut_now(2, 22), Some(21));
        assert_eq!(m.get_mut_now(3, 9), None);
        assert_eq!(m.get(2), Some(22));
        assert_eq!(m.insert_now(3, 30), None);
        assert_eq!(m.get(3), Some(30));
    });
}

#[test]
fn core_remove_sees_undrained_entries() {
    rt().block_on(async {
        // With no purge in between, an entry past its deadline still sits in
        // the store: the post-purge core returns it, while the composite
        // operation drains it first and finds nothing.
        let mut m = ExpireMap::new(120);
        m.insert(1, 10);
        m.insert(2, 20);
        wait_ms(160).await;
        assert_eq!(m.remove_now(1), Some(10));
        assert_eq!(m.remove(2), None);
        assert_eq!(m.len(), 0);
    });
}

#[test]
fn poll_purge_on_empty_map_reports_done() {
    rt().block_on(async {
        let mut m = ExpireMap::new(120);
        let waker = futures::task::noop_waker();
        let mut cx = std::task::Context::from_waker(&waker);
        assert!(m.poll_purge(&mut cx));
        m.insert(1, 1);
        assert_eq!(m.remove(1), Some(1));
        assert!(m.poll_purge(&mut cx));
    });
}

#[test]
fn poll_purge_reports_drained_and_pending() {
    rt().block_on(async {
        let mut m = ExpireMap::new(120);
        m.insert(1, 1);
        m.insert(2, 2);
        let waker = futures::task::noop_waker();
        let mut cx = std::task::Context::from_waker(&waker);
        // Entries remain and none is due: the drain step yields.
        assert!(!m.poll_purge(&mut cx));
        assert_eq!(m.len(), 2);
        wait_ms(160).await;
        // Everything is past its deadline: the drain runs to exhaustion.
        assert!(m.poll_purge(&mut cx));
        assert_eq!(m.len(), 0);
    });
}
