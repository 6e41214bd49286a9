use std::time::Duration;

use relaybar::model::{Tunnel, TunnelPhase};
use relaybar::store::{
    retry_delay, retry_delay_seconds, Action, ProcessExited, SavedTunnels, Store, CONNECT_NANOS,
    MAX_RETRY_ATTEMPTS, NANOS_PER_SECOND,
};

const SECOND: u64 = NANOS_PER_SECOND;

#[test]
fn retry_delay_is_exponential_and_capped() {
    assert_eq!(retry_delay(1), Duration::from_secs(1));
    assert_eq!(retry_delay(2), Duration::from_secs(2));
    assert_eq!(retry_delay(7), Duration::from_secs(60));
    assert_eq!(retry_delay(10), Duration::from_secs(60));
}

#[test]
fn retry_delays_double_up_to_a_minute() {
    let seconds: Vec<u64> = (0u32..10).map(retry_delay_seconds).collect();
    assert_eq!(seconds, [1, 1, 2, 4, 8, 16, 32, 60, 60, 60]);
    for attempt in [0u32, 1, 5, 6, 7, 100, u32::MAX] {
        let power = 2_u64.pow(attempt.saturating_sub(1).min(6)).min(60);
        assert_eq!(retry_delay_seconds(attempt), power);
        assert_eq!(retry_delay(attempt), Duration::from_secs(power));
    }
}

fn web() -> Tunnel {
    Tunnel::new("Web".into(), 43_210, "localhost".into(), 80, "host".into())
}

/// A store with one tunnel, and the tunnel's id.
fn one() -> (Store, u128) {
    let tunnel = web();
    let id = tunnel.id;
    (Store::load(SavedTunnels::Loaded(vec![tunnel])), id)
}

/// A store whose one tunnel runs, the tunnel's id, and the number of its process.
fn running() -> (Store, u128, u64) {
    let (mut store, id) = one();
    store.start(id);
    let generation = store.launched(id, 0);
    store.tick(CONNECT_NANOS);
    assert_eq!(store.phase(id), TunnelPhase::Running);
    (store, id, generation)
}

fn launch(store: &Store, id: u128) -> Action {
    let tunnel = store.tunnels().iter().find(|tunnel| tunnel.id == id).unwrap();
    Action::Launch {
        id,
        arguments: tunnel.ssh_arguments(),
    }
}

fn exit(id: u128, generation: u64, status: Option<i32>, stderr: &[u8]) -> ProcessExited {
    ProcessExited {
        id,
        generation,
        status,
        stderr: stderr.to_vec(),
    }
}

fn retrying(attempt: u32, delay_seconds: u64, message: &str) -> TunnelPhase {
    TunnelPhase::Retrying {
        attempt,
        max_attempts: 10,
        delay_seconds,
        message: message.into(),
    }
}

#[test]
fn loads_what_was_saved() {
    let store = Store::load(SavedTunnels::Missing);
    assert!(store.tunnels().is_empty());
    assert_eq!(*store.notice(), None);

    let store = Store::load(SavedTunnels::Unreadable("no permission".into()));
    assert!(store.tunnels().is_empty());
    assert_eq!(
        store.notice().as_deref(),
        Some("Could not read saved tunnels: no permission")
    );

    let tunnels = vec![web(), web()];
    let store = Store::load(SavedTunnels::Loaded(tunnels.clone()));
    assert_eq!(*store.tunnels(), tunnels);
    assert_eq!(*store.notice(), None);
    assert_eq!(store.running_count(), 0);
    assert_eq!(store.phase(tunnels[0].id), TunnelPhase::Stopped);
    assert_eq!(store.last_generation(), 0);
}

#[test]
fn a_tunnel_starts_runs_and_stops() {
    let mut store = Store::load(SavedTunnels::Missing);
    let tunnel = Tunnel::new(
        "Process test".into(),
        43_210,
        "localhost".into(),
        80,
        "host".into(),
    );
    let id = tunnel.id;
    assert_eq!(store.add(tunnel), [Action::Save]);
    assert_eq!(store.start(id), [launch(&store, id)]);
    assert_eq!(store.phase(id), TunnelPhase::Starting);
    assert_eq!(store.running_count(), 1);
    let generation = store.launched(id, 1_000);
    assert_eq!(generation, 1);

    let early = store.tick(1_000 + CONNECT_NANOS - 1);
    assert!(!early.changed && early.actions.is_empty());
    assert_eq!(store.phase(id), TunnelPhase::Starting);
    let tick = store.tick(1_000 + CONNECT_NANOS);
    assert!(tick.changed && tick.actions.is_empty());
    assert_eq!(store.phase(id), TunnelPhase::Running);

    assert_eq!(store.stop(id), [Action::Interrupt { id }]);
    assert_eq!(store.phase(id), TunnelPhase::Stopped);
    let tick = store.process_did_exit(exit(id, generation, None, b""), SECOND);
    assert!(tick.changed && tick.actions.is_empty());
    assert_eq!(store.phase(id), TunnelPhase::Stopped);
    assert_eq!(store.running_count(), 0);
    assert!(!store.tick(100 * SECOND).changed);
}

#[test]
fn starting_twice_or_in_vain_does_nothing() {
    let (mut store, id) = one();
    assert!(store.start(id ^ 1).is_empty());
    assert_eq!(store.phase(id ^ 1), TunnelPhase::Stopped);
    assert_eq!(store.start(id).len(), 1);
    assert!(store.start(id).is_empty());
    assert_eq!(store.phase(id), TunnelPhase::Starting);
}

#[test]
fn an_unsafe_tunnel_is_not_started() {
    let mut tunnel = web();
    tunnel.ssh_host = "-oProxyCommand=x".into();
    let id = tunnel.id;
    let mut store = Store::load(SavedTunnels::Loaded(vec![tunnel]));
    let failed = TunnelPhase::Failed(
        "This tunnel contains an invalid host or blocked SSH option.".into(),
    );
    assert!(store.start(id).is_empty());
    assert_eq!(store.phase(id), failed);
    assert_eq!(store.running_count(), 0);

    let mut store = Store::load(SavedTunnels::Loaded(store.tunnels().clone()));
    assert!(store.open_in_browser(id).is_empty());
    assert_eq!(store.phase(id), failed);
}

#[test]
fn toggling_starts_and_stops() {
    let (mut store, id) = one();
    assert_eq!(store.toggle(id), [launch(&store, id)]);
    store.launched(id, 0);
    assert_eq!(store.toggle(id), [Action::Interrupt { id }]);
    assert_eq!(store.phase(id), TunnelPhase::Stopped);
}

#[test]
fn a_stop_undoes_a_start() {
    let (mut store, id) = one();
    store.start(id);
    assert!(store.stop(id).is_empty());
    assert_eq!(store.phase(id), TunnelPhase::Stopped);
    assert_eq!(store.running_count(), 0);
    assert!(!store.tick(100 * SECOND).changed);
    assert_eq!(store.start(id), [launch(&store, id)]);
}

#[test]
fn a_failure_is_tried_again() {
    let (mut store, id, generation) = running();
    let tick = store.process_did_exit(
        exit(id, generation, Some(255), b"one\ntwo\nthree\n"),
        5 * SECOND,
    );
    assert!(tick.changed && tick.actions.is_empty());
    assert_eq!(store.phase(id), retrying(1, 1, "two three"));
    assert_eq!(store.running_count(), 1);

    let early = store.tick(6 * SECOND - 1);
    assert!(!early.changed && early.actions.is_empty());
    let tick = store.tick(6 * SECOND);
    assert!(tick.changed);
    assert_eq!(tick.actions, [launch(&store, id)]);
    assert_eq!(store.phase(id), TunnelPhase::Starting);
    let again = store.tick(6 * SECOND);
    assert!(!again.changed && again.actions.is_empty());
    assert_eq!(store.launched(id, 6 * SECOND), generation + 1);
}

#[test]
fn an_exit_without_output_tells_the_status() {
    for (status, message) in [
        (Some(0), "SSH connection closed."),
        (Some(255), "SSH exited with status 255."),
        (None, "SSH process terminated."),
    ] {
        let (mut store, id, generation) = running();
        store.process_did_exit(exit(id, generation, status, b" \n"), SECOND);
        assert_eq!(store.phase(id), retrying(1, 1, message));
    }
    let (mut store, id, generation) = running();
    store.process_did_exit(exit(id, generation, Some(1), b"\xff"), SECOND);
    assert_eq!(store.phase(id), retrying(1, 1, "\u{fffd}"));
}

#[test]
fn retries_run_out() {
    let (mut store, id) = one();
    store.open_in_browser(id);
    let delays = [1u64, 2, 4, 8, 16, 32, 60, 60, 60, 60];
    let mut now: u64 = 0;
    for attempt in 1..=MAX_RETRY_ATTEMPTS {
        store.launch_failed(id, "not found".into(), now);
        let delay = delays[attempt as usize - 1];
        assert_eq!(store.phase(id), retrying(attempt, delay, "not found"));
        assert!(!store.tick(now + delay * SECOND - 1).changed);
        now += delay * SECOND;
        assert_eq!(store.tick(now).actions, [launch(&store, id)]);
    }
    store.launch_failed(id, "not found".into(), now);
    assert_eq!(
        store.phase(id),
        TunnelPhase::Failed("not found Automatic retry stopped after 10 attempts.".into())
    );
    assert_eq!(store.running_count(), 0);
    assert!(!store.tick(now + 1_000 * SECOND).changed);

    assert_eq!(store.start(id), [launch(&store, id)]);
    let started: u64 = now + SECOND;
    store.launched(id, started);
    assert!(store.tick(started + CONNECT_NANOS).actions.is_empty());
    assert_eq!(store.phase(id), TunnelPhase::Running);
}

#[test]
fn a_connection_counts_the_attempts_afresh() {
    let (mut store, id) = one();
    store.start(id);
    store.launch_failed(id, "x".into(), 0);
    store.tick(SECOND);
    store.launch_failed(id, "x".into(), SECOND);
    assert_eq!(store.phase(id), retrying(2, 2, "x"));
    store.tick(3 * SECOND);
    let generation = store.launched(id, 3 * SECOND);
    store.tick(4 * SECOND);
    assert_eq!(store.phase(id), TunnelPhase::Running);
    store.process_ended(id, generation, "y".into(), 5 * SECOND);
    assert_eq!(store.phase(id), retrying(1, 1, "y"));
}

#[test]
fn a_late_failure_of_a_stopped_tunnel_leaves_it_stopped() {
    let (mut store, id) = one();
    store.start(id);
    store.stop(id);
    store.launch_failed(id, "x".into(), 0);
    assert_eq!(store.phase(id), TunnelPhase::Stopped);
}

#[test]
fn the_end_of_an_earlier_process_means_nothing() {
    let (mut store, id, generation) = running();
    store.process_ended(id, generation, "x".into(), SECOND);
    store.tick(2 * SECOND);
    let next = store.launched(id, 2 * SECOND);
    assert!(next > generation);
    let tick = store.process_ended(id, generation, "old".into(), 2 * SECOND);
    assert!(!tick.changed && tick.actions.is_empty());
    assert_eq!(store.phase(id), TunnelPhase::Starting);
    let tick = store.process_ended(id ^ 1, next, "other".into(), 2 * SECOND);
    assert!(!tick.changed && tick.actions.is_empty());
    assert_eq!(store.phase(id ^ 1), TunnelPhase::Stopped);
}

#[test]
fn a_restart_waits_for_the_old_process() {
    let (mut store, id, generation) = running();
    assert_eq!(store.stop(id), [Action::Interrupt { id }]);
    assert!(store.start(id).is_empty());
    assert_eq!(store.phase(id), TunnelPhase::Starting);
    let tick = store.process_ended(id, generation, "killed".into(), SECOND);
    assert!(tick.changed);
    assert_eq!(tick.actions, [launch(&store, id)]);
    assert_eq!(store.phase(id), TunnelPhase::Starting);
}

#[test]
fn opens_the_browser_at_once_or_when_connected() {
    let url = || Action::OpenUrl("http://localhost:43210/".into());
    let (mut store, id, _) = running();
    assert_eq!(store.open_in_browser(id), [url()]);

    let (mut store, id) = one();
    assert!(store.open_in_browser(id ^ 1).is_empty());
    assert_eq!(store.open_in_browser(id), [launch(&store, id)]);
    assert!(store.open_in_browser(id).is_empty());
    store.launched(id, 0);
    assert_eq!(store.tick(CONNECT_NANOS).actions, [url()]);
    assert!(store.tick(CONNECT_NANOS).actions.is_empty());

    let (mut store, id) = one();
    store.open_in_browser(id);
    store.stop(id);
    store.start(id);
    store.launched(id, 0);
    assert!(store.tick(CONNECT_NANOS).actions.is_empty());
}

#[test]
fn a_tick_serves_several_tunnels() {
    let tunnels = vec![web(), web(), web()];
    let ids: Vec<u128> = tunnels.iter().map(|tunnel| tunnel.id).collect();
    let mut store = Store::load(SavedTunnels::Loaded(tunnels));
    store.open_in_browser(ids[0]);
    store.launched(ids[0], SECOND);
    for id in [ids[1], ids[2]] {
        store.start(id);
        store.launch_failed(id, "x".into(), SECOND);
    }
    let tick = store.tick(2 * SECOND);
    assert!(tick.changed);
    assert_eq!(tick.actions.len(), 3);
    assert_eq!(tick.actions[0], Action::OpenUrl("http://localhost:43210/".into()));
    for id in [ids[1], ids[2]] {
        assert!(tick.actions[1..].contains(&launch(&store, id)));
        assert_eq!(store.phase(id), TunnelPhase::Starting);
    }
    assert_eq!(store.phase(ids[0]), TunnelPhase::Running);
    assert_eq!(store.running_count(), 3);
}

#[test]
fn an_update_stops_and_replaces() {
    let (mut store, id, generation) = running();
    let mut changed = store.tunnels()[0].clone();
    changed.name = "Changed".into();
    changed.local_port = 1;
    assert_eq!(
        store.update(changed.clone()),
        [Action::Interrupt { id }, Action::Save]
    );
    assert_eq!(*store.tunnels(), [changed.clone()]);
    assert_eq!(store.phase(id), TunnelPhase::Stopped);
    assert!(store.process_ended(id, generation, "x".into(), 0).changed);

    changed.id = id ^ 1;
    assert!(store.update(changed).is_empty());
    assert_eq!(store.tunnels()[0].name, "Changed");
}

#[test]
fn a_delete_stops_and_forgets() {
    let (mut store, id, generation) = running();
    let other = web();
    store.add(other.clone());
    assert_eq!(store.delete(id), [Action::Interrupt { id }, Action::Save]);
    assert_eq!(*store.tunnels(), [other]);
    assert_eq!(store.running_count(), 0);
    let tick = store.process_ended(id, generation, "x".into(), 0);
    assert!(tick.changed && tick.actions.is_empty());
    assert_eq!(store.phase(id), TunnelPhase::Stopped);
    assert_eq!(store.delete(id), [Action::Save]);
}

#[test]
fn other_tunnels_are_left_alone() {
    let (mut store, id, _) = running();
    let other = web();
    let other_id = other.id;
    store.add(other);
    store.start(other_id);
    store.stop(other_id);
    store.delete(other_id);
    assert_eq!(store.phase(id), TunnelPhase::Running);
    assert_eq!(store.tunnels().len(), 1);
    assert_eq!(store.running_count(), 1);
}

#[test]
fn a_shutdown_is_final() {
    let (mut store, id, generation) = running();
    let other = web();
    let other_id = other.id;
    store.add(other);
    store.start(other_id);
    store.launched(other_id, 0);
    let actions = store.shutdown();
    assert_eq!(actions.len(), 2);
    assert!(actions.contains(&Action::Interrupt { id }));
    assert!(actions.contains(&Action::Interrupt { id: other_id }));
    let tick = store.process_ended(id, generation, "x".into(), 0);
    assert!(!tick.changed && tick.actions.is_empty());
    let tick = store.tick(1_000 * SECOND);
    assert!(!tick.changed && tick.actions.is_empty());
    assert!(store.shutdown().is_empty());
}

#[test]
fn notices_tell_what_went_wrong() {
    let (mut store, _) = one();
    store.set_notice("hello".into());
    assert_eq!(store.notice().as_deref(), Some("hello"));
    store.save_failed("disk full");
    assert_eq!(
        store.notice().as_deref(),
        Some("Could not save tunnels: disk full")
    );
    store.open_failed("http://localhost:1/", "no browser");
    assert_eq!(
        store.notice().as_deref(),
        Some("Could not open http://localhost:1/: no browser")
    );
}

#[test]
fn late_deadlines_do_not_overflow() {
    let (mut store, id) = one();
    store.start(id);
    store.launch_failed(id, "x".into(), u64::MAX);
    assert_eq!(store.phase(id), retrying(1, 1, "x"));
    assert!(!store.tick(u64::MAX).changed);
    store.stop(id);
    store.start(id);
    store.launched(id, u64::MAX);
    assert!(!store.tick(u64::MAX).changed);
}

#[test]
fn changes_of_the_tunnels_are_saved() {
    let (mut store, id, _) = running();
    assert_eq!(store.add(web()).last(), Some(&Action::Save));
    let changed = store.tunnels()[0].clone();
    assert_eq!(store.update(changed).last(), Some(&Action::Save));
    assert!(!store.start(id).contains(&Action::Save));
    assert!(!store.stop(id).contains(&Action::Save));
    assert_eq!(store.delete(id).last(), Some(&Action::Save));
}
