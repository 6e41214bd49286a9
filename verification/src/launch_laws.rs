//! What the operations of a store owe: every process, stop and retry that the state of a tunnel
//! calls for is asked for and counted, whatever the other tunnels do.

use vstd::prelude::*;

use crate::model::PhaseModel;
use crate::store::{
    exhausted_message, interruptions, is_listing, retry_seconds, ActionModel, StoreModel,
    Transition,
};
use crate::store_laws::{
    consistent, in_flight, law_retry_delay, lemma_relaunchings_serve,
    tunnel_consistent,
};

verus! {

/// Every tunnel that has begun to wait for the report of its process is one for which the process
/// was asked for, with its own arguments.
pub open spec fn launches_are_complete(before: StoreModel, step: Transition) -> bool {
    forall|id: u128|
        #![trigger in_flight(step.store, id)]
        in_flight(step.store, id) && !in_flight(before, id) ==> {
            &&& step.store.find(id) is Some
            &&& step.actions.contains(
                ActionModel::Launch { id, arguments: step.store.find(id)->0.ssh_arguments() },
            )
        }
}

/// A process is asked to stop exactly when it becomes one that was asked to, or is asked once more;
/// a process that is not asked to stop is as it was.
pub open spec fn stops_are_told(before: StoreModel, step: Transition) -> bool {
    forall|id: u128|
        #![trigger step.store.runtimes.contains_key(id)]
        before.runtimes.contains_key(id) && step.store.runtimes.contains_key(id) ==> {
            &&& step.store.runtimes[id].generation == before.runtimes[id].generation
            &&& step.store.runtimes[id].started_at == before.runtimes[id].started_at
            &&& if step.actions.contains(ActionModel::Interrupt { id }) {
                step.store.runtimes[id].stop_requested
            } else {
                step.store.runtimes[id].stop_requested == before.runtimes[id].stop_requested
            }
        }
}

/// The step leaves the list of tunnels, the notice and the count of processes alone.
pub open spec fn only_phases_move(before: StoreModel, after: StoreModel) -> bool {
    &&& after.tunnels == before.tunnels
    &&& after.notice == before.notice
    &&& after.next_generation == before.next_generation
}

/// Starting a tunnel that is there, may run, is not wanted and has no process of its own asks for
/// its process and for nothing else, whatever the other tunnels do.
pub proof fn law_start_asks_for_the_process(store: StoreModel, id: u128)
    requires
        store.find(id) matches Some(tunnel) && tunnel.is_safe_to_run(),
        !store.desired.contains(id),
        !store.runtimes.contains_key(id),
    ensures
        store.start(id).actions == seq![
            ActionModel::Launch { id, arguments: store.find(id)->0.ssh_arguments() },
        ],
        in_flight(store.start(id).store, id),
        store.start(id).store.retry_attempts[id] == 0,
        store.start(id).store.retry_attempts.contains_key(id),
        !store.start(id).store.retry_deadlines.contains_key(id),
{
    assert(store.start(id).actions =~= seq![
        ActionModel::Launch { id, arguments: store.find(id)->0.ssh_arguments() },
    ]);
}

/// What starting asks for rests on the tunnel itself: two stores that hold the same of it answer
/// alike.
pub proof fn law_start_rests_on_the_tunnel(a: StoreModel, b: StoreModel, id: u128)
    requires
        a.find(id) == b.find(id),
        a.desired.contains(id) == b.desired.contains(id),
        a.runtimes.contains_key(id) == b.runtimes.contains_key(id),
    ensures
        a.start(id).actions == b.start(id).actions,
        a.start(id).store.desired.contains(id) == b.start(id).store.desired.contains(id),
        a.phase(id) == b.phase(id) ==> a.start(id).store.phase(id) == b.start(id).store.phase(id),
{
    assert(a.with_desired(id).find(id) == a.find(id));
    assert(b.with_desired(id).find(id) == b.find(id));
}

/// Starting what is wanted, what is not there, or what may not run asks for nothing; one that may
/// not run is shown as failed, and stays unwanted.
pub proof fn law_start_in_vain(store: StoreModel, id: u128)
    requires
        store.desired.contains(id) || store.find(id) is None || !store.find(
            id,
        )->0.is_safe_to_run(),
    ensures
        store.start(id).actions == Seq::<ActionModel>::empty(),
        store.start(id).store.desired == store.desired,
        store.start(id).store.runtimes == store.runtimes,
        store.desired.contains(id) || store.find(id) is None ==> store.start(id).store == store,
        !store.desired.contains(id) && store.find(id) is Some ==> store.start(id).store.phase(
            id,
        ) is Failed,
{
}

/// Each operation that makes a tunnel wait for its process asks for that process, tells exactly the
/// processes to stop that are to stop, and leaves the list of tunnels, the notice and the count of
/// processes alone. A wanted tunnel whose process ended must still be there to get the next one.
pub proof fn law_every_launch_is_asked_for(
    store: StoreModel,
    id: u128,
    generation: u64,
    message: Seq<char>,
    now: u64,
)
    ensures
        launches_are_complete(store, store.start(id)),
        launches_are_complete(store, store.stop(id)),
        launches_are_complete(store, store.toggle(id)),
        launches_are_complete(store, store.open_in_browser(id)),
        (store.desired.contains(id) ==> store.find(id) is Some) ==> launches_are_complete(
            store,
            store.exited(id, generation, message, now),
        ),
        stops_are_told(store, store.start(id)),
        stops_are_told(store, store.stop(id)),
        stops_are_told(store, store.toggle(id)),
        stops_are_told(store, store.open_in_browser(id)),
        stops_are_told(store, store.exited(id, generation, message, now)),
        only_phases_move(store, store.start(id).store),
        only_phases_move(store, store.stop(id).store),
        only_phases_move(store, store.toggle(id).store),
        only_phases_move(store, store.open_in_browser(id).store),
        only_phases_move(store, store.exited(id, generation, message, now).store),
        only_phases_move(store, store.schedule_retry(id, message, now)),
        only_phases_move(store, store.ticked(now)),
        only_phases_move(store, store.shut_down()),
{
    lemma_complete(store, store.start(id), id);
    lemma_complete(store, store.stop(id), id);
    lemma_complete(store, store.toggle(id), id);
    lemma_complete(store, store.open_in_browser(id), id);
    let ended = store.exited(id, generation, message, now);
    if store.desired.contains(id) ==> store.find(id) is Some {
        lemma_complete(store, ended, id);
    } else {
        assert(ended.actions.len() == 0);
    }
}

/// A step that concerns one tunnel and adds at most one action is complete when that action is.
proof fn lemma_complete(before: StoreModel, step: Transition, id: u128)
    requires
        forall|other: u128|
            #![trigger in_flight(step.store, other)]
            other != id ==> in_flight(step.store, other) == in_flight(before, other),
        in_flight(step.store, id) && !in_flight(before, id) ==> {
            &&& step.store.find(id) is Some
            &&& step.actions.len() == 1
            &&& step.actions[0] == (ActionModel::Launch {
                id,
                arguments: step.store.find(id)->0.ssh_arguments(),
            })
        },
        forall|other: u128|
            #![trigger step.store.runtimes.contains_key(other)]
            other != id && before.runtimes.contains_key(other)
                && step.store.runtimes.contains_key(other) ==> step.store.runtimes[other]
                == before.runtimes[other],
        forall|i: int|
            0 <= i < step.actions.len() ==> (#[trigger] step.actions[i] matches ActionModel::Interrupt {
                id: told,
            } ==> told == id),
        before.runtimes.contains_key(id) && step.store.runtimes.contains_key(id) ==> {
            &&& step.store.runtimes[id].generation == before.runtimes[id].generation
            &&& step.store.runtimes[id].started_at == before.runtimes[id].started_at
            &&& if step.actions.len() == 1 && step.actions[0] == (ActionModel::Interrupt { id }) {
                step.store.runtimes[id].stop_requested
            } else {
                &&& step.store.runtimes[id].stop_requested == before.runtimes[id].stop_requested
                &&& step.actions.len() <= 1
            }
        },
    ensures
        launches_are_complete(before, step),
        stops_are_told(before, step),
{
    if step.actions.len() == 1 {
        assert(step.actions.contains(step.actions[0]));
    }
}

/// Stopping asks a process that there is to stop, once, and asks for nothing else.
pub proof fn law_stop_interrupts(store: StoreModel, id: u128)
    ensures
        store.stop(id).actions == (if store.runtimes.contains_key(id) {
            seq![ActionModel::Interrupt { id }]
        } else {
            Seq::empty()
        }),
        store.stop(id).store.runtimes.dom() == store.runtimes.dom(),
        store.runtimes.contains_key(id) ==> store.stop(id).store.runtimes[id].stop_requested,
        !store.stop(id).store.retry_attempts.contains_key(id),
{
    assert(store.stop(id).actions =~= (if store.runtimes.contains_key(id) {
        seq![ActionModel::Interrupt { id }]
    } else {
        Seq::empty()
    }));
    assert(store.stop(id).store.runtimes.dom() =~= store.runtimes.dom());
}

/// Stopping twice is stopping once, but that a process is asked again.
pub proof fn law_stop_is_idempotent(store: StoreModel, id: u128)
    ensures
        store.stop(id).store.stop(id).store == store.stop(id).store,
        store.stop(id).store.stop(id).actions == store.stop(id).actions,
{
    let once = store.stop(id).store;
    let twice = once.stop(id).store;
    assert(twice.phases =~= once.phases);
    assert(twice.desired =~= once.desired);
    assert(twice.runtimes =~= once.runtimes);
    assert(twice.retry_attempts =~= once.retry_attempts);
    assert(twice.retry_deadlines =~= once.retry_deadlines);
    assert(twice.pending_browser =~= once.pending_browser);
    assert(once.stop(id).actions =~= store.stop(id).actions);
}

/// A failure of a wanted tunnel that has failed `n` times in a row counts: the next attempt has the
/// number `n + 1` and waits for as long as that number asks for, and after ten attempts the tunnel
/// is given up, with the reason of its last failure. What waits for the tunnel waits on, or is let
/// go with it.
pub open spec fn failure_counts(
    before: StoreModel,
    after: StoreModel,
    id: u128,
    message: Seq<char>,
    now: u64,
) -> bool {
    let n = before.retry_attempts[id];
    if n < 10 {
        &&& after.retry_attempts.contains_key(id)
        &&& after.retry_attempts[id] == n + 1
        &&& after.desired.contains(id)
        &&& after.pending_browser == before.pending_browser
        &&& after.phase(id) == PhaseModel::Retrying {
            attempt: (n + 1) as u32,
            max_attempts: 10,
            delay_seconds: retry_seconds((n + 1) as u32) as u64,
            message,
        }
        &&& after.retry_deadlines.contains_key(id)
        &&& after.retry_deadlines[id] == now + retry_seconds((n + 1) as u32) * 1_000_000_000
    } else {
        &&& !after.desired.contains(id)
        &&& !after.retry_attempts.contains_key(id)
        &&& !after.pending_browser.contains(id)
        &&& after.retry_deadlines == before.retry_deadlines
        &&& after.phase(id) == PhaseModel::Failed(exhausted_message(message))
    }
}

/// Every end of a wanted tunnel's process that nobody asked for counts as a failure, asks for
/// nothing, and leaves the tunnel without a process.
pub proof fn law_every_end_counts(
    store: StoreModel,
    id: u128,
    generation: u64,
    message: Seq<char>,
    now: u64,
)
    requires
        store.is_current(id, generation),
        store.desired.contains(id),
        !store.runtimes[id].stop_requested,
        store.retry_attempts.contains_key(id),
        store.retry_attempts[id] <= 10,
    ensures
        failure_counts(store, store.exited(id, generation, message, now).store, id, message, now),
        store.exited(id, generation, message, now).actions == Seq::<ActionModel>::empty(),
        store.exited(id, generation, message, now).store.runtimes == store.runtimes.remove(id),
{
    assert(1 <= retry_seconds((store.retry_attempts[id] + 1) as u32) <= 60) by {
        law_retry_delay((store.retry_attempts[id] + 1) as u32);
    }
}

/// Every start that fails counts as a failure just as the end of a process does.
pub proof fn law_every_failed_start_counts(
    store: StoreModel,
    id: u128,
    message: Seq<char>,
    now: u64,
)
    requires
        store.desired.contains(id),
        store.retry_attempts.contains_key(id),
        store.retry_attempts[id] <= 10,
    ensures
        failure_counts(store, store.schedule_retry(id, message, now), id, message, now),
        store.schedule_retry(id, message, now).runtimes == store.runtimes,
{
    assert(1 <= retry_seconds((store.retry_attempts[id] + 1) as u32) <= 60) by {
        law_retry_delay((store.retry_attempts[id] + 1) as u32);
    }
}

/// A failure of a tunnel that is no longer wanted counts for nothing: it is shown as stopped.
pub proof fn law_unwanted_failures_do_not_count(
    store: StoreModel,
    id: u128,
    message: Seq<char>,
    now: u64,
)
    requires
        !store.desired.contains(id),
    ensures
        store.schedule_retry(id, message, now) == store.with_phase(id, PhaseModel::Stopped),
{
}

/// The end of a process that was asked to stop is no failure: where the tunnel is wanted again, the
/// next process is asked for at once, and the failures counted so far stay as they are.
pub proof fn law_requested_ends_do_not_count(
    store: StoreModel,
    id: u128,
    generation: u64,
    message: Seq<char>,
    now: u64,
)
    requires
        store.is_current(id, generation),
        store.desired.contains(id),
        store.runtimes[id].stop_requested,
        store.find(id) is Some,
    ensures
        store.exited(id, generation, message, now).actions == seq![
            ActionModel::Launch { id, arguments: store.find(id)->0.ssh_arguments() },
        ],
        in_flight(store.exited(id, generation, message, now).store, id),
        store.exited(id, generation, message, now).store.retry_attempts == store.retry_attempts,
        store.exited(id, generation, message, now).store.retry_deadlines == store.retry_deadlines,
        store.exited(id, generation, message, now).store.pending_browser == store.pending_browser,
{
    assert(store.exited(id, generation, message, now).actions =~= seq![
        ActionModel::Launch { id, arguments: store.find(id)->0.ssh_arguments() },
    ]);
}

/// The end of the process of a tunnel that is not wanted leaves it shown as stopped and asks for
/// nothing; of a tunnel that is gone, nothing is kept.
pub proof fn law_unwanted_ends(
    store: StoreModel,
    id: u128,
    generation: u64,
    message: Seq<char>,
    now: u64,
)
    requires
        store.is_current(id, generation),
        !store.desired.contains(id),
    ensures
        ({
            let step = store.exited(id, generation, message, now);
            &&& step.actions == Seq::<ActionModel>::empty()
            &&& step.store.phase(id) is Stopped
            &&& !step.store.runtimes.contains_key(id)
            &&& !step.store.desired.contains(id)
            &&& step.store.retry_attempts == store.retry_attempts
            &&& step.store.retry_deadlines == store.retry_deadlines
            &&& store.find(id) is None ==> !step.store.phases.contains_key(id)
        }),
{
}

/// The end of a process changes a store exactly if it is the tunnel's current one.
pub proof fn law_current_ends_change_the_store(
    store: StoreModel,
    id: u128,
    generation: u64,
    message: Seq<char>,
    now: u64,
)
    ensures
        store.is_current(id, generation) <==> store.exited(id, generation, message, now).store
            != store,
        store.is_current(id, generation) <==> store.runtimes.contains_key(id)
            && store.runtimes[id].generation == generation,
{
    if store.is_current(id, generation) {
        assert(!store.exited(id, generation, message, now).store.runtimes.contains_key(id));
    }
}

/// The report of a process sets it going with the next number at that moment, not asked to stop,
/// and changes nothing else of its tunnel: above all not the count of its failures.
pub proof fn law_a_report_starts_the_clock(store: StoreModel, id: u128, now: u64)
    requires
        store.next_generation < u64::MAX,
    ensures
        ({
            let after = store.launched(id, now);
            &&& after.runtimes.contains_key(id)
            &&& after.runtimes[id].generation == store.next_generation + 1
            &&& after.next_generation == store.next_generation + 1
            &&& after.runtimes[id].started_at == now
            &&& !after.runtimes[id].stop_requested
            &&& after.phases == store.phases
            &&& after.desired == store.desired
            &&& after.retry_attempts == store.retry_attempts
            &&& after.retry_deadlines == store.retry_deadlines
            &&& after.pending_browser == store.pending_browser
            &&& after.tunnels == store.tunnels
            &&& after.notice == store.notice
        }),
{
}

/// A tick shows a starting tunnel as running exactly when its process has lived for 450 ms, and
/// forgets its failures then; it starts a waiting one again exactly when its time has come, and
/// keeps the count of its failures. Of every other tunnel it changes nothing.
pub proof fn law_tick_moves_by_the_clock(store: StoreModel, now: u64, id: u128)
    requires
        tunnel_consistent(store, id),
    ensures
        ({
            let after = store.ticked(now);
            let connected = store.phase(id) is Starting && store.runtimes.contains_key(id)
                && now - store.runtimes[id].started_at >= 450_000_000;
            let due = store.retry_deadlines.contains_key(id) && store.retry_deadlines[id] <= now;
            &&& connected ==> {
                &&& after.phase(id) is Running
                &&& after.retry_attempts[id] == 0
                &&& !after.pending_browser.contains(id)
            }
            &&& due ==> after.phase(id) is Starting && !after.retry_deadlines.contains_key(id)
            &&& !connected && !due ==> after.phase(id) == store.phase(id)
            &&& !connected ==> {
                &&& after.retry_attempts.contains_key(id) == store.retry_attempts.contains_key(id)
                &&& after.retry_attempts.contains_key(id) ==> after.retry_attempts[id]
                    == store.retry_attempts[id]
                &&& after.pending_browser.contains(id) == store.pending_browser.contains(id)
            }
            &&& !due ==> {
                &&& after.retry_deadlines.contains_key(id) == store.retry_deadlines.contains_key(id)
                &&& after.retry_deadlines.contains_key(id) ==> after.retry_deadlines[id]
                    == store.retry_deadlines[id]
            }
            &&& after.desired == store.desired
            &&& after.runtimes == store.runtimes
        }),
{
}

/// What is opened for a list of tunnels is the URL of one of them for which a browser waited.
proof fn lemma_openings_are_waited_for(store: StoreModel, ids: Seq<u128>)
    ensures
        forall|i: int|
            #![trigger store.openings(ids)[i]]
            0 <= i < store.openings(ids).len() ==> exists|k: int|
                #![trigger ids[k]]
                0 <= k < ids.len() && store.pending_browser.contains(ids[k]) && store.find(
                    ids[k],
                ) is Some && store.openings(ids)[i] == ActionModel::OpenUrl(
                    store.find(ids[k])->0.browser_url(),
                ),
        store.openings(ids).len() <= ids.len(),
    decreases ids.len(),
{
    if ids.len() > 0 {
        let front = ids.drop_last();
        lemma_openings_are_waited_for(store, front);
        assert forall|i: int|
            #![trigger store.openings(ids)[i]]
            0 <= i < store.openings(ids).len() implies exists|k: int|
            #![trigger ids[k]]
            0 <= k < ids.len() && store.pending_browser.contains(ids[k]) && store.find(
                ids[k],
            ) is Some && store.openings(ids)[i] == ActionModel::OpenUrl(
                store.find(ids[k])->0.browser_url(),
            ) by {
            if i < store.openings(front).len() {
                assert(store.openings(ids)[i] == store.openings(front)[i]);
                let k = choose|k: int|
                    #![trigger front[k]]
                    0 <= k < front.len() && store.pending_browser.contains(front[k])
                        && store.find(front[k]) is Some && store.openings(front)[i]
                        == ActionModel::OpenUrl(store.find(front[k])->0.browser_url());
                assert(ids[k] == front[k]);
            } else {
                assert(ids[ids.len() - 1] == ids.last());
            }
        }
    }
}

/// What is launched for a list of tunnels without duplicates is one of them, each at most once.
proof fn lemma_relaunchings_are_single(store: StoreModel, ids: Seq<u128>)
    requires
        ids.no_duplicates(),
    ensures
        forall|i: int|
            #![trigger store.relaunchings(ids)[i]]
            0 <= i < store.relaunchings(ids).len() ==> {
                &&& store.relaunchings(ids)[i] is Launch
                &&& ids.contains(store.relaunchings(ids)[i]->Launch_id)
                &&& store.relaunches(store.relaunchings(ids)[i]->Launch_id)
            },
        store.relaunchings(ids).no_duplicates(),
        store.relaunchings(ids).len() <= ids.len(),
    decreases ids.len(),
{
    if ids.len() > 0 {
        let front = ids.drop_last();
        lemma_relaunchings_are_single(store, front);
        let all = store.relaunchings(ids);
        let before = store.relaunchings(front);
        assert forall|i: int| #![trigger all[i]] 0 <= i < all.len() implies {
            &&& all[i] is Launch
            &&& ids.contains(all[i]->Launch_id)
            &&& store.relaunches(all[i]->Launch_id)
        } by {
            if i < before.len() {
                assert(all[i] == before[i]);
                let k = choose|k: int| 0 <= k < front.len() && front[k] == before[i]->Launch_id;
                assert(ids[k] == before[i]->Launch_id);
            } else {
                assert(ids[ids.len() - 1] == ids.last());
            }
        }
        assert forall|i: int, j: int|
            0 <= i < all.len() && 0 <= j < all.len() && i != j implies all[i] != all[j] by {
            assert(i < before.len() ==> all[i] == before[i]);
            assert(j < before.len() ==> all[j] == before[j]);
            if all.len() > before.len() {
                let last = before.len() as int;
                assert forall|m: int| 0 <= m < last implies #[trigger] before[m]
                    != all[last] by {
                    let id = before[m]->Launch_id;
                    let k = choose|k: int| 0 <= k < front.len() && front[k] == id;
                    assert(ids[k] == id);
                    assert(all[last]->Launch_id == ids[ids.len() - 1]);
                }
            }
        }
    }
}

/// A tick asks for nothing that is not owed: it opens only URLs for which a browser waited and
/// whose tunnel has become connected, and starts only processes whose time has come, each once.
/// Every tunnel that it makes wait for a process gets one.
pub proof fn law_tick_asks_for_what_is_owed(
    store: StoreModel,
    now: u64,
    actions: Seq<ActionModel>,
)
    requires
        store.are_tick_actions(now, actions),
    ensures
        launches_are_complete(store, Transition { store: store.ticked(now), actions }),
        forall|i: int|
            #![trigger actions[i]]
            0 <= i < actions.len() ==> match actions[i] {
                ActionModel::OpenUrl(url) => exists|id: u128|
                    #![trigger store.is_connected(id, now)]
                    store.is_connected(id, now) && store.pending_browser.contains(id)
                        && store.find(id) is Some && url == store.find(id)->0.browser_url(),
                ActionModel::Launch { id, arguments } => store.retry_deadlines.contains_key(id)
                    && store.retry_deadlines[id] <= now && store.desired.contains(id)
                    && !store.runtimes.contains_key(id),
                _ => false,
            },
        forall|i: int, j: int|
            #![trigger actions[i], actions[j]]
            0 <= i < j < actions.len() && actions[i] is Launch ==> actions[j] is Launch
                && actions[i]->Launch_id != actions[j]->Launch_id,
{
    let (connected, due) = choose|connected: Seq<u128>, due: Seq<u128>|
        #![trigger store.openings(connected), store.relaunchings(due)]
        {
            &&& is_listing(connected, store.connected(now))
            &&& is_listing(due, store.due(now))
            &&& actions == store.openings(connected) + store.relaunchings(due)
        };
    let openings = store.openings(connected);
    let relaunchings = store.relaunchings(due);
    lemma_openings_are_waited_for(store, connected);
    lemma_relaunchings_are_single(store, due);
    lemma_relaunchings_tell_whose(store, due);
    assert forall|i: int| #![trigger actions[i]] 0 <= i < actions.len() implies match actions[i] {
        ActionModel::OpenUrl(url) => exists|id: u128|
            #![trigger store.is_connected(id, now)]
            store.is_connected(id, now) && store.pending_browser.contains(id) && store.find(
                id,
            ) is Some && url == store.find(id)->0.browser_url(),
        ActionModel::Launch { id, arguments } => store.retry_deadlines.contains_key(id)
            && store.retry_deadlines[id] <= now && store.desired.contains(id)
            && !store.runtimes.contains_key(id),
        _ => false,
    } by {
        if i < openings.len() {
            assert(actions[i] == openings[i]);
            let k = choose|k: int|
                #![trigger connected[k]]
                0 <= k < connected.len() && store.pending_browser.contains(connected[k])
                    && store.find(connected[k]) is Some && openings[i] == ActionModel::OpenUrl(
                    store.find(connected[k])->0.browser_url(),
                );
            assert(connected.to_set().contains(connected[k]));
            assert(store.is_connected(connected[k], now));
        } else {
            assert(actions[i] == relaunchings[i - openings.len()]);
            let id = relaunchings[i - openings.len()]->Launch_id;
            assert(due.to_set().contains(id));
        }
    }
    assert forall|i: int, j: int|
        #![trigger actions[i], actions[j]]
        0 <= i < j < actions.len() && actions[i] is Launch implies actions[j] is Launch
        && actions[i]->Launch_id != actions[j]->Launch_id by {
        if i < openings.len() {
            assert(actions[i] == openings[i]);
        } else {
            assert(actions[i] == relaunchings[i - openings.len()]);
            assert(actions[j] == relaunchings[j - openings.len()]);
        }
    }
    let step = Transition { store: store.ticked(now), actions };
    assert forall|id: u128|
        #![trigger in_flight(step.store, id)]
        in_flight(step.store, id) && !in_flight(store, id) implies {
        &&& step.store.find(id) is Some
        &&& step.actions.contains(
            ActionModel::Launch { id, arguments: step.store.find(id)->0.ssh_arguments() },
        )
    } by {
        assert(step.store.find(id) == store.find(id));
        assert(store.due(now).contains(id) && store.relaunches(id));
        assert(due.to_set().contains(id));
        lemma_relaunchings_serve(store, due, id);
        let launch = ActionModel::Launch { id, arguments: store.find(id)->0.ssh_arguments() };
        let k = choose|k: int| 0 <= k < relaunchings.len() && relaunchings[k] == launch;
        assert(actions[openings.len() + k] == launch);
    }
}

/// Two launches for the same tunnel are the same.
proof fn lemma_relaunchings_tell_whose(store: StoreModel, ids: Seq<u128>)
    ensures
        forall|i: int|
            #![trigger store.relaunchings(ids)[i]]
            0 <= i < store.relaunchings(ids).len() ==> store.relaunchings(ids)[i]
                == (ActionModel::Launch {
                id: store.relaunchings(ids)[i]->Launch_id,
                arguments: store.find(
                    store.relaunchings(ids)[i]->Launch_id,
                )->0.ssh_arguments(),
            }),
    decreases ids.len(),
{
    if ids.len() > 0 {
        let front = ids.drop_last();
        lemma_relaunchings_tell_whose(store, front);
        let all = store.relaunchings(ids);
        let before = store.relaunchings(front);
        assert forall|i: int| #![trigger all[i]] 0 <= i < all.len() implies all[i] == (
        ActionModel::Launch {
            id: all[i]->Launch_id,
            arguments: store.find(all[i]->Launch_id)->0.ssh_arguments(),
        }) by {
            if i < before.len() {
                assert(all[i] == before[i]);
            }
        }
    }
}

/// A tick tells of a change exactly when the phase of some tunnel has changed.
pub proof fn law_tick_tells_of_changes(store: StoreModel, now: u64)
    requires
        consistent(store),
    ensures
        store.tick_changes(now) <==> exists|id: u128|
            #[trigger] store.ticked(now).phase(id) != store.phase(id),
{
    let after = store.ticked(now);
    if store.tick_changes(now) {
        let id = choose|id: u128| #[trigger] store.tick_moves(id, now);
        assert(tunnel_consistent(store, id));
        assert(after.phase(id) != store.phase(id));
    }
    if exists|id: u128| #[trigger] after.phase(id) != store.phase(id) {
        let id = choose|id: u128| #[trigger] after.phase(id) != store.phase(id);
        assert(tunnel_consistent(store, id));
        assert(store.tick_moves(id, now));
    }
}

/// A tunnel whose process ends without being asked to, that is started again when its time has
/// come, and whose next process is reported, has one failure more on its count and runs a process
/// that can end in its turn: so a host that refuses ten times in a row is given up at the next end.
pub proof fn law_refusals_add_up(
    store: StoreModel,
    id: u128,
    message: Seq<char>,
    end: u64,
    retry: u64,
)
    requires
        tunnel_consistent(store, id),
        store.desired.contains(id),
        store.runtimes.contains_key(id),
        !store.runtimes[id].stop_requested,
        store.next_generation < u64::MAX,
        end + 60_000_000_000 <= retry,
    ensures
        ({
            let generation = store.runtimes[id].generation;
            let ended = store.exited(id, generation, message, end).store;
            let again = ended.ticked(retry).launched(id, retry);
            if store.retry_attempts[id] < 10 {
                &&& again.retry_attempts.contains_key(id)
                &&& again.retry_attempts[id] == store.retry_attempts[id] + 1
                &&& again.desired.contains(id)
                &&& again.phase(id) is Starting
                &&& again.is_current(id, again.next_generation)
                &&& !again.runtimes[id].stop_requested
            } else {
                &&& ended.phase(id) == PhaseModel::Failed(exhausted_message(message))
                &&& !ended.desired.contains(id)
                &&& ended.ticked(retry).phase(id) == ended.phase(id)
            }
        }),
{
    let generation = store.runtimes[id].generation;
    law_every_end_counts(store, id, generation, message, end);
    law_retry_delay((store.retry_attempts[id] + 1) as u32);
}

/// A shutdown asks every process to stop, each once, and asks for nothing else.
pub proof fn law_shutdown_interrupts_everyone(store: StoreModel, ids: Seq<u128>)
    requires
        is_listing(ids, store.runtimes.dom()),
    ensures
        forall|id: u128|
            #![trigger store.runtimes.contains_key(id)]
            interruptions(ids).contains(ActionModel::Interrupt { id })
                <==> store.runtimes.contains_key(id),
        forall|i: int|
            0 <= i < interruptions(ids).len() ==> #[trigger] interruptions(
                ids,
            )[i] is Interrupt,
        interruptions(ids).no_duplicates(),
{
    let actions = interruptions(ids);
    assert forall|id: u128|
        #![trigger store.runtimes.contains_key(id)]
        actions.contains(ActionModel::Interrupt { id }) <==> store.runtimes.contains_key(id) by {
        assert(ids.to_set().contains(id) <==> store.runtimes.dom().contains(id));
        if store.runtimes.contains_key(id) {
            let k = choose|k: int| 0 <= k < ids.len() && ids[k] == id;
            assert(actions[k] == (ActionModel::Interrupt { id }));
        }
        if actions.contains(ActionModel::Interrupt { id }) {
            let k = choose|k: int|
                0 <= k < actions.len() && actions[k] == (ActionModel::Interrupt { id });
            assert(ids[k] == id);
        }
    }
}

/// A start while a process of the tunnel still runs waits for its end: nothing is asked for, the
/// process is left as it is, and the failures are counted afresh.
pub proof fn law_start_waits_for_a_running_process(store: StoreModel, id: u128)
    requires
        store.find(id) matches Some(tunnel) && tunnel.is_safe_to_run(),
        !store.desired.contains(id),
        store.runtimes.contains_key(id),
    ensures
        store.start(id).actions == Seq::<ActionModel>::empty(),
        store.start(id).store.phase(id) is Starting,
        store.start(id).store.desired == store.desired.insert(id),
        store.start(id).store.runtimes == store.runtimes,
        store.start(id).store.retry_attempts.contains_key(id),
        store.start(id).store.retry_attempts[id] == 0,
        !store.start(id).store.retry_deadlines.contains_key(id),
        store.start(id).store.pending_browser == store.pending_browser,
{
}

/// A shutdown leaves nothing wanted, running, waiting or scheduled, and what is shown of each tunnel
/// as it was.
pub proof fn law_shutdown_forgets(store: StoreModel, id: u128)
    ensures
        !store.shut_down().desired.contains(id),
        !store.shut_down().runtimes.contains_key(id),
        !store.shut_down().retry_deadlines.contains_key(id),
        !store.shut_down().pending_browser.contains(id),
        store.shut_down().phase(id) == store.phase(id),
        store.shut_down().find(id) == store.find(id),
{
}

/// Opening a tunnel that does not run yet is starting it, where that is still to do, with a browser
/// that waits; where it is wanted already, nothing but the waiting is new.
pub proof fn law_opening_starts_what_does_not_run(store: StoreModel, id: u128)
    requires
        store.find(id) matches Some(tunnel) && tunnel.is_safe_to_run(),
        store.phase(id) !is Running,
    ensures
        ({
            let step = store.open_in_browser(id);
            &&& step.actions == store.start(id).actions
            &&& step.store.pending_browser == store.pending_browser.insert(id)
            &&& step.store.phase(id) == store.start(id).store.phase(id)
            &&& step.store.desired == store.start(id).store.desired
            &&& step.store.retry_attempts == store.start(id).store.retry_attempts
            &&& step.store.retry_deadlines == store.start(id).store.retry_deadlines
            &&& step.store.runtimes == store.runtimes
        }),
{
    let pending = StoreModel { pending_browser: store.pending_browser.insert(id), ..store };
    assert(pending.find(id) == store.find(id));
    assert(pending.with_desired(id).find(id) == store.find(id));
    assert(store.with_desired(id).find(id) == store.find(id));
}

/// Opening what is not there changes nothing; opening what may not run shows it as failed; neither
/// asks for anything.
pub proof fn law_opening_in_vain(store: StoreModel, id: u128)
    requires
        store.find(id) is None || !store.find(id)->0.is_safe_to_run(),
    ensures
        store.open_in_browser(id).actions == Seq::<ActionModel>::empty(),
        store.find(id) is None ==> store.open_in_browser(id).store == store,
        store.find(id) is Some ==> store.open_in_browser(id).store.phase(id) is Failed,
        store.open_in_browser(id).store.pending_browser == store.pending_browser,
        store.open_in_browser(id).store.desired == store.desired,
{
}

/// Toggling a wanted tunnel is stopping it, toggling another is starting it.
pub proof fn law_toggle_starts_or_stops(store: StoreModel, id: u128)
    ensures
        store.desired.contains(id) ==> store.toggle(id) == store.stop(id),
        !store.desired.contains(id) ==> store.toggle(id) == store.start(id),
{
}

} // verus!
