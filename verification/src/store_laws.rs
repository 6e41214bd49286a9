//! What holds of every store, whatever happens to it: a tunnel is shown as active exactly while it
//! is wanted, no wanted tunnel is forgotten, and only tunnels that may run get a process.

use vstd::arithmetic::power2::lemma2_to64;
use vstd::prelude::*;

use crate::model::{PhaseModel, TunnelModel};
use crate::store::{
    exhausted_message, is_listing, lemma_position_in_front, position_of, retry_seconds,
    ActionModel, StoreModel, Transition, MAX_RETRY_ATTEMPTS, NANOS_PER_SECOND,
};

verus! {

/// What the parts of a store say of one tunnel agrees.
pub open spec fn tunnel_consistent(store: StoreModel, id: u128) -> bool {
    // A tunnel is shown as active, and its attempts are counted, exactly while it is wanted.
    &&& store.desired.contains(id) <==> store.phase(id).is_active()
    &&& store.desired.contains(id) <==> store.retry_attempts.contains_key(id)
    &&& store.retry_attempts.contains_key(id) ==> store.retry_attempts[id] <= MAX_RETRY_ATTEMPTS
    // A wanted tunnel is there and may run.
    &&& store.desired.contains(id) ==> {
        &&& store.find(id) matches Some(tunnel)
        &&& tunnel.is_safe_to_run()
    }
    // A browser waits only for wanted tunnels.
    &&& store.pending_browser.contains(id) ==> store.desired.contains(id)
    // A tunnel is shown to wait for a retry exactly while one is scheduled; it has no process then.
    &&& store.retry_deadlines.contains_key(id) <==> store.phase(id) is Retrying
    &&& store.phase(id) matches PhaseModel::Retrying { attempt, max_attempts, delay_seconds, .. }
        ==> {
        &&& !store.runtimes.contains_key(id)
        &&& store.retry_attempts[id] == attempt
        &&& 1 <= attempt
        &&& max_attempts == MAX_RETRY_ATTEMPTS
        &&& delay_seconds == retry_seconds(attempt)
    }
    // What runs has a process.
    &&& store.phase(id) is Running ==> store.runtimes.contains_key(id)
    &&& store.runtimes.contains_key(id) ==> 0 < store.runtimes[id].generation
        <= store.next_generation
}

/// What the parts of a store say agrees, and no two processes share a number.
pub open spec fn consistent(store: StoreModel) -> bool {
    &&& forall|id: u128| #[trigger] tunnel_consistent(store, id)
    &&& forall|a: u128, b: u128|
        #![trigger store.runtimes[a], store.runtimes[b]]
        store.runtimes.contains_key(a) && store.runtimes.contains_key(b) && a != b
            ==> store.runtimes[a].generation != store.runtimes[b].generation
}

/// Whether a process has been asked for that has not been reported yet.
pub open spec fn in_flight(store: StoreModel, id: u128) -> bool {
    &&& store.desired.contains(id)
    &&& store.phase(id) is Starting
    &&& !store.runtimes.contains_key(id)
}

/// What two stores say of one tunnel is the same.
pub open spec fn agree_on(a: StoreModel, b: StoreModel, id: u128) -> bool {
    &&& a.find(id) == b.find(id)
    &&& a.phase(id) == b.phase(id)
    &&& a.desired.contains(id) == b.desired.contains(id)
    &&& a.pending_browser.contains(id) == b.pending_browser.contains(id)
    &&& a.runtimes.contains_key(id) == b.runtimes.contains_key(id)
    &&& a.runtimes.contains_key(id) ==> a.runtimes[id] == b.runtimes[id]
    &&& a.retry_attempts.contains_key(id) == b.retry_attempts.contains_key(id)
    &&& a.retry_attempts.contains_key(id) ==> a.retry_attempts[id] == b.retry_attempts[id]
    &&& a.retry_deadlines.contains_key(id) == b.retry_deadlines.contains_key(id)
    &&& a.retry_deadlines.contains_key(id) ==> a.retry_deadlines[id] == b.retry_deadlines[id]
}

/// What two stores say of every tunnel but one is the same.
pub open spec fn agree_but(a: StoreModel, b: StoreModel, id: u128) -> bool {
    forall|other: u128| other != id ==> #[trigger] agree_on(a, b, other)
}

/// An action that asks for a process asks for it on behalf of a wanted tunnel that has none and
/// that may run, and hands over that tunnel's own arguments.
pub open spec fn launch_is_sound(store: StoreModel, action: ActionModel) -> bool {
    action matches ActionModel::Launch { id, arguments } ==> {
        &&& in_flight(store, id)
        &&& store.find(id) matches Some(tunnel)
        &&& tunnel.is_safe_to_run()
        &&& arguments == tunnel.ssh_arguments()
    }
}

pub open spec fn launches_are_sound(transition: Transition) -> bool {
    forall|i: int|
        0 <= i < transition.actions.len() ==> launch_is_sound(
            transition.store,
            #[trigger] transition.actions[i],
        )
}

/// What is found is in the list, with the id that was looked for.
pub proof fn lemma_position(tunnels: Seq<TunnelModel>, id: u128)
    ensures
        match position_of(tunnels, id) {
            Some(i) => 0 <= i < tunnels.len() && tunnels[i].id == id && forall|j: int|
                0 <= j < i ==> (#[trigger] tunnels[j]).id != id,
            None => forall|j: int| 0 <= j < tunnels.len() ==> (#[trigger] tunnels[j]).id != id,
        },
    decreases tunnels.len(),
{
    if tunnels.len() > 0 {
        let front = tunnels.drop_last();
        lemma_position(front, id);
        assert forall|j: int| 0 <= j < front.len() implies front[j] == #[trigger] tunnels[j] by {}
    }
}

/// The first tunnel with an id is the one that is found.
proof fn lemma_position_is(tunnels: Seq<TunnelModel>, id: u128, i: int)
    requires
        0 <= i < tunnels.len(),
        tunnels[i].id == id,
        forall|j: int| 0 <= j < i ==> (#[trigger] tunnels[j]).id != id,
    ensures
        position_of(tunnels, id) == Some(i),
{
    lemma_position(tunnels, id);
}

/// A tunnel added at the end hides no other.
proof fn lemma_find_after_push(store: StoreModel, tunnel: TunnelModel, id: u128)
    requires
        store.find(id) is Some,
    ensures
        (StoreModel { tunnels: store.tunnels.push(tunnel), ..store }).find(id) == store.find(id),
{
    let longer = store.tunnels.push(tunnel);
    assert(longer.take(store.tunnels.len() as int) =~= store.tunnels);
    lemma_position_in_front(longer, store.tunnels.len() as int, id);
    lemma_position(store.tunnels, id);
}

/// A tunnel that is replaced leaves the others where they are.
proof fn lemma_find_after_update(store: StoreModel, i: int, tunnel: TunnelModel, id: u128)
    requires
        0 <= i < store.tunnels.len(),
        store.tunnels[i].id == tunnel.id,
        id != tunnel.id,
    ensures
        (StoreModel { tunnels: store.tunnels.update(i, tunnel), ..store }).find(id) == store.find(
            id,
        ),
{
    let updated = store.tunnels.update(i, tunnel);
    lemma_position(store.tunnels, id);
    lemma_position(updated, id);
    match position_of(store.tunnels, id) {
        Some(k) => {
            assert(updated[k] == store.tunnels[k]);
            assert forall|j: int| 0 <= j < k implies (#[trigger] updated[j]).id != id by {
                if j != i {
                    assert(updated[j] == store.tunnels[j]);
                }
            }
            lemma_position_is(updated, id, k);
        },
        None => {
            if let Some(k) = position_of(updated, id) {
                assert(store.tunnels[k].id == updated[k].id);
            }
        },
    }
}

/// Without the tunnels of one id, the first of another is the same.
proof fn lemma_find_after_filter(tunnels: Seq<TunnelModel>, gone: u128, id: u128)
    requires
        id != gone,
    ensures
        ({
            let kept = tunnels.filter(|tunnel: TunnelModel| tunnel.id != gone);
            match position_of(tunnels, id) {
                Some(i) => position_of(kept, id) matches Some(k) && kept[k] == tunnels[i],
                None => position_of(kept, id) is None,
            }
        }),
    decreases tunnels.len(),
{
    reveal(Seq::filter);
    let keep = |tunnel: TunnelModel| tunnel.id != gone;
    if tunnels.len() > 0 {
        let front = tunnels.drop_last();
        lemma_find_after_filter(front, gone, id);
        lemma_position(front, id);
        lemma_position(front.filter(keep), id);
        if keep(tunnels.last()) {
            let kept = front.filter(keep).push(tunnels.last());
            assert(tunnels.filter(keep) == kept);
            assert(kept.drop_last() =~= front.filter(keep));
        } else {
            assert(tunnels.filter(keep) == front.filter(keep));
        }
    }
}

/// A consistent store stays so when what it says of one tunnel changes consistently.
proof fn lemma_consistent_by_parts(a: StoreModel, b: StoreModel, id: u128)
    requires
        consistent(a),
        tunnel_consistent(b, id),
        agree_but(a, b, id),
        a.next_generation <= b.next_generation,
        b.runtimes.contains_key(id) && !a.runtimes.contains_key(id) ==> b.runtimes[id].generation
            > a.next_generation,
        b.runtimes.contains_key(id) && a.runtimes.contains_key(id) ==> b.runtimes[id].generation
            == a.runtimes[id].generation,
    ensures
        consistent(b),
{
    assert forall|other: u128| #[trigger] tunnel_consistent(b, other) by {
        if other != id {
            assert(tunnel_consistent(a, other));
            assert(agree_on(a, b, other));
        }
    }
    assert forall|x: u128, y: u128|
        #![trigger b.runtimes[x], b.runtimes[y]]
        b.runtimes.contains_key(x) && b.runtimes.contains_key(y) && x
            != y implies b.runtimes[x].generation != b.runtimes[y].generation by {
        assert(tunnel_consistent(a, x));
        assert(tunnel_consistent(a, y));
        assert(x != id ==> agree_on(a, b, x));
        assert(y != id ==> agree_on(a, b, y));
        assert(a.runtimes[x] == a.runtimes[x] && a.runtimes[y] == a.runtimes[y]);
    }
}

/// A store that has just been loaded is consistent.
pub proof fn law_idle_store_is_consistent(tunnels: Seq<TunnelModel>, notice: Option<Seq<char>>)
    ensures
        consistent(StoreModel::idle(tunnels, notice)),
{
}

/// Stopping a tunnel keeps a store consistent, concerns that tunnel alone, and leaves it neither
/// wanted nor waited for, with no retry ahead and shown as stopped.
pub proof fn law_stop(store: StoreModel, id: u128)
    requires
        consistent(store),
    ensures
        consistent(store.stop(id).store),
        agree_but(store, store.stop(id).store, id),
        launches_are_sound(store.stop(id)),
        !store.stop(id).store.desired.contains(id),
        !store.stop(id).store.pending_browser.contains(id),
        !store.stop(id).store.retry_deadlines.contains_key(id),
        store.stop(id).store.phase(id) is Stopped,
{
    let after = store.stop(id).store;
    assert(tunnel_consistent(store, id));
    assert forall|other: u128| other != id implies #[trigger] agree_on(store, after, other) by {}
    lemma_consistent_by_parts(store, after, id);
}

/// Starting a tunnel keeps a store consistent, concerns that tunnel alone, and asks only for
/// processes that may run. A tunnel that is there and may run is wanted afterwards.
pub proof fn law_start(store: StoreModel, id: u128)
    requires
        consistent(store),
    ensures
        consistent(store.start(id).store),
        agree_but(store, store.start(id).store, id),
        launches_are_sound(store.start(id)),
        store.find(id) matches Some(tunnel) ==> tunnel.is_safe_to_run() ==> store.start(
            id,
        ).store.desired.contains(id),
{
    let after = store.start(id).store;
    assert(tunnel_consistent(store, id));
    assert forall|other: u128| other != id implies #[trigger] agree_on(store, after, other) by {}
    lemma_consistent_by_parts(store, after, id);
}

/// Toggling a tunnel keeps a store consistent, concerns that tunnel alone, and asks only for
/// processes that may run. A tunnel that is there and may run changes between wanted and not.
pub proof fn law_toggle(store: StoreModel, id: u128)
    requires
        consistent(store),
    ensures
        consistent(store.toggle(id).store),
        agree_but(store, store.toggle(id).store, id),
        launches_are_sound(store.toggle(id)),
        store.find(id) matches Some(tunnel) ==> tunnel.is_safe_to_run() ==> (store.toggle(
            id,
        ).store.desired.contains(id) <==> !store.desired.contains(id)),
{
    law_start(store, id);
    law_stop(store, id);
}

/// Opening a tunnel in the browser keeps a store consistent, concerns that tunnel alone, and asks
/// only for processes that may run. Where the tunnel runs, its URL is opened and nothing changes;
/// where it is there and may run but does not yet, it is wanted afterwards and its URL waits.
pub proof fn law_open_in_browser(store: StoreModel, id: u128)
    requires
        consistent(store),
    ensures
        consistent(store.open_in_browser(id).store),
        agree_but(store, store.open_in_browser(id).store, id),
        launches_are_sound(store.open_in_browser(id)),
        store.phase(id) is Running ==> {
            &&& store.open_in_browser(id).store == store
            &&& store.open_in_browser(id).actions == seq![
                ActionModel::OpenUrl(store.find(id)->0.browser_url()),
            ]
        },
        store.find(id) matches Some(tunnel) ==> tunnel.is_safe_to_run() && store.phase(
            id,
        ) !is Running ==> {
            &&& store.open_in_browser(id).store.desired.contains(id)
            &&& store.open_in_browser(id).store.pending_browser.contains(id)
        },
{
    let after = store.open_in_browser(id).store;
    assert(tunnel_consistent(store, id));
    assert forall|other: u128| other != id implies #[trigger] agree_on(store, after, other) by {}
    lemma_consistent_by_parts(store, after, id);
    assert(Seq::empty().push(ActionModel::OpenUrl(store.find(id)->0.browser_url())) =~= seq![
        ActionModel::OpenUrl(store.find(id)->0.browser_url()),
    ]);
}

/// Adding a tunnel keeps a store consistent, and every tunnel that was there is as it was.
pub proof fn law_add(store: StoreModel, tunnel: TunnelModel)
    requires
        consistent(store),
    ensures
        consistent(store.with_tunnel(tunnel).store),
        forall|id: u128|
            store.find(id) is Some ==> #[trigger] agree_on(
                store,
                store.with_tunnel(tunnel).store,
                id,
            ),
{
    let after = store.with_tunnel(tunnel).store;
    assert forall|id: u128| store.find(id) is Some implies #[trigger] agree_on(
        store,
        after,
        id,
    ) by {
        lemma_find_after_push(store, tunnel, id);
    }
    assert forall|id: u128| #[trigger] tunnel_consistent(after, id) by {
        assert(tunnel_consistent(store, id));
        if store.find(id) is Some {
            assert(agree_on(store, after, id));
        }
    }
    assert(after.runtimes == store.runtimes);
}

/// Updating a tunnel keeps a store consistent and concerns that tunnel alone, which is found in its
/// new form and stopped.
pub proof fn law_update(store: StoreModel, tunnel: TunnelModel)
    requires
        consistent(store),
    ensures
        consistent(store.update(tunnel).store),
        agree_but(store, store.update(tunnel).store, tunnel.id),
        launches_are_sound(store.update(tunnel)),
        store.find(tunnel.id) is Some ==> {
            &&& store.update(tunnel).store.find(tunnel.id) == Some(tunnel)
            &&& store.update(tunnel).store.phase(tunnel.id) is Stopped
            &&& !store.update(tunnel).store.desired.contains(tunnel.id)
        },
{
    let id = tunnel.id;
    let after = store.update(tunnel).store;
    law_stop(store, id);
    lemma_position(store.tunnels, id);
    if let Some(i) = position_of(store.tunnels, id) {
        let stopped = store.stop(id).store;
        assert forall|other: u128| other != id implies #[trigger] agree_on(
            store,
            after,
            other,
        ) by {
            assert(agree_on(store, stopped, other));
            lemma_find_after_update(stopped, i, tunnel, other);
        }
        assert forall|j: int| 0 <= j < i implies (#[trigger] after.tunnels[j]).id != id by {
            assert(after.tunnels[j] == store.tunnels[j]);
        }
        lemma_position_is(after.tunnels, id, i);
        assert(tunnel_consistent(stopped, id));
        assert(tunnel_consistent(store, id));
        lemma_consistent_by_parts(store, after, id);
    }
}

/// Deleting a tunnel keeps a store consistent and concerns that tunnel alone, which is gone.
pub proof fn law_delete(store: StoreModel, id: u128)
    requires
        consistent(store),
    ensures
        consistent(store.delete(id).store),
        agree_but(store, store.delete(id).store, id),
        launches_are_sound(store.delete(id)),
        store.delete(id).store.find(id) is None,
        !store.delete(id).store.desired.contains(id),
{
    let after = store.delete(id).store;
    let stopped = store.stop(id).store;
    law_stop(store, id);
    assert forall|other: u128| other != id implies #[trigger] agree_on(store, after, other) by {
        assert(agree_on(store, stopped, other));
        lemma_find_after_filter(store.tunnels, id, other);
    }
    lemma_position(after.tunnels, id);
    if let Some(k) = position_of(after.tunnels, id) {
        store.tunnels.lemma_filter_pred(|tunnel: TunnelModel| tunnel.id != id, k);
    }
    assert(tunnel_consistent(stopped, id));
    assert(tunnel_consistent(store, id));
    lemma_consistent_by_parts(store, after, id);
}

/// The report of a process that was asked for keeps a store consistent and concerns that tunnel
/// alone. The number of the process is above that of every process before it, so the end of an
/// earlier one is never taken for its own.
pub proof fn law_launched(store: StoreModel, id: u128, now: u64)
    requires
        consistent(store),
        in_flight(store, id),
        store.next_generation < u64::MAX,
    ensures
        consistent(store.launched(id, now)),
        agree_but(store, store.launched(id, now), id),
        store.launched(id, now).runtimes.contains_key(id),
        forall|generation: u64|
            generation <= store.next_generation ==> !#[trigger] store.launched(
                id,
                now,
            ).is_current(id, generation),
{
    let after = store.launched(id, now);
    assert(tunnel_consistent(store, id));
    assert forall|other: u128| other != id implies #[trigger] agree_on(store, after, other) by {}
    lemma_consistent_by_parts(store, after, id);
}

/// The report that a process that was asked for could not be started keeps a store consistent and
/// concerns that tunnel alone, which is scheduled for a retry or given up.
pub proof fn law_launch_failed(store: StoreModel, id: u128, message: Seq<char>, now: u64)
    requires
        consistent(store),
        in_flight(store, id),
    ensures
        consistent(store.schedule_retry(id, message, now)),
        agree_but(store, store.schedule_retry(id, message, now), id),
        store.schedule_retry(id, message, now).retry_deadlines.contains_key(id)
            || store.schedule_retry(id, message, now).phase(id) == PhaseModel::Failed(
            exhausted_message(message),
        ),
{
    let after = store.schedule_retry(id, message, now);
    assert(tunnel_consistent(store, id));
    assert forall|other: u128| other != id implies #[trigger] agree_on(store, after, other) by {}
    lemma_consistent_by_parts(store, after, id);
}

/// The end of a process keeps a store consistent, concerns its tunnel alone, and asks only for
/// processes that may run. The end of a process that is not the tunnel's current one changes
/// nothing. A wanted tunnel whose process was not asked to stop is scheduled for a retry or given
/// up.
pub proof fn law_exited(
    store: StoreModel,
    id: u128,
    generation: u64,
    message: Seq<char>,
    now: u64,
)
    requires
        consistent(store),
    ensures
        consistent(store.exited(id, generation, message, now).store),
        agree_but(store, store.exited(id, generation, message, now).store, id),
        launches_are_sound(store.exited(id, generation, message, now)),
        !store.is_current(id, generation) ==> store.exited(id, generation, message, now)
            == store.rest(),
        store.is_current(id, generation) ==> !store.exited(
            id,
            generation,
            message,
            now,
        ).store.runtimes.contains_key(id),
        store.is_current(id, generation) && store.desired.contains(id)
            && !store.runtimes[id].stop_requested ==> {
            let after = store.exited(id, generation, message, now).store;
            after.retry_deadlines.contains_key(id) || after.phase(id) == PhaseModel::Failed(
                exhausted_message(message),
            )
        },
{
    let after = store.exited(id, generation, message, now).store;
    assert(tunnel_consistent(store, id));
    assert forall|other: u128| other != id implies #[trigger] agree_on(store, after, other) by {}
    lemma_consistent_by_parts(store, after, id);
}

/// A notice keeps a store consistent.
pub proof fn law_notice(store: StoreModel, notice: Option<Seq<char>>)
    requires
        consistent(store),
    ensures
        consistent(StoreModel { notice, ..store }),
{
    let after = StoreModel { notice, ..store };
    assert forall|id: u128| #[trigger] tunnel_consistent(after, id) by {
        assert(tunnel_consistent(store, id));
    }
    assert(after.runtimes == store.runtimes);
}

/// Launching asks for tunnels that are in flight afterwards.
proof fn lemma_relaunchings_sound(store: StoreModel, now: u64, ids: Seq<u128>)
    requires
        consistent(store),
        forall|i: int| 0 <= i < ids.len() ==> store.due(now).contains(#[trigger] ids[i]),
    ensures
        forall|i: int|
            0 <= i < store.relaunchings(ids).len() ==> launch_is_sound(
                store.ticked(now),
                #[trigger] store.relaunchings(ids)[i],
            ),
    decreases ids.len(),
{
    if ids.len() > 0 {
        let front = ids.drop_last();
        assert forall|i: int| 0 <= i < front.len() implies store.due(now).contains(
            #[trigger] front[i],
        ) by {
            assert(front[i] == ids[i]);
        }
        lemma_relaunchings_sound(store, now, front);
        let id = ids.last();
        assert(store.due(now).contains(ids[ids.len() - 1]));
        assert(tunnel_consistent(store, id));
        assert(store.ticked(now).find(id) == store.find(id));
        assert forall|i: int| 0 <= i < store.relaunchings(ids).len() implies launch_is_sound(
            store.ticked(now),
            #[trigger] store.relaunchings(ids)[i],
        ) by {
            if i < store.relaunchings(front).len() {
                assert(store.relaunchings(ids)[i] == store.relaunchings(front)[i]);
            }
        }
    }
}

/// Opening URLs asks for no process.
proof fn lemma_openings_sound(store: StoreModel, after: StoreModel, ids: Seq<u128>)
    ensures
        forall|i: int|
            0 <= i < store.openings(ids).len() ==> launch_is_sound(
                after,
                #[trigger] store.openings(ids)[i],
            ),
    decreases ids.len(),
{
    if ids.len() > 0 {
        let front = ids.drop_last();
        lemma_openings_sound(store, after, front);
        assert forall|i: int| 0 <= i < store.openings(ids).len() implies launch_is_sound(
            after,
            #[trigger] store.openings(ids)[i],
        ) by {
            if i < store.openings(front).len() {
                assert(store.openings(ids)[i] == store.openings(front)[i]);
            }
        }
    }
}

/// A tick keeps a store consistent and asks only for processes that may run.
pub proof fn law_tick(store: StoreModel, now: u64, actions: Seq<ActionModel>)
    requires
        consistent(store),
        store.are_tick_actions(now, actions),
    ensures
        consistent(store.ticked(now)),
        launches_are_sound(Transition { store: store.ticked(now), actions }),
{
    let after = store.ticked(now);
    assert forall|id: u128| #[trigger] tunnel_consistent(after, id) by {
        assert(tunnel_consistent(store, id));
        assert(after.find(id) == store.find(id));
        assert(store.due(now).contains(id) ==> store.relaunches(id));
    }
    assert(after.runtimes == store.runtimes);
    let (connected, due) = choose|connected: Seq<u128>, due: Seq<u128>|
        #![trigger store.openings(connected), store.relaunchings(due)]
        {
            &&& is_listing(connected, store.connected(now))
            &&& is_listing(due, store.due(now))
            &&& actions == store.openings(connected) + store.relaunchings(due)
        };
    assert forall|i: int| 0 <= i < due.len() implies store.due(now).contains(
        #[trigger] due[i],
    ) by {
        assert(due.to_set().contains(due[i]));
    }
    lemma_relaunchings_sound(store, now, due);
    lemma_openings_sound(store, after, connected);
    let transition = Transition { store: after, actions };
    assert forall|i: int| 0 <= i < actions.len() implies launch_is_sound(
        after,
        #[trigger] transition.actions[i],
    ) by {
        let openings = store.openings(connected);
        if i < openings.len() {
            assert(actions[i] == openings[i]);
        } else {
            assert(actions[i] == store.relaunchings(due)[i - openings.len()]);
        }
    }
}

/// The URL of every tunnel of a list for which a browser waits is opened.
proof fn lemma_openings_serve(store: StoreModel, ids: Seq<u128>, id: u128)
    requires
        ids.contains(id),
        store.pending_browser.contains(id),
        store.find(id) is Some,
    ensures
        store.openings(ids).contains(ActionModel::OpenUrl(store.find(id)->0.browser_url())),
    decreases ids.len(),
{
    let url = ActionModel::OpenUrl(store.find(id)->0.browser_url());
    let front = ids.drop_last();
    if ids.last() == id {
        assert(store.openings(ids).last() == url);
    } else {
        let k = choose|k: int| 0 <= k < ids.len() && ids[k] == id;
        assert(front[k] == id);
        lemma_openings_serve(store, front, id);
        let before = store.openings(front);
        let i = choose|i: int| 0 <= i < before.len() && before[i] == url;
        assert(store.openings(ids)[i] == url);
    }
}

/// A process is asked for on behalf of every tunnel of a list that may get one.
pub proof fn lemma_relaunchings_serve(store: StoreModel, ids: Seq<u128>, id: u128)
    requires
        ids.contains(id),
        store.relaunches(id),
    ensures
        store.relaunchings(ids).contains(
            ActionModel::Launch { id, arguments: store.find(id)->0.ssh_arguments() },
        ),
    decreases ids.len(),
{
    let launch = ActionModel::Launch { id, arguments: store.find(id)->0.ssh_arguments() };
    let front = ids.drop_last();
    if ids.last() == id {
        assert(store.relaunchings(ids).last() == launch);
    } else {
        let k = choose|k: int| 0 <= k < ids.len() && ids[k] == id;
        assert(front[k] == id);
        lemma_relaunchings_serve(store, front, id);
        let before = store.relaunchings(front);
        let i = choose|i: int| 0 <= i < before.len() && before[i] == launch;
        assert(store.relaunchings(ids)[i] == launch);
    }
}

/// A tick leaves nobody waiting: a tunnel that becomes connected while a browser waits for it has
/// its URL opened, and one whose retry has come gets a process.
pub proof fn law_tick_serves_everyone(
    store: StoreModel,
    now: u64,
    actions: Seq<ActionModel>,
    id: u128,
)
    requires
        consistent(store),
        store.are_tick_actions(now, actions),
    ensures
        store.is_connected(id, now) ==> store.ticked(now).phase(id) is Running,
        store.is_connected(id, now) && store.pending_browser.contains(id) ==> actions.contains(
            ActionModel::OpenUrl(store.find(id)->0.browser_url()),
        ),
        store.due(now).contains(id) ==> in_flight(store.ticked(now), id),
        store.due(now).contains(id) ==> actions.contains(
            ActionModel::Launch { id, arguments: store.find(id)->0.ssh_arguments() },
        ),
{
    assert(tunnel_consistent(store, id));
    let (connected, due) = choose|connected: Seq<u128>, due: Seq<u128>|
        #![trigger store.openings(connected), store.relaunchings(due)]
        {
            &&& is_listing(connected, store.connected(now))
            &&& is_listing(due, store.due(now))
            &&& actions == store.openings(connected) + store.relaunchings(due)
        };
    let openings = store.openings(connected);
    let relaunchings = store.relaunchings(due);
    if store.is_connected(id, now) && store.pending_browser.contains(id) {
        assert(connected.to_set().contains(id));
        lemma_openings_serve(store, connected, id);
        let url = ActionModel::OpenUrl(store.find(id)->0.browser_url());
        let i = choose|i: int| 0 <= i < openings.len() && openings[i] == url;
        assert(actions[i] == url);
    }
    if store.due(now).contains(id) {
        assert(due.to_set().contains(id));
        lemma_relaunchings_serve(store, due, id);
        let launch = ActionModel::Launch { id, arguments: store.find(id)->0.ssh_arguments() };
        let i = choose|i: int| 0 <= i < relaunchings.len() && relaunchings[i] == launch;
        assert(actions[openings.len() + i] == launch);
    }
}

/// After a tick nothing more happens at the same moment: no tunnel becomes connected, none is due,
/// and another tick changes nothing. So a URL that waited is opened once.
pub proof fn law_tick_settles(store: StoreModel, now: u64)
    ensures
        store.ticked(now).connected(now) == Set::<u128>::empty(),
        store.ticked(now).due(now) == Set::<u128>::empty(),
        !store.ticked(now).tick_changes(now),
        store.ticked(now).ticked(now) == store.ticked(now),
        store.ticked(now).pending_browser.disjoint(store.connected(now)),
{
    let after = store.ticked(now);
    assert(after.connected(now) =~= Set::<u128>::empty());
    assert(after.due(now) =~= Set::<u128>::empty());
    let again = after.ticked(now);
    assert(again.phases =~= after.phases);
    assert(again.retry_attempts =~= after.retry_attempts);
    assert(again.retry_deadlines =~= after.retry_deadlines);
    assert(again.pending_browser =~= after.pending_browser);
}

/// The tunnels that are shown as active are the wanted ones, so the number of running tunnels that
/// is shown is the number of wanted ones.
pub proof fn law_active_tunnels_are_the_wanted_ones(store: StoreModel)
    requires
        consistent(store),
    ensures
        store.active() == store.desired,
{
    assert forall|id: u128| #[trigger] store.active().contains(id) <==> store.desired.contains(
        id,
    ) by {
        assert(tunnel_consistent(store, id));
    }
    assert(store.active() =~= store.desired);
}

/// No wanted tunnel is forgotten: it has a process, waits for a retry, or has asked for a process
/// of which the report is still out.
pub proof fn law_no_wanted_tunnel_is_forgotten(store: StoreModel, id: u128)
    requires
        consistent(store),
        store.desired.contains(id),
    ensures
        store.runtimes.contains_key(id) || store.retry_deadlines.contains_key(id) || in_flight(
            store,
            id,
        ),
{
    assert(tunnel_consistent(store, id));
}

/// A stop undoes a start: a tunnel without a process that was not wanted is as it was, and shown as
/// stopped.
pub proof fn law_stop_undoes_start(store: StoreModel, id: u128)
    requires
        consistent(store),
        !store.desired.contains(id),
        !store.runtimes.contains_key(id),
    ensures
        store.start(id).store.stop(id).store == store.with_phase(id, PhaseModel::Stopped),
{
    assert(tunnel_consistent(store, id));
    let after = store.start(id).store.stop(id).store;
    let then = store.with_phase(id, PhaseModel::Stopped);
    assert(after.phases =~= then.phases);
    assert(after.desired =~= then.desired);
    assert(after.retry_attempts =~= then.retry_attempts);
    assert(after.retry_deadlines =~= then.retry_deadlines);
    assert(after.pending_browser =~= then.pending_browser);
}

/// A stop outlasts the process: when the process of a stopped tunnel ends, for whatever reason,
/// nothing is started, and the tunnel stays stopped.
pub proof fn law_stop_outlasts_the_process(
    store: StoreModel,
    id: u128,
    generation: u64,
    message: Seq<char>,
    now: u64,
)
    requires
        store.find(id) is Some,
    ensures
        store.stop(id).store.exited(id, generation, message, now).actions == Seq::<
            ActionModel,
        >::empty(),
        !store.stop(id).store.exited(id, generation, message, now).store.desired.contains(id),
        store.stop(id).store.exited(id, generation, message, now).store.phase(id) is Stopped,
{
}

/// A restart waits for the end of the old process: a tunnel that is stopped and started while its
/// process still runs asks for the next process when the old one ends, and not before.
pub proof fn law_restart_waits_for_the_old_process(
    store: StoreModel,
    id: u128,
    message: Seq<char>,
    now: u64,
)
    requires
        store.runtimes.contains_key(id),
        store.find(id) matches Some(tunnel) && tunnel.is_safe_to_run(),
    ensures
        store.stop(id).store.start(id).actions == Seq::<ActionModel>::empty(),
        store.stop(id).store.start(id).store.exited(
            id,
            store.runtimes[id].generation,
            message,
            now,
        ).actions == seq![
            ActionModel::Launch { id, arguments: store.find(id)->0.ssh_arguments() },
        ],
{
    let restarted = store.stop(id).store.start(id).store;
    assert(restarted.find(id) == store.find(id));
    assert(restarted.exited(id, store.runtimes[id].generation, message, now).actions =~= seq![
        ActionModel::Launch { id, arguments: store.find(id)->0.ssh_arguments() },
    ]);
}

/// After a shutdown nothing is wanted, nothing runs, and neither time nor the end of a process
/// changes anything.
pub proof fn law_shutdown_is_final(
    store: StoreModel,
    id: u128,
    generation: u64,
    message: Seq<char>,
    now: u64,
)
    ensures
        store.shut_down().desired == Set::<u128>::empty(),
        store.shut_down().exited(id, generation, message, now) == store.shut_down().rest(),
        store.shut_down().ticked(now) == store.shut_down(),
        !store.shut_down().tick_changes(now),
{
    let after = store.shut_down();
    let later = after.ticked(now);
    assert(later.phases =~= after.phases);
    assert(later.retry_attempts =~= after.retry_attempts);
    assert(later.retry_deadlines =~= after.retry_deadlines);
    assert(later.pending_browser =~= after.pending_browser);
}

/// What changes the tunnels asks for them to be saved, and asks for it last; nothing else changes
/// them.
pub proof fn law_changes_are_saved(
    store: StoreModel,
    tunnel: TunnelModel,
    id: u128,
    generation: u64,
    message: Seq<char>,
    now: u64,
)
    ensures
        store.with_tunnel(tunnel).actions.last() == ActionModel::Save,
        store.update(tunnel).store.tunnels != store.tunnels ==> store.update(tunnel).actions.last()
            == ActionModel::Save,
        store.delete(id).actions.last() == ActionModel::Save,
        store.start(id).store.tunnels == store.tunnels,
        store.stop(id).store.tunnels == store.tunnels,
        store.toggle(id).store.tunnels == store.tunnels,
        store.open_in_browser(id).store.tunnels == store.tunnels,
        store.launched(id, now).tunnels == store.tunnels,
        store.schedule_retry(id, message, now).tunnels == store.tunnels,
        store.exited(id, generation, message, now).store.tunnels == store.tunnels,
        store.ticked(now).tunnels == store.tunnels,
        store.shut_down().tunnels == store.tunnels,
{
}

/// A store after a tunnel has failed so many times in a row.
pub open spec fn failed_times(
    store: StoreModel,
    id: u128,
    times: nat,
    message: Seq<char>,
    now: u64,
) -> StoreModel
    decreases times,
{
    if times == 0 {
        store
    } else {
        failed_times(store, id, (times - 1) as nat, message, now).schedule_retry(id, message, now)
    }
}

/// A tunnel that was just started is tried again after each of its first failures in a row, with
/// the delay of its attempt, and given up after one failure more than there are attempts.
pub proof fn law_retries_run_out(
    store: StoreModel,
    id: u128,
    times: nat,
    message: Seq<char>,
    now: u64,
)
    requires
        store.desired.contains(id),
        store.retry_attempts.contains_key(id),
        store.retry_attempts[id] == 0,
    ensures
        0 < times <= MAX_RETRY_ATTEMPTS ==> {
            let after = failed_times(store, id, times, message, now);
            &&& after.desired.contains(id)
            &&& after.phase(id) == PhaseModel::Retrying {
                attempt: times as u32,
                max_attempts: MAX_RETRY_ATTEMPTS,
                delay_seconds: retry_seconds(times as u32) as u64,
                message,
            }
            &&& after.retry_deadlines[id] == now + retry_seconds(times as u32) * NANOS_PER_SECOND
        },
        times == MAX_RETRY_ATTEMPTS + 1 ==> {
            let after = failed_times(store, id, times, message, now);
            &&& !after.desired.contains(id)
            &&& after.phase(id) == PhaseModel::Failed(exhausted_message(message))
        },
{
    lemma_attempts_count(store, id, times, message, now);
    if 0 < times <= MAX_RETRY_ATTEMPTS + 1 {
        lemma_attempts_count(store, id, (times - 1) as nat, message, now);
    }
    law_retry_delay(times as u32);
}

/// Each failure counts one attempt, as long as there are attempts left.
proof fn lemma_attempts_count(
    store: StoreModel,
    id: u128,
    times: nat,
    message: Seq<char>,
    now: u64,
)
    requires
        store.desired.contains(id),
        store.retry_attempts.contains_key(id),
        store.retry_attempts[id] == 0,
    ensures
        times <= MAX_RETRY_ATTEMPTS ==> {
            let after = failed_times(store, id, times, message, now);
            &&& after.desired.contains(id)
            &&& after.retry_attempts.contains_key(id)
            &&& after.retry_attempts[id] == times
        },
    decreases times,
{
    if times > 0 {
        lemma_attempts_count(store, id, (times - 1) as nat, message, now);
    }
}

/// The delay before a retry is at least a second and at most a minute, is twice the one before
/// until that would pass a minute, and never shrinks.
pub proof fn law_retry_delay(attempt: u32)
    ensures
        1 <= retry_seconds(attempt) <= 60,
        1 <= attempt <= 5 ==> retry_seconds((attempt + 1) as u32) == 2 * retry_seconds(attempt),
        attempt >= 7 ==> retry_seconds(attempt) == 60,
        attempt < u32::MAX ==> retry_seconds(attempt) <= retry_seconds((attempt + 1) as u32),
{
    lemma2_to64();
}

} // verus!
