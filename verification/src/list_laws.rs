//! What becomes of the list of tunnels: what is loaded, added, changed and deleted, and what is
//! told when saving or opening fails.

use vstd::prelude::*;

use crate::model::TunnelModel;
use crate::store::{
    loaded, open_notice, position_of, save_notice, ActionModel, SavedTunnels, StoreModel,
};
use crate::store_laws::{consistent, law_delete, lemma_position};

verus! {

/// A tunnel is found by its id: the first in the list that has it, and none exactly if none has it.
pub proof fn law_find(store: StoreModel, id: u128)
    ensures
        match store.find(id) {
            Some(tunnel) => exists|i: int|
                #![trigger store.tunnels[i]]
                0 <= i < store.tunnels.len() && store.tunnels[i] == tunnel && tunnel.id == id && (
                forall|j: int| 0 <= j < i ==> (#[trigger] store.tunnels[j]).id != id),
            None => forall|i: int|
                0 <= i < store.tunnels.len() ==> (#[trigger] store.tunnels[i]).id != id,
        },
{
    lemma_position(store.tunnels, id);
    if let Some(i) = position_of(store.tunnels, id) {
        assert(store.tunnels[i] == store.find(id)->0);
    }
}

/// What was saved is loaded, every tunnel in its place, and nothing runs; where nothing could be
/// read, there is none, and a notice ends in the reason exactly if there was one.
pub proof fn law_load(saved: SavedTunnels, id: u128)
    ensures
        match saved {
            SavedTunnels::Loaded(tunnels) => {
                &&& loaded(saved).tunnels.len() == tunnels@.len()
                &&& forall|i: int|
                    0 <= i < tunnels@.len() ==> #[trigger] loaded(saved).tunnels[i] == tunnels@[i]@
                &&& loaded(saved).notice is None
            },
            SavedTunnels::Missing => loaded(saved).tunnels.len() == 0 && loaded(
                saved,
            ).notice is None,
            SavedTunnels::Unreadable(error) => {
                &&& loaded(saved).tunnels.len() == 0
                &&& loaded(saved).notice matches Some(notice)
                &&& notice.len() > error@.len()
                &&& notice.skip(notice.len() - error@.len()) == error@
            },
        },
        loaded(saved).phase(id) is Stopped,
        !loaded(saved).desired.contains(id),
        !loaded(saved).runtimes.contains_key(id),
        !loaded(saved).pending_browser.contains(id),
        !loaded(saved).retry_deadlines.contains_key(id),
        loaded(saved).next_generation == 0,
        consistent(loaded(saved)),
{
    reveal_strlit("Could not read saved tunnels: ");
    if let SavedTunnels::Unreadable(error) = saved {
        let notice = loaded(saved).notice->0;
        assert(notice.skip(notice.len() - error@.len()) =~= error@);
    }
}

/// An added tunnel stands at the end, behind all that were there, and nothing else changes.
pub proof fn law_added_tunnels_stand_at_the_end(store: StoreModel, tunnel: TunnelModel)
    ensures
        store.with_tunnel(tunnel).store.tunnels.len() == store.tunnels.len() + 1,
        store.with_tunnel(tunnel).store.tunnels.last() == tunnel,
        store.with_tunnel(tunnel).store.tunnels.drop_last() == store.tunnels,
        store.with_tunnel(tunnel).store == (StoreModel {
            tunnels: store.with_tunnel(tunnel).store.tunnels,
            ..store
        }),
        store.with_tunnel(tunnel).actions == seq![ActionModel::Save],
        store.find(tunnel.id) is None ==> store.with_tunnel(tunnel).store.find(tunnel.id) == Some(
            tunnel,
        ),
{
    let after = store.with_tunnel(tunnel).store;
    assert(after.tunnels.drop_last() =~= store.tunnels);
    assert(store.with_tunnel(tunnel).actions =~= seq![ActionModel::Save]);
}

/// An update changes the first tunnel with the id and no other place of the list, stops the tunnel
/// as a stop does, and asks for a save behind that; without such a tunnel it does nothing.
pub proof fn law_update_replaces_one(store: StoreModel, tunnel: TunnelModel)
    ensures
        store.find(tunnel.id) is None ==> store.update(tunnel) == store.rest(),
        store.find(tunnel.id) is Some ==> {
            let step = store.update(tunnel);
            let stopped = store.stop(tunnel.id);
            &&& step.actions == stopped.actions + seq![ActionModel::Save]
            &&& step.store == (StoreModel { tunnels: step.store.tunnels, ..stopped.store })
            &&& step.store.tunnels.len() == store.tunnels.len()
            &&& step.store.find(tunnel.id) == Some(tunnel)
            &&& forall|i: int|
                0 <= i < store.tunnels.len() ==> #[trigger] step.store.tunnels[i]
                    == store.tunnels[i] || (step.store.tunnels[i] == tunnel
                    && store.tunnels[i].id == tunnel.id && forall|j: int|
                    0 <= j < i ==> (#[trigger] store.tunnels[j]).id != tunnel.id)
        },
{
    lemma_position(store.tunnels, tunnel.id);
    let step = store.update(tunnel);
    if let Some(i) = position_of(store.tunnels, tunnel.id) {
        assert(step.actions =~= store.stop(tunnel.id).actions + seq![ActionModel::Save]);
        lemma_position(step.store.tunnels, tunnel.id);
        let k = position_of(step.store.tunnels, tunnel.id);
        assert(step.store.tunnels[i] == tunnel);
        assert forall|j: int| 0 <= j < i implies (#[trigger] step.store.tunnels[j]).id
            != tunnel.id by {
            assert(step.store.tunnels[j] == store.tunnels[j]);
        }
    }
}

/// A delete takes out every tunnel with the id and leaves the others in their order: deleting after
/// an addition is adding after the delete, unless the added tunnel is the deleted one. It stops the
/// tunnel as a stop does, forgets its phase, and asks for a save behind that.
pub proof fn law_delete_takes_out_one_id(store: StoreModel, id: u128, tunnel: TunnelModel)
    ensures
        store.tunnels.len() == 0 ==> store.delete(id).store.tunnels.len() == 0,
        store.with_tunnel(tunnel).store.delete(id).store.tunnels == (if tunnel.id == id {
            store.delete(id).store.tunnels
        } else {
            store.delete(id).store.tunnels.push(tunnel)
        }),
        store.delete(id).actions == store.stop(id).actions + seq![ActionModel::Save],
        !store.delete(id).store.phases.contains_key(id),
        store.delete(id).store.desired == store.stop(id).store.desired,
        store.delete(id).store.runtimes == store.stop(id).store.runtimes,
        store.delete(id).store.retry_attempts == store.stop(id).store.retry_attempts,
        store.delete(id).store.retry_deadlines == store.stop(id).store.retry_deadlines,
        store.delete(id).store.pending_browser == store.stop(id).store.pending_browser,
        store.delete(id).store.notice == store.notice,
        store.delete(id).store.next_generation == store.next_generation,
{
    reveal(Seq::filter);
    let longer = store.tunnels.push(tunnel);
    assert(longer.drop_last() =~= store.tunnels);
    assert(store.delete(id).actions =~= store.stop(id).actions + seq![ActionModel::Save]);
}

/// Deleting twice is deleting once, but for the save and a process that is asked again to stop.
pub proof fn law_delete_is_final(store: StoreModel, id: u128)
    requires
        consistent(store),
    ensures
        store.delete(id).store.delete(id).store.tunnels == store.delete(id).store.tunnels,
        store.delete(id).store.start(id).store == store.delete(id).store,
        store.delete(id).store.start(id).actions == Seq::<ActionModel>::empty(),
        store.delete(id).store.open_in_browser(id).actions == Seq::<ActionModel>::empty(),
{
    law_delete(store, id);
    let once = store.delete(id).store;
    let keep = |tunnel: TunnelModel| tunnel.id != id;
    assert forall|i: int| 0 <= i < once.tunnels.len() implies keep(#[trigger] once.tunnels[i]) by {
        store.tunnels.lemma_filter_pred(keep, i);
    }
    lemma_filter_all(once.tunnels, keep);
}

/// A filter that everything passes changes nothing.
proof fn lemma_filter_all(tunnels: Seq<TunnelModel>, keep: spec_fn(TunnelModel) -> bool)
    requires
        forall|i: int| 0 <= i < tunnels.len() ==> keep(#[trigger] tunnels[i]),
    ensures
        tunnels.filter(keep) == tunnels,
    decreases tunnels.len(),
{
    reveal(Seq::filter);
    if tunnels.len() > 0 {
        let front = tunnels.drop_last();
        assert forall|i: int| 0 <= i < front.len() implies keep(#[trigger] front[i]) by {
            assert(front[i] == tunnels[i]);
        }
        lemma_filter_all(front, keep);
        assert(keep(tunnels[tunnels.len() - 1]));
        assert(front.push(tunnels.last()) =~= tunnels);
    }
}

/// The notices on a save and on a URL that could not be opened end in the reason, and the second
/// holds the URL: what is told of one failure is not told of another.
pub proof fn law_notices_tell_the_reason(url: Seq<char>, error: Seq<char>, other: Seq<char>)
    ensures
        save_notice(error).skip(save_notice(error).len() - error.len()) == error,
        open_notice(url, error).skip(open_notice(url, error).len() - error.len()) == error,
        open_notice(url, error).subrange(15, 15int + url.len()) == url,
        save_notice(error) == save_notice(other) ==> error == other,
        open_notice(url, error) == open_notice(url, other) ==> error == other,
        save_notice(error) != open_notice(url, other),
{
    reveal_strlit("Could not save tunnels: ");
    reveal_strlit("Could not open ");
    reveal_strlit(": ");
    let saving = save_notice(error);
    let opening = open_notice(url, error);
    assert(saving.skip(saving.len() - error.len()) =~= error);
    assert(opening.skip(opening.len() - error.len()) =~= error);
    assert(opening.subrange(15, 15int + url.len()) =~= url);
    assert(save_notice(other).skip(save_notice(other).len() - other.len()) =~= other);
    assert(open_notice(url, other).skip(open_notice(url, other).len() - other.len()) =~= other);
    assert(saving[10] == 's');
    assert(open_notice(url, other)[10] == 'o');
}

} // verus!
