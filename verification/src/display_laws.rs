//! What is shown tells what is so: counts, phases, rows and hints.

use vstd::prelude::*;

use crate::display::{
    activity_of, activity_text, options_hint_of, phase_description, refreshed, row_of, rows_of,
    status_style, tray_menu, tray_status, tray_title, MenuEntryModel, TrayCommand,
};
use crate::model::{listens_beyond_loopback, PhaseModel, TunnelModel};
use crate::model_laws::{begins_with, ends_in};
use crate::store::StoreModel;
use crate::store_laws::{
    consistent, law_active_tunnels_are_the_wanted_ones, tunnel_consistent,
};
use crate::text::{decimal, is_digit};
use crate::text_laws::law_decimal;

verus! {

/// The tray and the window tell the number of active tunnels: it stands in front of the word that
/// it counts, no two numbers are told alike, and one tunnel is told in the singular.
pub proof fn law_counts_are_told(n: nat, m: nat, tunnels: nat, others: nat)
    ensures
        n > 0 ==> tray_title(n) == "RelayBar · "@ + decimal(n) + " active"@,
        n > 0 ==> begins_with(tray_status(n), decimal(n) + " active tunnel"@),
        n > 0 ==> begins_with(activity_text(n, tunnels), decimal(n) + " tunnel"@),
        n > 0 ==> tray_status(n).len() == decimal(n).len() + (if n == 1 {
            14int
        } else {
            15
        }),
        n > 0 ==> activity_text(n, tunnels).len() == decimal(n).len() + (if n == 1 {
            14int
        } else {
            15
        }),
        n > 0 ==> activity_text(n, tunnels) == activity_text(n, others),
        tray_title(n) == tray_title(m) ==> n == m,
        tray_status(n) == tray_status(m) ==> n == m,
        activity_text(n, tunnels) == activity_text(m, others) ==> n == m,
        tunnels > 0 && others > 0 ==> activity_text(0, tunnels) == activity_text(0, others),
        tunnels > 0 ==> activity_text(0, tunnels) != activity_text(0, 0),
{
    lemma_count(n, tunnels);
    lemma_count(m, others);
    law_decimal(n, m);
    reveal_strlit("All tunnels stopped");
    reveal_strlit("Simple SSH tunnels");
    assert("All tunnels stopped"@[0] != "Simple SSH tunnels"@[0]);
    if n > 0 && m > 0 {
        if tray_title(n) == tray_title(m) {
            let x = tray_title(n);
            assert(x.subrange(11, x.len() - 7) == decimal(n));
            assert(x.subrange(11, x.len() - 7) == decimal(m));
        }
        if tray_status(n) == tray_status(m) {
            lemma_same_front(tray_status(n), decimal(n), decimal(m), n == 1, m == 1);
        }
        if activity_text(n, tunnels) == activity_text(m, others) {
            lemma_same_front(
                activity_text(n, tunnels),
                decimal(n),
                decimal(m),
                n == 1,
                m == 1,
            );
        }
    }
}

/// The line under the title tells the number of wanted tunnels; where none is wanted, it tells
/// whether there are any.
pub proof fn law_activity_tells_the_wanted(store: StoreModel, other: StoreModel)
    requires
        consistent(store),
        consistent(other),
    ensures
        store.desired.len() > 0 ==> begins_with(
            activity_of(store),
            decimal(store.desired.len()) + " tunnel"@,
        ),
        activity_of(store) == activity_of(other) ==> store.desired.len() == other.desired.len(),
        store.desired.len() == 0 && other.desired.len() == 0 ==> (activity_of(store)
            == activity_of(other) <==> (store.tunnels.len() == 0 <==> other.tunnels.len() == 0)),
{
    law_active_tunnels_are_the_wanted_ones(store);
    law_active_tunnels_are_the_wanted_ones(other);
    law_counts_are_told(
        store.desired.len(),
        other.desired.len(),
        store.tunnels.len(),
        other.tunnels.len(),
    );
    law_counts_are_told(0, 0, other.tunnels.len(), store.tunnels.len());
}

/// What is not drawn anew shows what is so: the tray is left alone exactly if its title would be the
/// same, and the window exactly if nothing changed and every URL could be opened.
pub proof fn law_refresh(changed: bool, open_failed: bool, running: nat, shown: nat)
    ensures
        refreshed(changed, open_failed, running, shown).tray <==> tray_title(running) != tray_title(
            shown,
        ),
        !refreshed(changed, open_failed, running, shown).window <==> !changed && !open_failed,
{
    law_counts_are_told(running, shown, 0, 0);
}

/// The menu tells the number of active tunnels first, which cannot be chosen, and offers the same
/// whatever the number: to show or hide the window, and to quit, each once.
pub proof fn law_menu(n: nat, m: nat)
    ensures
        tray_menu(n)[0] == MenuEntryModel::Status(tray_status(n)),
        tray_menu(n).skip(1) == tray_menu(m).skip(1),
        tray_menu(n).filter(|entry: MenuEntryModel| entry is Item).len() == 2,
        exists|i: int|
            0 <= i < tray_menu(n).len() && (#[trigger] tray_menu(n)[i]) is Item && tray_menu(
                n,
            )[i]->command == TrayCommand::Quit,
        exists|i: int|
            0 <= i < tray_menu(n).len() && (#[trigger] tray_menu(n)[i]) is Item && tray_menu(
                n,
            )[i]->command == TrayCommand::ShowOrHide,
{
    assert(tray_menu(n).skip(1) =~= tray_menu(m).skip(1));
    let items = |entry: MenuEntryModel| entry is Item;
    let menu = tray_menu(n);
    assert(menu[2] is Item && menu[2]->command == TrayCommand::ShowOrHide);
    assert(menu[3] is Item && menu[3]->command == TrayCommand::Quit);
    reveal(Seq::filter);
    assert(menu.drop_last() =~= menu.take(3));
    assert(menu.take(3).drop_last() =~= menu.take(2));
    assert(menu.take(2).drop_last() =~= menu.take(1));
    assert(menu.take(1).drop_last() =~= menu.take(0));
    assert(menu.take(0).filter(items).len() == 0);
    assert(menu.take(1).filter(items).len() == 0);
    assert(menu.take(2).filter(items).len() == 0);
    assert(menu.take(3).filter(items).len() == 1);
}

/// Two numbers of the same length in front of the same text are the same.
proof fn lemma_same_front(s: Seq<char>, x: Seq<char>, y: Seq<char>, one: bool, other: bool)
    requires
        begins_with(s, x),
        begins_with(s, y),
        s.len() == x.len() + (if one {
            14int
        } else {
            15
        }),
        s.len() == y.len() + (if other {
            14int
        } else {
            15
        }),
        one ==> x == decimal(1),
        other ==> y == decimal(1),
        !one ==> x.len() > 0,
        !other ==> y.len() > 0,
    ensures
        x == y,
{
    assert(decimal(1).len() == 1);
}

proof fn lemma_count(n: nat, tunnels: nat)
    ensures
        n > 0 ==> {
            &&& tray_title(n) == "RelayBar · "@ + decimal(n) + " active"@
            &&& tray_title(n).len() == decimal(n).len() + 18
            &&& tray_title(n).subrange(11, tray_title(n).len() - 7) == decimal(n)
            &&& begins_with(tray_status(n), decimal(n) + " active tunnel"@)
            &&& begins_with(tray_status(n), decimal(n))
            &&& begins_with(activity_text(n, tunnels), decimal(n) + " tunnel"@)
            &&& begins_with(activity_text(n, tunnels), decimal(n))
            &&& tray_status(n).len() == decimal(n).len() + (if n == 1 {
                14int
            } else {
                15
            })
            &&& activity_text(n, tunnels).len() == decimal(n).len() + (if n == 1 {
                14int
            } else {
                15
            })
            &&& is_digit(tray_status(n)[0])
            &&& is_digit(activity_text(n, tunnels)[0])
            &&& decimal(n).len() > 0
        },
        n == 0 ==> {
            &&& tray_title(n).len() == 8
            &&& !is_digit(tray_status(n)[0])
            &&& !is_digit(activity_text(n, tunnels)[0])
        },
{
    reveal_strlit("RelayBar");
    reveal_strlit("RelayBar · ");
    reveal_strlit(" active");
    reveal_strlit("No active tunnels");
    reveal_strlit("1 active tunnel");
    reveal_strlit(" active tunnels");
    reveal_strlit(" active tunnel");
    reveal_strlit("Simple SSH tunnels");
    reveal_strlit("All tunnels stopped");
    reveal_strlit("1 tunnel active");
    reveal_strlit(" tunnels active");
    reveal_strlit(" tunnel");
    law_decimal(n, n);
    if n > 0 {
        let number = decimal(n);
        assert(is_digit(number[0]));
        let title = tray_title(n);
        assert(title.subrange(11, title.len() - 7) =~= number);
        let status = tray_status(n);
        let front = number + " active tunnel"@;
        let activity = activity_text(n, tunnels);
        let beginning = number + " tunnel"@;
        if n == 1 {
            assert(number =~= seq!['1']);
        }
        assert(status.take(front.len() as int) =~= front);
        assert(status.take(number.len() as int) =~= number);
        assert(activity.take(beginning.len() as int) =~= beginning);
        assert(activity.take(number.len() as int) =~= number);
    }
}

/// What is said of a phase: a failure as it is; a retry with its number, the number of all, and the
/// reason at the end; a tunnel that runs or is stopped with its host at the end.
pub proof fn law_phases_are_told(
    tunnel: TunnelModel,
    attempt: u32,
    max_attempts: u32,
    delay_seconds: u64,
    message: Seq<char>,
)
    ensures
        phase_description(tunnel, PhaseModel::Failed(message)) == message,
        ({
            let phase = PhaseModel::Retrying { attempt, max_attempts, delay_seconds, message };
            let told = phase_description(tunnel, phase);
            let front = "Retry "@ + decimal(attempt as nat) + "/"@ + decimal(max_attempts as nat)
                + " in "@ + decimal(delay_seconds as nat) + "s"@;
            &&& begins_with(told, front)
            &&& ends_in(told, message)
            &&& told.len() == front.len() + 3 + message.len()
        }),
        ends_in(phase_description(tunnel, PhaseModel::Running), seq![' '] + tunnel.ssh_host),
        ends_in(phase_description(tunnel, PhaseModel::Stopped), seq![' '] + tunnel.ssh_host),
        phase_description(tunnel, PhaseModel::Running) != phase_description(
            tunnel,
            PhaseModel::Stopped,
        ),
{
    reveal_strlit("Retry ");
    reveal_strlit("/");
    reveal_strlit(" in ");
    reveal_strlit("s");
    reveal_strlit("s · ");
    reveal_strlit("via ");
    reveal_strlit("Connected via ");
    let phase = PhaseModel::Retrying { attempt, max_attempts, delay_seconds, message };
    let told = phase_description(tunnel, phase);
    let front = "Retry "@ + decimal(attempt as nat) + "/"@ + decimal(max_attempts as nat) + " in "@
        + decimal(delay_seconds as nat) + "s"@;
    assert(told.take(front.len() as int) =~= front);
    assert(told.skip(told.len() - message.len()) =~= message);
    let host = seq![' '] + tunnel.ssh_host;
    let running = phase_description(tunnel, PhaseModel::Running);
    let stopped = phase_description(tunnel, PhaseModel::Stopped);
    assert(running.skip(running.len() - host.len()) =~= host);
    assert(stopped.skip(stopped.len() - host.len()) =~= host);
    assert(running.len() != stopped.len());
}

/// The dot of a tunnel tells running, on its way, failed and stopped apart, and nothing else; only
/// a failure is written as an error; the button stops what is active and starts what is not.
pub proof fn law_rows_tell_the_phase(
    tunnel: TunnelModel,
    other: TunnelModel,
    a: PhaseModel,
    b: PhaseModel,
)
    ensures
        status_style(a) == status_style(b) <==> {
            &&& a is Running <==> b is Running
            &&& a is Failed <==> b is Failed
            &&& a is Stopped <==> b is Stopped
        },
        row_of(tunnel, a).status_style == status_style(a),
        row_of(tunnel, a).phase_style == row_of(other, b).phase_style <==> (a is Failed
            <==> b is Failed),
        row_of(tunnel, a).toggle_label == row_of(other, b).toggle_label <==> a.is_active()
            == b.is_active(),
        row_of(tunnel, a).active == (a is Starting || a is Retrying || a is Running),
        row_of(tunnel, a).phase == phase_description(tunnel, a),
{
    reveal_strlit("status-running");
    reveal_strlit("status-working");
    reveal_strlit("status-failed");
    reveal_strlit("status-stopped");
    reveal_strlit("error");
    reveal_strlit("muted");
    reveal_strlit("Stop");
    reveal_strlit("Start");
    assert("status-running"@[7] == 'r');
    assert("status-working"@[7] == 'w');
    assert("status-failed"@[7] == 'f');
    assert("status-stopped"@[7] == 's');
    assert("error"@[0] == 'e');
    assert("muted"@[0] == 'm');
    assert("Stop"@.len() != "Start"@.len());
}

/// A row is that of its tunnel: with its id, called by its name, leading from its local end to its
/// destination, whatever its phase.
pub proof fn law_rows_tell_the_tunnel(tunnel: TunnelModel, a: PhaseModel)
    ensures
        row_of(tunnel, a).id == tunnel.id,
        row_of(tunnel, a).name == tunnel.display_name(),
        begins_with(row_of(tunnel, a).endpoint, tunnel.local_endpoint()),
        ends_in(row_of(tunnel, a).endpoint, tunnel.destination_endpoint()),
        row_of(tunnel, a).endpoint.len() == tunnel.local_endpoint().len()
            + tunnel.destination_endpoint().len() + 5,
{
    reveal_strlit("  →  ");
    let endpoint = row_of(tunnel, a).endpoint;
    let local = tunnel.local_endpoint();
    let there = tunnel.destination_endpoint();
    assert(endpoint.take(local.len() as int) =~= local);
    assert(endpoint.skip(endpoint.len() - there.len()) =~= there);
}

/// Every tunnel has its row, in order, with its own phase; a row is active exactly if its tunnel is
/// wanted.
pub proof fn law_every_tunnel_has_its_row(store: StoreModel, i: int)
    requires
        consistent(store),
        0 <= i < store.tunnels.len(),
    ensures
        rows_of(store, store.tunnels.len()).len() == store.tunnels.len(),
        ({
            let row = rows_of(store, store.tunnels.len())[i];
            &&& row.id == store.tunnels[i].id
            &&& row.name == store.tunnels[i].display_name()
            &&& row.phase == phase_description(
                store.tunnels[i],
                store.phase(store.tunnels[i].id),
            )
            &&& row.active <==> store.desired.contains(store.tunnels[i].id)
        }),
{
    assert(tunnel_consistent(store, store.tunnels[i].id));
}

/// The editor hints at imported settings exactly if there are any that it does not show. With a bind
/// address it warns exactly if that listens beyond the loopback, whatever the arguments.
pub proof fn law_hints(
    address: Seq<char>,
    other: Seq<char>,
    arguments: nat,
    others: nat,
)
    ensures
        options_hint_of(None, arguments) is Some <==> arguments > 0,
        arguments > 0 && others > 0 ==> options_hint_of(None, arguments) == options_hint_of(
            None,
            others,
        ),
        options_hint_of(Some(address), arguments) is Some,
        options_hint_of(Some(address), arguments) == options_hint_of(Some(other), others)
            <==> listens_beyond_loopback(address) == listens_beyond_loopback(other),
        options_hint_of(Some(address), arguments)->0[0] == 'W' <==> listens_beyond_loopback(
            address,
        ),
{
    reveal_strlit(
        "Warning: this tunnel listens beyond localhost; imported SSH options are preserved.",
    );
    reveal_strlit("Imported bind address and SSH options are preserved.");
    let warning =
        "Warning: this tunnel listens beyond localhost; imported SSH options are preserved."@;
    assert(warning[0] != "Imported bind address and SSH options are preserved."@[0]);
}

} // verus!
