use relaybar::display::{
    options_hint, phase_text, refresh, render, tunnel_row, MenuEntry, Refresh, RelayTray,
    TrayCommand, WindowStep,
};
use relaybar::model::{Tunnel, TunnelPhase};
use relaybar::store::{SavedTunnels, Store};

#[test]
fn tray_reports_activity_and_sends_commands() {
    let tray = RelayTray { running_count: 2 };

    assert_eq!(tray.title(), "RelayBar · 2 active");
    assert_eq!(tray.activate(), TrayCommand::ShowOrHide);
}

#[test]
fn tray_counts_tunnels() {
    let titles = ["RelayBar", "RelayBar · 1 active", "RelayBar · 2 active"];
    let statuses = ["No active tunnels", "1 active tunnel", "2 active tunnels"];
    for count in 0usize..3 {
        let tray = RelayTray { running_count: count };
        assert_eq!(tray.id(), "relaybar");
        assert_eq!(tray.icon_name(), "network-server");
        assert_eq!(tray.title(), titles[count]);
        assert_eq!(tray.status(), statuses[count]);
        assert_eq!(
            tray.menu(),
            [
                MenuEntry::Status(statuses[count].into()),
                MenuEntry::Separator,
                MenuEntry::Item {
                    label: "Show / hide RelayBar".into(),
                    icon_name: "window-new".into(),
                    command: TrayCommand::ShowOrHide,
                },
                MenuEntry::Item {
                    label: "Quit".into(),
                    icon_name: "application-exit".into(),
                    command: TrayCommand::Quit,
                },
            ]
        );
    }
}

#[test]
fn tray_commands_move_the_window() {
    assert_eq!(TrayCommand::ShowOrHide.apply(true), WindowStep::Hide);
    assert_eq!(TrayCommand::ShowOrHide.apply(false), WindowStep::Show);
    assert_eq!(TrayCommand::Quit.apply(true), WindowStep::Quit);
    assert_eq!(TrayCommand::Quit.apply(false), WindowStep::Quit);
}

fn web() -> Tunnel {
    Tunnel::new("Web".into(), 8080, "db".into(), 80, "bastion".into())
}

fn retrying() -> TunnelPhase {
    TunnelPhase::Retrying {
        attempt: 3,
        max_attempts: 10,
        delay_seconds: 4,
        message: "refused".into(),
    }
}

#[test]
fn tells_the_phase() {
    let tunnel = web();
    assert_eq!(phase_text(&tunnel, &TunnelPhase::Stopped), "via bastion");
    assert_eq!(phase_text(&tunnel, &TunnelPhase::Starting), "Connecting…");
    assert_eq!(phase_text(&tunnel, &TunnelPhase::Running), "Connected via bastion");
    assert_eq!(phase_text(&tunnel, &retrying()), "Retry 3/10 in 4s · refused");
    assert_eq!(phase_text(&tunnel, &TunnelPhase::Failed("no".into())), "no");
}

#[test]
fn shows_rows() {
    let tunnel = web();
    let row = tunnel_row(&tunnel, &TunnelPhase::Running);
    assert_eq!(row.id, tunnel.id);
    assert_eq!(row.name, "Web");
    assert_eq!(row.endpoint, "localhost:8080  →  db:80");
    assert_eq!(row.phase, "Connected via bastion");
    for (phase, status, style, label, active) in [
        (TunnelPhase::Running, "status-running", "muted", "Stop", true),
        (TunnelPhase::Starting, "status-working", "muted", "Stop", true),
        (retrying(), "status-working", "muted", "Stop", true),
        (TunnelPhase::Failed("no".into()), "status-failed", "error", "Start", false),
        (TunnelPhase::Stopped, "status-stopped", "muted", "Start", false),
    ] {
        let row = tunnel_row(&tunnel, &phase);
        assert_eq!(row.status_style, status);
        assert_eq!(row.phase_style, style);
        assert_eq!(row.toggle_label, label);
        assert_eq!(row.active, active);
    }
}

#[test]
fn renders_a_store() {
    let screen = render(&Store::load(SavedTunnels::Missing));
    assert_eq!(screen.activity, "Simple SSH tunnels");
    assert_eq!(screen.notice, None);
    assert!(screen.rows.is_empty());

    let tunnels = vec![web(), web(), web()];
    let ids: Vec<u128> = tunnels.iter().map(|tunnel| tunnel.id).collect();
    let mut store = Store::load(SavedTunnels::Loaded(tunnels));
    assert_eq!(render(&store).activity, "All tunnels stopped");
    store.start(ids[1]);
    store.set_notice("careful".into());
    let screen = render(&store);
    assert_eq!(screen.activity, "1 tunnel active");
    assert_eq!(screen.notice.as_deref(), Some("careful"));
    let shown: Vec<(u128, bool)> = screen.rows.iter().map(|row| (row.id, row.active)).collect();
    assert_eq!(shown, [(ids[0], false), (ids[1], true), (ids[2], false)]);
    store.start(ids[2]);
    assert_eq!(render(&store).activity, "2 tunnels active");
}

#[test]
fn the_toggle_button_tells_what_it_does() {
    let tunnel = web();
    let id = tunnel.id;
    let mut store = Store::load(SavedTunnels::Loaded(vec![tunnel]));
    assert_eq!(render(&store).rows[0].toggle_label, "Start");
    store.toggle(id);
    assert_eq!(render(&store).rows[0].toggle_label, "Stop");
    store.toggle(id);
    assert_eq!(render(&store).rows[0].toggle_label, "Start");
}

#[test]
fn draws_anew_what_changed() {
    let shown = RelayTray { running_count: 2 };
    for (changed, failed, running, window, tray) in [
        (false, false, 2usize, false, false),
        (true, false, 2, true, false),
        (false, true, 2, true, false),
        (false, false, 3, false, true),
        (true, true, 0, true, true),
    ] {
        assert_eq!(refresh(changed, failed, running, shown), Refresh { window, tray });
    }
}

#[test]
fn hints_at_hidden_options() {
    let options = ["-v".to_string()];
    assert_eq!(options_hint(&None, &[]), None);
    assert_eq!(
        options_hint(&None, &options).as_deref(),
        Some("Imported SSH options are preserved.")
    );
    assert_eq!(
        options_hint(&Some("[::1]".into()), &[]).as_deref(),
        Some("Imported bind address and SSH options are preserved.")
    );
    assert_eq!(
        options_hint(&Some("*".into()), &options).as_deref(),
        Some("Warning: this tunnel listens beyond localhost; imported SSH options are preserved.")
    );
}
