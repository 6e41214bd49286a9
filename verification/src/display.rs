//! What is shown: the window's texts, a row for each tunnel, and the tray.

use vstd::prelude::*;
use vstd::string::*;

use crate::model::{
    is_beyond_loopback, listens_beyond_loopback, optional_text, PhaseModel, Tunnel, TunnelModel,
    TunnelPhase,
};
use crate::store::{tunnel_models, Store, StoreModel};
use crate::store_laws::{consistent, tunnel_consistent};
use crate::text::{decimal, push_decimal};

verus! {

/// What the tray icon asks for.
#[derive(Clone, Copy, Debug, PartialEq, Eq)]
pub enum TrayCommand {
    ShowOrHide,
    Quit,
}

/// What is done with the window.
#[derive(Clone, Copy, Debug, PartialEq, Eq)]
pub enum WindowStep {
    Show,
    Hide,
    Quit,
}

impl TrayCommand {
    /// What the command does: a window that is visible is hidden, a hidden one is shown.
    pub fn apply(self, visible: bool) -> (step: WindowStep)
        ensures
            step == (match self {
                TrayCommand::Quit => WindowStep::Quit,
                TrayCommand::ShowOrHide => if visible {
                    WindowStep::Hide
                } else {
                    WindowStep::Show
                },
            }),
    {
        match self {
            TrayCommand::Quit => WindowStep::Quit,
            TrayCommand::ShowOrHide => {
                if visible {
                    WindowStep::Hide
                } else {
                    WindowStep::Show
                }
            },
        }
    }
}

/// An entry of the tray's menu.
#[derive(Debug, PartialEq)]
pub enum MenuEntry {
    /// A line that only informs.
    Status(String),
    Separator,
    Item { label: String, icon_name: String, command: TrayCommand },
}

/// What an entry of the tray's menu shows and does.
#[verifier::ext_equal]
pub enum MenuEntryModel {
    Status(Seq<char>),
    Separator,
    Item { label: Seq<char>, icon_name: Seq<char>, command: TrayCommand },
}

impl View for MenuEntry {
    type V = MenuEntryModel;

    open spec fn view(&self) -> MenuEntryModel {
        match *self {
            MenuEntry::Status(label) => MenuEntryModel::Status(label@),
            MenuEntry::Separator => MenuEntryModel::Separator,
            MenuEntry::Item { label, icon_name, command } => MenuEntryModel::Item {
                label: label@,
                icon_name: icon_name@,
                command,
            },
        }
    }
}

/// The tray's title for a number of active tunnels.
pub open spec fn tray_title(count: nat) -> Seq<char> {
    if count == 0 {
        "RelayBar"@
    } else {
        "RelayBar · "@ + decimal(count) + " active"@
    }
}

/// The first line of the tray's menu for a number of active tunnels.
pub open spec fn tray_status(count: nat) -> Seq<char> {
    if count == 0 {
        "No active tunnels"@
    } else if count == 1 {
        "1 active tunnel"@
    } else {
        decimal(count) + " active tunnels"@
    }
}

/// The tray's menu for a number of active tunnels.
pub open spec fn tray_menu(count: nat) -> Seq<MenuEntryModel> {
    seq![
        MenuEntryModel::Status(tray_status(count)),
        MenuEntryModel::Separator,
        MenuEntryModel::Item {
            label: "Show / hide RelayBar"@,
            icon_name: "window-new"@,
            command: TrayCommand::ShowOrHide,
        },
        MenuEntryModel::Item {
            label: "Quit"@,
            icon_name: "application-exit"@,
            command: TrayCommand::Quit,
        },
    ]
}

/// The tray icon.
#[derive(Clone, Copy, Debug, PartialEq, Eq)]
pub struct RelayTray {
    pub running_count: usize,
}

impl RelayTray {
    pub fn id(&self) -> (id: String)
        ensures
            id@ == "relaybar"@,
    {
        "relaybar".to_owned()
    }

    pub fn title(&self) -> (title: String)
        ensures
            title@ == tray_title(self.running_count as nat),
    {
        if self.running_count == 0 {
            "RelayBar".to_owned()
        } else {
            let mut title = "RelayBar · ".to_owned();
            push_decimal(&mut title, self.running_count as u64);
            title.append(" active");
            title
        }
    }

    pub fn icon_name(&self) -> (name: String)
        ensures
            name@ == "network-server"@,
    {
        "network-server".to_owned()
    }

    /// What a click on the icon asks for.
    pub fn activate(&self) -> (command: TrayCommand)
        ensures
            command == TrayCommand::ShowOrHide,
    {
        TrayCommand::ShowOrHide
    }

    /// The line that tells how many tunnels are active.
    pub fn status(&self) -> (status: String)
        ensures
            status@ == tray_status(self.running_count as nat),
    {
        if self.running_count == 0 {
            "No active tunnels".to_owned()
        } else if self.running_count == 1 {
            "1 active tunnel".to_owned()
        } else {
            let mut status = String::new();
            push_decimal(&mut status, self.running_count as u64);
            status.append(" active tunnels");
            status
        }
    }

    pub fn menu(&self) -> (entries: Vec<MenuEntry>)
        ensures
            entries@.map_values(|entry: MenuEntry| entry@) == tray_menu(self.running_count as nat),
    {
        vec![
            MenuEntry::Status(self.status()),
            MenuEntry::Separator,
            MenuEntry::Item {
                label: "Show / hide RelayBar".to_owned(),
                icon_name: "window-new".to_owned(),
                command: TrayCommand::ShowOrHide,
            },
            MenuEntry::Item {
                label: "Quit".to_owned(),
                icon_name: "application-exit".to_owned(),
                command: TrayCommand::Quit,
            },
        ]
    }
}

/// The line under the window's title.
pub open spec fn activity_text(running: nat, tunnels: nat) -> Seq<char> {
    if running == 0 {
        if tunnels == 0 {
            "Simple SSH tunnels"@
        } else {
            "All tunnels stopped"@
        }
    } else if running == 1 {
        "1 tunnel active"@
    } else {
        decimal(running) + " tunnels active"@
    }
}

/// The style of the dot in front of a tunnel.
pub open spec fn status_style(phase: PhaseModel) -> Seq<char> {
    match phase {
        PhaseModel::Running => "status-running"@,
        PhaseModel::Starting => "status-working"@,
        PhaseModel::Retrying { .. } => "status-working"@,
        PhaseModel::Failed(_) => "status-failed"@,
        PhaseModel::Stopped => "status-stopped"@,
    }
}

/// What is said of a tunnel's phase.
pub open spec fn phase_description(tunnel: TunnelModel, phase: PhaseModel) -> Seq<char> {
    match phase {
        PhaseModel::Stopped => "via "@ + tunnel.ssh_host,
        PhaseModel::Starting => "Connecting…"@,
        PhaseModel::Running => "Connected via "@ + tunnel.ssh_host,
        PhaseModel::Retrying { attempt, max_attempts, delay_seconds, message } => "Retry "@
            + decimal(attempt as nat) + "/"@ + decimal(max_attempts as nat) + " in "@ + decimal(
            delay_seconds as nat,
        ) + "s · "@ + message,
        PhaseModel::Failed(message) => message,
    }
}

/// What is said of a tunnel's phase.
pub fn phase_text(tunnel: &Tunnel, phase: &TunnelPhase) -> (text: String)
    ensures
        text@ == phase_description(tunnel@, phase@),
{
    match phase {
        TunnelPhase::Stopped => "via ".to_owned().concat(tunnel.ssh_host.as_str()),
        TunnelPhase::Starting => "Connecting…".to_owned(),
        TunnelPhase::Running => "Connected via ".to_owned().concat(tunnel.ssh_host.as_str()),
        TunnelPhase::Retrying { attempt, max_attempts, delay_seconds, message } => {
            let mut text = "Retry ".to_owned();
            push_decimal(&mut text, *attempt as u64);
            text.append("/");
            push_decimal(&mut text, *max_attempts as u64);
            text.append(" in ");
            push_decimal(&mut text, *delay_seconds);
            text.append("s · ");
            text.append(message.as_str());
            text
        },
        TunnelPhase::Failed(message) => message.clone(),
    }
}

/// What a row shows.
#[verifier::ext_equal]
pub struct RowModel {
    pub id: u128,
    pub name: Seq<char>,
    pub endpoint: Seq<char>,
    pub status_style: Seq<char>,
    pub phase: Seq<char>,
    pub phase_style: Seq<char>,
    pub toggle_label: Seq<char>,
    pub active: bool,
}

/// The row of a tunnel in a phase.
pub open spec fn row_of(tunnel: TunnelModel, phase: PhaseModel) -> RowModel {
    RowModel {
        id: tunnel.id,
        name: tunnel.display_name(),
        endpoint: tunnel.local_endpoint() + "  →  "@ + tunnel.destination_endpoint(),
        status_style: status_style(phase),
        phase: phase_description(tunnel, phase),
        phase_style: if phase is Failed {
            "error"@
        } else {
            "muted"@
        },
        toggle_label: if phase.is_active() {
            "Stop"@
        } else {
            "Start"@
        },
        active: phase.is_active(),
    }
}

/// One tunnel in the window.
#[derive(Debug, PartialEq)]
pub struct TunnelRow {
    pub id: u128,
    pub name: String,
    /// Where the tunnel listens and where it leads.
    pub endpoint: String,
    pub status_style: String,
    pub phase: String,
    pub phase_style: String,
    /// What the button that starts or stops the tunnel says.
    pub toggle_label: String,
    pub active: bool,
}

impl View for TunnelRow {
    type V = RowModel;

    open spec fn view(&self) -> RowModel {
        RowModel {
            id: self.id,
            name: self.name@,
            endpoint: self.endpoint@,
            status_style: self.status_style@,
            phase: self.phase@,
            phase_style: self.phase_style@,
            toggle_label: self.toggle_label@,
            active: self.active,
        }
    }
}

/// The row of a tunnel.
pub fn tunnel_row(tunnel: &Tunnel, phase: &TunnelPhase) -> (row: TunnelRow)
    ensures
        row@ == row_of(tunnel@, phase@),
{
    let mut endpoint = tunnel.local_endpoint();
    endpoint.append("  →  ");
    endpoint.append(tunnel.destination_endpoint().as_str());
    let active = phase.is_active();
    let status_style = match phase {
        TunnelPhase::Running => "status-running",
        TunnelPhase::Starting => "status-working",
        TunnelPhase::Retrying { .. } => "status-working",
        TunnelPhase::Failed(_) => "status-failed",
        TunnelPhase::Stopped => "status-stopped",
    };
    let phase_style = if matches!(phase, TunnelPhase::Failed(_)) {
        "error"
    } else {
        "muted"
    };
    let toggle_label = if active {
        "Stop"
    } else {
        "Start"
    };
    TunnelRow {
        id: tunnel.id,
        name: tunnel.display_name(),
        endpoint,
        status_style: status_style.to_owned(),
        phase: phase_text(tunnel, phase),
        phase_style: phase_style.to_owned(),
        toggle_label: toggle_label.to_owned(),
        active,
    }
}

/// What the window shows.
#[derive(Debug, PartialEq)]
pub struct Screen {
    /// The line under the title.
    pub activity: String,
    pub notice: Option<String>,
    pub rows: Vec<TunnelRow>,
}

/// What the rows of a list show.
pub open spec fn row_models(rows: Seq<TunnelRow>) -> Seq<RowModel> {
    rows.map_values(|row: TunnelRow| row@)
}

/// The rows of the first `count` tunnels.
pub open spec fn rows_of(store: StoreModel, count: nat) -> Seq<RowModel> {
    Seq::new(count, |i: int| row_of(store.tunnels[i], store.phase(store.tunnels[i].id)))
}

/// The line under the window's title, of a store.
pub open spec fn activity_of(store: StoreModel) -> Seq<char> {
    activity_text(store.active().len(), store.tunnels.len())
}

/// What the window shows of a store.
pub fn render(store: &Store) -> (screen: Screen)
    ensures
        screen.activity@ == activity_of(store@),
        optional_text(screen.notice) == store@.notice,
        row_models(screen.rows@) == rows_of(store@, store@.tunnels.len()),
{
    let tunnels = store.tunnels();
    let running = store.running_count();
    assert(tunnel_models(tunnels@).len() == tunnels@.len());
    let activity = if running == 0 {
        if tunnels.len() == 0 {
            "Simple SSH tunnels".to_owned()
        } else {
            "All tunnels stopped".to_owned()
        }
    } else if running == 1 {
        "1 tunnel active".to_owned()
    } else {
        let mut text = String::new();
        push_decimal(&mut text, running as u64);
        text.append(" tunnels active");
        text
    };
    let notice = match store.notice() {
        Some(notice) => Some(notice.clone()),
        None => None,
    };
    let mut rows: Vec<TunnelRow> = Vec::new();
    let mut i: usize = 0;
    while i < tunnels.len()
        invariant
            i <= tunnels@.len(),
            tunnel_models(tunnels@) == store@.tunnels,
            row_models(rows@) =~= rows_of(store@, i as nat),
        decreases tunnels@.len() - i,
    {
        let tunnel = &tunnels[i];
        assert(store@.tunnels[i as int] == tunnel@);
        let ghost before = rows@;
        let row = tunnel_row(tunnel, &store.phase(tunnel.id));
        rows.push(row);
        assert(row_models(rows@) =~= row_models(before).push(row@));
        assert(rows_of(store@, (i + 1) as nat) =~= rows_of(store@, i as nat).push(row@));
        i += 1;
    }
    Screen { activity, notice, rows }
}

/// What is drawn anew after a step.
#[derive(Clone, Copy, Debug, PartialEq, Eq)]
pub struct Refresh {
    pub window: bool,
    pub tray: bool,
}

/// What is drawn anew after a step that changed something or could not open a URL, when so many
/// tunnels are active and the tray shows so many.
pub open spec fn refreshed(changed: bool, open_failed: bool, running: nat, shown: nat) -> Refresh {
    Refresh { window: changed || open_failed, tray: running != shown }
}

/// What is drawn anew: the window when anything changed or a URL could not be opened, the tray when
/// it shows another number of tunnels than are active.
pub fn refresh(changed: bool, open_failed: bool, running: usize, shown: RelayTray) -> (refresh:
    Refresh)
    ensures
        refresh == refreshed(changed, open_failed, running as nat, shown.running_count as nat),
{
    Refresh { window: changed || open_failed, tray: running != shown.running_count }
}

/// What is said of a bind address and added arguments that are kept.
pub open spec fn options_hint_of(
    bind_address: Option<Seq<char>>,
    arguments: nat,
) -> Option<Seq<char>> {
    match bind_address {
        Some(address) => Some(
            if listens_beyond_loopback(address) {
                "Warning: this tunnel listens beyond localhost; imported SSH options are preserved."@
            } else {
                "Imported bind address and SSH options are preserved."@
            },
        ),
        None => if arguments > 0 {
            Some("Imported SSH options are preserved."@)
        } else {
            None
        },
    }
}

/// What the editor says of the imported settings that it does not show, if there are any.
pub fn options_hint(bind_address: &Option<String>, arguments: &[String]) -> (hint: Option<String>)
    ensures
        optional_text(hint) == options_hint_of(optional_text(*bind_address), arguments@.len()),
{
    match bind_address {
        Some(address) => Some(
            if is_beyond_loopback(address.as_str()) {
                "Warning: this tunnel listens beyond localhost; imported SSH options are preserved.".to_owned()
            } else {
                "Imported bind address and SSH options are preserved.".to_owned()
            },
        ),
        None => {
            if arguments.len() > 0 {
                Some("Imported SSH options are preserved.".to_owned())
            } else {
                None
            }
        },
    }
}

/// What the button of a row says is what it does: a row offers to stop exactly the tunnels that are
/// wanted, which are the ones that toggling stops.
pub proof fn law_toggle_button_tells_what_it_does(store: StoreModel, tunnel: TunnelModel)
    requires
        consistent(store),
    ensures
        row_of(tunnel, store.phase(tunnel.id)).active <==> store.desired.contains(tunnel.id),
        row_of(tunnel, store.phase(tunnel.id)).toggle_label == (if store.desired.contains(
            tunnel.id,
        ) {
            "Stop"@
        } else {
            "Start"@
        }),
{
    assert(tunnel_consistent(store, tunnel.id));
}

} // verus!
