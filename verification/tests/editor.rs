use relaybar::editor::Form;
use relaybar::model::Tunnel;
use relaybar::parser::ParseError;
use relaybar::store::{Action, SavedTunnels, Store};

fn filled() -> Form {
    let mut form = Form::blank();
    form.name = " Database ".into();
    form.ssh_host = " ops@bastion ".into();
    form.local_port = "5432".into();
    form.destination_host = " db ".into();
    form.destination_port = "+5433".into();
    form
}

#[test]
fn starts_blank_or_from_a_tunnel() {
    let form = Form::blank();
    assert_eq!(form.destination_host, "localhost");
    assert_eq!(form.name, "");
    assert_eq!(form.ssh_host, "");
    assert_eq!(form.local_port, "");
    assert_eq!(form.destination_port, "");
    assert_eq!(form.bind_address, None);
    assert!(form.additional_arguments.is_empty());

    let mut tunnel = Tunnel::new("Web".into(), 8080, "db".into(), 80, "host".into());
    tunnel.bind_address = Some("*".into());
    tunnel.additional_arguments = vec!["-v".into()];
    let form = Form::of_tunnel(&tunnel);
    assert_eq!(form.name, "Web");
    assert_eq!(form.local_port, "8080");
    assert_eq!(form.destination_host, "db");
    assert_eq!(form.destination_port, "80");
    assert_eq!(form.ssh_host, "host");
    assert_eq!(form.bind_address.as_deref(), Some("*"));
    assert_eq!(form.additional_arguments, ["-v"]);
}

#[test]
fn an_unchanged_form_keeps_the_tunnel() {
    let mut tunnel = Tunnel::new(" Web ".into(), 8080, "db".into(), 80, "host".into());
    tunnel.bind_address = Some("*".into());
    tunnel.additional_arguments = vec!["-p".into(), "22".into()];
    let saved = Form::of_tunnel(&tunnel).tunnel(Some(tunnel.id)).unwrap();
    tunnel.name = "Web".into();
    assert_eq!(saved, tunnel);
}

#[test]
fn reads_what_was_entered() {
    let tunnel = filled().tunnel(Some(7)).unwrap();
    assert_eq!(tunnel.id, 7);
    assert_eq!(tunnel.name, "Database");
    assert_eq!(tunnel.ssh_host, "ops@bastion");
    assert_eq!(tunnel.local_port, 5432);
    assert_eq!(tunnel.destination_host, "db");
    assert_eq!(tunnel.destination_port, 5433);
    assert!(tunnel.is_safe_to_run());
    assert_ne!(filled().tunnel(None).unwrap().id, filled().tunnel(None).unwrap().id);
}

#[test]
fn refuses_invalid_forms() {
    let changes: [fn(&mut Form); 7] = [
        |form| form.local_port = "0".into(),
        |form| form.local_port = " 80".into(),
        |form| form.destination_port = "65536".into(),
        |form| form.ssh_host = "-oProxyCommand=x".into(),
        |form| form.ssh_host = " ".into(),
        |form| form.destination_host = "a b".into(),
        |form| form.additional_arguments = vec!["-F".into()],
    ];
    for change in changes {
        let mut form = filled();
        change(&mut form);
        assert_eq!(form.tunnel(Some(1)), None);
        let mut store = Store::load(SavedTunnels::Missing);
        assert_eq!(form.submit(&mut store, None), None);
        assert!(store.tunnels().is_empty());
    }
}

#[test]
fn imports_fill_the_form() {
    let mut form = Form::blank();
    assert_eq!(
        form.import("ssh -v -L *:8080:[::1]:3000 user@host"),
        Ok(())
    );
    assert_eq!(form.name, "::1:3000");
    assert_eq!(form.ssh_host, "user@host");
    assert_eq!(form.local_port, "8080");
    assert_eq!(form.destination_host, "::1");
    assert_eq!(form.destination_port, "3000");
    assert_eq!(form.bind_address.as_deref(), Some("*"));
    assert_eq!(form.additional_arguments, ["-v"]);
    assert!(form.tunnel(None).is_some());

    assert_eq!(form.import("ssh -L 1:db:2 other"), Ok(()));
    assert_eq!(form.name, "::1:3000");
    assert_eq!(form.destination_host, "db");
    assert_eq!(form.bind_address, None);
    assert!(form.additional_arguments.is_empty());
}

#[test]
fn a_refused_import_changes_nothing() {
    let mut form = filled();
    assert_eq!(form.import("ssh host"), Err(ParseError::MissingForward));
    assert_eq!(form.name, " Database ");
    assert_eq!(form.local_port, "5432");
    assert_eq!(form.ssh_host, " ops@bastion ");
}

#[test]
fn an_import_with_a_blank_in_its_destination_cannot_be_saved() {
    let mut form = Form::blank();
    assert_eq!(form.import("ssh -L '1:a b:2' host"), Ok(()));
    assert_eq!(form.tunnel(None), None);
}

#[test]
fn submitting_adds_or_updates() {
    let mut store = Store::load(SavedTunnels::Missing);
    assert_eq!(filled().submit(&mut store, None), Some(vec![Action::Save]));
    assert_eq!(store.tunnels().len(), 1);
    let id = store.tunnels()[0].id;
    let mut form = Form::of_tunnel(&store.tunnels()[0]);
    form.name = "Renamed".into();
    assert_eq!(form.submit(&mut store, Some(id)), Some(vec![Action::Save]));
    assert_eq!(store.tunnels().len(), 1);
    assert_eq!(store.tunnels()[0].name, "Renamed");
    assert_eq!(store.tunnels()[0].id, id);
    assert_eq!(form.submit(&mut store, Some(id ^ 1)), Some(vec![]));
    assert_eq!(store.tunnels().len(), 1);
}
