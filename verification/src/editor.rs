//! The form in which a tunnel is entered, imported or changed.

use vstd::prelude::*;
use vstd::string::*;

use crate::import_laws::law_import_is_safe;
use crate::model::{
    are_additional_arguments_safe, arguments_safe, is_random_uuid, is_valid_destination_host,
    is_valid_host_target, law_host_validity_ignores_white_space_around, optional_text,
    valid_destination_host, valid_host_target, Tunnel, TunnelModel,
};
use crate::parser::{
    import_of, parse, parse_port, port_of, ImportModel, ParseError, ParseErrorModel,
};
use crate::store::{transition, Action, Store};
use crate::text::{
    copied_texts, decimal, decimal_text, law_number_round_trip, push_decimal, texts, trim, trimmed,
};

verus! {

/// What a form holds.
#[verifier::ext_equal]
pub struct FormModel {
    pub name: Seq<char>,
    pub ssh_host: Seq<char>,
    pub local_port: Seq<char>,
    pub destination_host: Seq<char>,
    pub destination_port: Seq<char>,
    pub bind_address: Option<Seq<char>>,
    pub additional_arguments: Seq<Seq<char>>,
}

impl FormModel {
    /// The form for a new tunnel: empty, but for a destination on the far host itself.
    pub open spec fn blank() -> FormModel {
        FormModel {
            name: Seq::empty(),
            ssh_host: Seq::empty(),
            local_port: Seq::empty(),
            destination_host: "localhost"@,
            destination_port: Seq::empty(),
            bind_address: None,
            additional_arguments: Seq::empty(),
        }
    }

    /// The form for a change of a tunnel.
    pub open spec fn of_tunnel(tunnel: TunnelModel) -> FormModel {
        FormModel {
            name: tunnel.name,
            ssh_host: tunnel.ssh_host,
            local_port: decimal(tunnel.local_port as nat),
            destination_host: tunnel.destination_host,
            destination_port: decimal(tunnel.destination_port as nat),
            bind_address: tunnel.bind_address,
            additional_arguments: tunnel.additional_arguments,
        }
    }

    /// The form after an import. A name that has been entered stays; a blank one becomes the
    /// destination.
    pub open spec fn filled(self, imported: ImportModel) -> FormModel {
        FormModel {
            name: if trim(self.name).len() == 0 {
                imported.destination_host + seq![':'] + decimal(imported.destination_port as nat)
            } else {
                self.name
            },
            ssh_host: imported.ssh_host,
            local_port: decimal(imported.local_port as nat),
            destination_host: imported.destination_host,
            destination_port: decimal(imported.destination_port as nat),
            bind_address: imported.bind_address,
            additional_arguments: imported.additional_arguments,
        }
    }

    /// Whether the form can be saved: with ports that are not zero, hosts that are valid, and added
    /// arguments that are safe.
    pub open spec fn is_valid(self) -> bool {
        &&& port_of(self.local_port) is Some
        &&& port_of(self.destination_port) is Some
        &&& valid_host_target(trim(self.ssh_host))
        &&& valid_destination_host(trim(self.destination_host))
        &&& arguments_safe(self.additional_arguments)
    }

    /// The tunnel that a valid form describes.
    pub open spec fn tunnel(self, id: u128) -> TunnelModel {
        TunnelModel {
            id,
            name: trim(self.name),
            local_port: port_of(self.local_port)->0,
            destination_host: trim(self.destination_host),
            destination_port: port_of(self.destination_port)->0,
            ssh_host: trim(self.ssh_host),
            bind_address: self.bind_address,
            additional_arguments: self.additional_arguments,
        }
    }
}

/// The texts that have been entered, and what an import has brought that is not shown.
pub struct Form {
    pub name: String,
    pub ssh_host: String,
    pub local_port: String,
    pub destination_host: String,
    pub destination_port: String,
    pub bind_address: Option<String>,
    pub additional_arguments: Vec<String>,
}

impl View for Form {
    type V = FormModel;

    open spec fn view(&self) -> FormModel {
        FormModel {
            name: self.name@,
            ssh_host: self.ssh_host@,
            local_port: self.local_port@,
            destination_host: self.destination_host@,
            destination_port: self.destination_port@,
            bind_address: optional_text(self.bind_address),
            additional_arguments: texts(self.additional_arguments@),
        }
    }
}

fn copied_text(text: &Option<String>) -> (copy: Option<String>)
    ensures
        optional_text(copy) == optional_text(*text),
{
    match text {
        Some(text) => Some(text.clone()),
        None => None,
    }
}

impl Form {
    /// The form for a new tunnel.
    pub fn blank() -> (form: Self)
        ensures
            form@ == FormModel::blank(),
    {
        let form = Form {
            name: String::new(),
            ssh_host: String::new(),
            local_port: String::new(),
            destination_host: "localhost".to_owned(),
            destination_port: String::new(),
            bind_address: None,
            additional_arguments: Vec::new(),
        };
        assert(form@.additional_arguments =~= Seq::empty());
        form
    }

    /// The form for a change of a tunnel.
    pub fn of_tunnel(tunnel: &Tunnel) -> (form: Self)
        ensures
            form@ == FormModel::of_tunnel(tunnel@),
    {
        Form {
            name: tunnel.name.clone(),
            ssh_host: tunnel.ssh_host.clone(),
            local_port: decimal_text(tunnel.local_port as u64),
            destination_host: tunnel.destination_host.clone(),
            destination_port: decimal_text(tunnel.destination_port as u64),
            bind_address: copied_text(&tunnel.bind_address),
            additional_arguments: copied_texts(tunnel.additional_arguments.as_slice()),
        }
    }

    /// Fills the form from an `ssh` command. A command that cannot be imported changes nothing.
    pub fn import(&mut self, command: &str) -> (outcome: Result<(), ParseError>)
        ensures
            match outcome {
                Ok(()) => import_of(command@) is Ok && final(self)@ == old(self)@.filled(
                    import_of(command@)->Ok_0,
                ),
                Err(error) => import_of(command@) == Err::<ImportModel, ParseErrorModel>(error@)
                    && final(self)@ == old(self)@,
            },
    {
        let imported = match parse(command) {
            Ok(imported) => imported,
            Err(error) => {
                return Err(error);
            },
        };
        if trimmed(self.name.as_str()).as_str().is_empty() {
            let mut name = imported.destination_host.clone();
            name.push(':');
            push_decimal(&mut name, imported.destination_port as u64);
            self.name = name;
        }
        self.ssh_host = imported.ssh_host;
        self.local_port = decimal_text(imported.local_port as u64);
        self.destination_host = imported.destination_host;
        self.destination_port = decimal_text(imported.destination_port as u64);
        self.bind_address = imported.bind_address;
        self.additional_arguments = imported.additional_arguments;
        Ok(())
    }

    /// The tunnel that the form describes, if the form is valid: under the id that was saved, or a
    /// fresh one.
    pub fn tunnel(&self, saved_id: Option<u128>) -> (tunnel: Option<Tunnel>)
        ensures
            tunnel is Some <==> self@.is_valid(),
            tunnel matches Some(tunnel) ==> {
                &&& tunnel@ == self@.tunnel(tunnel.id)
                &&& saved_id matches Some(id) ==> tunnel.id == id
                &&& saved_id is None ==> is_random_uuid(tunnel.id)
            },
    {
        let local_port = match parse_port(self.local_port.as_str()) {
            Ok(port) => port,
            Err(_) => {
                return None;
            },
        };
        let destination_port = match parse_port(self.destination_port.as_str()) {
            Ok(port) => port,
            Err(_) => {
                return None;
            },
        };
        let ssh_host = trimmed(self.ssh_host.as_str());
        let destination_host = trimmed(self.destination_host.as_str());
        if !is_valid_host_target(ssh_host.as_str()) || !is_valid_destination_host(
            destination_host.as_str(),
        ) || !are_additional_arguments_safe(self.additional_arguments.as_slice()) {
            return None;
        }
        let mut tunnel = Tunnel::new(
            trimmed(self.name.as_str()),
            local_port,
            destination_host,
            destination_port,
            ssh_host,
        );
        if let Some(id) = saved_id {
            tunnel.id = id;
        }
        tunnel.bind_address = copied_text(&self.bind_address);
        tunnel.additional_arguments = copied_texts(self.additional_arguments.as_slice());
        Some(tunnel)
    }

    /// Saves the tunnel that the form describes, as a change of a saved one or as a new one. An
    /// invalid form saves nothing.
    pub fn submit(&self, store: &mut Store, saved_id: Option<u128>) -> (actions: Option<
        Vec<Action>,
    >)
        requires
            old(store).well_formed(),
        ensures
            final(store).well_formed(),
            actions is Some <==> self@.is_valid(),
            actions is None ==> final(store)@ == old(store)@,
            actions matches Some(actions) ==> match saved_id {
                Some(id) => transition(final(store)@, actions@) == old(store)@.update(
                    self@.tunnel(id),
                ),
                None => exists|id: u128|
                    is_random_uuid(id) && transition(final(store)@, actions@) == old(
                        store,
                    )@.with_tunnel(#[trigger] self@.tunnel(id)),
            },
    {
        let tunnel = match self.tunnel(saved_id) {
            Some(tunnel) => tunnel,
            None => {
                return None;
            },
        };
        match saved_id {
            Some(_) => Some(store.update(tunnel)),
            None => {
                let ghost id = tunnel.id;
                let actions = store.add(tunnel);
                assert(transition(store@, actions@) == old(store)@.with_tunnel(self@.tunnel(id)));
                Some(actions)
            },
        }
    }
}

/// What a form saves may run, and its ports are not zero.
pub proof fn law_saved_forms_are_safe(form: FormModel, id: u128)
    requires
        form.is_valid(),
    ensures
        form.tunnel(id).is_safe_to_run(),
        form.tunnel(id).local_port > 0,
        form.tunnel(id).destination_port > 0,
{
}

/// A tunnel that may run and is saved from its own form without a change is the same, but for white
/// space around its name and its hosts. Its ports must not be zero, since no form accepts that.
pub proof fn law_unchanged_form_keeps_the_tunnel(tunnel: TunnelModel)
    requires
        tunnel.is_safe_to_run(),
        tunnel.local_port > 0,
        tunnel.destination_port > 0,
    ensures
        FormModel::of_tunnel(tunnel).is_valid(),
        FormModel::of_tunnel(tunnel).tunnel(tunnel.id) == (TunnelModel {
            name: trim(tunnel.name),
            destination_host: trim(tunnel.destination_host),
            ssh_host: trim(tunnel.ssh_host),
            ..tunnel
        }),
{
    law_number_round_trip(tunnel.local_port);
    law_number_round_trip(tunnel.destination_port);
    law_host_validity_ignores_white_space_around(tunnel.ssh_host);
    law_host_validity_ignores_white_space_around(tunnel.destination_host);
}

/// An imported command can be saved as it stands exactly if its destination is a valid host; all
/// else that a form asks for, the import has made sure of.
pub proof fn law_imports_can_be_saved(form: FormModel, command: Seq<char>)
    ensures
        import_of(command) matches Ok(imported) ==> (form.filled(imported).is_valid()
            <==> valid_destination_host(imported.destination_host)),
{
    law_import_is_safe(command);
    if let Ok(imported) = import_of(command) {
        law_number_round_trip(imported.local_port);
        law_number_round_trip(imported.destination_port);
        law_host_validity_ignores_white_space_around(imported.ssh_host);
        law_host_validity_ignores_white_space_around(imported.destination_host);
    }
}

} // verus!
