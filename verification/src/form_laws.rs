//! What holds of every form and of where the tunnels are saved.

use vstd::prelude::*;
use vstd::string::*;
use vstd::utf8::*;

use crate::editor::FormModel;
use crate::model::{arguments_safe, law_host_validity_ignores_white_space_around};
use crate::model_laws::{begins_with, ends_in};
use crate::parser::{port_of, ImportModel};
use crate::storage::{joined, storage_path};
use crate::text::{decimal, law_number_round_trip, trim};

verus! {

/// A form can be saved exactly if both its ports can be read and what it describes may run; what is
/// entered as its name does not matter.
pub proof fn law_valid_forms(form: FormModel, id: u128, name: Seq<char>)
    ensures
        port_of(form.local_port) is Some && port_of(form.destination_port) is Some ==> (
        form.is_valid() <==> form.tunnel(id).is_safe_to_run() && arguments_safe(
            form.additional_arguments,
        )),
        port_of(form.local_port) is None || port_of(form.destination_port) is None
            ==> !form.is_valid(),
        (FormModel { name, ..form }).is_valid() == form.is_valid(),
{
    law_host_validity_ignores_white_space_around(form.ssh_host);
    law_host_validity_ignores_white_space_around(form.destination_host);
}

/// A valid form describes the tunnel that was entered: its ports are those that were read, its name
/// and hosts those that were entered without the white space around them, and the settings that an
/// import has brought are kept as they are.
pub proof fn law_forms_describe_what_was_entered(form: FormModel, id: u128)
    requires
        form.is_valid(),
    ensures
        ({
            let tunnel = form.tunnel(id);
            &&& tunnel.id == id
            &&& tunnel.name == trim(form.name)
            &&& tunnel.ssh_host == trim(form.ssh_host)
            &&& tunnel.destination_host == trim(form.destination_host)
            &&& port_of(form.local_port) == Some(tunnel.local_port)
            &&& port_of(form.destination_port) == Some(tunnel.destination_port)
            &&& tunnel.bind_address == form.bind_address
            &&& tunnel.additional_arguments == form.additional_arguments
        }),
{
}

/// An import fills a form so that it describes what was imported, whatever was entered before: the
/// ports, the hosts, the bind address and every argument. A name that was entered stays; else the
/// tunnel is called by its destination.
pub proof fn law_imports_fill_the_form(form: FormModel, imported: ImportModel, id: u128)
    requires
        imported.local_port > 0,
        imported.destination_port > 0,
    ensures
        ({
            let filled = form.filled(imported);
            let tunnel = filled.tunnel(id);
            &&& tunnel.local_port == imported.local_port
            &&& tunnel.destination_port == imported.destination_port
            &&& filled.ssh_host == imported.ssh_host
            &&& filled.destination_host == imported.destination_host
            &&& tunnel.bind_address == imported.bind_address
            &&& tunnel.additional_arguments == imported.additional_arguments
            &&& trim(form.name).len() > 0 ==> filled.name == form.name
            &&& trim(form.name).len() == 0 ==> {
                &&& begins_with(filled.name, imported.destination_host)
                &&& ends_in(
                    filled.name,
                    seq![':'] + decimal(imported.destination_port as nat),
                )
            }
        }),
        trim(form.name).len() == 0 ==> form.filled(imported) == FormModel::blank().filled(imported),
{
    law_number_round_trip(imported.local_port);
    law_number_round_trip(imported.destination_port);
    let filled = form.filled(imported);
    let end = seq![':'] + decimal(imported.destination_port as nat);
    if trim(form.name).len() == 0 {
        assert(filled.name.take(imported.destination_host.len() as int)
            =~= imported.destination_host);
        assert(filled.name.skip(filled.name.len() - end.len()) =~= end);
    }
    assert(trim(FormModel::blank().name).len() == 0);
}

/// A blank form cannot be saved, and leads to `localhost` until something else is entered.
pub proof fn law_blank_forms(id: u128)
    ensures
        !FormModel::blank().is_valid(),
        FormModel::blank().destination_host == "localhost"@,
        FormModel::blank().bind_address is None,
        FormModel::blank().additional_arguments.len() == 0,
{
}

/// Whether bytes end in others.
pub open spec fn bytes_end_in(s: Seq<u8>, end: Seq<u8>) -> bool {
    s.len() >= end.len() && s.skip(s.len() - end.len()) == end
}

/// A path behind a directory begins with the directory and ends in the path; one slash stands
/// between them, whether the directory ends in one or not, and none is put in front of a path
/// without a directory.
pub proof fn law_joined_paths(directory: Seq<u8>, path: Seq<u8>)
    ensures
        bytes_end_in(joined(directory, path), path),
        joined(directory, path).take(directory.len() as int) == directory,
        joined(Seq::empty(), path) == path,
        directory.len() > 0 && directory.last() != 0x2f ==> joined(directory, path) == joined(
            directory.push(0x2f),
            path,
        ),
        joined(directory, path).len() <= directory.len() + path.len() + 1,
        directory.len() > 0 && directory.last() == 0x2f ==> joined(directory, path)
            == directory + path,
{
    let whole = joined(directory, path);
    assert(whole.skip(whole.len() - path.len()) =~= path);
    assert(whole.take(directory.len() as int) =~= directory);
    assert(Seq::<u8>::empty() + path =~= path);
    if directory.len() > 0 && directory.last() != 0x2f {
        assert(whole =~= joined(directory.push(0x2f), path));
    }
}

/// The tunnels are saved under the configuration directory where there is one, whatever the home
/// directory; else under the home directory; and always in a file of the program's own.
pub proof fn law_storage_path(
    config: Seq<u8>,
    home: Seq<u8>,
    any: Option<Seq<u8>>,
    other: Option<Seq<u8>>,
)
    ensures
        storage_path(Some(config), any) == storage_path(Some(config), other),
        storage_path(Some(config), any) == joined(config, encode_utf8("relaybar/tunnels.json"@)),
        storage_path(None, Some(home)) == joined(
            home,
            encode_utf8(".config/relaybar/tunnels.json"@),
        ),
        storage_path(Some(config), any).take(config.len() as int) == config,
        storage_path(None, Some(home)).take(home.len() as int) == home,
        storage_path(None, None) == encode_utf8("relaybar-tunnels.json"@),
{
    law_joined_paths(config, encode_utf8("relaybar/tunnels.json"@));
    law_joined_paths(home, encode_utf8(".config/relaybar/tunnels.json"@));
}

} // verus!
