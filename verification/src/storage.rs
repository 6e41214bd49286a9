//! Where the tunnels are saved. Paths are sequences of bytes with `/` between their components.

use vstd::prelude::*;
use vstd::string::*;
use vstd::utf8::*;

verus! {

/// A relative path behind a directory: with a slash between them, unless the directory ends in one
/// or is empty.
pub open spec fn joined(directory: Seq<u8>, path: Seq<u8>) -> Seq<u8> {
    if directory.len() == 0 || directory.last() == 0x2f {
        directory + path
    } else {
        directory + seq![0x2fu8] + path
    }
}

/// The file under the configuration directory, else under the home directory, else under the
/// working directory.
pub open spec fn storage_path(config_home: Option<Seq<u8>>, home: Option<Seq<u8>>) -> Seq<u8> {
    if config_home is Some {
        joined(config_home->0, encode_utf8("relaybar/tunnels.json"@))
    } else if home is Some {
        joined(home->0, encode_utf8(".config/relaybar/tunnels.json"@))
    } else {
        encode_utf8("relaybar-tunnels.json"@)
    }
}

/// The bytes of a path that may be missing.
pub open spec fn optional_bytes(bytes: Option<Vec<u8>>) -> Option<Seq<u8>> {
    match bytes {
        Some(b) => Some(b@),
        None => None,
    }
}

/// Appends a relative path to a directory.
fn join(directory: Vec<u8>, path: &str) -> (joint: Vec<u8>)
    ensures
        joint@ == joined(directory@, encode_utf8(path@)),
{
    let mut joint = directory;
    if joint.len() > 0 && joint[joint.len() - 1] != 0x2f {
        joint.push(0x2f);
    }
    let ghost front = joint@;
    let bytes = path.as_bytes();
    let mut i: usize = 0;
    while i < bytes.len()
        invariant
            i <= bytes@.len(),
            joint@ =~= front + bytes@.take(i as int),
        decreases bytes@.len() - i,
    {
        joint.push(bytes[i]);
        i += 1;
    }
    assert(bytes@.take(bytes@.len() as int) =~= bytes@);
    joint
}

/// The file that holds the tunnels, from the values of `XDG_CONFIG_HOME` and `HOME`.
pub fn default_storage_path(config_home: Option<Vec<u8>>, home: Option<Vec<u8>>) -> (path: Vec<u8>)
    ensures
        path@ == storage_path(optional_bytes(config_home), optional_bytes(home)),
{
    if let Some(directory) = config_home {
        return join(directory, "relaybar/tunnels.json");
    }
    if let Some(directory) = home {
        return join(directory, ".config/relaybar/tunnels.json");
    }
    let path = join(Vec::new(), "relaybar-tunnels.json");
    assert(path@ =~= encode_utf8("relaybar-tunnels.json"@));
    path
}

} // verus!
