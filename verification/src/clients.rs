//! The clients the launcher installs and launches, and their status.
use vstd::prelude::*;
use crate::install::{client_dir, healthy, install_dir_of, is_install_healthy, InstallDir, InstallFiles};
use crate::settings::{settings_key, Settings, VersionMap};
use crate::text::opt_view;

verus! {

/// A launchable client.
#[derive(Clone, Copy, Debug, PartialEq, Eq, Structural)]
pub enum ClientId {
    Classic,
    AirPlus,
    AirBobba,
}

/// The clients in the order the launcher lists them.
pub open spec fn all_clients() -> Seq<ClientId> {
    seq![ClientId::Classic, ClientId::AirBobba, ClientId::AirPlus]
}

pub open spec fn spec_label(id: ClientId) -> Seq<char> {
    match id {
        ClientId::Classic => "Classic"@,
        ClientId::AirPlus => "AirPlus"@,
        ClientId::AirBobba => "Bobba Client"@,
    }
}

pub open spec fn spec_blurb(id: ClientId) -> Seq<char> {
    match id {
        ClientId::Classic => "Official Habbo AIR client (hotel gamedata)."@,
        ClientId::AirPlus => "HabboAirPlus — enhanced AIR client."@,
        ClientId::AirBobba => "Bobba Client — branded AirPlus build from Bobba Packet."@,
    }
}

/// The folder under `downloads/` that holds a client's installs.
pub open spec fn spec_download_dir(id: ClientId) -> Seq<char> {
    match id {
        ClientId::Classic => "air"@,
        ClientId::AirPlus => "airplus"@,
        ClientId::AirBobba => "airbobba"@,
    }
}

impl ClientId {
    /// Every client, in listing order.
    pub fn all() -> (r: [ClientId; 3])
        ensures
            r@ == all_clients(),
    {
        let r = [ClientId::Classic, ClientId::AirBobba, ClientId::AirPlus];
        assert(r@ =~= all_clients());
        r
    }

    pub fn label(self) -> (r: &'static str)
        ensures
            r@ == spec_label(self),
    {
        match self {
            ClientId::Classic => "Classic",
            ClientId::AirPlus => "AirPlus",
            ClientId::AirBobba => "Bobba Client",
        }
    }

    pub fn blurb(self) -> (r: &'static str)
        ensures
            r@ == spec_blurb(self),
    {
        match self {
            ClientId::Classic => "Official Habbo AIR client (hotel gamedata).",
            ClientId::AirPlus => "HabboAirPlus — enhanced AIR client.",
            ClientId::AirBobba => "Bobba Client — branded AirPlus build from Bobba Packet.",
        }
    }

    /// Folder name under `downloads/`; every client has one.
    pub fn download_dir_name(self) -> (r: Option<&'static str>)
        ensures
            r matches Some(d) && d@ == spec_download_dir(self),
    {
        match self {
            ClientId::Classic => Some("air"),
            ClientId::AirPlus => Some("airplus"),
            ClientId::AirBobba => Some("airbobba"),
        }
    }

    /// Every client can be installed and launched.
    pub fn supported(self) -> (r: bool)
        ensures
            r,
    {
        true
    }
}

/// What the launcher shows for one client.
pub struct ClientStatus {
    pub id: ClientId,
    pub label: String,
    pub blurb: String,
    pub supported: bool,
    /// The recorded install is complete enough to launch.
    pub ready: bool,
    /// The recorded installed version.
    pub version: Option<String>,
    /// Where the recorded version is installed.
    pub install_path: Option<InstallDir>,
}

/// `st` is the status of `id` for data root `root`, recorded versions
/// `versions`, and `files`, what was found on disk at the install path.
pub open spec fn is_status_of(
    st: ClientStatus,
    id: ClientId,
    root: Seq<char>,
    versions: VersionMap,
    files: InstallFiles,
) -> bool {
    let version = versions.lookup(settings_key(id));
    &&& st.id == id
    &&& st.label@ == spec_label(id)
    &&& st.blurb@ == spec_blurb(id)
    &&& st.supported
    &&& opt_view(st.version) == version
    &&& match (st.install_path, version) {
        (Some(p), Some(v)) => p.view_triple() == install_dir_of(root, id, v),
        (None, None) => true,
        _ => false,
    }
    &&& st.ready == (version is Some && healthy(files))
}

/// The status of client `id`: its recorded version, where that version is
/// installed under `root`, and whether that install is complete, judged
/// from `files` (what the caller found at that path).
pub fn status_of(id: ClientId, root: &str, versions: &VersionMap, files: &InstallFiles) -> (r:
    ClientStatus)
    ensures
        is_status_of(r, id, root@, *versions, *files),
{
    let version = versions.get(Settings::key(id));
    let install_path = match &version {
        Some(v) => match client_dir(root, id, v.as_str()) {
            Ok(d) => Some(d),
            Err(_) => None,
        },
        None => None,
    };
    let ready = install_path.is_some() && is_install_healthy(files);
    ClientStatus {
        id,
        label: id.label().to_owned(),
        blurb: id.blurb().to_owned(),
        supported: id.supported(),
        ready,
        version,
        install_path,
    }
}

/// The status of every client, in listing order; `files[i]` is what was
/// found at the install path of the `i`-th client.
pub fn statuses(root: &str, versions: &VersionMap, files: &[InstallFiles; 3]) -> (r: Vec<
    ClientStatus,
>)
    ensures
        r@.len() == 3,
        forall|i: int| 0 <= i < 3 ==> is_status_of(#[trigger] r@[i], all_clients()[i], root@, *versions, files@[i]),
{
    let ids = ClientId::all();
    let mut out: Vec<ClientStatus> = Vec::new();
    let mut i: usize = 0;
    while i < 3
        invariant
            i <= 3,
            ids@ == all_clients(),
            out@.len() == i,
            forall|j: int| 0 <= j < i ==> is_status_of(#[trigger] out@[j], all_clients()[j], root@, *versions, files@[j]),
        decreases 3 - i,
    {
        out.push(status_of(ids[i], root, versions, &files[i]));
        i += 1;
    }
    out
}

} // verus!
