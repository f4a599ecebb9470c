use bobba_launcher::clients::{statuses, status_of, ClientId};
use bobba_launcher::hotels::{host_for_server_id, hotels};
use bobba_launcher::install::InstallFiles;
use bobba_launcher::settings::VersionMap;

fn complete() -> InstallFiles {
    InstallFiles { habbo_exe: true, habbo_swf: true, application_xml: true }
}

fn missing_swf() -> InstallFiles {
    InstallFiles { habbo_exe: true, habbo_swf: false, application_xml: true }
}

#[test]
fn client_labels_and_folders() {
    assert_eq!(ClientId::Classic.label(), "Classic");
    assert_eq!(ClientId::AirPlus.label(), "AirPlus");
    assert_eq!(ClientId::AirBobba.label(), "Bobba Client");
    assert_eq!(ClientId::Classic.download_dir_name(), Some("air"));
    assert_eq!(ClientId::AirPlus.download_dir_name(), Some("airplus"));
    assert_eq!(ClientId::AirBobba.download_dir_name(), Some("airbobba"));
    assert_eq!(ClientId::AirPlus.blurb(), "HabboAirPlus — enhanced AIR client.");
    assert!(ClientId::AirBobba.supported());
}

#[test]
fn clients_are_listed_in_order() {
    assert_eq!(ClientId::all(), [ClientId::Classic, ClientId::AirBobba, ClientId::AirPlus]);
}

#[test]
fn status_of_installed_client() {
    let mut versions = VersionMap::new();
    versions.insert("airPlus".to_string(), "1700000000".to_string());
    let st = status_of(ClientId::AirPlus, "C:/data", &versions, &complete());
    assert_eq!(st.id, ClientId::AirPlus);
    assert_eq!(st.label, "AirPlus");
    assert!(st.supported);
    assert!(st.ready);
    assert_eq!(st.version.as_deref(), Some("1700000000"));
    let path = st.install_path.expect("install path");
    assert_eq!(path.segments(), vec!["C:/data", "downloads", "airplus", "1700000000"]);
}

#[test]
fn status_of_incomplete_or_unknown_client() {
    let mut versions = VersionMap::new();
    versions.insert("classic".to_string(), "63_1".to_string());
    let st = status_of(ClientId::Classic, "/d", &versions, &missing_swf());
    assert!(!st.ready);
    assert_eq!(st.version.as_deref(), Some("63_1"));
    let st = status_of(ClientId::AirBobba, "/d", &versions, &complete());
    assert!(!st.ready);
    assert!(st.version.is_none());
    assert!(st.install_path.is_none());
}

#[test]
fn statuses_cover_every_client() {
    let mut versions = VersionMap::new();
    versions.insert("airBobba".to_string(), "v1_2".to_string());
    let all = statuses("/d", &versions, &[complete(), complete(), complete()]);
    assert_eq!(all.len(), 3);
    assert_eq!(all[0].id, ClientId::Classic);
    assert_eq!(all[1].id, ClientId::AirBobba);
    assert_eq!(all[2].id, ClientId::AirPlus);
    assert!(!all[0].ready);
    assert!(all[1].ready);
    assert!(!all[2].ready);
}

#[test]
fn hotel_list() {
    let list = hotels();
    assert_eq!(list.len(), 10);
    assert_eq!(list[0].id, "hhus");
    assert_eq!(list[0].host, "www.habbo.com");
    assert_eq!(list[9].id, "hhs2");
    assert_eq!(list[9].host, "sandbox.habbo.com");
}

#[test]
fn host_lookup_ignores_ascii_case() {
    assert_eq!(host_for_server_id("hhes").as_deref(), Some("www.habbo.es"));
    assert_eq!(host_for_server_id("HHES").as_deref(), Some("www.habbo.es"));
    assert_eq!(host_for_server_id("HhTr").as_deref(), Some("www.habbo.com.tr"));
    assert_eq!(host_for_server_id("hhxx"), None);
    assert_eq!(host_for_server_id(""), None);
}
