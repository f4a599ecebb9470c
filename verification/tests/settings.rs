use bobba_launcher::clients::ClientId;
use bobba_launcher::settings::{default_true, Settings, VersionMap};

#[test]
fn defaults() {
    let s = Settings::default();
    assert_eq!(s.selected, ClientId::AirPlus);
    assert_eq!(s.default_hotel_host, "www.habbo.com");
    assert_eq!(s.versions.len(), 0);
    assert!(s.auto_download_updates);
    assert!(default_true());
}

#[test]
fn keys() {
    assert_eq!(Settings::key(ClientId::Classic), "classic");
    assert_eq!(Settings::key(ClientId::AirPlus), "airPlus");
    assert_eq!(Settings::key(ClientId::AirBobba), "airBobba");
}

#[test]
fn version_reads_back_what_was_written() {
    let mut s = Settings::default();
    assert_eq!(s.version_of(ClientId::Classic), None);
    s.set_version(ClientId::Classic, "63_2".to_string());
    assert_eq!(s.version_of(ClientId::Classic).as_deref(), Some("63_2"));
    s.set_version(ClientId::AirPlus, "1".to_string());
    s.set_version(ClientId::Classic, "64".to_string());
    assert_eq!(s.version_of(ClientId::Classic).as_deref(), Some("64"));
    assert_eq!(s.version_of(ClientId::AirPlus).as_deref(), Some("1"));
    assert_eq!(s.version_of(ClientId::AirBobba), None);
    assert_eq!(s.versions.len(), 2);
}

#[test]
fn version_map_replaces_values() {
    let mut m = VersionMap::new();
    m.insert("a".to_string(), "1".to_string());
    m.insert("b".to_string(), "2".to_string());
    m.insert("a".to_string(), "3".to_string());
    assert_eq!(m.get("a").as_deref(), Some("3"));
    assert_eq!(m.get("b").as_deref(), Some("2"));
    assert_eq!(m.get("c"), None);
    assert_eq!(m.len(), 2);
    let (k, v) = m.entry(0);
    assert_eq!((k.as_str(), v.as_str()), ("a", "3"));
}

#[test]
fn default_hotel_is_trimmed() {
    let mut s = Settings::default();
    s.set_default_hotel("  www.habbo.de \n");
    assert_eq!(s.default_hotel_host, "www.habbo.de");
}

#[test]
fn record_install_updates_version_and_host() {
    let mut s = Settings::default();
    s.record_install(ClientId::AirBobba, "v2_1".to_string(), "www.habbo.es".to_string());
    assert_eq!(s.version_of(ClientId::AirBobba).as_deref(), Some("v2_1"));
    assert_eq!(s.default_hotel_host, "www.habbo.es");
    assert_eq!(s.selected, ClientId::AirPlus);
}

#[test]
fn version_map_lists_every_key_once() {
    let mut m = VersionMap::new();
    m.insert("airplus".to_string(), "1".to_string());
    m.insert("classic".to_string(), "2".to_string());
    m.insert("airplus".to_string(), "3".to_string());
    assert_eq!(m.len(), 2);
    let mut listed: Vec<(String, String)> = (0..m.len()).map(|i| m.entry(i)).collect();
    listed.sort();
    assert_eq!(
        listed,
        vec![
            ("airplus".to_string(), "3".to_string()),
            ("classic".to_string(), "2".to_string())
        ]
    );
}

