use bobba_launcher::clients::ClientId;
use bobba_launcher::install::{
    air_patch_asset, asset_url, asset_version_stamp, bobba_release_status, bobba_remote_from_release,
    client_dir,
    insert_encrypted_local_storage, install_choice, is_install_healthy, is_version_current,
    normalize_air_application_xml, official_clienturls_url, read_installed_version,
    repair_outcome, repair_precheck, resolve_install, sanitize_version_folder, set_swf_version,
    should_skip, strip_extensions_from_string, swf_version_from_head, swf_version_from_parts,
    unzip_entry_action, version_stamp_from, EntryAction, GhAsset, InstallChoice, InstallFiles,
};

const OFFICIAL_SKIPS: [&str; 4] = ["Adobe AIR", "META-INF/signatures.xml", "META-INF/AIR/hash", "Habbo.exe"];

fn files(exe: bool, swf: bool, xml: bool) -> InstallFiles {
    InstallFiles { habbo_exe: exe, habbo_swf: swf, application_xml: xml }
}

#[test]
fn client_dir_layout() {
    let d = client_dir("/data", ClientId::AirBobba, "v1_2").expect("dir");
    assert_eq!(d.segments(), vec!["/data", "downloads", "airbobba", "v1_2"]);
    let d = client_dir("/data", ClientId::Classic, "63").expect("dir");
    assert_eq!(d.folder, "air");
}

#[test]
fn install_health() {
    assert!(is_install_healthy(&files(true, true, true)));
    assert!(!is_install_healthy(&files(true, true, false)));
    assert!(!is_install_healthy(&files(false, true, true)));
}

#[test]
fn resolve_install_needs_a_complete_install() {
    let ok = resolve_install("/d", ClientId::AirPlus, "1", &files(true, true, true)).expect("ok");
    assert_eq!(ok.segments(), vec!["/d", "downloads", "airplus", "1"]);
    let err = resolve_install("/d", ClientId::AirPlus, "1", &files(true, false, true)).err().expect("err");
    assert_eq!(err, "Client is not installed. Click Install / Update first.");
}

#[test]
fn skip_prefixes_match_entries_and_their_contents() {
    assert!(should_skip("Adobe AIR", &OFFICIAL_SKIPS));
    assert!(should_skip("Adobe AIR/Versions/1.0/runtime.dll", &OFFICIAL_SKIPS));
    assert!(should_skip("adobe air\\versions\\x.dll", &OFFICIAL_SKIPS));
    assert!(should_skip("/Habbo.exe", &OFFICIAL_SKIPS));
    assert!(should_skip("META-INF\\AIR\\hash", &OFFICIAL_SKIPS));
    assert!(!should_skip("Adobe AIRx/file", &OFFICIAL_SKIPS));
    assert!(!should_skip("META-INF/AIR/application.xml", &OFFICIAL_SKIPS));
    assert!(!should_skip("Adobe AIR/", &OFFICIAL_SKIPS[1..]));
    assert!(!should_skip("anything", &[]));
}

#[test]
fn zip_entry_actions() {
    assert_eq!(
        unzip_entry_action(None, false, &[]).err().as_deref(),
        Some("Invalid zip entry path")
    );
    assert_eq!(unzip_entry_action(Some("Habbo.exe"), false, &OFFICIAL_SKIPS).ok(), Some(EntryAction::Skip));
    assert_eq!(unzip_entry_action(Some("lib"), true, &[]).ok(), Some(EntryAction::CreateDir));
    assert_eq!(unzip_entry_action(Some("lib/"), false, &[]).ok(), Some(EntryAction::CreateDir));
    assert_eq!(unzip_entry_action(Some("lib/a.swf"), false, &[]).ok(), Some(EntryAction::WriteFile));
}

#[test]
fn strips_the_extensions_block() {
    let xml = "<application>\n  <id>x</id>\n  <extensions>\n    <extensionID>discord</extensionID>\n  </extensions>\r\n  \n  <name>n</name>\n</application>";
    assert_eq!(
        strip_extensions_from_string(xml),
        "<application>\n  <id>x</id>\n  <name>n</name>\n</application>"
    );
    assert_eq!(strip_extensions_from_string("<a><extensions>"), "<a><extensions>");
    assert_eq!(strip_extensions_from_string("no tags"), "no tags");
}

#[test]
fn inserts_storage_before_the_last_application_close() {
    let block = "    <encryptedLocalStorage>\n        <fallbackMode>never</fallbackMode>\n        <storageMode>file</storageMode>\n    </encryptedLocalStorage>\n";
    assert_eq!(
        insert_encrypted_local_storage("<application>\n</application>"),
        format!("<application>\n{block}</application>")
    );
    assert_eq!(insert_encrypted_local_storage("<app/>"), "<app/>");
}

#[test]
fn normalizing_twice_is_normalizing_once() {
    let xml = "<application>\n<extensions><e/></extensions>\n</application>";
    let once = normalize_air_application_xml(xml);
    assert!(once.contains("<encryptedLocalStorage>"));
    assert!(!once.contains("<extensions>"));
    assert_eq!(normalize_air_application_xml(&once), once);
}

#[test]
fn swf_version_byte() {
    let mut data = vec![b'C', b'W', b'S', 10, 0xaa];
    assert!(set_swf_version(&mut data, 51).is_ok());
    assert_eq!(data, vec![b'C', b'W', b'S', 51, 0xaa]);
    let mut short = vec![1, 2, 3];
    assert_eq!(set_swf_version(&mut short, 51).err().as_deref(), Some("HabboAir.swf is too small"));
    assert_eq!(short, vec![1, 2, 3]);
}

#[test]
fn folder_names_are_sanitized() {
    assert_eq!(sanitize_version_folder("v1.0/2:3*?\"<>|\\x"), "v1.0_2_3_______x");
    assert_eq!(sanitize_version_folder(""), "latest");
    let once = sanitize_version_folder("a:b");
    assert_eq!(sanitize_version_folder(&once), once);
}

#[test]
fn version_stamps() {
    assert_eq!(version_stamp_from(Some(1704067200), "ignored"), "1704067200");
    assert_eq!(version_stamp_from(Some(-5), "ignored"), "-5");
    assert_eq!(version_stamp_from(None, "12:00"), "12_00");
    assert_eq!(asset_version_stamp("2024-01-01T00:00:00Z"), "1704067200");
    assert_eq!(asset_version_stamp("2024-01-01T01:00:00+01:00"), "1704067200");
    assert_eq!(asset_version_stamp("yesterday"), "yesterday");
}

#[test]
fn swf_versions_from_head_answers() {
    assert_eq!(swf_version_from_head(true, Some("Wed, 21 Oct 2015 07:28:00 GMT"), None), "1445412480");
    assert_eq!(swf_version_from_head(true, Some("garbage"), Some("\"0x8D-ab\"")), "etag_0x8D_ab");
    assert_eq!(swf_version_from_head(true, None, Some("\"\"")), "latest");
    assert_eq!(swf_version_from_head(false, Some("Wed, 21 Oct 2015 07:28:00 GMT"), None), "latest");
    assert_eq!(swf_version_from_parts(true, Some(7), Some("x")), "7");
    assert_eq!(swf_version_from_parts(true, None, None), "latest");
}

fn asset(name: &str, updated_at: &str, url: &str) -> GhAsset {
    GhAsset { name: name.to_string(), updated_at: updated_at.to_string(), browser_download_url: url.to_string() }
}

#[test]
fn bobba_release_remote() {
    let assets = vec![
        asset("notes.txt", "2024-01-01T00:00:00Z", "n"),
        asset("habboair.SWF", "2024-01-01T00:00:00Z", "https://x/swf"),
        asset("HabboAirBobbaPatch.zip", "2023-01-01T00:00:00Z", "https://x/patch"),
    ];
    let r = bobba_remote_from_release(" v1.0 ", &assets).ok().expect("remote");
    assert_eq!(r.version, "v1.0_1704067200");
    assert_eq!(r.client_url, "https://x/swf");
    assert_eq!(r.patch_url.as_deref(), Some("https://x/patch"));

    let r = bobba_remote_from_release("a/b", &vec![
        asset("HabboAir.swf", "soon", "s"),
        asset("HabboAirBobbaPatch.zip", "", "p"),
    ]).ok().expect("remote");
    assert_eq!(r.version, "a_b_soon");

    assert_eq!(
        bobba_remote_from_release("  ", &assets).err().as_deref(),
        Some("bobba-client latest release has an empty tag")
    );
    assert_eq!(
        bobba_remote_from_release("v1", &vec![asset("HabboAirBobbaPatch.zip", "", "p")]).err().as_deref(),
        Some("bobba-client latest release is missing HabboAir.swf")
    );
    assert_eq!(
        bobba_remote_from_release("v1", &vec![asset("HabboAir.swf", "", "p")]).err().as_deref(),
        Some("bobba-client latest release is missing HabboAirBobbaPatch.zip")
    );
}

#[test]
fn download_addresses() {
    assert_eq!(official_clienturls_url(" https://www.habbo.com "), "https://www.habbo.com/gamedata/clienturls");
    assert_eq!(official_clienturls_url("http://www.habbo.es"), "https://www.habbo.es/gamedata/clienturls");
    assert_eq!(official_clienturls_url("www.habbo.de"), "https://www.habbo.de/gamedata/clienturls");
    assert_eq!(air_patch_asset("x86"), "HabboAirWindowsPatch_x86.zip");
    assert_eq!(air_patch_asset("x86_64"), "HabboAirWindowsPatch_x64.zip");
    assert_eq!(
        asset_url("HabboAirPlusPatch.zip"),
        "https://raw.githubusercontent.com/LilithRainbows/HabboCustomLauncher/main/Assets/HabboAirPlusPatch.zip"
    );
}

#[test]
fn installed_version_and_currency() {
    assert_eq!(read_installed_version(Some(" 1700 \r\n")).as_deref(), Some("1700"));
    assert_eq!(read_installed_version(Some("  ")), None);
    assert_eq!(read_installed_version(None), None);
    let ok = files(true, true, true);
    assert!(is_version_current(&ok, Some("v1\n"), "v1"));
    assert!(!is_version_current(&ok, Some("v1"), "v2"));
    assert!(!is_version_current(&files(true, false, true), Some("v1"), "v1"));
    assert!(!is_version_current(&ok, None, "v1"));
}

#[test]
fn repair_and_choice() {
    assert!(repair_precheck(&files(true, true, false)).is_ok());
    assert_eq!(repair_precheck(&files(false, true, true)).err().as_deref(), Some("Client install is incomplete"));
    assert!(repair_outcome(&files(true, true, true)).is_ok());
    assert_eq!(repair_outcome(&files(true, true, false)).err().as_deref(), Some("Client install is incomplete"));
    assert_eq!(install_choice(false, &files(true, true, true)), InstallChoice::InstallFresh);
    assert_eq!(install_choice(true, &files(true, true, true)), InstallChoice::UseRecorded);
    assert_eq!(install_choice(true, &files(true, false, true)), InstallChoice::RepairRecorded);
}

#[test]
fn entry_names_that_a_prefix_would_cut() {
    assert!(bobba_launcher::install::entry_name_cuts_char("Adobe AIR€x", &["Adobe AIR"]));
    assert!(!bobba_launcher::install::entry_name_cuts_char("Adobe AIRxyz", &["Adobe AIR"]));
    assert!(!bobba_launcher::install::entry_name_cuts_char("Adobe AIR", &["Adobe AIR"]));
    assert!(!bobba_launcher::install::entry_name_cuts_char("€€€€€€€€€", &[]));
}

#[test]
fn republished_builds_get_new_folders() {
    let assets = |stamp: &str| vec![
        GhAsset { name: "HabboAir.swf".to_string(), updated_at: stamp.to_string(), browser_download_url: "s".to_string() },
        GhAsset { name: "HabboAirBobbaPatch.zip".to_string(), updated_at: String::new(), browser_download_url: "p".to_string() },
    ];
    let a = bobba_remote_from_release("v1", &assets("2024-01-01T00:00:00Z")).ok().expect("a");
    let b = bobba_remote_from_release("v1", &assets("2024-01-01T00:00:01Z")).ok().expect("b");
    assert_eq!(a.version, "v1_1704067200");
    assert_eq!(b.version, "v1_1704067201");
    assert_ne!(a.version, b.version);
}

#[test]
fn strips_every_extensions_block() {
    assert_eq!(
        strip_extensions_from_string(
            "<extensions></extensions><extensions></extensions><encryptedLocalStorage>"
        ),
        "<encryptedLocalStorage>"
    );
    assert_eq!(
        strip_extensions_from_string(
            "<a>\n  <extensions>x</extensions>\n  <b/>\n  <extensions>y</extensions>\n</a>"
        ),
        "<a>\n  <b/>\n  </a>"
    );
    // A block ends at the first closing tag after its opening tag.
    assert_eq!(
        strip_extensions_from_string("<extensions><extensions></extensions></extensions>z"),
        "</extensions>z"
    );
    // A closing tag before the first opening tag: the text from the end of
    // the closing tag up to the opening tag is kept twice, and the rest of
    // the text after the closing tag follows.
    assert_eq!(
        strip_extensions_from_string("</extensions>a<extensions>b"),
        "</extensions>aa<extensions>b"
    );
    // Text that runs on into a removed block can form a new opening tag,
    // which then has no closing tag after it.
    assert_eq!(strip_extensions_from_string("<exten<extensions></extensions>sions>"), "<extensions>");
}

#[test]
fn stripping_twice_is_stripping_once() {
    let xml = "<a><extensions>1</extensions> <extensions>2</extensions>\t<b/></a>";
    let once = strip_extensions_from_string(xml);
    assert_eq!(once, "<a><b/></a>");
    assert_eq!(strip_extensions_from_string(&once), once);
}

#[test]
fn bobba_release_status_errors_outside_2xx() {
    assert!(bobba_release_status(200, "200 OK").is_ok());
    assert!(bobba_release_status(299, "299 <unknown status code>").is_ok());
    assert_eq!(
        bobba_release_status(404, "404 Not Found").err().as_deref(),
        Some("bobba-client releases request failed (404 Not Found)")
    );
    assert_eq!(
        bobba_release_status(301, "301 Moved Permanently").err().as_deref(),
        Some("bobba-client releases request failed (301 Moved Permanently)")
    );
}

