use bobba_launcher::clients::ClientId;
use bobba_launcher::install::RemoteClient;
use bobba_launcher::pipeline::{
    airplus_remote, install_precheck, install_steps, official_remote, remote_source, swf_kind,
    InstallStep, RemoteSource, SwfClientKind,
};

fn remote(version: &str, url: &str, patch: Option<&str>) -> RemoteClient {
    RemoteClient {
        version: version.to_string(),
        client_url: url.to_string(),
        patch_url: patch.map(|p| p.to_string()),
    }
}

fn progress_message(step: &InstallStep) -> Option<String> {
    match step {
        InstallStep::Progress(p) => Some(p.message.clone()),
        _ => None,
    }
}

#[test]
fn sources_and_kinds() {
    assert_eq!(remote_source(ClientId::Classic), RemoteSource::OfficialClientUrls);
    assert_eq!(remote_source(ClientId::AirPlus), RemoteSource::AirPlusSwf);
    assert_eq!(remote_source(ClientId::AirBobba), RemoteSource::BobbaRelease);
    assert_eq!(swf_kind(ClientId::Classic), None);
    assert_eq!(swf_kind(ClientId::AirPlus), Some(SwfClientKind::AirPlus));
    assert_eq!(swf_kind(ClientId::AirBobba), Some(SwfClientKind::AirBobba));
    let r = airplus_remote("123".to_string());
    assert_eq!(r.client_url, "https://github.com/LilithRainbows/HabboAirPlus/releases/download/latest/HabboAir.swf");
    assert!(r.patch_url.is_none());
    let r = official_remote("63".to_string(), "https://x/c.zip".to_string());
    assert_eq!(r.version, "63");
    assert_eq!(r.client_url, "https://x/c.zip");
}

#[test]
fn precheck() {
    assert_eq!(
        install_precheck(ClientId::AirPlus, false).err().as_deref(),
        Some("Install pipeline is currently Windows-only")
    );
    let p = install_precheck(ClientId::AirBobba, true).ok().expect("ok");
    assert_eq!(p.stage, "check");
    assert_eq!(p.percent, None);
    assert_eq!(p.message, "Verifying latest Bobba Client version…");
}

#[test]
fn current_install_is_only_repaired() {
    let steps = install_steps(ClientId::AirPlus, &remote("v9", "u", None), "x86_64", true);
    assert_eq!(steps.len(), 2);
    assert!(matches!(steps[0], InstallStep::NormalizeXmlQuietly));
    assert_eq!(progress_message(&steps[1]).as_deref(), Some("AirPlus is up to date (v9)"));
}

#[test]
fn fresh_airplus_install() {
    let steps = install_steps(ClientId::AirPlus, &remote("v9", "https://s/HabboAir.swf", None), "x86", false);
    assert_eq!(steps.len(), 17);
    assert_eq!(progress_message(&steps[0]).as_deref(), Some("Downloading AirPlus v9…"));
    assert!(matches!(steps[1], InstallStep::ResetDir));
    match &steps[2] {
        InstallStep::Download { url, file, label } => {
            assert_eq!(url, "https://s/HabboAir.swf");
            assert_eq!(file, "HabboAir.swf");
            assert_eq!(label, "HabboAir.swf");
        },
        _ => panic!("expected the client download"),
    }
    match &steps[4] {
        InstallStep::Download { url, file, .. } => {
            assert_eq!(file, "HabboAirWindowsPatch_x86.zip");
            assert!(url.ends_with("/Assets/HabboAirWindowsPatch_x86.zip"));
        },
        _ => panic!("expected the runtime download"),
    }
    match &steps[8] {
        InstallStep::Download { file, .. } => assert_eq!(file, "HabboAirPlusPatch.zip"),
        _ => panic!("expected the patch download"),
    }
    assert!(matches!(steps[11], InstallStep::NormalizeXml));
    match &steps[14] {
        InstallStep::SetSwfVersion { file, byte } => {
            assert_eq!(file, "HabboAir.swf");
            assert_eq!(*byte, 51);
        },
        _ => panic!("expected the swf version fix"),
    }
    match &steps[15] {
        InstallStep::WriteVersion { version } => assert_eq!(version, "v9"),
        _ => panic!("expected the version record"),
    }
    assert_eq!(progress_message(&steps[16]).as_deref(), Some("Client ready"));
}

#[test]
fn fresh_classic_install_skips_runtime_entries() {
    let steps = install_steps(ClientId::Classic, &remote("63", "https://c/zip", None), "x86_64", false);
    assert_eq!(steps.len(), 16);
    match &steps[2] {
        InstallStep::Download { file, label, .. } => {
            assert_eq!(file, "ClientDownload.zip");
            assert_eq!(label, "official client");
        },
        _ => panic!("expected the client download"),
    }
    match &steps[8] {
        InstallStep::Extract { file, skip } => {
            assert_eq!(file, "ClientDownload.zip");
            assert_eq!(skip, &vec!["Adobe AIR", "META-INF/signatures.xml", "META-INF/AIR/hash", "Habbo.exe"]);
        },
        _ => panic!("expected the client unpack"),
    }
}

#[test]
fn bobba_install_without_patch_fails() {
    let steps = install_steps(ClientId::AirBobba, &remote("t_1", "s", None), "x86_64", false);
    assert_eq!(steps.len(), 9);
    match &steps[8] {
        InstallStep::Fail { message } => assert_eq!(message, "Missing HabboAirBobbaPatch.zip URL"),
        _ => panic!("expected a failure"),
    }
    let steps = install_steps(ClientId::AirBobba, &remote("t_1", "s", Some("https://p")), "x86_64", false);
    assert_eq!(steps.len(), 17);
    match &steps[8] {
        InstallStep::Download { url, file, .. } => {
            assert_eq!(url, "https://p");
            assert_eq!(file, "HabboAirBobbaPatch.zip");
        },
        _ => panic!("expected the patch download"),
    }
}
