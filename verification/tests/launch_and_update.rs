use bobba_launcher::extract_habbo_url;
use bobba_launcher::launch::{ensure_encrypted_local_storage, launch_args, launch_precheck, strip_extensions_block};
use bobba_launcher::ticket::parse_ticket;
use bobba_launcher::updater::{
    classify_release_status, download_message, installer_args, is_newer, is_retryable_spawn_error,
    normalize_version, parse_semver, pick_windows_asset, pick_windows_asset_lowered,
    next_spawn_step, release_failure_message, spawn_retry_delay_ms, update_from_release, updater_failure_message,
    GhAsset, GhRelease, ReleaseStatus, SpawnStep,
};

#[test]
fn launch_arguments() {
    let t = parse_ticket("hhes.abc.V4").expect("ticket");
    assert_eq!(launch_args(&t), vec!["-server", "hhes", "-ticket", "abc.V4"]);
}

#[test]
fn launch_prechecks() {
    assert_eq!(launch_precheck(false, true, "C:\\c").err().as_deref(), Some("Habbo.exe not found in C:\\c"));
    assert_eq!(
        launch_precheck(true, false, "C:\\c").err().as_deref(),
        Some("META-INF/AIR/application.xml is missing from the client install")
    );
    assert!(launch_precheck(true, true, "C:\\c").is_ok());
}

#[test]
fn launch_descriptor_rewrites() {
    assert_eq!(strip_extensions_block("a<extensions>b</extensions>\n c"), "ac");
    let once = ensure_encrypted_local_storage("<application></application>");
    assert!(once.starts_with("<application>    <encryptedLocalStorage>\n"));
    assert_eq!(ensure_encrypted_local_storage(&once), once);
    assert_eq!(ensure_encrypted_local_storage("<x/>"), "<x/>");
}

#[test]
fn version_normalization() {
    assert_eq!(normalize_version(" v1.2.3 "), "1.2.3");
    assert_eq!(normalize_version("vv2"), "2");
    assert_eq!(normalize_version("v v1"), "v1");
}

#[test]
fn semver_reading() {
    assert_eq!(parse_semver("1.2.3"), Some((1, 2, 3)));
    assert_eq!(parse_semver("1.2"), Some((1, 2, 0)));
    assert_eq!(parse_semver("1"), Some((1, 0, 0)));
    assert_eq!(parse_semver("1.2.3-beta.4"), Some((1, 2, 3)));
    assert_eq!(parse_semver("+1.2.3"), Some((1, 2, 3)));
    assert_eq!(parse_semver("1.2.x"), None);
    assert_eq!(parse_semver("1..3"), None);
    assert_eq!(parse_semver("a.b"), None);
    assert_eq!(parse_semver(""), None);
    assert_eq!(parse_semver("18446744073709551616"), None);
    assert_eq!(parse_semver("18446744073709551615.0.0"), Some((u64::MAX, 0, 0)));
}

#[test]
fn newer_releases() {
    assert!(is_newer("v0.2.0", "0.1.9"));
    assert!(is_newer("1.0", "v0.9.9"));
    assert!(!is_newer("0.1.0", "0.1.0"));
    assert!(!is_newer("v0.1.0", "0.2.0"));
    assert!(is_newer("nightly", "0.1.0"));
    assert!(!is_newer("", "0.1.0"));
    assert!(!is_newer("nightly", "nightly"));
}

fn gh(name: &str) -> GhAsset {
    GhAsset { name: name.to_string(), browser_download_url: format!("https://dl/{name}") }
}

#[test]
fn installer_asset_choice() {
    let assets = vec![gh("bobba.exe"), gh("Bobba_0.2.0_x64-SETUP.exe"), gh("latest.json")];
    assert_eq!(pick_windows_asset(&assets).map(|a| a.name.as_str()), Some("Bobba_0.2.0_x64-SETUP.exe"));
    let assets = vec![gh("notes.msi"), gh("Bobba.EXE"), gh("other.exe")];
    assert_eq!(pick_windows_asset(&assets).map(|a| a.name.as_str()), Some("Bobba.EXE"));
    assert!(pick_windows_asset(&vec![gh("a.zip"), gh("a.exe.sig")]).is_none());
    let lowered = vec!["x.zip".to_string(), "my setup tool.exe".to_string()];
    assert_eq!(pick_windows_asset_lowered(&lowered), Some(1));
}

#[test]
fn updates_from_releases() {
    let release = GhRelease {
        tag_name: "v0.3.0".to_string(),
        body: Some("notes".to_string()),
        html_url: "https://gh/r".to_string(),
        assets: vec![gh("bobba-launcher_0.3.0_x64-setup.exe")],
    };
    let u = update_from_release(&release, "0.2.0").ok().flatten().expect("update");
    assert_eq!(u.version, "0.3.0");
    assert_eq!(u.notes.as_deref(), Some("notes"));
    assert_eq!(u.html_url, "https://gh/r");
    assert_eq!(u.asset_name, "bobba-launcher_0.3.0_x64-setup.exe");
    assert_eq!(u.download_url, "https://dl/bobba-launcher_0.3.0_x64-setup.exe");
    assert!(update_from_release(&release, "0.3.0").ok().expect("ok").is_none());
    let bare = GhRelease { assets: vec![gh("src.zip")], ..release };
    assert_eq!(
        update_from_release(&bare, "0.1.0").err().as_deref(),
        Some("Latest release has no Windows .exe asset")
    );
}

#[test]
fn release_statuses() {
    assert_eq!(classify_release_status(404), ReleaseStatus::NotFound);
    assert_eq!(classify_release_status(200), ReleaseStatus::Found);
    assert_eq!(classify_release_status(500), ReleaseStatus::Failed);
    assert_eq!(release_failure_message("403 Forbidden"), "GitHub releases request failed (403 Forbidden)");
}

#[test]
fn installer_start() {
    assert_eq!(installer_args("Bobba_x64-SETUP.exe"), vec!["/S"]);
    assert!(installer_args("bobba.exe").is_empty());
    assert!(is_retryable_spawn_error("The process cannot access the file because it is being used by another process. (os error 32)"));
    assert!(is_retryable_spawn_error("Sharing violation"));
    assert!(!is_retryable_spawn_error("Access is denied. (os error 5)"));
    assert_eq!(spawn_retry_delay_ms(0), 0);
    assert_eq!(spawn_retry_delay_ms(3), 450);
    assert_eq!(
        updater_failure_message("C:\\t\\x.exe", "boom", "https://gh/r"),
        "Failed to start updater (C:\\t\\x.exe): boom. Close other Bobba Launcher windows and try again, or install manually from https://gh/r"
    );
    assert_eq!(download_message("0.3.0"), "Downloading launcher v0.3.0…");
}

#[test]
fn habbo_link_arguments() {
    let args = vec!["--minimized".to_string(), "\"habbo://hab?server=hhes&token=x.V4\"".to_string()];
    assert_eq!(extract_habbo_url(&args).as_deref(), Some("habbo://hab?server=hhes&token=x.V4"));
    let args = vec!["habbo://a".to_string(), "habbo://b".to_string()];
    assert_eq!(extract_habbo_url(&args).as_deref(), Some("habbo://a"));
    assert_eq!(extract_habbo_url(&["--x".to_string()]), None);
}

#[test]
fn newer_is_an_order_between_versions() {
    let (a, b, c) = ("1.3.0", "v1.2.9", "1.2.0");
    assert!(is_newer(a, b) && !is_newer(b, a));
    assert!(is_newer(b, c) && is_newer(a, c));
}

#[test]
fn spawn_retries_only_while_the_file_is_busy() {
    let busy = "The process cannot access the file because it is being used by another process. (os error 32)";
    assert_eq!(next_spawn_step(0, busy), SpawnStep::Retry { delay_ms: 150 });
    assert_eq!(next_spawn_step(3, busy), SpawnStep::Retry { delay_ms: 600 });
    assert_eq!(next_spawn_step(6, busy), SpawnStep::Retry { delay_ms: 1050 });
    // The eighth attempt is the last.
    assert_eq!(next_spawn_step(7, busy), SpawnStep::GiveUp);
    assert_eq!(next_spawn_step(u32::MAX, busy), SpawnStep::GiveUp);
    assert_eq!(next_spawn_step(0, "Access is denied. (os error 5)"), SpawnStep::GiveUp);
}

#[test]
fn descriptor_block_removal_for_launch() {
    assert_eq!(
        strip_extensions_block("<x><extensions>a</extensions>\n<extensions>b</extensions>\n</x>"),
        "<x></x>"
    );
}

