use nodedesk::moonlight::{
    after_pair_poll, install_candidates, is_moonlight_exe, path_exe_name, portable_build, PairAction,
};
use nodedesk::places::Platform;
use nodedesk::sunshine::{
    api_base, auth_header, credentials_text, exe_candidates, exe_path, is_installed,
    os_release_is_debian, os_release_version_id, pin_approved, service_running, start_service,
    ubuntu_package, windows_installer,
};

#[test]
fn sunshine_is_looked_for_in_known_places() {
    let c = exe_candidates(Platform::Windows, Some("D:\\Programs".into()));
    assert_eq!(c, vec!["D:\\Programs\\Sunshine\\sunshine.exe", "C:\\Program Files\\Sunshine\\sunshine.exe"]);
    let linux = exe_candidates(Platform::Linux, None);
    assert_eq!(linux, vec!["/usr/bin/sunshine", "/usr/local/bin/sunshine"]);
    let present = |p: String| p == "/usr/local/bin/sunshine";
    assert_eq!(exe_path(&linux, &present), Some("/usr/local/bin/sunshine".to_string()));
    assert!(is_installed(&linux, &present));
    assert!(!is_installed(&linux, &|_p: String| false));
}

#[test]
fn the_service_state_is_read_from_its_query() {
    assert!(service_running(Platform::Windows, Some("STATE : 4 RUNNING")));
    assert!(!service_running(Platform::Windows, Some("STATE : 1 STOPPED")));
    assert!(service_running(Platform::Linux, Some("active\n")));
    assert!(!service_running(Platform::Linux, Some("inactive\n")));
    assert!(service_running(Platform::MacOs, Some("4242\n")));
    assert!(!service_running(Platform::MacOs, Some("  ")));
    assert!(!service_running(Platform::Windows, None));
}

#[test]
fn starting_the_service_reports_why_it_failed() {
    assert_eq!(start_service(Platform::Windows, Ok("The service has already been started.".into()), false), Ok(()));
    assert!(start_service(Platform::Windows, Ok("error".into()), false).unwrap_err().contains("administrator"));
    assert_eq!(start_service(Platform::Windows, Err("net missing".into()), true), Err("net missing".to_string()));
    assert_eq!(start_service(Platform::Linux, Err("x".into()), true), Ok(()));
    assert!(start_service(Platform::Linux, Ok(String::new()), false).is_err());
    assert_eq!(start_service(Platform::MacOs, Err("Sunshine is not installed".into()), false), Err("Sunshine is not installed".to_string()));
}

#[test]
fn installers_are_picked_from_releases() {
    let names = vec![
        "sunshine-linux.AppImage".to_string(),
        "Sunshine-Windows-AMD64-installer.exe".to_string(),
    ];
    assert_eq!(windows_installer(&names), Some(1));
    let debs = vec![
        "sunshine-ubuntu-22.04-amd64.deb".to_string(),
        "sunshine-ubuntu-24.04-amd64.deb".to_string(),
    ];
    assert_eq!(ubuntu_package(&debs, "24.04"), Some(1));
    assert_eq!(ubuntu_package(&debs, "20.04"), Some(0));
    assert_eq!(ubuntu_package(&vec!["x.rpm".to_string()], "24.04"), None);
}

#[test]
fn os_release_is_read() {
    let text = "NAME=\"Ubuntu\"\nVERSION_ID=\"24.04\"\r\nID=ubuntu\n";
    assert_eq!(os_release_version_id(text), "24.04");
    assert!(os_release_is_debian(text));
    assert_eq!(os_release_version_id("ID=arch\n"), "");
    assert!(!os_release_is_debian("ID=arch\n"));
}

#[test]
fn sunshine_api_and_credentials() {
    assert_eq!(api_base(None), "https://127.0.0.1:47990");
    assert_eq!(api_base(Some("http://127.0.0.1:9".into())), "http://127.0.0.1:9");
    assert_eq!(credentials_text("pw"), "nodedesk:pw");
    assert_eq!(auth_header(Some("nodedesk:pw".into())), Ok("Basic bm9kZWRlc2s6cHc=".to_string()));
    assert_eq!(auth_header(Some("ab".into())), Ok("Basic YWI=".to_string()));
    assert_eq!(auth_header(None), Err("Sunshine credentials not configured".to_string()));
    assert_eq!(pin_approved(Some("true")), Ok(()));
    assert!(pin_approved(Some("false")).is_err());
    assert!(pin_approved(None).is_err());
}

#[test]
fn moonlight_is_found_and_fetched() {
    assert_eq!(
        install_candidates(Platform::Windows, Some("C:\\Program Files".into())),
        vec!["C:\\Program Files\\Moonlight Game Streaming\\Moonlight.exe"]
    );
    assert!(install_candidates(Platform::Windows, None).is_empty());
    assert_eq!(install_candidates(Platform::Linux, None), vec!["/usr/bin/moonlight"]);
    assert_eq!(path_exe_name(Platform::Windows), "moonlight.exe");
    assert_eq!(path_exe_name(Platform::MacOs), "moonlight");
    assert!(is_moonlight_exe("Moonlight.EXE"));
    assert!(!is_moonlight_exe("Moonlight.exe.bak"));
    let names = vec![
        "MoonlightPortable-arm64-6.0.zip".to_string(),
        "MoonlightPortable-x64-6.0.zip".to_string(),
        "MoonlightSetup-6.0.exe".to_string(),
    ];
    assert_eq!(portable_build(&names), Some(1));
}

#[test]
fn pairing_waits_then_decides() {
    assert!(matches!(after_pair_poll(Some(Ok(true)), false), PairAction::Finish(Ok(()))));
    match after_pair_poll(Some(Ok(false)), false) {
        PairAction::Finish(Err(m)) => assert!(m.contains("approved")),
        _ => panic!("a failed pairing must be reported"),
    }
    assert!(matches!(after_pair_poll(None, false), PairAction::Wait));
    match after_pair_poll(None, true) {
        PairAction::KillAndFail(m) => assert!(m.contains("timed out")),
        _ => panic!("pairing past the deadline must stop"),
    }
    match after_pair_poll(Some(Err("gone".into())), false) {
        PairAction::Finish(Err(m)) => assert_eq!(m, "gone"),
        _ => panic!("a watch error must be reported"),
    }
}
