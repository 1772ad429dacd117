use nodedesk::install::{install_step, Asset, InstallAction, InstallEvent, InstallState, Product, PROBE_LIMIT};
use nodedesk::places::Platform;
use nodedesk::state::{host_code_target, secret_target};

fn release(assets: &[(&str, &str)]) -> InstallEvent {
    InstallEvent::Release(Ok((
        "v1.2".to_string(),
        assets.iter().map(|(n, u)| Asset { name: n.to_string(), url: u.to_string() }).collect(),
    )))
}

#[test]
fn sunshine_installs_on_windows_after_the_origin_check() {
    let p = Product::Sunshine;
    let w = Platform::Windows;
    let (s, a) = install_step(p, w, InstallState::Start, InstallEvent::Begin);
    assert!(matches!(a, InstallAction::CheckInstalled));
    let (s, a) = install_step(p, w, s, InstallEvent::Installed(false));
    assert!(matches!(a, InstallAction::FetchRelease));
    let url = "https://github.com/LizardByte/Sunshine/releases/download/v1.2/Sunshine-Windows-AMD64-installer.exe";
    let (s, a) = install_step(p, w, s, release(&[("Sunshine-Windows-AMD64-installer.exe", url)]));
    match &a {
        InstallAction::Download { url: u, file_name } => {
            assert_eq!(u, url);
            assert_eq!(file_name, "nodedesk-sunshine-installer.exe");
        }
        _ => panic!("expected a download"),
    }
    let (s, a) = install_step(p, w, s, InstallEvent::Downloaded(Ok(())));
    assert!(matches!(a, InstallAction::Run { .. }));
    let (mut s, a) = install_step(p, w, s, InstallEvent::Ran(Ok(true)));
    assert!(matches!(a, InstallAction::Probe));
    let mut waits = 0;
    loop {
        let (next, a) = install_step(p, w, s, InstallEvent::Probed(false));
        s = next;
        match a {
            InstallAction::WaitAndProbe => waits += 1,
            InstallAction::Finish(r) => {
                assert_eq!(r, Err("Sunshine installer completed but sunshine.exe was not found".to_string()));
                break;
            }
            _ => panic!("unexpected step"),
        }
    }
    assert_eq!(waits, PROBE_LIMIT - 1);
}

#[test]
fn a_foreign_asset_is_never_downloaded() {
    let p = Product::Sunshine;
    let w = Platform::Windows;
    let (s, _) = install_step(p, w, InstallState::Start, InstallEvent::Begin);
    let (s, _) = install_step(p, w, s, InstallEvent::Installed(false));
    let (_, a) = install_step(p, w, s, release(&[("Sunshine-Windows-installer.exe", "https://evil.example/x.exe")]));
    match a {
        InstallAction::Finish(Err(m)) => assert!(m.starts_with("refusing to download")),
        _ => panic!("a foreign URL must stop the installation"),
    }
}

#[test]
fn the_display_driver_needs_a_plain_name() {
    let p = Product::DisplayDriver;
    let w = Platform::Windows;
    let (s, a) = install_step(p, w, InstallState::Start, InstallEvent::Begin);
    assert!(matches!(a, InstallAction::FetchRelease));
    let url = "https://github.com/itsmikethetech/Virtual-Display-Driver/releases/download/v1/x";
    let (_, a) = install_step(p, w, s, release(&[("..\\setup.exe", url)]));
    assert!(matches!(a, InstallAction::Finish(Err(_))));
    let (_, a) = install_step(p, Platform::Linux, InstallState::Start, InstallEvent::Begin);
    assert!(matches!(a, InstallAction::Finish(Err(_))));
}

#[test]
fn installed_tools_are_left_alone() {
    let (s, _) = install_step(Product::Sunshine, Platform::Linux, InstallState::Start, InstallEvent::Begin);
    let (_, a) = install_step(Product::Sunshine, Platform::Linux, s, InstallEvent::Installed(true));
    match a {
        InstallAction::Finish(Ok(m)) => assert_eq!(m, "already installed"),
        _ => panic!("an installed Sunshine is not reinstalled"),
    }
}

#[test]
fn secrets_are_kept_under_the_service() {
    let (service, key) = secret_target("sunshine-credentials");
    assert_eq!(service, "dev.nodedesk.app");
    assert_eq!(key, "sunshine-credentials");
    let (service, key) = host_code_target("10.0.0.2");
    assert_eq!(service, "dev.nodedesk.app");
    assert_eq!(key, "host-code:10.0.0.2");
}
