use nodedesk::discovery::{
    host_from_fields, add_found, beacon, host_from_reply, is_beacon, tailscale_hosts, FoundHost, TailscalePeer,
};
use nodedesk::headless::{
    choose_installer, display_count, driver_store_lists_vdd, elevated_command, install_outcome,
    status, unusable_release, vdd_installed, vdd_marker_found, InstallerChoice,
};
use nodedesk::monitor::{ai_services, parse_gpu_report};
use nodedesk::places::Platform;
use nodedesk::terminal::{after_poll, finish, shell_invocation, spawn_failed, start_dir_from, timed_out, Poll, PollAction};

#[test]
fn output_is_split_at_the_last_marker() {
    let text = "hello\nworld \n__NODEDESK_CWD__ /tmp/x \n";
    let r = finish(text, "", "/start".to_string(), Some(true));
    assert!(r.ok);
    assert_eq!(r.output, "hello\nworld");
    assert_eq!(r.cwd, "/tmp/x");
    let twice = "a__NODEDESK_CWD__b\n__NODEDESK_CWD__/c";
    let r = finish(twice, "", "/s".to_string(), Some(false));
    assert!(!r.ok);
    assert_eq!(r.output, "a__NODEDESK_CWD__b");
    assert_eq!(r.cwd, "/c");
}

#[test]
fn error_output_stays_in_the_output() {
    let r = finish("O\n\n__NODEDESK_CWD__/tmp", "E\n", "/start".to_string(), Some(true));
    assert_eq!(r.output, "O\n\nE");
    assert_eq!(r.cwd, "/tmp");
}

#[test]
fn output_without_marker_keeps_the_start_folder() {
    let r = finish("just text  ", "warn\n", "/home/me".to_string(), None);
    assert!(!r.ok, "no exit status means no success");
    assert_eq!(r.output, "just text  warn\n");
    assert_eq!(r.cwd, "/home/me");
}

#[test]
fn posix_script_quotes_the_folder() {
    let (shell, args) = shell_invocation(false, "/tmp/it's", "ls");
    assert_eq!(shell, "sh");
    assert_eq!(
        args,
        vec![
            "-c".to_string(),
            "cd '/tmp/it'\\''s'; ls; printf '\\n__NODEDESK_CWD__%s' \"$PWD\"".to_string()
        ]
    );
}

#[test]
fn powershell_script_doubles_quotes() {
    let (shell, args) = shell_invocation(true, "C:\\it's", "dir");
    assert_eq!(shell, "powershell");
    assert_eq!(args.len(), 4);
    assert_eq!(args[0], "-NoProfile");
    assert_eq!(
        args[3],
        "Set-Location -Path 'C:\\it''s'; dir; Write-Output \"`n__NODEDESK_CWD__$((Get-Location).Path)\""
    );
}

#[test]
fn commands_start_in_the_asked_folder() {
    assert_eq!(start_dir_from("/w", Some("/home/me".into())), "/w");
    assert_eq!(start_dir_from("", Some("/home/me".into())), "/home/me");
    assert_eq!(start_dir_from("", None), ".");
}

#[test]
fn polls_decide_finish_kill_or_wait() {
    assert!(matches!(after_poll(Poll::Exited(true), false), PollAction::Finish(Some(true))));
    assert!(matches!(after_poll(Poll::Exited(false), true), PollAction::Finish(Some(false))));
    assert!(matches!(after_poll(Poll::Running, true), PollAction::Kill));
    assert!(matches!(after_poll(Poll::Running, false), PollAction::Sleep));
    assert!(matches!(after_poll(Poll::Failed, false), PollAction::Finish(None)));
}

#[test]
fn failed_and_timed_out_commands_report_why() {
    let r = spawn_failed("no such file", "/x".to_string());
    assert!(!r.ok);
    assert_eq!(r.output, "failed to start shell: no such file");
    let t = timed_out("/x".to_string());
    assert!(!t.ok);
    assert!(t.output.contains("timed out"));
    assert_eq!(t.cwd, "/x");
}

#[test]
fn beacons_are_recognised() {
    assert_eq!(beacon(), b"NODEDESK_DISCOVER_V1".to_vec());
    assert!(is_beacon(b"NODEDESK_DISCOVER_V1"));
    assert!(!is_beacon(b"NODEDESK_DISCOVER_V2"));
    assert!(!is_beacon(b""));
}

#[test]
fn replies_name_the_host() {
    let h = host_from_reply(br#"{"name":"AI-PC","os":"windows"}"#, "10.0.0.5".into()).unwrap();
    assert_eq!(h.name, "AI-PC");
    assert_eq!(h.os, "windows");
    assert_eq!(h.address, "10.0.0.5");
    assert_eq!(h.via, "lan");
    let d = host_from_reply(br#"{"os":3}"#, "10.0.0.6".into()).unwrap();
    assert_eq!(d.name, "Computer");
    assert_eq!(d.os, "unknown");
    assert!(host_from_reply(b"not json", "10.0.0.7".into()).is_none());
}

fn host(address: &str) -> FoundHost {
    FoundHost { name: "n".into(), os: "o".into(), address: address.into(), via: "lan".into() }
}

#[test]
fn each_address_is_listed_once() {
    let mut found = vec![];
    add_found(&mut found, host("10.0.0.1"));
    add_found(&mut found, host("10.0.0.2"));
    add_found(&mut found, host("10.0.0.1"));
    assert_eq!(found.len(), 2);
    assert_eq!(found[1].address, "10.0.0.2");
}

#[test]
fn online_tailnet_peers_become_hosts() {
    let peers = vec![
        TailscalePeer { host_name: "box".into(), ips: vec!["100.64.0.1".into(), "fd7a::1".into()], online: true },
        TailscalePeer { host_name: "".into(), ips: vec!["100.64.0.2".into()], online: true },
        TailscalePeer { host_name: "off".into(), ips: vec!["100.64.0.3".into()], online: false },
        TailscalePeer { host_name: "noip".into(), ips: vec![], online: true },
    ];
    let hosts = tailscale_hosts(peers);
    assert_eq!(hosts.len(), 2);
    assert_eq!(hosts[0].name, "box");
    assert_eq!(hosts[0].address, "100.64.0.1");
    assert_eq!(hosts[1].name, "100.64.0.2");
    assert_eq!(hosts[1].via, "tailscale");
    assert_eq!(hosts[1].os, "unknown");
}

#[test]
fn gpu_reports_are_read() {
    let g = parse_gpu_report("NVIDIA GeForce RTX 4090, 37, 2048, 24564\r\nsecond, 1, 2, 3\n").unwrap();
    assert_eq!(g.name, "NVIDIA GeForce RTX 4090");
    assert_eq!(g.utilization_pct, 37);
    assert_eq!(g.vram_used_mb, 2048);
    assert_eq!(g.vram_total_mb, 24564);
    let odd = parse_gpu_report("  card, n/a, 300, 18446744073709551615 ").unwrap();
    assert_eq!(odd.utilization_pct, 0);
    assert_eq!(odd.vram_total_mb, u64::MAX);
    assert!(parse_gpu_report("card, 1, 2").is_none());
    assert!(parse_gpu_report("   ").is_none());
}

#[test]
fn known_ai_services_start_unprobed() {
    let s = ai_services();
    assert_eq!(s.len(), 8);
    assert_eq!(s[0].name, "Ollama");
    assert_eq!(s[0].port, 11434);
    assert!(s.iter().all(|x| !x.running));
}

#[test]
fn displays_are_counted_on_windows_only() {
    assert_eq!(display_count(Platform::Windows, Some(" 2\r\n")), 2);
    assert_eq!(display_count(Platform::Windows, Some("garbage")), 1);
    assert_eq!(display_count(Platform::Windows, None), 1);
    assert_eq!(display_count(Platform::Linux, Some("3")), 1);
}

#[test]
fn the_virtual_display_driver_is_detected() {
    assert!(driver_store_lists_vdd("Published Name: oem3.inf\nOriginal Name: VirtualDisplayDriver.inf"));
    assert!(driver_store_lists_vdd("IddSampleDriver"));
    assert!(!driver_store_lists_vdd("Some other driver"));
    assert!(vdd_installed(Platform::Windows, true, None));
    assert!(vdd_installed(Platform::Windows, false, Some("virtual display adapter")));
    assert!(!vdd_installed(Platform::Linux, true, Some("virtual display")));
    assert!(vdd_marker_found(&|p: String| p == "C:\\IddSampleDriver"));
    assert!(!vdd_marker_found(&|_p: String| false));
    let s = status(Platform::Windows, true, 2);
    assert!(s.supported && s.vdd_installed && s.display_count == 2);
    assert!(!status(Platform::MacOs, false, 1).supported);
}

#[test]
fn installers_are_chosen_by_name() {
    let names = vec!["VDD.zip".to_string(), "Virtual.Display.Driver-Setup.EXE".to_string()];
    assert!(matches!(choose_installer(&names), InstallerChoice::Setup(1)));
    let zips = vec!["VDD.zip".to_string(), "readme.txt".to_string()];
    assert!(matches!(choose_installer(&zips), InstallerChoice::ManualZip));
    assert!(matches!(choose_installer(&vec!["x.txt".to_string()]), InstallerChoice::Nothing));
    assert!(unusable_release(false).contains("no usable installer"));
    assert_eq!(
        elevated_command("C:\\Temp\\it's.exe"),
        "Start-Process -FilePath 'C:\\Temp\\it''s.exe' -Verb RunAs -Wait"
    );
    assert_eq!(install_outcome(false, true), Err("installer was cancelled or failed".to_string()));
    assert_eq!(install_outcome(true, true), Ok(()));
    assert!(install_outcome(true, false).unwrap_err().contains("reboot"));
}

#[test]
fn parsed_fields_name_the_host() {
    let h = host_from_fields(Some(Some("Box".into())), Some(None), "10.0.0.9".into()).unwrap();
    assert_eq!(h.name, "Box");
    assert_eq!(h.os, "unknown");
    assert!(host_from_fields(None, Some(Some("x".into())), "10.0.0.9".into()).is_none());
}
