use nodedesk::moonlight::{extract_pin, stream_args};
use nodedesk::release::{safe_asset_name, verify_asset_url};
use nodedesk::state::{
    code_from, host_code_key, legacy_code, random_code, Settings, ACCESS_CODE_LEN,
};
use nodedesk::sunshine::clean_pin;
use nodedesk::update::version_newer;
use nodedesk::wol::{build_packet, parse_mac, wake_packet};

#[test]
fn pin_parsing() {
    assert_eq!(
        extract_pin("Please enter the following PIN on the target PC: 1234"),
        Some("1234".to_string())
    );
    assert_eq!(extract_pin("Connecting to 192.168.1.10"), None);
}

#[test]
fn stream_arg_mapping() {
    let s = Settings {
        resolution: "4k".into(),
        fps: 120,
        bitrate_mbps: 80,
        codec: "hevc".into(),
        hdr: true,
        ..Default::default()
    };
    let args = stream_args(&s, "ai-pc");
    assert!(args.contains(&"-4k".to_string()));
    assert!(args.contains(&"-fps".to_string()));
    assert!(args.contains(&"120".to_string()));
    assert!(args.contains(&"80000".to_string()));
    assert!(args.contains(&"hevc".to_string()));
    assert!(args.contains(&"-hdr".to_string()));
    assert_eq!(args.last().unwrap(), "Desktop");
}

#[test]
fn default_settings_stream_with_auto_choices() {
    let args = stream_args(&Settings::default(), "box");
    assert_eq!(args, vec!["-fps", "60", "-bitrate", "40000", "stream", "box", "Desktop"]);
}

#[test]
fn accepts_a_genuine_release_asset() {
    assert!(verify_asset_url(
        "https://github.com/LizardByte/Sunshine/releases/download/v0.23.1/sunshine-windows-installer.exe",
        "LizardByte",
        "Sunshine"
    )
    .is_ok());
}

#[test]
fn rejects_a_foreign_host() {
    assert!(verify_asset_url(
        "https://evil.example.com/sunshine-windows-installer.exe",
        "LizardByte",
        "Sunshine"
    )
    .is_err());
}

#[test]
fn rejects_another_repository() {
    assert!(verify_asset_url(
        "https://github.com/attacker/Sunshine/releases/download/v1/setup.exe",
        "LizardByte",
        "Sunshine"
    )
    .is_err());
}

#[test]
fn rejects_a_lookalike_host_prefix() {
    assert!(verify_asset_url(
        "https://github.com.evil.example/LizardByte/Sunshine/releases/download/v1/x.exe",
        "LizardByte",
        "Sunshine"
    )
    .is_err());
}

#[test]
fn rejects_plain_http() {
    assert!(verify_asset_url(
        "http://github.com/LizardByte/Sunshine/releases/download/v1/x.exe",
        "LizardByte",
        "Sunshine"
    )
    .is_err());
}

#[test]
fn refusal_names_the_url_and_repository() {
    assert_eq!(
        verify_asset_url("http://x/y", "o", "r"),
        Err("refusing to download http://x/y: not an official o/r release asset".to_string())
    );
}

#[test]
fn accepts_a_plain_filename() {
    assert!(safe_asset_name("VDD-Setup-1.2.3.exe").is_ok());
}

#[test]
fn rejects_names_that_escape_the_directory() {
    assert!(safe_asset_name("../../evil.exe").is_err());
    assert!(safe_asset_name("sub/dir/evil.exe").is_err());
    assert!(safe_asset_name(r"..\..\evil.exe").is_err());
    assert!(safe_asset_name("C:/Windows/System32/evil.exe").is_err());
    assert!(safe_asset_name("").is_err());
}

#[test]
fn unsafe_name_error_names_it() {
    assert_eq!(
        safe_asset_name("a:b"),
        Err("refusing to use unsafe asset name: a:b".to_string())
    );
    assert!(safe_asset_name("nul\0byte").is_err());
}

#[test]
fn defaults_match_spec() {
    let s = Settings::default();
    assert_eq!(s.mode, "both");
    assert!(s.clipboard_sync);
    assert!(s.tailscale_enabled);
    assert_eq!(s.codec, "auto");
}

#[test]
fn access_codes_are_unambiguous() {
    let code = random_code(ACCESS_CODE_LEN);
    assert_eq!(code.len(), ACCESS_CODE_LEN);
    assert!(code.chars().all(|c| c.is_ascii_uppercase() || c.is_ascii_digit()));
    assert!(!code.contains('0') && !code.contains('O') && !code.contains('1') && !code.contains('I'));
}

#[test]
fn access_codes_carry_enough_entropy() {
    let bits = (ACCESS_CODE_LEN as f64) * 32f64.log2();
    assert!(bits >= 50.0, "access code entropy too low: {bits} bits");
}

#[test]
fn access_codes_do_not_repeat() {
    let a = random_code(ACCESS_CODE_LEN);
    let b = random_code(ACCESS_CODE_LEN);
    assert_ne!(a, b);
}

#[test]
fn host_codes_have_their_own_keys() {
    assert_eq!(host_code_key("10.0.0.2"), "host-code:10.0.0.2");
}

#[test]
fn legacy_codes_are_found_by_address() {
    let mut s = Settings::default();
    s.legacy_host_codes.push(("10.0.0.2".into(), "OLD-CODE".into()));
    assert_eq!(legacy_code(&s, "10.0.0.2"), Some("OLD-CODE".to_string()));
    assert_eq!(legacy_code(&s, "10.0.0.3"), None);
    assert_eq!(code_from(None, &s, "10.0.0.2"), Some("OLD-CODE".to_string()));
    assert_eq!(code_from(Some("NEW".into()), &s, "10.0.0.2"), Some("NEW".to_string()));
}

#[test]
fn pin_cleaning() {
    assert_eq!(clean_pin("1234"), Some("1234".to_string()));
    assert_eq!(clean_pin(" 1 2 3 4 "), Some("1234".to_string()));
    assert_eq!(clean_pin("12-34"), Some("1234".to_string()));
    assert_eq!(clean_pin("123"), None);
    assert_eq!(clean_pin("12345"), None);
    assert_eq!(clean_pin("abcd"), None);
}

#[test]
fn semver_compare() {
    assert!(version_newer("v1.0.1", "1.0.0"));
    assert!(version_newer("v2.0.0", "1.9.9"));
    assert!(version_newer("1.0.1", "v1.0.0"));
    assert!(!version_newer("v1.0.0", "1.0.0"));
    assert!(!version_newer("v0.9.0", "1.0.0"));
    assert!(!version_newer("v1.0", "1.0.1"));
}

#[test]
fn versions_compare_component_wise() {
    assert!(version_newer("1.10.0", "1.9.9"));
    assert!(version_newer("1.0.0.1", "1.0.0"));
    assert!(!version_newer("1.x", "1.0"));
}

#[test]
fn parses_common_mac_formats() {
    assert!(parse_mac("AA:BB:CC:DD:EE:FF").is_some());
    assert!(parse_mac("aa-bb-cc-dd-ee-ff").is_some());
    assert!(parse_mac("not-a-mac").is_none());
}

#[test]
fn mac_bytes_are_read_in_order() {
    assert_eq!(parse_mac("01:23:45:67:89:ab"), Some([0x01, 0x23, 0x45, 0x67, 0x89, 0xab]));
    assert_eq!(parse_mac("01:23:45:67:89"), None);
    assert_eq!(parse_mac("01:23:45:67:89:1ff"), None);
}

#[test]
fn magic_packet_shape() {
    let packet = build_packet([0xAA, 0xBB, 0xCC, 0xDD, 0xEE, 0xFF]);
    assert_eq!(packet.len(), 102);
    assert!(packet[..6].iter().all(|b| *b == 0xFF));
    assert_eq!(&packet[6..12], &[0xAA, 0xBB, 0xCC, 0xDD, 0xEE, 0xFF]);
}

#[test]
fn wake_packets_repeat_the_address() {
    let packet = wake_packet("AA-BB-CC-DD-EE-FF").unwrap();
    assert_eq!(&packet[96..102], &[0xAA, 0xBB, 0xCC, 0xDD, 0xEE, 0xFF]);
    assert_eq!(wake_packet("nope"), Err("invalid MAC address".to_string()));
}
