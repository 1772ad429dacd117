use nodedesk::agent::{check_command, denied_response, power_command, stat_error_response, Denied};
use nodedesk::files::{
    next_offset, transfer_step, TransferStep,
    chunk_query, download_name, download_resume, sort_entries, stat_outcome, upload_path,
    upload_target, written_end, FileEntry, StatError, TransferProgress,
};
use nodedesk::places::Platform;
use nodedesk::safepath::{
    download_dir_from, file_name, incoming_dir_from, join, prepare, read_roots_from, resolve,
    write_roots,
};
use std::collections::BTreeSet;

fn entry(name: &str, is_dir: bool) -> FileEntry {
    FileEntry { name: name.into(), is_dir, size: 0 }
}

#[test]
fn list_dir_puts_dirs_first() {
    let sorted = sort_entries(vec![entry("afile.txt", false), entry("zdir", true)]);
    assert_eq!(sorted.len(), 2);
    assert!(sorted[0].is_dir);
    assert_eq!(sorted[0].name, "zdir");
}

#[test]
fn listings_sort_names_without_case() {
    let sorted = sort_entries(vec![
        entry("b.txt", false),
        entry("Docs", true),
        entry("A.txt", false),
        entry("apps", true),
        entry("a.txt", false),
    ]);
    let names: Vec<&str> = sorted.iter().map(|e| e.name.as_str()).collect();
    assert_eq!(names, vec!["apps", "Docs", "A.txt", "a.txt", "b.txt"]);
}

#[test]
fn stat_answers_keep_missing_apart_from_denied() {
    let ok = stat_outcome(Ok("/x".into()), Some((true, false, 11))).ok().unwrap();
    assert_eq!(ok.size, 11);
    assert!(!ok.is_dir);
    let dir = stat_outcome(Ok("/x".into()), Some((false, true, 4096))).ok().unwrap();
    assert_eq!(dir.size, 0);
    assert!(matches!(stat_outcome(Ok("/x".into()), None), Err(StatError::Missing)));
    match stat_outcome(Err("outside".into()), None) {
        Err(StatError::Denied(m)) => assert_eq!(m, "outside"),
        _ => panic!("a refused path must be denied"),
    }
    assert_eq!(stat_error_response(StatError::Missing), (404, "not found".to_string()));
    assert_eq!(stat_error_response(StatError::Denied("no".into())), (403, "no".to_string()));
}

#[test]
fn downloads_resume_or_restart() {
    assert_eq!(download_resume(Some(5), 10), (5, false));
    assert_eq!(download_resume(Some(11), 10), (0, true));
    assert_eq!(download_resume(None, 10), (0, false));
}

#[test]
fn uploads_land_in_the_incoming_folder() {
    assert_eq!(upload_path("/in", "a.bin"), "/in/a.bin");
    assert_eq!(
        upload_target(Platform::Linux, "/in", "/home/me/photo.jpg"),
        Ok(("photo.jpg".to_string(), "/in/photo.jpg".to_string()))
    );
    assert_eq!(upload_target(Platform::Linux, "/in", "/"), Err("invalid file name".to_string()));
    assert_eq!(download_name(Platform::Linux, "/data/x/../report.pdf"), Ok("report.pdf".to_string()));
    assert_eq!(download_name(Platform::Linux, "/data/.."), Err("invalid remote path".to_string()));
    let q = chunk_query("/in/a.bin", 4096);
    assert_eq!(q, vec![("path", "/in/a.bin".to_string()), ("offset", "4096".to_string())]);
    assert_eq!(written_end(6, 5), 11);
}

#[test]
fn progress_reports_when_done() {
    let p = TransferProgress::new("up", "a.bin", 10, 10);
    assert!(p.finished);
    assert!(!TransferProgress::new("down", "a.bin", 3, 10).finished);
}

#[test]
fn file_names_and_folders() {
    assert_eq!(file_name(Platform::Linux, "/a/b/c.txt"), Some("c.txt".to_string()));
    assert_eq!(file_name(Platform::Linux, "/a/b/"), Some("b".to_string()));
    assert_eq!(file_name(Platform::Linux, "/"), None);
    assert_eq!(join("/home/me", "x"), "/home/me/x");
    assert_eq!(join("/home/me/", "x"), "/home/me/x");
    assert_eq!(incoming_dir_from(Some("/in".into()), Some("/home".into())), "/in");
    assert_eq!(incoming_dir_from(None, Some("/home".into())), "/home/NodeDesk-Incoming");
    assert_eq!(incoming_dir_from(None, None), "./NodeDesk-Incoming");
    assert_eq!(
        download_dir_from(None, Some("/dl".into()), Some("/home".into())),
        Some("/dl/NodeDesk".to_string())
    );
    assert_eq!(download_dir_from(None, None, Some("/home".into())), Some("/home/NodeDesk".to_string()));
    assert_eq!(download_dir_from(None, None, None), None);
    assert_eq!(
        read_roots_from(Some("/home".into()), "/in".into(), None),
        vec!["/home".to_string(), "/in".to_string()]
    );
    assert_eq!(write_roots("/in".into()), vec!["/in".to_string()]);
}

/// A filesystem of canonical folders and files: a path exists if it is
/// listed, and is its own canonical form.
fn fake_fs(paths: &[&str]) -> impl Fn(String) -> Option<String> {
    let set: BTreeSet<String> = paths.iter().map(|p| p.to_string()).collect();
    move |p: String| if set.contains(&p) { Some(p) } else { None }
}

#[test]
fn accepts_a_path_inside_the_root() {
    let fs = fake_fs(&["/", "/root", "/root/ok.txt"]);
    assert_eq!(resolve(Platform::Linux, "/root/ok.txt", &["/root".to_string()], &fs), Ok("/root/ok.txt".to_string()));
}

#[test]
fn rejects_a_path_outside_the_root() {
    let fs = fake_fs(&["/", "/root", "/tmp", "/tmp/secret.txt"]);
    assert!(resolve(Platform::Linux, "/tmp/secret.txt", &["/root".to_string()], &fs).is_err());
}

#[test]
fn rejects_traversal_out_of_the_root() {
    let fs = fake_fs(&["/", "/root", "/etc", "/etc/passwd"]);
    assert!(resolve(Platform::Linux, "/root/../../etc/passwd", &["/root".to_string()], &fs).is_err());
}

#[test]
fn rejects_traversal_written_with_backslashes() {
    let fs = fake_fs(&["/", "/root", "/Windows"]);
    assert!(resolve(Platform::Linux, "/root\\..\\..\\Windows\\System32\\config\\SAM", &["/root".to_string()], &fs).is_err());
}

#[test]
fn allows_a_file_that_does_not_exist_yet() {
    let fs = fake_fs(&["/", "/root", "/root/subdir"]);
    assert_eq!(
        resolve(Platform::Linux, "/root/subdir/new.bin", &["/root".to_string()], &fs),
        Ok("/root/subdir/new.bin".to_string())
    );
}

#[test]
fn rejects_relative_and_empty_paths() {
    let fs = fake_fs(&["/", "/root"]);
    assert_eq!(resolve(Platform::Linux, "", &["/root".to_string()], &fs), Err("path is required".to_string()));
    assert_eq!(
        resolve(Platform::Linux, "relative/path.txt", &["/root".to_string()], &fs),
        Err("path must be absolute".to_string())
    );
}

#[test]
fn links_out_of_the_root_are_refused() {
    // `/root/link` is a symlink to `/etc`.
    let fs = |p: String| match p.as_str() {
        "/" | "/root" | "/etc" => Some(p),
        "/root/link" => Some("/etc".to_string()),
        _ => None,
    };
    assert_eq!(
        resolve(Platform::Linux, "/root/link", &["/root".to_string()], &fs),
        Err("path is outside the folders NodeDesk shares".to_string())
    );
}

#[test]
fn agent_answers_and_commands() {
    assert_eq!(denied_response(Denied::Throttled), (429, "too many attempts"));
    assert_eq!(denied_response(Denied::Unauthorized).0, 401);
    assert!(check_command("ls -la").is_ok());
    assert_eq!(check_command(&"x".repeat(4097)), Err("command too long"));
    assert!(check_command(&"x".repeat(4096)).is_ok());
    assert_eq!(power_command(Platform::Linux, "sleep"), Ok(("systemctl", vec!["suspend"])));
    assert_eq!(
        power_command(Platform::Windows, "restart"),
        Ok(("shutdown", vec!["/r", "/t", "3"]))
    );
    assert_eq!(power_command(Platform::MacOs, "lock"), Ok(("pmset", vec!["displaysleepnow"])));
    assert_eq!(power_command(Platform::Linux, "dance"), Err("unknown power action"));
}

#[test]
fn transfer_loops_stop_when_done_or_cancelled() {
    assert_eq!(transfer_step(false, true), TransferStep::Finished);
    assert_eq!(transfer_step(true, true), TransferStep::Cancelled);
    assert_eq!(transfer_step(true, false), TransferStep::Continue);
    assert_eq!(next_offset(10, 0), None);
    assert_eq!(next_offset(10, 5), Some(15));
}

#[test]
fn links_deeper_in_the_root_are_followed() {
    // `/root/sub/link` points to `/etc`; the deepest existing prefix decides.
    let fs = |p: String| match p.as_str() {
        "/" | "/root" | "/root/sub" | "/etc" => Some(p),
        "/root/sub/link" => Some("/etc".to_string()),
        _ => None,
    };
    assert_eq!(
        resolve(Platform::Linux, "/root/sub/link/passwd", &["/root".to_string()], &fs),
        Err("path is outside the folders NodeDesk shares".to_string())
    );
}

/// A Windows filesystem: canonical forms are verbatim paths, compared
/// without regard to the case of the drive letter.
fn windows_fs(paths: &[&str]) -> impl Fn(String) -> Option<String> {
    let set: BTreeSet<String> = paths.iter().map(|p| p.to_string()).collect();
    move |p: String| {
        let key = p.replace('/', "\\").to_uppercase();
        set.iter().find(|s| s.to_uppercase() == key).map(|s| format!("\\\\?\\{s}"))
    }
}

#[test]
fn windows_drive_paths_are_absolute() {
    let p = prepare(Platform::Windows, "C:\\Users\\me\\x.txt").unwrap();
    assert!(p.rooted);
    let names: Vec<String> = p.names.iter().map(|n| n.iter().collect()).collect();
    assert_eq!(names, vec!["C:", "Users", "me", "x.txt"]);
    assert!(prepare(Platform::Windows, "C:/Users/me/x.txt").is_ok());
    assert_eq!(
        prepare(Platform::Windows, "\\Users\\me").err(),
        Some("path must be absolute".to_string())
    );
    assert_eq!(prepare(Platform::Windows, "C:x.txt").err(), Some("path must be absolute".to_string()));
    assert_eq!(prepare(Platform::Linux, "C:\\Users").err(), Some("path must be absolute".to_string()));
}

#[test]
fn windows_traversal_stops_at_the_drive() {
    let p = prepare(Platform::Windows, "C:\\Users\\..\\..\\..\\Windows").unwrap();
    let names: Vec<String> = p.names.iter().map(|n| n.iter().collect()).collect();
    assert_eq!(names, vec!["C:", "Windows"]);
}

#[test]
fn windows_paths_resolve_under_the_home_folder() {
    let fs = windows_fs(&["C:\\", "C:\\Users", "C:\\Users\\me", "C:\\Users\\me\\x.txt", "C:\\Windows"]);
    let roots = vec!["C:\\Users\\me".to_string()];
    assert_eq!(
        resolve(Platform::Windows, "C:\\Users\\me\\x.txt", &roots, &fs),
        Ok("\\\\?\\C:\\Users\\me\\x.txt".to_string())
    );
    assert_eq!(
        resolve(Platform::Windows, "C:/Users/me/new.bin", &roots, &fs),
        Ok("\\\\?\\C:\\Users\\me\\new.bin".to_string())
    );
    assert_eq!(
        resolve(Platform::Windows, "C:\\Users\\me\\..\\..\\..\\Windows", &roots, &fs),
        Err("path is outside the folders NodeDesk shares".to_string())
    );
    assert_eq!(
        resolve(Platform::Windows, "Q:\\x", &roots, &fs),
        Err("path is not reachable".to_string())
    );
}

#[test]
fn windows_file_names() {
    assert_eq!(file_name(Platform::Windows, "C:\\Users\\me\\photo.jpg"), Some("photo.jpg".to_string()));
    assert_eq!(file_name(Platform::Windows, "C:\\"), None);
    assert_eq!(file_name(Platform::Linux, "a\\b"), Some("a\\b".to_string()));
    assert_eq!(
        upload_target(Platform::Windows, "/in", "C:\\Users\\me\\photo.jpg"),
        Ok(("photo.jpg".to_string(), "/in/photo.jpg".to_string()))
    );
}
