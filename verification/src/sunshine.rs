//! The managed Sunshine host: what of it is computation. Detecting,
//! installing and driving Sunshine is left to the application.

use vstd::prelude::*;
use base64::Engine;
use crate::places::Platform;
use crate::text::{
    chars_of, contains_chars, ends_with_chars, has_substring, lines, lines_of, lowercase_of,
    push_char, starts_with_chars, string_from, strip_prefixes, strip_prefixes_chars, to_lowercase,
    trim, trim_char, trim_char_chars, trim_chars,
};

verus! {

/// The ASCII digits of `s`, in order.
pub open spec fn ascii_digits(s: Seq<char>) -> Seq<char>
    decreases s.len(),
{
    if s.len() == 0 {
        Seq::empty()
    } else if '0' <= s.last() && s.last() <= '9' {
        ascii_digits(s.drop_last()).push(s.last())
    } else {
        ascii_digits(s.drop_last())
    }
}

/// Normalizes a user-typed PIN: its digits, if there are exactly four.
pub fn clean_pin(pin: &str) -> (res: Option<String>)
    ensures
        res is Some <==> ascii_digits(pin@).len() == 4,
        res matches Some(p) ==> p@ == ascii_digits(pin@),
{
    let chars = chars_of(pin);
    let mut clean = String::new();
    let mut count: usize = 0;
    let mut i: usize = 0;
    while i < chars.len()
        invariant
            i <= chars@.len(),
            chars@ == pin@,
            clean@ == ascii_digits(chars@.subrange(0, i as int)),
            count == clean@.len(),
            count <= i,
        decreases chars.len() - i,
    {
        let c = chars[i];
        proof {
            let next = chars@.subrange(0, i + 1);
            assert(next.drop_last() =~= chars@.subrange(0, i as int));
            assert(next.last() == c);
        }
        if '0' <= c && c <= '9' {
            push_char(&mut clean, c);
            count = count + 1;
        }
        i = i + 1;
    }
    proof {
        assert(chars@.subrange(0, chars@.len() as int) =~= chars@);
    }
    if count == 4 {
        Some(clean)
    } else {
        None
    }
}

/// Sunshine's answer to a PIN approval: it approved when its `status` field
/// is the string `"true"`.
pub fn pin_approved(status: Option<&str>) -> (res: Result<(), String>)
    ensures
        res is Ok <==> (status matches Some(s) && s@ == "true"@),
        res matches Err(m) ==> m@ == "Sunshine rejected the PIN \u{2014} check it matches the other computer"@,
{
    let ok = match status {
        Some(s) => {
            let c = chars_of(s);
            c.len() == 4 && c[0] == 't' && c[1] == 'r' && c[2] == 'u' && c[3] == 'e'
        },
        None => false,
    };
    proof {
        reveal_strlit("true");
        if let Some(s) = status {
            if s@ == "true"@ {
                assert(s@.len() == 4);
            }
            if ok {
                assert(s@ =~= "true"@);
            }
        }
    }
    if ok {
        Ok(())
    } else {
        Err("Sunshine rejected the PIN \u{2014} check it matches the other computer".to_owned())
    }
}


/// Sunshine's local API.
pub const SUNSHINE_API: &'static str = "https://127.0.0.1:47990";

/// The secure-storage key of the Sunshine web credentials (`user:pass`).
pub const CREDS_KEY: &'static str = "sunshine-credentials";

/// The web user NodeDesk creates.
pub const FIXED_USER: &'static str = "nodedesk";

/// The error when no Sunshine executable is found.
pub const NOT_INSTALLED: &'static str = "Sunshine is not installed";

/// The Sunshine API base: the override from the environment, else the local
/// default.
pub fn api_base(env_override: Option<String>) -> (res: String)
    ensures
        res@ == match env_override {
            Some(v) => v@,
            None => SUNSHINE_API@,
        },
{
    match env_override {
        Some(v) => v,
        None => SUNSHINE_API.to_owned(),
    }
}

// ---------------------------------------------------------------------------
// Finding the executable
// ---------------------------------------------------------------------------

/// `PathBuf::join` on Windows: a backslash goes between unless the base is
/// empty or already ends with a separator.
pub open spec fn windows_join(base: Seq<char>, name: Seq<char>) -> Seq<char> {
    if base.len() == 0 || base.last() == '\\' || base.last() == '/' {
        base + name
    } else {
        base + seq!['\\'] + name
    }
}

/// Where Sunshine's executable may be, in the order they are tried.
pub open spec fn exe_candidate_texts(platform: Platform, program_files: Option<Seq<char>>) -> Seq<
    Seq<char>,
> {
    match platform {
        Platform::Windows => match program_files {
            Some(pf) => seq![
                windows_join(windows_join(pf, "Sunshine"@), "sunshine.exe"@),
                "C:\\Program Files\\Sunshine\\sunshine.exe"@,
            ],
            None => seq!["C:\\Program Files\\Sunshine\\sunshine.exe"@],
        },
        Platform::Linux => seq!["/usr/bin/sunshine"@, "/usr/local/bin/sunshine"@],
        Platform::MacOs => seq!["/Applications/Sunshine.app/Contents/MacOS/Sunshine"@],
    }
}

/// The texts of a list of strings.
pub open spec fn string_texts(v: Seq<String>) -> Seq<Seq<char>> {
    v.map_values(|s: String| s@)
}

fn windows_join_exec(base: &Vec<char>, name: &str) -> (res: Vec<char>)
    ensures
        res@ == windows_join(base@, name@),
{
    let mut out = base.clone();
    proof {
        assert(out@ == base@);
    }
    let n = base.len();
    if !(n == 0 || base[n - 1] == '\\' || base[n - 1] == '/') {
        out.push('\\');
    }
    let name_chars = chars_of(name);
    let mut i: usize = 0;
    let ghost start = out@;
    while i < name_chars.len()
        invariant
            i <= name_chars@.len(),
            out@ == start + name_chars@.subrange(0, i as int),
        decreases name_chars.len() - i,
    {
        out.push(name_chars[i]);
        proof {
            assert(name_chars@.subrange(0, i + 1) =~= name_chars@.subrange(0, i as int).push(
                name_chars@[i as int],
            ));
        }
        i = i + 1;
    }
    proof {
        assert(name_chars@.subrange(0, name_chars@.len() as int) =~= name_chars@);
    }
    out
}

/// The places Sunshine's executable may be on `platform`; on Windows the
/// first is under the `ProgramFiles` folder, when there is one.
pub fn exe_candidates(platform: Platform, program_files: Option<String>) -> (res: Vec<String>)
    ensures
        string_texts(res@) == exe_candidate_texts(platform, match program_files {
            Some(p) => Some(p@),
            None => None,
        }),
{
    let res: Vec<String> = match platform {
        Platform::Windows => match program_files {
            Some(pf) => {
                let dir = windows_join_exec(&chars_of(pf.as_str()), "Sunshine");
                let exe = windows_join_exec(&dir, "sunshine.exe");
                vec![string_from(&exe), "C:\\Program Files\\Sunshine\\sunshine.exe".to_owned()]
            },
            None => vec!["C:\\Program Files\\Sunshine\\sunshine.exe".to_owned()],
        },
        Platform::Linux => vec!["/usr/bin/sunshine".to_owned(), "/usr/local/bin/sunshine".to_owned()],
        Platform::MacOs => vec!["/Applications/Sunshine.app/Contents/MacOS/Sunshine".to_owned()],
    };
    proof {
        assert(string_texts(res@) =~= exe_candidate_texts(platform, match program_files {
            Some(p) => Some(p@),
            None => None,
        }));
    }
    res
}

/// `present` can answer `answer` when asked about `path`.
pub open spec fn reported<F: Fn(String) -> bool>(present: F, path: Seq<char>, answer: bool) -> bool {
    exists|q: String| q@ == path && #[trigger] present.ensures((q,), answer)
}

/// The first of `candidates` that `present` reports as existing, asking in
/// order.
pub fn exe_path<F: Fn(String) -> bool>(candidates: &Vec<String>, present: &F) -> (res: Option<String>)
    requires
        forall|q: String| #[trigger] present.requires((q,)),
    ensures
        match res {
            Some(c) => exists|i: int|
                0 <= i < candidates@.len() && c@ == (#[trigger] candidates@[i])@ && reported(
                    *present,
                    c@,
                    true,
                ) && forall|j: int| 0 <= j < i ==> reported(*present, (#[trigger] candidates@[j])@, false),
            None => forall|j: int|
                0 <= j < candidates@.len() ==> reported(*present, (#[trigger] candidates@[j])@, false),
        },
{
    let mut i: usize = 0;
    while i < candidates.len()
        invariant
            i <= candidates@.len(),
            forall|q: String| #[trigger] present.requires((q,)),
            forall|j: int| 0 <= j < i ==> reported(*present, (#[trigger] candidates@[j])@, false),
        decreases candidates.len() - i,
    {
        let q = candidates[i].as_str().to_owned();
        let ghost qg = q;
        if present(q) {
            let c = candidates[i].as_str().to_owned();
            proof {
                assert(present.ensures((qg,), true));
                assert(reported(*present, c@, true));
                assert(c@ == candidates@[i as int]@);
            }
            return Some(c);
        }
        proof {
            assert(present.ensures((qg,), false));
            assert(reported(*present, candidates@[i as int]@, false));
        }
        i = i + 1;
    }
    None
}

/// Whether Sunshine is installed: some candidate is reported as existing.
pub fn is_installed<F: Fn(String) -> bool>(candidates: &Vec<String>, present: &F) -> (res: bool)
    requires
        forall|q: String| #[trigger] present.requires((q,)),
    ensures
        res ==> exists|i: int|
            0 <= i < candidates@.len() && reported(*present, (#[trigger] candidates@[i])@, true),
        !res ==> forall|j: int|
            0 <= j < candidates@.len() ==> reported(*present, (#[trigger] candidates@[j])@, false),
{
    match exe_path(candidates, present) {
        Some(_) => true,
        None => false,
    }
}

// ---------------------------------------------------------------------------
// The service
// ---------------------------------------------------------------------------

/// What the platform's service query printed says of the service: on
/// Windows `sc query` lists it as `RUNNING`; on Linux `systemctl is-active`
/// answers `active`; on macOS `pgrep` prints a process id. No output (the
/// query did not run) means not running.
pub open spec fn running_from(platform: Platform, output: Option<Seq<char>>) -> bool {
    match output {
        None => false,
        Some(o) => match platform {
            Platform::Windows => has_substring(o, "RUNNING"@),
            Platform::Linux => "active"@.is_prefix_of(trim(o)),
            Platform::MacOs => trim(o).len() > 0,
        },
    }
}

/// Whether the Sunshine service runs, from what its query printed.
pub fn service_running(platform: Platform, output: Option<&str>) -> (res: bool)
    ensures
        res == running_from(platform, match output {
            Some(o) => Some(o@),
            None => None,
        }),
{
    match output {
        None => false,
        Some(o) => {
            let text = chars_of(o);
            match platform {
                Platform::Windows => contains_chars(&text, &chars_of("RUNNING")),
                Platform::Linux => starts_with_chars(&trim_chars(&text), &chars_of("active")),
                Platform::MacOs => trim_chars(&text).len() > 0,
            }
        },
    }
}

/// The error when the Windows service does not come up.
pub open spec fn windows_start_error() -> Seq<char> {
    "Sunshine service did not start (try running NodeDesk as administrator once)"@
}

/// The error when the Linux user unit does not come up.
pub open spec fn linux_start_error() -> Seq<char> {
    "Sunshine did not start \u{2014} check `systemctl --user status sunshine`"@
}

/// The outcome of starting Sunshine, from what the start command gave and
/// whether the service runs afterwards. On Windows a failure to run
/// `net start` is reported as is, and an answer that it had already been
/// started counts as started. On Linux only whether it runs counts. On macOS
/// the launch result is the outcome.
pub open spec fn start_outcome(platform: Platform, started: Result<Seq<char>, Seq<char>>, running: bool) -> Result<(), Seq<char>> {
    match platform {
        Platform::Windows => match started {
            Err(e) => Err(e),
            Ok(out) => if running || has_substring(out, "already been started"@) {
                Ok(())
            } else {
                Err(windows_start_error())
            },
        },
        Platform::Linux => if running {
            Ok(())
        } else {
            Err(linux_start_error())
        },
        Platform::MacOs => match started {
            Ok(_) => Ok(()),
            Err(e) => Err(e),
        },
    }
}

/// Decides whether starting Sunshine worked.
pub fn start_service(platform: Platform, started: Result<String, String>, running: bool) -> (res: Result<(), String>)
    ensures
        match (res, start_outcome(platform, match started {
            Ok(o) => Ok(o@),
            Err(e) => Err(e@),
        }, running)) {
            (Ok(()), Ok(())) => true,
            (Err(m), Err(t)) => m@ == t,
            _ => false,
        },
{
    match platform {
        Platform::Windows => match started {
            Err(e) => Err(e),
            Ok(out) => {
                let text = chars_of(out.as_str());
                if running || contains_chars(&text, &chars_of("already been started")) {
                    Ok(())
                } else {
                    Err(
                        "Sunshine service did not start (try running NodeDesk as administrator once)".to_owned(),
                    )
                }
            },
        },
        Platform::Linux => if running {
            Ok(())
        } else {
            Err("Sunshine did not start \u{2014} check `systemctl --user status sunshine`".to_owned())
        },
        Platform::MacOs => match started {
            Ok(_) => Ok(()),
            Err(e) => Err(e),
        },
    }
}

// ---------------------------------------------------------------------------
// Installing
// ---------------------------------------------------------------------------

/// The Windows installer among release assets: lowercased, its name holds
/// `windows` and `installer` and ends with `.exe`.
pub open spec fn is_windows_installer(name: Seq<char>) -> bool {
    let n = lowercase_of(name);
    has_substring(n, "windows"@) && has_substring(n, "installer"@) && ".exe"@.is_suffix_of(n)
}

/// Which asset of a release is the Windows installer: the first that is one.
pub fn windows_installer(names: &Vec<String>) -> (res: Option<usize>)
    ensures
        match res {
            Some(i) => i < names@.len() && is_windows_installer(names@[i as int]@) && forall|j: int|
                0 <= j < i ==> !is_windows_installer(#[trigger] names@[j]@),
            None => forall|j: int|
                0 <= j < names@.len() ==> !is_windows_installer(#[trigger] names@[j]@),
        },
{
    let mut i: usize = 0;
    while i < names.len()
        invariant
            i <= names@.len(),
            forall|j: int| 0 <= j < i ==> !is_windows_installer(#[trigger] names@[j]@),
        decreases names.len() - i,
    {
        let lower = chars_of(to_lowercase(names[i].as_str()).as_str());
        if contains_chars(&lower, &chars_of("windows")) && contains_chars(
            &lower,
            &chars_of("installer"),
        ) && ends_with_chars(&lower, &chars_of(".exe")) {
            return Some(i);
        }
        i = i + 1;
    }
    None
}

/// The value of the `VERSION_ID=` line of `/etc/os-release`: the first line
/// that starts with the key, with every leading copy of the key and the
/// surrounding quotes removed; empty when there is none.
pub open spec fn version_id_in(lines: Seq<Seq<char>>) -> Seq<char>
    decreases lines.len(),
{
    if lines.len() == 0 {
        Seq::empty()
    } else if "VERSION_ID="@.is_prefix_of(lines[0]) {
        trim_char(strip_prefixes(lines[0], "VERSION_ID="@), '"')
    } else {
        version_id_in(lines.drop_first())
    }
}

/// The release version named in `/etc/os-release`.
pub open spec fn version_id_of(text: Seq<char>) -> Seq<char> {
    version_id_in(lines_of(text))
}

/// The release version named in the text of `/etc/os-release`.
pub fn os_release_version_id(text: &str) -> (res: String)
    ensures
        res@ == version_id_of(text@),
{
    let all_lines = lines(&chars_of(text));
    let key = chars_of("VERSION_ID=");
    let ghost all = crate::text::texts(all_lines@);
    let mut i: usize = 0;
    proof {
        assert(all.skip(0) =~= all);
    }
    while i < all_lines.len()
        invariant
            i <= all_lines@.len(),
            all == crate::text::texts(all_lines@),
            all == lines_of(text@),
            key@ == "VERSION_ID="@,
            version_id_in(all) == version_id_in(all.skip(i as int)),
        decreases all_lines.len() - i,
    {
        let line = &all_lines[i];
        proof {
            assert(all.skip(i as int)[0] == all_lines@[i as int]@);
            assert(all.skip(i as int).drop_first() =~= all.skip(i + 1));
        }
        if starts_with_chars(line, &key) {
            let value = trim_char_chars(&strip_prefixes_chars(line, &key), '"');
            return string_from(&value);
        }
        i = i + 1;
    }
    proof {
        assert(all.skip(i as int).len() == 0);
    }
    String::new()
}

/// Whether `/etc/os-release` names a Debian-family system.
pub fn os_release_is_debian(text: &str) -> (res: bool)
    ensures
        res == (has_substring(text@, "ubuntu"@) || has_substring(text@, "debian"@)),
{
    let t = chars_of(text);
    contains_chars(&t, &chars_of("ubuntu")) || contains_chars(&t, &chars_of("debian"))
}

/// An Ubuntu package among release assets: its lowercased name holds
/// `wanted` and its name ends with `.deb`.
pub open spec fn is_package_for(name: Seq<char>, wanted: Seq<char>) -> bool {
    has_substring(lowercase_of(name), wanted) && ".deb"@.is_suffix_of(name)
}

fn first_package(names: &Vec<String>, wanted: &Vec<char>) -> (res: Option<usize>)
    ensures
        match res {
            Some(i) => i < names@.len() && is_package_for(names@[i as int]@, wanted@) && forall|j: int|
                0 <= j < i ==> !is_package_for(#[trigger] names@[j]@, wanted@),
            None => forall|j: int|
                0 <= j < names@.len() ==> !is_package_for(#[trigger] names@[j]@, wanted@),
        },
{
    let mut i: usize = 0;
    while i < names.len()
        invariant
            i <= names@.len(),
            forall|j: int| 0 <= j < i ==> !is_package_for(#[trigger] names@[j]@, wanted@),
        decreases names.len() - i,
    {
        let lower = chars_of(to_lowercase(names[i].as_str()).as_str());
        if contains_chars(&lower, wanted) && ends_with_chars(
            &chars_of(names[i].as_str()),
            &chars_of(".deb"),
        ) {
            return Some(i);
        }
        i = i + 1;
    }
    None
}

/// Which asset of a release is the Ubuntu package to install: the first
/// for this release (`ubuntu-<version>`), else the first for any Ubuntu.
pub fn ubuntu_package(names: &Vec<String>, version_id: &str) -> (res: Option<usize>)
    ensures
        ({
            let wanted = "ubuntu-"@ + version_id@;
            match res {
                Some(i) => i < names@.len() && ((is_package_for(names@[i as int]@, wanted)
                    && forall|j: int|
                    0 <= j < i ==> !is_package_for(#[trigger] names@[j]@, wanted)) || (
                (forall|j: int|
                    0 <= j < names@.len() ==> !is_package_for(#[trigger] names@[j]@, wanted))
                    && is_package_for(names@[i as int]@, "ubuntu"@) && forall|j: int|
                    0 <= j < i ==> !is_package_for(#[trigger] names@[j]@, "ubuntu"@))),
                None => forall|j: int|
                    0 <= j < names@.len() ==> !is_package_for(#[trigger] names@[j]@, wanted)
                        && !is_package_for(names@[j]@, "ubuntu"@),
            }
        }),
{
    let mut wanted = "ubuntu-".to_owned();
    wanted.append(version_id);
    match first_package(names, &chars_of(wanted.as_str())) {
        Some(i) => Some(i),
        None => first_package(names, &chars_of("ubuntu")),
    }
}

// ---------------------------------------------------------------------------
// Credentials
// ---------------------------------------------------------------------------

/// The credentials stored for the web user: `nodedesk:<password>`.
pub fn credentials_text(password: &str) -> (res: String)
    ensures
        res@ == FIXED_USER@ + seq![':'] + password@,
{
    let mut out = FIXED_USER.to_owned();
    push_char(&mut out, ':');
    out.append(password);
    out
}

/// The base64 alphabet of RFC 4648.
pub open spec fn base64_digit(v: int) -> char {
    if v < 26 {
        ('A' as int + v) as char
    } else if v < 52 {
        ('a' as int + (v - 26)) as char
    } else if v < 62 {
        ('0' as int + (v - 52)) as char
    } else if v == 62 {
        '+'
    } else {
        '/'
    }
}

/// Standard base64 with padding (RFC 4648, section 4): every three bytes
/// become four digits of six bits each; a last group of one or two bytes is
/// padded with `=`.
pub open spec fn base64_of(b: Seq<u8>) -> Seq<char>
    decreases b.len(),
{
    if b.len() == 0 {
        Seq::empty()
    } else {
        let b0 = b[0] as int;
        let b1 = if b.len() > 1 { b[1] as int } else { 0 };
        let b2 = if b.len() > 2 { b[2] as int } else { 0 };
        let first = base64_digit(b0 / 4);
        let second = base64_digit((b0 % 4) * 16 + b1 / 16);
        if b.len() == 1 {
            seq![first, second, '=', '=']
        } else if b.len() == 2 {
            seq![first, second, base64_digit((b1 % 16) * 4), '=']
        } else {
            seq![first, second, base64_digit((b1 % 16) * 4 + b2 / 64), base64_digit(b2 % 64)]
                + base64_of(b.skip(3))
        }
    }
}

/// `base64::engine::general_purpose::STANDARD.encode`. Trusted: the crate
/// documents this engine as the standard alphabet with padding, which is
/// what `base64_of` states.
#[verifier::external_body]
fn base64_standard(bytes: &[u8]) -> (res: String)
    ensures
        res@ == base64_of(bytes@),
{
    base64::engine::general_purpose::STANDARD.encode(bytes)
}

/// The `Authorization` header for Sunshine's API: HTTP basic with the stored
/// credentials, an error when there are none.
pub fn auth_header(creds: Option<String>) -> (res: Result<String, String>)
    ensures
        match creds {
            Some(c) => res matches Ok(h) && h@ == "Basic "@ + base64_of(vstd::utf8::encode_utf8(c@)),
            None => res matches Err(m) && m@ == "Sunshine credentials not configured"@,
        },
{
    match creds {
        Some(c) => {
            let encoded = base64_standard(c.as_str().as_bytes());
            let mut h = "Basic ".to_owned();
            h.append(encoded.as_str());
            Ok(h)
        },
        None => Err("Sunshine credentials not configured".to_owned()),
    }
}

} // verus!
