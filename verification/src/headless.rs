//! Headless support: machines without monitors get a virtual display so the
//! Sunshine host always has something to capture. What here is decision and
//! text is verified; running PowerShell, `pnputil` and the installer is left
//! to the application.

use vstd::prelude::*;
use crate::numbers::{parse_unsigned, parse_unsigned_chars};
use crate::places::Platform;
use crate::sunshine::reported;
use crate::text::{
    chars_of, contains_chars, ends_with_chars, has_substring, lowercase_of, replace_char,
    replaced, string_from, to_lowercase, trim, trim_chars,
};

verus! {

/// What the app shows about headless support.
pub struct HeadlessStatus {
    pub supported: bool,
    pub vdd_installed: bool,
    pub display_count: u32,
}

/// The number of displays from what the screen query printed: its trimmed
/// output read as a number, 1 when it cannot be read or nothing ran. Only
/// Windows is asked; elsewhere the answer is 1.
pub open spec fn display_count_of(platform: Platform, output: Option<Seq<char>>) -> u32 {
    match (platform, output) {
        (Platform::Windows, Some(o)) => match parse_unsigned(trim(o), 10, u32::MAX as nat) {
            Some(n) => n as u32,
            None => 1,
        },
        _ => 1,
    }
}

/// Number of currently attached displays (best effort).
pub fn display_count(platform: Platform, output: Option<&str>) -> (res: u32)
    ensures
        res == display_count_of(platform, match output {
            Some(o) => Some(o@),
            None => None,
        }),
{
    match (platform, output) {
        (Platform::Windows, Some(o)) => {
            let t = trim_chars(&chars_of(o));
            match parse_unsigned_chars(&t, 10, 0xffff_ffff) {
                Some(n) => n as u32,
                None => 1,
            }
        },
        _ => 1,
    }
}

/// Folders whose presence shows the Virtual Display Driver is installed.
pub open spec fn vdd_marker_texts() -> Seq<Seq<char>> {
    seq!["C:\\VirtualDisplayDriver"@, "C:\\IddSampleDriver"@]
}

/// The install markers, in the order they are checked.
pub fn vdd_markers() -> (res: Vec<String>)
    ensures
        crate::sunshine::string_texts(res@) == vdd_marker_texts(),
{
    let res = vec!["C:\\VirtualDisplayDriver".to_owned(), "C:\\IddSampleDriver".to_owned()];
    proof {
        assert(crate::sunshine::string_texts(res@) =~= vdd_marker_texts());
    }
    res
}

/// Whether a driver-store listing names the driver: lowercased, it holds
/// one of its known names.
pub open spec fn lists_vdd(listing: Seq<char>) -> bool {
    let l = lowercase_of(listing);
    has_substring(l, "virtualdisplaydriver"@) || has_substring(l, "iddsampledriver"@)
        || has_substring(l, "virtual display"@)
}

/// Whether the `pnputil /enum-drivers` listing names the driver.
pub fn driver_store_lists_vdd(listing: &str) -> (res: bool)
    ensures
        res == lists_vdd(listing@),
{
    let l = chars_of(to_lowercase(listing).as_str());
    contains_chars(&l, &chars_of("virtualdisplaydriver")) || contains_chars(
        &l,
        &chars_of("iddsampledriver"),
    ) || contains_chars(&l, &chars_of("virtual display"))
}

/// Whether one of the install markers is reported present, asking in order.
pub fn vdd_marker_found<F: Fn(String) -> bool>(present: &F) -> (res: bool)
    requires
        forall|q: String| #[trigger] present.requires((q,)),
    ensures
        res ==> exists|i: int|
            0 <= i < vdd_marker_texts().len() && reported(*present, #[trigger] vdd_marker_texts()[i], true),
        !res ==> forall|i: int|
            0 <= i < vdd_marker_texts().len() ==> reported(*present, #[trigger] vdd_marker_texts()[i], false),
{
    let markers = vdd_markers();
    let r = crate::sunshine::is_installed(&markers, present);
    proof {
        assert(forall|i: int| 0 <= i < markers@.len() ==> #[trigger] markers@[i]@ == vdd_marker_texts()[i]);
    }
    r
}

/// Whether the Virtual Display Driver is installed: on Windows, a marker
/// folder exists or the driver store lists it; elsewhere it never is.
pub fn vdd_installed(platform: Platform, marker_found: bool, driver_store: Option<&str>) -> (res: bool)
    ensures
        res == (platform == Platform::Windows && (marker_found || match driver_store {
            Some(l) => lists_vdd(l@),
            None => false,
        })),
{
    match platform {
        Platform::Windows => marker_found || match driver_store {
            Some(l) => driver_store_lists_vdd(l),
            None => false,
        },
        _ => false,
    }
}

/// The headless status: supported on Windows only.
pub fn status(platform: Platform, vdd_installed: bool, display_count: u32) -> (res: HeadlessStatus)
    ensures
        res.supported == (platform == Platform::Windows),
        res.vdd_installed == vdd_installed,
        res.display_count == display_count,
{
    HeadlessStatus { supported: platform == Platform::Windows, vdd_installed, display_count }
}

/// Which asset of a driver release to use.
pub enum InstallerChoice {
    /// The setup executable at this index.
    Setup(usize),
    /// Only a driver archive: it needs manual setup.
    ManualZip,
    /// Nothing usable.
    Nothing,
}

/// A setup program: lowercased, the name ends with `.exe` and holds `setup`
/// or `install`.
pub open spec fn is_setup(name: Seq<char>) -> bool {
    let n = lowercase_of(name);
    ".exe"@.is_suffix_of(n) && (has_substring(n, "setup"@) || has_substring(n, "install"@))
}

/// A driver archive: lowercased, the name ends with `.zip`.
pub open spec fn is_zip(name: Seq<char>) -> bool {
    ".zip"@.is_suffix_of(lowercase_of(name))
}

/// Picks the asset to install: the first setup program; failing that, an
/// archive means manual setup; else nothing is usable.
pub fn choose_installer(names: &Vec<String>) -> (res: InstallerChoice)
    ensures
        match res {
            InstallerChoice::Setup(i) => i < names@.len() && is_setup(names@[i as int]@) && forall|j: int|
                0 <= j < i ==> !is_setup(#[trigger] names@[j]@),
            InstallerChoice::ManualZip => (forall|j: int|
                0 <= j < names@.len() ==> !is_setup(#[trigger] names@[j]@)) && exists|j: int|
                0 <= j < names@.len() && is_zip(#[trigger] names@[j]@),
            InstallerChoice::Nothing => forall|j: int|
                0 <= j < names@.len() ==> !is_setup(#[trigger] names@[j]@) && !is_zip(names@[j]@),
        },
{
    let mut i: usize = 0;
    let mut zip_seen = false;
    while i < names.len()
        invariant
            i <= names@.len(),
            forall|j: int| 0 <= j < i ==> !is_setup(#[trigger] names@[j]@),
            zip_seen <==> exists|j: int| 0 <= j < i && is_zip(#[trigger] names@[j]@),
        decreases names.len() - i,
    {
        let lower = chars_of(to_lowercase(names[i].as_str()).as_str());
        if ends_with_chars(&lower, &chars_of(".exe")) && (contains_chars(&lower, &chars_of("setup"))
            || contains_chars(&lower, &chars_of("install"))) {
            return InstallerChoice::Setup(i);
        }
        if ends_with_chars(&lower, &chars_of(".zip")) {
            zip_seen = true;
        }
        i = i + 1;
    }
    if zip_seen {
        InstallerChoice::ManualZip
    } else {
        InstallerChoice::Nothing
    }
}

/// The error when the release only has a driver archive.
pub open spec fn manual_setup_message() -> Seq<char> {
    "This VDD release needs manual setup \u{2014} download it from the link in docs/development.md and run its installer"@
}

/// The error when the release has nothing usable.
pub open spec fn no_installer_message() -> Seq<char> {
    "no usable installer found in the latest VDD release"@
}

/// The error for a release without a setup program, by what it has.
pub fn unusable_release(zip: bool) -> (res: String)
    ensures
        res@ == if zip {
            manual_setup_message()
        } else {
            no_installer_message()
        },
{
    if zip {
        "This VDD release needs manual setup \u{2014} download it from the link in docs/development.md and run its installer".to_owned()
    } else {
        "no usable installer found in the latest VDD release".to_owned()
    }
}

/// The PowerShell command that runs the installer elevated (a UAC prompt)
/// and waits for it: the path quoted, each `'` doubled.
pub open spec fn elevated_command_text(path: Seq<char>) -> Seq<char> {
    "Start-Process -FilePath '"@ + replaced(path, '\'', "''"@) + "' -Verb RunAs -Wait"@
}

/// The PowerShell command that runs the installer at `path` elevated.
pub fn elevated_command(path: &str) -> (res: String)
    ensures
        res@ == elevated_command_text(path@),
{
    let quoted = string_from(&replace_char(&chars_of(path), '\'', &chars_of("''")));
    let mut out = "Start-Process -FilePath '".to_owned();
    out.append(quoted.as_str());
    out.append("' -Verb RunAs -Wait");
    out
}

/// The outcome of running the installer: it must have succeeded, and the
/// driver must be found afterwards.
pub fn install_outcome(success: bool, detected: bool) -> (res: Result<(), String>)
    ensures
        !success ==> (res matches Err(m) && m@ == "installer was cancelled or failed"@),
        success && detected ==> res is Ok,
        success && !detected ==> (res matches Err(m) && m@
            == "installer finished but the driver was not detected \u{2014} a reboot may be required"@),
{
    if !success {
        Err("installer was cancelled or failed".to_owned())
    } else if detected {
        Ok(())
    } else {
        Err(
            "installer finished but the driver was not detected \u{2014} a reboot may be required".to_owned(),
        )
    }
}

/// The answer to an install request on a platform without automated setup.
pub fn install_unsupported() -> (res: Result<(), String>)
    ensures
        res matches Err(m) && m@ == "Automated virtual-display setup is Windows-only in this release"@,
{
    Err("Automated virtual-display setup is Windows-only in this release".to_owned())
}

} // verus!
