//! Installing the upstream tools: the order of steps that fetches a
//! release, checks where the chosen asset comes from, downloads it, runs
//! it, and waits for the tool to appear. The library decides each step from
//! what the previous one gave; the application performs it (network,
//! files, processes, sleeping) and reports back.

use vstd::prelude::*;
use crate::headless::{choose_installer, InstallerChoice};
use crate::moonlight::{is_portable_build, portable_build};
use crate::places::Platform;
use crate::release::{asset_prefix, plain_file_name, safe_asset_name, verify_asset_url};
use crate::sunshine::{os_release_is_debian, os_release_version_id, ubuntu_package, windows_installer};

verus! {

/// The tool being installed.
#[derive(PartialEq, Eq, Structural, Clone, Copy, Debug)]
pub enum Product {
    /// The Sunshine host.
    Sunshine,
    /// The virtual display driver for headless hosts.
    DisplayDriver,
    /// The Moonlight client.
    Moonlight,
}

/// One asset of a release.
pub struct Asset {
    pub name: String,
    pub url: String,
}

/// How many times the Sunshine installer's result is looked for: once after
/// each of 60 waits of two seconds, and once more.
pub const PROBE_LIMIT: u32 = 61;

/// Where an installation stands.
pub enum InstallState {
    Start,
    /// Looking whether the tool is already there.
    CheckingInstalled,
    /// Reading `/etc/os-release`.
    ReadingOsRelease,
    /// Fetching the latest release; the system's version, where it matters.
    FetchingRelease { version_id: String },
    /// Downloading the chosen asset of release `tag`.
    Downloading { url: String, file_name: String, tag: String },
    /// Running what was downloaded.
    Running { tag: String },
    /// Looking for the installed tool; `attempts` looks so far.
    Probing { attempts: u32, tag: String },
    Finished,
}

/// What the application found when it performed the last action.
pub enum InstallEvent {
    Begin,
    /// Whether the tool is installed.
    Installed(bool),
    /// The text of `/etc/os-release`.
    OsRelease(String),
    /// The latest release's tag and assets, or why it could not be had.
    Release(Result<(String, Vec<Asset>), String>),
    /// Whether the download was written, or why not.
    Downloaded(Result<(), String>),
    /// Whether what ran succeeded, or why it could not be started.
    Ran(Result<bool, String>),
    /// Whether the tool is now installed.
    Probed(bool),
}

/// What the application does next.
pub enum InstallAction {
    CheckInstalled,
    ReadOsRelease,
    FetchRelease,
    /// Download `url` into the temporary folder as `file_name`.
    Download { url: String, file_name: String },
    /// Run (install, or unpack) the downloaded `file_name`.
    Run { file_name: String },
    /// Look whether the tool is installed now.
    Probe,
    /// Wait two seconds, then look.
    WaitAndProbe,
    /// Remove the download and stop with this outcome: the release tag or
    /// a note on success, the reason on failure.
    Finish(Result<String, String>),
}

/// The GitHub repository a product's assets must come from.
pub open spec fn origin(product: Product) -> (Seq<char>, Seq<char>) {
    match product {
        Product::Sunshine => ("LizardByte"@, "Sunshine"@),
        Product::DisplayDriver => ("itsmikethetech"@, "Virtual-Display-Driver"@),
        Product::Moonlight => ("moonlight-stream"@, "moonlight-qt"@),
    }
}

fn origin_exec(product: Product) -> (res: (&'static str, &'static str))
    ensures
        res.0@ == origin(product).0,
        res.1@ == origin(product).1,
{
    match product {
        Product::Sunshine => ("LizardByte", "Sunshine"),
        Product::DisplayDriver => ("itsmikethetech", "Virtual-Display-Driver"),
        Product::Moonlight => ("moonlight-stream", "moonlight-qt"),
    }
}

/// A download may go ahead: the URL is a release asset of the product's
/// repository, and a file named after a remote asset has a plain name.
pub open spec fn download_ok(product: Product, url: Seq<char>, file_name: Seq<char>) -> bool {
    &&& asset_prefix(origin(product).0, origin(product).1).is_prefix_of(url)
    &&& (product == Product::DisplayDriver ==> plain_file_name(file_name))
}

/// The states the steps keep: a download under way passed the checks, and
/// the looks stay under their limit.
pub open spec fn install_wf(product: Product, state: InstallState) -> bool {
    match state {
        InstallState::Downloading { url, file_name, .. } => download_ok(product, url@, file_name@),
        InstallState::Probing { attempts, .. } => attempts < PROBE_LIMIT,
        _ => true,
    }
}

fn stop(msg: String) -> (res: (InstallState, InstallAction))
    ensures
        res.0 is Finished,
        res.1 matches InstallAction::Finish(Err(m)) && m@ == msg@,
{
    (InstallState::Finished, InstallAction::Finish(Err(msg)))
}

fn unexpected() -> (res: (InstallState, InstallAction))
    ensures
        res.0 is Finished,
        res.1 matches InstallAction::Finish(Err(m)) && m@ == "installation stopped in an unexpected order"@,
{
    stop("installation stopped in an unexpected order".to_owned())
}

/// Starts a download of `asset` of release `tag` once its origin, and for
/// the display driver its name, pass the checks.
fn start_download(product: Product, asset: &Asset, file_name: String, tag: String) -> (res: (InstallState, InstallAction))
    ensures
        install_wf(product, res.0),
        res.1 matches InstallAction::Download { url, file_name: f } ==> download_ok(product, url@, f@)
            && url@ == asset.url@,
        res.1 is Download || res.1 matches InstallAction::Finish(Err(_)),
        res.1 is Finish <==> res.0 is Finished,
        res.1 is Download <==> download_ok(product, asset.url@, file_name@),
        res.1 is Download ==> (res.0 is Downloading && res.0->url@ == res.1->Download_url@
            && res.0->file_name@ == res.1->Download_file_name@),
{
    let (owner, repo) = origin_exec(product);
    match verify_asset_url(asset.url.as_str(), owner, repo) {
        Err(m) => stop(m),
        Ok(()) => {
            if matches!(product, Product::DisplayDriver) {
                match safe_asset_name(file_name.as_str()) {
                    Err(m) => {
                        return stop(m);
                    },
                    Ok(_) => {},
                }
            }
            let url = asset.url.as_str().to_owned();
            let url2 = asset.url.as_str().to_owned();
            let f2 = file_name.as_str().to_owned();
            (
                InstallState::Downloading { url, file_name, tag },
                InstallAction::Download { url: url2, file_name: f2 },
            )
        },
    }
}

fn asset_names(assets: &Vec<Asset>) -> (res: Vec<String>)
    ensures
        res@.len() == assets@.len(),
        forall|i: int| 0 <= i < res@.len() ==> (#[trigger] res@[i])@ == assets@[i].name@,
{
    let mut names: Vec<String> = Vec::new();
    let mut i: usize = 0;
    while i < assets.len()
        invariant
            i <= assets@.len(),
            names@.len() == i,
            forall|j: int| 0 <= j < i ==> (#[trigger] names@[j])@ == assets@[j].name@,
        decreases assets.len() - i,
    {
        names.push(assets[i].name.as_str().to_owned());
        i = i + 1;
    }
    names
}

/// Chooses what to download from a release.
fn choose_download(product: Product, platform: Platform, version_id: &str, tag: String, assets: &Vec<Asset>) -> (res: (InstallState, InstallAction))
    ensures
        install_wf(product, res.0),
        res.1 matches InstallAction::Download { url, file_name } ==> download_ok(product, url@, file_name@),
        res.1 is Download || res.1 matches InstallAction::Finish(Err(_)),
        res.1 is Download ==> (res.0 is Downloading && res.0->url@ == res.1->Download_url@
            && res.0->file_name@ == res.1->Download_file_name@),
        res.1 is Finish <==> res.0 is Finished,
{
    let names = asset_names(assets);
    match product {
        Product::Sunshine => {
            let choice = match platform {
                Platform::Linux => ubuntu_package(&names, version_id),
                _ => windows_installer(&names),
            };
            match choice {
                Some(i) => {
                    let file_name = match platform {
                        Platform::Linux => "nodedesk-sunshine.deb".to_owned(),
                        _ => "nodedesk-sunshine-installer.exe".to_owned(),
                    };
                    start_download(product, &assets[i], file_name, tag)
                },
                None => match platform {
                    Platform::Linux => stop(
                        "no matching Ubuntu package in the latest Sunshine release".to_owned(),
                    ),
                    _ => stop(
                        "no Windows installer found in the latest Sunshine release".to_owned(),
                    ),
                },
            }
        },
        Product::DisplayDriver => match choose_installer(&names) {
            InstallerChoice::Setup(i) => {
                let file_name = assets[i].name.as_str().to_owned();
                start_download(product, &assets[i], file_name, tag)
            },
            InstallerChoice::ManualZip => stop(crate::headless::unusable_release(true)),
            InstallerChoice::Nothing => stop(crate::headless::unusable_release(false)),
        },
        Product::Moonlight => match portable_build(&names) {
            Some(i) => start_download(
                product,
                &assets[i],
                "nodedesk-moonlight-portable.zip".to_owned(),
                tag,
            ),
            None => stop(
                "no portable Windows build found in the latest Moonlight release".to_owned(),
            ),
        },
    }
}

/// The outcome of finding the tool installed at the start.
fn already_there(product: Product) -> (res: Result<String, String>)
    ensures
        res is Ok,
        product == Product::Sunshine ==> (res matches Ok(m) && m@ == "already installed"@),
{
    match product {
        Product::Sunshine => Ok("already installed".to_owned()),
        _ => Ok(String::new()),
    }
}

/// The next step of installing `product` on `platform`, from where the
/// installation stands and what the last action found.
///
/// The order the steps keep: a download is asked for only after its URL is
/// found to be a release asset of the product's repository (and, for the
/// display driver, its name a plain file name); something is run only right
/// after such a download was written; and the Sunshine installer's result
/// is looked for at most 61 times, 60 of them after a two-second wait.
pub fn install_step(product: Product, platform: Platform, state: InstallState, event: InstallEvent) -> (res: (InstallState, InstallAction))
    ensures
        install_wf(product, res.0),
        res.1 is Download ==> download_ok(product, res.1->Download_url@, res.1->Download_file_name@),
        res.1 is Download ==> (res.0 is Downloading && res.0->url@ == res.1->Download_url@
            && res.0->file_name@ == res.1->Download_file_name@),
        res.1 is Run ==> (state is Downloading && state->file_name@ == res.1->Run_file_name@
            && event is Downloaded && event->Downloaded_0 is Ok),
        res.1 is Run ==> (install_wf(product, state) ==> download_ok(
            product,
            state->url@,
            state->file_name@,
        )),
        res.1 is Finish <==> res.0 is Finished,
        state is Start ==> match product {
            Product::DisplayDriver => if platform == Platform::Windows {
                res.1 is FetchRelease
            } else {
                res.1 is Finish && res.1->Finish_0 is Err && res.1->Finish_0->Err_0@
                    == "Automated virtual-display setup is Windows-only in this release"@
            },
            _ => res.1 is CheckInstalled,
        },
        (state is CheckingInstalled && event is Installed && event->Installed_0) ==> (res.1 is Finish
            && res.1->Finish_0 is Ok),
        (product == Product::Sunshine && platform == Platform::Windows && state is Probing
            && state->attempts + 1 >= PROBE_LIMIT && event is Probed && !event->Probed_0) ==> (res.1 is Finish
            && res.1->Finish_0 is Err && res.1->Finish_0->Err_0@
            == "Sunshine installer completed but sunshine.exe was not found"@),
        (product == Product::Sunshine && platform == Platform::Windows && state is Probing
            && state->attempts + 1 < PROBE_LIMIT && event is Probed && !event->Probed_0) ==> res.1 is WaitAndProbe,
        (state is Probing && event is Probed && event->Probed_0) ==> (res.1 is Finish && res.1->Finish_0 is Ok
            && (product == Product::Sunshine ==> res.1->Finish_0->Ok_0@ == state->Probing_tag@)),
{
    match state {
        InstallState::Start => match product {
            Product::DisplayDriver => match platform {
                Platform::Windows => (
                    InstallState::FetchingRelease { version_id: String::new() },
                    InstallAction::FetchRelease,
                ),
                _ => stop("Automated virtual-display setup is Windows-only in this release".to_owned()),
            },
            _ => (InstallState::CheckingInstalled, InstallAction::CheckInstalled),
        },
        InstallState::CheckingInstalled => match event {
            InstallEvent::Installed(true) => (InstallState::Finished, InstallAction::Finish(already_there(product))),
            InstallEvent::Installed(false) => match product {
                Product::Sunshine => match platform {
                    Platform::Windows => (
                        InstallState::FetchingRelease { version_id: String::new() },
                        InstallAction::FetchRelease,
                    ),
                    Platform::Linux => (InstallState::ReadingOsRelease, InstallAction::ReadOsRelease),
                    Platform::MacOs => stop(
                        "macOS is controller-only for now \u{2014} no Sunshine host install".to_owned(),
                    ),
                },
                _ => match platform {
                    Platform::Windows => (
                        InstallState::FetchingRelease { version_id: String::new() },
                        InstallAction::FetchRelease,
                    ),
                    _ => stop(crate::moonlight::download_unsupported()),
                },
            },
            _ => unexpected(),
        },
        InstallState::ReadingOsRelease => match event {
            InstallEvent::OsRelease(text) => {
                let version_id = os_release_version_id(text.as_str());
                if os_release_is_debian(text.as_str()) {
                    (InstallState::FetchingRelease { version_id }, InstallAction::FetchRelease)
                } else {
                    stop(
                        "Automatic Sunshine install supports Debian/Ubuntu in this release \u{2014} see docs for other distros".to_owned(),
                    )
                }
            },
            _ => unexpected(),
        },
        InstallState::FetchingRelease { version_id } => match event {
            InstallEvent::Release(Err(e)) => stop(e),
            InstallEvent::Release(Ok((tag, assets))) => choose_download(
                product,
                platform,
                version_id.as_str(),
                tag,
                &assets,
            ),
            _ => unexpected(),
        },
        InstallState::Downloading { url, file_name, tag } => match event {
            InstallEvent::Downloaded(Err(e)) => stop(e),
            InstallEvent::Downloaded(Ok(())) => {
                let f = file_name.as_str().to_owned();
                (InstallState::Running { tag }, InstallAction::Run { file_name: f })
            },
            _ => unexpected(),
        },
        InstallState::Running { tag } => match event {
            InstallEvent::Ran(Err(e)) => match (product, platform) {
                (Product::Sunshine, Platform::Linux) => (
                    InstallState::Probing { attempts: PROBE_LIMIT - 1, tag },
                    InstallAction::Probe,
                ),
                (Product::Sunshine, _) => {
                    let mut m = "failed to launch Sunshine installer: ".to_owned();
                    m.append(e.as_str());
                    stop(m)
                },
                _ => stop(e),
            },
            InstallEvent::Ran(Ok(success)) => match product {
                Product::Sunshine => match platform {
                    Platform::Linux => if success {
                        (InstallState::Finished, InstallAction::Finish(Ok(tag)))
                    } else {
                        (InstallState::Probing { attempts: PROBE_LIMIT - 1, tag }, InstallAction::Probe)
                    },
                    _ => if success {
                        (InstallState::Probing { attempts: 0, tag }, InstallAction::Probe)
                    } else {
                        stop("Sunshine installer returned an error".to_owned())
                    },
                },
                Product::DisplayDriver => if success {
                    (InstallState::Probing { attempts: PROBE_LIMIT - 1, tag }, InstallAction::Probe)
                } else {
                    stop("installer was cancelled or failed".to_owned())
                },
                Product::Moonlight => (
                    InstallState::Probing { attempts: PROBE_LIMIT - 1, tag },
                    InstallAction::Probe,
                ),
            },
            _ => unexpected(),
        },
        InstallState::Probing { attempts, tag } => match event {
            InstallEvent::Probed(true) => match product {
                Product::Sunshine => (InstallState::Finished, InstallAction::Finish(Ok(tag))),
                _ => (InstallState::Finished, InstallAction::Finish(Ok(String::new()))),
            },
            InstallEvent::Probed(false) => {
                if attempts < PROBE_LIMIT - 1 && product == Product::Sunshine && platform == Platform::Windows {
                    (InstallState::Probing { attempts: attempts + 1, tag }, InstallAction::WaitAndProbe)
                } else {
                    match product {
                        Product::Sunshine => match platform {
                            Platform::Linux => stop(
                                "Sunshine downloaded but needs root to install \u{2014} run: sudo apt install <downloaded .deb>".to_owned(),
                            ),
                            _ => stop(
                                "Sunshine installer completed but sunshine.exe was not found".to_owned(),
                            ),
                        },
                        Product::DisplayDriver => stop(
                            "installer finished but the driver was not detected \u{2014} a reboot may be required".to_owned(),
                        ),
                        Product::Moonlight => stop("Moonlight.exe not found after extraction".to_owned()),
                    }
                }
            },
            _ => unexpected(),
        },
        InstallState::Finished => unexpected(),
    }
}

} // verus!
