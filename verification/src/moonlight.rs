//! Moonlight-Qt controller integration: where Moonlight may be, which
//! release asset to fetch, reading the pairing PIN, the decisions taken while
//! pairing, and the stream arguments. Searching folders, downloading and
//! running Moonlight is left to the application.

use vstd::prelude::*;
use crate::state::Settings;
use crate::places::Platform;
use crate::sunshine::{string_texts as texts_of, windows_join};
use crate::text::{
    chars_of, contains_chars, decimal, decimal_u64, ends_with_chars, has_substring, lowercase_of,
    string_from, to_lowercase,
};

verus! {

/// An ASCII digit.
pub open spec fn is_ascii_digit(c: char) -> bool {
    '0' <= c && c <= '9'
}

/// The runs of ASCII digits in `s`, split at every other character; empty
/// runs included.
pub open spec fn digit_runs(s: Seq<char>) -> Seq<Seq<char>>
    decreases s.len(),
{
    if s.len() == 0 {
        seq![Seq::empty()]
    } else {
        let runs = digit_runs(s.drop_last());
        if is_ascii_digit(s.last()) {
            runs.update(runs.len() - 1, runs.last().push(s.last()))
        } else {
            runs.push(Seq::empty())
        }
    }
}

/// The first run of exactly four digits.
pub open spec fn first_pin(runs: Seq<Seq<char>>) -> Option<Seq<char>>
    decreases runs.len(),
{
    if runs.len() == 0 {
        None
    } else if runs[0].len() == 4 {
        Some(runs[0])
    } else {
        first_pin(runs.drop_first())
    }
}

proof fn lemma_digit_runs_nonempty(s: Seq<char>)
    ensures
        digit_runs(s).len() >= 1,
    decreases s.len(),
{
    if s.len() > 0 {
        lemma_digit_runs_nonempty(s.drop_last());
    }
}

proof fn lemma_first_pin_last(runs: Seq<Seq<char>>)
    requires
        runs.len() >= 1,
        forall|j: int| 0 <= j < runs.len() - 1 ==> (#[trigger] runs[j]).len() != 4,
    ensures
        first_pin(runs) == if runs.last().len() == 4 {
            Some(runs.last())
        } else {
            None::<Seq<char>>
        },
    decreases runs.len(),
{
    if runs.len() == 1 {
        assert(runs.drop_first().len() == 0);
        assert(first_pin(runs.drop_first()) is None);
        assert(runs.last() == runs[0]);
    } else {
        assert(runs[0].len() != 4);
        assert(runs.drop_first().last() == runs.last());
        assert forall|j: int| 0 <= j < runs.drop_first().len() - 1 implies (
        #[trigger] runs.drop_first()[j]).len() != 4 by {
            assert(runs.drop_first()[j] == runs[j + 1]);
        }
        lemma_first_pin_last(runs.drop_first());
    }
}

/// Extracts the 4-digit PIN from Moonlight's `pair` console output.
pub fn extract_pin(line: &str) -> (res: Option<String>)
    ensures
        match first_pin(digit_runs(line@)) {
            Some(p) => res matches Some(r) && r@ == p,
            None => res is None,
        },
{
    let chars = chars_of(line);
    let mut current: Vec<char> = Vec::new();
    let mut i: usize = 0;
    proof {
        assert(chars@.subrange(0, 0) =~= Seq::<char>::empty());
    }
    while i < chars.len()
        invariant
            i <= chars@.len(),
            chars@ == line@,
            digit_runs(chars@.subrange(0, i as int)).last() == current@,
            forall|j: int|
                0 <= j < digit_runs(chars@.subrange(0, i as int)).len() - 1 ==> (
                #[trigger] digit_runs(chars@.subrange(0, i as int))[j]).len() != 4,
        decreases chars.len() - i,
    {
        let c = chars[i];
        let ghost prefix = chars@.subrange(0, i as int);
        let ghost next = chars@.subrange(0, i + 1);
        proof {
            assert(next.drop_last() =~= prefix);
            assert(next.last() == c);
            lemma_digit_runs_nonempty(prefix);
        }
        if '0' <= c && c <= '9' {
            current.push(c);
        } else {
            if current.len() == 4 {
                let pin = string_from(&current);
                proof {
                    lemma_first_pin_last(digit_runs(prefix));
                    let runs = digit_runs(prefix);
                    assert(first_pin(runs) == Some(current@));
                    let all = digit_runs(line@);
                    lemma_runs_extend(chars@, i as int + 1);
                    assert(all.subrange(0, runs.len() as int) =~= runs);
                    lemma_first_pin_prefix(all, runs.len() as int);
                }
                return Some(pin);
            }
            current = Vec::new();
            proof {
                let runs = digit_runs(prefix);
                assert forall|j: int| 0 <= j < digit_runs(next).len() - 1 implies (
                #[trigger] digit_runs(next)[j]).len() != 4 by {
                    assert(digit_runs(next)[j] == runs[j]);
                }
            }
        }
        i = i + 1;
    }
    proof {
        assert(chars@.subrange(0, chars@.len() as int) =~= chars@);
        lemma_digit_runs_nonempty(chars@);
        lemma_first_pin_last(digit_runs(chars@));
    }
    if current.len() == 4 {
        Some(string_from(&current))
    } else {
        None
    }
}

proof fn lemma_runs_extend(s: Seq<char>, k: int)
    requires
        1 <= k <= s.len(),
        !is_ascii_digit(s[k - 1]),
    ensures
        digit_runs(s).len() >= digit_runs(s.subrange(0, k - 1)).len() + 1,
        forall|j: int|
            0 <= j < digit_runs(s.subrange(0, k - 1)).len() ==> #[trigger] digit_runs(s)[j]
                == digit_runs(s.subrange(0, k - 1))[j],
    decreases s.len() - k,
{
    lemma_digit_runs_nonempty(s.subrange(0, k - 1));
    if k == s.len() {
        assert(s.drop_last() =~= s.subrange(0, k - 1));
    } else {
        assert(s.drop_last().subrange(0, k - 1) =~= s.subrange(0, k - 1));
        assert(s.drop_last()[k - 1] == s[k - 1]);
        lemma_runs_extend(s.drop_last(), k);
        lemma_digit_runs_nonempty(s.drop_last());
    }
}

proof fn lemma_first_pin_prefix(all: Seq<Seq<char>>, n: int)
    requires
        0 < n <= all.len(),
        first_pin(all.subrange(0, n)) is Some,
    ensures
        first_pin(all) == first_pin(all.subrange(0, n)),
    decreases n,
{
    let pre = all.subrange(0, n);
    assert(pre[0] == all[0]);
    if all[0].len() != 4 {
        assert(pre.drop_first() =~= all.drop_first().subrange(0, n - 1));
        lemma_first_pin_prefix(all.drop_first(), n - 1);
    }
}

/// The texts of a list of strings.
pub open spec fn string_texts(v: Seq<String>) -> Seq<Seq<char>> {
    v.map_values(|s: String| s@)
}

/// The arguments that select a resolution.
pub open spec fn resolution_args(resolution: Seq<char>) -> Seq<Seq<char>> {
    if resolution == "1080p"@ {
        seq!["-1080"@]
    } else if resolution == "1440p"@ {
        seq!["-1440"@]
    } else if resolution == "4k"@ {
        seq!["-4k"@]
    } else {
        Seq::empty()
    }
}

/// Frame-rate arguments.
pub open spec fn fps_args(fps: u32) -> Seq<Seq<char>> {
    if fps > 0 {
        seq!["-fps"@, decimal(fps as nat)]
    } else {
        Seq::empty()
    }
}

/// Bitrate arguments, in kbit/s.
pub open spec fn bitrate_args(mbps: u32) -> Seq<Seq<char>> {
    if mbps > 0 {
        seq!["-bitrate"@, decimal((mbps * 1000) as nat)]
    } else {
        Seq::empty()
    }
}

/// Codec arguments, none for `auto`.
pub open spec fn codec_args(codec: Seq<char>) -> Seq<Seq<char>> {
    if codec != "auto"@ {
        seq!["-codec"@, codec]
    } else {
        Seq::empty()
    }
}

/// `moonlight stream` arguments for the settings and host: resolution,
/// frame rate and bitrate (in kbit/s) when set, codec unless `auto`, HDR when
/// on, then `stream`, the host and the `Desktop` app.
pub open spec fn stream_arguments(s: Settings, host: Seq<char>) -> Seq<Seq<char>> {
    resolution_args(s.resolution@) + fps_args(s.fps) + bitrate_args(s.bitrate_mbps) + codec_args(
        s.codec@,
    ) + (if s.hdr {
        seq!["-hdr"@]
    } else {
        Seq::empty()
    }) + seq!["stream"@, host, "Desktop"@]
}

fn push_arg(args: &mut Vec<String>, a: String)
    ensures
        string_texts(final(args)@) == string_texts(old(args)@).push(a@),
{
    args.push(a);
    assert(string_texts(args@) =~= string_texts(old(args)@).push(a@));
}

fn push_resolution(args: &mut Vec<String>, resolution: &String)
    ensures
        string_texts(final(args)@) == string_texts(old(args)@) + resolution_args(resolution@),
{
    if *resolution == "1080p".to_owned() {
        push_arg(args, "-1080".to_owned());
    } else if *resolution == "1440p".to_owned() {
        push_arg(args, "-1440".to_owned());
    } else if *resolution == "4k".to_owned() {
        push_arg(args, "-4k".to_owned());
    }
    assert(string_texts(args@) =~= string_texts(old(args)@) + resolution_args(resolution@));
}

fn push_fps(args: &mut Vec<String>, fps: u32)
    ensures
        string_texts(final(args)@) == string_texts(old(args)@) + fps_args(fps),
{
    if fps > 0 {
        push_arg(args, "-fps".to_owned());
        push_arg(args, decimal_u64(fps as u64));
    }
    assert(string_texts(args@) =~= string_texts(old(args)@) + fps_args(fps));
}

fn push_bitrate(args: &mut Vec<String>, mbps: u32)
    requires
        mbps * 1000 <= u32::MAX,
    ensures
        string_texts(final(args)@) == string_texts(old(args)@) + bitrate_args(mbps),
{
    if mbps > 0 {
        push_arg(args, "-bitrate".to_owned());
        push_arg(args, decimal_u64((mbps * 1000) as u64));
    }
    assert(string_texts(args@) =~= string_texts(old(args)@) + bitrate_args(mbps));
}

fn push_codec(args: &mut Vec<String>, codec: &String)
    ensures
        string_texts(final(args)@) == string_texts(old(args)@) + codec_args(codec@),
{
    if !(*codec == "auto".to_owned()) {
        push_arg(args, "-codec".to_owned());
        push_arg(args, codec.clone());
    }
    assert(string_texts(args@) =~= string_texts(old(args)@) + codec_args(codec@));
}

/// Builds `moonlight stream` arguments from the settings.
pub fn stream_args(settings: &Settings, host: &str) -> (res: Vec<String>)
    requires
        settings.bitrate_mbps * 1000 <= u32::MAX,
    ensures
        string_texts(res@) == stream_arguments(*settings, host@),
{
    let mut args: Vec<String> = Vec::new();
    assert(string_texts(args@) =~= Seq::<Seq<char>>::empty());
    push_resolution(&mut args, &settings.resolution);
    push_fps(&mut args, settings.fps);
    push_bitrate(&mut args, settings.bitrate_mbps);
    push_codec(&mut args, &settings.codec);
    let ghost before_hdr = string_texts(args@);
    if settings.hdr {
        push_arg(&mut args, "-hdr".to_owned());
    }
    assert(string_texts(args@) =~= before_hdr + (if settings.hdr {
        seq!["-hdr"@]
    } else {
        Seq::<Seq<char>>::empty()
    }));
    let ghost before_tail = string_texts(args@);
    push_arg(&mut args, "stream".to_owned());
    push_arg(&mut args, host.to_owned());
    push_arg(&mut args, "Desktop".to_owned());
    assert(string_texts(args@) =~= before_tail + seq!["stream"@, host@, "Desktop"@]);
    args
}


// ---------------------------------------------------------------------------
// Finding Moonlight
// ---------------------------------------------------------------------------

/// Where an installed Moonlight may be on `platform`.
pub open spec fn install_candidate_texts(platform: Platform, program_files: Option<Seq<char>>) -> Seq<Seq<char>> {
    match platform {
        Platform::Windows => match program_files {
            Some(pf) => seq![
                windows_join(windows_join(pf, "Moonlight Game Streaming"@), "Moonlight.exe"@),
            ],
            None => Seq::empty(),
        },
        Platform::MacOs => seq!["/Applications/Moonlight.app/Contents/MacOS/Moonlight"@],
        Platform::Linux => seq!["/usr/bin/moonlight"@],
    }
}

/// The places an installed Moonlight may be, in the order they are tried.
pub fn install_candidates(platform: Platform, program_files: Option<String>) -> (res: Vec<String>)
    ensures
        texts_of(res@) == install_candidate_texts(platform, match program_files {
            Some(p) => Some(p@),
            None => None,
        }),
{
    let res: Vec<String> = match platform {
        Platform::Windows => match program_files {
            Some(pf) => {
                let mut exe = pf;
                append_component(&mut exe, "Moonlight Game Streaming");
                append_component(&mut exe, "Moonlight.exe");
                vec![exe]
            },
            None => Vec::new(),
        },
        Platform::MacOs => vec!["/Applications/Moonlight.app/Contents/MacOS/Moonlight".to_owned()],
        Platform::Linux => vec!["/usr/bin/moonlight".to_owned()],
    };
    proof {
        assert(texts_of(res@) =~= install_candidate_texts(platform, match program_files {
            Some(p) => Some(p@),
            None => None,
        }));
    }
    res
}

fn append_component(path: &mut String, name: &str)
    ensures
        final(path)@ == windows_join(old(path)@, name@),
{
    let chars = chars_of(path.as_str());
    let n = chars.len();
    if !(n == 0 || chars[n - 1] == '\\' || chars[n - 1] == '/') {
        crate::text::push_char(path, '\\');
    }
    path.append(name);
}

/// The executable name looked up on `PATH`.
pub fn path_exe_name(platform: Platform) -> (res: &'static str)
    ensures
        res@ == if platform == Platform::Windows {
            "moonlight.exe"@
        } else {
            "moonlight"@
        },
{
    match platform {
        Platform::Windows => "moonlight.exe",
        _ => "moonlight",
    }
}

/// The ASCII lowercase of a character.
pub open spec fn ascii_lower(c: char) -> char {
    if 'A' <= c && c <= 'Z' {
        ((c as int) + 32) as char
    } else {
        c
    }
}

/// Two texts equal up to ASCII case (`str::eq_ignore_ascii_case`).
pub open spec fn eq_ignore_ascii_case(a: Seq<char>, b: Seq<char>) -> bool {
    a.len() == b.len() && forall|i: int| 0 <= i < a.len() ==> ascii_lower(#[trigger] a[i]) == ascii_lower(b[i])
}

fn ascii_lower_exec(c: char) -> (res: char)
    ensures
        res == ascii_lower(c),
{
    if 'A' <= c && c <= 'Z' {
        (((c as u32) + 32) as u8) as char
    } else {
        c
    }
}

/// Whether a file name is Moonlight's executable, in any ASCII case.
pub fn is_moonlight_exe(name: &str) -> (res: bool)
    ensures
        res == eq_ignore_ascii_case(name@, "moonlight.exe"@),
{
    let a = chars_of(name);
    let b = chars_of("moonlight.exe");
    if a.len() != b.len() {
        return false;
    }
    let mut i: usize = 0;
    while i < a.len()
        invariant
            i <= a@.len(),
            a@.len() == b@.len(),
            a@ == name@,
            b@ == "moonlight.exe"@,
            forall|j: int| 0 <= j < i ==> ascii_lower(#[trigger] a@[j]) == ascii_lower(b@[j]),
        decreases a.len() - i,
    {
        if ascii_lower_exec(a[i]) != ascii_lower_exec(b[i]) {
            return false;
        }
        i = i + 1;
    }
    true
}

/// The portable Windows build among release assets: lowercased, the name
/// holds `portable`, ends with `.zip`, and does not hold `arm`.
pub open spec fn is_portable_build(name: Seq<char>) -> bool {
    let n = lowercase_of(name);
    has_substring(n, "portable"@) && ".zip"@.is_suffix_of(n) && !has_substring(n, "arm"@)
}

/// Which asset of a Moonlight release is the portable Windows build: the
/// first that is one.
pub fn portable_build(names: &Vec<String>) -> (res: Option<usize>)
    ensures
        match res {
            Some(i) => i < names@.len() && is_portable_build(names@[i as int]@) && forall|j: int|
                0 <= j < i ==> !is_portable_build(#[trigger] names@[j]@),
            None => forall|j: int|
                0 <= j < names@.len() ==> !is_portable_build(#[trigger] names@[j]@),
        },
{
    let mut i: usize = 0;
    while i < names.len()
        invariant
            i <= names@.len(),
            forall|j: int| 0 <= j < i ==> !is_portable_build(#[trigger] names@[j]@),
        decreases names.len() - i,
    {
        let lower = chars_of(to_lowercase(names[i].as_str()).as_str());
        if contains_chars(&lower, &chars_of("portable")) && ends_with_chars(
            &lower,
            &chars_of(".zip"),
        ) && !contains_chars(&lower, &chars_of("arm")) {
            return Some(i);
        }
        i = i + 1;
    }
    None
}

/// The answer when Moonlight is missing on a platform without automatic
/// download.
pub fn download_unsupported() -> (res: String)
    ensures
        res@ == "Automatic Moonlight download is Windows-only for now \u{2014} install Moonlight from moonlight-stream.org and NodeDesk will use it"@,
{
    "Automatic Moonlight download is Windows-only for now \u{2014} install Moonlight from moonlight-stream.org and NodeDesk will use it".to_owned()
}

// ---------------------------------------------------------------------------
// Pairing
// ---------------------------------------------------------------------------

/// Seconds a pairing may take.
pub const PAIR_TIMEOUT_SECS: u64 = 120;

/// What to do while `moonlight pair` runs.
pub enum PairAction {
    /// Pairing is over, with this outcome.
    Finish(Result<(), String>),
    /// The time cap passed: stop the process and fail with this message.
    KillAndFail(String),
    /// Wait a moment and look again.
    Wait,
}

/// The decision after looking at the pairing process: `exited` is its exit
/// success, `None` while it runs, or the error met while looking.
pub open spec fn pair_decision(exited: Option<Result<bool, Seq<char>>>, past_deadline: bool) -> Option<
    Result<(), Seq<char>>,
> {
    match exited {
        Some(Ok(true)) => Some(Ok(())),
        Some(Ok(false)) => Some(Err(
            "Pairing failed \u{2014} make sure the PIN was approved on the host"@,
        )),
        Some(Err(e)) => Some(Err(e)),
        None => if past_deadline {
            Some(Err("Pairing timed out \u{2014} approve the PIN on the host, then retry"@))
        } else {
            None
        },
    }
}

/// Decides what to do after looking at the pairing process.
pub fn after_pair_poll(exited: Option<Result<bool, String>>, past_deadline: bool) -> (res: PairAction)
    ensures
        ({
            let d = pair_decision(match exited {
                Some(Ok(b)) => Some(Ok(b)),
                Some(Err(e)) => Some(Err(e@)),
                None => None,
            }, past_deadline);
            match res {
                PairAction::Finish(Ok(())) => d == Some(Ok::<(), Seq<char>>(())),
                PairAction::Finish(Err(m)) => exited is Some && d == Some(Err::<(), Seq<char>>(m@)),
                PairAction::KillAndFail(m) => exited is None && d == Some(Err::<(), Seq<char>>(m@)),
                PairAction::Wait => d is None,
            }
        }),
{
    match exited {
        Some(Ok(true)) => PairAction::Finish(Ok(())),
        Some(Ok(false)) => PairAction::Finish(
            Err("Pairing failed \u{2014} make sure the PIN was approved on the host".to_owned()),
        ),
        Some(Err(e)) => PairAction::Finish(Err(e)),
        None => if past_deadline {
            PairAction::KillAndFail(
                "Pairing timed out \u{2014} approve the PIN on the host, then retry".to_owned(),
            )
        } else {
            PairAction::Wait
        },
    }
}

/// The flags that select a resolution.
pub open spec fn is_resolution_flag(a: Seq<char>) -> bool {
    a == "-1080"@ || a == "-1440"@ || a == "-4k"@
}

/// The resolution flag follows the setting: `1080p`, `1440p` and `4k` put
/// exactly `-1080`, `-1440` and `-4k` first and no further resolution flag
/// after it; any other setting puts no resolution flag first.
pub proof fn resolution_flag_follows_the_setting(s: Settings, host: Seq<char>)
    ensures
        s.resolution@ == "1080p"@ ==> stream_arguments(s, host)[0] == "-1080"@,
        s.resolution@ == "1440p"@ ==> stream_arguments(s, host)[0] == "-1440"@,
        s.resolution@ == "4k"@ ==> stream_arguments(s, host)[0] == "-4k"@,
        (s.resolution@ == "1080p"@ || s.resolution@ == "1440p"@ || s.resolution@ == "4k"@)
            ==> !is_resolution_flag(stream_arguments(s, host)[1]),
        !(s.resolution@ == "1080p"@ || s.resolution@ == "1440p"@ || s.resolution@ == "4k"@)
            ==> !is_resolution_flag(stream_arguments(s, host)[0]),
{
    reveal_strlit("1080p");
    reveal_strlit("1440p");
    reveal_strlit("4k");
    reveal_strlit("-1080");
    reveal_strlit("-1440");
    reveal_strlit("-4k");
    reveal_strlit("-fps");
    reveal_strlit("-bitrate");
    reveal_strlit("-codec");
    reveal_strlit("-hdr");
    reveal_strlit("stream");
    assert("1080p"@[1] == '0' && "1440p"@[1] == '4' && "4k"@.len() == 2 && "1080p"@.len() == 5);
    assert("-1080"@.len() == 5 && "-1440"@.len() == 5 && "-4k"@.len() == 3);
    assert("-fps"@.len() == 4 && "-bitrate"@.len() == 8 && "-codec"@.len() == 6);
    assert("-hdr"@.len() == 4 && "stream"@.len() == 6);
    let hdr: Seq<Seq<char>> = if s.hdr {
        seq!["-hdr"@]
    } else {
        Seq::empty()
    };
    let tail: Seq<Seq<char>> = seq!["stream"@, host, "Desktop"@];
    let opts = fps_args(s.fps) + bitrate_args(s.bitrate_mbps) + codec_args(s.codec@) + hdr + tail;
    let r = resolution_args(s.resolution@);
    assert(stream_arguments(s, host) =~= r + opts);
    let first = if s.fps > 0 {
        "-fps"@
    } else if s.bitrate_mbps > 0 {
        "-bitrate"@
    } else if s.codec@ != "auto"@ {
        "-codec"@
    } else if s.hdr {
        "-hdr"@
    } else {
        "stream"@
    };
    assert(opts.len() > 0 && opts[0] == first);
    assert(!is_resolution_flag(first));
    if s.resolution@ == "1080p"@ || s.resolution@ == "1440p"@ || s.resolution@ == "4k"@ {
        assert(r.len() == 1);
        assert((r + opts)[1] == opts[0]);
    } else {
        assert(r.len() == 0);
        assert((r + opts)[0] == opts[0]);
    }
}

} // verus!
