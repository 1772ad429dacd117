//! Remote terminal: what a command run on a host turns into. The shell
//! script that runs it in the right folder and reports the folder it ends
//! in, the decisions taken while waiting for it under a time cap, and the
//! result made of its output. Starting and watching the process is left to
//! the application.

use vstd::prelude::*;
use crate::places::home_dir;
use crate::text::{
    chars_of, has_substring, last_occurrence, occurs_at, replace_char, replaced, slice_chars,
    string_from, trim, trim_chars, trim_end, trim_end_chars,
};

verus! {

/// Printed after the command, followed by the folder the shell ended in.
pub const CWD_MARKER: &'static str = "__NODEDESK_CWD__";

/// Seconds a command may run before it is stopped.
pub const TIMEOUT_SECS: u64 = 30;

/// What a remote command came to.
pub struct TerminalResult {
    pub ok: bool,
    pub output: String,
    pub cwd: String,
}

/// The folder a command starts in: the one asked for, else the home folder,
/// else the current one.
pub open spec fn start_dir_text(cwd: Seq<char>, home: Option<Seq<char>>) -> Seq<char> {
    if cwd.len() > 0 {
        cwd
    } else {
        match home {
            Some(h) => h,
            None => seq!['.'],
        }
    }
}

/// The folder a command starts in, given the home folder.
pub fn start_dir_from(cwd: &str, home: Option<String>) -> (res: String)
    ensures
        res@ == start_dir_text(cwd@, match home {
            Some(h) => Some(h@),
            None => None,
        }),
{
    let c = chars_of(cwd);
    if c.len() > 0 {
        cwd.to_owned()
    } else {
        match home {
            Some(h) => h,
            None => {
                let mut d = String::new();
                crate::text::push_char(&mut d, '.');
                d
            },
        }
    }
}

/// The folder a command starts in. The home folder is asked for only when
/// no folder is given.
pub fn start_dir(cwd: &str) -> (res: String)
    ensures
        cwd@.len() > 0 ==> res@ == cwd@,
        exists|home: Option<Seq<char>>| res@ == #[trigger] start_dir_text(cwd@, home),
{
    let c = chars_of(cwd);
    if c.len() > 0 {
        let r = cwd.to_owned();
        proof {
            assert(r@ == start_dir_text(cwd@, None));
        }
        r
    } else {
        let home = home_dir();
        let ghost h = if home is Some {
            Some(home->0@)
        } else {
            None::<Seq<char>>
        };
        let r = start_dir_from(cwd, home);
        proof {
            assert(r@ == start_dir_text(cwd@, h));
        }
        r
    }
}

/// The POSIX shell script: enter the folder (quoted, each `'` written as
/// `'\''`), run the command, then print a newline, the marker and `$PWD`.
pub open spec fn posix_script(dir: Seq<char>, cmd: Seq<char>) -> Seq<char> {
    "cd '"@ + replaced(dir, '\'', "'\\''"@) + "'; "@ + cmd + "; printf '\\n"@ + CWD_MARKER@
        + "%s' \"$PWD\""@
}

/// The PowerShell script: enter the folder (quoted, each `'` doubled), run
/// the command, then write a newline, the marker and the location.
pub open spec fn powershell_script(dir: Seq<char>, cmd: Seq<char>) -> Seq<char> {
    "Set-Location -Path '"@ + replaced(dir, '\'', "''"@) + "'; "@ + cmd + "; Write-Output \"`n"@
        + CWD_MARKER@ + "$((Get-Location).Path)\""@
}

/// The texts of a list of strings.
pub open spec fn string_texts(v: Seq<String>) -> Seq<Seq<char>> {
    v.map_values(|s: String| s@)
}

/// The program and arguments that run `cmd` in `dir`: PowerShell on
/// Windows, `sh -c` elsewhere.
pub open spec fn invocation(windows: bool, dir: Seq<char>, cmd: Seq<char>) -> (
    Seq<char>,
    Seq<Seq<char>>,
) {
    if windows {
        (
            "powershell"@,
            seq!["-NoProfile"@, "-NonInteractive"@, "-Command"@, powershell_script(dir, cmd)],
        )
    } else {
        ("sh"@, seq!["-c"@, posix_script(dir, cmd)])
    }
}

fn append_chars(out: &mut String, chars: &Vec<char>)
    ensures
        final(out)@ == old(out)@ + chars@,
{
    let s = string_from(chars);
    out.append(s.as_str());
}

/// The shell and its arguments for running `cmd` in `dir`.
pub fn shell_invocation(windows: bool, dir: &str, cmd: &str) -> (res: (String, Vec<String>))
    ensures
        res.0@ == invocation(windows, dir@, cmd@).0,
        string_texts(res.1@) == invocation(windows, dir@, cmd@).1,
{
    let d = chars_of(dir);
    let mut script = String::new();
    if windows {
        let esc = replace_char(&d, '\'', &chars_of("''"));
        script.append("Set-Location -Path '");
        append_chars(&mut script, &esc);
        script.append("'; ");
        script.append(cmd);
        script.append("; Write-Output \"`n");
        script.append(CWD_MARKER);
        script.append("$((Get-Location).Path)\"");
        let args: Vec<String> = vec![
            "-NoProfile".to_owned(),
            "-NonInteractive".to_owned(),
            "-Command".to_owned(),
            script,
        ];
        proof {
            assert(string_texts(args@) =~= invocation(windows, dir@, cmd@).1);
        }
        ("powershell".to_owned(), args)
    } else {
        let esc = replace_char(&d, '\'', &chars_of("'\\''"));
        script.append("cd '");
        append_chars(&mut script, &esc);
        script.append("'; ");
        script.append(cmd);
        script.append("; printf '\\n");
        script.append(CWD_MARKER);
        script.append("%s' \"$PWD\"");
        let args: Vec<String> = vec!["-c".to_owned(), script];
        proof {
            assert(string_texts(args@) =~= invocation(windows, dir@, cmd@).1);
        }
        ("sh".to_owned(), args)
    }
}

/// What polling the process found.
pub enum Poll {
    /// It exited; whether with success.
    Exited(bool),
    /// It is still running.
    Running,
    /// Its state could not be read.
    Failed,
}

/// What to do after a poll.
pub enum PollAction {
    /// Stop waiting; the exit status if there is one.
    Finish(Option<bool>),
    /// The time cap has passed: stop the process and report the timeout.
    Kill,
    /// Wait a moment and poll again.
    Sleep,
}

/// The decision after one poll of a running command.
pub open spec fn poll_action(poll: Poll, past_deadline: bool) -> PollAction {
    match poll {
        Poll::Exited(success) => PollAction::Finish(Some(success)),
        Poll::Running => if past_deadline {
            PollAction::Kill
        } else {
            PollAction::Sleep
        },
        Poll::Failed => PollAction::Finish(None),
    }
}

/// Decides what to do after a poll: an exited process is done, a running
/// one is stopped once the deadline has passed and waited for before.
pub fn after_poll(poll: Poll, past_deadline: bool) -> (res: PollAction)
    ensures
        res == poll_action(poll, past_deadline),
{
    match poll {
        Poll::Exited(success) => PollAction::Finish(Some(success)),
        Poll::Running => if past_deadline {
            PollAction::Kill
        } else {
            PollAction::Sleep
        },
        Poll::Failed => PollAction::Finish(None),
    }
}

/// The result of a shell that could not be started.
pub fn spawn_failed(error: &str, start_dir: String) -> (res: TerminalResult)
    ensures
        !res.ok,
        res.output@ == "failed to start shell: "@ + error@,
        res.cwd@ == start_dir@,
{
    let mut output = String::new();
    output.append("failed to start shell: ");
    output.append(error);
    TerminalResult { ok: false, output, cwd: start_dir }
}

/// The result of a command stopped at the time cap.
pub fn timed_out(start_dir: String) -> (res: TerminalResult)
    ensures
        !res.ok,
        res.output@ == "command timed out after 30 seconds and was stopped"@,
        res.cwd@ == start_dir@,
{
    TerminalResult {
        ok: false,
        output: "command timed out after 30 seconds and was stopped".to_owned(),
        cwd: start_dir,
    }
}

/// `p` is where `pat` occurs last in `s`.
pub open spec fn last_at(s: Seq<char>, pat: Seq<char>, p: int) -> bool {
    occurs_at(s, pat, p) && forall|q: int| p < q ==> !#[trigger] occurs_at(s, pat, q)
}

/// The result of a command that ran. The marker and folder are printed on
/// its standard output, so the folder is read there: after the last marker,
/// trimmed. The output is what came before that marker followed by the
/// error output, without trailing whitespace. Without a marker both streams
/// are kept whole and the folder is the one it started in. It succeeded only
/// if it exited with success.
pub fn finish(stdout: &str, stderr: &str, start_dir: String, status: Option<bool>) -> (res: TerminalResult)
    ensures
        res.ok == (status == Some(true)),
        !has_substring(stdout@, CWD_MARKER@) ==> res.output@ == stdout@ + stderr@ && res.cwd@
            == start_dir@,
        has_substring(stdout@, CWD_MARKER@) ==> exists|p: int|
            #[trigger] last_at(stdout@, CWD_MARKER@, p) && res.output@ == trim_end(
                stdout@.subrange(0, p) + stderr@,
            ) && res.cwd@ == trim(stdout@.subrange(p + CWD_MARKER@.len(), stdout@.len() as int)),
{
    let ok = match status {
        Some(s) => s,
        None => false,
    };
    let t = chars_of(stdout);
    let e = chars_of(stderr);
    let marker = chars_of(CWD_MARKER);
    match last_occurrence(&t, &marker) {
        Some(pos) => {
            let ml: usize = marker.len();
            proof {
                assert(occurs_at(t@, marker@, pos as int));
                assert(pos as int + ml as int <= t.len() as int);
            }
            let end: usize = pos + ml;
            let mut before = slice_chars(&t, 0, pos);
            let ghost head = before@;
            let mut i: usize = 0;
            while i < e.len()
                invariant
                    i <= e@.len(),
                    before@ == head + e@.subrange(0, i as int),
                decreases e.len() - i,
            {
                before.push(e[i]);
                proof {
                    assert(e@.subrange(0, i + 1) =~= e@.subrange(0, i as int).push(e@[i as int]));
                }
                i = i + 1;
            }
            proof {
                assert(e@.subrange(0, e@.len() as int) =~= e@);
            }
            let after = slice_chars(&t, end, t.len());
            let output = string_from(&trim_end_chars(&before));
            let cwd = string_from(&trim_chars(&after));
            proof {
                assert(last_at(stdout@, CWD_MARKER@, pos as int));
            }
            TerminalResult { ok, output, cwd }
        },
        None => {
            let mut output = stdout.to_owned();
            output.append(stderr);
            TerminalResult { ok, output, cwd: start_dir }
        },
    }
}

} // verus!
