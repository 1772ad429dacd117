//! The host agent's request check. Every request is authenticated by an HMAC
//! over its method, path, timestamp, nonce and body; replays are refused, and
//! repeated failures lock the peer out. The HTTP service around it lives in
//! the application.

use vstd::prelude::*;
use crate::auth::{
    accept_outcome, fresh_nonces, after_failure, body_digest, body_digest_text, constant_time_eq, may_attempt,
    relevant_peers, request_signature, signature, unix_now, Attempts, ReplayGuard, Throttle,
    MAX_DURATION_NANOS, MAX_SKEW_SECS,
};
use crate::numbers::{parse_i64, parse_signed};
use vstd::string::StringSliceAdditionalSpecFns;
use crate::files::StatError;
use crate::places::Platform;
use crate::text::same_text;

verus! {

/// Why a request was refused.
#[derive(PartialEq, Eq, Structural, Clone, Copy, Debug)]
pub enum Denied {
    /// The peer is locked out after repeated failures (HTTP 429).
    Throttled,
    /// The request is unsigned, stale, wrongly signed or replayed (HTTP 401).
    Unauthorized,
}

/// State of the agent: the access code, the replay guard and the throttle.
pub struct AgentCtx {
    access_code: String,
    replay: ReplayGuard,
    throttle: Throttle,
}

/// The text of an optional header.
pub open spec fn header_text(h: Option<&str>) -> Option<Seq<char>> {
    match h {
        Some(s) => Some(s@),
        None => None,
    }
}

/// A timestamp within `MAX_SKEW_SECS` of host time `now`, either way.
pub open spec fn within_skew(ts: i64, now: i64) -> bool {
    -(MAX_SKEW_SECS as int) <= now - ts <= MAX_SKEW_SECS
}

/// The timestamp and nonce of a request that carries all three headers, a
/// timestamp that parses as an `i64` and lies within the skew window, and
/// the signature that `code` gives the request; `None` otherwise.
pub open spec fn signed_request(
    code: Seq<char>,
    method: Seq<char>,
    path_and_query: Seq<char>,
    ts_header: Option<Seq<char>>,
    nonce_header: Option<Seq<char>>,
    auth_header: Option<Seq<char>>,
    body: Seq<u8>,
    now: i64,
) -> Option<(i64, Seq<char>)> {
    match (ts_header, nonce_header, auth_header) {
        (Some(t), Some(n), Some(provided)) => match parse_signed(t, i64::MIN as int, i64::MAX as int) {
            Some(v) => {
                let ts = v as i64;
                if within_skew(ts, now) && provided == request_signature(
                    code,
                    method,
                    path_and_query,
                    ts,
                    n,
                    body_digest_text(body),
                ) {
                    Some((ts, n))
                } else {
                    None
                }
            },
            None => None,
        },
        _ => None,
    }
}

/// The outcome of checking a request at host time `now_secs` and throttle
/// time `now_nanos`: the replay memory, the failure records, and the verdict.
/// A locked-out peer is refused before anything else; a request that fails
/// the signature check, or whose nonce is refused, counts as a failure; an
/// accepted request clears the peer's failures.
pub open spec fn authorize_outcome(
    code: Seq<char>,
    replay: Map<Seq<char>, i64>,
    peers: Map<Seq<char>, Attempts>,
    peer: Seq<char>,
    method: Seq<char>,
    path_and_query: Seq<char>,
    ts_header: Option<Seq<char>>,
    nonce_header: Option<Seq<char>>,
    auth_header: Option<Seq<char>>,
    body: Seq<u8>,
    now_secs: i64,
    now_nanos: u128,
) -> (Map<Seq<char>, i64>, Map<Seq<char>, Attempts>, Result<(), Denied>) {
    let kept = relevant_peers(peers, now_nanos);
    let failed = kept.insert(peer, after_failure(kept.get(peer), now_nanos));
    if !may_attempt(kept, peer, now_nanos) {
        (replay, kept, Err(Denied::Throttled))
    } else {
        match signed_request(
            code,
            method,
            path_and_query,
            ts_header,
            nonce_header,
            auth_header,
            body,
            now_secs,
        ) {
            None => (replay, failed, Err(Denied::Unauthorized)),
            Some((ts, nonce)) => {
                let (seen, fresh) = accept_outcome(replay, nonce, ts, now_secs);
                if fresh {
                    (seen, kept.remove(peer), Ok(()))
                } else {
                    (seen, failed, Err(Denied::Unauthorized))
                }
            },
        }
    }
}

impl AgentCtx {
    /// The access code requests must be signed with.
    pub closed spec fn access_code(self) -> Seq<char> {
        self.access_code@
    }

    /// The nonces the agent remembers, with their timestamps.
    pub closed spec fn seen_nonces(self) -> Map<Seq<char>, i64> {
        self.replay@
    }

    /// The failure records of peers.
    pub closed spec fn failures(self) -> Map<Seq<char>, Attempts> {
        self.throttle@
    }

    /// The replay guard and the throttle are consistent.
    pub closed spec fn wf(self) -> bool {
        self.replay.wf() && self.throttle.wf()
    }

    /// A fresh agent state for `access_code`.
    pub fn new(access_code: String) -> (res: Self)
        ensures
            res.wf(),
            res.access_code() == access_code@,
            res.seen_nonces() == Map::<Seq<char>, i64>::empty(),
            res.failures() == Map::<Seq<char>, Attempts>::empty(),
    {
        AgentCtx { access_code, replay: ReplayGuard::new(), throttle: Throttle::new() }
    }

    /// Replaces the access code; it takes effect for the next request.
    pub fn set_access_code(&mut self, code: String)
        requires
            old(self).wf(),
        ensures
            final(self).wf(),
            final(self).access_code() == code@,
            final(self).seen_nonces() == old(self).seen_nonces(),
            final(self).failures() == old(self).failures(),
    {
        self.access_code = code;
    }

    /// The current access code.
    pub fn code(&self) -> (res: Option<String>)
        ensures
            res matches Some(c) && c@ == self.access_code(),
    {
        Some(self.access_code.clone())
    }
}

/// Rotates the code of the running agent, if there is one.
pub fn rotate_access_code(agent: &mut Option<AgentCtx>, code: &str)
    requires
        old(agent).is_some() ==> old(agent).unwrap().wf(),
    ensures
        final(agent).is_some() == old(agent).is_some(),
        old(agent).is_some() ==> {
            let before = old(agent).unwrap();
            let after = final(agent).unwrap();
            &&& after.wf()
            &&& after.access_code() == code@
            &&& after.seen_nonces() == before.seen_nonces()
            &&& after.failures() == before.failures()
        },
{
    match agent {
        Some(ctx) => ctx.set_access_code(code.to_owned()),
        None => {},
    }
}

/// Makes `ctx` the running agent, whose code later rotations change.
pub fn register(agent: &mut Option<AgentCtx>, ctx: AgentCtx)
    ensures
        *final(agent) == Some(ctx),
{
    *agent = Some(ctx);
}

/// The HTTP answer to a refused request: 429 with a short text for a
/// locked-out peer (it tells a guesser nothing about how close it was), a
/// bare 401 otherwise.
pub fn denied_response(d: Denied) -> (res: (u16, &'static str))
    ensures
        d == Denied::Throttled ==> res.0 == 429 && res.1@ == "too many attempts"@,
        d == Denied::Unauthorized ==> res.0 == 401 && res.1@ == ""@,
{
    match d {
        Denied::Throttled => (429, "too many attempts"),
        Denied::Unauthorized => (401, ""),
    }
}

/// The HTTP answer to a stat that failed: a refused path is 403 with the
/// reason, a missing one 404, so a resuming upload can tell them apart.
pub fn stat_error_response(e: StatError) -> (res: (u16, String))
    ensures
        match e {
            StatError::Denied(m) => res.0 == 403 && res.1@ == m@,
            StatError::Missing => res.0 == 404 && res.1@ == "not found"@,
        },
{
    match e {
        StatError::Denied(m) => (403, m),
        StatError::Missing => (404, "not found".to_owned()),
    }
}

/// The longest command, in bytes, the terminal endpoint runs.
pub const MAX_COMMAND_BYTES: usize = 4096;

/// Whether the terminal endpoint takes a command: at most 4096 bytes.
pub fn check_command(command: &str) -> (res: Result<(), &'static str>)
    ensures
        res is Ok <==> command.spec_bytes().len() <= MAX_COMMAND_BYTES,
        res matches Err(m) ==> m@ == "command too long"@,
{
    if command.as_bytes().len() > MAX_COMMAND_BYTES {
        Err("command too long")
    } else {
        Ok(())
    }
}

/// The program and arguments of a power action on `platform`; only
/// `sleep`, `restart`, `shutdown` and `lock` exist.
pub open spec fn power_command_text(platform: Platform, action: Seq<char>) -> Option<(Seq<char>, Seq<Seq<char>>)> {
    match platform {
        Platform::Windows => if action == "sleep"@ {
            Some(("rundll32"@, seq!["powrprof.dll,SetSuspendState"@, "0"@, "1"@, "0"@]))
        } else if action == "restart"@ {
            Some(("shutdown"@, seq!["/r"@, "/t"@, "3"@]))
        } else if action == "shutdown"@ {
            Some(("shutdown"@, seq!["/s"@, "/t"@, "3"@]))
        } else if action == "lock"@ {
            Some(("rundll32"@, seq!["user32.dll,LockWorkStation"@]))
        } else {
            None
        },
        Platform::Linux => if action == "sleep"@ {
            Some(("systemctl"@, seq!["suspend"@]))
        } else if action == "restart"@ {
            Some(("systemctl"@, seq!["reboot"@]))
        } else if action == "shutdown"@ {
            Some(("systemctl"@, seq!["poweroff"@]))
        } else if action == "lock"@ {
            Some(("loginctl"@, seq!["lock-session"@]))
        } else {
            None
        },
        Platform::MacOs => if action == "sleep"@ {
            Some(("pmset"@, seq!["sleepnow"@]))
        } else if action == "restart"@ {
            Some(("shutdown"@, seq!["-r"@, "now"@]))
        } else if action == "shutdown"@ {
            Some(("shutdown"@, seq!["-h"@, "now"@]))
        } else if action == "lock"@ {
            Some(("pmset"@, seq!["displaysleepnow"@]))
        } else {
            None
        },
    }
}

/// The texts of a list of string slices.
pub open spec fn str_texts(v: Seq<&str>) -> Seq<Seq<char>> {
    v.map_values(|s: &str| s@)
}

/// The command for a power action, or the error for an unknown one.
pub fn power_command(platform: Platform, action: &str) -> (res: Result<(&'static str, Vec<&'static str>), &'static str>)
    ensures
        match power_command_text(platform, action@) {
            Some((cmd, args)) => res matches Ok(c) && c.0@ == cmd && str_texts(c.1@) == args,
            None => res matches Err(m) && m@ == "unknown power action"@,
        },
{
    let res: Result<(&'static str, Vec<&'static str>), &'static str> = if same_text(action, "sleep") {
        match platform {
            Platform::Windows => Ok(("rundll32", vec!["powrprof.dll,SetSuspendState", "0", "1", "0"])),
            Platform::Linux => Ok(("systemctl", vec!["suspend"])),
            Platform::MacOs => Ok(("pmset", vec!["sleepnow"])),
        }
    } else if same_text(action, "restart") {
        match platform {
            Platform::Windows => Ok(("shutdown", vec!["/r", "/t", "3"])),
            Platform::Linux => Ok(("systemctl", vec!["reboot"])),
            Platform::MacOs => Ok(("shutdown", vec!["-r", "now"])),
        }
    } else if same_text(action, "shutdown") {
        match platform {
            Platform::Windows => Ok(("shutdown", vec!["/s", "/t", "3"])),
            Platform::Linux => Ok(("systemctl", vec!["poweroff"])),
            Platform::MacOs => Ok(("shutdown", vec!["-h", "now"])),
        }
    } else if same_text(action, "lock") {
        match platform {
            Platform::Windows => Ok(("rundll32", vec!["user32.dll,LockWorkStation"])),
            Platform::Linux => Ok(("loginctl", vec!["lock-session"])),
            Platform::MacOs => Ok(("pmset", vec!["displaysleepnow"])),
        }
    } else {
        Err("unknown power action")
    };
    proof {
        if res is Ok {
            assert(str_texts(res->Ok_0.1@) =~= power_command_text(platform, action@).unwrap().1);
        }
    }
    res
}

/// Checks a request at host time `now_secs` and throttle time `now_nanos`.
/// `body` must be the exact bytes the handler will act on.
pub fn authorize_at(
    ctx: &mut AgentCtx,
    peer: &str,
    method: &str,
    path_and_query: &str,
    ts_header: Option<&str>,
    nonce_header: Option<&str>,
    auth_header: Option<&str>,
    body: &[u8],
    now_secs: i64,
    now_nanos: u128,
) -> (res: Result<(), Denied>)
    requires
        old(ctx).wf(),
        now_nanos <= MAX_DURATION_NANOS,
    ensures
        final(ctx).wf(),
        final(ctx).access_code() == old(ctx).access_code(),
        (final(ctx).seen_nonces(), final(ctx).failures(), res) == authorize_outcome(
            old(ctx).access_code(),
            old(ctx).seen_nonces(),
            old(ctx).failures(),
            peer@,
            method@,
            path_and_query@,
            header_text(ts_header),
            header_text(nonce_header),
            header_text(auth_header),
            body@,
            now_secs,
            now_nanos,
        ),
{
    if !ctx.throttle.allowed_at(peer, now_nanos) {
        return Err(Denied::Throttled);
    }
    let ghost kept = ctx.throttle@;
    let ghost expected_code = ctx.access_code@;
    let (ts_text, nonce, provided) = match (ts_header, nonce_header, auth_header) {
        (Some(t), Some(n), Some(p)) => (t, n, p),
        _ => {
            ctx.throttle.record_failure_at(peer, now_nanos);
            return Err(Denied::Unauthorized);
        },
    };
    let ts = match parse_i64(ts_text) {
        Some(v) => v,
        None => {
            ctx.throttle.record_failure_at(peer, now_nanos);
            return Err(Denied::Unauthorized);
        },
    };
    let skew: i128 = (now_secs as i128) - (ts as i128);
    if skew > (MAX_SKEW_SECS as i128) || skew < -(MAX_SKEW_SECS as i128) {
        ctx.throttle.record_failure_at(peer, now_nanos);
        return Err(Denied::Unauthorized);
    }
    let code = match ctx.code() {
        Some(c) => c,
        None => {
            ctx.throttle.record_failure_at(peer, now_nanos);
            return Err(Denied::Unauthorized);
        },
    };
    let digest = body_digest(body);
    let expected = signature(code.as_str(), method, path_and_query, ts, nonce, digest.as_str());
    let expected_text = expected.as_str();
    if !constant_time_eq(provided.as_bytes(), expected_text.as_bytes()) {
        proof {
            if provided@ == expected@ {
                assert(provided.spec_bytes() == expected_text.spec_bytes());
            }
        }
        ctx.throttle.record_failure_at(peer, now_nanos);
        return Err(Denied::Unauthorized);
    }
    proof {
        vstd::utf8::encode_utf8_decode_utf8(provided@);
        vstd::utf8::encode_utf8_decode_utf8(expected@);
    }
    if !ctx.replay.accept_at(nonce, ts, now_secs) {
        ctx.throttle.record_failure_at(peer, now_nanos);
        return Err(Denied::Unauthorized);
    }
    ctx.throttle.record_success(peer);
    Ok(())
}

/// Checks a request by the host clock and the throttle's clock (each read
/// once for the whole decision).
pub fn authorize(
    ctx: &mut AgentCtx,
    peer: &str,
    method: &str,
    path_and_query: &str,
    ts_header: Option<&str>,
    nonce_header: Option<&str>,
    auth_header: Option<&str>,
    body: &[u8],
) -> (res: Result<(), Denied>)
    requires
        old(ctx).wf(),
    ensures
        final(ctx).wf(),
        final(ctx).access_code() == old(ctx).access_code(),
        exists|now_secs: i64, now_nanos: u128|
            (final(ctx).seen_nonces(), final(ctx).failures(), res) == authorize_outcome(
                old(ctx).access_code(),
                old(ctx).seen_nonces(),
                old(ctx).failures(),
                peer@,
                method@,
                path_and_query@,
                header_text(ts_header),
                header_text(nonce_header),
                header_text(auth_header),
                body@,
                now_secs,
                now_nanos,
            ),
{
    let now_secs = unix_now();
    let now_nanos = ctx.throttle.now();
    authorize_at(
        ctx,
        peer,
        method,
        path_and_query,
        ts_header,
        nonce_header,
        auth_header,
        body,
        now_secs,
        now_nanos,
    )
}


// ---------------------------------------------------------------------------
// Laws
// ---------------------------------------------------------------------------

/// Every accepted request carries all three headers, a timestamp inside the
/// skew window, a nonce the agent did not hold, and exactly the signature
/// that the current access code gives this method, path and query,
/// timestamp, nonce and body; and its peer was not locked out.
pub proof fn accepted_request_is_signed_for_itself(
    code: Seq<char>,
    replay: Map<Seq<char>, i64>,
    peers: Map<Seq<char>, Attempts>,
    peer: Seq<char>,
    method: Seq<char>,
    path_and_query: Seq<char>,
    ts_header: Option<Seq<char>>,
    nonce_header: Option<Seq<char>>,
    auth_header: Option<Seq<char>>,
    body: Seq<u8>,
    now_secs: i64,
    now_nanos: u128,
)
    requires
        authorize_outcome(
            code,
            replay,
            peers,
            peer,
            method,
            path_and_query,
            ts_header,
            nonce_header,
            auth_header,
            body,
            now_secs,
            now_nanos,
        ).2 is Ok,
    ensures
        may_attempt(relevant_peers(peers, now_nanos), peer, now_nanos),
        ts_header is Some && nonce_header is Some && auth_header is Some,
        ({
            let ts = parse_signed(ts_header.unwrap(), i64::MIN as int, i64::MAX as int);
            &&& ts is Some
            &&& within_skew(ts.unwrap() as i64, now_secs)
            &&& !fresh_nonces(replay, now_secs).dom().contains(nonce_header.unwrap())
            &&& auth_header.unwrap() == request_signature(
                code,
                method,
                path_and_query,
                ts.unwrap() as i64,
                nonce_header.unwrap(),
                body_digest_text(body),
            )
        }),
{
}

/// A captured request never works twice: once a request has been accepted,
/// sending the same headers and body again is refused, whoever sends it,
/// whenever, and whatever the access code is by then.
pub proof fn captured_request_never_works_twice(
    code: Seq<char>,
    replay: Map<Seq<char>, i64>,
    peers: Map<Seq<char>, Attempts>,
    peer: Seq<char>,
    method: Seq<char>,
    path_and_query: Seq<char>,
    ts_header: Option<Seq<char>>,
    nonce_header: Option<Seq<char>>,
    auth_header: Option<Seq<char>>,
    body: Seq<u8>,
    now_secs: i64,
    now_nanos: u128,
    later_code: Seq<char>,
    later_peers: Map<Seq<char>, Attempts>,
    later_peer: Seq<char>,
    later_secs: i64,
    later_nanos: u128,
)
    requires
        authorize_outcome(
            code,
            replay,
            peers,
            peer,
            method,
            path_and_query,
            ts_header,
            nonce_header,
            auth_header,
            body,
            now_secs,
            now_nanos,
        ).2 is Ok,
    ensures
        authorize_outcome(
            later_code,
            authorize_outcome(
                code,
                replay,
                peers,
                peer,
                method,
                path_and_query,
                ts_header,
                nonce_header,
                auth_header,
                body,
                now_secs,
                now_nanos,
            ).0,
            later_peers,
            later_peer,
            method,
            path_and_query,
            ts_header,
            nonce_header,
            auth_header,
            body,
            later_secs,
            later_nanos,
        ).2 is Err,
{
    let first = signed_request(
        code,
        method,
        path_and_query,
        ts_header,
        nonce_header,
        auth_header,
        body,
        now_secs,
    );
    let (ts, nonce) = first.unwrap();
    let seen = accept_outcome(replay, nonce, ts, now_secs).0;
    assert(seen.dom().contains(nonce) && seen[nonce] == ts);
    let second = signed_request(
        later_code,
        method,
        path_and_query,
        ts_header,
        nonce_header,
        auth_header,
        body,
        later_secs,
    );
    if second is Some {
        assert(second.unwrap().0 == ts && second.unwrap().1 == nonce);
        assert(fresh_nonces(seen, later_secs).dom().contains(nonce));
    }
}

/// The timestamp window is symmetric: a client clock ahead of the host by
/// some amount is judged as one behind it by the same amount, and any
/// timestamp at most `MAX_SKEW_SECS` from the host clock, either way, is in
/// the window.
pub proof fn skew_window_is_symmetric(ts: i64, now: i64)
    ensures
        within_skew(ts, now) == within_skew(now, ts),
        (now - ts <= MAX_SKEW_SECS && ts - now <= MAX_SKEW_SECS) ==> within_skew(ts, now),
        within_skew(ts, now) ==> (now - ts <= MAX_SKEW_SECS && ts - now <= MAX_SKEW_SECS),
{
}

/// A correctly signed request with a nonce the agent does not hold, from a
/// peer that is not locked out, is accepted whenever its timestamp is at
/// most `MAX_SKEW_SECS` from the host clock, ahead or behind.
pub proof fn signed_request_within_the_window_is_accepted(
    code: Seq<char>,
    replay: Map<Seq<char>, i64>,
    peers: Map<Seq<char>, Attempts>,
    peer: Seq<char>,
    method: Seq<char>,
    path_and_query: Seq<char>,
    ts_text: Seq<char>,
    ts: i64,
    nonce: Seq<char>,
    body: Seq<u8>,
    now_secs: i64,
    now_nanos: u128,
)
    requires
        may_attempt(relevant_peers(peers, now_nanos), peer, now_nanos),
        parse_signed(ts_text, i64::MIN as int, i64::MAX as int) == Some(ts as int),
        now_secs - ts <= MAX_SKEW_SECS,
        ts - now_secs <= MAX_SKEW_SECS,
        accept_outcome(replay, nonce, ts, now_secs).1,
    ensures
        authorize_outcome(
            code,
            replay,
            peers,
            peer,
            method,
            path_and_query,
            Some(ts_text),
            Some(nonce),
            Some(request_signature(code, method, path_and_query, ts, nonce, body_digest_text(body))),
            body,
            now_secs,
            now_nanos,
        ).2 == Ok::<(), Denied>(()),
{
    let v = parse_signed(ts_text, i64::MIN as int, i64::MAX as int).unwrap();
    assert(v as i64 == ts);
    assert(within_skew(ts, now_secs));
}

/// The four power actions.
pub open spec fn is_power_action(action: Seq<char>) -> bool {
    action == "sleep"@ || action == "restart"@ || action == "shutdown"@ || action == "lock"@
}

/// Every power action has a command on every platform, and distinct
/// actions give distinct commands: no action stands in for another.
pub proof fn power_actions_are_distinct(platform: Platform, a: Seq<char>, b: Seq<char>)
    requires
        is_power_action(a),
        is_power_action(b),
        a != b,
    ensures
        power_command_text(platform, a) is Some,
        power_command_text(platform, a) != power_command_text(platform, b),
{
    reveal_strlit("sleep");
    reveal_strlit("restart");
    reveal_strlit("shutdown");
    reveal_strlit("lock");
    reveal_strlit("rundll32");
    reveal_strlit("powrprof.dll,SetSuspendState");
    reveal_strlit("user32.dll,LockWorkStation");
    reveal_strlit("/r");
    reveal_strlit("/s");
    reveal_strlit("systemctl");
    reveal_strlit("loginctl");
    reveal_strlit("suspend");
    reveal_strlit("reboot");
    reveal_strlit("poweroff");
    reveal_strlit("pmset");
    reveal_strlit("sleepnow");
    reveal_strlit("displaysleepnow");
    reveal_strlit("-r");
    reveal_strlit("-h");
    reveal_strlit("lock-session");
    assert("sleep"@.len() == 5 && "restart"@.len() == 7 && "shutdown"@.len() == 8 && "lock"@.len() == 4);
    assert("powrprof.dll,SetSuspendState"@.len() == 28 && "user32.dll,LockWorkStation"@.len() == 26);
    assert("/r"@.len() == 2 && "/s"@.len() == 2 && "/r"@[1] == 'r' && "/s"@[1] == 's');
    assert("suspend"@.len() == 7 && "reboot"@.len() == 6 && "poweroff"@.len() == 8);
    assert("lock-session"@.len() == 12);
    assert("sleepnow"@.len() == 8 && "displaysleepnow"@.len() == 15);
    assert("-r"@.len() == 2 && "-h"@.len() == 2 && "-r"@[1] == 'r' && "-h"@[1] == 'h');
    let pa = power_command_text(platform, a);
    let pb = power_command_text(platform, b);
    assert(pa is Some);
    assert(pb is Some);
    let fa = pa.unwrap().1[0];
    let fb = pb.unwrap().1[0];
    assert(fa.len() != fb.len() || fa[1] != fb[1]);
    assert(fa != fb);
}

/// Shutting down powers off and restarting restarts: on Windows the shutdown
/// action passes the power-off switch `/s` and never the restart switch
/// `/r`, which the restart action passes.
pub proof fn shutdown_and_restart_switches(platform: Platform)
    requires
        platform == Platform::Windows,
    ensures
        power_command_text(platform, "shutdown"@) matches Some((p, args)) && p == "shutdown"@
            && args.contains("/s"@) && !args.contains("/r"@),
        power_command_text(platform, "restart"@) matches Some((p, args)) && p == "shutdown"@
            && args.contains("/r"@) && !args.contains("/s"@),
{
    reveal_strlit("sleep");
    reveal_strlit("restart");
    reveal_strlit("shutdown");
    reveal_strlit("/r");
    reveal_strlit("/s");
    reveal_strlit("/t");
    reveal_strlit("3");
    let s = seq!["/s"@, "/t"@, "3"@];
    let r = seq!["/r"@, "/t"@, "3"@];
    assert("shutdown"@.len() == 8 && "sleep"@.len() == 5 && "restart"@.len() == 7);
    assert(power_command_text(platform, "shutdown"@) == Some(("shutdown"@, s)));
    assert(power_command_text(platform, "restart"@) == Some(("shutdown"@, r)));
    assert(s[0] == "/s"@);
    assert(r[0] == "/r"@);
    assert(!s.contains("/r"@)) by {
        if s.contains("/r"@) {
            let i = choose|i: int| 0 <= i < s.len() && s[i] == "/r"@;
            assert(s[i][1] == '/' || s[i][1] == 's' || s[i].len() != 2);
        }
    }
    assert(!r.contains("/s"@)) by {
        if r.contains("/s"@) {
            let i = choose|i: int| 0 <= i < r.len() && r[i] == "/s"@;
            assert(r[i][1] == '/' || r[i][1] == 'r' || r[i].len() != 2);
        }
    }
}

} // verus!
