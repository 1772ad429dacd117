//! Request authentication for the host agent.
//!
//! The access code is a shared secret that never crosses the network. Every
//! request carries an HMAC-SHA256 over its method, path and query, timestamp,
//! nonce and body digest; the host recomputes it with the code it holds.
//! Timestamps outside a short window are refused, and each nonce is accepted
//! once.

use hmac::{Hmac, Mac};
use rand::Rng;
use rand::rngs::ThreadRng;
use sha2::{Digest, Sha256};
use std::time::{Instant, SystemTime, UNIX_EPOCH};
use vstd::prelude::*;
use vstd::utf8::encode_utf8;
use crate::table::{retained, KeyedTable};
use crate::text::{append_bytes, decimal_i64, push_char, signed_decimal};

verus! {

/// Header carrying the request timestamp (seconds since the Unix epoch).
pub const TS_HEADER: &'static str = "x-nodedesk-ts";

/// Header carrying the single-use request nonce.
pub const NONCE_HEADER: &'static str = "x-nodedesk-nonce";

/// Header carrying the request signature.
pub const AUTH_HEADER: &'static str = "x-nodedesk-auth";

/// How far a request timestamp may drift from the host clock, in seconds.
/// Also bounds how long a captured request stays replayable.
pub const MAX_SKEW_SECS: i64 = 120;

/// The lowercase hexadecimal digit for a value below 16.
pub open spec fn hex_digit(v: int) -> char {
    if v < 10 {
        (48 + v) as char
    } else {
        (97 + (v - 10)) as char
    }
}

/// Lowercase hexadecimal text of `bytes`: two digits per byte, high nibble
/// first.
pub open spec fn hex_text(bytes: Seq<u8>) -> Seq<char> {
    Seq::new(
        2 * bytes.len(),
        |i: int|
            if i % 2 == 0 {
                hex_digit((bytes[i / 2] / 16) as int)
            } else {
                hex_digit((bytes[i / 2] % 16) as int)
            },
    )
}

fn hex_digit_exec(v: u8) -> (c: char)
    requires
        v < 16,
    ensures
        c == hex_digit(v as int),
{
    if v < 10 {
        (48u8 + v) as char
    } else {
        (97u8 + (v - 10)) as char
    }
}

/// Lowercase hexadecimal encoding of `bytes`.
pub fn hex(bytes: &[u8]) -> (res: String)
    ensures
        res@ == hex_text(bytes@),
{
    let mut out = String::new();
    let mut i: usize = 0;
    while i < bytes.len()
        invariant
            i <= bytes.len(),
            out@ == hex_text(bytes@.subrange(0, i as int)),
        decreases bytes.len() - i,
    {
        let b = bytes[i];
        let hi = b >> 4;
        let lo = b & 0x0f;
        assert(hi == b / 16 && lo == b % 16) by (bit_vector)
            requires
                hi == b >> 4,
                lo == b & 0x0f,
        ;
        push_char(&mut out, hex_digit_exec(hi));
        push_char(&mut out, hex_digit_exec(lo));
        proof {
            let prev = bytes@.subrange(0, i as int);
            let next = bytes@.subrange(0, i + 1);
            assert(hex_text(next) =~= hex_text(prev).push(hex_digit((b / 16) as int)).push(
                hex_digit((b % 16) as int),
            )) by {
                assert forall|k: int| 0 <= k < 2 * prev.len() implies #[trigger] hex_text(next)[k]
                    == hex_text(prev)[k] by {
                    assert(next[k / 2] == prev[k / 2]);
                }
                assert(next[i as int] == b);
            }
        }
        i = i + 1;
    }
    proof {
        assert(bytes@.subrange(0, bytes@.len() as int) =~= bytes@);
    }
    out
}

/// Compares two byte strings in time that depends only on their lengths.
pub fn constant_time_eq(a: &[u8], b: &[u8]) -> (res: bool)
    ensures
        res == (a@ == b@),
{
    if a.len() != b.len() {
        return false;
    }
    let mut acc: u8 = 0;
    let mut i: usize = 0;
    while i < a.len()
        invariant
            a.len() == b.len(),
            i <= a.len(),
            (acc == 0) == (a@.subrange(0, i as int) =~= b@.subrange(0, i as int)),
        decreases a.len() - i,
    {
        let x = a[i];
        let y = b[i];
        assert((acc | (x ^ y)) == 0 <==> (acc == 0 && x == y)) by (bit_vector);
        proof {
            let pa = a@.subrange(0, i as int);
            let pb = b@.subrange(0, i as int);
            assert(a@.subrange(0, i + 1) =~= pa.push(x));
            assert(b@.subrange(0, i + 1) =~= pb.push(y));
            if pa.push(x) =~= pb.push(y) {
                assert(pa =~= pb.push(y).drop_last());
                assert(pa.push(x).last() == x);
            }
        }
        acc = acc | (x ^ y);
        i = i + 1;
    }
    proof {
        assert(a@.subrange(0, a@.len() as int) =~= a@);
        assert(b@.subrange(0, b@.len() as int) =~= b@);
    }
    acc == 0
}


// ---------------------------------------------------------------------------
// Hashing and signing
// ---------------------------------------------------------------------------

/// The SHA-256 digest of `data`, as the sha2 crate computes it.
pub uninterp spec fn sha256_of(data: Seq<u8>) -> Seq<u8>;

/// The HMAC-SHA256 tag of `message` under `key`, as the hmac crate computes it.
pub uninterp spec fn hmac_sha256_of(key: Seq<u8>, message: Seq<u8>) -> Seq<u8>;

/// `Sha256::digest` of the sha2 crate. Trusted: the result is the crate's
/// digest of `data` (named `sha256_of`) and is 32 bytes long.
#[verifier::external_body]
fn sha256(data: &[u8]) -> (res: Vec<u8>)
    ensures
        res@ == sha256_of(data@),
        res@.len() == 32,
{
    Sha256::digest(data).to_vec()
}

/// HMAC-SHA256 of the hmac crate over one message (`new_from_slice`,
/// `update`, `finalize`). Trusted: the result is the crate's tag (named
/// `hmac_sha256_of`) and is 32 bytes long. The crate takes keys of any
/// length, so `new_from_slice` does not fail.
#[verifier::external_body]
fn hmac_sha256(key: &[u8], message: &[u8]) -> (res: Vec<u8>)
    ensures
        res@ == hmac_sha256_of(key@, message@),
        res@.len() == 32,
{
    let mut mac = <Hmac<Sha256> as Mac>::new_from_slice(key).expect("HMAC takes keys of any length");
    mac.update(message);
    mac.finalize().into_bytes().to_vec()
}

/// Hex text of the SHA-256 digest of a request body.
pub open spec fn body_digest_text(body: Seq<u8>) -> Seq<char> {
    hex_text(sha256_of(body))
}

/// Lowercase hex of the SHA-256 digest of `body`.
pub fn body_digest(body: &[u8]) -> (res: String)
    ensures
        res@ == body_digest_text(body@),
        res@.len() == 64,
{
    let digest = sha256(body);
    hex(digest.as_slice())
}

/// One field of the signed message: its UTF-8 bytes and a newline.
pub open spec fn signed_line(part: Seq<char>) -> Seq<u8> {
    encode_utf8(part).push(10u8)
}

/// The message that a request signature covers.
pub open spec fn signed_message(
    method: Seq<char>,
    path_and_query: Seq<char>,
    ts: i64,
    nonce: Seq<char>,
    body_digest: Seq<char>,
) -> Seq<u8> {
    signed_line(method) + signed_line(path_and_query) + signed_line(signed_decimal(ts as int))
        + signed_line(nonce) + signed_line(body_digest)
}

/// The signature of a request: lowercase hex of the HMAC-SHA256 of the
/// signed message, keyed by the UTF-8 bytes of the access code.
pub open spec fn request_signature(
    code: Seq<char>,
    method: Seq<char>,
    path_and_query: Seq<char>,
    ts: i64,
    nonce: Seq<char>,
    body_digest: Seq<char>,
) -> Seq<char> {
    hex_text(
        hmac_sha256_of(
            encode_utf8(code),
            signed_message(method, path_and_query, ts, nonce, body_digest),
        ),
    )
}

fn push_line(out: &mut Vec<u8>, part: &str)
    ensures
        final(out)@ == old(out)@ + signed_line(part@),
{
    append_bytes(out, part.as_bytes());
    out.push(10u8);
    proof {
        assert(old(out)@ + encode_utf8(part@) + seq![10u8] =~= old(out)@ + signed_line(part@));
    }
}

/// Signs a request. Binding method and path+query stops a captured signature
/// being moved to another endpoint; the body digest stops the payload being
/// swapped underneath it.
pub fn signature(
    code: &str,
    method: &str,
    path_and_query: &str,
    ts: i64,
    nonce: &str,
    body_digest: &str,
) -> (res: String)
    ensures
        res@ == request_signature(code@, method@, path_and_query@, ts, nonce@, body_digest@),
        res@.len() == 64,
{
    let ts_text = decimal_i64(ts);
    let mut message: Vec<u8> = Vec::new();
    push_line(&mut message, method);
    push_line(&mut message, path_and_query);
    push_line(&mut message, ts_text.as_str());
    push_line(&mut message, nonce);
    push_line(&mut message, body_digest);
    proof {
        assert(message@ =~= signed_message(method@, path_and_query@, ts, nonce@, body_digest@));
    }
    let tag = hmac_sha256(code.as_bytes(), message.as_slice());
    hex(tag.as_slice())
}

// ---------------------------------------------------------------------------
// Clock and nonces
// ---------------------------------------------------------------------------

#[verifier::external_type_specification]
#[verifier::external_body]
pub struct ExSystemTime(SystemTime);

#[verifier::external_type_specification]
#[verifier::external_body]
pub struct ExThreadRng(ThreadRng);

/// `SystemTime::now`. Nothing is stated of the reading.
#[verifier::external_body]
fn system_now() -> SystemTime {
    SystemTime::now()
}

/// `SystemTime::duration_since(UNIX_EPOCH)` in whole seconds; `None` for a
/// clock set before the epoch. Nothing is stated of the value.
#[verifier::external_body]
fn secs_since_epoch(t: &SystemTime) -> Option<u64> {
    t.duration_since(UNIX_EPOCH).ok().map(|d| d.as_secs())
}

/// The Unix time for a reading of seconds since the epoch: the seconds as an
/// `i64` (wrapping as `as` does), or 0 for a clock before the epoch.
pub open spec fn unix_time_of(secs: Option<u64>) -> i64 {
    match secs {
        Some(s) => s as i64,
        None => 0,
    }
}

/// Converts a reading of seconds since the epoch to Unix time.
pub fn unix_time_from(secs: Option<u64>) -> (res: i64)
    ensures
        res == unix_time_of(secs),
{
    match secs {
        Some(s) => s as i64,
        None => 0,
    }
}

/// Seconds since the Unix epoch by the host clock (0 if the clock is set
/// before the epoch).
pub fn unix_now() -> (res: i64)
    ensures
        exists|secs: Option<u64>| res == unix_time_of(secs),
{
    let now = system_now();
    unix_time_from(secs_since_epoch(&now))
}

/// `rand::thread_rng`. Nothing is stated of the generator.
#[verifier::external_body]
pub(crate) fn thread_rng() -> ThreadRng {
    rand::thread_rng()
}

/// `Rng::fill` of the rand crate on the bytes of `buf`. Trusted: the length
/// is unchanged; the bytes are random, so nothing more is stated.
#[verifier::external_body]
pub(crate) fn fill_random(rng: &mut ThreadRng, buf: &mut Vec<u8>)
    ensures
        final(buf)@.len() == old(buf)@.len(),
{
    rng.fill(buf.as_mut_slice());
}

/// `Rng::gen_range(0..bound)` of the rand crate. Trusted: the result lies in
/// `0..bound`; the crate panics on an empty range, which `requires` leaves out.
#[verifier::external_body]
pub(crate) fn random_below(rng: &mut ThreadRng, bound: usize) -> (res: usize)
    requires
        bound > 0,
    ensures
        res < bound,
{
    rng.gen_range(0..bound)
}

/// A fresh request nonce: 16 random bytes in lowercase hex.
pub fn new_nonce() -> (res: String)
    ensures
        exists|bytes: Seq<u8>| bytes.len() == 16 && res@ == hex_text(bytes),
{
    let mut rng = thread_rng();
    let mut bytes: Vec<u8> = vec![0u8; 16];
    fill_random(&mut rng, &mut bytes);
    hex(bytes.as_slice())
}


// ---------------------------------------------------------------------------
// Replay protection
// ---------------------------------------------------------------------------

/// Most nonces the replay guard holds at once; beyond this it refuses.
pub const REPLAY_CAPACITY: usize = 100_000;

/// A nonce seen at `seen_ts` is still remembered at host time `now`.
pub open spec fn nonce_fresh(seen_ts: i64, now: i64) -> bool {
    seen_ts >= now - MAX_SKEW_SECS
}

/// The remembered nonces once those outside the window at `now` are dropped.
pub open spec fn fresh_nonces(seen: Map<Seq<char>, i64>, now: i64) -> Map<Seq<char>, i64> {
    retained(seen, |t: i64| nonce_fresh(t, now))
}

/// What `accept` leaves behind, and whether it accepts: stale nonces are
/// dropped; past capacity nothing is recorded and the nonce is refused;
/// otherwise the nonce is recorded with `ts` and accepted if it was not
/// already there.
pub open spec fn accept_outcome(seen: Map<Seq<char>, i64>, nonce: Seq<char>, ts: i64, now: i64) -> (
    Map<Seq<char>, i64>,
    bool,
) {
    let kept = fresh_nonces(seen, now);
    if kept.len() > REPLAY_CAPACITY {
        (kept, false)
    } else {
        (kept.insert(nonce, ts), !kept.dom().contains(nonce))
    }
}

/// Remembers recently seen nonces so a captured request cannot be replayed
/// inside the timestamp window. Nonces older than the window are dropped, so
/// the memory stays bounded by the request rate rather than by uptime.
pub struct ReplayGuard {
    seen: KeyedTable<i64>,
}

impl View for ReplayGuard {
    type V = Map<Seq<char>, i64>;

    closed spec fn view(&self) -> Map<Seq<char>, i64> {
        self.seen@
    }
}

impl ReplayGuard {
    /// The guard's internal table is consistent, and it holds at most one
    /// nonce more than its capacity.
    pub closed spec fn wf(self) -> bool {
        &&& self.seen.wf()
        &&& self.seen@.dom().finite()
        &&& self.seen@.len() <= REPLAY_CAPACITY + 1
    }

    /// A well-formed guard remembers at most `REPLAY_CAPACITY + 1` nonces.
    pub proof fn holds_a_bounded_number_of_nonces(self)
        requires
            self.wf(),
        ensures
            self@.len() <= REPLAY_CAPACITY + 1,
    {
    }

    /// A guard that has seen no nonce.
    pub fn new() -> (res: Self)
        ensures
            res.wf(),
            res@ == Map::<Seq<char>, i64>::empty(),
    {
        ReplayGuard { seen: KeyedTable::new() }
    }

    /// Records `nonce` with timestamp `ts` at host time `now`; false if it
    /// was already used inside the window, or the guard is full.
    pub fn accept_at(&mut self, nonce: &str, ts: i64, now: i64) -> (res: bool)
        requires
            old(self).wf(),
        ensures
            final(self).wf(),
            (final(self)@, res) == accept_outcome(old(self)@, nonce@, ts, now),
    {
        let cutoff: i128 = (now as i128) - (MAX_SKEW_SECS as i128);
        let keep = |seen_ts: &i64| -> (b: bool)
            ensures
                b == nonce_fresh(*seen_ts, now),
            { (*seen_ts as i128) >= cutoff };
        let ghost before = self.seen@;
        self.seen.retain(keep, Ghost(|t: i64| nonce_fresh(t, now)));
        proof {
            vstd::set_lib::lemma_len_subset(self.seen@.dom(), before.dom());
        }
        if self.seen.len() > REPLAY_CAPACITY {
            return false;
        }
        let had = self.seen.insert(nonce.to_owned(), ts);
        !had
    }

    /// Records `nonce` by the host clock; false if it was already used.
    pub fn accept(&mut self, nonce: &str, ts: i64) -> (res: bool)
        requires
            old(self).wf(),
        ensures
            final(self).wf(),
            exists|now: i64| (final(self)@, res) == accept_outcome(old(self)@, nonce@, ts, now),
    {
        let now = unix_now();
        self.accept_at(nonce, ts, now)
    }
}

impl Default for ReplayGuard {
    fn default() -> (res: Self)
        ensures
            res.wf(),
            res@ == Map::<Seq<char>, i64>::empty(),
    {
        ReplayGuard::new()
    }
}

// ---------------------------------------------------------------------------
// Brute-force throttling
// ---------------------------------------------------------------------------

/// Failures allowed from one peer before it is locked out.
pub const MAX_FAILURES: u32 = 10;

/// How long a locked-out peer stays locked out, in nanoseconds (60 s).
pub const LOCKOUT_NANOS: u128 = 60_000_000_000;

/// Failures are forgotten after this long without one, in nanoseconds (300 s).
pub const FAILURE_TTL_NANOS: u128 = 300_000_000_000;

/// The longest `Duration`, in nanoseconds.
pub const MAX_DURATION_NANOS: u128 = 18_446_744_073_709_551_615_999_999_999;

/// Failed attempts of one peer. Times are nanoseconds since the throttle was
/// made.
#[derive(Clone, Copy)]
pub struct Attempts {
    pub failures: u32,
    pub last_failure: u128,
    pub locked_until: Option<u128>,
}

/// The peer is locked out at `now`.
pub open spec fn locked_at(a: Attempts, now: u128) -> bool {
    match a.locked_until {
        Some(until) => until > now,
        None => false,
    }
}

/// The time from `earlier` to `later`, zero if `later` comes first
/// (`Instant::duration_since`).
pub open spec fn elapsed(later: u128, earlier: u128) -> int {
    if later >= earlier {
        later - earlier
    } else {
        0
    }
}

/// A record is kept at `now` while its lockout holds or its last failure is
/// recent.
pub open spec fn attempts_relevant(a: Attempts, now: u128) -> bool {
    locked_at(a, now) || elapsed(now, a.last_failure) < FAILURE_TTL_NANOS
}

/// The records kept at `now`.
pub open spec fn relevant_peers(peers: Map<Seq<char>, Attempts>, now: u128) -> Map<
    Seq<char>,
    Attempts,
> {
    retained(peers, |a: Attempts| attempts_relevant(a, now))
}

/// Whether `peer` may attempt a request at `now`, given the kept records:
/// unless it has a lockout that has not yet run out.
pub open spec fn may_attempt(peers: Map<Seq<char>, Attempts>, peer: Seq<char>, now: u128) -> bool {
    match peers.get(peer) {
        Some(a) => match a.locked_until {
            Some(until) => until <= now,
            None => true,
        },
        None => true,
    }
}

/// The record of a peer after one more failure at `now`: an expired lockout
/// starts the count again; the count goes up by one; at `MAX_FAILURES` or
/// more the peer is locked out until `now + LOCKOUT_NANOS`.
pub open spec fn after_failure(prev: Option<Attempts>, now: u128) -> Attempts {
    let a = match prev {
        Some(a) => a,
        None => Attempts { failures: 0, last_failure: now, locked_until: None },
    };
    let a = match a.locked_until {
        Some(until) => if until <= now {
            Attempts { failures: 0, last_failure: a.last_failure, locked_until: None }
        } else {
            a
        },
        None => a,
    };
    let failures = (a.failures + 1) as u32;
    Attempts {
        failures,
        last_failure: now,
        locked_until: if failures >= MAX_FAILURES {
            Some((now + LOCKOUT_NANOS) as u128)
        } else {
            a.locked_until
        },
    }
}

/// Recording a failure at `now` does not overflow the count.
pub open spec fn failure_fits(prev: Option<Attempts>, now: u128) -> bool {
    match prev {
        Some(a) => (a.locked_until matches Some(until) && until <= now) || a.failures < u32::MAX,
        None => true,
    }
}

/// An unlocked record has fewer than `MAX_FAILURES` failures.
pub open spec fn attempts_consistent(a: Attempts) -> bool {
    a.locked_until is None ==> a.failures < MAX_FAILURES
}

/// Per-peer failure throttle. The access code is short enough to guess with
/// unlimited attempts, so unlimited attempts are what it takes away.
pub struct Throttle {
    origin: Instant,
    peers: KeyedTable<Attempts>,
}

#[verifier::external_type_specification]
#[verifier::external_body]
pub struct ExInstant(Instant);

/// `Instant::now`. Nothing is stated of the reading.
#[verifier::external_body]
fn instant_now() -> Instant {
    Instant::now()
}

/// `Instant::elapsed` in whole nanoseconds. Trusted: a `Duration` holds at
/// most `u64::MAX` seconds and 999,999,999 nanoseconds, so the value is at
/// most `MAX_DURATION_NANOS`; nothing else is stated of the reading.
#[verifier::external_body]
fn nanos_since(origin: &Instant) -> (res: u128)
    ensures
        res <= MAX_DURATION_NANOS,
{
    origin.elapsed().as_nanos()
}

impl View for Throttle {
    type V = Map<Seq<char>, Attempts>;

    closed spec fn view(&self) -> Map<Seq<char>, Attempts> {
        self.peers@
    }
}

impl Throttle {
    /// The table is consistent and no unlocked peer has reached the limit.
    pub closed spec fn wf(self) -> bool {
        &&& self.peers.wf()
        &&& forall|k: Seq<char>| #[trigger]
            self.peers@.dom().contains(k) ==> attempts_consistent(self.peers@[k])
    }

    /// A throttle that knows of no failure.
    pub fn new() -> (res: Self)
        ensures
            res.wf(),
            res@ == Map::<Seq<char>, Attempts>::empty(),
    {
        Throttle { origin: instant_now(), peers: KeyedTable::new() }
    }

    /// Forgets stale records, then tells whether `peer` may attempt a
    /// request at `now`.
    pub fn allowed_at(&mut self, peer: &str, now: u128) -> (res: bool)
        requires
            old(self).wf(),
        ensures
            final(self).wf(),
            final(self)@ == relevant_peers(old(self)@, now),
            res == may_attempt(final(self)@, peer@, now),
            res ==> failure_fits(final(self)@.get(peer@), now),
    {
        let keep = |a: &Attempts| -> (b: bool)
            ensures
                b == attempts_relevant(*a, now),
            {
                let locked = match a.locked_until {
                    Some(until) => until > now,
                    None => false,
                };
                let since: u128 = if now >= a.last_failure {
                    now - a.last_failure
                } else {
                    0
                };
                locked || since < FAILURE_TTL_NANOS
            };
        self.peers.retain(keep, Ghost(|a: Attempts| attempts_relevant(a, now)));
        let key = peer.to_owned();
        match self.peers.get(&key) {
            Some(a) => match a.locked_until {
                Some(until) => until <= now,
                None => true,
            },
            None => true,
        }
    }

    /// Whether a failure of `peer` at `now` can be counted without overflow.
    pub fn failure_fits_at(&self, peer: &str, now: u128) -> (res: bool)
        requires
            self.wf(),
        ensures
            res == failure_fits(self@.get(peer@), now),
    {
        let key = peer.to_owned();
        match self.peers.get(&key) {
            Some(a) => match a.locked_until {
                Some(until) => until <= now || a.failures < u32::MAX,
                None => a.failures < u32::MAX,
            },
            None => true,
        }
    }

    /// Counts a failed attempt of `peer` at `now`.
    pub fn record_failure_at(&mut self, peer: &str, now: u128)
        requires
            old(self).wf(),
            now <= MAX_DURATION_NANOS,
            failure_fits(old(self)@.get(peer@), now),
        ensures
            final(self).wf(),
            final(self)@ == old(self)@.insert(peer@, after_failure(old(self)@.get(peer@), now)),
    {
        let key = peer.to_owned();
        let mut a = match self.peers.get(&key) {
            Some(a) => a,
            None => Attempts { failures: 0, last_failure: now, locked_until: None },
        };
        match a.locked_until {
            Some(until) => {
                if until <= now {
                    a = Attempts { failures: 0, last_failure: a.last_failure, locked_until: None };
                }
            },
            None => {},
        }
        let failures = a.failures + 1;
        let locked_until = if failures >= MAX_FAILURES {
            Some(now + LOCKOUT_NANOS)
        } else {
            a.locked_until
        };
        let next = Attempts { failures, last_failure: now, locked_until };
        assert(next == after_failure(old(self)@.get(peer@), now));
        self.peers.insert(key, next);
    }

    /// Forgets every failure of `peer`.
    pub fn record_success(&mut self, peer: &str)
        requires
            old(self).wf(),
        ensures
            final(self).wf(),
            final(self)@ == old(self)@.remove(peer@),
    {
        let key = peer.to_owned();
        self.peers.remove(&key);
    }

    /// The current time on the throttle's clock, in nanoseconds.
    pub fn now(&self) -> (res: u128)
        ensures
            res <= MAX_DURATION_NANOS,
    {
        nanos_since(&self.origin)
    }

    /// Whether `peer` may attempt a request now.
    pub fn allowed(&mut self, peer: &str) -> (res: bool)
        requires
            old(self).wf(),
        ensures
            final(self).wf(),
            exists|now: u128|
                final(self)@ == relevant_peers(old(self)@, now) && res == may_attempt(
                    final(self)@,
                    peer@,
                    now,
                ),
    {
        let now = self.now();
        self.allowed_at(peer, now)
    }

    /// Counts a failed attempt of `peer` now. A count that cannot grow any
    /// further (`u32::MAX` failures inside one lockout) is left as it is.
    pub fn record_failure(&mut self, peer: &str)
        requires
            old(self).wf(),
        ensures
            final(self).wf(),
            exists|now: u128|
                if failure_fits(old(self)@.get(peer@), now) {
                    final(self)@ == old(self)@.insert(peer@, after_failure(old(self)@.get(peer@), now))
                } else {
                    final(self)@ == old(self)@
                },
    {
        let now = self.now();
        if self.failure_fits_at(peer, now) {
            self.record_failure_at(peer, now);
        }
    }
}

impl Default for Throttle {
    fn default() -> (res: Self)
        ensures
            res.wf(),
            res@ == Map::<Seq<char>, Attempts>::empty(),
    {
        Throttle::new()
    }
}


// ---------------------------------------------------------------------------
// Laws
// ---------------------------------------------------------------------------

proof fn lemma_hex_digit_injective(x: int, y: int)
    requires
        0 <= x < 16,
        0 <= y < 16,
        hex_digit(x) == hex_digit(y),
    ensures
        x == y,
{
    let cx: int = if x < 10 { 48 + x } else { 87 + x };
    let cy: int = if y < 10 { 48 + y } else { 87 + y };
    assert(hex_digit(x) == cx as char);
    assert(hex_digit(y) == cy as char);
    assert((cx as char) as int == cx);
    assert((cy as char) as int == cy);
}

/// Hex encoding loses nothing: equal hex text means equal bytes.
pub proof fn hex_is_injective(a: Seq<u8>, b: Seq<u8>)
    requires
        hex_text(a) == hex_text(b),
    ensures
        a == b,
{
    assert(hex_text(a).len() == 2 * a.len());
    assert(hex_text(b).len() == 2 * b.len());
    assert forall|i: int| 0 <= i < a.len() implies a[i] == b[i] by {
        assert(hex_text(a)[2 * i] == hex_text(b)[2 * i]);
        assert(hex_text(a)[2 * i + 1] == hex_text(b)[2 * i + 1]);
        assert((2 * i) / 2 == i && (2 * i) % 2 == 0);
        assert((2 * i + 1) / 2 == i && (2 * i + 1) % 2 == 1);
        let (ha, la, hb, lb) = ((a[i] / 16) as int, (a[i] % 16) as int, (b[i] / 16) as int, (
        b[i] % 16) as int);
        let (xa, xb) = (a[i] as int, b[i] as int);
        assert(0 <= xa < 256 && 0 <= xb < 256);
        assert(ha == xa / 16 && la == xa % 16 && hb == xb / 16 && lb == xb % 16);
        assert(0 <= ha < 16 && 0 <= la < 16 && 0 <= hb < 16 && 0 <= lb < 16);
        assert(hex_text(a)[2 * i] == hex_digit(ha));
        assert(hex_text(b)[2 * i] == hex_digit(hb));
        assert(hex_text(a)[2 * i + 1] == hex_digit(la));
        assert(hex_text(b)[2 * i + 1] == hex_digit(lb));
        lemma_hex_digit_injective(ha, hb);
        lemma_hex_digit_injective(la, lb);
        assert(a[i] == 16 * ha + la);
        assert(b[i] == 16 * hb + lb);
    }
    assert(a =~= b);
}

/// A nonce that was accepted is refused on every later call while its
/// timestamp is still inside the window, whatever timestamp the later call
/// carries.
pub proof fn accepted_nonce_is_refused_while_fresh(
    seen: Map<Seq<char>, i64>,
    nonce: Seq<char>,
    ts: i64,
    now: i64,
    later_ts: i64,
    later: i64,
)
    requires
        seen.dom().finite(),
        accept_outcome(seen, nonce, ts, now).1,
        nonce_fresh(ts, later),
    ensures
        !accept_outcome(accept_outcome(seen, nonce, ts, now).0, nonce, later_ts, later).1,
{
    let after = accept_outcome(seen, nonce, ts, now).0;
    assert(after.dom().contains(nonce) && after[nonce] == ts);
    assert(fresh_nonces(after, later).dom().contains(nonce));
}

/// The failure record after `n` failures at one instant `now`, from none.
pub open spec fn repeated_failures(n: nat, now: u128) -> Option<Attempts>
    decreases n,
{
    if n == 0 {
        None
    } else {
        Some(after_failure(repeated_failures((n - 1) as nat, now), now))
    }
}

proof fn lemma_repeated_failures(n: nat, now: u128)
    requires
        1 <= n <= MAX_FAILURES,
        now <= MAX_DURATION_NANOS,
    ensures
        repeated_failures(n, now) == Some(
            Attempts {
                failures: n as u32,
                last_failure: now,
                locked_until: if n >= MAX_FAILURES {
                    Some((now + LOCKOUT_NANOS) as u128)
                } else {
                    None
                },
            },
        ),
    decreases n,
{
    if n > 1 {
        lemma_repeated_failures((n - 1) as nat, now);
        let prev = repeated_failures((n - 1) as nat, now);
        assert(prev.unwrap().locked_until is None);
        assert(prev.unwrap().failures == (n - 1) as u32);
    } else {
        assert(repeated_failures(0, now) is None);
    }
    assert(repeated_failures(n, now) == Some(
        after_failure(repeated_failures((n - 1) as nat, now), now),
    ));
}

/// Ten failures of a peer lock it out: from no record, `MAX_FAILURES`
/// failures at `now` leave a record that refuses the peer at every moment
/// before `now + LOCKOUT_NANOS`, and that record is still kept then.
pub proof fn max_failures_lock_the_peer_out(
    peers: Map<Seq<char>, Attempts>,
    peer: Seq<char>,
    now: u128,
    later: u128,
)
    requires
        now <= MAX_DURATION_NANOS,
        now <= later < now + LOCKOUT_NANOS,
    ensures
        ({
            let locked = peers.insert(peer, repeated_failures(MAX_FAILURES as nat, now).unwrap());
            &&& relevant_peers(locked, later).dom().contains(peer)
            &&& !may_attempt(relevant_peers(locked, later), peer, later)
        }),
{
    lemma_repeated_failures(MAX_FAILURES as nat, now);
    let locked = peers.insert(peer, repeated_failures(MAX_FAILURES as nat, now).unwrap());
    assert(attempts_relevant(locked[peer], later));
    assert(relevant_peers(locked, later).dom().contains(peer));
}

/// One failure short of the limit does not lock a peer out: `MAX_FAILURES
/// - 1` failures from no record leave the peer free to try again.
pub proof fn fewer_failures_do_not_lock(peers: Map<Seq<char>, Attempts>, peer: Seq<char>, now: u128, later: u128)
    requires
        now <= MAX_DURATION_NANOS,
    ensures
        may_attempt(
            relevant_peers(
                peers.insert(peer, repeated_failures((MAX_FAILURES - 1) as nat, now).unwrap()),
                later,
            ),
            peer,
            later,
        ),
{
    lemma_repeated_failures((MAX_FAILURES - 1) as nat, now);
}

/// A lockout touches only the peer that failed: recording anything for
/// `peer` leaves every other peer's answer unchanged.
pub proof fn lockout_is_per_peer(
    peers: Map<Seq<char>, Attempts>,
    peer: Seq<char>,
    record: Attempts,
    other: Seq<char>,
    now: u128,
)
    requires
        other != peer,
    ensures
        may_attempt(relevant_peers(peers.insert(peer, record), now), other, now) == may_attempt(
            relevant_peers(peers, now),
            other,
            now,
        ),
{
}

/// A success clears the slate: after it the peer may try again at once.
pub proof fn success_forgets_the_peer(peers: Map<Seq<char>, Attempts>, peer: Seq<char>, now: u128)
    ensures
        may_attempt(relevant_peers(peers.remove(peer), now), peer, now),
{
}

} // verus!
