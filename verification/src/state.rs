//! Persistent settings and access codes: the values and the rules. Reading
//! and writing the settings file and the OS secure storage is left to the
//! application.

use vstd::prelude::*;
use crate::auth::{random_below, thread_rng};
use crate::text::push_char;

verus! {

/// Length of a generated access code: 32 unambiguous symbols per position,
/// so 12 give 60 bits.
pub const ACCESS_CODE_LEN: usize = 12;

/// A computer the user added by address.
pub struct ManualHost {
    pub name: String,
    pub address: String,
    pub mac: Option<String>,
}

/// User settings.
pub struct Settings {
    /// `"controller"`, `"host"` or `"both"`.
    pub mode: String,
    pub start_on_boot: bool,
    pub clipboard_sync: bool,
    pub tailscale_enabled: bool,
    /// `"auto"`, `"h264"`, `"hevc"` or `"av1"`.
    pub codec: String,
    pub bitrate_mbps: u32,
    pub fps: u32,
    /// `"auto"`, `"1080p"`, `"1440p"` or `"4k"`.
    pub resolution: String,
    pub hdr: bool,
    pub onboarded: bool,
    pub manual_hosts: Vec<ManualHost>,
    /// Access codes that older versions kept in the settings file, by host
    /// address. Read so they can be moved to secure storage; never written.
    pub legacy_host_codes: Vec<(String, String)>,
}

impl Default for Settings {
    fn default() -> (res: Self)
        ensures
            res.mode@ == "both"@,
            res.start_on_boot,
            res.clipboard_sync,
            res.tailscale_enabled,
            res.codec@ == "auto"@,
            res.bitrate_mbps == 40,
            res.fps == 60,
            res.resolution@ == "auto"@,
            !res.hdr,
            !res.onboarded,
            res.manual_hosts@.len() == 0,
            res.legacy_host_codes@.len() == 0,
    {
        Settings {
            mode: "both".to_owned(),
            start_on_boot: true,
            clipboard_sync: true,
            tailscale_enabled: true,
            codec: "auto".to_owned(),
            bitrate_mbps: 40,
            fps: 60,
            resolution: "auto".to_owned(),
            hdr: false,
            onboarded: false,
            manual_hosts: Vec::new(),
            legacy_host_codes: Vec::new(),
        }
    }
}

/// The secure-storage key under which a host's access code is kept.
pub open spec fn host_code_key_text(address: Seq<char>) -> Seq<char> {
    "host-code:"@ + address
}

/// The secure-storage key under which the access code of `address` is kept.
pub fn host_code_key(address: &str) -> (res: String)
    ensures
        res@ == host_code_key_text(address@),
{
    let mut key = "host-code:".to_owned();
    key.append(address);
    key
}

/// The first legacy code the settings hold for `address`, if any.
pub open spec fn legacy_code_of(codes: Seq<(String, String)>, address: Seq<char>) -> Option<Seq<char>>
    decreases codes.len(),
{
    if codes.len() == 0 {
        None
    } else if codes[0].0@ == address {
        Some(codes[0].1@)
    } else {
        legacy_code_of(codes.drop_first(), address)
    }
}

/// A code an older version left in the settings for `address`, if any.
pub fn legacy_code(settings: &Settings, address: &str) -> (res: Option<String>)
    ensures
        match legacy_code_of(settings.legacy_host_codes@, address@) {
            Some(c) => res matches Some(r) && r@ == c,
            None => res is None,
        },
{
    let wanted = address.to_owned();
    let codes = &settings.legacy_host_codes;
    let mut i: usize = 0;
    assert(codes@.skip(0) =~= codes@);
    while i < codes.len()
        invariant
            i <= codes@.len(),
            wanted@ == address@,
            codes@ == settings.legacy_host_codes@,
            legacy_code_of(codes@, address@) == legacy_code_of(codes@.skip(i as int), address@),
        decreases codes.len() - i,
    {
        proof {
            let rest = codes@.skip(i as int);
            assert(rest[0] == codes@[i as int]);
            assert(rest.drop_first() =~= codes@.skip(i + 1));
        }
        if codes[i].0 == wanted {
            let found = codes[i].1.clone();
            proof {
                assert(codes@.skip(i as int)[0] == codes@[i as int]);
                assert(codes@.skip(i as int)[0].0@ == address@);
                assert(found@ == codes@[i as int].1@);
                assert(legacy_code_of(codes@.skip(i as int), address@) == Some(found@));
            }
            return Some(found);
        }
        i = i + 1;
    }
    proof {
        assert(codes@.skip(i as int).len() == 0);
    }
    None
}

// ---------------------------------------------------------------------------
// Secrets in OS secure storage
// ---------------------------------------------------------------------------

/// The service name secrets are stored under.
pub const SERVICE: &'static str = "dev.nodedesk.app";

#[verifier::external_type_specification]
#[verifier::external_body]
pub struct ExKeyringEntry(keyring::Entry);

#[verifier::external_type_specification]
#[verifier::external_body]
pub struct ExKeyringError(keyring::Error);

/// `keyring::Entry::new`. Trusted; nothing is promised of the result, which
/// depends on the platform's credential store.
#[verifier::external_body]
fn keyring_entry(service: &str, user: &str) -> (res: Result<keyring::Entry, keyring::Error>) {
    keyring::Entry::new(service, user)
}

/// `keyring::Entry::set_password`. Trusted; nothing is promised of the
/// result, which depends on the credential store.
#[verifier::external_body]
fn keyring_set(entry: &keyring::Entry, value: &str) -> (res: Result<(), keyring::Error>) {
    entry.set_password(value)
}

/// `keyring::Entry::get_password`. Trusted; nothing is promised of the
/// result, which is whatever the credential store holds.
#[verifier::external_body]
fn keyring_get(entry: &keyring::Entry) -> (res: Result<String, keyring::Error>) {
    entry.get_password()
}

/// `keyring::Entry::delete_credential`. Trusted; nothing is promised of the
/// result, which depends on the credential store.
#[verifier::external_body]
fn keyring_delete(entry: &keyring::Entry) -> (res: Result<(), keyring::Error>) {
    entry.delete_credential()
}

/// Whether a keyring error is `keyring::Error::NoEntry`: there was nothing
/// stored. Trusted to tell that variant apart from the others.
#[verifier::external_body]
fn is_no_entry(e: &keyring::Error) -> (res: bool) {
    match e {
        keyring::Error::NoEntry => true,
        _ => false,
    }
}

/// The message of a keyring error (its `Display` form). Trusted; nothing is
/// promised of the text.
#[verifier::external_body]
fn keyring_message(e: &keyring::Error) -> (res: String) {
    e.to_string()
}

/// Where a secret is kept in OS secure storage: the service and the key.
pub fn secret_target(key: &str) -> (res: (String, String))
    ensures
        res.0@ == SERVICE@,
        res.1@ == key@,
{
    (SERVICE.to_owned(), key.to_owned())
}

/// Where the access code of a remote host is kept: the service and
/// `host-code:<address>`.
pub fn host_code_target(address: &str) -> (res: (String, String))
    ensures
        res.0@ == SERVICE@,
        res.1@ == host_code_key_text(address@),
{
    let key = host_code_key(address);
    secret_target(key.as_str())
}

/// Stores `value` at `target` (service, key) in OS secure storage. What the
/// store does with it is not known here.
pub fn store_secret_in(target: &(String, String), value: &str) -> (res: Result<(), String>) {
    match keyring_entry(target.0.as_str(), target.1.as_str()) {
        Ok(entry) => match keyring_set(&entry, value) {
            Ok(()) => Ok(()),
            Err(e) => Err(keyring_message(&e)),
        },
        Err(e) => Err(keyring_message(&e)),
    }
}

/// The secret at `target` (service, key), if one can be read.
pub fn read_secret_in(target: &(String, String)) -> (res: Option<String>) {
    match keyring_entry(target.0.as_str(), target.1.as_str()) {
        Ok(entry) => match keyring_get(&entry) {
            Ok(v) => Some(v),
            Err(_) => None,
        },
        Err(_) => None,
    }
}

/// The outcome of deleting a secret: nothing stored counts as deleted.
pub fn deletion_outcome(deleted: Result<(), String>, nothing_stored: bool) -> (res: Result<(), String>)
    ensures
        match deleted {
            Ok(()) => res is Ok,
            Err(m) => if nothing_stored {
                res is Ok
            } else {
                res matches Err(r) && r@ == m@
            },
        },
{
    match deleted {
        Ok(()) => Ok(()),
        Err(m) => if nothing_stored {
            Ok(())
        } else {
            Err(m)
        },
    }
}

/// Deletes the secret at `target` (service, key); that there was none is
/// no error.
pub fn delete_secret_in(target: &(String, String)) -> (res: Result<(), String>) {
    match keyring_entry(target.0.as_str(), target.1.as_str()) {
        Ok(entry) => match keyring_delete(&entry) {
            Ok(()) => deletion_outcome(Ok(()), false),
            Err(e) => {
                let missing = is_no_entry(&e);
                deletion_outcome(Err(keyring_message(&e)), missing)
            },
        },
        Err(e) => Err(keyring_message(&e)),
    }
}

/// Stores a secret under `key` in OS secure storage.
pub fn store_secret(key: &str, value: &str) -> (res: Result<(), String>) {
    store_secret_in(&secret_target(key), value)
}

/// The secret stored under `key`, if one can be read.
pub fn read_secret(key: &str) -> (res: Option<String>) {
    read_secret_in(&secret_target(key))
}

/// Deletes the secret stored under `key`; that there was none is no error.
pub fn delete_secret(key: &str) -> (res: Result<(), String>) {
    delete_secret_in(&secret_target(key))
}

/// The access code for a remote host, from OS secure storage.
pub fn host_code(address: &str) -> (res: Option<String>) {
    read_secret_in(&host_code_target(address))
}

/// Keeps the access code for a remote host in OS secure storage.
pub fn store_host_code(address: &str, code: &str) -> (res: Result<(), String>) {
    store_secret_in(&host_code_target(address), code)
}

/// Forgets the access code of a remote host.
pub fn forget_host_code(address: &str) -> (res: Result<(), String>) {
    delete_secret_in(&host_code_target(address))
}

/// The code to use for `address`: the stored one, else one an older version
/// left in the settings that could not be moved.
pub fn code_from(stored: Option<String>, settings: &Settings, address: &str) -> (res: Option<String>)
    ensures
        stored matches Some(c) ==> res matches Some(r) && r@ == c@,
        stored is None ==> match legacy_code_of(settings.legacy_host_codes@, address@) {
            Some(c) => res matches Some(r) && r@ == c,
            None => res is None,
        },
{
    match stored {
        Some(c) => Some(c),
        None => legacy_code(settings, address),
    }
}

/// The code chosen for an address: the one read from secure storage, if
/// any, else the first legacy code the settings hold for it.
pub open spec fn code_choice(stored: Option<Seq<char>>, codes: Seq<(String, String)>, address: Seq<char>) -> Option<Seq<char>> {
    match stored {
        Some(c) => Some(c),
        None => legacy_code_of(codes, address),
    }
}

/// The code for `address`, preferring secure storage but still honouring a
/// value the migration could not move (e.g. no keychain available). What
/// secure storage answers is not known here, so the result is the choice
/// for some answer of it.
pub fn code_for_host(settings: &Settings, address: &str) -> (res: Option<String>)
    ensures
        exists|stored: Option<Seq<char>>|
            #[trigger] code_choice(stored, settings.legacy_host_codes@, address@) == match res {
                Some(r) => Some(r@),
                None => None::<Seq<char>>,
            },
        legacy_code_of(settings.legacy_host_codes@, address@) matches Some(c) ==> res is Some,
        res is None ==> legacy_code_of(settings.legacy_host_codes@, address@) is None,
{
    let stored = host_code(address);
    let ghost stored_text = if stored is Some {
        Some(stored->0@)
    } else {
        None::<Seq<char>>
    };
    let res = code_from(stored, settings, address);
    proof {
        assert(code_choice(stored_text, settings.legacy_host_codes@, address@) == match res {
            Some(r) => Some(r@),
            None => None::<Seq<char>>,
        });
    }
    res
}

/// The settings other than the legacy codes are the same.
pub open spec fn same_but_codes(a: Settings, b: Settings) -> bool {
    &&& a.mode == b.mode
    &&& a.start_on_boot == b.start_on_boot
    &&& a.clipboard_sync == b.clipboard_sync
    &&& a.tailscale_enabled == b.tailscale_enabled
    &&& a.codec == b.codec
    &&& a.bitrate_mbps == b.bitrate_mbps
    &&& a.fps == b.fps
    &&& a.resolution == b.resolution
    &&& a.hdr == b.hdr
    &&& a.onboarded == b.onboarded
    &&& a.manual_hosts == b.manual_hosts
}

/// Every legacy code of `after` is one of `before`, in the same order: the
/// codes are a selection of those there were.
pub open spec fn kept_from(after: Seq<(String, String)>, before: Seq<(String, String)>) -> bool
    decreases before.len(),
{
    if before.len() == 0 {
        after.len() == 0
    } else {
        (after.len() > 0 && after.last() == before.last() && kept_from(
            after.drop_last(),
            before.drop_last(),
        )) || kept_from(after, before.drop_last())
    }
}

proof fn lemma_kept_from_empty(before: Seq<(String, String)>)
    ensures
        kept_from(Seq::empty(), before),
    decreases before.len(),
{
    if before.len() > 0 {
        lemma_kept_from_empty(before.drop_last());
    }
}

/// Moves the codes an older version left in the settings into secure
/// storage, dropping from the settings each one that was stored. Returns
/// whether there were any, so the caller rewrites the settings file then.
pub fn migrate_host_codes(settings: &mut Settings) -> (res: bool)
    ensures
        res == (old(settings).legacy_host_codes@.len() > 0),
        same_but_codes(*final(settings), *old(settings)),
        kept_from(final(settings).legacy_host_codes@, old(settings).legacy_host_codes@),
{
    if settings.legacy_host_codes.len() == 0 {
        return false;
    }
    let mut legacy: Vec<(String, String)> = Vec::new();
    std::mem::swap(&mut legacy, &mut settings.legacy_host_codes);
    let ghost before = legacy@;
    let mut kept: Vec<(String, String)> = Vec::new();
    let ghost mut i: int = 0;
    proof {
        assert(before.subrange(0, 0) =~= Seq::<(String, String)>::empty());
        lemma_kept_from_empty(Seq::<(String, String)>::empty());
        assert(legacy@ =~= before.subrange(0, before.len() as int));
    }
    while legacy.len() > 0
        invariant
            0 <= i <= before.len(),
            legacy@ == before.subrange(i, before.len() as int),
            kept_from(kept@, before.subrange(0, i)),
        decreases legacy.len(),
    {
        let ghost prefix = before.subrange(0, i + 1);
        let entry = legacy.remove(0);
        proof {
            assert(entry == before[i]);
            assert(prefix.drop_last() =~= before.subrange(0, i));
            assert(prefix.last() == entry);
        }
        let stored = store_host_code(entry.0.as_str(), entry.1.as_str());
        match stored {
            Ok(()) => {},
            Err(_) => {
                let ghost old_kept = kept@;
                kept.push(entry);
                proof {
                    assert(kept@.drop_last() =~= old_kept);
                }
            },
        }
        proof {
            assert(legacy@ =~= before.subrange(i + 1, before.len() as int));
            i = i + 1;
        }
    }
    proof {
        assert(before.subrange(0, before.len() as int) =~= before);
    }
    settings.legacy_host_codes = kept;
    true
}

/// The 32 symbols of generated codes: no `0`/`O` or `1`/`I` to confuse.
pub open spec fn code_alphabet() -> Seq<char> {
    seq![
        'A', 'B', 'C', 'D', 'E', 'F', 'G', 'H', 'J', 'K', 'L', 'M', 'N', 'P', 'Q', 'R',
        'S', 'T', 'U', 'V', 'W', 'X', 'Y', 'Z', '2', '3', '4', '5', '6', '7', '8', '9',
    ]
}

/// A random code of `len` symbols from `code_alphabet`.
pub fn random_code(len: usize) -> (res: String)
    ensures
        res@.len() == len,
        forall|i: int| 0 <= i < len ==> code_alphabet().contains(#[trigger] res@[i]),
{
    let alphabet: [char; 32] = [
        'A', 'B', 'C', 'D', 'E', 'F', 'G', 'H', 'J', 'K', 'L', 'M', 'N', 'P', 'Q', 'R',
        'S', 'T', 'U', 'V', 'W', 'X', 'Y', 'Z', '2', '3', '4', '5', '6', '7', '8', '9',
    ];
    assert(alphabet@ =~= code_alphabet());
    let mut rng = thread_rng();
    let mut out = String::new();
    let mut i: usize = 0;
    while i < len
        invariant
            i <= len,
            alphabet@ == code_alphabet(),
            out@.len() == i,
            forall|j: int| 0 <= j < i ==> code_alphabet().contains(#[trigger] out@[j]),
        decreases len - i,
    {
        let k = random_below(&mut rng, 32);
        let c = alphabet[k];
        assert(code_alphabet()[k as int] == c);
        push_char(&mut out, c);
        i = i + 1;
    }
    out
}

// ---------------------------------------------------------------------------
// Laws
// ---------------------------------------------------------------------------

/// No address has two legacy codes, as in the map the settings file holds.
pub open spec fn distinct_addresses(codes: Seq<(String, String)>) -> bool {
    forall|i: int, j: int|
        0 <= i < codes.len() && 0 <= j < codes.len() && i != j ==> (#[trigger] codes[i]).0@
            != (#[trigger] codes[j]).0@
}

proof fn lemma_kept_entries_come_from(after: Seq<(String, String)>, before: Seq<(String, String)>, i: int)
    requires
        kept_from(after, before),
        0 <= i < after.len(),
    ensures
        exists|j: int| 0 <= j < before.len() && #[trigger] before[j] == after[i],
    decreases before.len(),
{
    if after.len() > 0 && after.last() == before.last() && kept_from(after.drop_last(), before.drop_last()) {
        if i == after.len() - 1 {
            assert(before[before.len() - 1] == after[i]);
        } else {
            lemma_kept_entries_come_from(after.drop_last(), before.drop_last(), i);
            let j = choose|j: int| 0 <= j < before.drop_last().len() && #[trigger] before.drop_last()[j] == after.drop_last()[i];
            assert(before[j] == after[i]);
        }
    } else {
        lemma_kept_entries_come_from(after, before.drop_last(), i);
        let j = choose|j: int| 0 <= j < before.drop_last().len() && #[trigger] before.drop_last()[j] == after[i];
        assert(before[j] == after[i]);
    }
}

proof fn lemma_kept_keeps_distinct(after: Seq<(String, String)>, before: Seq<(String, String)>)
    requires
        kept_from(after, before),
        distinct_addresses(before),
    ensures
        distinct_addresses(after),
    decreases before.len(),
{
    if before.len() > 0 {
        let b = before.drop_last();
        assert(distinct_addresses(b)) by {
            assert forall|i: int, j: int|
                0 <= i < b.len() && 0 <= j < b.len() && i != j implies (#[trigger] b[i]).0@
                    != (#[trigger] b[j]).0@ by {
                assert(b[i] == before[i] && b[j] == before[j]);
            }
        }
        if after.len() > 0 && after.last() == before.last() && kept_from(after.drop_last(), b) {
            let a = after.drop_last();
            lemma_kept_keeps_distinct(a, b);
            assert forall|i: int, j: int|
                0 <= i < after.len() && 0 <= j < after.len() && i != j implies (#[trigger] after[i]).0@
                    != (#[trigger] after[j]).0@ by {
                let last = after.len() - 1;
                if i < last && j < last {
                    assert(after[i] == a[i] && after[j] == a[j]);
                } else {
                    let k = if i == last { j } else { i };
                    assert(after[k] == a[k]);
                    lemma_kept_entries_come_from(a, b, k);
                    let m = choose|m: int| 0 <= m < b.len() && #[trigger] b[m] == a[k];
                    assert(before[m] == after[k]);
                    assert(before[before.len() - 1] == after[last]);
                }
            }
        } else {
            lemma_kept_keeps_distinct(after, b);
        }
    }
}

/// Migrating codes to secure storage never makes two codes of one address:
/// the codes left in the settings are a selection of those there were, so
/// distinct addresses stay distinct.
pub proof fn migration_keeps_addresses_distinct(after: Seq<(String, String)>, before: Seq<(String, String)>)
    requires
        kept_from(after, before),
        distinct_addresses(before),
    ensures
        distinct_addresses(after),
{
    lemma_kept_keeps_distinct(after, before);
}

/// Generated codes are unambiguous and carry five bits per symbol: the
/// alphabet has 32 distinct symbols, all uppercase letters or digits, and
/// none of `0`, `O`, `1`, `I`.
pub proof fn access_codes_are_unambiguous()
    ensures
        code_alphabet().len() == 32,
        code_alphabet().no_duplicates(),
        forall|i: int|
            0 <= i < 32 ==> ('A' <= #[trigger] code_alphabet()[i] <= 'Z' || '0' <= code_alphabet()[i]
                <= '9'),
        !code_alphabet().contains('0'),
        !code_alphabet().contains('O'),
        !code_alphabet().contains('1'),
        !code_alphabet().contains('I'),
{
    let a = code_alphabet();
    assert forall|i: int, j: int| 0 <= i < a.len() && 0 <= j < a.len() && i != j implies a[i]
        != a[j] by {
        assert(a[i] as u32 != a[j] as u32);
    }
}

} // verus!
