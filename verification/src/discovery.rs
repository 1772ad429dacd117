//! LAN and Tailscale discovery: the beacon, reading the answers, the list of
//! hosts found, and the tailnet peers that count as hosts. Sockets, the
//! `tailscale` command and the probe of the agent port are left to the
//! application.

use vstd::prelude::*;
use vstd::utf8::encode_utf8;
use crate::text::{append_bytes, same_text};

verus! {

/// The UDP port discovery beacons go to.
pub const DISCOVERY_PORT: u16 = 47800;

/// The TCP port of the host agent.
pub const AGENT_PORT: u16 = 47801;

/// The text of a discovery beacon.
pub const MAGIC: &'static str = "NODEDESK_DISCOVER_V1";

/// A computer found on the network.
pub struct FoundHost {
    pub name: String,
    pub os: String,
    pub address: String,
    /// `"lan"`, `"tailscale"` or `"manual"`.
    pub via: String,
}

/// The bytes of a discovery beacon.
pub fn beacon() -> (res: Vec<u8>)
    ensures
        res@ == encode_utf8(MAGIC@),
{
    let mut out: Vec<u8> = Vec::new();
    append_bytes(&mut out, MAGIC.as_bytes());
    out
}

/// Whether a packet is a discovery beacon.
pub fn is_beacon(packet: &[u8]) -> (res: bool)
    ensures
        res == (packet@ == encode_utf8(MAGIC@)),
{
    let magic = MAGIC.as_bytes();
    if packet.len() != magic.len() {
        return false;
    }
    let mut i: usize = 0;
    while i < packet.len()
        invariant
            i <= packet@.len(),
            packet@.len() == magic@.len(),
            magic@ == encode_utf8(MAGIC@),
            forall|j: int| 0 <= j < i ==> packet@[j] == magic@[j],
        decreases packet.len() - i,
    {
        if packet[i] != magic[i] {
            return false;
        }
        i = i + 1;
    }
    proof {
        assert(packet@ =~= magic@);
    }
    true
}

/// What the JSON text `bytes` holds as a string under `key` at its top:
/// `None` when `bytes` is not JSON, `Some(None)` when no string is there.
pub uninterp spec fn json_text_field(bytes: Seq<u8>, key: Seq<char>) -> Option<Option<Seq<char>>>;

/// `serde_json::from_slice::<Value>`, and `Value::get(key)` on what it
/// parsed, keeping a string found there. Trusted: the result is a function
/// of the bytes and the key alone (named `json_text_field`).
#[verifier::external_body]
fn read_json_text(bytes: &[u8], key: &str) -> (res: Option<Option<String>>)
    ensures
        match (res, json_text_field(bytes@, key@)) {
            (None, None) => true,
            (Some(None), Some(None)) => true,
            (Some(Some(t)), Some(Some(u))) => t@ == u,
            _ => false,
        },
{
    match serde_json::from_slice::<serde_json::Value>(bytes) {
        Ok(v) => match v.get(key) {
            Some(serde_json::Value::String(s)) => Some(Some(s.clone())),
            _ => Some(None),
        },
        Err(_) => None,
    }
}

/// The text under `key`, or `default` when there is none.
pub open spec fn field_or(field: Option<Seq<char>>, default: Seq<char>) -> Seq<char> {
    match field {
        Some(t) => t,
        None => default,
    }
}

fn text_or(field: Option<String>, default: &str) -> (res: String)
    ensures
        res@ == field_or(match field {
            Some(t) => Some(t@),
            None => None,
        }, default@),
{
    match field {
        Some(t) => t,
        None => default.to_owned(),
    }
}

/// The text of an optional field as the parser gave it: `None` when the
/// answer was not JSON, `Some(None)` when no string was there.
pub open spec fn field_text(f: Option<Option<String>>) -> Option<Option<Seq<char>>> {
    match f {
        None => None,
        Some(None) => Some(None),
        Some(Some(t)) => Some(Some(t@)),
    }
}

/// The host named by the parsed `name` and `os` fields of an answer from
/// `address`: nothing when the answer was not JSON (`name` is `None`), else
/// named `Computer` and typed `unknown` where the fields hold no string.
pub open spec fn host_fields(name: Option<Option<Seq<char>>>, os: Option<Option<Seq<char>>>) -> Option<(Seq<char>, Seq<char>)> {
    match name {
        None => None,
        Some(n) => Some(
            (
                field_or(n, "Computer"@),
                field_or(
                    match os {
                        Some(o) => o,
                        None => None,
                    },
                    "unknown"@,
                ),
            ),
        ),
    }
}

/// The host described by the parsed fields of a beacon answer.
pub fn host_from_fields(name: Option<Option<String>>, os: Option<Option<String>>, address: String) -> (res: Option<FoundHost>)
    ensures
        match host_fields(field_text(name), field_text(os)) {
            None => res is None,
            Some((n, o)) => res matches Some(h) && h.name@ == n && h.os@ == o && h.address@
                == address@ && h.via@ == "lan"@,
        },
{
    let name = match name {
        None => {
            return None;
        },
        Some(n) => n,
    };
    let os = match os {
        Some(o) => o,
        None => None,
    };
    Some(
        FoundHost {
            name: text_or(name, "Computer"),
            os: text_or(os, "unknown"),
            address,
            via: "lan".to_owned(),
        },
    )
}

/// The host that answered a beacon from `address`: named and typed by the
/// `name` and `os` strings of its JSON answer (`Computer` and `unknown` when
/// missing); nothing when the answer is not JSON.
pub fn host_from_reply(reply: &[u8], address: String) -> (res: Option<FoundHost>)
    ensures
        match host_fields(json_text_field(reply@, "name"@), json_text_field(reply@, "os"@)) {
            None => res is None,
            Some((n, o)) => res matches Some(h) && h.name@ == n && h.os@ == o && h.address@
                == address@ && h.via@ == "lan"@,
        },
{
    let name = read_json_text(reply, "name");
    let os = read_json_text(reply, "os");
    proof {
        assert(field_text(name) == json_text_field(reply@, "name"@));
        assert(field_text(os) == json_text_field(reply@, "os"@));
    }
    host_from_fields(name, os, address)
}

/// No two hosts of a list share an address.
pub open spec fn distinct_addresses(hosts: Seq<FoundHost>) -> bool {
    forall|i: int, j: int|
        0 <= i < hosts.len() && 0 <= j < hosts.len() && i != j ==> (#[trigger] hosts[i]).address@
            != (#[trigger] hosts[j]).address@
}

/// Some host of the list has this address.
pub open spec fn has_address(hosts: Seq<FoundHost>, address: Seq<char>) -> bool {
    exists|i: int| 0 <= i < hosts.len() && (#[trigger] hosts[i]).address@ == address
}

/// The list with `host` added, unless a host with its address is there.
pub open spec fn with_host(hosts: Seq<FoundHost>, host: FoundHost) -> Seq<FoundHost> {
    if has_address(hosts, host.address@) {
        hosts
    } else {
        hosts.push(host)
    }
}

/// Adds a host to the list unless one with its address is there already.
pub fn add_found(found: &mut Vec<FoundHost>, host: FoundHost)
    ensures
        final(found)@ == with_host(old(found)@, host),
{
    let mut i: usize = 0;
    while i < found.len()
        invariant
            i <= found@.len(),
            found@ == old(found)@,
            forall|j: int| 0 <= j < i ==> (#[trigger] found@[j]).address@ != host.address@,
        decreases found.len() - i,
    {
        if same_text(found[i].address.as_str(), host.address.as_str()) {
            return;
        }
        i = i + 1;
    }
    found.push(host);
}

/// A peer from `tailscale status --json`.
pub struct TailscalePeer {
    pub host_name: String,
    pub ips: Vec<String>,
    pub online: bool,
}

/// The name and address a tailnet peer is listed under: its first address,
/// and its host name, or the address when the name is empty. Offline peers
/// and peers without an address are not listed.
pub open spec fn tailnet_entry(p: TailscalePeer) -> Option<(Seq<char>, Seq<char>)> {
    if p.online && p.ips@.len() > 0 {
        let ip = p.ips@[0]@;
        Some((if p.host_name@.len() == 0 { ip } else { p.host_name@ }, ip))
    } else {
        None
    }
}

/// The names and addresses of the listed peers, in order.
pub open spec fn tailnet_entries(peers: Seq<TailscalePeer>) -> Seq<(Seq<char>, Seq<char>)>
    decreases peers.len(),
{
    if peers.len() == 0 {
        Seq::empty()
    } else {
        let rest = tailnet_entries(peers.drop_last());
        match tailnet_entry(peers.last()) {
            Some(e) => rest.push(e),
            None => rest,
        }
    }
}

/// The tailnet peers that can be hosts, as found hosts of unknown OS.
pub fn tailscale_hosts(peers: Vec<TailscalePeer>) -> (res: Vec<FoundHost>)
    ensures
        res@.len() == tailnet_entries(peers@).len(),
        forall|i: int|
            0 <= i < res@.len() ==> ((#[trigger] res@[i]).name@, res@[i].address@)
                == tailnet_entries(peers@)[i] && res@[i].os@ == "unknown"@ && res@[i].via@
                == "tailscale"@,
{
    let mut out: Vec<FoundHost> = Vec::new();
    let mut i: usize = 0;
    while i < peers.len()
        invariant
            i <= peers@.len(),
            out@.len() == tailnet_entries(peers@.subrange(0, i as int)).len(),
            forall|k: int|
                0 <= k < out@.len() ==> ((#[trigger] out@[k]).name@, out@[k].address@)
                    == tailnet_entries(peers@.subrange(0, i as int))[k] && out@[k].os@ == "unknown"@
                    && out@[k].via@ == "tailscale"@,
        decreases peers.len() - i,
    {
        let p = &peers[i];
        let ghost prefix = peers@.subrange(0, i + 1);
        proof {
            assert(prefix.drop_last() =~= peers@.subrange(0, i as int));
            assert(prefix.last() == peers@[i as int]);
        }
        if p.online && p.ips.len() > 0 {
            let ip = p.ips[0].as_str().to_owned();
            let name = if crate::text::chars_of(p.host_name.as_str()).len() == 0 {
                ip.as_str().to_owned()
            } else {
                p.host_name.as_str().to_owned()
            };
            let ghost before = out@;
            out.push(FoundHost { name, os: "unknown".to_owned(), address: ip, via: "tailscale".to_owned() });
            proof {
                assert forall|k: int| 0 <= k < out@.len() implies ((#[trigger] out@[k]).name@, out@[k].address@)
                    == tailnet_entries(prefix)[k] && out@[k].os@ == "unknown"@ && out@[k].via@
                    == "tailscale"@ by {
                    if k < before.len() {
                        assert(out@[k] == before[k]);
                    }
                }
            }
        }
        i = i + 1;
    }
    proof {
        assert(peers@.subrange(0, peers@.len() as int) =~= peers@);
    }
    out
}

// ---------------------------------------------------------------------------
// Laws
// ---------------------------------------------------------------------------

/// A scan lists each address once: adding answers to a list without
/// repeated addresses never repeats one.
pub proof fn found_hosts_stay_distinct(hosts: Seq<FoundHost>, host: FoundHost)
    requires
        distinct_addresses(hosts),
    ensures
        distinct_addresses(with_host(hosts, host)),
        has_address(with_host(hosts, host), host.address@),
{
    let after = with_host(hosts, host);
    if !has_address(hosts, host.address@) {
        assert forall|i: int, j: int|
            0 <= i < after.len() && 0 <= j < after.len() && i != j implies (#[trigger] after[i]).address@
            != (#[trigger] after[j]).address@ by {
            if i < hosts.len() && j < hosts.len() {
                assert(after[i] == hosts[i] && after[j] == hosts[j]);
            } else if i < hosts.len() {
                assert(after[i] == hosts[i]);
            } else {
                assert(after[j] == hosts[j]);
            }
        }
        assert(after[hosts.len() as int] == host);
    }
}

} // verus!
