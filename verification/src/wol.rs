//! Wake-on-LAN: parsing MAC addresses and crafting the magic packet. Sending
//! it is left to the application.

use vstd::prelude::*;
use crate::numbers::{parse_unsigned, parse_unsigned_chars};
use crate::text::{chars_of, split_chars, split_on, texts};

verus! {

/// The pieces of a MAC address between `:` or `-` separators.
pub open spec fn mac_parts(mac: Seq<char>) -> Seq<Seq<char>> {
    split_on(mac, seq![':', '-'])
}

/// The six bytes of a MAC address written as six hexadecimal numbers below
/// 256 separated by `:` or `-`; `None` for anything else.
pub open spec fn parsed_mac(mac: Seq<char>) -> Option<Seq<u8>> {
    let parts = mac_parts(mac);
    if parts.len() == 6 && forall|i: int| 0 <= i < 6 ==> (#[trigger] parse_unsigned(parts[i], 16, 255)) is Some {
        Some(Seq::new(6, |i: int| parse_unsigned(parts[i], 16, 255).unwrap() as u8))
    } else {
        None
    }
}

/// Parses a MAC address such as `AA:BB:CC:DD:EE:FF` or `aa-bb-cc-dd-ee-ff`.
pub fn parse_mac(mac: &str) -> (res: Option<[u8; 6]>)
    ensures
        match parsed_mac(mac@) {
            Some(bytes) => res matches Some(a) && a@ == bytes,
            None => res is None,
        },
{
    let chars = chars_of(mac);
    let seps: Vec<char> = vec![':', '-'];
    proof {
        assert(seps@ =~= seq![':', '-']);
    }
    let parts = split_chars(&chars, &seps);
    let ghost want = mac_parts(mac@);
    if parts.len() != 6 {
        return None;
    }
    let mut out = [0u8; 6];
    let mut i: usize = 0;
    while i < 6
        invariant
            i <= 6,
            parts@.len() == 6,
            texts(parts@) == want,
            want == mac_parts(mac@),
            forall|j: int| 0 <= j < i ==> (#[trigger] parse_unsigned(want[j], 16, 255)) is Some && out@[j]
                == parse_unsigned(want[j], 16, 255).unwrap() as u8,
        decreases 6 - i,
    {
        proof {
            assert(texts(parts@)[i as int] == parts@[i as int]@);
        }
        match parse_unsigned_chars(&parts[i], 16, 255) {
            Some(v) => {
                out[i] = v as u8;
            },
            None => {
                return None;
            },
        }
        i = i + 1;
    }
    proof {
        assert(out@ =~= Seq::new(6, |j: int| parse_unsigned(want[j], 16, 255).unwrap() as u8));
    }
    Some(out)
}

/// The magic packet: six `0xFF` bytes, then the MAC address sixteen times.
pub open spec fn magic_packet(mac: Seq<u8>) -> Seq<u8> {
    Seq::new(102, |i: int| if i < 6 { 0xFFu8 } else { mac[(i - 6) % 6] })
}

/// Builds the Wake-on-LAN magic packet for `mac`.
pub fn build_packet(mac: [u8; 6]) -> (res: Vec<u8>)
    ensures
        res@ == magic_packet(mac@),
{
    let mut packet: Vec<u8> = vec![0xFFu8; 6];
    let mut round: usize = 0;
    while round < 16
        invariant
            round <= 16,
            mac@.len() == 6,
            packet@.len() == 6 + 6 * round,
            forall|i: int| 0 <= i < packet@.len() ==> packet@[i] == magic_packet(mac@)[i],
        decreases 16 - round,
    {
        let mut k: usize = 0;
        while k < 6
            invariant
                k <= 6,
                round < 16,
                mac@.len() == 6,
                packet@.len() == 6 + 6 * round + k,
                forall|i: int| 0 <= i < packet@.len() ==> packet@[i] == magic_packet(mac@)[i],
            decreases 6 - k,
        {
            let ghost at = packet@.len() as int;
            packet.push(mac[k]);
            proof {
                assert((at - 6) % 6 == k as int) by (nonlinear_arith)
                    requires
                        at == 6 + 6 * round + k,
                        k < 6,
                ;
            }
            k = k + 1;
        }
        round = round + 1;
    }
    assert(packet@ =~= magic_packet(mac@));
    packet
}

/// The packet that wakes the computer with the MAC address `mac`, or the
/// error for an address that does not parse. Broadcasting it is left to the
/// application.
pub fn wake_packet(mac: &str) -> (res: Result<Vec<u8>, String>)
    ensures
        match parsed_mac(mac@) {
            Some(m) => res matches Ok(p) && p@ == magic_packet(m),
            None => res matches Err(e) && e@ == "invalid MAC address"@,
        },
{
    match parse_mac(mac) {
        Some(m) => Ok(build_packet(m)),
        None => Err("invalid MAC address".to_owned()),
    }
}

} // verus!
