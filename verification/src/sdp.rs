//! Where media goes: the RTP endpoint that a session description names, and
//! the one that is used when it lies behind a NAT.

use crate::net::{Address, AddressView, is_private_ip, parse_address};
use crate::net;
use crate::text::{chars_of, has_prefix, parse_u16, split_on, split_tokens, string_of, trimmed, word_len};
use crate::text;
use vstd::prelude::*;
use vstd::slice::slice_subrange;

verus! {

/// What has been read of a description: connection address and audio port.
pub struct SdpScan {
    pub ip: Option<AddressView>,
    pub port: Option<nat>,
}

/// One line of a description read.
pub open spec fn sdp_step(s: SdpScan, line: Seq<char>) -> SdpScan {
    let l = text::trim(line);
    if text::starts_with(l, "c=IN IP4 "@) {
        match net::parsed_address(text::trim(l.skip("c=IN IP4 "@.len() as int))) {
            Some(a) => SdpScan { ip: Some(a), ..s },
            None => s,
        }
    } else if text::starts_with(l, "m=audio "@) && text::tokens(l).len() >= 2 {
        match text::parse_uint(text::tokens(l)[1], u16::MAX as nat) {
            Some(p) => SdpScan { port: Some(p), ..s },
            None => s,
        }
    } else {
        s
    }
}

/// Lines read until both are known.
pub open spec fn sdp_scan(ls: Seq<Seq<char>>, s: SdpScan) -> SdpScan
    decreases ls.len(),
{
    if ls.len() == 0 || (s.ip is Some && s.port is Some) {
        s
    } else {
        sdp_scan(ls.skip(1), sdp_step(s, ls[0]))
    }
}

/// The RTP endpoint that a description names.
pub open spec fn sdp_endpoint(sdp: Seq<char>) -> Option<(AddressView, nat)> {
    let s = sdp_scan(text::split_char(sdp, '\n'), SdpScan { ip: None, port: None });
    match (s.ip, s.port) {
        (Some(a), Some(p)) => if p > 0 {
            Some((a, p))
        } else {
            None
        },
        _ => None,
    }
}

pub open spec fn scan_view(ip: Option<Address>, port: Option<u16>) -> SdpScan {
    SdpScan {
        ip: net::opt_address(ip),
        port: match port {
            Some(p) => Some(p as nat),
            None => None,
        },
    }
}

/// The RTP endpoint of a description: the address of its connection line and
/// the port of its audio line.
pub fn extract_sdp_rtp_addr(sdp: &str) -> (r: Option<(Address, u16)>)
    ensures
        match r {
            Some((a, p)) => sdp_endpoint(sdp@) == Some((a@, p as nat)),
            None => sdp_endpoint(sdp@) is None,
        },
{
    let c = chars_of(sdp);
    let ls = split_on(c.as_slice(), '\n');
    let ghost all = text::views(ls@);
    let mut ip: Option<Address> = None;
    let mut port: Option<u16> = None;
    let mut i: usize = 0;
    assert(all.skip(0) =~= all);
    while i < ls.len() && !(ip.is_some() && port.is_some())
        invariant
            i <= ls@.len(),
            all == text::views(ls@),
            sdp_scan(all, scan_view(None, None)) == sdp_scan(all.skip(i as int), scan_view(ip, port)),
        decreases ls@.len() - i,
    {
        let line = trimmed(ls[i]);
        let ghost before = scan_view(ip, port);
        assert(all.skip(i as int)[0] == ls@[i as int]@);
        assert(all.skip(i as int).skip(1) =~= all.skip(i + 1));
        if has_prefix(line, "c=IN IP4 ") {
            let rest = slice_subrange(line, word_len("c=IN IP4 "), line.len());
            assert(rest@ =~= line@.skip("c=IN IP4 "@.len() as int));
            let text = string_of(trimmed(rest));
            if let Some(a) = parse_address(text.as_str()) {
                ip = Some(a);
            }
        } else if has_prefix(line, "m=audio ") {
            let w = split_tokens(line);
            if w.len() >= 2 {
                assert(text::views(w@)[1] == w@[1]@);
                if let Some(p) = parse_u16(w[1]) {
                    port = Some(p);
                }
            }
        }
        assert(scan_view(ip, port) == sdp_step(before, ls@[i as int]@));
        i = i + 1;
    }
    match (ip, port) {
        (Some(a), Some(p)) => if p > 0 {
            Some((a, p))
        } else {
            None
        },
        _ => None,
    }
}

/// The endpoint that is used: a private address gives way to the public one
/// seen on the signalling connection.
pub open spec fn reachable_endpoint(
    named: Option<(AddressView, nat)>,
    public_ip: Option<Seq<char>>,
) -> Option<(Seq<char>, nat)> {
    match named {
        Some((a, p)) => match public_ip {
            Some(ip) => if net::is_private(a.octets) {
                Some((ip, p))
            } else {
                Some((a.text, p))
            },
            None => Some((a.text, p)),
        },
        None => None,
    }
}

/// The endpoint of a leg: none is set in advance for a WebRTC peer, whose
/// address is learned from its own packets, nor without a description.
pub open spec fn leg_endpoint(
    webrtc: bool,
    sdp: Option<Seq<char>>,
    public_ip: Option<Seq<char>>,
) -> Option<(Seq<char>, nat)> {
    match sdp {
        Some(s) => if webrtc {
            None
        } else {
            reachable_endpoint(sdp_endpoint(s), public_ip)
        },
        None => None,
    }
}

/// The RTP endpoint of a leg, as far as it is known from signalling.
pub fn rtp_endpoint(webrtc: bool, sdp: &Option<String>, public_ip: &Option<String>) -> (r: Option<
    (String, u16),
>)
    ensures
        match r {
            Some((ip, p)) => leg_endpoint(webrtc, text::opt_string(*sdp), text::opt_string(*public_ip)) == Some(
                (ip@, p as nat),
            ),
            None => leg_endpoint(webrtc, text::opt_string(*sdp), text::opt_string(*public_ip)) is None,
        },
{
    if webrtc {
        return None;
    }
    let text = match sdp {
        Some(s) => s,
        None => {
            return None;
        },
    };
    match extract_sdp_rtp_addr(text.as_str()) {
        None => None,
        Some((addr, port)) => {
            if let Some(ip) = public_ip {
                if is_private_ip(&addr) {
                    return Some((ip.clone(), port));
                }
            }
            Some((addr.text, port))
        },
    }
}

// ── Laws ────────────────────────────────────────────────────────────────

/// Media never goes to a private address while the public one is known,
/// unless the public one is that address.
pub proof fn law_private_endpoint_is_replaced(
    named: (AddressView, nat),
    public_ip: Seq<char>,
)
    requires
        net::is_private(named.0.octets),
    ensures
        reachable_endpoint(Some(named), Some(public_ip)) == Some((public_ip, named.1)),
{
}

} // verus!
