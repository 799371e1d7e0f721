//! Network addresses.

use vstd::prelude::*;

verus! {

/// An address: its four or sixteen octets and its canonical text.
#[derive(Debug)]
pub struct Address {
    pub octets: Vec<u8>,
    pub text: String,
}

/// What an address holds.
pub struct AddressView {
    pub octets: Seq<u8>,
    pub text: Seq<char>,
}

impl View for Address {
    type V = AddressView;

    open spec fn view(&self) -> AddressView {
        AddressView { octets: self.octets@, text: self.text@ }
    }
}

pub open spec fn opt_address(a: Option<Address>) -> Option<AddressView> {
    match a {
        Some(x) => Some(x@),
        None => None,
    }
}

/// The address that a text denotes, if it denotes one.
pub uninterp spec fn parsed_address(text: Seq<char>) -> Option<AddressView>;

/// Calls `str::parse` into the address type that `ipnetwork::IpNetwork::new`
/// takes, and reads octets and text back through the network of prefix 0,
/// which exists for every address. The result follows from the text alone and
/// is named; an address has four octets (IPv4) or sixteen (IPv6).
#[verifier::external_body]
pub(crate) fn parse_address(text: &str) -> (r: Option<Address>)
    ensures
        opt_address(r) == parsed_address(text@),
        r matches Some(a) ==> a.octets@.len() == 4 || a.octets@.len() == 16,
{
    let net = text.parse().ok().and_then(|a| ipnetwork::IpNetwork::new(a, 0).ok());
    net.map(|n| match n {
        ipnetwork::IpNetwork::V4(v4) => Address {
            octets: v4.ip().octets().to_vec(),
            text: v4.ip().to_string(),
        },
        ipnetwork::IpNetwork::V6(v6) => Address {
            octets: v6.ip().octets().to_vec(),
            text: v6.ip().to_string(),
        },
    })
}

/// Four octets that the internet does not route: loopback, private,
/// link-local, unspecified, shared, protocol, documentation and benchmark
/// ranges. Of the IPv6 addresses, loopback and unspecified.
pub open spec fn is_private(o: Seq<u8>) -> bool {
    if o.len() == 4 {
        ||| o[0] == 127
        ||| o[0] == 10
        ||| o[0] == 172 && 16 <= o[1] <= 31
        ||| o[0] == 192 && o[1] == 168
        ||| o[0] == 169 && o[1] == 254
        ||| o == seq![0u8, 0, 0, 0]
        ||| o[0] == 100 && 64 <= o[1] <= 127
        ||| o[0] == 192 && o[1] == 0 && o[2] == 0
        ||| o[0] == 192 && o[1] == 0 && o[2] == 2
        ||| o[0] == 198 && (o[1] == 18 || o[1] == 19)
        ||| o[0] == 198 && o[1] == 51 && o[2] == 100
        ||| o[0] == 203 && o[1] == 0 && o[2] == 113
    } else {
        // ::1 and ::
        o.len() == 16 && o[15] <= 1 && forall|i: int| 0 <= i < 15 ==> o[i] == 0
    }
}

/// Whether the internet does not route the address: it then needs NAT
/// correction.
pub fn is_private_ip(ip: &Address) -> (r: bool)
    ensures
        r == is_private(ip.octets@),
{
    let o = &ip.octets;
    if o.len() == 4 {
        let zero: bool = o[0] == 0 && o[1] == 0 && o[2] == 0 && o[3] == 0;
        assert(zero == (o@ == seq![0u8, 0, 0, 0])) by {
            if zero {
                assert(o@ =~= seq![0u8, 0, 0, 0]);
            }
        }
        o[0] == 127 || o[0] == 10 || (o[0] == 172 && 16 <= o[1] && o[1] <= 31) || (o[0] == 192
            && o[1] == 168) || (o[0] == 169 && o[1] == 254) || zero || (o[0] == 100 && 64 <= o[1]
            && o[1] <= 127) || (o[0] == 192 && o[1] == 0 && o[2] == 0) || (o[0] == 192 && o[1] == 0
            && o[2] == 2) || (o[0] == 198 && (o[1] == 18 || o[1] == 19)) || (o[0] == 198 && o[1]
            == 51 && o[2] == 100) || (o[0] == 203 && o[1] == 0 && o[2] == 113)
    } else if o.len() == 16 {
        let mut i: usize = 0;
        while i < 15
            invariant
                i <= 15,
                o@.len() == 16,
                o@ == ip.octets@,
                forall|k: int| 0 <= k < i ==> o@[k] == 0,
            decreases 15 - i,
        {
            if o[i] != 0 {
                return false;
            }
            i = i + 1;
        }
        o[15] <= 1
    } else {
        false
    }
}

} // verus!
