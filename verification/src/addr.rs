//! Socket addresses of remote peers, and their wire encoding.
//!
//! An address is the identity of a remote node: an IPv4 or IPv6 address
//! together with a port. The sixteen octet slots are always present; an
//! IPv4 address occupies the first four and leaves the rest zero. On the
//! wire an address is a one-byte family tag (4 or 6), the sixteen octets,
//! and the port in big-endian order.

use vstd::prelude::*;
use crate::bytes::{u16_bytes, push_u16, read_u16, copy_range, lemma_u16_round_trip};

verus! {

/// Number of octet slots held for every address.
pub const ADDR_OCTETS: usize = 16;

/// Number of bytes of one encoded address.
pub const ADDR_ENC_LEN: usize = 19;

/// IP + port socket address of a peer.
#[derive(Debug, Clone, PartialEq, Eq, Hash)]
pub struct PeerAddress {
    /// Whether this is an IPv6 address; otherwise IPv4.
    pub v6: bool,
    /// The sixteen octet slots; an IPv4 address uses the first four.
    pub octets: Vec<u8>,
    /// The port number.
    pub port: u16,
}

/// Mathematical image of a [`PeerAddress`].
#[verifier::ext_equal]
pub struct AddrV {
    pub v6: bool,
    pub octets: Seq<u8>,
    pub port: u16,
}

impl View for PeerAddress {
    type V = AddrV;

    open spec fn view(&self) -> AddrV {
        AddrV { v6: self.v6, octets: self.octets@, port: self.port }
    }
}

/// A well-formed address holds exactly sixteen octet slots.
pub open spec fn wf_addr(a: AddrV) -> bool {
    a.octets.len() == ADDR_OCTETS
}

/// The wire bytes of one address: family tag, octets, port.
pub open spec fn addr_bytes(a: AddrV) -> Seq<u8> {
    seq![if a.v6 { 6u8 } else { 4u8 }] + a.octets + u16_bytes(a.port)
}

impl PeerAddress {
    pub open spec fn wf(&self) -> bool {
        wf_addr(self@)
    }

    /// An IPv4 address from its four octets and port.
    pub fn new_v4(a: u8, b: u8, c: u8, d: u8, port: u16) -> (r: PeerAddress)
        ensures
            r.wf(),
            !r@.v6,
            r@.octets[0] == a && r@.octets[1] == b && r@.octets[2] == c && r@.octets[3] == d,
            forall|k: int| 4 <= k < 16 ==> r@.octets[k] == 0,
            r@.port == port,
    {
        let mut octets: Vec<u8> = Vec::new();
        octets.push(a);
        octets.push(b);
        octets.push(c);
        octets.push(d);
        let mut j: usize = 4;
        while j < 16
            invariant
                4 <= j <= 16,
                octets@.len() == j,
                octets@[0] == a && octets@[1] == b && octets@[2] == c && octets@[3] == d,
                forall|k: int| 4 <= k < j ==> octets@[k] == 0,
            decreases 16 - j,
        {
            octets.push(0);
            j = j + 1;
        }
        PeerAddress { v6: false, octets, port }
    }

    /// An IPv6 address from its sixteen octets and port.
    pub fn new_v6(octets: Vec<u8>, port: u16) -> (r: PeerAddress)
        requires
            octets@.len() == ADDR_OCTETS,
        ensures
            r.wf(),
            r@ == (AddrV { v6: true, octets: octets@, port }),
    {
        PeerAddress { v6: true, octets, port }
    }

    /// The same address with another port.
    pub fn with_port(&self, port: u16) -> (r: PeerAddress)
        requires
            self.wf(),
        ensures
            r.wf(),
            r@ == (AddrV { v6: self@.v6, octets: self@.octets, port }),
    {
        PeerAddress { v6: self.v6, octets: self.octets.clone(), port }
    }

    /// A copy of this address.
    pub fn duplicate(&self) -> (r: PeerAddress)
        ensures
            r@ == self@,
    {
        let octets = crate::bytes::copy_range(&self.octets, 0, self.octets.len());
        proof {
            assert(octets@ =~= self.octets@);
        }
        let r = PeerAddress { v6: self.v6, octets, port: self.port };
        proof {
            assert(r@ =~= self@);
        }
        r
    }

    /// Whether two addresses are the same peer identity.
    pub fn same(&self, other: &PeerAddress) -> (r: bool)
        ensures
            r == (self@ == other@),
    {
        if self.v6 != other.v6 || self.port != other.port {
            proof {
                assert(self@ != other@);
            }
            return false;
        }
        let r = crate::bytes::bytes_eq(&self.octets, &other.octets);
        proof {
            if r {
                assert(self@ =~= other@);
            } else {
                assert(self@ != other@);
            }
        }
        r
    }
}

/// Appends the wire bytes of `a`.
pub fn push_addr(out: &mut Vec<u8>, a: &PeerAddress)
    requires
        a.wf(),
    ensures
        final(out)@ == old(out)@ + addr_bytes(a@),
{
    if a.v6 {
        out.push(6u8);
    } else {
        out.push(4u8);
    }
    crate::bytes::push_bytes(out, &a.octets);
    push_u16(out, a.port);
    assert(out@ =~= old(out)@ + addr_bytes(a@));
}

/// Reads the address encoded at offset `i`. Fails exactly when the
/// family tag there is neither 4 nor 6.
pub fn read_addr(b: &Vec<u8>, i: usize) -> (r: Option<PeerAddress>)
    requires
        i + ADDR_ENC_LEN <= b@.len(),
    ensures
        match r {
            Some(a) => a.wf() && b@.subrange(i as int, i + ADDR_ENC_LEN) == addr_bytes(a@),
            None => forall|av: AddrV|
                wf_addr(av) ==> b@.subrange(i as int, i + ADDR_ENC_LEN) != addr_bytes(av),
        },
{
    let blen = b.len();
    let tag = b[i];
    if tag != 4 && tag != 6 {
        proof {
            let s = b@.subrange(i as int, i + ADDR_ENC_LEN);
            assert forall|av: AddrV| wf_addr(av) implies s != addr_bytes(av) by {
                assert(addr_bytes(av)[0] == (if av.v6 { 6u8 } else { 4u8 }));
                assert(s[0] == b@[i as int]);
            }
        }
        return None;
    }
    let octets = copy_range(b, i + 1, 16);
    let port = read_u16(b, i + 17);
    let a = PeerAddress { v6: tag == 6, octets, port };
    proof {
        let s = b@.subrange(i as int, i + ADDR_ENC_LEN);
        let e = addr_bytes(a@);
        assert(e.len() == 19);
        assert forall|k: int| 0 <= k < 19 implies s[k] == e[k] by {
            if k == 0 {
            } else if k < 17 {
                assert(e[k] == a@.octets[k - 1]);
                assert(a@.octets[k - 1] == b@[i + k]);
            } else {
                crate::bytes::lemma_u16_bytes_inverse(b@.subrange(i + 17, i + 19));
                assert(e[k] == u16_bytes(a@.port)[k - 17]);
                assert(b@.subrange(i + 17, i + 19)[k - 17] == b@[i + k]);
            }
        }
        assert(s =~= e);
    }
    Some(a)
}

/// One encoding never equals another: the encoded bytes determine the
/// address.
pub proof fn lemma_addr_bytes_injective(a: AddrV, b: AddrV)
    requires
        wf_addr(a),
        wf_addr(b),
        addr_bytes(a) == addr_bytes(b),
    ensures
        a == b,
{
    let ea = addr_bytes(a);
    let eb = addr_bytes(b);
    assert(ea[0] == (if a.v6 { 6u8 } else { 4u8 }));
    assert(eb[0] == (if b.v6 { 6u8 } else { 4u8 }));
    assert(a.v6 == b.v6);
    assert forall|k: int| 0 <= k < 16 implies a.octets[k] == b.octets[k] by {
        assert(ea[k + 1] == a.octets[k]);
        assert(eb[k + 1] == b.octets[k]);
    }
    assert(a.octets =~= b.octets);
    assert(ea.subrange(17, 19) =~= u16_bytes(a.port));
    assert(eb.subrange(17, 19) =~= u16_bytes(b.port));
    lemma_u16_round_trip(a.port);
    lemma_u16_round_trip(b.port);
    assert(a.port == b.port);
    assert(a =~= b);
}

} // verus!
