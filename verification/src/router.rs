//! Allowed-IP routing: longest-prefix match from destination addresses to
//! peers, and validation of the inner source address of decrypted packets.

use vstd::prelude::*;

use crate::bytes::{be_u128_of, be_u32_of, read_be_u128, read_be_u32};

verus! {

/// One allowed-IP prefix.  IPv4 addresses live in the low 32 bits.
#[derive(Clone, Copy, Debug, PartialEq, Eq, Structural)]
pub struct IpPrefix {
    pub is_v6: bool,
    pub addr: u128,
    pub len: u8,
}

impl IpPrefix {
    /// The prefix length fits its address family.
    pub open spec fn wf(self) -> bool {
        if self.is_v6 {
            self.len <= 128
        } else {
            self.len <= 32 && self.addr < 0x1_0000_0000u128
        }
    }

    /// Whether `ip` of family `is_v6` lies inside this prefix.
    pub open spec fn spec_covers(self, is_v6: bool, ip: u128) -> bool {
        self.is_v6 == is_v6 && {
            let width: u128 = if self.is_v6 {
                128
            } else {
                32
            };
            self.len == 0 || (self.len <= width && (ip >> ((width - self.len) as u128)) == (
            self.addr >> ((width - self.len) as u128)))
        }
    }

    /// Whether `ip` of family `is_v6` lies inside this prefix.
    pub fn covers(&self, is_v6: bool, ip: u128) -> (r: bool)
        requires
            self.wf(),
        ensures
            r == self.spec_covers(is_v6, ip),
    {
        if self.is_v6 != is_v6 {
            return false;
        }
        let width: u128 = if self.is_v6 {
            128
        } else {
            32
        };
        if self.len == 0 {
            return true;
        }
        let shift: u128 = width - (self.len as u128);
        (ip >> shift) == (self.addr >> shift)
    }
}

/// An address parsed out of a plaintext IP packet.
#[derive(Clone, Copy, Debug, PartialEq, Eq, Structural)]
pub struct InnerAddr {
    pub is_v6: bool,
    pub ip: u128,
}

/// The source address of a plaintext IPv4 or IPv6 packet, by the version
/// nibble; `None` when the bytes are no plausible IP packet.
pub open spec fn spec_inner_source(p: Seq<u8>) -> Option<InnerAddr> {
    if p.len() >= 20 && p[0] >> 4 == 4 {
        Some(InnerAddr { is_v6: false, ip: be_u32_of(p.subrange(12, 16)) as u128 })
    } else if p.len() >= 40 && p[0] >> 4 == 6 {
        Some(InnerAddr { is_v6: true, ip: be_u128_of(p.subrange(8, 24)) })
    } else {
        None
    }
}

/// The destination address of a plaintext IPv4 or IPv6 packet.
pub open spec fn spec_inner_dest(p: Seq<u8>) -> Option<InnerAddr> {
    if p.len() >= 20 && p[0] >> 4 == 4 {
        Some(InnerAddr { is_v6: false, ip: be_u32_of(p.subrange(16, 20)) as u128 })
    } else if p.len() >= 40 && p[0] >> 4 == 6 {
        Some(InnerAddr { is_v6: true, ip: be_u128_of(p.subrange(24, 40)) })
    } else {
        None
    }
}

/// Parses the source address of a plaintext IP packet.
pub fn inner_source(p: &Vec<u8>) -> (r: Option<InnerAddr>)
    ensures
        r == spec_inner_source(p@),
{
    if p.len() >= 20 && p[0] >> 4 == 4 {
        Some(InnerAddr { is_v6: false, ip: read_be_u32(p, 12) as u128 })
    } else if p.len() >= 40 && p[0] >> 4 == 6 {
        Some(InnerAddr { is_v6: true, ip: read_be_u128(p, 8) })
    } else {
        None
    }
}

/// Parses the destination address of a plaintext IP packet.
pub fn inner_dest(p: &Vec<u8>) -> (r: Option<InnerAddr>)
    ensures
        r == spec_inner_dest(p@),
{
    if p.len() >= 20 && p[0] >> 4 == 4 {
        Some(InnerAddr { is_v6: false, ip: read_be_u32(p, 16) as u128 })
    } else if p.len() >= 40 && p[0] >> 4 == 6 {
        Some(InnerAddr { is_v6: true, ip: read_be_u128(p, 24) })
    } else {
        None
    }
}

/// The allowed-IP table: prefixes, each owned by a peer handle.
pub struct Router {
    entries: Vec<(IpPrefix, usize)>,
}

impl Router {
    /// The table's rows.
    pub closed spec fn table(self) -> Seq<(IpPrefix, usize)> {
        self.entries@
    }

    /// All prefixes are well-formed.
    pub open spec fn wf(self) -> bool {
        forall|i: int| 0 <= i < self.table().len() ==> (#[trigger] self.table()[i]).0.wf()
    }

    /// Row `i` exists and covers the address.
    pub open spec fn covers_at(self, i: int, is_v6: bool, ip: u128) -> bool {
        0 <= i < self.table().len() && self.table()[i].0.spec_covers(is_v6, ip)
    }

    /// Some row covers the address.
    pub open spec fn has_route(self, is_v6: bool, ip: u128) -> bool {
        exists|i: int| self.covers_at(i, is_v6, ip)
    }

    /// Row `i` covers the address and no covering row is longer.
    pub open spec fn best_at(self, i: int, is_v6: bool, ip: u128) -> bool {
        self.covers_at(i, is_v6, ip) && forall|j: int|
            #[trigger] self.covers_at(j, is_v6, ip) ==> self.table()[j].0.len
                <= self.table()[i].0.len
    }

    /// The peer `ip` may claim as an inner source address.
    pub open spec fn source_allowed(self, peer: usize, is_v6: bool, ip: u128) -> bool {
        exists|i: int| self.covers_at(i, is_v6, ip) && #[trigger] self.table()[i].1 == peer
    }

    /// An empty table.
    pub fn new() -> (r: Router)
        ensures
            r.wf(),
            r.table().len() == 0,
    {
        Router { entries: Vec::new() }
    }

    /// Adds one prefix for a peer.
    pub fn add_allowed_ip(&mut self, prefix: IpPrefix, peer: usize)
        requires
            old(self).wf(),
            prefix.wf(),
        ensures
            final(self).wf(),
            final(self).table() == old(self).table().push((prefix, peer)),
    {
        self.entries.push((prefix, peer));
    }

    /// Removes every row holding exactly this prefix for this peer.
    pub fn remove_allowed_ip(&mut self, prefix: IpPrefix, peer: usize)
        requires
            old(self).wf(),
        ensures
            final(self).wf(),
            forall|i: int|
                0 <= i < final(self).table().len() ==> #[trigger] final(self).table()[i] != (
                prefix,
                peer,
            ) && old(self).table().contains(final(self).table()[i]),
            forall|e: (IpPrefix, usize)|
                e != (prefix, peer) && old(self).table().contains(e) ==> final(self).table().contains(e),
    {
        let n = self.entries.len();
        let mut kept: Vec<(IpPrefix, usize)> = Vec::new();
        let mut i: usize = 0;
        while i < n
            invariant
                old(self).wf(),
                self.entries@ == old(self).entries@,
                n == self.entries@.len(),
                i <= n,
                forall|k: int|
                    0 <= k < kept@.len() ==> #[trigger] kept@[k] != (prefix, peer) && old(
                        self,
                    ).table().contains(kept@[k]),
                forall|j: int|
                    0 <= j < i && #[trigger] self.entries@[j] != (prefix, peer) ==> kept@.contains(
                        self.entries@[j],
                    ),
            decreases n - i,
        {
            let (pfx, p) = self.entries[i];
            if !(pfx == prefix && p == peer) {
                let ghost prev = kept@;
                kept.push((pfx, p));
                proof {
                    assert(self.entries@[i as int] == (pfx, p));
                    assert(old(self).table().contains(self.entries@[i as int]));
                    assert(kept@[prev.len() as int] == (pfx, p));
                    assert forall|j: int|
                        0 <= j < i + 1 && #[trigger] self.entries@[j] != (prefix, peer) implies kept@.contains(
                        self.entries@[j],
                    ) by {
                        if j < i {
                            let k = choose|k: int| 0 <= k < prev.len() && prev[k] == self.entries@[j];
                            assert(kept@[k] == self.entries@[j]);
                        }
                    }
                }
            }
            i = i + 1;
        }
        self.entries = kept;
        proof {
            assert forall|e: (IpPrefix, usize)|
                e != (prefix, peer) && old(self).table().contains(e) implies self.table().contains(
                e,
            ) by {
                let j = choose|j: int| 0 <= j < old(self).table().len() && old(self).table()[j] == e;
                assert(self.entries@.contains(old(self).entries@[j]));
            }
            assert forall|i2: int| 0 <= i2 < self.table().len() implies (
            #[trigger] self.table()[i2]).0.wf() by {
                let e = self.table()[i2];
                assert(self.table().contains(e));
                let j = choose|j: int| 0 <= j < old(self).table().len() && old(self).table()[j] == e;
            }
        }
    }

    /// The peer owning the longest prefix that covers the destination.
    pub fn route(&self, is_v6: bool, ip: u128) -> (r: Option<usize>)
        requires
            self.wf(),
        ensures
            r is Some == self.has_route(is_v6, ip),
            r matches Some(p) ==> exists|i: int|
                #[trigger] self.best_at(i, is_v6, ip) && self.table()[i].1 == p,
    {
        let n = self.entries.len();
        let mut best: Option<usize> = None;
        let mut best_len: u8 = 0;
        let ghost mut best_i: int = 0int;
        let mut i: usize = 0;
        while i < n
            invariant
                self.wf(),
                n == self.table().len(),
                i <= n,
                best is None ==> forall|j: int| 0 <= j < i ==> !self.covers_at(j, is_v6, ip),
                best matches Some(p) ==> self.covers_at(best_i, is_v6, ip) && self.table()[
                    best_i].1 == p && self.table()[best_i].0.len == best_len && (forall|j: int|
                    0 <= j < i && #[trigger] self.covers_at(j, is_v6, ip) ==> self.table()[j].0.len
                        <= best_len),
            decreases n - i,
        {
            let (pfx, p) = self.entries[i];
            proof {
                assert(self.table()[i as int] == (pfx, p));
            }
            if pfx.covers(is_v6, ip) {
                if best.is_none() || pfx.len > best_len {
                    best = Some(p);
                    best_len = pfx.len;
                    proof {
                        best_i = i as int;
                    }
                }
            }
            i = i + 1;
        }
        proof {
            if best is Some {
                assert(self.covers_at(best_i, is_v6, ip));
                assert(self.best_at(best_i, is_v6, ip));
            }
        }
        best
    }

    /// Whether `peer` may claim `addr` as an inner source.
    pub fn check_source(&self, peer: usize, addr: InnerAddr) -> (r: bool)
        requires
            self.wf(),
        ensures
            r == self.source_allowed(peer, addr.is_v6, addr.ip),
    {
        let n = self.entries.len();
        let mut i: usize = 0;
        while i < n
            invariant
                self.wf(),
                n == self.table().len(),
                i <= n,
                forall|j: int|
                    0 <= j < i ==> !(self.covers_at(j, addr.is_v6, addr.ip) && #[trigger] self.table()[j].1
                        == peer),
            decreases n - i,
        {
            let (pfx, p) = self.entries[i];
            proof {
                assert(self.table()[i as int] == (pfx, p));
            }
            if p == peer && pfx.covers(addr.is_v6, addr.ip) {
                proof {
                    assert(self.covers_at(i as int, addr.is_v6, addr.ip) && self.table()[i as int].1
                        == peer);
                }
                return true;
            }
            i = i + 1;
        }
        false
    }
}

} // verus!
