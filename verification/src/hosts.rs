//! The host range of a CIDR block and the selection policy.
//!
//! A block's usable hosts form one contiguous run of addresses.  For v4 the
//! network and broadcast addresses are excluded unless the prefix length is
//! 31 or 32; for v6 every address of the block is a host.  The selection
//! policy then either keeps the whole run, caps it at `HARD_LIMIT`
//! addresses, or keeps only its two endpoints.

use vstd::prelude::*;
use crate::cidr::{IpAddress, Net};
use crate::HARD_LIMIT;

verus! {

/// How many of the address bits are host bits.
pub open spec fn spec_host_bits(n: Net) -> u128
    recommends
        n.wf(),
{
    if n.v6 {
        (128 - n.prefix) as u128
    } else {
        (32 - n.prefix) as u128
    }
}

/// A mask of ones over the host bits.
pub open spec fn spec_low_mask(n: Net) -> u128
    recommends
        n.wf(),
{
    if spec_host_bits(n) == 128 {
        u128::MAX
    } else {
        ((1u128 << spec_host_bits(n)) - 1) as u128
    }
}

/// The network address of the block: the base address with the host bits
/// cleared.
pub open spec fn spec_network(n: Net) -> u128
    recommends
        n.wf(),
{
    n.bits & !spec_low_mask(n)
}

/// The highest address of the block: the base address with the host bits
/// set (for v4 this is the broadcast address).
pub open spec fn spec_block_last(n: Net) -> u128
    recommends
        n.wf(),
{
    n.bits | spec_low_mask(n)
}

/// Whether the block's lowest and highest addresses are excluded from the
/// host range: only for v4 with a prefix length of at most 30.
pub open spec fn excludes_edges(n: Net) -> bool {
    !n.v6 && n.prefix <= 30
}

/// The first usable host address of the block.
pub open spec fn first_host(n: Net) -> u128
    recommends
        n.wf(),
{
    if excludes_edges(n) {
        (spec_network(n) + 1) as u128
    } else {
        spec_network(n)
    }
}

/// The last usable host address of the block.
pub open spec fn last_host(n: Net) -> u128
    recommends
        n.wf(),
{
    if excludes_edges(n) {
        (spec_block_last(n) - 1) as u128
    } else {
        spec_block_last(n)
    }
}

/// The addresses from `f` to `l` inclusive, in increasing order.
pub open spec fn range_seq(f: u128, l: u128) -> Seq<u128>
    recommends
        f <= l,
{
    Seq::new((l - f + 1) as nat, |i: int| (f + i) as u128)
}

/// The host range is well formed: its first address does not exceed its
/// last, and for v4 both fit in 32 bits.
pub proof fn lemma_host_order(n: Net)
    requires
        n.wf(),
    ensures
        first_host(n) <= last_host(n),
        !n.v6 ==> last_host(n) < 0x1_0000_0000u128,
        excludes_edges(n) ==> spec_network(n) + 2 <= spec_block_last(n),
{
    let b = n.bits;
    let hb = spec_host_bits(n);
    if spec_host_bits(n) == 128 {
        assert(b & !u128::MAX <= b | u128::MAX) by (bit_vector);
    } else {
        let m = ((1u128 << hb) - 1) as u128;
        assert((1u128 << hb) >= 1) by (bit_vector)
            requires
                hb < 128,
        ;
        if excludes_edges(n) {
            assert((b & !m) + 2 <= (b | m) && (b | m) < 0x1_0000_0000u128) by (bit_vector)
                requires
                    b < 0x1_0000_0000u128,
                    2 <= hb <= 32,
                    m == ((1u128 << hb) - 1) as u128,
            ;
        } else {
            assert((b & !m) <= (b | m)) by (bit_vector);
            if !n.v6 {
                assert((b | m) < 0x1_0000_0000u128) by (bit_vector)
                    requires
                        b < 0x1_0000_0000u128,
                        hb <= 2,
                        m == ((1u128 << hb) - 1) as u128,
                ;
            }
        }
    }
}

/// The addresses that one invocation produces, in order: the whole host
/// range in danger-zone all-mode, its first `HARD_LIMIT` addresses in plain
/// all-mode, and otherwise the first and last host (once, if they
/// coincide).
pub open spec fn selected_seq(n: Net, all: bool, danger_zone: bool) -> Seq<u128>
    recommends
        n.wf(),
{
    let f = first_host(n);
    let l = last_host(n);
    if all && danger_zone {
        range_seq(f, l)
    } else if all {
        if l - f + 1 > HARD_LIMIT {
            range_seq(f, (f + HARD_LIMIT - 1) as u128)
        } else {
            range_seq(f, l)
        }
    } else {
        if f == l {
            seq![f]
        } else {
            seq![f, l]
        }
    }
}

/// A bounded, never-empty run of addresses, kept whole or as its two
/// endpoints.  This is the produced sequence of one invocation.
#[derive(Clone, Copy, Debug)]
pub struct AddressSeq {
    /// The family all addresses of the sequence belong to.
    pub v6: bool,
    /// The lowest produced address.
    pub first: u128,
    /// The highest produced address.
    pub last: u128,
    /// True when only the two endpoints are produced rather than the whole
    /// run.
    pub endpoints_only: bool,
}

impl AddressSeq {
    /// The endpoints are ordered and fit the family.
    pub open spec fn wf(self) -> bool {
        self.first <= self.last && (!self.v6 ==> self.last < 0x1_0000_0000u128)
    }
}

impl View for AddressSeq {
    type V = Seq<u128>;

    open spec fn view(&self) -> Seq<u128> {
        if self.endpoints_only {
            if self.first == self.last {
                seq![self.first]
            } else {
                seq![self.first, self.last]
            }
        } else {
            range_seq(self.first, self.last)
        }
    }
}

/// Applies the family rules and the selection policy to a parsed block.
pub fn select_hosts(n: Net, all: bool, danger_zone: bool) -> (s: AddressSeq)
    requires
        n.wf(),
    ensures
        s.wf(),
        s.v6 == n.v6,
        s@ == selected_seq(n, all, danger_zone),
{
    let hb: u8 = if n.v6 {
        128 - n.prefix
    } else {
        32 - n.prefix
    };
    let sh: u128 = hb as u128;
    let mask: u128 = if hb == 128 {
        u128::MAX
    } else {
        proof {
            assert((1u128 << sh) >= 1) by (bit_vector)
                requires
                    sh < 128,
            ;
        }
        (1u128 << sh) - 1
    };
    assert(sh == spec_host_bits(n));
    assert(mask == spec_low_mask(n));
    let network: u128 = n.bits & !mask;
    let block_last: u128 = n.bits | mask;
    let first: u128;
    let last: u128;
    proof {
        lemma_host_order(n);
    }
    if !n.v6 && n.prefix <= 30 {
        first = network + 1;
        last = block_last - 1;
    } else {
        first = network;
        last = block_last;
    }
    assert(first == first_host(n) && last == last_host(n));
    let s = if all && danger_zone {
        AddressSeq { v6: n.v6, first, last, endpoints_only: false }
    } else if all {
        let cap: u128 = HARD_LIMIT as u128;
        let capped: u128 = if last - first >= cap {
            first + (cap - 1)
        } else {
            last
        };
        AddressSeq { v6: n.v6, first, last: capped, endpoints_only: false }
    } else {
        AddressSeq { v6: n.v6, first, last, endpoints_only: true }
    };
    proof {
        assert(s@ =~= selected_seq(n, all, danger_zone));
    }
    s
}

/// A forward-only cursor over an [`AddressSeq`], handing the addresses out
/// in increasing order, each exactly once.
pub struct HostCursor {
    /// The sequence being walked.
    pub desc: AddressSeq,
    /// The next address to hand out, when not yet done.
    pub cur: u128,
    /// True once every address has been handed out.
    pub done: bool,
}

impl HostCursor {
    /// The cursor stands on an address of its sequence.
    pub open spec fn wf(self) -> bool {
        &&& self.desc.wf()
        &&& !self.done ==> {
            &&& self.desc.first <= self.cur <= self.desc.last
            &&& self.desc.endpoints_only ==> (self.cur == self.desc.first || self.cur
                == self.desc.last)
        }
    }

    /// How many addresses have been handed out already.
    pub open spec fn pos(self) -> nat {
        if self.done {
            self.desc@.len()
        } else if !self.desc.endpoints_only {
            (self.cur - self.desc.first) as nat
        } else if self.cur == self.desc.first {
            0
        } else {
            1
        }
    }

    /// Hands out the next address of the sequence, or `None` once all have
    /// been produced.
    pub fn next(&mut self) -> (r: Option<IpAddress>)
        requires
            old(self).wf(),
        ensures
            final(self).wf(),
            final(self).desc == old(self).desc,
            old(self).pos() < old(self).desc@.len() ==> {
                &&& r == Some(
                    (IpAddress { v6: old(self).desc.v6, bits: old(self).desc@[old(self).pos() as int] }),
                )
                &&& final(self).pos() == old(self).pos() + 1
            },
            old(self).pos() >= old(self).desc@.len() ==> r is None && final(self).pos() == old(
                self,
            ).pos(),
    {
        if self.done {
            return None;
        }
        let v = self.cur;
        if v >= self.desc.last {
            self.done = true;
        } else if self.desc.endpoints_only {
            self.cur = self.desc.last;
        } else {
            self.cur = v + 1;
        }
        Some(IpAddress { v6: self.desc.v6, bits: v })
    }
}

impl AddressSeq {
    /// A cursor standing before the first address.
    pub fn iter(&self) -> (c: HostCursor)
        requires
            self.wf(),
        ensures
            c.wf(),
            c.desc == *self,
            c.pos() == 0,
    {
        HostCursor { desc: *self, cur: self.first, done: false }
    }
}

/// Whatever the mode, the addresses are produced in strictly increasing
/// numeric order.
pub proof fn lemma_selected_increasing(n: Net, all: bool, danger_zone: bool)
    requires
        n.wf(),
    ensures
        forall|i: int, j: int|
            0 <= i < j < selected_seq(n, all, danger_zone).len() ==> selected_seq(
                n,
                all,
                danger_zone,
            )[i] < selected_seq(n, all, danger_zone)[j],
{
    lemma_host_order(n);
}

/// When the prefix length is the family's maximum, the block holds exactly
/// one host: every mode produces that single address, and nothing else.
pub proof fn lemma_full_prefix_single_host(n: Net, all: bool, danger_zone: bool)
    requires
        n.wf(),
        n.prefix == if n.v6 { 128u8 } else { 32u8 },
    ensures
        selected_seq(n, all, danger_zone) == seq![n.bits],
{
    let b = n.bits;
    assert(spec_host_bits(n) == 0);
    assert((1u128 << 0u128) == 1) by (bit_vector);
    assert(spec_low_mask(n) == 0);
    assert((b & !0u128) == b && (b | 0u128) == b) by (bit_vector);
    assert(first_host(n) == b && last_host(n) == b);
    assert(selected_seq(n, all, danger_zone) =~= seq![b]);
}

} // verus!
