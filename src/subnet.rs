//! Typed IPv4 prefixes: a base address and a mask of /0, /8, /16, /24 or /32.
use vstd::prelude::*;
use crate::addr::{octet, lemma_address_of_octets};
use vstd::arithmetic::div_mod::{lemma_fundamental_div_mod, lemma_fundamental_div_mod_converse};

verus! {

/// The prefix lengths that a subnet may have.
#[derive(Debug, Clone, Copy, PartialEq, Eq, Structural)]
pub enum SubnetMask {
    Slash0,
    Slash8,
    Slash16,
    Slash24,
    Slash32,
}

impl SubnetMask {
    /// How many leading octets of the base are concrete.
    pub open spec fn prefix_octets(self) -> nat {
        match self {
            SubnetMask::Slash0 => 0,
            SubnetMask::Slash8 => 1,
            SubnetMask::Slash16 => 2,
            SubnetMask::Slash24 => 3,
            SubnetMask::Slash32 => 4,
        }
    }

    /// How many addresses a subnet of this mask holds: 2^(32 - prefix length).
    pub open spec fn block_size(self) -> nat {
        match self {
            SubnetMask::Slash0 => 0x1_0000_0000,
            SubnetMask::Slash8 => 0x100_0000,
            SubnetMask::Slash16 => 0x1_0000,
            SubnetMask::Slash24 => 0x100,
            SubnetMask::Slash32 => 1,
        }
    }

    /// The mask one octet finer, if any.
    pub open spec fn finer_spec(self) -> Option<SubnetMask> {
        match self {
            SubnetMask::Slash0 => Some(SubnetMask::Slash8),
            SubnetMask::Slash8 => Some(SubnetMask::Slash16),
            SubnetMask::Slash16 => Some(SubnetMask::Slash24),
            SubnetMask::Slash24 => Some(SubnetMask::Slash32),
            SubnetMask::Slash32 => None,
        }
    }

    /// The prefix length in bits.
    pub fn prefix_len(&self) -> (r: u8)
        ensures
            r == 8 * self.prefix_octets(),
    {
        match self {
            SubnetMask::Slash0 => 0,
            SubnetMask::Slash8 => 8,
            SubnetMask::Slash16 => 16,
            SubnetMask::Slash24 => 24,
            SubnetMask::Slash32 => 32,
        }
    }

    /// The number of addresses in a subnet of this mask.
    pub fn block_size_exec(&self) -> (r: u64)
        ensures
            r == self.block_size(),
    {
        match self {
            SubnetMask::Slash0 => 0x1_0000_0000,
            SubnetMask::Slash8 => 0x100_0000,
            SubnetMask::Slash16 => 0x1_0000,
            SubnetMask::Slash24 => 0x100,
            SubnetMask::Slash32 => 1,
        }
    }

    /// The mask one octet finer; `None` for /32.
    pub fn finer(&self) -> (r: Option<SubnetMask>)
        ensures
            r == self.finer_spec(),
    {
        match self {
            SubnetMask::Slash0 => Some(SubnetMask::Slash8),
            SubnetMask::Slash8 => Some(SubnetMask::Slash16),
            SubnetMask::Slash16 => Some(SubnetMask::Slash24),
            SubnetMask::Slash24 => Some(SubnetMask::Slash32),
            SubnetMask::Slash32 => None,
        }
    }
}

/// A base address is aligned to a mask when its low (32 - prefix length) bits are zero.
pub open spec fn aligned(base: u32, mask: SubnetMask) -> bool {
    base as nat % mask.block_size() == 0
}

/// An aligned base has zero in every octet after the concrete ones.
pub proof fn lemma_aligned_octets(base: u32, mask: SubnetMask)
    requires
        aligned(base, mask),
    ensures
        forall|i: int| mask.prefix_octets() <= i < 4 ==> #[trigger] octet(base, i) == 0,
{
    lemma_address_of_octets(base);
    let o0 = octet(base, 0) as int;
    let o1 = octet(base, 1) as int;
    let o2 = octet(base, 2) as int;
    let o3 = octet(base, 3) as int;
    assert(base as int == o0 * 0x100_0000 + o1 * 0x1_0000 + o2 * 256 + o3);
    match mask {
        SubnetMask::Slash0 => {
            assert(base == 0);
            assert(o0 == 0 && o1 == 0 && o2 == 0 && o3 == 0);
        }
        SubnetMask::Slash8 => {
            assert((o0 * 0x100_0000 + o1 * 0x1_0000 + o2 * 256 + o3) % 0x100_0000
                == o1 * 0x1_0000 + o2 * 256 + o3) by (nonlinear_arith)
                requires 0 <= o1 < 256, 0 <= o2 < 256, 0 <= o3 < 256;
        }
        SubnetMask::Slash16 => {
            assert((o0 * 0x100_0000 + o1 * 0x1_0000 + o2 * 256 + o3) % 0x1_0000
                == o2 * 256 + o3) by (nonlinear_arith)
                requires 0 <= o2 < 256, 0 <= o3 < 256;
        }
        SubnetMask::Slash24 => {
            assert((o0 * 0x100_0000 + o1 * 0x1_0000 + o2 * 256 + o3) % 0x100 == o3)
                by (nonlinear_arith)
                requires 0 <= o3 < 256;
        }
        SubnetMask::Slash32 => {}
    }
}

/// An aligned base leaves room for the whole block below 2^32.
pub proof fn lemma_aligned_room(base: u32, mask: SubnetMask)
    requires
        aligned(base, mask),
    ensures
        base + mask.block_size() <= 0x1_0000_0000,
{
    lemma_aligned_octets(base, mask);
    lemma_address_of_octets(base);
    assert(octet(base, 0) < 256 && octet(base, 1) < 256 && octet(base, 2) < 256);
}

/// The base of the `i`-th child one octet finer than an aligned base.
pub proof fn lemma_child_aligned(base: u32, mask: SubnetMask, i: nat)
    requires
        aligned(base, mask),
        mask.finer_spec() is Some,
        i < 256,
    ensures
        base + i * mask.finer_spec()->0.block_size() < 0x1_0000_0000,
        aligned((base + i * mask.finer_spec()->0.block_size()) as u32, mask.finer_spec()->0),
{
    lemma_aligned_room(base, mask);
    let fs = mask.finer_spec()->0.block_size() as int;
    let bs = mask.block_size() as int;
    assert(bs == 256 * fs);
    assert(i * fs <= 255 * fs) by (nonlinear_arith)
        requires i < 256, fs > 0;
    let q = base as int / bs;
    lemma_fundamental_div_mod(base as int, bs);
    assert(base + i * fs == (q * 256 + i) * fs + 0) by (nonlinear_arith)
        requires base == bs * q + 0, bs == 256 * fs;
    lemma_fundamental_div_mod_converse(base + i * fs, fs, q * 256 + i, 0);
}

/// An IPv4 prefix whose base is aligned to its mask.
#[derive(Debug, Clone, Copy, PartialEq, Eq, Structural)]
pub struct Subnet {
    base: u32,
    mask: SubnetMask,
}

/// Why a subnet could not be built or read from text.
#[derive(Debug, Clone, Copy, PartialEq, Eq, Structural)]
pub enum SubnetParseError {
    /// The base has a non-zero bit below the prefix.
    InvalidBase,
    /// The text is not four dot-separated octets with trailing wildcards.
    MalformedSubnet,
}

impl Subnet {
    #[verifier::type_invariant]
    spec fn inv(self) -> bool {
        aligned(self.base, self.mask)
    }

    /// The base address.
    pub closed spec fn base_spec(self) -> u32 {
        self.base
    }

    /// The mask.
    pub closed spec fn mask_spec(self) -> SubnetMask {
        self.mask
    }

    /// Builds a subnet; fails when the base is not aligned to the mask.
    pub fn new(base: u32, mask: SubnetMask) -> (r: Result<Subnet, SubnetParseError>)
        ensures
            aligned(base, mask) <==> r is Ok,
            r matches Ok(s) ==> s.base_spec() == base && s.mask_spec() == mask,
            r matches Err(e) ==> e == SubnetParseError::InvalidBase,
    {
        let size = mask.block_size_exec();
        if (base as u64) % size == 0 {
            Ok(Subnet { base, mask })
        } else {
            Err(SubnetParseError::InvalidBase)
        }
    }

    /// The base address; every octet after the first `prefix length / 8` is zero.
    pub fn base_address(&self) -> (r: u32)
        ensures
            r == self.base_spec(),
            aligned(r, self.mask_spec()),
            forall|i: int| self.mask_spec().prefix_octets() <= i < 4 ==> #[trigger] octet(r, i) == 0,
    {
        proof {
            use_type_invariant(self);
            lemma_aligned_octets(self.base, self.mask);
        }
        self.base
    }

    /// The `i`-th subnet one octet finer, whose first free octet is `i`.
    pub open spec fn child_spec(self, i: nat) -> Option<(u32, SubnetMask)> {
        match self.mask_spec().finer_spec() {
            Some(f) => Some(((self.base_spec() + i * f.block_size()) as u32, f)),
            None => None,
        }
    }

    /// The `i`-th of the 256 subnets one octet finer; `None` for a /32.
    pub fn child(&self, i: u8) -> (r: Option<Subnet>)
        ensures
            r is None <==> self.mask_spec() == SubnetMask::Slash32,
            r matches Some(c) ==> self.child_spec(i as nat) == Some((c.base_spec(), c.mask_spec())),
    {
        proof {
            use_type_invariant(self);
        }
        match self.mask.finer() {
            None => None,
            Some(f) => {
                proof {
                    lemma_child_aligned(self.base, self.mask, i as nat);
                }
                let step = f.block_size_exec();
                let b = (self.base as u64 + (i as u64) * step) as u32;
                Some(Subnet { base: b, mask: f })
            }
        }
    }

    /// The 256 subnets one octet finer, in ascending order; none for a /32.
    pub fn iter_subnets(&self) -> (r: Vec<Subnet>)
        ensures
            self.mask_spec() == SubnetMask::Slash32 ==> r@.len() == 0,
            self.mask_spec() != SubnetMask::Slash32 ==> r@.len() == 256,
            forall|i: int| 0 <= i < r@.len() ==> self.child_spec(i as nat) == Some(
                (#[trigger] r@[i].base_spec(), r@[i].mask_spec()),
            ),
    {
        let mut out: Vec<Subnet> = Vec::new();
        if self.mask == SubnetMask::Slash32 {
            return out;
        }
        let mut i: u16 = 0;
        while i < 256
            invariant
                0 <= i <= 256,
                out@.len() == i,
                self.mask_spec() != SubnetMask::Slash32,
                forall|j: int| 0 <= j < out@.len() ==> self.child_spec(j as nat) == Some(
                    (#[trigger] out@[j].base_spec(), out@[j].mask_spec()),
                ),
            decreases 256 - i,
        {
            let c = self.child(i as u8);
            match c {
                Some(c) => out.push(c),
                None => {},
            }
            i = i + 1;
        }
        out
    }

    /// How many addresses the subnet holds.
    pub fn address_count(&self) -> (r: u64)
        ensures
            r == self.mask_spec().block_size(),
    {
        self.mask.block_size_exec()
    }

    /// The `i`-th address of the subnet in ascending numeric order.
    pub fn address_at(&self, i: u32) -> (r: u32)
        requires
            i < self.mask_spec().block_size(),
        ensures
            r == self.base_spec() + i,
    {
        proof {
            use_type_invariant(self);
            lemma_aligned_room(self.base, self.mask);
        }
        self.base + i
    }

    /// The whole address space, `x.x.x.x`.
    pub fn all() -> (r: Subnet)
        ensures
            r.base_spec() == 0,
            r.mask_spec() == SubnetMask::Slash0,
    {
        Subnet { base: 0, mask: SubnetMask::Slash0 }
    }

    /// The mask.
    pub fn mask(&self) -> (r: SubnetMask)
        ensures
            r == self.mask_spec(),
    {
        self.mask
    }
}

impl Default for Subnet {
    fn default() -> (r: Subnet)
        ensures
            r.base_spec() == 0,
            r.mask_spec() == SubnetMask::Slash0,
    {
        Subnet::all()
    }
}

} // verus!
