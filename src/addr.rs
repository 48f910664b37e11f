//! IPv4 addresses as 32-bit integers and their four octets.
use vstd::prelude::*;
use vstd::arithmetic::div_mod::lemma_fundamental_div_mod_converse;

verus! {

/// The octet at position `i` (0 is the most significant) of an address.
pub open spec fn octet(a: u32, i: int) -> u8 {
    if i == 0 {
        (a / 0x100_0000) as u8
    } else if i == 1 {
        ((a / 0x1_0000) % 256) as u8
    } else if i == 2 {
        ((a / 256) % 256) as u8
    } else {
        (a % 256) as u8
    }
}

/// The address whose octets are `o0.o1.o2.o3`.
pub open spec fn address_of(o0: u8, o1: u8, o2: u8, o3: u8) -> u32 {
    (o0 * 0x100_0000int + o1 * 0x1_0000int + o2 * 256int + o3) as u32
}

pub proof fn lemma_address_of_bounds(o0: u8, o1: u8, o2: u8, o3: u8)
    ensures
        0 <= o0 * 0x100_0000int + o1 * 0x1_0000int + o2 * 256int + o3 <= 0xFFFF_FFFFint,
{
    assert(0 <= o0 * 0x100_0000int <= 255 * 0x100_0000int) by (nonlinear_arith)
        requires 0 <= o0 <= 255;
    assert(0 <= o1 * 0x1_0000int <= 255 * 0x1_0000int) by (nonlinear_arith)
        requires 0 <= o1 <= 255;
    assert(0 <= o2 * 256int <= 255 * 256int) by (nonlinear_arith)
        requires 0 <= o2 <= 255;
}

/// Splitting an address into octets and joining them again are inverse.
pub proof fn lemma_octets_of_address(o0: u8, o1: u8, o2: u8, o3: u8)
    ensures
        octet(address_of(o0, o1, o2, o3), 0) == o0,
        octet(address_of(o0, o1, o2, o3), 1) == o1,
        octet(address_of(o0, o1, o2, o3), 2) == o2,
        octet(address_of(o0, o1, o2, o3), 3) == o3,
{
    lemma_address_of_bounds(o0, o1, o2, o3);
    let a = address_of(o0, o1, o2, o3) as int;
    lemma_address_of_bounds(0, o1, o2, o3);
    lemma_address_of_bounds(0, 0, o2, o3);
    lemma_fundamental_div_mod_converse(a, 0x100_0000, o0 as int, o1 * 0x1_0000int + o2 * 256int + o3);
    lemma_fundamental_div_mod_converse(a, 0x1_0000, o0 * 256int + o1, o2 * 256int + o3);
    lemma_fundamental_div_mod_converse(o0 * 256int + o1, 256, o0 as int, o1 as int);
    lemma_fundamental_div_mod_converse(a, 256, o0 * 0x1_0000int + o1 * 256int + o2, o3 as int);
    lemma_fundamental_div_mod_converse(o0 * 0x1_0000int + o1 * 256int + o2, 256, o0 * 256int + o1, o2 as int);
}

/// Joining the octets of an address gives the address back.
pub proof fn lemma_address_of_octets(a: u32)
    ensures
        address_of(octet(a, 0), octet(a, 1), octet(a, 2), octet(a, 3)) == a,
{
    let x = a as int;
    assert(x == (x / 0x100_0000) * 0x100_0000 + ((x / 0x1_0000) % 256) * 0x1_0000
        + ((x / 256) % 256) * 256 + x % 256) by (nonlinear_arith)
        requires 0 <= x <= 0xFFFF_FFFF;
}

/// Builds an address from its four octets.
pub fn address_from_octets(o0: u8, o1: u8, o2: u8, o3: u8) -> (r: u32)
    ensures
        r == address_of(o0, o1, o2, o3),
        octet(r, 0) == o0,
        octet(r, 1) == o1,
        octet(r, 2) == o2,
        octet(r, 3) == o3,
{
    proof {
        lemma_address_of_bounds(o0, o1, o2, o3);
        lemma_octets_of_address(o0, o1, o2, o3);
    }
    (o0 as u32) * 0x100_0000 + (o1 as u32) * 0x1_0000 + (o2 as u32) * 256 + (o3 as u32)
}

/// The octet at position `i` of an address.
pub fn octet_at(a: u32, i: usize) -> (r: u8)
    requires
        i < 4,
    ensures
        r == octet(a, i as int),
{
    if i == 0 {
        (a / 0x100_0000) as u8
    } else if i == 1 {
        ((a / 0x1_0000) % 256) as u8
    } else if i == 2 {
        ((a / 256) % 256) as u8
    } else {
        (a % 256) as u8
    }
}

} // verus!
