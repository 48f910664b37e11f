//! Decisions of the /16 prober: the interleaved order of its 65,536 probes,
//! the stagger before each, what follows each attempt, the permit pool that
//! bounds probes in flight, and how outcomes are grouped into a /16 result.
use vstd::prelude::*;
use crate::addr::{octet, address_of, address_from_octets, octet_at};
use crate::outcome::PingResult;
use crate::results::{Slash24Result, Slash16Result, all_timeouts, view24};
use crate::subnet::{Subnet, SubnetMask};

verus! {

/// The target of the `k`-th probe of the /16 at `base`: third octet `k % 256`,
/// fourth octet `k / 256`, so consecutive probes walk across the 256 /24s.
pub open spec fn probe_target_spec(base: u32, k: int) -> u32 {
    address_of(octet(base, 0), octet(base, 1), (k % 256) as u8, (k / 256) as u8)
}

/// The address of the `k`-th probe of a /16.
pub fn probe_target(subnet: &Subnet, k: u32) -> (r: u32)
    requires
        subnet.mask_spec() == SubnetMask::Slash16,
        k < 65536,
    ensures
        r == probe_target_spec(subnet.base_spec(), k as int),
        octet(r, 0) == octet(subnet.base_spec(), 0),
        octet(r, 1) == octet(subnet.base_spec(), 1),
        octet(r, 2) == k % 256,
        octet(r, 3) == k / 256,
{
    let base = subnet.base_address();
    address_from_octets(octet_at(base, 0), octet_at(base, 1), (k % 256) as u8, (k / 256) as u8)
}

/// Distinct probe indices target distinct addresses.
pub proof fn lemma_probe_targets_distinct(base: u32, i: int, j: int)
    requires
        0 <= i < 65536,
        0 <= j < 65536,
        i != j,
    ensures
        probe_target_spec(base, i) != probe_target_spec(base, j),
{
    crate::addr::lemma_octets_of_address(octet(base, 0), octet(base, 1), (i % 256) as u8, (i / 256) as u8);
    crate::addr::lemma_octets_of_address(octet(base, 0), octet(base, 1), (j % 256) as u8, (j / 256) as u8);
    assert(i == (i / 256) * 256 + i % 256);
    assert(j == (j / 256) * 256 + j % 256);
}

/// The address `a.b.c.d` of a /16 is the target of probe `d * 256 + c`.
pub proof fn lemma_probe_target_of_octets(base: u32, c: u8, d: u8)
    ensures
        probe_target_spec(base, d * 256 + c) == address_of(octet(base, 0), octet(base, 1), c, d),
{
    vstd::arithmetic::div_mod::lemma_fundamental_div_mod_converse(d * 256 + c, 256, d as int, c as int);
}

/// The 65,536 addresses of a /16 in probing order: each address of the /16
/// exactly once.
pub fn probe_order(subnet: &Subnet) -> (r: Vec<u32>)
    requires
        subnet.mask_spec() == SubnetMask::Slash16,
    ensures
        r@.len() == 65536,
        forall|k: int| 0 <= k < 65536 ==> #[trigger] r@[k] == probe_target_spec(subnet.base_spec(), k),
        forall|i: int, j: int| 0 <= i < 65536 && 0 <= j < 65536 && i != j ==> #[trigger] r@[i] != #[trigger] r@[j],
        forall|c: u8, d: u8| #[trigger] r@[d * 256 + c] == address_of(
            octet(subnet.base_spec(), 0),
            octet(subnet.base_spec(), 1),
            c,
            d,
        ),
{
    let mut out: Vec<u32> = Vec::new();
    let mut k: u32 = 0;
    while k < 65536
        invariant
            0 <= k <= 65536,
            subnet.mask_spec() == SubnetMask::Slash16,
            out@.len() == k,
            forall|j: int| 0 <= j < k ==> #[trigger] out@[j] == probe_target_spec(subnet.base_spec(), j),
        decreases 65536 - k,
    {
        let a = probe_target(subnet, k);
        out.push(a);
        k = k + 1;
    }
    proof {
        assert forall|i: int, j: int| 0 <= i < 65536 && 0 <= j < 65536 && i != j implies #[trigger] out@[i]
            != #[trigger] out@[j] by {
            lemma_probe_targets_distinct(subnet.base_spec(), i, j);
        }
        assert forall|c: u8, d: u8| #[trigger] out@[d * 256 + c] == address_of(
            octet(subnet.base_spec(), 0),
            octet(subnet.base_spec(), 1),
            c,
            d,
        ) by {
            lemma_probe_target_of_octets(subnet.base_spec(), c, d);
        }
    }
    out
}

/// The pause before a probe starts: four milliseconds per third-octet value,
/// plus a random jitter.
pub fn stagger_delay_ms(octet3: u8, jitter: u8) -> (r: u64)
    ensures
        r == octet3 * 4 + jitter,
{
    (octet3 as u64) * 4 + (jitter as u64)
}

/// What one echo attempt gave.
#[derive(Debug, Clone, Copy, PartialEq, Eq, Structural)]
pub enum AttemptEvent {
    /// A reply came after this many milliseconds.
    Reply(u128),
    /// No reply came before the timeout.
    NoReply,
    /// The transport failed.
    TransportError,
}

/// What the prober does after an attempt.
#[derive(Debug, Clone, Copy, PartialEq, Eq, Structural)]
pub enum AttemptStep {
    /// The probe ends with this outcome.
    Finish(PingResult),
    /// Sleep a random jitter, then make the next attempt.
    Retry,
}

/// After attempt number `attempt` of at most `retry_limit`: a reply or a
/// timeout ends the probe; only a transport error is retried, while attempts remain.
pub fn after_attempt(attempt: u16, retry_limit: u16, event: AttemptEvent) -> (r: AttemptStep)
    requires
        1 <= attempt <= retry_limit,
    ensures
        r == match event {
            AttemptEvent::Reply(ms) => AttemptStep::Finish(
                PingResult::Success(if ms > 0xFFFF { 0xFFFFu16 } else { ms as u16 }),
            ),
            AttemptEvent::NoReply => AttemptStep::Finish(PingResult::Timeout),
            AttemptEvent::TransportError => if attempt < retry_limit {
                AttemptStep::Retry
            } else {
                AttemptStep::Finish(PingResult::Error)
            },
        },
{
    match event {
        AttemptEvent::Reply(ms) => AttemptStep::Finish(PingResult::from_rtt_millis(ms)),
        AttemptEvent::NoReply => AttemptStep::Finish(PingResult::Timeout),
        AttemptEvent::TransportError => if attempt < retry_limit {
            AttemptStep::Retry
        } else {
            AttemptStep::Finish(PingResult::Error)
        },
    }
}

/// The outcomes of the /24 with third octet `c`, taken from outcomes in probing order.
pub open spec fn slash24_of(outcomes: Seq<PingResult>, c: int) -> Seq<PingResult> {
    Seq::new(256, |d: int| outcomes[d * 256 + c])
}

/// The /16 slot of the /24 with third octet `c`: absent when all 256 timed out.
pub open spec fn slot_of(outcomes: Seq<PingResult>, c: int) -> Option<Seq<PingResult>> {
    if all_timeouts(slash24_of(outcomes, c)) {
        None
    } else {
        Some(slash24_of(outcomes, c))
    }
}

/// Groups the 65,536 outcomes of a /16, given in probing order, by third octet;
/// a /24 whose outcomes are all timeouts is left absent.
pub fn aggregate(outcomes: &Vec<PingResult>) -> (r: Slash16Result)
    requires
        outcomes@.len() == 65536,
    ensures
        r@ == Seq::new(256, |c: int| slot_of(outcomes@, c)),
{
    let mut slots: Vec<Option<Slash24Result>> = Vec::new();
    let mut c: usize = 0;
    while c < 256
        invariant
            0 <= c <= 256,
            outcomes@.len() == 65536,
            slots@.len() == c,
            forall|j: int| 0 <= j < c ==> #[trigger] view24(slots@[j]) == slot_of(outcomes@, j),
        decreases 256 - c,
    {
        let mut v: Vec<PingResult> = Vec::new();
        let mut all_timeout = true;
        let mut d: usize = 0;
        while d < 256
            invariant
                0 <= c < 256,
                0 <= d <= 256,
                outcomes@.len() == 65536,
                v@.len() == d,
                forall|i: int| 0 <= i < d ==> #[trigger] v@[i] == outcomes@[i * 256 + c],
                all_timeout == (forall|i: int| 0 <= i < d ==> #[trigger] v@[i] == PingResult::Timeout),
            decreases 256 - d,
        {
            let o = outcomes[d * 256 + c];
            let ghost prev = v@;
            let ghost was = all_timeout;
            if o != PingResult::Timeout {
                all_timeout = false;
            }
            v.push(o);
            proof {
                assert forall|i: int| 0 <= i < d implies #[trigger] v@[i] == prev[i] by {}
                if !was {
                    let j = choose|j: int| 0 <= j < d && !(prev[j] == PingResult::Timeout);
                    assert(v@[j] == prev[j]);
                } else if !all_timeout {
                    assert(!(v@[d as int] == PingResult::Timeout));
                }
            }
            d = d + 1;
        }
        assert(v@ =~= slash24_of(outcomes@, c as int));
        if all_timeout {
            slots.push(None);
        } else {
            let s = Slash24Result::from_vec(v);
            slots.push(s);
        }
        c = c + 1;
    }
    let r = Slash16Result::new(slots);
    assert(r@ =~= Seq::new(256, |c: int| slot_of(outcomes@, c)));
    r
}

/// A pool of permits that bounds how many probes are in flight at once.
#[derive(Debug)]
pub struct PermitPool {
    capacity: u32,
    in_use: u32,
}

impl PermitPool {
    #[verifier::type_invariant]
    spec fn inv(self) -> bool {
        self.in_use <= self.capacity
    }

    pub closed spec fn capacity_spec(self) -> nat {
        self.capacity as nat
    }

    pub closed spec fn in_use_spec(self) -> nat {
        self.in_use as nat
    }

    /// A pool of `capacity` permits, none taken.
    pub fn new(capacity: u32) -> (r: PermitPool)
        ensures
            r.capacity_spec() == capacity,
            r.in_use_spec() == 0,
    {
        PermitPool { capacity, in_use: 0 }
    }

    /// Takes a permit if one is free; never more than the capacity are taken.
    pub fn try_acquire(&mut self) -> (r: bool)
        ensures
            r == (old(self).in_use_spec() < old(self).capacity_spec()),
            final(self).capacity_spec() == old(self).capacity_spec(),
            final(self).in_use_spec() == if r { old(self).in_use_spec() + 1 } else { old(self).in_use_spec() },
            final(self).in_use_spec() <= final(self).capacity_spec(),
        no_unwind
    {
        proof {
            use_type_invariant(&*self);
        }
        if self.in_use < self.capacity {
            self.in_use = self.in_use + 1;
            true
        } else {
            false
        }
    }

    /// Gives a permit back; a pool with none taken is left as it is.
    pub fn release(&mut self)
        ensures
            final(self).capacity_spec() == old(self).capacity_spec(),
            final(self).in_use_spec() == if old(self).in_use_spec() > 0 {
                (old(self).in_use_spec() - 1) as nat
            } else {
                0
            },
        no_unwind
    {
        proof {
            use_type_invariant(&*self);
        }
        if self.in_use > 0 {
            self.in_use = self.in_use - 1;
        }
    }

    /// How many permits are taken; never more than the capacity.
    pub fn in_use(&self) -> (r: u32)
        ensures
            r == self.in_use_spec(),
            r <= self.capacity_spec(),
    {
        proof {
            use_type_invariant(self);
        }
        self.in_use
    }
}

/// The identifier and sequence counters shared by all probes of a process;
/// both advance by one per probe and wrap at 2^16.
#[derive(Debug, Clone, Copy, PartialEq, Eq, Structural)]
pub struct EchoCounters {
    pub identifier: u16,
    pub sequence: u16,
}

impl EchoCounters {
    pub fn new() -> (r: EchoCounters)
        ensures
            r == (EchoCounters { identifier: 0, sequence: 0 }),
    {
        EchoCounters { identifier: 0, sequence: 0 }
    }

    /// The identifier and sequence for the next probe; both counters advance.
    pub fn next(&mut self) -> (r: (u16, u16))
        ensures
            r == (old(self).identifier, old(self).sequence),
            final(self).identifier == (old(self).identifier + 1) % 0x1_0000,
            final(self).sequence == (old(self).sequence + 1) % 0x1_0000,
    {
        let r = (self.identifier, self.sequence);
        self.identifier = self.identifier.wrapping_add(1);
        self.sequence = self.sequence.wrapping_add(1);
        r
    }
}

} // verus!
