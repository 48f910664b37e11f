//! Counts of alive, timed-out and errored addresses over probe results.
use vstd::prelude::*;
use crate::outcome::PingResult;
use crate::results::{Slash24Result, Slash16Result, wf16, wf24, all_timeouts};
use crate::subnet::{Subnet, SubnetMask};
use crate::notation::format_spec;

verus! {

/// How many outcomes of a run are replies.
pub open spec fn alive24(s: Seq<PingResult>) -> nat
    decreases s.len(),
{
    if s.len() == 0 {
        0
    } else {
        alive24(s.drop_last()) + if s.last() is Success { 1nat } else { 0nat }
    }
}

/// How many outcomes of a run are timeouts.
pub open spec fn timed_out24(s: Seq<PingResult>) -> nat
    decreases s.len(),
{
    if s.len() == 0 {
        0
    } else {
        timed_out24(s.drop_last()) + if s.last() is Timeout { 1nat } else { 0nat }
    }
}

/// How many outcomes of a run are errors.
pub open spec fn errored24(s: Seq<PingResult>) -> nat
    decreases s.len(),
{
    if s.len() == 0 {
        0
    } else {
        errored24(s.drop_last()) + if s.last() is Error { 1nat } else { 0nat }
    }
}

/// Replies in one /24 slot; an absent /24 has none.
pub open spec fn slot_alive(o: Option<Seq<PingResult>>) -> nat {
    match o {
        None => 0,
        Some(s) => alive24(s),
    }
}

/// Timeouts in one /24 slot; an absent /24 counts 256.
pub open spec fn slot_timed_out(o: Option<Seq<PingResult>>) -> nat {
    match o {
        None => 256,
        Some(s) => timed_out24(s),
    }
}

/// Errors in one /24 slot; an absent /24 has none.
pub open spec fn slot_errored(o: Option<Seq<PingResult>>) -> nat {
    match o {
        None => 0,
        Some(s) => errored24(s),
    }
}

pub open spec fn alive16(v: Seq<Option<Seq<PingResult>>>) -> nat
    decreases v.len(),
{
    if v.len() == 0 {
        0
    } else {
        alive16(v.drop_last()) + slot_alive(v.last())
    }
}

pub open spec fn timed_out16(v: Seq<Option<Seq<PingResult>>>) -> nat
    decreases v.len(),
{
    if v.len() == 0 {
        0
    } else {
        timed_out16(v.drop_last()) + slot_timed_out(v.last())
    }
}

pub open spec fn errored16(v: Seq<Option<Seq<PingResult>>>) -> nat
    decreases v.len(),
{
    if v.len() == 0 {
        0
    } else {
        errored16(v.drop_last()) + slot_errored(v.last())
    }
}

proof fn lemma_counts24(s: Seq<PingResult>)
    ensures
        alive24(s) + timed_out24(s) + errored24(s) == s.len(),
    decreases s.len(),
{
    if s.len() > 0 {
        lemma_counts24(s.drop_last());
    }
}

proof fn lemma_counts16_prefix(v: Seq<Option<Seq<PingResult>>>)
    requires
        forall|c: int| 0 <= c < v.len() && #[trigger] v[c] is Some ==> wf24(v[c]->0),
    ensures
        alive16(v) + timed_out16(v) + errored16(v) == 256 * v.len(),
    decreases v.len(),
{
    if v.len() > 0 {
        let p = v.drop_last();
        assert forall|c: int| 0 <= c < p.len() && #[trigger] p[c] is Some implies wf24(p[c]->0) by {
            assert(p[c] == v[c]);
        }
        lemma_counts16_prefix(p);
        if let Some(s) = v.last() {
            assert(v[v.len() - 1] is Some);
            lemma_counts24(s);
        }
    }
}

/// Every address of a /16 is counted exactly once: the counts sum to 65,536.
pub proof fn lemma_counts16_total(v: Seq<Option<Seq<PingResult>>>)
    requires
        wf16(v),
    ensures
        alive16(v) + timed_out16(v) + errored16(v) == 65536,
{
    lemma_counts16_prefix(v);
}

proof fn lemma_all_timeouts_counts(s: Seq<PingResult>)
    requires
        all_timeouts(s),
    ensures
        alive24(s) == 0,
        errored24(s) == 0,
        timed_out24(s) == s.len(),
    decreases s.len(),
{
    if s.len() > 0 {
        let p = s.drop_last();
        assert(all_timeouts(p)) by {
            assert forall|d: int| 0 <= d < p.len() implies #[trigger] p[d] == PingResult::Timeout by {
                assert(p[d] == s[d]);
            }
        }
        lemma_all_timeouts_counts(p);
        assert(s[s.len() - 1] == PingResult::Timeout);
    }
}

proof fn lemma_counts16_pointwise(v: Seq<Option<Seq<PingResult>>>, w: Seq<Option<Seq<PingResult>>>)
    requires
        v.len() == w.len(),
        forall|c: int| 0 <= c < v.len() ==> slot_alive(#[trigger] v[c]) == slot_alive(w[c])
            && slot_timed_out(v[c]) == slot_timed_out(w[c]) && slot_errored(v[c]) == slot_errored(w[c]),
    ensures
        alive16(v) == alive16(w),
        timed_out16(v) == timed_out16(w),
        errored16(v) == errored16(w),
    decreases v.len(),
{
    if v.len() > 0 {
        let (p, q) = (v.drop_last(), w.drop_last());
        assert forall|c: int| 0 <= c < p.len() implies slot_alive(#[trigger] p[c]) == slot_alive(q[c])
            && slot_timed_out(p[c]) == slot_timed_out(q[c]) && slot_errored(p[c]) == slot_errored(q[c]) by {
            assert(p[c] == v[c] && q[c] == w[c]);
        }
        lemma_counts16_pointwise(p, q);
        assert(v.last() == v[v.len() - 1] && w.last() == w[w.len() - 1]);
    }
}

/// An absent /24 counts exactly as a present /24 of 256 timeouts.
pub proof fn lemma_absent_counts_as_timeouts(v: Seq<Option<Seq<PingResult>>>, c: int, s: Seq<PingResult>)
    requires
        0 <= c < v.len(),
        s.len() == 256,
        all_timeouts(s),
    ensures
        alive16(v.update(c, None)) == alive16(v.update(c, Some(s))),
        timed_out16(v.update(c, None)) == timed_out16(v.update(c, Some(s))),
        errored16(v.update(c, None)) == errored16(v.update(c, Some(s))),
{
    lemma_all_timeouts_counts(s);
    lemma_counts16_pointwise(v.update(c, None), v.update(c, Some(s)));
}

pub open spec fn alive8(w: Seq<Option<Seq<Option<Seq<PingResult>>>>>) -> nat
    decreases w.len(),
{
    if w.len() == 0 {
        0
    } else {
        alive8(w.drop_last()) + match w.last() {
            None => 0,
            Some(v) => alive16(v),
        }
    }
}

pub open spec fn timed_out8(w: Seq<Option<Seq<Option<Seq<PingResult>>>>>) -> nat
    decreases w.len(),
{
    if w.len() == 0 {
        0
    } else {
        timed_out8(w.drop_last()) + match w.last() {
            None => 0,
            Some(v) => timed_out16(v),
        }
    }
}

/// Errors over the /16s of a /8; a /16 with no result counts 65,536.
pub open spec fn errored8(w: Seq<Option<Seq<Option<Seq<PingResult>>>>>) -> nat
    decreases w.len(),
{
    if w.len() == 0 {
        0
    } else {
        errored8(w.drop_last()) + match w.last() {
            None => 65536,
            Some(v) => errored16(v),
        }
    }
}

pub open spec fn view16(o: Option<Slash16Result>) -> Option<Seq<Option<Seq<PingResult>>>> {
    match o {
        Some(r) => Some(r@),
        None => None,
    }
}

/// The results of the 256 /16s of a /8, indexed by the second octet; `None`
/// where no result exists for a /16.
#[derive(Debug)]
pub struct Slash8Result {
    slash16s: Vec<Option<Slash16Result>>,
}

impl View for Slash8Result {
    type V = Seq<Option<Seq<Option<Seq<PingResult>>>>>;

    closed spec fn view(&self) -> Self::V {
        self.slash16s@.map_values(|o: Option<Slash16Result>| view16(o))
    }
}

impl Slash8Result {
    #[verifier::type_invariant]
    spec fn inv(self) -> bool {
        self.slash16s@.len() == 256
    }

    /// Takes exactly 256 slots; `None` for any other count.
    pub fn from_vec(slash16s: Vec<Option<Slash16Result>>) -> (r: Option<Slash8Result>)
        ensures
            r is Some <==> slash16s@.len() == 256,
            r matches Some(x) ==> x@ == slash16s@.map_values(|o: Option<Slash16Result>| view16(o)),
    {
        if slash16s.len() == 256 {
            Some(Slash8Result { slash16s })
        } else {
            None
        }
    }

    /// The /16 whose second octet is `b`, if it has a result.
    pub fn slash16(&self, b: u8) -> (r: Option<&Slash16Result>)
        ensures
            self@.len() == 256,
            self@[b as int] == match r {
                Some(x) => Some(x@),
                None => None::<Seq<Option<Seq<PingResult>>>>,
            },
    {
        proof {
            use_type_invariant(self);
        }
        match &self.slash16s[b as usize] {
            Some(x) => Some(x),
            None => None,
        }
    }
}

/// Results at any level of the address hierarchy.
#[derive(Debug)]
pub enum SubnetResults {
    Slash8(Slash8Result),
    Slash16(Slash16Result),
    Slash24(Slash24Result),
    Slash32(PingResult),
}

/// Counts of the outcomes over a subnet.
#[derive(Debug, Clone, Copy, PartialEq, Eq, Structural)]
pub struct Analysis {
    pub mask: SubnetMask,
    pub alive: u32,
    pub timed_out: u32,
    pub errored: u32,
}

impl Analysis {
    fn new(mask: SubnetMask) -> (r: Analysis)
        ensures
            r == (Analysis { mask, alive: 0, timed_out: 0, errored: 0 }),
    {
        Analysis { mask, alive: 0, timed_out: 0, errored: 0 }
    }

    /// How many addresses the analysed subnet holds.
    pub fn get_max(&self) -> (r: u64)
        ensures
            r == self.mask.block_size(),
    {
        self.mask.block_size_exec()
    }

    /// The counts of one address.
    pub fn of_slash_32(o: PingResult) -> (r: Analysis)
        ensures
            r.mask == SubnetMask::Slash32,
            r.alive == (if o is Success { 1u32 } else { 0u32 }),
            r.timed_out == (if o is Timeout { 1u32 } else { 0u32 }),
            r.errored == (if o is Error { 1u32 } else { 0u32 }),
    {
        let mut a = Analysis::new(SubnetMask::Slash32);
        match o {
            PingResult::Success(_) => a.alive = 1,
            PingResult::Timeout => a.timed_out = 1,
            PingResult::Error => a.errored = 1,
        }
        a
    }

    /// The counts over the 256 addresses of a /24.
    pub fn of_slash_24(r: &Slash24Result) -> (a: Analysis)
        ensures
            a.mask == SubnetMask::Slash24,
            a.alive == alive24(r@),
            a.timed_out == timed_out24(r@),
            a.errored == errored24(r@),
            a.alive + a.timed_out + a.errored == 256,
    {
        let mut a = Analysis::new(SubnetMask::Slash24);
        let mut d: u16 = 0;
        assert(r@.take(0) =~= Seq::<PingResult>::empty());
        while d < 256
            invariant
                0 <= d <= 256,
                d > 0 ==> wf24(r@),
                a.mask == SubnetMask::Slash24,
                a.alive == alive24(r@.take(d as int)),
                a.timed_out == timed_out24(r@.take(d as int)),
                a.errored == errored24(r@.take(d as int)),
                a.alive + a.timed_out + a.errored == d,
            decreases 256 - d,
        {
            let o = r.get(d as u8);
            assert(r@.take(d as int + 1).drop_last() =~= r@.take(d as int));
            assert(r@.take(d as int + 1).last() == o);
            match o {
                PingResult::Success(_) => a.alive = a.alive + 1,
                PingResult::Timeout => a.timed_out = a.timed_out + 1,
                PingResult::Error => a.errored = a.errored + 1,
            }
            d = d + 1;
        }
        assert(r@.take(256) =~= r@);
        a
    }

    /// The counts over the 65,536 addresses of a /16; an absent /24 counts as
    /// 256 timeouts, and the three counts sum to 65,536.
    pub fn of_slash_16(r: &Slash16Result) -> (a: Analysis)
        ensures
            a.mask == SubnetMask::Slash16,
            a.alive == alive16(r@),
            a.timed_out == timed_out16(r@),
            a.errored == errored16(r@),
            a.alive + a.timed_out + a.errored == 65536,
    {
        let mut a = Analysis::new(SubnetMask::Slash16);
        let mut c: u16 = 0;
        assert(r@.take(0) =~= Seq::<Option<Seq<PingResult>>>::empty());
        while c < 256
            invariant
                0 <= c <= 256,
                c > 0 ==> wf16(r@),
                a.mask == SubnetMask::Slash16,
                a.alive == alive16(r@.take(c as int)),
                a.timed_out == timed_out16(r@.take(c as int)),
                a.errored == errored16(r@.take(c as int)),
                a.alive + a.timed_out + a.errored == 256 * c,
            decreases 256 - c,
        {
            let slot = r.slash24(c as u8);
            assert(r@.take(c as int + 1).drop_last() =~= r@.take(c as int));
            assert(r@.take(c as int + 1).last() == r@[c as int]);
            match slot {
                None => a.timed_out = a.timed_out + 256,
                Some(s) => {
                    let b = Analysis::of_slash_24(s);
                    a.alive = a.alive + b.alive;
                    a.timed_out = a.timed_out + b.timed_out;
                    a.errored = a.errored + b.errored;
                },
            }
            c = c + 1;
        }
        assert(r@.take(256) =~= r@);
        a
    }

    /// The counts over the 2^24 addresses of a /8; a /16 without a result
    /// counts as 65,536 errors.
    pub fn of_slash_8(r: &Slash8Result) -> (a: Analysis)
        ensures
            a.mask == SubnetMask::Slash8,
            a.alive == alive8(r@),
            a.timed_out == timed_out8(r@),
            a.errored == errored8(r@),
            a.alive + a.timed_out + a.errored == 0x100_0000,
    {
        let mut a = Analysis::new(SubnetMask::Slash8);
        let mut b: u16 = 0;
        assert(r@.take(0) =~= Seq::<Option<Seq<Option<Seq<PingResult>>>>>::empty());
        while b < 256
            invariant
                0 <= b <= 256,
                b > 0 ==> r@.len() == 256,
                a.mask == SubnetMask::Slash8,
                a.alive == alive8(r@.take(b as int)),
                a.timed_out == timed_out8(r@.take(b as int)),
                a.errored == errored8(r@.take(b as int)),
                a.alive + a.timed_out + a.errored == 65536 * b,
            decreases 256 - b,
        {
            let slot = r.slash16(b as u8);
            assert(r@.take(b as int + 1).drop_last() =~= r@.take(b as int));
            assert(r@.take(b as int + 1).last() == r@[b as int]);
            match slot {
                None => a.errored = a.errored + 65536,
                Some(x) => {
                    let s = Analysis::of_slash_16(x);
                    a.alive = a.alive + s.alive;
                    a.timed_out = a.timed_out + s.timed_out;
                    a.errored = a.errored + s.errored;
                },
            }
            b = b + 1;
        }
        assert(r@.take(256) =~= r@);
        a
    }

    /// The counts over results at any level.
    pub fn of_subnet(results: SubnetResults) -> (a: Analysis)
        ensures
            match results {
                SubnetResults::Slash8(r) => a.mask == SubnetMask::Slash8 && a.alive == alive8(r@)
                    && a.timed_out == timed_out8(r@) && a.errored == errored8(r@),
                SubnetResults::Slash16(r) => a.mask == SubnetMask::Slash16 && a.alive == alive16(r@)
                    && a.timed_out == timed_out16(r@) && a.errored == errored16(r@),
                SubnetResults::Slash24(r) => a.mask == SubnetMask::Slash24 && a.alive == alive24(r@)
                    && a.timed_out == timed_out24(r@) && a.errored == errored24(r@),
                SubnetResults::Slash32(o) => a == Analysis::of_slash_32_spec(o),
            },
    {
        match results {
            SubnetResults::Slash8(r) => Analysis::of_slash_8(&r),
            SubnetResults::Slash16(r) => Analysis::of_slash_16(&r),
            SubnetResults::Slash24(r) => Analysis::of_slash_24(&r),
            SubnetResults::Slash32(o) => Analysis::of_slash_32(o),
        }
    }

    /// The counts of one address.
    pub open spec fn of_slash_32_spec(o: PingResult) -> Analysis {
        Analysis {
            mask: SubnetMask::Slash32,
            alive: if o is Success { 1 } else { 0 },
            timed_out: if o is Timeout { 1 } else { 0 },
            errored: if o is Error { 1 } else { 0 },
        }
    }
}

/// Whether every outcome of a /24 is an error.
pub open spec fn all_errors(s: Seq<PingResult>) -> bool {
    forall|d: int| 0 <= d < s.len() ==> #[trigger] s[d] == PingResult::Error
}

/// How many of the slots hold a /24 whose outcomes are all errors.
pub open spec fn all_error_count(v: Seq<Option<Seq<PingResult>>>) -> nat
    decreases v.len(),
{
    if v.len() == 0 {
        0
    } else {
        all_error_count(v.drop_last()) + match v.last() {
            Some(s) => if all_errors(s) { 1nat } else { 0nat },
            None => 0nat,
        }
    }
}

/// Whether all 256 outcomes of a /24 are errors.
pub fn is_all_errors(s: &Slash24Result) -> (r: bool)
    ensures
        r == all_errors(s@),
{
    let mut d: u16 = 0;
    while d < 256
        invariant
            0 <= d <= 256,
            d > 0 ==> wf24(s@),
            forall|j: int| 0 <= j < d ==> #[trigger] s@[j] == PingResult::Error,
        decreases 256 - d,
    {
        if s.get(d as u8) != PingResult::Error {
            return false;
        }
        d = d + 1;
    }
    true
}

/// How many /24s of a /16 failed on every address.
pub fn all_error_slash24s(r: &Slash16Result) -> (n: u32)
    ensures
        n == all_error_count(r@),
        n <= 256,
{
    let mut n: u32 = 0;
    let mut c: u16 = 0;
    assert(r@.take(0) =~= Seq::<Option<Seq<PingResult>>>::empty());
    while c < 256
        invariant
            0 <= c <= 256,
            c > 0 ==> wf16(r@),
            n == all_error_count(r@.take(c as int)),
            n <= c,
        decreases 256 - c,
    {
        let slot = r.slash24(c as u8);
        assert(r@.take(c as int + 1).drop_last() =~= r@.take(c as int));
        assert(r@.take(c as int + 1).last() == r@[c as int]);
        match slot {
            Some(s) => if is_all_errors(s) {
                n = n + 1;
            },
            None => {},
        }
        c = c + 1;
    }
    assert(r@.take(256) =~= r@);
    n
}

/// Above this many all-error /24s the sweep stops.
pub const FAILURE_THRESHOLD: u32 = 2048;

/// How many all-error /24s the sweep has met.
#[derive(Debug, Clone, Copy, PartialEq, Eq, Structural)]
pub struct FailureTally {
    pub failed_slash24s: u32,
}

impl FailureTally {
    pub fn new() -> (r: FailureTally)
        ensures
            r.failed_slash24s == 0,
    {
        FailureTally { failed_slash24s: 0 }
    }

    /// Adds the all-error /24s of a /16; the tally saturates at `u32::MAX`.
    pub fn record(&mut self, r: &Slash16Result)
        ensures
            final(self).failed_slash24s == if old(self).failed_slash24s + all_error_count(r@) > 0xFFFF_FFFF {
                0xFFFF_FFFF
            } else {
                old(self).failed_slash24s + all_error_count(r@)
            },
    {
        let n = all_error_slash24s(r);
        self.failed_slash24s = self.failed_slash24s.saturating_add(n);
    }

    /// Whether the sweep must stop: more than 2048 all-error /24s.
    pub fn is_fatal(&self) -> (r: bool)
        ensures
            r == (self.failed_slash24s > FAILURE_THRESHOLD),
    {
        self.failed_slash24s > FAILURE_THRESHOLD
    }
}

/// A line of the failure log: `[<time>] <subnet>`.
pub fn failure_log_line(time: &str, subnet: &Subnet) -> (r: String)
    ensures
        r@ == seq!['['] + time@ + seq![']', ' '] + format_spec(subnet.base_spec(), subnet.mask_spec()),
{
    let mut out = String::new();
    proof {
        reveal_strlit("[");
        reveal_strlit("] ");
    }
    out.append("[");
    out.append(time);
    out.append("] ");
    let s = subnet.to_string();
    out.append(s.as_str());
    assert(out@ =~= seq!['['] + time@ + seq![']', ' '] + format_spec(subnet.base_spec(), subnet.mask_spec()));
    out
}

} // verus!
