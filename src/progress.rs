//! Progress states of addresses and /16s, and the grids that observers read.
use vstd::prelude::*;
use crate::outcome::PingResult;
use crate::prober::PermitPool;

verus! {

/// The progress of one address of the /16 being probed.
#[derive(Debug, Clone, Copy, PartialEq, Eq, Structural)]
pub enum Slash32State {
    Reserved,
    Scheduled,
    Pending,
    Succeeded,
    TimedOut,
    Errored,
}

/// The progress of one /16 of the sweep.
#[derive(Debug, Clone, Copy, PartialEq, Eq, Structural)]
pub enum Slash16State {
    Reserved,
    Skipped,
    Scheduled,
    Pending,
    Completed,
    Errored,
}

pub open spec fn terminal_state_spec(o: PingResult) -> Slash32State {
    match o {
        PingResult::Success(_) => Slash32State::Succeeded,
        PingResult::Timeout => Slash32State::TimedOut,
        PingResult::Error => Slash32State::Errored,
    }
}

/// The state an address ends in after a probe with outcome `o`.
pub fn terminal_state(o: PingResult) -> (r: Slash32State)
    ensures
        r == terminal_state_spec(o),
{
    match o {
        PingResult::Success(_) => Slash32State::Succeeded,
        PingResult::Timeout => Slash32State::TimedOut,
        PingResult::Error => Slash32State::Errored,
    }
}

/// Address states only move forward: `Scheduled` to `Pending`, `Pending` to a
/// terminal state.
pub open spec fn advances32(from: Slash32State, to: Slash32State) -> bool {
    ||| from == Slash32State::Scheduled && to == Slash32State::Pending
    ||| from == Slash32State::Pending && (to == Slash32State::Succeeded || to == Slash32State::TimedOut
        || to == Slash32State::Errored)
}

/// /16 states only move forward: `Scheduled` to `Pending` (or straight to
/// `Skipped`), `Pending` to `Completed`, `Skipped` or `Errored`.
pub open spec fn advances16(from: Slash16State, to: Slash16State) -> bool {
    ||| from == Slash16State::Scheduled && (to == Slash16State::Pending || to == Slash16State::Skipped)
    ||| from == Slash16State::Pending && (to == Slash16State::Completed || to == Slash16State::Skipped
        || to == Slash16State::Errored)
}

pub open spec fn count_state(s: Seq<Slash32State>, st: Slash32State) -> nat
    decreases s.len(),
{
    if s.len() == 0 {
        0
    } else {
        count_state(s.drop_last(), st) + if s.last() == st { 1nat } else { 0nat }
    }
}

/// How many addresses of the /16 being probed are in each state.
#[derive(Debug, Clone, Copy, PartialEq, Eq, Structural)]
pub struct ProgressCounts {
    pub reserved: u32,
    pub scheduled: u32,
    pub pending: u32,
    pub succeeded: u32,
    pub timed_out: u32,
    pub errored: u32,
}

proof fn lemma_count_total(s: Seq<Slash32State>)
    ensures
        count_state(s, Slash32State::Reserved) + count_state(s, Slash32State::Scheduled) + count_state(
            s,
            Slash32State::Pending,
        ) + count_state(s, Slash32State::Succeeded) + count_state(s, Slash32State::TimedOut)
            + count_state(s, Slash32State::Errored) == s.len(),
    decreases s.len(),
{
    if s.len() > 0 {
        lemma_count_total(s.drop_last());
    }
}

/// The states of the 65,536 addresses of the /16 being probed, cell `c * 256 + d`
/// for the address with third octet `c` and fourth octet `d`.
#[derive(Debug)]
pub struct Slash32Grid {
    cells: Vec<Slash32State>,
}

impl View for Slash32Grid {
    type V = Seq<Slash32State>;

    closed spec fn view(&self) -> Seq<Slash32State> {
        self.cells@
    }
}

impl Slash32Grid {
    #[verifier::type_invariant]
    spec fn inv(self) -> bool {
        self.cells@.len() == 65536
    }

    /// A grid with every address `Scheduled`.
    pub fn new() -> (r: Slash32Grid)
        ensures
            r@ == Seq::new(65536, |i: int| Slash32State::Scheduled),
    {
        let mut cells: Vec<Slash32State> = Vec::new();
        let mut i: u32 = 0;
        while i < 65536
            invariant
                0 <= i <= 65536,
                cells@ == Seq::new(i as nat, |j: int| Slash32State::Scheduled),
            decreases 65536 - i,
        {
            cells.push(Slash32State::Scheduled);
            i = i + 1;
            assert(cells@ =~= Seq::new(i as nat, |j: int| Slash32State::Scheduled));
        }
        Slash32Grid { cells }
    }

    /// Sets every address back to `Scheduled`, as at the start of a new /16.
    pub fn reset(&mut self)
        ensures
            final(self)@ == Seq::new(65536, |i: int| Slash32State::Scheduled),
        no_unwind
    {
        proof {
            use_type_invariant(&*self);
        }
        let mut i: usize = 0;
        while i < 65536
            invariant
                0 <= i <= 65536,
                self.cells@.len() == 65536,
                forall|j: int| 0 <= j < i ==> #[trigger] self.cells@[j] == Slash32State::Scheduled,
            decreases 65536 - i,
        {
            self.cells[i] = Slash32State::Scheduled;
            i = i + 1;
        }
        assert(self@ =~= Seq::new(65536, |i: int| Slash32State::Scheduled));
    }

    /// The state of the address with third octet `c` and fourth octet `d`.
    pub fn get(&self, c: u8, d: u8) -> (r: Slash32State)
        ensures
            self@.len() == 65536,
            r == self@[c * 256 + d],
    {
        proof {
            use_type_invariant(self);
        }
        self.cells[(c as usize) * 256 + d as usize]
    }

    /// Moves an address to `to` if that moves it forward; says whether it did.
    pub fn advance(&mut self, c: u8, d: u8, to: Slash32State) -> (r: bool)
        ensures
            old(self)@.len() == 65536,
            r == advances32(old(self)@[c * 256 + d], to),
            final(self)@ == if r { old(self)@.update(c * 256 + d, to) } else { old(self)@ },
        no_unwind
    {
        proof {
            use_type_invariant(&*self);
        }
        let i = (c as usize) * 256 + d as usize;
        let from = self.cells[i];
        let ok = match (from, to) {
            (Slash32State::Scheduled, Slash32State::Pending) => true,
            (Slash32State::Pending, Slash32State::Succeeded) => true,
            (Slash32State::Pending, Slash32State::TimedOut) => true,
            (Slash32State::Pending, Slash32State::Errored) => true,
            _ => false,
        };
        if ok {
            self.cells[i] = to;
        }
        ok
    }

    /// How many addresses are in each state; the counts sum to 65,536.
    pub fn counts(&self) -> (r: ProgressCounts)
        ensures
            r.reserved == count_state(self@, Slash32State::Reserved),
            r.scheduled == count_state(self@, Slash32State::Scheduled),
            r.pending == count_state(self@, Slash32State::Pending),
            r.succeeded == count_state(self@, Slash32State::Succeeded),
            r.timed_out == count_state(self@, Slash32State::TimedOut),
            r.errored == count_state(self@, Slash32State::Errored),
            r.reserved + r.scheduled + r.pending + r.succeeded + r.timed_out + r.errored == 65536,
    {
        proof {
            use_type_invariant(self);
        }
        let mut r = ProgressCounts { reserved: 0, scheduled: 0, pending: 0, succeeded: 0, timed_out: 0, errored: 0 };
        let mut i: usize = 0;
        assert(self@.take(0) =~= Seq::<Slash32State>::empty());
        while i < 65536
            invariant
                0 <= i <= 65536,
                self@.len() == 65536,
                r.reserved == count_state(self@.take(i as int), Slash32State::Reserved),
                r.scheduled == count_state(self@.take(i as int), Slash32State::Scheduled),
                r.pending == count_state(self@.take(i as int), Slash32State::Pending),
                r.succeeded == count_state(self@.take(i as int), Slash32State::Succeeded),
                r.timed_out == count_state(self@.take(i as int), Slash32State::TimedOut),
                r.errored == count_state(self@.take(i as int), Slash32State::Errored),
            decreases 65536 - i,
        {
            proof {
                lemma_count_total(self@.take(i as int));
            }
            let st = self.cells[i];
            assert(self@.take(i as int + 1).drop_last() =~= self@.take(i as int));
            assert(self@.take(i as int + 1).last() == st);
            match st {
                Slash32State::Reserved => r.reserved = r.reserved + 1,
                Slash32State::Scheduled => r.scheduled = r.scheduled + 1,
                Slash32State::Pending => r.pending = r.pending + 1,
                Slash32State::Succeeded => r.succeeded = r.succeeded + 1,
                Slash32State::TimedOut => r.timed_out = r.timed_out + 1,
                Slash32State::Errored => r.errored = r.errored + 1,
            }
            i = i + 1;
        }
        assert(self@.take(65536) =~= self@);
        proof {
            lemma_count_total(self@);
        }
        r
    }
}

proof fn lemma_count_update(s: Seq<Slash32State>, i: int, x: Slash32State, st: Slash32State)
    requires
        0 <= i < s.len(),
    ensures
        count_state(s.update(i, x), st) + (if s[i] == st { 1int } else { 0int })
            == count_state(s, st) + (if x == st { 1int } else { 0int }),
    decreases s.len(),
{
    let u = s.update(i, x);
    if i == s.len() - 1 {
        assert(u.drop_last() =~= s.drop_last());
    } else {
        lemma_count_update(s.drop_last(), i, x, st);
        assert(u.drop_last() =~= s.drop_last().update(i, x));
    }
}

/// The permits and address states of the probes of one /16. A probe takes a
/// permit, marks its address `Pending`, and on its outcome marks the terminal
/// state and gives the permit back; so no more addresses are `Pending` than
/// permits are taken, and never more than the pool holds.
#[derive(Debug)]
pub struct ProbeTracker {
    pool: PermitPool,
    grid: Slash32Grid,
    pending: u32,
}

impl ProbeTracker {
    #[verifier::type_invariant]
    spec fn inv(self) -> bool {
        &&& count_state(self.grid@, Slash32State::Pending) <= self.pending
        &&& self.pending <= self.pool.in_use_spec()
        &&& self.pool.in_use_spec() <= self.pool.capacity_spec()
    }

    pub closed spec fn grid_spec(self) -> Seq<Slash32State> {
        self.grid@
    }

    pub closed spec fn capacity_spec(self) -> nat {
        self.pool.capacity_spec()
    }

    /// Permits taken, whether or not their probe is `Pending` yet.
    pub closed spec fn in_use_spec(self) -> nat {
        self.pool.in_use_spec()
    }

    /// Probes marked `Pending` and not yet finished.
    pub closed spec fn started_spec(self) -> nat {
        self.pending as nat
    }

    /// No permit taken, every address `Scheduled`.
    pub fn new(capacity: u32) -> (r: ProbeTracker)
        ensures
            r.capacity_spec() == capacity,
            r.in_use_spec() == 0,
            r.started_spec() == 0,
            r.grid_spec() == Seq::new(65536, |i: int| Slash32State::Scheduled),
    {
        let grid = Slash32Grid::new();
        proof {
            let s = grid@;
            assert(count_state(s, Slash32State::Pending) == 0) by {
                lemma_count_none(s, Slash32State::Pending);
            }
        }
        ProbeTracker { pool: PermitPool::new(capacity), grid, pending: 0 }
    }

    /// Takes a permit if one is free.
    pub fn try_acquire(&mut self) -> (r: bool)
        ensures
            r == (old(self).in_use_spec() < old(self).capacity_spec()),
            final(self).in_use_spec() == if r { old(self).in_use_spec() + 1 } else { old(self).in_use_spec() },
            final(self).capacity_spec() == old(self).capacity_spec(),
            final(self).started_spec() == old(self).started_spec(),
            final(self).grid_spec() == old(self).grid_spec(),
            count_state(final(self).grid_spec(), Slash32State::Pending) <= final(self).capacity_spec(),
    {
        proof {
            use_type_invariant(&*self);
        }
        let r = self.pool.try_acquire();
        proof {
            use_type_invariant(&*self);
        }
        r
    }

    /// Marks the address `c`, `d` `Pending` for a probe that holds a permit: only
    /// from `Scheduled`, and only while more permits are taken than probes started.
    pub fn mark_pending(&mut self, c: u8, d: u8) -> (r: bool)
        ensures
            old(self).grid_spec().len() == 65536,
            r == (old(self).grid_spec()[c * 256 + d] == Slash32State::Scheduled
                && old(self).started_spec() < old(self).in_use_spec()),
            final(self).grid_spec() == if r {
                old(self).grid_spec().update(c * 256 + d, Slash32State::Pending)
            } else {
                old(self).grid_spec()
            },
            final(self).started_spec() == if r { old(self).started_spec() + 1 } else { old(self).started_spec() },
            final(self).in_use_spec() == old(self).in_use_spec(),
            final(self).capacity_spec() == old(self).capacity_spec(),
            count_state(final(self).grid_spec(), Slash32State::Pending) <= final(self).capacity_spec(),
    {
        proof {
            use_type_invariant(&*self);
        }
        let from = self.grid.get(c, d);
        if from != Slash32State::Scheduled || self.pending >= self.pool.in_use() {
            return false;
        }
        self.pending = self.pending + 1;
        let ghost before = self.grid@;
        proof {
            lemma_count_update(before, c * 256 + d, Slash32State::Pending, Slash32State::Pending);
        }
        self.grid.advance(c, d, Slash32State::Pending);
        true
    }

    /// Ends the probe of the address `c`, `d` with outcome `o`: a `Pending` address
    /// takes its terminal state and its permit is given back.
    pub fn finish(&mut self, c: u8, d: u8, o: PingResult) -> (r: bool)
        ensures
            old(self).grid_spec().len() == 65536,
            r == (old(self).grid_spec()[c * 256 + d] == Slash32State::Pending),
            final(self).grid_spec() == if r {
                old(self).grid_spec().update(c * 256 + d, terminal_state_spec(o))
            } else {
                old(self).grid_spec()
            },
            r ==> final(self).in_use_spec() == old(self).in_use_spec() - 1,
            !r ==> final(self).in_use_spec() == old(self).in_use_spec(),
            final(self).capacity_spec() == old(self).capacity_spec(),
            count_state(final(self).grid_spec(), Slash32State::Pending) <= final(self).capacity_spec(),
    {
        proof {
            use_type_invariant(&*self);
        }
        let from = self.grid.get(c, d);
        if from != Slash32State::Pending {
            return false;
        }
        let ghost before = self.grid@;
        proof {
            lemma_count_update(before, c * 256 + d, terminal_state_spec(o), Slash32State::Pending);
            assert(count_state(before, Slash32State::Pending) >= 1);
        }
        self.grid.advance(c, d, terminal_state(o));
        self.pending = self.pending - 1;
        self.pool.release();
        true
    }

    /// Gives back a permit whose probe never started; refused while every
    /// taken permit belongs to a started probe.
    pub fn release_unstarted(&mut self) -> (r: bool)
        ensures
            r == (old(self).started_spec() < old(self).in_use_spec()),
            final(self).in_use_spec() == if r { (old(self).in_use_spec() - 1) as nat } else { old(self).in_use_spec() },
            final(self).grid_spec() == old(self).grid_spec(),
            final(self).started_spec() == old(self).started_spec(),
            final(self).capacity_spec() == old(self).capacity_spec(),
            count_state(final(self).grid_spec(), Slash32State::Pending) <= final(self).capacity_spec(),
    {
        proof {
            use_type_invariant(&*self);
        }
        if self.pending < self.pool.in_use() {
            self.pool.release();
            true
        } else {
            false
        }
    }

    /// Sets every address back to `Scheduled` for a new /16; taken permits stay taken.
    pub fn reset(&mut self)
        ensures
            final(self).grid_spec() == Seq::new(65536, |i: int| Slash32State::Scheduled),
            final(self).started_spec() == 0,
            final(self).in_use_spec() == old(self).in_use_spec(),
            final(self).capacity_spec() == old(self).capacity_spec(),
    {
        proof {
            use_type_invariant(&*self);
            lemma_count_none(Seq::new(65536, |i: int| Slash32State::Scheduled), Slash32State::Pending);
        }
        self.grid.reset();
        self.pending = 0;
    }

    /// How many addresses are `Pending`: never more than the pool's capacity.
    pub fn pending_count(&self) -> (r: u32)
        ensures
            r == count_state(self.grid_spec(), Slash32State::Pending),
            r <= self.capacity_spec(),
    {
        proof {
            use_type_invariant(self);
        }
        self.grid.counts().pending
    }

    /// The address states.
    pub fn grid(&self) -> (r: &Slash32Grid)
        ensures
            r@ == self.grid_spec(),
    {
        &self.grid
    }
}

proof fn lemma_count_none(s: Seq<Slash32State>, st: Slash32State)
    requires
        forall|i: int| 0 <= i < s.len() ==> #[trigger] s[i] != st,
    ensures
        count_state(s, st) == 0,
    decreases s.len(),
{
    if s.len() > 0 {
        let p = s.drop_last();
        assert forall|i: int| 0 <= i < p.len() implies #[trigger] p[i] != st by {
            assert(p[i] == s[i]);
        }
        lemma_count_none(p, st);
        assert(s[s.len() - 1] != st);
    }
}

/// The states of the 65,536 /16s of the sweep, cell `a * 256 + b` for `a.b.x.x`.
#[derive(Debug)]
pub struct Slash16Grid {
    cells: Vec<Slash16State>,
}

impl View for Slash16Grid {
    type V = Seq<Slash16State>;

    closed spec fn view(&self) -> Seq<Slash16State> {
        self.cells@
    }
}

impl Slash16Grid {
    #[verifier::type_invariant]
    spec fn inv(self) -> bool {
        self.cells@.len() == 65536
    }

    /// A grid with every /16 `Scheduled`.
    pub fn new() -> (r: Slash16Grid)
        ensures
            r@ == Seq::new(65536, |i: int| Slash16State::Scheduled),
    {
        let mut cells: Vec<Slash16State> = Vec::new();
        let mut i: u32 = 0;
        while i < 65536
            invariant
                0 <= i <= 65536,
                cells@ == Seq::new(i as nat, |j: int| Slash16State::Scheduled),
            decreases 65536 - i,
        {
            cells.push(Slash16State::Scheduled);
            i = i + 1;
            assert(cells@ =~= Seq::new(i as nat, |j: int| Slash16State::Scheduled));
        }
        Slash16Grid { cells }
    }

    /// The state of `a.b.x.x`.
    pub fn get(&self, a: u8, b: u8) -> (r: Slash16State)
        ensures
            self@.len() == 65536,
            r == self@[a * 256 + b],
    {
        proof {
            use_type_invariant(self);
        }
        self.cells[(a as usize) * 256 + b as usize]
    }

    /// Moves `a.b.x.x` to `to` if that moves it forward; says whether it did.
    pub fn advance(&mut self, a: u8, b: u8, to: Slash16State) -> (r: bool)
        ensures
            old(self)@.len() == 65536,
            r == advances16(old(self)@[a * 256 + b], to),
            final(self)@ == if r { old(self)@.update(a * 256 + b, to) } else { old(self)@ },
        no_unwind
    {
        proof {
            use_type_invariant(&*self);
        }
        let i = (a as usize) * 256 + b as usize;
        let from = self.cells[i];
        let ok = match (from, to) {
            (Slash16State::Scheduled, Slash16State::Pending) => true,
            (Slash16State::Scheduled, Slash16State::Skipped) => true,
            (Slash16State::Pending, Slash16State::Completed) => true,
            (Slash16State::Pending, Slash16State::Skipped) => true,
            (Slash16State::Pending, Slash16State::Errored) => true,
            _ => false,
        };
        if ok {
            self.cells[i] = to;
        }
        ok
    }
}

} // verus!
