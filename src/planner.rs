//! The sweep planner: which /16s are visited, in which order, and how each
//! /16 job moves from its check for an existing result to its end state.
use vstd::prelude::*;
use crate::addr::{octet, lemma_address_of_octets, lemma_octets_of_address};
use crate::file::ReadError;
use crate::progress::Slash16State;
use crate::results::Slash16Result;
use crate::subnet::{Subnet, SubnetMask};

verus! {

/// Whether the sweep that starts at `start` visits `a.b.x.x`: every /16 from
/// the one holding `start` on, in ascending order.
pub open spec fn planned(start: u32, a: u8, b: u8) -> bool {
    a > octet(start, 0) || (a == octet(start, 0) && b >= octet(start, 1))
}

/// Ascending /16 order is the order of `a * 256 + b`, and the first /16 visited
/// is the one holding the start address.
pub proof fn lemma_planned_index(start: u32, a: u8, b: u8)
    ensures
        planned(start, a, b) <==> a * 256 + b >= start / 0x1_0000,
{
    lemma_address_of_octets(start);
    let s0 = octet(start, 0) as int;
    let s1 = octet(start, 1) as int;
    let rest = octet(start, 2) * 256int + octet(start, 3);
    assert(start == (s0 * 256 + s1) * 0x1_0000 + rest);
    vstd::arithmetic::div_mod::lemma_fundamental_div_mod_converse(start as int, 0x1_0000, s0 * 256 + s1, rest);
}

/// Walks the /16s of a sweep in ascending order, from the one that holds the
/// start address to `255.255.x.x`.
#[derive(Debug, Clone, Copy, PartialEq, Eq, Structural)]
pub struct Planner {
    next: u32,
}

impl Planner {
    /// The index `a * 256 + b` of the next /16 to visit; 65,536 once all are visited.
    pub closed spec fn next_spec(self) -> nat {
        self.next as nat
    }

    /// A sweep that starts at the /16 holding `start`.
    pub fn starting_at(start: u32) -> (r: Planner)
        ensures
            r.next_spec() == start / 0x1_0000,
            r.next_spec() == octet(start, 0) * 256 + octet(start, 1),
    {
        proof {
            lemma_address_of_octets(start);
            let rest = octet(start, 2) * 256int + octet(start, 3);
            vstd::arithmetic::div_mod::lemma_fundamental_div_mod_converse(start as int, 0x1_0000,
                octet(start, 0) * 256 + octet(start, 1), rest);
        }
        Planner { next: start / 0x1_0000 }
    }

    /// The next /16 to visit, or `None` once the sweep is through.
    pub fn next_slash16(&mut self) -> (r: Option<Subnet>)
        ensures
            old(self).next_spec() < 65536 ==> final(self).next_spec() == old(self).next_spec() + 1
                && (r matches Some(s) && s.mask_spec() == SubnetMask::Slash16
                && s.base_spec() == old(self).next_spec() * 0x1_0000
                && octet(s.base_spec(), 0) == old(self).next_spec() / 256
                && octet(s.base_spec(), 1) == old(self).next_spec() % 256),
            old(self).next_spec() >= 65536 ==> r is None && final(self).next_spec() == old(self).next_spec(),
    {
        if self.next >= 65536 {
            return None;
        }
        let i = self.next;
        let a = (i / 256) as u8;
        let b = (i % 256) as u8;
        let base = crate::addr::address_from_octets(a, b, 0, 0);
        proof {
            lemma_octets_of_address(a, b, 0, 0);
            crate::addr::lemma_address_of_bounds(a, b, 0, 0);
            vstd::arithmetic::div_mod::lemma_fundamental_div_mod_converse(base as int, 0x1_0000, a * 256int + b, 0);
        }
        self.next = i + 1;
        match Subnet::new(base, SubnetMask::Slash16) {
            Ok(s) => Some(s),
            Err(_) => None,
        }
    }
}

/// What happened to a /16 job.
#[derive(Debug, Clone, Copy, PartialEq, Eq, Structural)]
pub enum JobEvent {
    /// A result for the /16 is already stored.
    Found,
    /// No readable result is stored.
    NotFound,
    /// All probes of the /16 resolved.
    Probed,
    /// The probing failed beyond recovery.
    ProbeFailed,
    /// The result was stored.
    Saved,
    /// Storing the result failed.
    SaveFailed,
}

/// What the planner does next for a /16 job.
#[derive(Debug, Clone, Copy, PartialEq, Eq, Structural)]
pub enum JobAction {
    /// Probe all addresses of the /16.
    Probe,
    /// Store the result of the /16.
    Save,
    /// Go on with the next /16.
    Next,
}

/// The state and action that follow an event of a /16 job: an existing result
/// skips the /16, a missing one starts probing, a finished probe is saved and
/// then completed; a failure ends the job as errored. Any other event leaves
/// the state as it is and moves on.
pub open spec fn job_step_spec(state: Slash16State, event: JobEvent) -> (Slash16State, JobAction) {
    match (state, event) {
        (Slash16State::Scheduled, JobEvent::Found) => (Slash16State::Skipped, JobAction::Next),
        (Slash16State::Scheduled, JobEvent::NotFound) => (Slash16State::Pending, JobAction::Probe),
        (Slash16State::Pending, JobEvent::Probed) => (Slash16State::Pending, JobAction::Save),
        (Slash16State::Pending, JobEvent::ProbeFailed) => (Slash16State::Errored, JobAction::Next),
        (Slash16State::Pending, JobEvent::Saved) => (Slash16State::Completed, JobAction::Next),
        (Slash16State::Pending, JobEvent::SaveFailed) => (Slash16State::Errored, JobAction::Next),
        _ => (state, JobAction::Next),
    }
}

/// One step of a /16 job.
pub fn job_step(state: Slash16State, event: JobEvent) -> (r: (Slash16State, JobAction))
    ensures
        r == job_step_spec(state, event),
{
    match (state, event) {
        (Slash16State::Scheduled, JobEvent::Found) => (Slash16State::Skipped, JobAction::Next),
        (Slash16State::Scheduled, JobEvent::NotFound) => (Slash16State::Pending, JobAction::Probe),
        (Slash16State::Pending, JobEvent::Probed) => (Slash16State::Pending, JobAction::Save),
        (Slash16State::Pending, JobEvent::ProbeFailed) => (Slash16State::Errored, JobAction::Next),
        (Slash16State::Pending, JobEvent::Saved) => (Slash16State::Completed, JobAction::Next),
        (Slash16State::Pending, JobEvent::SaveFailed) => (Slash16State::Errored, JobAction::Next),
        _ => (state, JobAction::Next),
    }
}

/// The event of a read of a stored result: a result that reads back is found;
/// a missing or corrupt one is not, so that the /16 is probed again.
pub fn read_event(read: &Result<Slash16Result, ReadError>) -> (r: JobEvent)
    ensures
        r == if read is Ok { JobEvent::Found } else { JobEvent::NotFound },
{
    match read {
        Ok(_) => JobEvent::Found,
        Err(_) => JobEvent::NotFound,
    }
}

} // verus!
