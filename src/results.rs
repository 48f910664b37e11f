//! Results of probing a /24 (256 outcomes) and a /16 (256 optional /24s).
use vstd::prelude::*;
use crate::outcome::PingResult;

verus! {

/// 256 outcomes, one per value of the fourth octet.
pub open spec fn wf24(v: Seq<PingResult>) -> bool {
    v.len() == 256
}

/// 256 slots, one per value of the third octet; a present /24 holds 256 outcomes.
pub open spec fn wf16(v: Seq<Option<Seq<PingResult>>>) -> bool {
    &&& v.len() == 256
    &&& forall|c: int| 0 <= c < 256 && #[trigger] v[c] is Some ==> wf24(v[c]->0)
}

/// A /24 of 256 timeouts.
pub open spec fn all_timeouts(v: Seq<PingResult>) -> bool {
    forall|d: int| 0 <= d < v.len() ==> #[trigger] v[d] == PingResult::Timeout
}

/// The outcomes of the 256 addresses of a /24, indexed by the fourth octet.
#[derive(Debug)]
pub struct Slash24Result {
    outcomes: Vec<PingResult>,
}

impl View for Slash24Result {
    type V = Seq<PingResult>;

    closed spec fn view(&self) -> Seq<PingResult> {
        self.outcomes@
    }
}

impl Slash24Result {
    #[verifier::type_invariant]
    spec fn inv(self) -> bool {
        wf24(self.outcomes@)
    }

    /// Takes exactly 256 outcomes; `None` for any other count.
    pub fn from_vec(outcomes: Vec<PingResult>) -> (r: Option<Slash24Result>)
        ensures
            r is Some <==> outcomes@.len() == 256,
            r matches Some(s) ==> s@ == outcomes@,
    {
        if outcomes.len() == 256 {
            Some(Slash24Result { outcomes })
        } else {
            None
        }
    }

    /// The outcome of the address whose fourth octet is `d`.
    pub fn get(&self, d: u8) -> (r: PingResult)
        ensures
            wf24(self@),
            r == self@[d as int],
    {
        proof {
            use_type_invariant(self);
        }
        self.outcomes[d as usize]
    }

    /// Whether every one of the 256 outcomes is a timeout.
    pub fn is_all_timeouts(&self) -> (r: bool)
        ensures
            wf24(self@),
            r == all_timeouts(self@),
    {
        proof {
            use_type_invariant(self);
        }
        let mut d: usize = 0;
        while d < 256
            invariant
                wf24(self@),
                0 <= d <= 256,
                forall|j: int| 0 <= j < d ==> #[trigger] self@[j] == PingResult::Timeout,
            decreases 256 - d,
        {
            if self.outcomes[d] != PingResult::Timeout {
                return false;
            }
            d = d + 1;
        }
        true
    }

}

pub open spec fn view24(o: Option<Slash24Result>) -> Option<Seq<PingResult>> {
    match o {
        Some(s) => Some(s@),
        None => None,
    }
}

/// The results of the 256 /24s of a /16, indexed by the third octet; an absent
/// /24 is one whose 256 addresses all timed out.
#[derive(Debug)]
pub struct Slash16Result {
    slash24s: Vec<Option<Slash24Result>>,
}

impl View for Slash16Result {
    type V = Seq<Option<Seq<PingResult>>>;

    closed spec fn view(&self) -> Seq<Option<Seq<PingResult>>> {
        self.slash24s@.map_values(|o: Option<Slash24Result>| view24(o))
    }
}

impl Slash16Result {
    #[verifier::type_invariant]
    spec fn inv(self) -> bool {
        wf16(self.slash24s@.map_values(|o: Option<Slash24Result>| view24(o)))
    }

    /// Takes exactly 256 slots; `None` for any other count.
    pub fn from_vec(slash24s: Vec<Option<Slash24Result>>) -> (r: Option<Slash16Result>)
        ensures
            r is Some <==> slash24s@.len() == 256,
            r matches Some(s) ==> s@ == slash24s@.map_values(|o: Option<Slash24Result>| view24(o)),
    {
        if slash24s.len() != 256 {
            return None;
        }
        Some(Slash16Result::new(slash24s))
    }

    /// Takes the 256 slots of a /16.
    pub fn new(slash24s: Vec<Option<Slash24Result>>) -> (r: Slash16Result)
        requires
            slash24s@.len() == 256,
        ensures
            r@ == slash24s@.map_values(|o: Option<Slash24Result>| view24(o)),
    {
        let ghost v = slash24s@.map_values(|o: Option<Slash24Result>| view24(o));
        let mut c: usize = 0;
        while c < 256
            invariant
                slash24s@.len() == 256,
                v == slash24s@.map_values(|o: Option<Slash24Result>| view24(o)),
                0 <= c <= 256,
                forall|j: int| 0 <= j < c && #[trigger] v[j] is Some ==> wf24(v[j]->0),
            decreases 256 - c,
        {
            match &slash24s[c] {
                Some(s) => {
                    proof {
                        use_type_invariant(s);
                    }
                },
                None => {},
            }
            c = c + 1;
        }
        Slash16Result { slash24s }
    }

    /// The 256 slots, given up by the result.
    pub fn into_slots(self) -> (r: Vec<Option<Slash24Result>>)
        ensures
            r@.len() == 256,
            r@.map_values(|o: Option<Slash24Result>| view24(o)) == self@,
    {
        proof {
            use_type_invariant(&self);
        }
        self.slash24s
    }

    /// The /24 whose third octet is `c`, if any of its addresses did not time out.
    pub fn slash24(&self, c: u8) -> (r: Option<&Slash24Result>)
        ensures
            wf16(self@),
            self@[c as int] == match r {
                Some(s) => Some(s@),
                None => None::<Seq<PingResult>>,
            },
            r matches Some(s) ==> s@.len() == 256,
    {
        proof {
            use_type_invariant(self);
        }
        match &self.slash24s[c as usize] {
            Some(s) => Some(s),
            None => None,
        }
    }

}

} // verus!
