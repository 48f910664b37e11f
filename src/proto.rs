//! Messages between the master and its workers, and the rules that each side
//! applies to them.
use vstd::prelude::*;
use crate::config::LocalWorkerConfig;
use crate::outcome::PingResult;
use crate::progress::{ProgressCounts, Slash32State};
use crate::results::{Slash24Result, Slash16Result, view24};
use crate::subnet::{Subnet, SubnetMask};
use crate::text::{decimal, push_decimal, decimal_string};

verus! {

/// A message from the master to a worker.
#[derive(Debug, Clone, Copy, PartialEq, Eq, Structural)]
pub enum M2WMessage {
    /// Finish and exit.
    Shutdown,
    /// Probe the /16 whose base is this address.
    PingSlash16(u32),
}

/// A message from a worker to the master.
#[derive(Debug)]
pub enum W2MMessage {
    /// A progress summary of the /16 being probed.
    Stats {
        reserved: u32,
        scheduled: u32,
        pending: u32,
        succeeded: u32,
        timed_out: u32,
        errored: u32,
        elapsed_ms: u64,
        estimated_remaining_ms: u64,
        estimated_total_ms: u64,
    },
    /// An address changed state.
    StateChanged { addr: u32, state: Slash32State },
    /// The /24s of a probed /16 that are not all timeouts, by ascending third octet.
    Results(Vec<(u8, Slash24Result)>),
}

/// What a worker does on a message.
#[derive(Debug, Clone, Copy, PartialEq, Eq, Structural)]
pub enum WorkerAction {
    /// Exit normally.
    Exit,
    /// Probe this /16.
    Probe(Subnet),
    /// The message breaks the protocol.
    Reject,
}

/// A worker's answer to a message: exit on `Shutdown`; probe the /16 of a
/// `PingSlash16` whose address has its low 16 bits zero; reject any other.
pub fn worker_on_message(msg: M2WMessage) -> (r: WorkerAction)
    ensures
        msg == M2WMessage::Shutdown ==> r == WorkerAction::Exit,
        msg matches M2WMessage::PingSlash16(a) ==> if a % 0x1_0000 == 0 {
            r matches WorkerAction::Probe(s) && s.base_spec() == a && s.mask_spec() == SubnetMask::Slash16
        } else {
            r == WorkerAction::Reject
        },
{
    match msg {
        M2WMessage::Shutdown => WorkerAction::Exit,
        M2WMessage::PingSlash16(a) => match Subnet::new(a, SubnetMask::Slash16) {
            Ok(s) => WorkerAction::Probe(s),
            Err(_) => WorkerAction::Reject,
        },
    }
}

/// The present /24s of a /16 among its first slots, as (third octet, outcomes)
/// by ascending third octet.
pub open spec fn present_entries(v: Seq<Option<Seq<PingResult>>>) -> Seq<(u8, Seq<PingResult>)>
    decreases v.len(),
{
    if v.len() == 0 {
        Seq::empty()
    } else {
        let p = present_entries(v.drop_last());
        match v.last() {
            Some(s) => p.push(((v.len() - 1) as u8, s)),
            None => p,
        }
    }
}

pub open spec fn entry_view(e: (u8, Slash24Result)) -> (u8, Seq<PingResult>) {
    let (c, s) = e;
    (c, s@)
}

/// The entries of a `Results` message: every present /24 of the /16, by
/// ascending third octet; absent /24s are left out.
pub fn results_entries(r: Slash16Result) -> (out: Vec<(u8, Slash24Result)>)
    ensures
        out@.map_values(|e: (u8, Slash24Result)| entry_view(e)) == present_entries(r@),
{
    let ghost v = r@;
    let mut slots = r.into_slots();
    let mut out: Vec<(u8, Slash24Result)> = Vec::new();
    let mut c: usize = 0;
    assert(v.take(0) =~= Seq::<Option<Seq<PingResult>>>::empty());
    while c < 256
        invariant
            0 <= c <= 256,
            v.len() == 256,
            slots@.len() == 256 - c,
            slots@.map_values(|o: Option<Slash24Result>| view24(o)) == v.skip(c as int),
            out@.map_values(|e: (u8, Slash24Result)| entry_view(e)) == present_entries(v.take(c as int)),
        decreases 256 - c,
    {
        let ghost before = out@;
        let ghost rest = slots@;
        let slot = slots.remove(0);
        assert(view24(slot) == v[c as int]) by {
            assert(rest.map_values(|o: Option<Slash24Result>| view24(o))[0] == v.skip(c as int)[0]);
        }
        assert(v.take(c as int + 1).drop_last() =~= v.take(c as int));
        assert(v.take(c as int + 1).last() == v[c as int]);
        match slot {
            Some(s) => {
                out.push((c as u8, s));
                assert(out@.map_values(|e: (u8, Slash24Result)| entry_view(e)) =~= before.map_values(
                    |e: (u8, Slash24Result)| entry_view(e),
                ).push((c as u8, s@)));
            },
            None => {},
        }
        assert forall|i: int| 0 <= i < slots@.len() implies view24(#[trigger] slots@[i]) == v[c + 1 + i] by {
            assert(slots@[i] == rest[i + 1]);
            assert(rest.map_values(|o: Option<Slash24Result>| view24(o))[i + 1] == v.skip(c as int)[i + 1]);
        }
        assert(slots@.map_values(|o: Option<Slash24Result>| view24(o)) =~= v.skip(c as int + 1));
        c = c + 1;
    }
    assert(v.take(256) =~= v);
    out
}

/// The present entries are exactly the present /24s: each names a present /24
/// with its outcomes, by strictly ascending third octet, and every present /24
/// is among them.
pub proof fn lemma_present_entries_ascending(v: Seq<Option<Seq<PingResult>>>)
    requires
        v.len() <= 256,
    ensures
        forall|i: int, j: int| 0 <= i < j < present_entries(v).len() ==> {
            let (ci, si) = #[trigger] present_entries(v)[i];
            let (cj, sj) = #[trigger] present_entries(v)[j];
            ci < cj
        },
        forall|i: int| 0 <= i < present_entries(v).len() ==> {
            let (c, s) = #[trigger] present_entries(v)[i];
            c < v.len() && v[c as int] == Some(s)
        },
        forall|c: int| 0 <= c < v.len() && #[trigger] v[c] is Some ==> exists|i: int|
            0 <= i < present_entries(v).len() && present_entries(v)[i] == (c as u8, v[c]->0),
    decreases v.len(),
{
    if v.len() > 0 {
        let p = v.drop_last();
        lemma_present_entries_ascending(p);
        assert forall|c: int| 0 <= c < v.len() && #[trigger] v[c] is Some implies exists|i: int|
            0 <= i < present_entries(v).len() && present_entries(v)[i] == (c as u8, v[c]->0) by {
            if c < v.len() - 1 {
                assert(p[c] == v[c]);
                let i = choose|i: int| 0 <= i < present_entries(p).len() && present_entries(p)[i] == (c as u8, p[c]->0);
                assert(present_entries(v)[i] == present_entries(p)[i]);
            } else {
                let i = present_entries(p).len() as int;
                assert(present_entries(v)[i] == (c as u8, v[c]->0));
            }
        }
        assert forall|i: int| 0 <= i < present_entries(p).len() implies {
            let (c, s) = #[trigger] present_entries(p)[i];
            v[c as int] == Some(s)
        } by {
            let (c, s) = present_entries(p)[i];
            assert(v[c as int] == p[c as int]);
        }
    }
}

/// The progress summary of the /16 being probed, `elapsed_ms` after its start.
/// The total is extrapolated from the share of addresses that have finished.
pub fn stats_message(counts: ProgressCounts, elapsed_ms: u64) -> (r: W2MMessage)
    ensures
        ({
            let done = counts.succeeded + counts.timed_out + counts.errored;
            let total = if done == 0 {
                0
            } else if elapsed_ms * 65536 / done > 0xFFFF_FFFF_FFFF_FFFF {
                0xFFFF_FFFF_FFFF_FFFF
            } else {
                elapsed_ms * 65536 / done
            };
            r matches W2MMessage::Stats {
                reserved,
                scheduled,
                pending,
                succeeded,
                timed_out,
                errored,
                elapsed_ms: e,
                estimated_remaining_ms,
                estimated_total_ms,
            } && reserved == counts.reserved && scheduled == counts.scheduled && pending == counts.pending
                && succeeded == counts.succeeded && timed_out == counts.timed_out && errored == counts.errored
                && e == elapsed_ms && estimated_total_ms == total
                && estimated_remaining_ms == if total > elapsed_ms { total - elapsed_ms } else { 0 }
        }),
{
    let done: u64 = counts.succeeded as u64 + counts.timed_out as u64 + counts.errored as u64;
    let total: u64 = if done == 0 {
        0
    } else {
        let t: u128 = (elapsed_ms as u128) * 65536 / (done as u128);
        if t > 0xFFFF_FFFF_FFFF_FFFF {
            0xFFFF_FFFF_FFFF_FFFF
        } else {
            t as u64
        }
    };
    let remaining: u64 = if total > elapsed_ms { total - elapsed_ms } else { 0 };
    W2MMessage::Stats {
        reserved: counts.reserved,
        scheduled: counts.scheduled,
        pending: counts.pending,
        succeeded: counts.succeeded,
        timed_out: counts.timed_out,
        errored: counts.errored,
        elapsed_ms,
        estimated_remaining_ms: remaining,
        estimated_total_ms: total,
    }
}

/// The socket path of worker `id`: `./sockets/{id}.sock`.
pub fn socket_path(id: u16) -> (r: String)
    ensures
        r@ == seq!['.', '/', 's', 'o', 'c', 'k', 'e', 't', 's', '/'] + decimal(id as nat) + seq![
            '.',
            's',
            'o',
            'c',
            'k',
        ],
{
    let mut out = String::new();
    proof {
        reveal_strlit("./sockets/");
        reveal_strlit(".sock");
    }
    out.append("./sockets/");
    push_decimal(&mut out, id as u64);
    out.append(".sock");
    assert(out@ =~= seq!['.', '/', 's', 'o', 'c', 'k', 'e', 't', 's', '/'] + decimal(id as nat) + seq![
        '.',
        's',
        'o',
        'c',
        'k',
    ]);
    out
}

fn owned(s: &str) -> (r: String)
    ensures
        r@ == s@,
{
    String::from_str(s)
}

/// The arguments of a worker process: `--socket <path> --max-connections <n>
/// --retry-limit <n> --timeout-ms <n>`.
pub fn worker_args(socket: &str, cfg: &LocalWorkerConfig) -> (r: Vec<String>)
    ensures
        r@.len() == 8,
        r@[0]@ == "--socket"@,
        r@[1]@ == socket@,
        r@[2]@ == "--max-connections"@,
        r@[3]@ == decimal(cfg.max_connections as nat),
        r@[4]@ == "--retry-limit"@,
        r@[5]@ == decimal(cfg.retry_limit as nat),
        r@[6]@ == "--timeout-ms"@,
        r@[7]@ == decimal(cfg.timeout as nat),
{
    let mut v: Vec<String> = Vec::new();
    v.push(owned("--socket"));
    v.push(owned(socket));
    v.push(owned("--max-connections"));
    v.push(decimal_string(cfg.max_connections as u64));
    v.push(owned("--retry-limit"));
    v.push(decimal_string(cfg.retry_limit as u64));
    v.push(owned("--timeout-ms"));
    v.push(decimal_string(cfg.timeout as u64));
    v
}

} // verus!
