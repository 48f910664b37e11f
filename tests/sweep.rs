use ping_the_internet::config::{Config, ConfigProblem, LocalWorkerConfig, WorkerConfig};
use ping_the_internet::file::{decode_slash16_file, encode_slash16_file, slash16_path};
use ping_the_internet::outcome::PingResult;
use ping_the_internet::planner::{job_step, read_event, JobAction, JobEvent, Planner};
use ping_the_internet::prober::{after_attempt, aggregate, probe_order, probe_target, stagger_delay_ms, AttemptEvent, AttemptStep, EchoCounters, PermitPool};
use ping_the_internet::progress::ProbeTracker;
use ping_the_internet::progress::{terminal_state, ProgressCounts, Slash16Grid, Slash16State, Slash32Grid, Slash32State};
use ping_the_internet::proto::{results_entries, socket_path, stats_message, worker_args, worker_on_message, M2WMessage, W2MMessage, WorkerAction};
use ping_the_internet::results::Slash16Result;
use ping_the_internet::subnet::{Subnet, SubnetMask};

fn addr(a: u8, b: u8, c: u8, d: u8) -> u32 {
    u32::from_be_bytes([a, b, c, d])
}

#[test]
fn probe_order_interleaves() {
    let s = Subnet::from_str("10.0.x.x").ok().unwrap();
    let order = probe_order(&s);
    assert_eq!(order.len(), 65536);
    for k in 0..256u32 {
        assert_eq!(order[k as usize], addr(10, 0, k as u8, 0));
    }
    assert_eq!(order[256], addr(10, 0, 0, 1));
    assert_eq!(probe_target(&s, 65535), addr(10, 0, 255, 255));
    assert_eq!(probe_target(&s, 513), addr(10, 0, 1, 2));
}

#[test]
fn stagger_and_attempts() {
    assert_eq!(stagger_delay_ms(10, 7), 47);
    assert_eq!(stagger_delay_ms(255, 255), 1275);
    assert_eq!(after_attempt(1, 2, AttemptEvent::Reply(35)), AttemptStep::Finish(PingResult::Success(35)));
    assert_eq!(after_attempt(1, 2, AttemptEvent::Reply(100_000)), AttemptStep::Finish(PingResult::Success(65535)));
    assert_eq!(after_attempt(1, 2, AttemptEvent::NoReply), AttemptStep::Finish(PingResult::Timeout));
    assert_eq!(after_attempt(1, 2, AttemptEvent::TransportError), AttemptStep::Retry);
    assert_eq!(after_attempt(2, 2, AttemptEvent::TransportError), AttemptStep::Finish(PingResult::Error));
}

#[test]
fn aggregate_groups_by_third_octet() {
    let mut outcomes = vec![PingResult::Timeout; 65536];
    outcomes[3 * 256 + 5] = PingResult::Success(9);
    outcomes[7] = PingResult::Error;
    let r = aggregate(&outcomes);
    assert!(r.slash24(0).is_none());
    assert_eq!(r.slash24(5).unwrap().get(3), PingResult::Success(9));
    assert_eq!(r.slash24(5).unwrap().get(2), PingResult::Timeout);
    assert_eq!(r.slash24(7).unwrap().get(0), PingResult::Error);
    assert!((0..=255u8).filter(|c| r.slash24(*c).is_some()).count() == 2);
}

#[test]
fn permit_pool_bounds_probes_in_flight() {
    let mut pool = PermitPool::new(4);
    let mut grid = Slash32Grid::new();
    let mut max_pending = 0;
    let mut in_flight: Vec<u8> = Vec::new();
    for t in 0..16u8 {
        while !pool.try_acquire() {
            let done = in_flight.remove(0);
            assert!(grid.advance(0, done, Slash32State::TimedOut));
            pool.release();
        }
        assert!(grid.advance(0, t, Slash32State::Pending));
        in_flight.push(t);
        max_pending = max_pending.max(grid.counts().pending);
        assert!(pool.in_use() <= 4);
    }
    assert_eq!(max_pending, 4);
}

#[test]
fn tracker_keeps_pending_within_permits() {
    let mut t = ProbeTracker::new(4);
    let mut max_pending = 0;
    let mut in_flight: Vec<u8> = Vec::new();
    for d in 0..16u8 {
        while !t.try_acquire() {
            let done = in_flight.remove(0);
            assert!(t.finish(0, done, PingResult::Timeout));
        }
        assert!(t.mark_pending(0, d));
        in_flight.push(d);
        max_pending = max_pending.max(t.pending_count());
        assert!(t.pending_count() <= 4);
    }
    assert_eq!(max_pending, 4);
    assert!(!t.try_acquire());
    assert!(!t.mark_pending(0, 200));
    for d in in_flight {
        assert!(t.finish(0, d, PingResult::Success(3)));
    }
    assert_eq!(t.pending_count(), 0);
    assert_eq!(t.grid().get(0, 15), Slash32State::Succeeded);
    assert!(t.try_acquire());
    assert!(t.mark_pending(0, 200));
    assert!(!t.mark_pending(0, 201));
    assert!(!t.finish(0, 201, PingResult::Error));
    assert!(t.try_acquire());
    assert!(t.release_unstarted());
    assert!(!t.release_unstarted());
    t.reset();
    assert_eq!(t.pending_count(), 0);
    assert_eq!(t.grid().get(0, 200), Slash32State::Scheduled);
}

#[test]
fn probe_order_covers_each_address_once() {
    let s = Subnet::from_str("10.7.x.x").ok().unwrap();
    let mut order = probe_order(&s);
    order.sort();
    order.dedup();
    assert_eq!(order.len(), 65536);
    assert_eq!(order[0], addr(10, 7, 0, 0));
    assert_eq!(order[65535], addr(10, 7, 255, 255));
}

#[test]
fn echo_counters_wrap() {
    let mut c = EchoCounters { identifier: 65535, sequence: 7 };
    assert_eq!(c.next(), (65535, 7));
    assert_eq!(c.next(), (0, 8));
    assert_eq!(EchoCounters::new().next(), (0, 0));
}

#[test]
fn grids_move_forward_only() {
    let mut g = Slash32Grid::new();
    assert_eq!(g.get(1, 2), Slash32State::Scheduled);
    assert!(!g.advance(1, 2, Slash32State::Succeeded));
    assert!(g.advance(1, 2, Slash32State::Pending));
    assert!(g.advance(1, 2, terminal_state(PingResult::Success(1))));
    assert_eq!(g.get(1, 2), Slash32State::Succeeded);
    assert!(!g.advance(1, 2, Slash32State::Pending));
    let c = g.counts();
    assert_eq!(c, ProgressCounts { reserved: 0, scheduled: 65535, pending: 0, succeeded: 1, timed_out: 0, errored: 0 });
    g.reset();
    assert_eq!(g.get(1, 2), Slash32State::Scheduled);
    let mut h = Slash16Grid::new();
    assert!(h.advance(1, 0, Slash16State::Pending));
    assert!(h.advance(1, 0, Slash16State::Skipped));
    assert!(!h.advance(1, 0, Slash16State::Completed));
    assert_eq!(h.get(1, 0), Slash16State::Skipped);
}

#[test]
fn planner_skips_existing_and_probes_next() {
    let start = Subnet::from_str("1.0.0.0").ok().unwrap().base_address();
    let mut p = Planner::starting_at(start);
    let first = p.next_slash16().unwrap();
    assert_eq!(first.to_string(), "1.0.x.x");
    let stored = encode_slash16_file(&first, &aggregate(&vec![PingResult::Timeout; 65536])).unwrap();
    let ev = read_event(&decode_slash16_file(&stored));
    assert_eq!(ev, JobEvent::Found);
    assert_eq!(job_step(Slash16State::Scheduled, ev), (Slash16State::Skipped, JobAction::Next));
    let second = p.next_slash16().unwrap();
    assert_eq!(second.to_string(), "1.1.x.x");
    let missing: Result<Slash16Result, _> = Err(ping_the_internet::file::ReadError::NotFound);
    let ev = read_event(&missing);
    assert_eq!(job_step(Slash16State::Scheduled, ev), (Slash16State::Pending, JobAction::Probe));
    assert_eq!(job_step(Slash16State::Pending, JobEvent::Probed), (Slash16State::Pending, JobAction::Save));
    assert_eq!(job_step(Slash16State::Pending, JobEvent::Saved), (Slash16State::Completed, JobAction::Next));
    assert_eq!(slash16_path(&second).unwrap(), "./data/1/1");
    assert_eq!(job_step(Slash16State::Pending, JobEvent::ProbeFailed), (Slash16State::Errored, JobAction::Next));
    assert_eq!(job_step(Slash16State::Pending, JobEvent::SaveFailed), (Slash16State::Errored, JobAction::Next));
}

#[test]
fn planner_starts_mid_sweep_and_ends() {
    let mut p = Planner::starting_at(addr(3, 200, 9, 9));
    assert_eq!(p.next_slash16().unwrap().to_string(), "3.200.x.x");
    let mut last = Planner::starting_at(addr(255, 255, 0, 0));
    assert_eq!(last.next_slash16().unwrap().to_string(), "255.255.x.x");
    assert!(last.next_slash16().is_none());
    let mut n = 0u32;
    let mut q = Planner::starting_at(0);
    while q.next_slash16().is_some() {
        n += 1;
    }
    assert_eq!(n, 65536);
}

#[test]
fn worker_message_rules() {
    assert_eq!(worker_on_message(M2WMessage::Shutdown), WorkerAction::Exit);
    match worker_on_message(M2WMessage::PingSlash16(addr(10, 0, 0, 0))) {
        WorkerAction::Probe(s) => {
            assert_eq!(s.mask(), SubnetMask::Slash16);
            assert_eq!(s.to_string(), "10.0.x.x");
        }
        other => panic!("{other:?}"),
    }
    assert_eq!(worker_on_message(M2WMessage::PingSlash16(addr(10, 0, 1, 0))), WorkerAction::Reject);
}

#[test]
fn results_message_keeps_present_slash24s_in_order() {
    let mut outcomes = vec![PingResult::Timeout; 65536];
    outcomes[200] = PingResult::Success(4);
    outcomes[256 + 3] = PingResult::Error;
    let entries = results_entries(aggregate(&outcomes));
    let keys: Vec<u8> = entries.iter().map(|(c, _)| *c).collect();
    assert_eq!(keys, vec![3, 200]);
    assert_eq!(entries[0].1.get(1), PingResult::Error);
    assert_eq!(entries[1].1.get(0), PingResult::Success(4));
    assert!(results_entries(aggregate(&vec![PingResult::Timeout; 65536])).is_empty());
}

#[test]
fn stats_summary() {
    let counts = ProgressCounts { reserved: 0, scheduled: 32768, pending: 0, succeeded: 100, timed_out: 32668, errored: 0 };
    match stats_message(counts, 1000) {
        W2MMessage::Stats { scheduled, succeeded, elapsed_ms, estimated_total_ms, estimated_remaining_ms, .. } => {
            assert_eq!((scheduled, succeeded, elapsed_ms), (32768, 100, 1000));
            assert_eq!(estimated_total_ms, 2000);
            assert_eq!(estimated_remaining_ms, 1000);
        }
        other => panic!("{other:?}"),
    }
    let none_done = ProgressCounts { reserved: 0, scheduled: 65536, pending: 0, succeeded: 0, timed_out: 0, errored: 0 };
    assert!(matches!(stats_message(none_done, 5), W2MMessage::Stats { estimated_total_ms: 0, estimated_remaining_ms: 0, .. }));
}

#[test]
fn master_spawn_details() {
    assert_eq!(socket_path(0), "./sockets/0.sock");
    assert_eq!(socket_path(12), "./sockets/12.sock");
    let cfg = LocalWorkerConfig { count: 2, max_connections: 1024, retry_limit: 2, timeout: 3500 };
    let args = worker_args("./sockets/1.sock", &cfg);
    assert_eq!(args, vec!["--socket", "./sockets/1.sock", "--max-connections", "1024", "--retry-limit", "2", "--timeout-ms", "3500"]);
    assert_eq!(Config { workers: WorkerConfig::Local(cfg) }.local_workers(), Ok(cfg));
    assert_eq!(Config { workers: WorkerConfig::Remote }.local_workers(), Err(ConfigProblem::RemoteWorkers));
    let zero = LocalWorkerConfig { retry_limit: 0, ..cfg };
    assert_eq!(Config { workers: WorkerConfig::Local(zero) }.local_workers(), Err(ConfigProblem::NoAttempts));
}
