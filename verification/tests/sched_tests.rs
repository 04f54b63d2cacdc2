use grpc_http3::net::{IpAddr, SockAddr};
use grpc_http3::sched::{
    find_path_id, get_other_path, lrtt2_inputs_in_range, next_primary_path, scheduler_fn, PathMemory,
    PathStat, SchedContext, Scheduler, Side, CUT_KEY,
};
use grpc_http3::order::new_shuffle_rng;
use grpc_http3::AddrMap;

fn rng() -> rand::rngs::StdRng {
    new_shuffle_rng().expect("the operating system's generator")
}

const MS: u128 = 1_000_000;

fn addr(port: u16) -> SockAddr {
    SockAddr { ip: IpAddr::V4(0x7f00_0001), port }
}

fn path(id: u64, local: u16, peer: u16, rtt_ms: u128, closed: bool) -> PathStat {
    PathStat { path_id: id, local_addr: addr(local), peer_addr: addr(peer), rtt: rtt_ms * MS, rttvar: 0, closed }
}

fn ctx(now_ms: u128, last_recv: u16, last_primary: u16) -> SchedContext {
    SchedContext {
        now: now_ms * MS,
        threshold_ms: 25,
        last_addr_recv: addr(last_recv),
        last_primary_path: addr(last_primary),
        established: true,
    }
}

fn pairs(v: &[(u16, u16)]) -> Vec<(SockAddr, SockAddr)> {
    v.iter().map(|&(l, p)| (addr(l), addr(p))).collect()
}

#[test]
fn scheduler_names() {
    assert_eq!(Scheduler::from_name(b"lrtt"), Scheduler::Lrtt);
    assert_eq!(Scheduler::from_name(b"lrtt2"), Scheduler::Lrtt2);
    assert_eq!(Scheduler::from_name(b"normal"), Scheduler::Normal);
    assert_eq!(Scheduler::from_name(b"last"), Scheduler::Last);
    assert_eq!(Scheduler::from_name(b"random"), Scheduler::Random);
    assert_eq!(Scheduler::from_name(b""), Scheduler::Random);
    assert_eq!(Scheduler::Lrtt.effective(false), Scheduler::Normal);
    assert_eq!(Scheduler::Lrtt.effective(true), Scheduler::Lrtt);
}

#[test]
fn normal_skips_closed_paths() {
    let paths = vec![path(0, 1, 9, 30, false), path(1, 2, 9, 10, true), path(2, 3, 9, 20, false)];
    let mut mem = PathMemory::new();
    let s = scheduler_fn(Side::Client, Scheduler::Normal, &paths, &AddrMap::new(), ctx(0, 1, 1), &mut mem, &mut rng());
    assert_eq!(s.tuples, pairs(&[(1, 9), (3, 9)]));
    assert!(!s.mark_lost);
}

#[test]
fn lrtt_sorts_by_rtt_stably() {
    let paths = vec![
        path(0, 1, 9, 30, false),
        path(1, 2, 9, 10, false),
        path(2, 3, 9, 30, false),
        path(3, 4, 9, 5, true),
    ];
    let mut mem = PathMemory::new();
    let s = scheduler_fn(Side::Client, Scheduler::Lrtt, &paths, &AddrMap::new(), ctx(0, 1, 1), &mut mem, &mut rng());
    assert_eq!(s.tuples, pairs(&[(2, 9), (1, 9), (3, 9)]));
}

#[test]
fn last_puts_last_receiving_path_first() {
    let paths = vec![path(0, 1, 9, 1, false), path(1, 2, 9, 1, false), path(2, 3, 9, 1, false)];
    let mut mem = PathMemory::new();
    let s = scheduler_fn(Side::Client, Scheduler::Last, &paths, &AddrMap::new(), ctx(0, 3, 1), &mut mem, &mut rng());
    assert_eq!(s.tuples, pairs(&[(3, 9), (1, 9), (2, 9)]));
    // A server identifies paths by the peer address.
    let paths = vec![path(0, 9, 1, 1, false), path(1, 9, 2, 1, false)];
    let s = scheduler_fn(Side::Server, Scheduler::Last, &paths, &AddrMap::new(), ctx(0, 2, 1), &mut mem, &mut rng());
    assert_eq!(s.tuples, pairs(&[(9, 2), (9, 1)]));
}

#[test]
fn random_is_a_permutation_of_open_paths() {
    let paths = vec![path(0, 1, 9, 1, false), path(1, 2, 9, 1, true), path(2, 3, 9, 1, false), path(3, 4, 9, 1, false)];
    let mut mem = PathMemory::new();
    let s = scheduler_fn(Side::Client, Scheduler::Random, &paths, &AddrMap::new(), ctx(0, 1, 1), &mut mem, &mut rng());
    let mut got = s.tuples.clone();
    got.sort_by_key(|t| t.0.port);
    assert_eq!(got, pairs(&[(1, 9), (3, 9), (4, 9)]));
    assert!(!s.mark_lost);
}

#[test]
fn lrtt2_cuts_silent_path_and_marks_loss() {
    // Path 1 (local port 1) last received 100 ms ago; its limit is 10 + 1 + 25 ms.
    let paths = vec![path(7, 1, 9, 10, false), path(8, 2, 9, 20, false)];
    let mut rcvd = AddrMap::new();
    rcvd.insert(addr(1), 0);
    rcvd.insert(addr(2), 95 * MS);
    let mut mem = PathMemory::new();
    mem.track(addr(1));
    mem.track(addr(2));
    let c = ctx(100, 1, 1);
    assert!(lrtt2_inputs_in_range(Side::Client, &paths, &rcvd, c.now, c.threshold_ms));
    let s = scheduler_fn(Side::Client, Scheduler::Lrtt2, &paths, &rcvd, c, &mut mem, &mut rng());
    assert_eq!(s.tuples, pairs(&[(2, 9), (1, 9)]));
    assert!(s.mark_lost);
    assert_eq!(find_path_id(Side::Client, &paths, c.last_primary_path), Some(7));
    // While its RTT has not changed, the cut path stays last even once it
    // receives again.
    rcvd.insert(addr(1), 100 * MS);
    let s = scheduler_fn(Side::Client, Scheduler::Lrtt2, &paths, &rcvd, ctx(101, 1, 2), &mut mem, &mut rng());
    assert_eq!(s.tuples, pairs(&[(2, 9), (1, 9)]));
    assert!(!s.mark_lost);
    // A new RTT lifts the cut.
    let paths2 = vec![path(7, 1, 9, 5, false), path(8, 2, 9, 20, false)];
    let s = scheduler_fn(Side::Client, Scheduler::Lrtt2, &paths2, &rcvd, ctx(101, 1, 2), &mut mem, &mut rng());
    assert_eq!(s.tuples, pairs(&[(1, 9), (2, 9)]));
}

#[test]
fn lrtt2_single_path_changes_nothing() {
    let paths = vec![path(0, 1, 9, 10, false)];
    let mut rcvd = AddrMap::new();
    rcvd.insert(addr(1), 0);
    let mut mem = PathMemory::new();
    let s = scheduler_fn(Side::Client, Scheduler::Lrtt2, &paths, &rcvd, ctx(1000, 1, 2), &mut mem, &mut rng());
    assert_eq!(s.tuples, pairs(&[(1, 9)]));
    assert!(!s.mark_lost);
}

#[test]
fn lrtt2_range_check_rejects_future_times() {
    let paths = vec![path(0, 1, 9, 10, false), path(1, 2, 9, 10, false)];
    let mut rcvd = AddrMap::new();
    rcvd.insert(addr(1), 200 * MS);
    assert!(!lrtt2_inputs_in_range(Side::Client, &paths, &rcvd, 100 * MS, 25));
    let huge = vec![PathStat { rttvar: CUT_KEY, ..path(0, 1, 9, 10, false) }, path(1, 2, 9, 10, false)];
    rcvd.insert(addr(1), 0);
    assert!(!lrtt2_inputs_in_range(Side::Client, &huge, &rcvd, 100 * MS, 25));
}

#[test]
fn other_path_for_duplicates() {
    let paths = vec![path(0, 1, 9, 1, false), path(1, 2, 9, 1, true), path(2, 3, 9, 1, false)];
    assert_eq!(get_other_path(Side::Client, addr(1), addr(9), &paths), Some((addr(3), addr(9))));
    assert_eq!(get_other_path(Side::Server, addr(1), addr(9), &paths), None);
    let srv = vec![path(0, 9, 1, 1, false), path(1, 9, 2, 1, false)];
    assert_eq!(get_other_path(Side::Server, addr(9), addr(1), &srv), Some((addr(9), addr(2))));
}

#[test]
fn primary_path_follows_first_pair() {
    let t = pairs(&[(1, 9), (2, 9)]);
    assert_eq!(next_primary_path(Side::Client, &t, addr(5)), addr(1));
    assert_eq!(next_primary_path(Side::Server, &t, addr(5)), addr(9));
    assert_eq!(next_primary_path(Side::Client, &Vec::new(), addr(5)), addr(5));
}

#[test]
fn addr_map_insert_and_get() {
    let mut m: AddrMap<u128> = AddrMap::new();
    m.insert(addr(1), 5);
    m.insert(addr(2), 6);
    m.insert(addr(1), 7);
    assert_eq!(m.get(&addr(1)), Some(7));
    assert_eq!(m.get(&addr(2)), Some(6));
    assert_eq!(m.get(&addr(3)), None);
    assert_eq!(m.len(), 2);
    assert!(m.contains_key(&addr(2)));
}
