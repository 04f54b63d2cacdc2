//! Multipath scheduling: the order in which a connection's paths are served.
use vstd::prelude::*;
use crate::addr_map::AddrMap;
use crate::bytes::bytes_eq;
use crate::net::SockAddr;
use rand::rngs::StdRng;
use crate::order::{lemma_sorted_positions, positions, random_order, sorted_positions, stable_order};

verus! {

broadcast use vstd::seq_lib::group_to_multiset_ensures;

/// Nanoseconds in a millisecond.
pub const NANOS_PER_MILLI: u128 = 1_000_000;

/// The largest duration, in nanoseconds: `u64::MAX` seconds and 999_999_999
/// nanoseconds.
pub const MAX_DURATION_NANOS: u128 = 18_446_744_073_709_551_615_999_999_999;

/// The key that sorts a cut path last: `u64::MAX` whole seconds, in
/// nanoseconds.
pub const CUT_KEY: u128 = 18_446_744_073_709_551_615_000_000_000;

/// Which end of the connection schedules: a client identifies a path by its
/// local address, a server by its peer address.
#[derive(Clone, Copy, Debug, PartialEq, Eq, Structural)]
pub enum Side {
    Client,
    Server,
}

/// What a scheduler reads of one path of a connection; durations are in
/// nanoseconds.
#[derive(Clone, Copy, Debug)]
pub struct PathStat {
    pub path_id: u64,
    pub local_addr: SockAddr,
    pub peer_addr: SockAddr,
    pub rtt: u128,
    pub rttvar: u128,
    pub closed: bool,
}

/// The path schedulers.
#[derive(Clone, Copy, Debug, PartialEq, Eq, Structural)]
pub enum Scheduler {
    /// Lowest smoothed RTT first.
    Lrtt,
    /// Lowest RTT first, with paths that went silent sent last.
    Lrtt2,
    /// The connection's own order.
    Normal,
    /// The path that last received data first.
    Last,
    /// A random order.
    Random,
}

/// The address by which `side` identifies a path.
pub open spec fn key_addr(side: Side, p: PathStat) -> SockAddr {
    match side {
        Side::Client => p.local_addr,
        Side::Server => p.peer_addr,
    }
}

/// The (local, peer) pair of a path.
pub open spec fn path_tuple(p: PathStat) -> (SockAddr, SockAddr) {
    (p.local_addr, p.peer_addr)
}

/// The paths that are not closed, in their order.
pub open spec fn open_paths(ps: Seq<PathStat>) -> Seq<PathStat>
    decreases ps.len(),
{
    if ps.len() == 0 {
        ps
    } else if ps.last().closed {
        open_paths(ps.drop_last())
    } else {
        open_paths(ps.drop_last()).push(ps.last())
    }
}

/// The (local, peer) pairs of `open` taken in the order of `order`.
pub open spec fn tuples_in_order(open: Seq<PathStat>, order: Seq<u64>) -> Seq<(SockAddr, SockAddr)> {
    order.map_values(|i: u64| path_tuple(open[i as int]))
}

pub open spec fn name_lrtt() -> Seq<u8> {
    seq![0x6cu8, 0x72u8, 0x74u8, 0x74u8]
}

pub open spec fn name_lrtt2() -> Seq<u8> {
    seq![0x6cu8, 0x72u8, 0x74u8, 0x74u8, 0x32u8]
}

pub open spec fn name_normal() -> Seq<u8> {
    seq![0x6eu8, 0x6fu8, 0x72u8, 0x6du8, 0x61u8, 0x6cu8]
}

pub open spec fn name_last() -> Seq<u8> {
    seq![0x6cu8, 0x61u8, 0x73u8, 0x74u8]
}

impl Scheduler {
    /// The scheduler that a name selects: `lrtt`, `lrtt2`, `normal`, `last`,
    /// and the random one for every other name.
    pub open spec fn spec_from_name(name: Seq<u8>) -> Scheduler {
        if name == name_lrtt() {
            Scheduler::Lrtt
        } else if name == name_lrtt2() {
            Scheduler::Lrtt2
        } else if name == name_normal() {
            Scheduler::Normal
        } else if name == name_last() {
            Scheduler::Last
        } else {
            Scheduler::Random
        }
    }

    /// Selects a scheduler by its name, given as bytes.
    pub fn from_name(name: &[u8]) -> (s: Scheduler)
        ensures
            s == Self::spec_from_name(name@),
    {
        let lrtt: [u8; 4] = [0x6c, 0x72, 0x74, 0x74];
        let lrtt2: [u8; 5] = [0x6c, 0x72, 0x74, 0x74, 0x32];
        let normal: [u8; 6] = [0x6e, 0x6f, 0x72, 0x6d, 0x61, 0x6c];
        let last: [u8; 4] = [0x6c, 0x61, 0x73, 0x74];
        assert(lrtt@ =~= name_lrtt());
        assert(lrtt2@ =~= name_lrtt2());
        assert(normal@ =~= name_normal());
        assert(last@ =~= name_last());
        if bytes_eq(name, lrtt.as_slice()) {
            Scheduler::Lrtt
        } else if bytes_eq(name, lrtt2.as_slice()) {
            Scheduler::Lrtt2
        } else if bytes_eq(name, normal.as_slice()) {
            Scheduler::Normal
        } else if bytes_eq(name, last.as_slice()) {
            Scheduler::Last
        } else {
            Scheduler::Random
        }
    }

    /// The scheduler actually used: the connection's own order until the
    /// handshake completes, the configured one afterwards.
    pub fn effective(self, established: bool) -> (s: Scheduler)
        ensures
            s == (if established { self } else { Scheduler::Normal }),
    {
        if !established {
            Scheduler::Normal
        } else {
            self
        }
    }
}

/// The key-addresses that have a cut mark also have a recorded RTT.
pub open spec fn memory_ok(cut: Map<SockAddr, bool>, rtts: Map<SockAddr, u128>) -> bool {
    forall|a: SockAddr| #[trigger] cut.dom().contains(a) && cut[a] ==> rtts.dom().contains(a)
}

/// Per-connection state of the `lrtt2` scheduler: which paths are cut, and the
/// RTT last seen on each.
pub struct PathMemory {
    cut: AddrMap<bool>,
    rtts: AddrMap<u128>,
}

impl PathMemory {
    #[verifier::type_invariant]
    closed spec fn inv(self) -> bool {
        memory_ok(self.cut@, self.rtts@)
    }

    /// The cut marks.
    pub closed spec fn cut_view(&self) -> Map<SockAddr, bool> {
        self.cut@
    }

    /// The recorded RTTs.
    pub closed spec fn rtt_view(&self) -> Map<SockAddr, u128> {
        self.rtts@
    }

    /// Empty state.
    pub fn new() -> (m: Self)
        ensures
            m.cut_view() == Map::<SockAddr, bool>::empty(),
            m.rtt_view() == Map::<SockAddr, u128>::empty(),
    {
        PathMemory { cut: AddrMap::new(), rtts: AddrMap::new() }
    }

    /// Starts tracking an address: not cut, with an RTT of zero.
    pub fn track(&mut self, a: SockAddr)
        ensures
            final(self).cut_view() == old(self).cut_view().insert(a, false),
            final(self).rtt_view() == old(self).rtt_view().insert(a, 0),
    {
        self.update(a, Some(false), 0);
    }

    /// Records `rtt` for `a` and, when `cut` is given, the cut mark too.
    fn update(&mut self, a: SockAddr, cut: Option<bool>, rtt: u128)
        ensures
            final(self).cut_view() == (match cut {
                Some(c) => old(self).cut_view().insert(a, c),
                None => old(self).cut_view(),
            }),
            final(self).rtt_view() == old(self).rtt_view().insert(a, rtt),
    {
        proof {
            use_type_invariant(&*self);
        }
        let mut c: AddrMap<bool> = AddrMap::new();
        std::mem::swap(&mut c, &mut self.cut);
        let mut r: AddrMap<u128> = AddrMap::new();
        std::mem::swap(&mut r, &mut self.rtts);
        r.insert(a, rtt);
        match cut {
            Some(b) => c.insert(a, b),
            None => {},
        }
        self.rtts = r;
        self.cut = c;
    }

    fn cut_of(&self, a: &SockAddr) -> (r: Option<bool>)
        ensures
            r == (if self.cut_view().dom().contains(*a) { Some(self.cut_view()[*a]) } else { None }),
    {
        self.cut.get(a)
    }

    fn rtt_of(&self, a: &SockAddr) -> (r: Option<u128>)
        ensures
            r == (if self.rtt_view().dom().contains(*a) { Some(self.rtt_view()[*a]) } else { None }),
    {
        self.rtts.get(a)
    }

}

/// The limit past which a path counts as silent: its RTT, plus four times
/// its RTT variance or one millisecond, whichever is larger, plus the
/// configured threshold.
pub open spec fn silence_limit(p: PathStat, threshold_ms: u64) -> int {
    p.rtt + (if 4 * p.rttvar > NANOS_PER_MILLI { 4 * p.rttvar } else { NANOS_PER_MILLI as int })
        + threshold_ms * NANOS_PER_MILLI
}

/// One `lrtt2` key evaluation: the path's sort key, the new cut marks and
/// RTTs, and whether the path was cut while being the trigger address.
pub open spec fn lrtt2_step(
    side: Side,
    p: PathStat,
    rcvd: Map<SockAddr, u128>,
    now: u128,
    threshold_ms: u64,
    trigger: SockAddr,
    cut: Map<SockAddr, bool>,
    rtts: Map<SockAddr, u128>,
) -> (u128, Map<SockAddr, bool>, Map<SockAddr, u128>, bool) {
    let a = key_addr(side, p);
    if rcvd.dom().contains(a) && now - rcvd[a] > silence_limit(p, threshold_ms) {
        (CUT_KEY, cut.insert(a, true), rtts.insert(a, p.rtt), a == trigger)
    } else if rcvd.dom().contains(a) && cut.dom().contains(a) && cut[a] {
        if p.rtt == rtts[a] {
            (CUT_KEY, cut, rtts, false)
        } else {
            (p.rtt, cut.insert(a, false), rtts.insert(a, p.rtt), false)
        }
    } else {
        (p.rtt, cut, rtts.insert(a, p.rtt), false)
    }
}

/// The `lrtt2` keys of a sequence of paths, evaluated in order, with the
/// resulting state and whether some trigger path was cut.
pub open spec fn lrtt2_fold(
    side: Side,
    ps: Seq<PathStat>,
    rcvd: Map<SockAddr, u128>,
    now: u128,
    threshold_ms: u64,
    trigger: SockAddr,
    cut: Map<SockAddr, bool>,
    rtts: Map<SockAddr, u128>,
) -> (Seq<u128>, Map<SockAddr, bool>, Map<SockAddr, u128>, bool)
    decreases ps.len(),
{
    if ps.len() == 0 {
        (Seq::empty(), cut, rtts, false)
    } else {
        let r = lrtt2_fold(side, ps.drop_last(), rcvd, now, threshold_ms, trigger, cut, rtts);
        let s = lrtt2_step(side, ps.last(), rcvd, now, threshold_ms, trigger, r.1, r.2);
        (r.0.push(s.0), s.1, s.2, r.3 || s.3)
    }
}

/// The `lrtt2` arithmetic stays within durations for every path that has a
/// receive time: that time is not after `now`, and the silence limit and its
/// parts are durations.
pub open spec fn lrtt2_in_range(
    side: Side,
    open: Seq<PathStat>,
    rcvd: Map<SockAddr, u128>,
    now: u128,
    threshold_ms: u64,
) -> bool {
    forall|i: int|
        0 <= i < open.len() && #[trigger] rcvd.dom().contains(key_addr(side, open[i])) ==> {
            &&& rcvd[key_addr(side, open[i])] <= now
            &&& 4 * open[i].rttvar <= MAX_DURATION_NANOS
            &&& silence_limit(open[i], 0) <= MAX_DURATION_NANOS
            &&& silence_limit(open[i], threshold_ms) <= MAX_DURATION_NANOS
        }
}

/// What a scheduler reads besides the paths and the receive times.
#[derive(Clone, Copy, Debug)]
pub struct SchedContext {
    /// Time since the start of the connection's application data, in
    /// nanoseconds.
    pub now: u128,
    /// Extra silence allowed before a path is cut, in milliseconds.
    pub threshold_ms: u64,
    pub last_addr_recv: SockAddr,
    pub last_primary_path: SockAddr,
    pub established: bool,
}

/// The address whose cut triggers the loss of the primary path's packets:
/// a client watches its last primary path, a server the address it last
/// received from.
pub open spec fn trigger_addr(side: Side, ctx: SchedContext) -> SockAddr {
    match side {
        Side::Client => ctx.last_primary_path,
        Side::Server => ctx.last_addr_recv,
    }
}

/// The keys of the `last` scheduler: 0 for the path that last received, 1 for
/// the others.
pub open spec fn last_keys(side: Side, open: Seq<PathStat>, last: SockAddr) -> Seq<u128> {
    open.map_values(|p: PathStat| if key_addr(side, p) == last { 0u128 } else { 1u128 })
}

/// The keys of the `lrtt` scheduler: the RTTs.
pub open spec fn rtt_keys(open: Seq<PathStat>) -> Seq<u128> {
    open.map_values(|p: PathStat| p.rtt)
}

/// The order, new state and loss decision of a deterministic scheduler. The
/// `lrtt2` keys are evaluated only when there are two open paths or more.
pub open spec fn spec_schedule(
    side: Side,
    scheduler: Scheduler,
    paths: Seq<PathStat>,
    rcvd: Map<SockAddr, u128>,
    ctx: SchedContext,
    cut: Map<SockAddr, bool>,
    rtts: Map<SockAddr, u128>,
) -> (Seq<u64>, Map<SockAddr, bool>, Map<SockAddr, u128>, bool) {
    let open = open_paths(paths);
    match scheduler {
        Scheduler::Lrtt => (sorted_positions(rtt_keys(open)), cut, rtts, false),
        Scheduler::Last => (sorted_positions(last_keys(side, open, ctx.last_addr_recv)), cut, rtts, false),
        Scheduler::Lrtt2 => {
            if open.len() < 2 {
                (positions(open.len()), cut, rtts, false)
            } else {
                let f = lrtt2_fold(side, open, rcvd, ctx.now, ctx.threshold_ms, trigger_addr(side, ctx), cut, rtts);
                let order = sorted_positions(f.0);
                let primary = key_addr(side, open[order[0] as int]);
                (order, f.1, f.2, f.3 && ctx.established && primary != ctx.last_primary_path)
            }
        },
        _ => (positions(open.len()), cut, rtts, false),
    }
}

/// The order in which a connection's paths are served.
pub struct Schedule {
    /// (local, peer) pairs, first served first.
    pub tuples: Vec<(SockAddr, SockAddr)>,
    /// Whether all packets in flight on the last primary path are to be
    /// declared lost.
    pub mark_lost: bool,
}

fn collect_open(paths: &Vec<PathStat>) -> (open: Vec<PathStat>)
    ensures
        open@ == open_paths(paths@),
        open@.len() <= paths@.len(),
{
    let mut open: Vec<PathStat> = Vec::new();
    let mut i: usize = 0;
    while i < paths.len()
        invariant
            i <= paths@.len(),
            open@ == open_paths(paths@.take(i as int)),
            open@.len() <= i,
        decreases paths@.len() - i,
    {
        assert(paths@.take(i + 1).drop_last() =~= paths@.take(i as int));
        if !paths[i].closed {
            open.push(paths[i]);
        }
        i = i + 1;
    }
    assert(paths@.take(paths@.len() as int) =~= paths@);
    open
}

fn tuples_of(open: &Vec<PathStat>, order: &Vec<u64>) -> (t: Vec<(SockAddr, SockAddr)>)
    requires
        forall|i: int| 0 <= i < order@.len() ==> (#[trigger] order@[i]) < open@.len(),
    ensures
        t@ == tuples_in_order(open@, order@),
{
    let mut t: Vec<(SockAddr, SockAddr)> = Vec::new();
    let mut i: usize = 0;
    while i < order.len()
        invariant
            i <= order@.len(),
            forall|k: int| 0 <= k < order@.len() ==> (#[trigger] order@[k]) < open@.len(),
            open@.len() == open.len(),
            t@ == tuples_in_order(open@, order@.take(i as int)),
        decreases order@.len() - i,
    {
        let k = order[i] as usize;
        let p = open[k];
        let ghost t0 = t@;
        t.push((p.local_addr, p.peer_addr));
        proof {
            assert(k as int == order@[i as int] as int);
            assert(order@.take(i + 1) =~= order@.take(i as int).push(order@[i as int]));
            assert(tuples_in_order(open@, order@.take(i + 1)) =~= t0.push(
                path_tuple(open@[order@[i as int] as int]),
            ));
        }
        i = i + 1;
    }
    assert(order@.take(order@.len() as int) =~= order@);
    t
}

fn identity_order(n: usize) -> (order: Vec<u64>)
    requires
        n <= u64::MAX,
    ensures
        order@ == positions(n as nat),
{
    let mut order: Vec<u64> = Vec::new();
    let mut i: usize = 0;
    while i < n
        invariant
            i <= n <= u64::MAX,
            order@ == positions(i as nat),
        decreases n - i,
    {
        order.push(i as u64);
        i = i + 1;
        assert(order@ =~= positions(i as nat));
    }
    order
}

fn key_addr_of(side: Side, p: &PathStat) -> (a: SockAddr)
    ensures
        a == key_addr(side, *p),
{
    match side {
        Side::Client => p.local_addr,
        Side::Server => p.peer_addr,
    }
}

fn lrtt2_keys(
    side: Side,
    open: &Vec<PathStat>,
    rcvd: &AddrMap<u128>,
    now: u128,
    threshold_ms: u64,
    trigger: SockAddr,
    memory: &mut PathMemory,
) -> (r: (Vec<u128>, bool))
    requires
        lrtt2_in_range(side, open@, rcvd@, now, threshold_ms),
    ensures
        (r.0@, final(memory).cut_view(), final(memory).rtt_view(), r.1) == lrtt2_fold(
            side,
            open@,
            rcvd@,
            now,
            threshold_ms,
            trigger,
            old(memory).cut_view(),
            old(memory).rtt_view(),
        ),
{
    let ghost cut0 = memory.cut_view();
    let ghost rtts0 = memory.rtt_view();
    let mut keys: Vec<u128> = Vec::new();
    let mut cutted = false;
    let mut i: usize = 0;
    while i < open.len()
        invariant
            i <= open@.len(),
            lrtt2_in_range(side, open@, rcvd@, now, threshold_ms),
            (keys@, memory.cut_view(), memory.rtt_view(), cutted) == lrtt2_fold(
                side,
                open@.take(i as int),
                rcvd@,
                now,
                threshold_ms,
                trigger,
                cut0,
                rtts0,
            ),
        decreases open@.len() - i,
    {
        proof {
            use_type_invariant(&*memory);
            assert(open@.take(i + 1).drop_last() =~= open@.take(i as int));
            assert(open@.take(i + 1).last() == open@[i as int]);
        }
        let p = open[i];
        let a = key_addr_of(side, &p);
        let key: u128;
        match rcvd.get(&a) {
            Some(t) => {
                let n = now - t;
                let var4 = 4 * p.rttvar;
                let m = if var4 > NANOS_PER_MILLI { var4 } else { NANOS_PER_MILLI };
                let limit = p.rtt + m + (threshold_ms as u128) * NANOS_PER_MILLI;
                if n > limit {
                    if a == trigger {
                        cutted = true;
                    }
                    memory.update(a, Some(true), p.rtt);
                    key = CUT_KEY;
                } else if memory.cut_of(&a) == Some(true) {
                    match memory.rtt_of(&a) {
                        Some(r) => {
                            if p.rtt == r {
                                key = CUT_KEY;
                            } else {
                                memory.update(a, Some(false), p.rtt);
                                key = p.rtt;
                            }
                        },
                        None => {
                            key = p.rtt;
                        },
                    }
                } else {
                    memory.update(a, None, p.rtt);
                    key = p.rtt;
                }
            },
            None => {
                memory.update(a, None, p.rtt);
                key = p.rtt;
            },
        }
        keys.push(key);
        i = i + 1;
    }
    assert(open@.take(open@.len() as int) =~= open@);
    (keys, cutted)
}

/// Orders the open paths of a connection for sending.
///
/// `lrtt` sorts by RTT, `last` puts the path that last received first,
/// `normal` keeps the connection's order, `lrtt2` sorts by RTT with silent
/// paths last and updates `memory`, and the random scheduler shuffles with
/// `rng`. Closed paths are never scheduled.
pub fn scheduler_fn(
    side: Side,
    scheduler: Scheduler,
    paths: &Vec<PathStat>,
    rcvd_time_map: &AddrMap<u128>,
    ctx: SchedContext,
    memory: &mut PathMemory,
    rng: &mut StdRng,
) -> (s: Schedule)
    requires
        paths@.len() <= u64::MAX,
        scheduler == Scheduler::Lrtt2 && open_paths(paths@).len() >= 2 ==> lrtt2_in_range(
            side,
            open_paths(paths@),
            rcvd_time_map@,
            ctx.now,
            ctx.threshold_ms,
        ),
    ensures
        scheduler != Scheduler::Random ==> {
            let r = spec_schedule(
                side,
                scheduler,
                paths@,
                rcvd_time_map@,
                ctx,
                old(memory).cut_view(),
                old(memory).rtt_view(),
            );
            &&& s.tuples@ == tuples_in_order(open_paths(paths@), r.0)
            &&& final(memory).cut_view() == r.1
            &&& final(memory).rtt_view() == r.2
            &&& s.mark_lost == r.3
        },
        scheduler == Scheduler::Random ==> {
            &&& exists|order: Seq<u64>|
                order.to_multiset() == positions(open_paths(paths@).len()).to_multiset()
                    && s.tuples@ == tuples_in_order(open_paths(paths@), order)
            &&& final(memory).cut_view() == old(memory).cut_view()
            &&& final(memory).rtt_view() == old(memory).rtt_view()
            &&& !s.mark_lost
        },
{
    let open = collect_open(paths);
    let n = open.len();
    match scheduler {
        Scheduler::Lrtt => {
            let mut keys: Vec<u128> = Vec::new();
            let mut i: usize = 0;
            while i < n
                invariant
                    n == open@.len(),
                    i <= n,
                    keys@ == rtt_keys(open@.take(i as int)),
                decreases n - i,
            {
                keys.push(open[i].rtt);
                i = i + 1;
                assert(keys@ =~= rtt_keys(open@.take(i as int)));
            }
            assert(open@.take(n as int) =~= open@);
            let order = stable_order(&keys);
            proof {
                lemma_sorted_positions(keys@);
            }
            Schedule { tuples: tuples_of(&open, &order), mark_lost: false }
        },
        Scheduler::Last => {
            let mut keys: Vec<u128> = Vec::new();
            let mut i: usize = 0;
            while i < n
                invariant
                    n == open@.len(),
                    i <= n,
                    keys@ == last_keys(side, open@.take(i as int), ctx.last_addr_recv),
                decreases n - i,
            {
                let a = key_addr_of(side, &open[i]);
                keys.push(if a == ctx.last_addr_recv { 0 } else { 1 });
                i = i + 1;
                assert(keys@ =~= last_keys(side, open@.take(i as int), ctx.last_addr_recv));
            }
            assert(open@.take(n as int) =~= open@);
            let order = stable_order(&keys);
            proof {
                lemma_sorted_positions(keys@);
            }
            Schedule { tuples: tuples_of(&open, &order), mark_lost: false }
        },
        Scheduler::Lrtt2 => {
            if n < 2 {
                let order = identity_order(n);
                Schedule { tuples: tuples_of(&open, &order), mark_lost: false }
            } else {
                let trigger = match side {
                    Side::Client => ctx.last_primary_path,
                    Side::Server => ctx.last_addr_recv,
                };
                let (keys, cutted) = lrtt2_keys(
                    side,
                    &open,
                    rcvd_time_map,
                    ctx.now,
                    ctx.threshold_ms,
                    trigger,
                    memory,
                );
                proof {
                    lemma_lrtt2_fold_len(side, open@, rcvd_time_map@, ctx.now, ctx.threshold_ms, trigger,
                        old(memory).cut_view(), old(memory).rtt_view());
                }
                let order = stable_order(&keys);
                proof {
                    lemma_sorted_positions(keys@);
                }
                let first = order[0] as usize;
                let primary = key_addr_of(side, &open[first]);
                let mark_lost = cutted && ctx.established && primary != ctx.last_primary_path;
                Schedule { tuples: tuples_of(&open, &order), mark_lost }
            }
        },
        Scheduler::Normal => {
            let order = identity_order(n);
            Schedule { tuples: tuples_of(&open, &order), mark_lost: false }
        },
        Scheduler::Random => {
            let order = random_order(n, rng);
            proof {
                assert forall|i: int| 0 <= i < order@.len() implies (#[trigger] order@[i]) < open@.len() by {
                    assert(order@.contains(order@[i]));
                    assert(order@.to_multiset().count(order@[i]) > 0);
                    assert(positions(n as nat).contains(order@[i]));
                }
            }
            Schedule { tuples: tuples_of(&open, &order), mark_lost: false }
        },
    }
}

proof fn lemma_lrtt2_fold_len(
    side: Side,
    ps: Seq<PathStat>,
    rcvd: Map<SockAddr, u128>,
    now: u128,
    threshold_ms: u64,
    trigger: SockAddr,
    cut: Map<SockAddr, bool>,
    rtts: Map<SockAddr, u128>,
)
    ensures
        lrtt2_fold(side, ps, rcvd, now, threshold_ms, trigger, cut, rtts).0.len() == ps.len(),
    decreases ps.len(),
{
    if ps.len() > 0 {
        lemma_lrtt2_fold_len(side, ps.drop_last(), rcvd, now, threshold_ms, trigger, cut, rtts);
    }
}

} // verus!

verus! {

/// Every deterministic scheduler serves each open path exactly once, and
/// only open paths.
pub proof fn lemma_schedule_serves_open_paths_once(
    side: Side,
    scheduler: Scheduler,
    paths: Seq<PathStat>,
    rcvd: Map<SockAddr, u128>,
    ctx: SchedContext,
    cut: Map<SockAddr, bool>,
    rtts: Map<SockAddr, u128>,
)
    requires
        paths.len() <= u64::MAX,
    ensures
        spec_schedule(side, scheduler, paths, rcvd, ctx, cut, rtts).0.to_multiset()
            == positions(open_paths(paths).len()).to_multiset(),
{
    let open = open_paths(paths);
    lemma_open_paths_len(paths);
    match scheduler {
        Scheduler::Lrtt => {
            lemma_sorted_positions(rtt_keys(open));
        },
        Scheduler::Last => {
            lemma_sorted_positions(last_keys(side, open, ctx.last_addr_recv));
        },
        Scheduler::Lrtt2 => {
            if open.len() >= 2 {
                let f = lrtt2_fold(side, open, rcvd, ctx.now, ctx.threshold_ms, trigger_addr(side, ctx), cut, rtts);
                lemma_lrtt2_fold_len(side, open, rcvd, ctx.now, ctx.threshold_ms, trigger_addr(side, ctx), cut, rtts);
                lemma_sorted_positions(f.0);
            }
        },
        _ => {},
    }
}

/// The open paths are at most as many as the paths.
pub proof fn lemma_open_paths_len(ps: Seq<PathStat>)
    ensures
        open_paths(ps).len() <= ps.len(),
        forall|i: int| 0 <= i < open_paths(ps).len() ==> !(#[trigger] open_paths(ps)[i]).closed,
    decreases ps.len(),
{
    if ps.len() > 0 {
        lemma_open_paths_len(ps.drop_last());
    }
}

/// The `lrtt` scheduler serves paths by nondecreasing RTT.
pub proof fn lemma_lrtt_ascending(
    side: Side,
    paths: Seq<PathStat>,
    rcvd: Map<SockAddr, u128>,
    ctx: SchedContext,
    cut: Map<SockAddr, bool>,
    rtts: Map<SockAddr, u128>,
    i: int,
    j: int,
)
    requires
        paths.len() <= u64::MAX,
        0 <= i <= j < open_paths(paths).len(),
    ensures
        ({
            let open = open_paths(paths);
            let order = spec_schedule(side, Scheduler::Lrtt, paths, rcvd, ctx, cut, rtts).0;
            open[order[i] as int].rtt <= open[order[j] as int].rtt
        }),
{
    let open = open_paths(paths);
    lemma_open_paths_len(paths);
    lemma_sorted_positions(rtt_keys(open));
}

/// The `last` scheduler serves the paths of the address that last received
/// before all others.
pub proof fn lemma_last_first(
    side: Side,
    paths: Seq<PathStat>,
    rcvd: Map<SockAddr, u128>,
    ctx: SchedContext,
    cut: Map<SockAddr, bool>,
    rtts: Map<SockAddr, u128>,
    i: int,
    j: int,
)
    requires
        paths.len() <= u64::MAX,
        0 <= i <= j < open_paths(paths).len(),
        ({
            let open = open_paths(paths);
            let order = spec_schedule(side, Scheduler::Last, paths, rcvd, ctx, cut, rtts).0;
            key_addr(side, open[order[j] as int]) == ctx.last_addr_recv
        }),
    ensures
        ({
            let open = open_paths(paths);
            let order = spec_schedule(side, Scheduler::Last, paths, rcvd, ctx, cut, rtts).0;
            key_addr(side, open[order[i] as int]) == ctx.last_addr_recv
        }),
{
    let open = open_paths(paths);
    lemma_open_paths_len(paths);
    lemma_sorted_positions(last_keys(side, open, ctx.last_addr_recv));
}

/// The `lrtt2` scheduler serves paths by nondecreasing key, where a path's
/// key is its RTT or, once it is cut, the largest whole-second duration.
pub proof fn lemma_lrtt2_ascending(
    side: Side,
    paths: Seq<PathStat>,
    rcvd: Map<SockAddr, u128>,
    ctx: SchedContext,
    cut: Map<SockAddr, bool>,
    rtts: Map<SockAddr, u128>,
    i: int,
    j: int,
)
    requires
        paths.len() <= u64::MAX,
        open_paths(paths).len() >= 2,
        0 <= i <= j < open_paths(paths).len(),
    ensures
        ({
            let open = open_paths(paths);
            let keys = lrtt2_fold(side, open, rcvd, ctx.now, ctx.threshold_ms, trigger_addr(side, ctx), cut, rtts).0;
            let order = spec_schedule(side, Scheduler::Lrtt2, paths, rcvd, ctx, cut, rtts).0;
            keys[order[i] as int] <= keys[order[j] as int]
        }),
{
    let open = open_paths(paths);
    lemma_open_paths_len(paths);
    let f = lrtt2_fold(side, open, rcvd, ctx.now, ctx.threshold_ms, trigger_addr(side, ctx), cut, rtts);
    lemma_lrtt2_fold_len(side, open, rcvd, ctx.now, ctx.threshold_ms, trigger_addr(side, ctx), cut, rtts);
    lemma_sorted_positions(f.0);
}

/// An `lrtt2` evaluation keeps the memory's rule that a cut mark comes with
/// a recorded RTT.
pub proof fn lemma_lrtt2_keeps_memory_ok(
    side: Side,
    ps: Seq<PathStat>,
    rcvd: Map<SockAddr, u128>,
    now: u128,
    threshold_ms: u64,
    trigger: SockAddr,
    cut: Map<SockAddr, bool>,
    rtts: Map<SockAddr, u128>,
)
    requires
        memory_ok(cut, rtts),
    ensures
        ({
            let f = lrtt2_fold(side, ps, rcvd, now, threshold_ms, trigger, cut, rtts);
            memory_ok(f.1, f.2)
        }),
    decreases ps.len(),
{
    if ps.len() > 0 {
        lemma_lrtt2_keeps_memory_ok(side, ps.drop_last(), rcvd, now, threshold_ms, trigger, cut, rtts);
    }
}

} // verus!

verus! {

/// Whether `p` is the other path for a duplicate of data sent on
/// (`src`, `dest`): a client takes another local address towards the same
/// peer, a server the same local address towards another peer.
pub open spec fn is_other_path(side: Side, p: PathStat, src: SockAddr, dest: SockAddr) -> bool {
    match side {
        Side::Client => p.local_addr != src && p.peer_addr == dest,
        Side::Server => p.local_addr == src && p.peer_addr != dest,
    }
}

/// The position of the first element of `open` that is an other path, or
/// `open.len()` when there is none.
pub open spec fn first_other_path(side: Side, open: Seq<PathStat>, src: SockAddr, dest: SockAddr) -> int
    decreases open.len(),
{
    if open.len() == 0 {
        0
    } else if is_other_path(side, open[0], src, dest) {
        0
    } else {
        1 + first_other_path(side, open.drop_first(), src, dest)
    }
}

proof fn lemma_first_other_path(side: Side, open: Seq<PathStat>, src: SockAddr, dest: SockAddr)
    ensures
        0 <= first_other_path(side, open, src, dest) <= open.len(),
        forall|i: int| 0 <= i < first_other_path(side, open, src, dest)
            ==> !is_other_path(side, #[trigger] open[i], src, dest),
        first_other_path(side, open, src, dest) < open.len() ==> is_other_path(
            side,
            open[first_other_path(side, open, src, dest)],
            src,
            dest,
        ),
    decreases open.len(),
{
    if open.len() > 0 && !is_other_path(side, open[0], src, dest) {
        lemma_first_other_path(side, open.drop_first(), src, dest);
        assert forall|i: int| 0 <= i < first_other_path(side, open, src, dest)
            implies !is_other_path(side, #[trigger] open[i], src, dest) by {
            if i > 0 {
                assert(open[i] == open.drop_first()[i - 1]);
            }
        }
    }
}

/// The first open path on which a duplicate of what was sent on
/// (`src`, `dest`) can go.
pub fn get_other_path(side: Side, src: SockAddr, dest: SockAddr, paths: &Vec<PathStat>) -> (r: Option<(SockAddr, SockAddr)>)
    ensures
        ({
            let open = open_paths(paths@);
            let k = first_other_path(side, open, src, dest);
            r == (if k < open.len() { Some(path_tuple(open[k])) } else { None })
        }),
{
    let open = collect_open(paths);
    proof {
        lemma_first_other_path(side, open@, src, dest);
    }
    let mut i: usize = 0;
    while i < open.len()
        invariant
            i <= open@.len(),
            open@ == open_paths(paths@),
            i <= first_other_path(side, open@, src, dest) <= open@.len(),
            forall|j: int| 0 <= j < first_other_path(side, open@, src, dest)
                ==> !is_other_path(side, #[trigger] open@[j], src, dest),
            first_other_path(side, open@, src, dest) < open@.len() ==> is_other_path(
                side,
                open@[first_other_path(side, open@, src, dest)],
                src,
                dest,
            ),
        decreases open@.len() - i,
    {
        let p = open[i];
        let hit = match side {
            Side::Client => p.local_addr != src && p.peer_addr == dest,
            Side::Server => p.local_addr == src && p.peer_addr != dest,
        };
        if hit {
            return Some((p.local_addr, p.peer_addr));
        }
        i = i + 1;
    }
    None
}

/// Whether the path at position `i` is the first of `paths`, open or closed,
/// that `side` identifies by `addr`.
pub open spec fn is_first_with_addr(side: Side, paths: Seq<PathStat>, addr: SockAddr, i: int) -> bool {
    &&& 0 <= i < paths.len()
    &&& key_addr(side, paths[i]) == addr
    &&& forall|j: int| 0 <= j < i ==> key_addr(side, #[trigger] paths[j]) != addr
}

/// The identifier of the first path, open or closed, that `side` identifies
/// by `addr`: the path whose packets in flight are declared lost when the
/// schedule says so.
pub fn find_path_id(side: Side, paths: &Vec<PathStat>, addr: SockAddr) -> (r: Option<u64>)
    ensures
        match r {
            Some(id) => exists|i: int| is_first_with_addr(side, paths@, addr, i) && paths@[i].path_id == id,
            None => forall|i: int| 0 <= i < paths@.len() ==> key_addr(side, #[trigger] paths@[i]) != addr,
        },
{
    let mut i: usize = 0;
    while i < paths.len()
        invariant
            i <= paths@.len(),
            forall|j: int| 0 <= j < i ==> key_addr(side, #[trigger] paths@[j]) != addr,
        decreases paths@.len() - i,
    {
        if key_addr_of(side, &paths[i]) == addr {
            assert(is_first_with_addr(side, paths@, addr, i as int));
            return Some(paths[i].path_id);
        }
        i = i + 1;
    }
    None
}

/// Checks the condition under which `scheduler_fn` may run the `lrtt2`
/// scheduler on these paths.
pub fn lrtt2_inputs_in_range(
    side: Side,
    paths: &Vec<PathStat>,
    rcvd_time_map: &AddrMap<u128>,
    now: u128,
    threshold_ms: u64,
) -> (ok: bool)
    ensures
        ok == lrtt2_in_range(side, open_paths(paths@), rcvd_time_map@, now, threshold_ms),
{
    let open = collect_open(paths);
    let mut i: usize = 0;
    while i < open.len()
        invariant
            i <= open@.len(),
            open@ == open_paths(paths@),
            lrtt2_in_range(side, open@.take(i as int), rcvd_time_map@, now, threshold_ms),
        decreases open@.len() - i,
    {
        let p = open[i];
        let a = key_addr_of(side, &p);
        match rcvd_time_map.get(&a) {
            Some(t) => {
                if t > now || p.rttvar > MAX_DURATION_NANOS / 4 {
                    proof {
                        assert(rcvd_time_map@.dom().contains(key_addr(side, open@[i as int])));
                        assert(rcvd_time_map@[key_addr(side, open@[i as int])] == t);
                        assert(!(t <= now && 4 * p.rttvar <= MAX_DURATION_NANOS));
                    }
                    return false;
                }
                let var4 = 4 * p.rttvar;
                let m = if var4 > NANOS_PER_MILLI { var4 } else { NANOS_PER_MILLI };
                if p.rtt > MAX_DURATION_NANOS - m
                    || (threshold_ms as u128) * NANOS_PER_MILLI > MAX_DURATION_NANOS - (p.rtt + m) {
                    proof {
                        assert(rcvd_time_map@.dom().contains(key_addr(side, open@[i as int])));
                        assert(!(silence_limit(p, 0) <= MAX_DURATION_NANOS
                            && silence_limit(p, threshold_ms) <= MAX_DURATION_NANOS));
                    }
                    return false;
                }
            },
            None => {},
        }
        proof {
            assert forall|j: int|
                0 <= j < i + 1 && #[trigger] rcvd_time_map@.dom().contains(
                    key_addr(side, open@.take(i + 1)[j]),
                ) implies {
                    &&& rcvd_time_map@[key_addr(side, open@.take(i + 1)[j])] <= now
                    &&& 4 * open@.take(i + 1)[j].rttvar <= MAX_DURATION_NANOS
                    &&& silence_limit(open@.take(i + 1)[j], 0) <= MAX_DURATION_NANOS
                    &&& silence_limit(open@.take(i + 1)[j], threshold_ms) <= MAX_DURATION_NANOS
                } by {
                if j < i {
                    assert(open@.take(i + 1)[j] == open@.take(i as int)[j]);
                }
            }
        }
        i = i + 1;
    }
    assert(open@.take(open@.len() as int) =~= open@);
    true
}

} // verus!

verus! {

/// The primary path after a schedule: the address by which `side`
/// identifies the first scheduled pair — the local address for a client,
/// the peer address for a server — or the current one when nothing is
/// scheduled.
pub open spec fn spec_next_primary(side: Side, tuples: Seq<(SockAddr, SockAddr)>, current: SockAddr) -> SockAddr {
    if tuples.len() == 0 {
        current
    } else {
        match side {
            Side::Client => tuples[0].0,
            Side::Server => tuples[0].1,
        }
    }
}

/// The primary path after serving the scheduled pairs in order.
pub fn next_primary_path(side: Side, tuples: &Vec<(SockAddr, SockAddr)>, current: SockAddr) -> (p: SockAddr)
    ensures
        p == spec_next_primary(side, tuples@, current),
{
    if tuples.len() == 0 {
        current
    } else {
        match side {
            Side::Client => tuples[0].0,
            Side::Server => tuples[0].1,
        }
    }
}

/// A path with a receive time gets the cut key and a cut mark exactly when
/// it has been silent for longer than its RTT, plus four times its RTT
/// variance or one millisecond, whichever is larger, plus the configured
/// threshold in milliseconds. A path silent no longer than that, and not
/// cut before, keeps its RTT as its key and gets no cut mark.
pub proof fn lemma_lrtt2_cuts_silent_paths(
    side: Side,
    p: PathStat,
    rcvd: Map<SockAddr, u128>,
    now: u128,
    threshold_ms: u64,
    trigger: SockAddr,
    cut: Map<SockAddr, bool>,
    rtts: Map<SockAddr, u128>,
)
    requires
        rcvd.dom().contains(key_addr(side, p)),
    ensures
        ({
            let a = key_addr(side, p);
            let limit = p.rtt + (if 4 * p.rttvar > 1_000_000 { 4 * p.rttvar } else { 1_000_000 })
                + threshold_ms * 1_000_000;
            let s = lrtt2_step(side, p, rcvd, now, threshold_ms, trigger, cut, rtts);
            &&& now - rcvd[a] > limit ==> s.0 == CUT_KEY && s.1 == cut.insert(a, true) && s.1[a]
            &&& now - rcvd[a] <= limit && !(cut.dom().contains(a) && cut[a]) ==> s.0 == p.rtt && s.1 == cut
                && !(s.1.dom().contains(a) && s.1[a])
        }),
{
}

} // verus!
