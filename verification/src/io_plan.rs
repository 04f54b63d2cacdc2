//! Decisions around the sockets: which local addresses to bind, how a
//! buffer is cut into datagrams, and when paths are due for probing traffic.
use vstd::prelude::*;
use crate::addr_map::AddrMap;
use crate::net::{IpAddr, SockAddr};
use crate::sched::NANOS_PER_MILLI;

verus! {

/// The datagrams into which `send_to` cuts the bytes `off..len`: consecutive
/// ranges of `seg` bytes, the last one shorter if need be.
pub open spec fn segments_from(off: int, len: int, seg: int) -> Seq<(int, int)>
    decreases len - off,
{
    if seg <= 0 || off >= len {
        Seq::empty()
    } else {
        let end = if off + seg < len { off + seg } else { len };
        seq![(off, end)] + segments_from(end, len, seg)
    }
}

/// The (start, end) ranges in which a buffer of `len` bytes is sent, one
/// datagram of at most `segment_size` bytes each. A zero segment size can
/// carry nothing, so it is accepted only for an empty buffer.
pub fn segment_bounds(len: usize, segment_size: usize) -> (out: Vec<(usize, usize)>)
    requires
        segment_size > 0 || len == 0,
    ensures
        out@.map_values(|r: (usize, usize)| (r.0 as int, r.1 as int)) == segments_from(
            0,
            len as int,
            segment_size as int,
        ),
{
    let mut out: Vec<(usize, usize)> = Vec::new();
    let mut off: usize = 0;
    let mut left: usize = len;
    while left > 0
        invariant
            off + left == len,
            segment_size > 0 || len == 0,
            out@.map_values(|r: (usize, usize)| (r.0 as int, r.1 as int)) + segments_from(
                off as int,
                len as int,
                segment_size as int,
            ) == segments_from(0, len as int, segment_size as int),
        decreases left,
    {
        let pkt_len = if left < segment_size { left } else { segment_size };
        let ghost before = out@.map_values(|r: (usize, usize)| (r.0 as int, r.1 as int));
        out.push((off, off + pkt_len));
        proof {
            let f = |r: (usize, usize)| (r.0 as int, r.1 as int);
            assert(out@.map_values(f) =~= before.push((off as int, (off + pkt_len) as int)));
            let rest = segments_from((off + pkt_len) as int, len as int, segment_size as int);
            assert(segments_from(off as int, len as int, segment_size as int) =~= seq![
                (off as int, (off + pkt_len) as int),
            ] + rest);
            assert(before.push((off as int, (off + pkt_len) as int)) + rest =~= before + (seq![
                (off as int, (off + pkt_len) as int),
            ] + rest));
        }
        off = off + pkt_len;
        left = left - pkt_len;
    }
    proof {
        assert(out@.map_values(|r: (usize, usize)| (r.0 as int, r.1 as int)) + Seq::<(int, int)>::empty()
            =~= out@.map_values(|r: (usize, usize)| (r.0 as int, r.1 as int)));
    }
    out
}

/// The datagram ranges tile the buffer: they start at `off`, each starts
/// where the previous one ended, each holds between 1 and `seg` bytes, and the
/// last ends at `len`.
pub proof fn lemma_segments_tile(off: int, len: int, seg: int)
    requires
        seg > 0,
        0 <= off <= len,
    ensures
        ({
            let s = segments_from(off, len, seg);
            &&& (s.len() == 0 <==> off == len)
            &&& s.len() > 0 ==> s[0].0 == off && s[s.len() - 1].1 == len
            &&& forall|i: int| 0 <= i < s.len() ==> 0 < (#[trigger] s[i]).1 - s[i].0 <= seg
            &&& forall|i: int| 0 <= i < s.len() - 1 ==> (#[trigger] s[i]).1 == s[i + 1].0
        }),
    decreases len - off,
{
    if off < len {
        let end = if off + seg < len { off + seg } else { len };
        lemma_segments_tile(end, len, seg);
        let s = segments_from(off, len, seg);
        let r = segments_from(end, len, seg);
        assert(s == seq![(off, end)] + r);
        assert forall|i: int| 0 <= i < s.len() implies 0 < (#[trigger] s[i]).1 - s[i].0 <= seg by {
            if i > 0 {
                assert(s[i] == r[i - 1]);
            }
        }
        assert forall|i: int| 0 <= i < s.len() - 1 implies (#[trigger] s[i]).1 == s[i + 1].0 by {
            if i > 0 {
                assert(s[i] == r[i - 1]);
            }
            assert(s[i + 1] == r[i]);
        }
    }
}

/// The local addresses that can reach the peer: those of the peer's IP
/// family, in their order.
pub open spec fn same_family(addrs: Seq<SockAddr>, peer: SockAddr) -> Seq<SockAddr> {
    addrs.filter(|a: SockAddr| a.is_v4() == peer.is_v4())
}

/// The local addresses to bind for a peer: the given ones of the peer's IP
/// family, in their order.
pub fn compatible_addrs(addrs: &Vec<SockAddr>, peer: &SockAddr) -> (out: Vec<SockAddr>)
    ensures
        out@ == same_family(addrs@, *peer),
{
    let mut out: Vec<SockAddr> = Vec::new();
    let mut i: usize = 0;
    while i < addrs.len()
        invariant
            i <= addrs@.len(),
            out@ == same_family(addrs@.take(i as int), *peer),
        decreases addrs@.len() - i,
    {
        let a = addrs[i];
        proof {
            assert(addrs@.take(i + 1) =~= addrs@.take(i as int).push(a));
            reveal_with_fuel(Seq::filter, 1);
        }
        if a.is_ipv4() == peer.is_ipv4() {
            out.push(a);
        }
        i = i + 1;
        proof {
            assert(addrs@.take(i as int).drop_last() =~= addrs@.take(i - 1));
        }
    }
    assert(addrs@.take(addrs@.len() as int) =~= addrs@);
    out
}

/// The wildcard address that is bound when no given address fits the peer:
/// `0.0.0.0:0` for an IPv4 peer, `[::]:0` for an IPv6 peer.
pub fn fallback_bind_addr(peer: &SockAddr) -> (a: SockAddr)
    ensures
        a == (if peer.is_v4() {
            SockAddr { ip: IpAddr::V4(0), port: 0 }
        } else {
            SockAddr { ip: IpAddr::V6(0), port: 0 }
        }),
{
    match peer.ip {
        IpAddr::V4(_) => SockAddr { ip: IpAddr::V4(0), port: 0 },
        IpAddr::V6(_) => SockAddr { ip: IpAddr::V6(0), port: 0 },
    }
}

/// `127.0.0.1` as an integer in network order.
pub const LOCALHOST_V4: u32 = 0x7f00_0001;

/// The client's candidate local addresses: the given ones, or
/// `127.0.0.1:8080` and `127.0.0.1:3355` when none is given.
pub fn client_addresses(given: Vec<SockAddr>) -> (out: Vec<SockAddr>)
    ensures
        out@ == (if given@.len() == 0 {
            seq![
                SockAddr { ip: IpAddr::V4(LOCALHOST_V4), port: 8080 },
                SockAddr { ip: IpAddr::V4(LOCALHOST_V4), port: 3355 },
            ]
        } else {
            given@
        }),
{
    let mut out = given;
    if out.len() == 0 {
        out.push(SockAddr { ip: IpAddr::V4(LOCALHOST_V4), port: 8080 });
        out.push(SockAddr { ip: IpAddr::V4(LOCALHOST_V4), port: 3355 });
        assert(out@ =~= seq![
            SockAddr { ip: IpAddr::V4(LOCALHOST_V4), port: 8080 },
            SockAddr { ip: IpAddr::V4(LOCALHOST_V4), port: 3355 },
        ]);
    }
    out
}

/// The client's path addresses in probing order: the address of the first
/// socket, then every other bound address.
pub fn probing_order(local: SockAddr, bound: &Vec<SockAddr>) -> (out: Vec<SockAddr>)
    ensures
        out@ == seq![local] + bound@.filter(|a: SockAddr| a != local),
{
    let mut out: Vec<SockAddr> = Vec::new();
    out.push(local);
    let mut i: usize = 0;
    while i < bound.len()
        invariant
            i <= bound@.len(),
            out@ == seq![local] + bound@.take(i as int).filter(|a: SockAddr| a != local),
        decreases bound@.len() - i,
    {
        let a = bound[i];
        proof {
            assert(bound@.take(i + 1).drop_last() =~= bound@.take(i as int));
            reveal_with_fuel(Seq::filter, 1);
        }
        if a != local {
            out.push(a);
        }
        i = i + 1;
        proof {
            if a != local {
                assert(out@ =~= seq![local] + bound@.take(i as int).filter(|a: SockAddr| a != local));
            }
        }
    }
    assert(bound@.take(bound@.len() as int) =~= bound@);
    out
}

/// Whether more than `timer_ms` milliseconds have passed from `since` to
/// `now`, both in nanoseconds.
pub open spec fn spec_is_due(since: u128, now: u128, timer_ms: u64) -> bool {
    now - since > timer_ms * NANOS_PER_MILLI
}

/// Whether probing traffic is due on all paths: more than `timer_ms`
/// milliseconds since it was last sent.
pub fn ack_eliciting_due(last_sent: u128, now: u128, timer_ms: u64) -> (due: bool)
    requires
        last_sent <= now,
    ensures
        due == spec_is_due(last_sent, now, timer_ms),
{
    now - last_sent > (timer_ms as u128) * NANOS_PER_MILLI
}

/// The addresses on which probing traffic is due: those whose last send
/// time lies more than `timer_ms` milliseconds before `now`. Each comes once;
/// the order is the map's.
pub fn ack_eliciting_paths(send_times: &AddrMap<u128>, now: u128, timer_ms: u64) -> (out: Vec<SockAddr>)
    requires
        forall|a: SockAddr| #[trigger] send_times@.dom().contains(a) ==> send_times@[a] <= now,
    ensures
        forall|a: SockAddr| out@.contains(a) <==> (send_times@.dom().contains(a) && spec_is_due(send_times@[a], now, timer_ms)),
        forall|i: int, j: int| 0 <= i < j < out@.len() ==> out@[i] != out@[j],
{
    let keys = send_times.keys();
    let mut out: Vec<SockAddr> = Vec::new();
    let mut i: usize = 0;
    while i < keys.len()
        invariant
            i <= keys@.len(),
            forall|a: SockAddr| keys@.contains(a) <==> send_times@.dom().contains(a),
            forall|p: int, q: int| 0 <= p < q < keys@.len() ==> keys@[p] != keys@[q],
            forall|a: SockAddr| #[trigger] send_times@.dom().contains(a) ==> send_times@[a] <= now,
            forall|a: SockAddr| out@.contains(a) <==> (keys@.take(i as int).contains(a) && spec_is_due(send_times@[a], now, timer_ms)),
            forall|p: int, q: int| 0 <= p < q < out@.len() ==> out@[p] != out@[q],
        decreases keys@.len() - i,
    {
        let a = keys[i];
        assert(keys@.contains(a)) by {
            assert(keys@[i as int] == a);
        }
        let ghost out0 = out@;
        let ghost prev = keys@.take(i as int);
        let ghost next = keys@.take(i + 1);
        proof {
            assert(next =~= prev.push(a));
            assert(!prev.contains(a)) by {
                if prev.contains(a) {
                    let k = choose|k: int| 0 <= k < prev.len() && prev[k] == a;
                    assert(keys@[k] == keys@[i as int]);
                }
            }
        }
        let mut due = false;
        match send_times.get(&a) {
            Some(t) => {
                if now - t > (timer_ms as u128) * NANOS_PER_MILLI {
                    due = true;
                    out.push(a);
                }
            },
            None => {},
        }
        proof {
            assert(!out0.contains(a));
            assert forall|p: int, q: int| 0 <= p < q < out@.len() implies out@[p] != out@[q] by {
                if due && q == out0.len() {
                    assert(out0.contains(out@[p]));
                }
            }
            assert(due == spec_is_due(send_times@[a], now, timer_ms));
            assert(out@ == (if due { out0.push(a) } else { out0 }));
            assert forall|b: SockAddr| out@.contains(b) <==> (next.contains(b) && spec_is_due(send_times@[b], now, timer_ms)) by {
                if next.contains(b) && b != a {
                    let k = choose|k: int| 0 <= k < next.len() && next[k] == b;
                    assert(prev[k] == b);
                }
                if prev.contains(b) {
                    let k = choose|k: int| 0 <= k < prev.len() && prev[k] == b;
                    assert(next[k] == b);
                }
                if b == a {
                    assert(next[i as int] == a);
                }
                if due && out@.contains(b) && b != a {
                    let k = choose|k: int| 0 <= k < out@.len() && out@[k] == b;
                    assert(out0[k] == b);
                }
                if due && out0.contains(b) {
                    let k = choose|k: int| 0 <= k < out0.len() && out0[k] == b;
                    assert(out@[k] == b);
                }
                if due && b == a {
                    assert(out@[out0.len() as int] == a);
                }
            }
        }
        i = i + 1;
    }
    assert(keys@.take(keys@.len() as int) =~= keys@);
    out
}

/// How many stream bytes a duplicate send on another path repeats: the bytes
/// emitted between the two offsets, when more than one path is active and
/// some were emitted. The second offset is never before the first: the
/// stream's emitted offset only grows.
pub fn duplicate_amount(first_offset: u64, second_offset: u64, active_paths: usize) -> (r: Option<u64>)
    requires
        first_offset <= second_offset,
    ensures
        r == (if active_paths > 1 && second_offset > first_offset {
            Some((second_offset - first_offset) as u64)
        } else {
            None
        }),
{
    let sent = second_offset - first_offset;
    if active_paths > 1 && sent != 0 && second_offset > first_offset {
        Some(sent)
    } else {
        None
    }
}

/// Probing is due exactly when more than the configured number of
/// milliseconds has passed, so a longer timer never makes it due sooner.
pub proof fn lemma_probing_follows_timer(since: u128, now: u128, timer_ms: u64, longer_ms: u64)
    requires
        timer_ms <= longer_ms,
    ensures
        spec_is_due(since, now, timer_ms) == (now - since > timer_ms * 1_000_000),
        spec_is_due(since, now, longer_ms) ==> spec_is_due(since, now, timer_ms),
        now - since <= timer_ms * 1_000_000 ==> !spec_is_due(since, now, timer_ms),
{
    assert(timer_ms * 1_000_000 <= longer_ms * 1_000_000) by (nonlinear_arith)
        requires
            timer_ms <= longer_ms,
    ;
}

} // verus!
