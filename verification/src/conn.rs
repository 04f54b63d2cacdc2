//! Connection-level decisions: how a server answers the first packet of an
//! unknown connection, how both ends react to path events, and fresh
//! connection IDs.
use vstd::prelude::*;
use ring::rand::SecureRandom;
use ring::rand::SystemRandom;
use crate::bytes::copy_range;
use crate::conn_ids::{spec_route, ConnIdMap};
use crate::net::SockAddr;
use crate::token::{mint_token, spec_mint_token, spec_validate_token, validate_token};

verus! {

/// The length of the connection IDs that the endpoints generate.
pub const MAX_CONN_ID_LEN: usize = 20;

/// What a server reads of the first packet of a connection it does not know.
pub struct InitialPacket {
    /// Whether the packet is a QUIC Initial packet.
    pub is_initial: bool,
    /// Whether the packet's QUIC version is supported.
    pub version_supported: bool,
    /// The destination connection ID that the client chose.
    pub dcid: Vec<u8>,
    /// The packet's token; Initial packets always carry one, maybe empty.
    pub token: Option<Vec<u8>>,
}

/// How a server answers the first packet of an unknown connection.
pub enum InitialAction {
    /// Ignore the packet.
    Drop,
    /// Send a version negotiation packet.
    NegotiateVersion,
    /// Send a retry packet with this token, naming this ID as the server's
    /// source connection ID.
    Retry { token: Vec<u8>, scid: Vec<u8> },
    /// Accept the connection with this source connection ID and original
    /// destination connection ID.
    Accept { scid: Vec<u8>, odcid: Option<Vec<u8>> },
}

/// The answer, as plain sequences, to the first packet of an unknown
/// connection.
pub enum InitialDecision {
    Drop,
    NegotiateVersion,
    Retry(Seq<u8>, Seq<u8>),
    Accept(Seq<u8>, Option<Seq<u8>>),
}

/// The decision that an action carries.
pub open spec fn decision_of(a: InitialAction) -> InitialDecision {
    match a {
        InitialAction::Drop => InitialDecision::Drop,
        InitialAction::NegotiateVersion => InitialDecision::NegotiateVersion,
        InitialAction::Retry { token, scid } => InitialDecision::Retry(token@, scid@),
        InitialAction::Accept { scid, odcid } => InitialDecision::Accept(
            scid@,
            match odcid {
                Some(o) => Some(o@),
                None => None,
            },
        ),
    }
}

/// The bridging server's answer: packets that are not Initial are dropped
/// and unsupported versions negotiated; with stateless retry on, a packet
/// without token gets a retry whose token is minted from its destination
/// ID and whose source ID is the derived ID, and a packet whose token does
/// not validate, or whose destination ID is not as long as the derived ID,
/// is dropped. A connection accepted after a retry reuses the ID that the
/// retry named, the packet's destination ID, as source ID and takes the ID
/// that the token carries as original destination ID; without stateless
/// retry a connection takes the derived ID and no original destination ID.
pub open spec fn spec_server_initial(
    is_initial: bool,
    version_supported: bool,
    dcid: Seq<u8>,
    token: Option<Seq<u8>>,
    from: SockAddr,
    conn_id: Seq<u8>,
    stateless_retry: bool,
) -> InitialDecision {
    if !is_initial {
        InitialDecision::Drop
    } else if !version_supported {
        InitialDecision::NegotiateVersion
    } else if stateless_retry && token.unwrap().len() == 0 {
        InitialDecision::Retry(spec_mint_token(dcid, from.ip), conn_id)
    } else if stateless_retry && (spec_validate_token(from.ip, token.unwrap()) is None
        || conn_id.len() != dcid.len()) {
        InitialDecision::Drop
    } else if stateless_retry {
        InitialDecision::Accept(dcid, spec_validate_token(from.ip, token.unwrap()))
    } else {
        InitialDecision::Accept(conn_id, None)
    }
}

/// The stream server's answer: as the bridging server's with stateless
/// retry always on, except that an accepted connection reuses the
/// destination ID as source ID and takes the ID that the token carries as
/// original destination ID.
pub open spec fn spec_stream_initial(
    is_initial: bool,
    version_supported: bool,
    dcid: Seq<u8>,
    token: Option<Seq<u8>>,
    from: SockAddr,
    conn_id: Seq<u8>,
) -> InitialDecision {
    if !is_initial {
        InitialDecision::Drop
    } else if !version_supported {
        InitialDecision::NegotiateVersion
    } else if token.unwrap().len() == 0 {
        InitialDecision::Retry(spec_mint_token(dcid, from.ip), conn_id)
    } else if spec_validate_token(from.ip, token.unwrap()) is None || conn_id.len() != dcid.len() {
        InitialDecision::Drop
    } else {
        InitialDecision::Accept(dcid, spec_validate_token(from.ip, token.unwrap()))
    }
}

/// The token of a packet as a plain sequence.
pub open spec fn token_view(t: Option<Vec<u8>>) -> Option<Seq<u8>> {
    match t {
        Some(v) => Some(v@),
        None => None,
    }
}

/// What HMAC-SHA256 gives for a key and a message.
pub uninterp spec fn hmac_sha256(key: Seq<u8>, msg: Seq<u8>) -> Seq<u8>;

/// The longest key or message that is signed: the hash's bit count of the
/// key block and the message must fit in 64 bits.
pub open spec fn max_hmac_input() -> int {
    0x1fff_ffff_ffff_ff00
}

/// The length of the random key from which a server derives its
/// connection IDs: the output length of SHA-256.
pub const CONN_ID_SEED_LEN: usize = 32;

/// The connection ID that a server derives from a destination ID: the first
/// `MAX_CONN_ID_LEN` bytes of its HMAC-SHA256 under the seed.
pub open spec fn derived_conn_id(seed: Seq<u8>, dcid: Seq<u8>) -> Seq<u8> {
    hmac_sha256(seed, dcid).take(MAX_CONN_ID_LEN as int)
}

/// Signs a message with HMAC-SHA256 under a key, with `ring::hmac::sign`.
///
/// Trusted: the tag is a function of the key and the message, named
/// `hmac_sha256`, and is as long as a SHA-256 digest. Lengths beyond the
/// bound make ring's length computation fail, and are left out.
#[verifier::external_body]
fn ring_hmac_sha256(key: &[u8], msg: &[u8]) -> (tag: Vec<u8>)
    requires
        key@.len() <= max_hmac_input(),
        msg@.len() <= max_hmac_input(),
    ensures
        tag@ == hmac_sha256(key@, msg@),
        tag@.len() == 32,
{
    let key = ring::hmac::Key::new(ring::hmac::HMAC_SHA256, key);
    ring::hmac::sign(&key, msg).as_ref().to_vec()
}

/// The connection ID that a server derives from a packet's destination ID.
pub fn derive_conn_id(seed: &[u8], dcid: &[u8]) -> (id: Vec<u8>)
    requires
        seed@.len() <= max_hmac_input(),
        dcid@.len() <= max_hmac_input(),
    ensures
        id@ == derived_conn_id(seed@, dcid@),
        id@.len() == MAX_CONN_ID_LEN,
{
    let tag = ring_hmac_sha256(seed, dcid);
    let id = copy_range(tag.as_slice(), 0, MAX_CONN_ID_LEN);
    assert(id@ =~= derived_conn_id(seed@, dcid@));
    id
}

/// The connection a packet belongs to, found by its destination ID or else
/// by the ID derived from it, together with that derived ID.
pub fn lookup_connection(ids: &ConnIdMap, seed: &[u8], dcid: &[u8]) -> (r: (Vec<u8>, Option<u64>))
    requires
        seed@.len() <= max_hmac_input(),
        dcid@.len() <= max_hmac_input(),
    ensures
        r.0@ == derived_conn_id(seed@, dcid@),
        r.1 == spec_route(ids@, dcid@, derived_conn_id(seed@, dcid@)),
{
    let conn_id = derive_conn_id(seed, dcid);
    let known = ids.route(dcid, conn_id.as_slice());
    (conn_id, known)
}

/// How the bridging server answers the first packet of an unknown
/// connection; the server's IDs are derived from the packet's destination
/// ID with `seed`.
pub fn server_initial_action(pkt: &InitialPacket, from: &SockAddr, seed: &[u8], stateless_retry: bool) -> (a: InitialAction)
    requires
        seed@.len() <= max_hmac_input(),
        pkt.dcid@.len() <= max_hmac_input(),
        pkt.is_initial && pkt.version_supported && stateless_retry ==> pkt.token is Some,
    ensures
        decision_of(a) == spec_server_initial(
            pkt.is_initial,
            pkt.version_supported,
            pkt.dcid@,
            token_view(pkt.token),
            *from,
            derived_conn_id(seed@, pkt.dcid@),
            stateless_retry,
        ),
{
    if !pkt.is_initial {
        return InitialAction::Drop;
    }
    if !pkt.version_supported {
        return InitialAction::NegotiateVersion;
    }
    let conn_id = derive_conn_id(seed, pkt.dcid.as_slice());
    if stateless_retry {
        match &pkt.token {
            Some(token) => {
                if token.len() == 0 {
                    return InitialAction::Retry { token: mint_token(pkt.dcid.as_slice(), from), scid: conn_id };
                }
                let odcid = validate_token(from, token.as_slice());
                if odcid.is_none() {
                    return InitialAction::Drop;
                }
                if conn_id.len() != pkt.dcid.len() {
                    return InitialAction::Drop;
                }
                let scid = copy_range(pkt.dcid.as_slice(), 0, pkt.dcid.len());
                proof {
                    assert(pkt.dcid@.subrange(0, pkt.dcid@.len() as int) =~= pkt.dcid@);
                }
                return InitialAction::Accept { scid, odcid };
            },
            None => {
                return InitialAction::Drop;
            },
        }
    }
    InitialAction::Accept { scid: conn_id, odcid: None }
}

/// How the stream server, which always does stateless retry, answers the
/// first packet of an unknown connection; its retry IDs are derived from
/// the packet's destination ID with `seed`.
pub fn stream_initial_action(pkt: &InitialPacket, from: &SockAddr, seed: &[u8]) -> (a: InitialAction)
    requires
        seed@.len() <= max_hmac_input(),
        pkt.dcid@.len() <= max_hmac_input(),
        pkt.is_initial && pkt.version_supported ==> pkt.token is Some,
    ensures
        decision_of(a) == spec_stream_initial(
            pkt.is_initial,
            pkt.version_supported,
            pkt.dcid@,
            token_view(pkt.token),
            *from,
            derived_conn_id(seed@, pkt.dcid@),
        ),
{
    if !pkt.is_initial {
        return InitialAction::Drop;
    }
    if !pkt.version_supported {
        return InitialAction::NegotiateVersion;
    }
    let conn_id = derive_conn_id(seed, pkt.dcid.as_slice());
    match &pkt.token {
        Some(token) => {
            if token.len() == 0 {
                return InitialAction::Retry { token: mint_token(pkt.dcid.as_slice(), from), scid: conn_id };
            }
            let odcid = validate_token(from, token.as_slice());
            match odcid {
                None => InitialAction::Drop,
                Some(o) => {
                    if conn_id.len() != pkt.dcid.len() {
                        return InitialAction::Drop;
                    }
                    let scid = copy_range(pkt.dcid.as_slice(), 0, pkt.dcid.len());
                    proof {
                        assert(pkt.dcid@.subrange(0, pkt.dcid@.len() as int) =~= pkt.dcid@);
                    }
                    InitialAction::Accept { scid, odcid: Some(o) }
                },
            }
        },
        None => InitialAction::Drop,
    }
}

/// An event about one of a connection's paths, as the QUIC library reports
/// it.
pub enum PathEvent {
    New(SockAddr, SockAddr),
    Validated(SockAddr, SockAddr),
    FailedValidation(SockAddr, SockAddr),
    Closed(SockAddr, SockAddr, u64),
    ReusedSourceConnectionId(u64, (SockAddr, SockAddr), (SockAddr, SockAddr)),
    PeerMigrated(SockAddr, SockAddr),
    /// The peer asks that the path be marked available (`true`) or standby.
    PeerPathStatus((SockAddr, SockAddr), bool),
}

/// What an endpoint does on a path event.
#[derive(PartialEq, Eq, Debug, Structural)]
pub enum PathAction {
    Nothing,
    /// Probe the new path.
    Probe(SockAddr, SockAddr),
    /// Mark the path active.
    SetActive(SockAddr, SockAddr),
    /// Set the path's status as the peer asked.
    SetStatus(SockAddr, SockAddr, bool),
}

/// The server probes new paths, activates validated paths when multipath is
/// on, and follows the peer's status requests.
pub open spec fn spec_server_path_action(ev: PathEvent, multipath: bool) -> PathAction {
    match ev {
        PathEvent::New(l, p) => PathAction::Probe(l, p),
        PathEvent::Validated(l, p) => if multipath { PathAction::SetActive(l, p) } else { PathAction::Nothing },
        PathEvent::PeerPathStatus(a, s) => PathAction::SetStatus(a.0, a.1, s),
        _ => PathAction::Nothing,
    }
}

/// What the server does on a path event.
pub fn server_path_action(ev: &PathEvent, multipath: bool) -> (a: PathAction)
    ensures
        a == spec_server_path_action(*ev, multipath),
{
    match ev {
        PathEvent::New(l, p) => PathAction::Probe(*l, *p),
        PathEvent::Validated(l, p) => if multipath { PathAction::SetActive(*l, *p) } else { PathAction::Nothing },
        PathEvent::PeerPathStatus(a, s) => PathAction::SetStatus(a.0, a.1, *s),
        _ => PathAction::Nothing,
    }
}

/// The client activates validated paths when multipath is on and ignores
/// the other events; it never sees new or migrated paths.
pub open spec fn spec_client_path_action(ev: PathEvent, multipath: bool) -> PathAction {
    match ev {
        PathEvent::Validated(l, p) => if multipath { PathAction::SetActive(l, p) } else { PathAction::Nothing },
        _ => PathAction::Nothing,
    }
}

/// What the client does on a path event. New paths and migrations come only
/// to a server; the client treats them as unreachable, so they are left out.
pub fn client_path_action(ev: &PathEvent, multipath: bool) -> (a: PathAction)
    requires
        !(*ev is New),
        !(*ev is PeerMigrated),
    ensures
        a == spec_client_path_action(*ev, multipath),
{
    match ev {
        PathEvent::Validated(l, p) => if multipath { PathAction::SetActive(*l, *p) } else { PathAction::Nothing },
        _ => PathAction::Nothing,
    }
}

/// The value of bytes read as a big-endian unsigned integer.
pub open spec fn be_value(b: Seq<u8>) -> nat
    decreases b.len(),
{
    if b.len() == 0 {
        0
    } else {
        be_value(b.drop_last()) * 256 + b.last() as nat
    }
}

/// 256 to the power `n`.
pub open spec fn pow256(n: nat) -> nat
    decreases n,
{
    if n == 0 {
        1
    } else {
        pow256((n - 1) as nat) * 256
    }
}

proof fn lemma_be_value_bound(b: Seq<u8>)
    ensures
        be_value(b) < pow256(b.len()),
    decreases b.len(),
{
    if b.len() > 0 {
        lemma_be_value_bound(b.drop_last());
        let v = be_value(b.drop_last());
        let p = pow256(b.drop_last().len());
        assert(v * 256 + b.last() < p * 256) by (nonlinear_arith)
            requires
                v < p,
                b.last() < 256,
        ;
    }
}

/// A stateless reset token from its 16 bytes, most significant first, as
/// `u128::from_be_bytes` reads them.
pub fn reset_token_from_bytes(b: &[u8]) -> (t: u128)
    requires
        b@.len() == 16,
    ensures
        t as nat == be_value(b@),
{
    proof {
        reveal_with_fuel(pow256, 17);
        assert(pow256(16) == 0x1_0000_0000_0000_0000_0000_0000_0000_0000);
    }
    let mut acc: u128 = 0;
    let mut i: usize = 0;
    while i < 16
        invariant
            i <= 16,
            b@.len() == 16,
            pow256(16) == 0x1_0000_0000_0000_0000_0000_0000_0000_0000,
            acc as nat == be_value(b@.take(i as int)),
        decreases 16 - i,
    {
        proof {
            lemma_be_value_bound(b@.take(i + 1));
            assert(b@.take(i + 1).drop_last() =~= b@.take(i as int));
            lemma_pow256_mono((i + 1) as nat, 16);
        }
        acc = acc * 256 + b[i] as u128;
        i = i + 1;
    }
    assert(b@.take(16) =~= b@);
    acc
}

proof fn lemma_pow256_mono(m: nat, n: nat)
    requires
        m <= n,
    ensures
        pow256(m) <= pow256(n),
    decreases n - m,
{
    if m < n {
        lemma_pow256_mono(m, (n - 1) as nat);
        assert(pow256(n) == pow256((n - 1) as nat) * 256);
    }
}

/// Fills `len` bytes from the system's secure random generator.
///
/// Trusted: `SecureRandom::fill` of `SystemRandom` fills the whole buffer or
/// reports an error; which bytes come out depends on chance and is left
/// unsaid.
#[verifier::external_body]
fn ring_random_bytes(rng: &SystemRandom, len: usize) -> (r: Option<Vec<u8>>)
    ensures
        r matches Some(v) ==> v@.len() == len,
{
    let mut v = vec![0u8; len];
    match rng.fill(&mut v) {
        Ok(()) => Some(v),
        Err(_) => None,
    }
}

/// The system's secure random generator.
#[verifier::external_type_specification]
#[verifier::external_body]
pub struct ExSystemRandom(SystemRandom);

/// A fresh random connection ID, or `None` if the generator failed.
pub fn random_connection_id(rng: &SystemRandom) -> (r: Option<Vec<u8>>)
    ensures
        r matches Some(v) ==> v@.len() == MAX_CONN_ID_LEN,
{
    ring_random_bytes(rng, MAX_CONN_ID_LEN)
}

/// Whether a client connects again after its connection closed: only when
/// connection resumption is on and gRPC still listens.
pub fn reconnect_after_close(grpc_closed: bool, resumption: bool) -> (again: bool)
    ensures
        again == (!grpc_closed && resumption),
{
    !grpc_closed && resumption
}

/// A fresh random key from which a server derives its connection IDs, or
/// `None` if the generator failed.
pub fn conn_id_seed(rng: &SystemRandom) -> (r: Option<Vec<u8>>)
    ensures
        r matches Some(v) ==> v@.len() == CONN_ID_SEED_LEN,
{
    ring_random_bytes(rng, CONN_ID_SEED_LEN)
}

/// A fresh source connection ID and its stateless reset token, read from
/// sixteen further random bytes in big-endian order; `None` if the
/// generator failed.
pub fn generate_cid_and_reset_token(rng: &SystemRandom) -> (r: Option<(Vec<u8>, u128)>)
    ensures
        r matches Some(p) ==> p.0@.len() == MAX_CONN_ID_LEN,
{
    let scid = match ring_random_bytes(rng, MAX_CONN_ID_LEN) {
        Some(v) => v,
        None => return None,
    };
    let bytes = match ring_random_bytes(rng, 16) {
        Some(v) => v,
        None => return None,
    };
    let reset_token = reset_token_from_bytes(bytes.as_slice());
    Some((scid, reset_token))
}

} // verus!

verus! {

/// The incoming-connection stream of the stream server: it hands out one
/// connection, then stays pending.
pub struct ConnectionStream {
    n: i32,
}

/// What a poll of the incoming-connection stream gives.
#[derive(PartialEq, Eq, Structural, Clone, Copy, Debug)]
pub enum ConnectionPoll {
    /// A connection is ready.
    Connection,
    /// Nothing is ready yet.
    Pending,
    /// No connection will ever come.
    Ended,
}

impl ConnectionStream {
    /// How many connections were handed out.
    pub closed spec fn handed_out(&self) -> int {
        self.n as int
    }

    /// A stream that has handed out nothing.
    pub fn new() -> (s: Self)
        ensures
            s.handed_out() == 0,
    {
        ConnectionStream { n: 0 }
    }

    /// Polls for the next connection: the first poll yields one, every
    /// later poll is pending.
    pub fn poll_next(&mut self) -> (p: ConnectionPoll)
        ensures
            p == (if old(self).handed_out() == 0 { ConnectionPoll::Connection } else { ConnectionPoll::Pending }),
            final(self).handed_out() == (if old(self).handed_out() == 0 { 1 } else { old(self).handed_out() }),
    {
        if self.n == 0 {
            self.n = self.n + 1;
            ConnectionPoll::Connection
        } else {
            ConnectionPoll::Pending
        }
    }
}

} // verus!

verus! {

/// A retry names the derived ID as the server's source ID; a client that
/// echoes the retry's token from the same address, sending to that ID, is
/// accepted by the stream server with that ID as source ID and its first
/// destination ID as original destination ID.
pub proof fn lemma_stream_retry_then_accept(
    dcid: Seq<u8>,
    from: SockAddr,
    conn_id: Seq<u8>,
    next_conn_id: Seq<u8>,
)
    requires
        next_conn_id.len() == conn_id.len(),
    ensures
        spec_stream_initial(true, true, dcid, Some(Seq::empty()), from, conn_id)
            == InitialDecision::Retry(spec_mint_token(dcid, from.ip), conn_id),
        spec_stream_initial(true, true, conn_id, Some(spec_mint_token(dcid, from.ip)), from, next_conn_id)
            == InitialDecision::Accept(conn_id, Some(dcid)),
{
    crate::token::lemma_validate_minted(dcid, from.ip);
    assert(spec_mint_token(dcid, from.ip).len() >= 6);
}

/// With stateless retry, the bridging server answers a client that echoes
/// its retry token from the same address, sending to the ID the retry
/// named, by accepting the connection under that ID, with the client's
/// first destination ID as original destination ID.
pub proof fn lemma_server_retry_then_accept(
    dcid: Seq<u8>,
    from: SockAddr,
    conn_id: Seq<u8>,
    next_conn_id: Seq<u8>,
)
    requires
        next_conn_id.len() == conn_id.len(),
    ensures
        spec_server_initial(true, true, dcid, Some(Seq::empty()), from, conn_id, true)
            == InitialDecision::Retry(spec_mint_token(dcid, from.ip), conn_id),
        spec_server_initial(true, true, conn_id, Some(spec_mint_token(dcid, from.ip)), from, next_conn_id, true)
            == InitialDecision::Accept(conn_id, Some(dcid)),
{
    crate::token::lemma_validate_minted(dcid, from.ip);
    assert(spec_mint_token(dcid, from.ip).len() >= 6);
}

/// Without stateless retry, the bridging server accepts every Initial
/// packet of a supported version under the derived ID, with no original
/// destination ID, whatever token the packet carries.
pub proof fn lemma_server_accepts_without_retry(
    dcid: Seq<u8>,
    token: Option<Seq<u8>>,
    from: SockAddr,
    conn_id: Seq<u8>,
)
    ensures
        spec_server_initial(true, true, dcid, token, from, conn_id, false) == InitialDecision::Accept(conn_id, None),
{
}

/// Both servers answer an Initial packet of an unsupported version with
/// version negotiation, and drop every packet that is not Initial, whatever
/// else the packet holds.
pub proof fn lemma_first_packet_kinds(
    dcid: Seq<u8>,
    token: Option<Seq<u8>>,
    from: SockAddr,
    conn_id: Seq<u8>,
    version_supported: bool,
    stateless_retry: bool,
)
    ensures
        spec_server_initial(true, false, dcid, token, from, conn_id, stateless_retry)
            == InitialDecision::NegotiateVersion,
        spec_stream_initial(true, false, dcid, token, from, conn_id) == InitialDecision::NegotiateVersion,
        spec_server_initial(false, version_supported, dcid, token, from, conn_id, stateless_retry)
            == InitialDecision::Drop,
        spec_stream_initial(false, version_supported, dcid, token, from, conn_id) == InitialDecision::Drop,
{
}

/// The server probes a path only when the event reports it new, and then
/// that very path; a failed validation, a closed path, a reused ID or a
/// migration leads to nothing.
pub proof fn lemma_server_probes_only_new_paths(ev: PathEvent, multipath: bool, l: SockAddr, p: SockAddr)
    ensures
        (spec_server_path_action(ev, multipath) == PathAction::Probe(l, p)) <==> (ev == PathEvent::New(l, p)),
        ev is FailedValidation ==> spec_server_path_action(ev, multipath) == PathAction::Nothing,
        ev is Closed ==> spec_server_path_action(ev, multipath) == PathAction::Nothing,
        ev is ReusedSourceConnectionId ==> spec_server_path_action(ev, multipath) == PathAction::Nothing,
        ev is PeerMigrated ==> spec_server_path_action(ev, multipath) == PathAction::Nothing,
{
}

} // verus!
