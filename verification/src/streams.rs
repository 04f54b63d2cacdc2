//! Bookkeeping of HTTP/3 bodies that could not be written at once.
use vstd::prelude::*;
use std::collections::HashMap;
use crate::bytes::copy_range;
use crate::grpc::{ends_response, is_request_end, is_settings_ack, settings_ack, spec_ends_response, spec_is_request_end};
use crate::h3::{copy_headers, headers_view, Header};

verus! {

broadcast use vstd::std_specs::hash::group_hash_axioms;

/// A response body of which the first `written` bytes are sent; `headers`
/// are still to be sent before the body when present.
pub struct PartialResponse {
    pub headers: Option<Vec<Header>>,
    pub body: Vec<u8>,
    pub written: usize,
}

/// The responses waiting for their streams to become writable, by stream.
pub struct PendingResponses {
    map: HashMap<u64, PartialResponse>,
}

impl View for PendingResponses {
    type V = Map<u64, PartialResponse>;

    closed spec fn view(&self) -> Map<u64, PartialResponse> {
        self.map@
    }
}

/// What remains to be sent of a partial body.
pub open spec fn pending_bytes(r: PartialResponse) -> Seq<u8> {
    r.body@.skip(r.written as int)
}

impl PendingResponses {
    #[verifier::type_invariant]
    closed spec fn inv(self) -> bool {
        forall|k: u64| #[trigger] self.map@.contains_key(k) ==> self.map@[k].written <= self.map@[k].body@.len()
    }

    /// No response is waiting.
    pub fn new() -> (p: Self)
        ensures
            p@ == Map::<u64, PartialResponse>::empty(),
    {
        PendingResponses { map: HashMap::new() }
    }

    /// Whether a response waits on the stream.
    pub fn contains(&self, stream_id: u64) -> (b: bool)
        ensures
            b == self@.contains_key(stream_id),
    {
        self.map.contains_key(&stream_id)
    }

    /// Puts a response on the stream, in place of any waiting there.
    pub fn insert(&mut self, stream_id: u64, resp: PartialResponse)
        requires
            resp.written <= resp.body@.len(),
        ensures
            final(self)@ == old(self)@.insert(stream_id, resp),
    {
        proof {
            use_type_invariant(&*self);
        }
        let mut m: HashMap<u64, PartialResponse> = HashMap::new();
        std::mem::swap(&mut m, &mut self.map);
        m.insert(stream_id, resp);
        self.map = m;
    }

    /// Drops the response of the stream.
    pub fn remove(&mut self, stream_id: u64)
        ensures
            final(self)@ == old(self)@.remove(stream_id),
    {
        proof {
            use_type_invariant(&*self);
        }
        let mut m: HashMap<u64, PartialResponse> = HashMap::new();
        std::mem::swap(&mut m, &mut self.map);
        m.remove(&stream_id);
        self.map = m;
    }

    /// The bytes that remain to be sent on the stream.
    pub fn remaining(&self, stream_id: u64) -> (r: Option<Vec<u8>>)
        ensures
            match r {
                Some(v) => self@.contains_key(stream_id) && v@ == pending_bytes(self@[stream_id]),
                None => !self@.contains_key(stream_id),
            },
    {
        proof {
            use_type_invariant(self);
        }
        match self.map.get(&stream_id) {
            Some(resp) => {
                let v = copy_range(resp.body.as_slice(), resp.written, resp.body.len());
                Some(v)
            },
            None => None,
        }
    }

    /// The headers still to be sent before the body on the stream, if any.
    pub fn pending_headers(&self, stream_id: u64) -> (r: Option<&Vec<Header>>)
        ensures
            match r {
                Some(h) => self@.contains_key(stream_id) && self@[stream_id].headers == Some(*h),
                None => !self@.contains_key(stream_id) || self@[stream_id].headers is None,
            },
    {
        match self.map.get(&stream_id) {
            Some(resp) => match &resp.headers {
                Some(h) => Some(h),
                None => None,
            },
            None => None,
        }
    }

    /// Marks the headers of the stream's response as sent.
    pub fn headers_sent(&mut self, stream_id: u64)
        ensures
            final(self)@ == (if old(self)@.contains_key(stream_id) {
                old(self)@.insert(stream_id, PartialResponse { headers: None, ..old(self)@[stream_id] })
            } else {
                old(self)@
            }),
    {
        proof {
            use_type_invariant(&*self);
        }
        let mut m: HashMap<u64, PartialResponse> = HashMap::new();
        std::mem::swap(&mut m, &mut self.map);
        match m.remove(&stream_id) {
            Some(resp) => {
                m.insert(stream_id, PartialResponse { headers: None, body: resp.body, written: resp.written });
            },
            None => {},
        }
        self.map = m;
    }

    /// Records that `n` more bytes of the stream's body were sent; the
    /// response leaves when its whole body is sent.
    pub fn advance(&mut self, stream_id: u64, n: usize)
        requires
            old(self)@.contains_key(stream_id),
            n <= pending_bytes(old(self)@[stream_id]).len(),
        ensures
            ({
                let r = old(self)@[stream_id];
                if r.written + n == r.body@.len() {
                    final(self)@ == old(self)@.remove(stream_id)
                } else {
                    final(self)@ == old(self)@.insert(
                        stream_id,
                        PartialResponse { written: (r.written + n) as usize, ..r },
                    )
                }
            }),
    {
        proof {
            use_type_invariant(&*self);
        }
        let mut m: HashMap<u64, PartialResponse> = HashMap::new();
        std::mem::swap(&mut m, &mut self.map);
        match m.remove(&stream_id) {
            Some(resp) => {
                assert(resp.written <= resp.body@.len());
                assert(resp.body@.len() == resp.body.len());
                let written = resp.written + n;
                if written != resp.body.len() {
                    m.insert(stream_id, PartialResponse { headers: resp.headers, body: resp.body, written });
                }
            },
            None => {},
        }
        self.map = m;
    }
}

/// The server's state for the responses of one connection.
pub struct ResponseState {
    pub partial: PendingResponses,
    /// Whether the response headers of the bridged stream are sent.
    pub sending_response: bool,
}

impl ResponseState {
    /// No response is in progress.
    pub fn new() -> (s: Self)
        ensures
            s.partial@ == Map::<u64, PartialResponse>::empty(),
            !s.sending_response,
    {
        ResponseState { partial: PendingResponses::new(), sending_response: false }
    }

    /// Keeps gRPC data whose response headers could not be sent yet, to be
    /// sent whole once the stream is writable.
    pub fn blocked(&mut self, stream_id: u64, data: Vec<u8>)
        ensures
            final(self).partial@ == old(self).partial@.insert(
                stream_id,
                PartialResponse { headers: None, body: data, written: 0 },
            ),
            final(self).sending_response == old(self).sending_response,
    {
        self.partial.insert(stream_id, PartialResponse { headers: None, body: data, written: 0 });
    }

    /// Records that the first `written` bytes of gRPC data were sent as body:
    /// the rest waits for the stream, and a body sent whole that ends with
    /// the response end marker sets the flag.
    pub fn body_sent(&mut self, stream_id: u64, data: Vec<u8>, written: usize)
        requires
            written <= data@.len(),
        ensures
            written < data@.len() ==> {
                &&& final(self).partial@ == old(self).partial@.insert(
                    stream_id,
                    PartialResponse { headers: None, body: data, written },
                )
                &&& final(self).sending_response == old(self).sending_response
            },
            written == data@.len() ==> {
                &&& final(self).partial@ == old(self).partial@
                &&& final(self).sending_response == (old(self).sending_response || spec_ends_response(data@, written as int))
            },
    {
        if written < data.len() {
            self.partial.insert(stream_id, PartialResponse { headers: None, body: data, written });
        } else {
            if ends_response(data.as_slice(), written) {
                self.sending_response = true;
            }
        }
    }
}

/// What the server sends when a stream that holds a waiting response
/// becomes writable.
pub enum WritableStep {
    /// Nothing waits on the stream.
    Nothing,
    /// The response headers go first.
    SendHeaders,
    /// These bytes of the body go next.
    SendBody(Vec<u8>),
}

/// What the stream server sends when a stream becomes writable.
pub enum StreamWritableStep {
    /// Nothing waits on the stream.
    Nothing,
    /// These headers go first.
    SendHeaders(Vec<Header>),
    /// These bytes of the body go next.
    SendBody(Vec<u8>),
}

impl PendingResponses {
    /// Records how sending the rest of the stream's body went: `None` when
    /// the send failed, which drops the response, otherwise the number of
    /// bytes sent; a response sent to its end leaves.
    pub fn body_outcome(&mut self, stream_id: u64, sent: Option<usize>)
        requires
            old(self)@.contains_key(stream_id),
            sent matches Some(n) ==> n <= pending_bytes(old(self)@[stream_id]).len(),
        ensures
            match sent {
                None => final(self)@ == old(self)@.remove(stream_id),
                Some(n) => {
                    let r = old(self)@[stream_id];
                    if r.written + n == r.body@.len() {
                        final(self)@ == old(self)@.remove(stream_id)
                    } else {
                        final(self)@ == old(self)@.insert(
                            stream_id,
                            PartialResponse { written: (r.written + n) as usize, ..r },
                        )
                    }
                },
            },
    {
        match sent {
            None => self.remove(stream_id),
            Some(n) => self.advance(stream_id, n),
        }
    }

    /// What the stream server sends when the stream becomes writable: the
    /// waiting headers, if any, then the rest of the body.
    pub fn on_writable(&self, stream_id: u64) -> (step: StreamWritableStep)
        ensures
            !self@.contains_key(stream_id) ==> step is Nothing,
            self@.contains_key(stream_id) ==> match self@[stream_id].headers {
                Some(h) => step matches StreamWritableStep::SendHeaders(g) && headers_view(g@) == headers_view(h@),
                None => step matches StreamWritableStep::SendBody(b) && b@ == pending_bytes(self@[stream_id]),
            },
    {
        match self.pending_headers(stream_id) {
            Some(h) => StreamWritableStep::SendHeaders(copy_headers(h)),
            None => match self.remaining(stream_id) {
                Some(b) => StreamWritableStep::SendBody(b),
                None => StreamWritableStep::Nothing,
            },
        }
    }
}

impl ResponseState {
    /// What the server sends when the stream becomes writable: nothing when
    /// no response waits there, the response headers when they are not sent
    /// yet, and otherwise the rest of the waiting body.
    pub fn on_writable(&self, stream_id: u64) -> (step: WritableStep)
        ensures
            !self.partial@.contains_key(stream_id) ==> step is Nothing,
            self.partial@.contains_key(stream_id) && !self.sending_response ==> step is SendHeaders,
            self.partial@.contains_key(stream_id) && self.sending_response ==> (step matches WritableStep::SendBody(
                b,
            ) && b@ == pending_bytes(self.partial@[stream_id])),
    {
        if !self.partial.contains(stream_id) {
            WritableStep::Nothing
        } else if !self.sending_response {
            WritableStep::SendHeaders
        } else {
            match self.partial.remaining(stream_id) {
                Some(b) => WritableStep::SendBody(b),
                None => WritableStep::Nothing,
            }
        }
    }
}

/// A request body of which the first `written` bytes are sent.
pub struct PartialRequest {
    pub body: Vec<u8>,
    pub written: usize,
}

/// The client's queue of request bodies waiting to be sent, and the stream
/// of the request in progress.
pub struct RequestQueue {
    waiting: Vec<PartialRequest>,
    sending_request: bool,
    stream_id: u64,
    /// All data handed to the queue from gRPC, in order.
    accepted: Ghost<Seq<u8>>,
    /// All bytes reported sent, in order.
    sent: Ghost<Seq<u8>>,
    /// Bodies taken out to be sent and not yet settled or put back.
    taken: Ghost<Seq<(Seq<u8>, usize)>>,
}

/// What remains to be sent of a queued body.
pub open spec fn rest(e: (Seq<u8>, usize)) -> Seq<u8> {
    e.0.skip(e.1 as int)
}

/// What remains to be sent of queued bodies, joined in order.
pub open spec fn rests(q: Seq<(Seq<u8>, usize)>) -> Seq<u8>
    decreases q.len(),
{
    if q.len() == 0 {
        Seq::empty()
    } else {
        rests(q.drop_last()) + rest(q.last())
    }
}

/// Joining the rests of two queues one after the other.
proof fn lemma_rests_append(a: Seq<(Seq<u8>, usize)>, b: Seq<(Seq<u8>, usize)>)
    ensures
        rests(a + b) == rests(a) + rests(b),
    decreases b.len(),
{
    if b.len() == 0 {
        assert(a + b =~= a);
        assert(rests(a) + rests(b) =~= rests(a));
    } else {
        lemma_rests_append(a, b.drop_last());
        assert((a + b).drop_last() =~= a + b.drop_last());
        assert(rests(a + b) =~= rests(a) + rests(b));
    }
}

/// The rest of the first of several queued bodies comes first.
proof fn lemma_rests_first(q: Seq<(Seq<u8>, usize)>)
    requires
        q.len() > 0,
    ensures
        rests(q) == rest(q[0]) + rests(q.drop_first()),
    decreases q.len(),
{
    if q.len() == 1 {
        assert(q.drop_last() =~= Seq::<(Seq<u8>, usize)>::empty());
        assert(q.drop_first() =~= Seq::<(Seq<u8>, usize)>::empty());
        assert(rests(q) =~= rest(q[0]) + rests(q.drop_first()));
    } else {
        lemma_rests_first(q.drop_last());
        assert(q.drop_first().drop_last() =~= q.drop_last().drop_first());
        assert(q.drop_first().last() == q.last());
        assert(q.drop_last()[0] == q[0]);
        assert(rests(q) =~= rest(q[0]) + rests(q.drop_first()));
    }
}

impl View for RequestQueue {
    type V = Seq<(Seq<u8>, usize)>;

    closed spec fn view(&self) -> Seq<(Seq<u8>, usize)> {
        self.waiting@.map_values(|r: PartialRequest| (r.body@, r.written))
    }
}

/// What the client does with a queued body after trying to send it: `None`
/// when the send failed, otherwise the number of bytes sent.
pub open spec fn requeue(q: Seq<(Seq<u8>, usize)>, body: Seq<u8>, written: usize, sent: Option<usize>) -> Seq<(Seq<u8>, usize)> {
    match sent {
        None => q,
        Some(n) => if written + n == body.len() { q } else { q.push((body, (written + n) as usize)) },
    }
}

impl RequestQueue {
    /// Whether a request is open and its end marker not yet sent.
    pub closed spec fn sending(&self) -> bool {
        self.sending_request
    }

    /// The stream of the latest request.
    pub closed spec fn stream(&self) -> u64 {
        self.stream_id
    }

    /// All data handed to the queue from gRPC, in order.
    pub closed spec fn accepted(&self) -> Seq<u8> {
        self.accepted@
    }

    /// All bytes reported sent, in order.
    pub closed spec fn sent_bytes(&self) -> Seq<u8> {
        self.sent@
    }

    /// Bodies taken out to be sent and not yet settled or put back.
    pub closed spec fn taken(&self) -> Seq<(Seq<u8>, usize)> {
        self.taken@
    }

    /// The data handed to the queue is what was sent, followed by what the
    /// queued bodies and then the taken-out bodies still hold.
    pub open spec fn in_order(&self) -> bool {
        self.accepted() == self.sent_bytes() + rests(self@) + rests(self.taken())
    }

    /// Whether a request is open and its end marker not yet sent.
    pub fn sending_request(&self) -> (b: bool)
        ensures
            b == self.sending(),
    {
        self.sending_request
    }

    /// The stream of the latest request.
    pub fn stream_id(&self) -> (id: u64)
        ensures
            id == self.stream(),
    {
        self.stream_id
    }

    #[verifier::type_invariant]
    closed spec fn inv(self) -> bool {
        forall|i: int| 0 <= i < self.waiting@.len() ==> (#[trigger] self.waiting@[i]).written <= self.waiting@[i].body@.len()
    }

    /// An empty queue and no request in progress.
    pub fn new() -> (q: Self)
        ensures
            q@ == Seq::<(Seq<u8>, usize)>::empty(),
            !q.sending(),
            q.stream() == 0,
            q.accepted() == Seq::<u8>::empty(),
            q.sent_bytes() == Seq::<u8>::empty(),
            q.taken() == Seq::<(Seq<u8>, usize)>::empty(),
            q.in_order(),
    {
        RequestQueue {
            waiting: Vec::new(),
            sending_request: false,
            stream_id: 0,
            accepted: Ghost(Seq::empty()),
            sent: Ghost(Seq::empty()),
            taken: Ghost(Seq::empty()),
        }
    }

    fn push_waiting(&mut self, r: PartialRequest)
        requires
            r.written <= r.body@.len(),
        ensures
            final(self)@ == old(self)@.push((r.body@, r.written)),
            final(self).sending() == old(self).sending(),
            final(self).stream() == old(self).stream(),
            final(self).accepted() == old(self).accepted(),
            final(self).sent_bytes() == old(self).sent_bytes(),
            final(self).taken() == old(self).taken(),
    {
        proof {
            use_type_invariant(&*self);
        }
        let ghost before = self@;
        let ghost rv = (r.body@, r.written);
        let mut w: Vec<PartialRequest> = Vec::new();
        std::mem::swap(&mut w, &mut self.waiting);
        w.push(r);
        self.waiting = w;
        proof {
            assert(self@ =~= before.push(rv));
        }
    }

    /// Takes all queued bodies out, in their order, to try to send them.
    pub fn take_waiting(&mut self) -> (w: Vec<PartialRequest>)
        ensures
            w@.map_values(|r: PartialRequest| (r.body@, r.written)) == old(self)@,
            final(self)@ == Seq::<(Seq<u8>, usize)>::empty(),
            final(self).sending() == old(self).sending(),
            final(self).stream() == old(self).stream(),
            forall|i: int| 0 <= i < w@.len() ==> (#[trigger] w@[i]).written <= w@[i].body@.len(),
            final(self).accepted() == old(self).accepted(),
            final(self).sent_bytes() == old(self).sent_bytes(),
            final(self).taken() == old(self)@ + old(self).taken(),
            old(self).in_order() ==> final(self).in_order(),
    {
        proof {
            use_type_invariant(&*self);
        }
        let ghost before = self@;
        let mut w: Vec<PartialRequest> = Vec::new();
        std::mem::swap(&mut w, &mut self.waiting);
        self.taken = Ghost(before + self.taken@);
        proof {
            assert(self@ =~= Seq::<(Seq<u8>, usize)>::empty());
            lemma_rests_append(before, old(self).taken@);
            assert(rests(self@) =~= Seq::<u8>::empty());
            if old(self).in_order() {
                assert(self.accepted@ =~= self.sent@ + rests(self@) + rests(self.taken@));
            }
        }
        w
    }

    /// Puts back a body taken out of the queue whose request could not be
    /// opened, unchanged.
    pub fn put_back(&mut self, req: PartialRequest)
        requires
            req.written <= req.body@.len(),
        ensures
            final(self)@ == old(self)@.push((req.body@, req.written)),
            final(self).sending() == old(self).sending(),
            final(self).stream() == old(self).stream(),
            final(self).accepted() == old(self).accepted(),
            final(self).sent_bytes() == old(self).sent_bytes(),
            final(self).taken() == (if old(self).taken().len() > 0 && old(self).taken()[0] == (req.body@, req.written) {
                old(self).taken().drop_first()
            } else {
                old(self).taken()
            }),
            old(self).in_order() && old(self).taken().len() > 0 && old(self).taken()[0] == (req.body@, req.written)
                ==> final(self).in_order(),
    {
        proof {
            use_type_invariant(&*self);
        }
        let ghost e = (req.body@, req.written);
        let ghost t = self.taken@;
        let ghost w = self@;
        self.taken = Ghost(if t.len() > 0 && t[0] == e { t.drop_first() } else { t });
        self.push_waiting(req);
        proof {
            if t.len() > 0 && t[0] == e {
                lemma_rests_first(t);
                assert(w.push(e).drop_last() =~= w);
                assert(rests(w.push(e)) == rests(w) + rest(e));
                if old(self).in_order() {
                    assert(self.accepted@ =~= self.sent@ + rests(self@) + rests(self.taken@));
                }
            }
        }
    }

    /// A new request was opened on `stream_id` for a queued body.
    pub fn request_opened(&mut self, stream_id: u64)
        ensures
            final(self)@ == old(self)@,
            final(self).stream() == stream_id,
            final(self).sending() == old(self).sending(),
            final(self).accepted() == old(self).accepted(),
            final(self).sent_bytes() == old(self).sent_bytes(),
            final(self).taken() == old(self).taken(),
    {
        proof {
            use_type_invariant(&*self);
        }
        self.stream_id = stream_id;
    }

    /// A new request was opened on `stream_id` for fresh data from gRPC.
    pub fn request_started(&mut self, stream_id: u64)
        ensures
            final(self)@ == old(self)@,
            final(self).stream() == stream_id,
            final(self).sending(),
            final(self).accepted() == old(self).accepted(),
            final(self).sent_bytes() == old(self).sent_bytes(),
            final(self).taken() == old(self).taken(),
    {
        proof {
            use_type_invariant(&*self);
        }
        self.stream_id = stream_id;
        self.sending_request = true;
    }

    /// Queues data from gRPC whose request could not be opened yet.
    pub fn queue_blocked(&mut self, data: Vec<u8>)
        ensures
            final(self)@ == old(self)@.push((data@, 0usize)),
            final(self).sending() == old(self).sending(),
            final(self).stream() == old(self).stream(),
            final(self).accepted() == old(self).accepted() + data@,
            final(self).sent_bytes() == old(self).sent_bytes(),
            final(self).taken() == old(self).taken(),
            old(self).in_order() && old(self).taken().len() == 0 ==> final(self).in_order(),
    {
        proof {
            use_type_invariant(&*self);
        }
        let ghost d = data@;
        let ghost w = self@;
        self.accepted = Ghost(self.accepted@ + d);
        self.push_waiting(PartialRequest { body: data, written: 0 });
        proof {
            assert(w.push((d, 0usize)).drop_last() =~= w);
            assert(rest((d, 0usize)) =~= d);
            if old(self).in_order() && old(self).taken@.len() == 0 {
                assert(rests(self.taken@) =~= Seq::<u8>::empty());
                assert(self.accepted@ =~= self.sent@ + rests(self@) + rests(self.taken@));
            }
        }
    }

    /// Settles a body taken out of the queue after trying to send its rest:
    /// `sent` is `None` when the send failed, which drops the body. A body
    /// sent to its end leaves the queue, and closes the request when it ends
    /// with the request end marker; otherwise it goes back to the queue.
    pub fn settle(&mut self, req: PartialRequest, sent: Option<usize>)
        requires
            req.written <= req.body@.len(),
            match sent {
                Some(n) => n <= req.body@.len() - req.written,
                None => true,
            },
        ensures
            final(self)@ == requeue(old(self)@, req.body@, req.written, sent),
            final(self).stream() == old(self).stream(),
            final(self).sending() == (match sent {
                Some(n) => if req.written + n == req.body@.len() && spec_is_request_end(
                    req.body@.skip(req.written as int),
                ) {
                    false
                } else {
                    old(self).sending()
                },
                None => old(self).sending(),
            }),
            final(self).accepted() == old(self).accepted(),
            final(self).sent_bytes() == old(self).sent_bytes() + (match sent {
                Some(n) => req.body@.subrange(req.written as int, req.written + n),
                None => Seq::empty(),
            }),
            final(self).taken() == (if old(self).taken().len() > 0 && old(self).taken()[0] == (req.body@, req.written) {
                old(self).taken().drop_first()
            } else {
                old(self).taken()
            }),
            old(self).in_order() && old(self).taken().len() > 0 && old(self).taken()[0] == (req.body@, req.written)
                && sent is Some && (old(self)@.len() == 0 || sent == Some(0usize)) ==> final(self).in_order(),
    {
        proof {
            use_type_invariant(&*self);
        }
        let ghost e = (req.body@, req.written);
        let ghost t = self.taken@;
        let ghost w = self@;
        let ghost piece = match sent {
            Some(n) => req.body@.subrange(req.written as int, req.written + n),
            None => Seq::empty(),
        };
        let ghost body = req.body@;
        let ghost written0 = req.written;
        self.taken = Ghost(if t.len() > 0 && t[0] == e { t.drop_first() } else { t });
        self.sent = Ghost(self.sent@ + piece);
        match sent {
            None => {},
            Some(n) => {
                assert(req.body@.len() == req.body.len());
                let written = req.written + n;
                if written == req.body.len() {
                    let rest = copy_range(req.body.as_slice(), req.written, req.body.len());
                    if is_request_end(rest.as_slice()) {
                        self.sending_request = false;
                    }
                    proof {
                        assert(rest@ =~= req.body@.skip(req.written as int));
                    }
                } else {
                    self.push_waiting(PartialRequest { body: req.body, written });
                }
            },
        }
        proof {
            if old(self).in_order() && t.len() > 0 && t[0] == e && sent is Some && (w.len() == 0 || sent == Some(
                0usize,
            )) {
                lemma_rests_first(t);
                let n = sent.unwrap();
                let tail = body.skip(written0 + n);
                assert(rest(e) =~= piece + tail);
                if n == 0 {
                    assert(piece =~= Seq::<u8>::empty());
                }
                if w.len() == 0 {
                    assert(rests(w) =~= Seq::<u8>::empty());
                }
                if written0 + n == body.len() {
                    assert(tail =~= Seq::<u8>::empty());
                    assert(self@ == w);
                } else {
                    assert(self@ == w.push((body, (written0 + n) as usize)));
                    assert(w.push((body, (written0 + n) as usize)).drop_last() =~= w);
                    assert(rests(self@) == rests(w) + tail);
                }
                assert(self.accepted@ =~= self.sent@ + rests(self@) + rests(self.taken@));
            }
        }
    }

    /// Records that the first `written` bytes of fresh data from gRPC were
    /// sent: the rest is queued, and data sent whole that ends with the
    /// request end marker closes the request.
    pub fn data_sent(&mut self, data: Vec<u8>, written: usize)
        requires
            written <= data@.len(),
        ensures
            written < data@.len() ==> {
                &&& final(self)@ == old(self)@.push((data@, written))
                &&& final(self).sending() == old(self).sending()
            },
            written == data@.len() ==> {
                &&& final(self)@ == old(self)@
                &&& final(self).sending() == (old(self).sending() && !spec_is_request_end(data@))
            },
            final(self).stream() == old(self).stream(),
            final(self).accepted() == old(self).accepted() + data@,
            final(self).sent_bytes() == old(self).sent_bytes() + data@.take(written as int),
            final(self).taken() == old(self).taken(),
            old(self).in_order() && old(self).taken().len() == 0 && (old(self)@.len() == 0 || written == 0)
                ==> final(self).in_order(),
    {
        proof {
            use_type_invariant(&*self);
        }
        let ghost d = data@;
        let ghost w = self@;
        self.accepted = Ghost(self.accepted@ + d);
        self.sent = Ghost(self.sent@ + d.take(written as int));
        if written < data.len() {
            self.push_waiting(PartialRequest { body: data, written });
        } else if is_request_end(data.as_slice()) {
            self.sending_request = false;
        }
        proof {
            if old(self).in_order() && old(self).taken@.len() == 0 && (w.len() == 0 || written == 0) {
                assert(rests(self.taken@) =~= Seq::<u8>::empty());
                if w.len() == 0 {
                    assert(rests(w) =~= Seq::<u8>::empty());
                }
                if written == 0 {
                    assert(d.take(0) =~= Seq::<u8>::empty());
                    assert(d.skip(0) =~= d);
                }
                if written < d.len() {
                    assert(w.push((d, written)).drop_last() =~= w);
                    assert(rests(self@) == rests(w) + d.skip(written as int));
                } else {
                    assert(d.take(written as int) =~= d);
                }
                assert(self.accepted@ =~= self.sent@ + rests(self@) + rests(self.taken@));
            }
        }
    }
}


/// How the client sends data that arrives fresh from gRPC.
pub struct FreshSend {
    /// Whether the data is the SETTINGS acknowledgement, which is not sent.
    pub skip: bool,
    /// Whether a new request must be opened for it.
    pub open_request: bool,
    /// Whether the body is sent with the end of the stream.
    pub fin: bool,
}

impl RequestQueue {
    /// How fresh data from gRPC is sent: not at all when it is the SETTINGS
    /// acknowledgement; otherwise on a new request when none is open and on
    /// the open request's stream otherwise, ending the stream exactly when
    /// the data ends the gRPC request.
    pub fn plan_fresh(&self, data: &[u8]) -> (p: FreshSend)
        ensures
            p.skip == (data@ == settings_ack()),
            p.open_request == !self.sending(),
            p.fin == spec_is_request_end(data@),
    {
        FreshSend { skip: is_settings_ack(data), open_request: !self.sending_request, fin: is_request_end(data) }
    }

    /// Records how fresh data from gRPC went: `opened` is the stream of the
    /// request opened for it, if one was, and `written` how many of its
    /// bytes were sent. Data sent whole that ends the gRPC request closes
    /// the request, so that the next data opens a new one; any other data
    /// leaves the next data on the same stream.
    pub fn fresh_sent(&mut self, data: Vec<u8>, opened: Option<u64>, written: usize)
        requires
            written <= data@.len(),
        ensures
            final(self).stream() == (match opened {
                Some(id) => id,
                None => old(self).stream(),
            }),
            written < data@.len() ==> {
                &&& final(self)@ == old(self)@.push((data@, written))
                &&& final(self).sending() == (old(self).sending() || opened is Some)
            },
            written == data@.len() ==> {
                &&& final(self)@ == old(self)@
                &&& final(self).sending() == ((old(self).sending() || opened is Some) && !spec_is_request_end(data@))
            },
            final(self).accepted() == old(self).accepted() + data@,
            final(self).sent_bytes() == old(self).sent_bytes() + data@.take(written as int),
            final(self).taken() == old(self).taken(),
            old(self).in_order() && old(self).taken().len() == 0 && (old(self)@.len() == 0 || written == 0)
                ==> final(self).in_order(),
    {
        match opened {
            Some(id) => self.request_started(id),
            None => {},
        }
        self.data_sent(data, written);
    }
}

/// The client forwards gRPC data faithfully: once nothing waits in the
/// queue and nothing is taken out, the bytes sent are exactly the data that
/// gRPC handed over, joined in order.
pub proof fn lemma_drained_queue_sent_everything(q: RequestQueue)
    requires
        q.in_order(),
        q@.len() == 0,
        q.taken().len() == 0,
    ensures
        q.sent_bytes() == q.accepted(),
{
    assert(rests(q@) =~= Seq::<u8>::empty());
    assert(rests(q.taken()) =~= Seq::<u8>::empty());
    assert(q.sent_bytes() + rests(q@) + rests(q.taken()) =~= q.sent_bytes());
}

} // verus!
