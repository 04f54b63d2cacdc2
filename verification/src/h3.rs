//! HTTP/3 headers and bodies as the bridge builds and reads them.
use vstd::prelude::*;
use crate::bytes::copy_range;

verus! {

/// An HTTP/3 header: name and value bytes.
#[derive(Clone, Debug)]
pub struct Header {
    pub name: Vec<u8>,
    pub value: Vec<u8>,
}

/// The (name, value) byte sequences of a list of headers.
pub open spec fn headers_view(hs: Seq<Header>) -> Seq<(Seq<u8>, Seq<u8>)> {
    hs.map_values(|h: Header| (h.name@, h.value@))
}

/// The header name `:status`.
pub open spec fn hdr_status() -> Seq<u8> {
    seq![0x3au8, 0x73u8, 0x74u8, 0x61u8, 0x74u8, 0x75u8, 0x73u8]
}

/// The header name `server`.
pub open spec fn hdr_server() -> Seq<u8> {
    seq![0x73u8, 0x65u8, 0x72u8, 0x76u8, 0x65u8, 0x72u8]
}

/// The header value `quiche`.
pub open spec fn val_quiche() -> Seq<u8> {
    seq![0x71u8, 0x75u8, 0x69u8, 0x63u8, 0x68u8, 0x65u8]
}

/// The header name `content-length`.
pub open spec fn hdr_content_length() -> Seq<u8> {
    seq![0x63u8, 0x6fu8, 0x6eu8, 0x74u8, 0x65u8, 0x6eu8, 0x74u8, 0x2du8, 0x6cu8, 0x65u8, 0x6eu8, 0x67u8, 0x74u8, 0x68u8]
}

/// The header name `:method`.
pub open spec fn hdr_method() -> Seq<u8> {
    seq![0x3au8, 0x6du8, 0x65u8, 0x74u8, 0x68u8, 0x6fu8, 0x64u8]
}

/// The header name `:path`.
pub open spec fn hdr_path() -> Seq<u8> {
    seq![0x3au8, 0x70u8, 0x61u8, 0x74u8, 0x68u8]
}

/// The header name `:scheme`.
pub open spec fn hdr_scheme() -> Seq<u8> {
    seq![0x3au8, 0x73u8, 0x63u8, 0x68u8, 0x65u8, 0x6du8, 0x65u8]
}

/// The header name `:authority`.
pub open spec fn hdr_authority() -> Seq<u8> {
    seq![0x3au8, 0x61u8, 0x75u8, 0x74u8, 0x68u8, 0x6fu8, 0x72u8, 0x69u8, 0x74u8, 0x79u8]
}

/// The header name `user-agent`.
pub open spec fn hdr_user_agent() -> Seq<u8> {
    seq![0x75u8, 0x73u8, 0x65u8, 0x72u8, 0x2du8, 0x61u8, 0x67u8, 0x65u8, 0x6eu8, 0x74u8]
}

/// The method `GET`.
pub open spec fn val_get() -> Seq<u8> {
    seq![0x47u8, 0x45u8, 0x54u8]
}

/// The method `POST`.
pub open spec fn val_post() -> Seq<u8> {
    seq![0x50u8, 0x4fu8, 0x53u8, 0x54u8]
}

/// The scheme `https`.
pub open spec fn val_https() -> Seq<u8> {
    seq![0x68u8, 0x74u8, 0x74u8, 0x70u8, 0x73u8]
}

/// The authority `quic.tech`.
pub open spec fn val_quic_tech() -> Seq<u8> {
    seq![0x71u8, 0x75u8, 0x69u8, 0x63u8, 0x2eu8, 0x74u8, 0x65u8, 0x63u8, 0x68u8]
}

/// The path `/`.
pub open spec fn val_root_path() -> Seq<u8> {
    seq![0x2fu8]
}

/// The body of a 404 response.
pub open spec fn not_found_body() -> Seq<u8> {
    seq![0x4eu8, 0x6fu8, 0x74u8, 0x20u8, 0x46u8, 0x6fu8, 0x75u8, 0x6eu8, 0x64u8, 0x21u8]
}

fn lit_hdr_status() -> (v: Vec<u8>)
    ensures
        v@ == hdr_status(),
{
    let x: [u8; 7] = [0x3a, 0x73, 0x74, 0x61, 0x74, 0x75, 0x73];
    assert(x@ =~= hdr_status());
    copy_range(x.as_slice(), 0, 7)
}

fn lit_hdr_server() -> (v: Vec<u8>)
    ensures
        v@ == hdr_server(),
{
    let x: [u8; 6] = [0x73, 0x65, 0x72, 0x76, 0x65, 0x72];
    assert(x@ =~= hdr_server());
    copy_range(x.as_slice(), 0, 6)
}

fn lit_val_quiche() -> (v: Vec<u8>)
    ensures
        v@ == val_quiche(),
{
    let x: [u8; 6] = [0x71, 0x75, 0x69, 0x63, 0x68, 0x65];
    assert(x@ =~= val_quiche());
    copy_range(x.as_slice(), 0, 6)
}

fn lit_hdr_content_length() -> (v: Vec<u8>)
    ensures
        v@ == hdr_content_length(),
{
    let x: [u8; 14] = [0x63, 0x6f, 0x6e, 0x74, 0x65, 0x6e, 0x74, 0x2d, 0x6c, 0x65, 0x6e, 0x67, 0x74, 0x68];
    assert(x@ =~= hdr_content_length());
    copy_range(x.as_slice(), 0, 14)
}

fn lit_hdr_method() -> (v: Vec<u8>)
    ensures
        v@ == hdr_method(),
{
    let x: [u8; 7] = [0x3a, 0x6d, 0x65, 0x74, 0x68, 0x6f, 0x64];
    assert(x@ =~= hdr_method());
    copy_range(x.as_slice(), 0, 7)
}

fn lit_hdr_path() -> (v: Vec<u8>)
    ensures
        v@ == hdr_path(),
{
    let x: [u8; 5] = [0x3a, 0x70, 0x61, 0x74, 0x68];
    assert(x@ =~= hdr_path());
    copy_range(x.as_slice(), 0, 5)
}

fn lit_hdr_scheme() -> (v: Vec<u8>)
    ensures
        v@ == hdr_scheme(),
{
    let x: [u8; 7] = [0x3a, 0x73, 0x63, 0x68, 0x65, 0x6d, 0x65];
    assert(x@ =~= hdr_scheme());
    copy_range(x.as_slice(), 0, 7)
}

fn lit_hdr_authority() -> (v: Vec<u8>)
    ensures
        v@ == hdr_authority(),
{
    let x: [u8; 10] = [0x3a, 0x61, 0x75, 0x74, 0x68, 0x6f, 0x72, 0x69, 0x74, 0x79];
    assert(x@ =~= hdr_authority());
    copy_range(x.as_slice(), 0, 10)
}

fn lit_hdr_user_agent() -> (v: Vec<u8>)
    ensures
        v@ == hdr_user_agent(),
{
    let x: [u8; 10] = [0x75, 0x73, 0x65, 0x72, 0x2d, 0x61, 0x67, 0x65, 0x6e, 0x74];
    assert(x@ =~= hdr_user_agent());
    copy_range(x.as_slice(), 0, 10)
}

fn lit_val_get() -> (v: Vec<u8>)
    ensures
        v@ == val_get(),
{
    let x: [u8; 3] = [0x47, 0x45, 0x54];
    assert(x@ =~= val_get());
    copy_range(x.as_slice(), 0, 3)
}

fn lit_val_post() -> (v: Vec<u8>)
    ensures
        v@ == val_post(),
{
    let x: [u8; 4] = [0x50, 0x4f, 0x53, 0x54];
    assert(x@ =~= val_post());
    copy_range(x.as_slice(), 0, 4)
}

fn lit_val_https() -> (v: Vec<u8>)
    ensures
        v@ == val_https(),
{
    let x: [u8; 5] = [0x68, 0x74, 0x74, 0x70, 0x73];
    assert(x@ =~= val_https());
    copy_range(x.as_slice(), 0, 5)
}

fn lit_val_quic_tech() -> (v: Vec<u8>)
    ensures
        v@ == val_quic_tech(),
{
    let x: [u8; 9] = [0x71, 0x75, 0x69, 0x63, 0x2e, 0x74, 0x65, 0x63, 0x68];
    assert(x@ =~= val_quic_tech());
    copy_range(x.as_slice(), 0, 9)
}

fn lit_val_root_path() -> (v: Vec<u8>)
    ensures
        v@ == val_root_path(),
{
    let x: [u8; 1] = [0x2f];
    assert(x@ =~= val_root_path());
    copy_range(x.as_slice(), 0, 1)
}

fn lit_not_found_body() -> (v: Vec<u8>)
    ensures
        v@ == not_found_body(),
{
    let x: [u8; 10] = [0x4e, 0x6f, 0x74, 0x20, 0x46, 0x6f, 0x75, 0x6e, 0x64, 0x21];
    assert(x@ =~= not_found_body());
    copy_range(x.as_slice(), 0, 10)
}


/// The ASCII decimal representation of `n`, without leading zeros.
pub open spec fn decimal(n: nat) -> Seq<u8>
    decreases n,
{
    if n < 10 {
        seq![(48 + n) as u8]
    } else {
        decimal(n / 10).push((48 + n % 10) as u8)
    }
}

fn push_decimal(out: &mut Vec<u8>, n: u64)
    ensures
        final(out)@ == old(out)@ + decimal(n as nat),
    decreases n,
{
    if n < 10 {
        out.push((48 + n) as u8);
        assert(final(out)@ =~= old(out)@ + decimal(n as nat));
    } else {
        push_decimal(out, n / 10);
        out.push((48 + n % 10) as u8);
        assert(final(out)@ =~= old(out)@ + decimal(n as nat));
    }
}

/// The ASCII decimal digits of `n`, as `n.to_string()` gives them.
pub fn decimal_bytes(n: u64) -> (out: Vec<u8>)
    ensures
        out@ == decimal(n as nat),
{
    let mut out: Vec<u8> = Vec::new();
    push_decimal(&mut out, n);
    assert(out@ =~= decimal(n as nat));
    out
}

/// The value of a sequence of ASCII decimal digits.
pub open spec fn decimal_value(s: Seq<u8>) -> nat
    decreases s.len(),
{
    if s.len() == 0 {
        0
    } else {
        decimal_value(s.drop_last()) * 10 + (s.last() - 48) as nat
    }
}

/// Reading back the decimal representation of a number gives the number, and
/// every character of it is a digit.
pub proof fn lemma_decimal_roundtrip(n: nat)
    ensures
        decimal_value(decimal(n)) == n,
        decimal(n).len() >= 1,
        forall|i: int| 0 <= i < decimal(n).len() ==> 48 <= #[trigger] decimal(n)[i] <= 57,
    decreases n,
{
    if n >= 10 {
        lemma_decimal_roundtrip(n / 10);
        assert(decimal(n).drop_last() =~= decimal(n / 10));
        assert(decimal(n).last() == (48 + n % 10) as u8);
        assert((n / 10) * 10 + n % 10 == n) by (nonlinear_arith);
        assert(decimal(n).last() as int == 48 + n % 10);
        assert(decimal_value(decimal(n)) == decimal_value(decimal(n / 10)) * 10 + (decimal(n).last() - 48) as nat);
        assert forall|i: int| 0 <= i < decimal(n).len() implies 48 <= #[trigger] decimal(n)[i] <= 57 by {
            if i < decimal(n).len() - 1 {
                assert(decimal(n)[i] == decimal(n / 10)[i]);
            }
        }
    } else {
        assert(decimal(n).drop_last() =~= Seq::<u8>::empty());
        assert(decimal(n).last() as int == 48 + n);
        assert(decimal_value(decimal(n)) == decimal_value(Seq::<u8>::empty()) * 10 + (decimal(n).last() - 48) as nat);
    }
}

fn header(name: Vec<u8>, value: Vec<u8>) -> (h: Header)
    ensures
        h.name@ == name@,
        h.value@ == value@,
{
    Header { name, value }
}

/// A copy of a list of headers.
pub(crate) fn copy_headers(hs: &Vec<Header>) -> (out: Vec<Header>)
    ensures
        headers_view(out@) == headers_view(hs@),
{
    let mut out: Vec<Header> = Vec::new();
    let mut i: usize = 0;
    while i < hs.len()
        invariant
            i <= hs@.len(),
            headers_view(out@) == headers_view(hs@.take(i as int)),
        decreases hs@.len() - i,
    {
        let name = crate::bytes::copy_range(hs[i].name.as_slice(), 0, hs[i].name.len());
        let value = crate::bytes::copy_range(hs[i].value.as_slice(), 0, hs[i].value.len());
        proof {
            assert(hs@[i as int].name@.subrange(0, hs@[i as int].name@.len() as int) =~= hs@[i as int].name@);
            assert(hs@[i as int].value@.subrange(0, hs@[i as int].value@.len() as int) =~= hs@[i as int].value@);
        }
        let ghost before = out@;
        let h = header(name, value);
        out.push(h);
        proof {
            assert(out@ =~= before.push(h));
            assert(hs@.take(i + 1) =~= hs@.take(i as int).push(hs@[i as int]));
            assert(headers_view(out@) =~= headers_view(before).push((h.name@, h.value@)));
            assert(headers_view(hs@.take(i + 1)) =~= headers_view(hs@.take(i as int)).push(
                (hs@[i as int].name@, hs@[i as int].value@),
            ));
        }
        i = i + 1;
    }
    assert(hs@.take(hs@.len() as int) =~= hs@);
    out
}

/// The headers of a response: its status, `server: quiche`, and the body's
/// length.
pub open spec fn spec_response_headers(status: u16, body_len: nat) -> Seq<(Seq<u8>, Seq<u8>)> {
    seq![
        (hdr_status(), decimal(status as nat)),
        (hdr_server(), val_quiche()),
        (hdr_content_length(), decimal(body_len)),
    ]
}

/// The headers of a response with the given status and body length.
pub fn response_headers(status: u16, body_len: usize) -> (hs: Vec<Header>)
    ensures
        headers_view(hs@) == spec_response_headers(status, body_len as nat),
{
    let mut hs: Vec<Header> = Vec::new();
    hs.push(header(lit_hdr_status(), decimal_bytes(status as u64)));
    hs.push(header(lit_hdr_server(), lit_val_quiche()));
    hs.push(header(lit_hdr_content_length(), decimal_bytes(body_len as u64)));
    assert(headers_view(hs@) =~= spec_response_headers(status, body_len as nat));
    hs
}

/// The headers with which the server answers each bridged request:
/// `:status: 200` and `server: quiche`.
pub fn bridge_response_headers() -> (hs: Vec<Header>)
    ensures
        headers_view(hs@) == seq![(hdr_status(), decimal(200)), (hdr_server(), val_quiche())],
{
    let mut hs: Vec<Header> = Vec::new();
    hs.push(header(lit_hdr_status(), decimal_bytes(200)));
    hs.push(header(lit_hdr_server(), lit_val_quiche()));
    assert(headers_view(hs@) =~= seq![(hdr_status(), decimal(200)), (hdr_server(), val_quiche())]);
    hs
}

/// The headers with which the client opens each bridged request:
/// `:method: POST`.
pub fn bridge_request_headers() -> (hs: Vec<Header>)
    ensures
        headers_view(hs@) == seq![(hdr_method(), val_post())],
{
    let mut hs: Vec<Header> = Vec::new();
    hs.push(header(lit_hdr_method(), lit_val_post()));
    assert(headers_view(hs@) =~= seq![(hdr_method(), val_post())]);
    hs
}

/// The headers of a request that carries a message of `len` bytes to the
/// server through the connector.
pub fn connector_request_headers(len: usize) -> (hs: Vec<Header>)
    ensures
        headers_view(hs@) == seq![
            (hdr_method(), val_get()),
            (hdr_scheme(), val_https()),
            (hdr_authority(), val_quic_tech()),
            (hdr_path(), val_root_path()),
            (hdr_user_agent(), val_quiche()),
            (hdr_content_length(), decimal(len as nat)),
        ],
{
    let mut hs: Vec<Header> = Vec::new();
    hs.push(header(lit_hdr_method(), lit_val_get()));
    hs.push(header(lit_hdr_scheme(), lit_val_https()));
    hs.push(header(lit_hdr_authority(), lit_val_quic_tech()));
    hs.push(header(lit_hdr_path(), lit_val_root_path()));
    hs.push(header(lit_hdr_user_agent(), lit_val_quiche()));
    hs.push(header(lit_hdr_content_length(), decimal_bytes(len as u64)));
    assert(headers_view(hs@) =~= seq![
        (hdr_method(), val_get()),
        (hdr_scheme(), val_https()),
        (hdr_authority(), val_quic_tech()),
        (hdr_path(), val_root_path()),
        (hdr_user_agent(), val_quiche()),
        (hdr_content_length(), decimal(len as nat)),
    ]);
    hs
}

/// The value of the last header called `name`, if any.
pub open spec fn last_value(hs: Seq<(Seq<u8>, Seq<u8>)>, name: Seq<u8>) -> Option<Seq<u8>>
    decreases hs.len(),
{
    if hs.len() == 0 {
        None
    } else if hs.last().0 == name {
        Some(hs.last().1)
    } else {
        last_value(hs.drop_last(), name)
    }
}

fn last_header_value(headers: &Vec<Header>, name: &Vec<u8>) -> (r: Option<Vec<u8>>)
    ensures
        match r {
            Some(v) => last_value(headers_view(headers@), name@) == Some(v@),
            None => last_value(headers_view(headers@), name@) is None,
        },
{
    let mut r: Option<Vec<u8>> = None;
    let mut i: usize = 0;
    while i < headers.len()
        invariant
            i <= headers@.len(),
            match r {
                Some(v) => last_value(headers_view(headers@.take(i as int)), name@) == Some(v@),
                None => last_value(headers_view(headers@.take(i as int)), name@) is None,
            },
        decreases headers@.len() - i,
    {
        proof {
            assert(headers_view(headers@.take(i + 1)).drop_last() =~= headers_view(headers@.take(i as int)));
        }
        if crate::bytes::bytes_eq(headers[i].name.as_slice(), name.as_slice()) {
            r = Some(copy_range(headers[i].value.as_slice(), 0, headers[i].value.len()));
            proof {
                assert(headers[i as int].value@.subrange(0, headers[i as int].value@.len() as int) =~= headers[i as int].value@);
            }
        }
        i = i + 1;
    }
    assert(headers@.take(headers@.len() as int) =~= headers@);
    r
}

/// The request's method: the value of its last `:method` header.
pub fn request_method(headers: &Vec<Header>) -> (m: Option<Vec<u8>>)
    ensures
        match m {
            Some(v) => last_value(headers_view(headers@), hdr_method()) == Some(v@),
            None => last_value(headers_view(headers@), hdr_method()) is None,
        },
{
    let name = lit_hdr_method();
    last_header_value(headers, &name)
}

/// Whether a method is `GET`: the one method whose response waits for a
/// message from the channel.
pub fn is_get(method: &Option<Vec<u8>>) -> (b: bool)
    ensures
        b == (match method {
            Some(v) => v@ == val_get(),
            None => false,
        }),
{
    match method {
        Some(v) => {
            let get = lit_val_get();
            crate::bytes::bytes_eq(v.as_slice(), get.as_slice())
        },
        None => false,
    }
}

/// The status and body of the response to a request with `method`: for
/// `GET`, 200 and the message received from the channel, or 404 and
/// `Not Found!` when the channel gave none; 405 and no body for any other
/// method or none.
pub open spec fn spec_response(method: Option<Seq<u8>>, received: Option<Seq<u8>>) -> (u16, Seq<u8>) {
    if method == Some(val_get()) {
        match received {
            Some(m) => (200, m),
            None => (404, not_found_body()),
        }
    } else {
        (405, Seq::empty())
    }
}

/// Every `:path` header value is valid UTF-8.
pub open spec fn paths_utf8(hs: Seq<(Seq<u8>, Seq<u8>)>) -> bool {
    forall|i: int| 0 <= i < hs.len() && (#[trigger] hs[i]).0 == hdr_path() ==> vstd::utf8::valid_utf8(hs[i].1)
}

/// Whether `std::str::from_utf8` accepts the bytes.
///
/// Trusted: the standard library documents that `from_utf8` returns `Ok`
/// exactly for valid UTF-8, which is what `valid_utf8` states.
#[verifier::external_body]
fn std_str_from_utf8_is_ok(bytes: &[u8]) -> (ok: bool)
    ensures
        ok == vstd::utf8::valid_utf8(bytes@),
{
    std::str::from_utf8(bytes).is_ok()
}

/// Whether every `:path` header of a request is valid UTF-8, the condition
/// under which the request can be answered.
pub fn paths_valid_utf8(headers: &Vec<Header>) -> (ok: bool)
    ensures
        ok == paths_utf8(headers_view(headers@)),
{
    let path = lit_hdr_path();
    let mut i: usize = 0;
    while i < headers.len()
        invariant
            i <= headers@.len(),
            path@ == hdr_path(),
            forall|j: int| 0 <= j < i && (#[trigger] headers_view(headers@)[j]).0 == hdr_path()
                ==> vstd::utf8::valid_utf8(headers_view(headers@)[j].1),
        decreases headers@.len() - i,
    {
        if crate::bytes::bytes_eq(headers[i].name.as_slice(), path.as_slice()) {
            if !std_str_from_utf8_is_ok(headers[i].value.as_slice()) {
                assert(headers_view(headers@)[i as int].0 == hdr_path());
                return false;
            }
        }
        i = i + 1;
    }
    true
}

/// Builds the response to an HTTP/3 request: `received` is the message that
/// the channel gave, when the request is a `GET` and one was received. The
/// headers give the status, `server: quiche` and the body's length.
pub fn build_response(request: &Vec<Header>, received: Option<Vec<u8>>) -> (r: (Vec<Header>, Vec<u8>))
    requires
        paths_utf8(headers_view(request@)),
    ensures
        ({
            let method = last_value(headers_view(request@), hdr_method());
            let resp = spec_response(method, match received { Some(m) => Some(m@), None => None });
            &&& r.1@ == resp.1
            &&& headers_view(r.0@) == spec_response_headers(resp.0, resp.1.len())
        }),
{
    let method = request_method(request);
    let (status, body): (u16, Vec<u8>) = if is_get(&method) {
        match received {
            Some(msg) => (200, msg),
            None => (404, lit_not_found_body()),
        }
    } else {
        (405, Vec::new())
    };
    proof {
        assert(method is Some ==> method.unwrap()@ == last_value(headers_view(request@), hdr_method()).unwrap());
    }
    let headers = response_headers(status, body.len());
    (headers, body)
}

/// What `String::from_utf8_lossy` makes of some bytes.
pub uninterp spec fn utf8_lossy(bytes: Seq<u8>) -> Seq<char>;

/// Decodes bytes with `String::from_utf8_lossy`.
///
/// Trusted: the result is a function of the bytes alone, named
/// `utf8_lossy`; the standard library documents that valid UTF-8 is decoded
/// as it stands. How invalid sequences are replaced is left unsaid.
#[verifier::external_body]
fn std_from_utf8_lossy(bytes: &[u8]) -> (s: String)
    ensures
        s@ == utf8_lossy(bytes@),
        vstd::utf8::valid_utf8(bytes@) ==> s@ == vstd::utf8::decode_utf8(bytes@),
{
    String::from_utf8_lossy(bytes).into_owned()
}

/// Headers as pairs of strings, each decoded as lossy UTF-8, for logging:
/// valid UTF-8 decodes as it stands.
pub fn hdrs_to_strings(hdrs: &Vec<Header>) -> (out: Vec<(String, String)>)
    ensures
        out@.len() == hdrs@.len(),
        forall|i: int| 0 <= i < hdrs@.len() ==> (#[trigger] out@[i]).0@ == utf8_lossy(hdrs@[i].name@)
            && out@[i].1@ == utf8_lossy(hdrs@[i].value@),
        forall|i: int| 0 <= i < hdrs@.len() && vstd::utf8::valid_utf8(hdrs@[i].name@)
            ==> (#[trigger] out@[i]).0@ == vstd::utf8::decode_utf8(hdrs@[i].name@),
        forall|i: int| 0 <= i < hdrs@.len() && vstd::utf8::valid_utf8(hdrs@[i].value@)
            ==> (#[trigger] out@[i]).1@ == vstd::utf8::decode_utf8(hdrs@[i].value@),
{
    let mut out: Vec<(String, String)> = Vec::new();
    let mut i: usize = 0;
    while i < hdrs.len()
        invariant
            i <= hdrs@.len(),
            out@.len() == i,
            forall|j: int| 0 <= j < i ==> (#[trigger] out@[j]).0@ == utf8_lossy(hdrs@[j].name@)
                && out@[j].1@ == utf8_lossy(hdrs@[j].value@),
            forall|j: int| 0 <= j < i && vstd::utf8::valid_utf8(hdrs@[j].name@)
                ==> (#[trigger] out@[j]).0@ == vstd::utf8::decode_utf8(hdrs@[j].name@),
            forall|j: int| 0 <= j < i && vstd::utf8::valid_utf8(hdrs@[j].value@)
                ==> (#[trigger] out@[j]).1@ == vstd::utf8::decode_utf8(hdrs@[j].value@),
        decreases hdrs@.len() - i,
    {
        let name = std_from_utf8_lossy(hdrs[i].name.as_slice());
        let value = std_from_utf8_lossy(hdrs[i].value.as_slice());
        out.push((name, value));
        i = i + 1;
    }
    out
}

/// The lower-case hexadecimal digit of a value below 16.
pub open spec fn hex_digit(n: int) -> char {
    if n < 10 {
        (48 + n) as char
    } else {
        (87 + n) as char
    }
}

/// Two lower-case hexadecimal digits per byte, most significant first.
pub open spec fn spec_hex_dump(buf: Seq<u8>) -> Seq<char>
    decreases buf.len(),
{
    if buf.len() == 0 {
        Seq::empty()
    } else {
        spec_hex_dump(buf.drop_last()) + seq![hex_digit(buf.last() as int / 16), hex_digit(buf.last() as int % 16)]
    }
}

pub(crate) fn hex_str(n: u8) -> (s: &'static str)
    requires
        n < 16,
    ensures
        s@ == seq![hex_digit(n as int)],
{
    match n {
        0 => {
            proof {
                reveal_strlit("0");
            }
            "0"
        },
        1 => {
            proof {
                reveal_strlit("1");
            }
            "1"
        },
        2 => {
            proof {
                reveal_strlit("2");
            }
            "2"
        },
        3 => {
            proof {
                reveal_strlit("3");
            }
            "3"
        },
        4 => {
            proof {
                reveal_strlit("4");
            }
            "4"
        },
        5 => {
            proof {
                reveal_strlit("5");
            }
            "5"
        },
        6 => {
            proof {
                reveal_strlit("6");
            }
            "6"
        },
        7 => {
            proof {
                reveal_strlit("7");
            }
            "7"
        },
        8 => {
            proof {
                reveal_strlit("8");
            }
            "8"
        },
        9 => {
            proof {
                reveal_strlit("9");
            }
            "9"
        },
        10 => {
            proof {
                reveal_strlit("a");
            }
            "a"
        },
        11 => {
            proof {
                reveal_strlit("b");
            }
            "b"
        },
        12 => {
            proof {
                reveal_strlit("c");
            }
            "c"
        },
        13 => {
            proof {
                reveal_strlit("d");
            }
            "d"
        },
        14 => {
            proof {
                reveal_strlit("e");
            }
            "e"
        },
        15 => {
            proof {
                reveal_strlit("f");
            }
            "f"
        },

        _ => {
            proof {
                reveal_strlit("f");
            }
            "f"
        },
    }
}

/// The bytes as lower-case hexadecimal, two digits per byte.
pub fn hex_dump(buf: &[u8]) -> (s: String)
    ensures
        s@ == spec_hex_dump(buf@),
{
    let mut s = String::new();
    let mut i: usize = 0;
    while i < buf.len()
        invariant
            i <= buf@.len(),
            s@ == spec_hex_dump(buf@.take(i as int)),
        decreases buf@.len() - i,
    {
        let b = buf[i];
        s.append(hex_str(b / 16));
        s.append(hex_str(b % 16));
        proof {
            assert(buf@.take(i + 1).drop_last() =~= buf@.take(i as int));
            assert(s@ =~= spec_hex_dump(buf@.take(i + 1)));
        }
        i = i + 1;
    }
    assert(buf@.take(buf@.len() as int) =~= buf@);
    s
}

} // verus!

verus! {

/// The hex dump has two characters per byte, each a lower-case hex digit.
pub proof fn lemma_hex_dump_len(buf: Seq<u8>)
    ensures
        spec_hex_dump(buf).len() == 2 * buf.len(),
    decreases buf.len(),
{
    if buf.len() > 0 {
        lemma_hex_dump_len(buf.drop_last());
    }
}

} // verus!
