//! Recognising gRPC message boundaries in the bytes bridged over HTTP/3.
use vstd::prelude::*;
use crate::bytes::{bytes_eq, matches_at};

verus! {

/// The eight bytes that, just before the last byte of a request body, mark
/// the end of a gRPC request: an empty HTTP/2 DATA frame header with the
/// END_STREAM flag.
pub open spec fn request_end_marker() -> Seq<u8> {
    seq![0u8, 0u8, 0u8, 0u8, 1u8, 0u8, 0u8, 0u8]
}

/// The nine bytes of the HTTP/2 SETTINGS acknowledgement that gRPC writes and
/// that is not forwarded.
pub open spec fn settings_ack() -> Seq<u8> {
    seq![0u8, 0u8, 0u8, 4u8, 1u8, 0u8, 0u8, 0u8, 0u8]
}

/// The four bytes that end a gRPC response.
pub open spec fn response_end_marker() -> Seq<u8> {
    seq![218u8, 143u8, 129u8, 7u8]
}

/// Whether a request body ends a gRPC request: it has at least nine bytes and
/// the eight bytes before its last byte are the end marker.
pub open spec fn spec_is_request_end(body: Seq<u8>) -> bool {
    body.len() >= 9 && body.subrange(body.len() - 9, body.len() - 1) == request_end_marker()
}

/// Whether the first `n` bytes of `data` end with the response end marker.
pub open spec fn spec_ends_response(data: Seq<u8>, n: int) -> bool {
    n >= 4 && data.subrange(n - 4, n) == response_end_marker()
}

/// Whether a request body ends a gRPC request.
pub fn is_request_end(body: &[u8]) -> (r: bool)
    ensures
        r == spec_is_request_end(body@),
{
    let len = body.len();
    if len < 9 {
        return false;
    }
    let marker: [u8; 8] = [0, 0, 0, 0, 1, 0, 0, 0];
    assert(marker@ =~= request_end_marker());
    matches_at(body, len - 9, marker.as_slice())
}

/// Whether the bytes from gRPC are the SETTINGS acknowledgement that is not
/// forwarded.
pub fn is_settings_ack(data: &[u8]) -> (r: bool)
    ensures
        r == (data@ == settings_ack()),
{
    let ack: [u8; 9] = [0, 0, 0, 4, 1, 0, 0, 0, 0];
    assert(ack@ =~= settings_ack());
    bytes_eq(data, ack.as_slice())
}

/// Whether the first `n` bytes of `data`, the part already written, end the
/// gRPC response.
pub fn ends_response(data: &[u8], n: usize) -> (r: bool)
    requires
        n <= data@.len(),
    ensures
        r == spec_ends_response(data@, n as int),
{
    if n < 4 {
        return false;
    }
    let marker: [u8; 4] = [218, 143, 129, 7];
    assert(marker@ =~= response_end_marker());
    matches_at(data, n - 4, marker.as_slice())
}

} // verus!
