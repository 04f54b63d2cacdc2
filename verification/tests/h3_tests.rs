use grpc_http3::h3::{
    bridge_request_headers, bridge_response_headers, build_response, connector_request_headers, decimal_bytes,
    hdrs_to_strings, hex_dump, is_get, paths_valid_utf8, request_method, response_headers, Header,
};
use grpc_http3::streams::{
    PartialRequest, PartialResponse, PendingResponses, RequestQueue, ResponseState, StreamWritableStep, WritableStep,
};

fn h(name: &str, value: &[u8]) -> Header {
    Header { name: name.as_bytes().to_vec(), value: value.to_vec() }
}

fn pairs(hs: &[Header]) -> Vec<(Vec<u8>, Vec<u8>)> {
    hs.iter().map(|x| (x.name.clone(), x.value.clone())).collect()
}

#[test]
fn decimal_digits() {
    assert_eq!(decimal_bytes(0), b"0".to_vec());
    assert_eq!(decimal_bytes(200), b"200".to_vec());
    assert_eq!(decimal_bytes(1234567890), b"1234567890".to_vec());
    assert_eq!(decimal_bytes(u64::MAX), u64::MAX.to_string().into_bytes());
}

#[test]
fn hex_dump_matches_format() {
    assert_eq!(hex_dump(&[]), "");
    assert_eq!(hex_dump(&[0x00, 0x0f, 0xab, 0xff, 0x10]), "000fabff10");
}

#[test]
fn fixed_headers() {
    assert_eq!(
        pairs(&bridge_response_headers()),
        vec![(b":status".to_vec(), b"200".to_vec()), (b"server".to_vec(), b"quiche".to_vec())]
    );
    assert_eq!(pairs(&bridge_request_headers()), vec![(b":method".to_vec(), b"POST".to_vec())]);
    assert_eq!(
        pairs(&response_headers(404, 10)),
        vec![
            (b":status".to_vec(), b"404".to_vec()),
            (b"server".to_vec(), b"quiche".to_vec()),
            (b"content-length".to_vec(), b"10".to_vec()),
        ]
    );
    let c = pairs(&connector_request_headers(12));
    assert_eq!(c[0], (b":method".to_vec(), b"GET".to_vec()));
    assert_eq!(c[2], (b":authority".to_vec(), b"quic.tech".to_vec()));
    assert_eq!(c[5], (b"content-length".to_vec(), b"12".to_vec()));
}

#[test]
fn responses_by_method() {
    let get = vec![h(":method", b"POST"), h(":path", b"/x"), h(":method", b"GET")];
    assert_eq!(request_method(&get), Some(b"GET".to_vec()));
    assert!(is_get(&request_method(&get)));
    let (hs, body) = build_response(&get, Some(b"hello".to_vec()));
    assert_eq!(body, b"hello".to_vec());
    assert_eq!(pairs(&hs), pairs(&response_headers(200, 5)));
    let (hs, body) = build_response(&get, None);
    assert_eq!(body, b"Not Found!".to_vec());
    assert_eq!(pairs(&hs)[0].1, b"404".to_vec());
    let post = vec![h(":method", b"POST")];
    let (hs, body) = build_response(&post, None);
    assert!(body.is_empty());
    assert_eq!(pairs(&hs)[0].1, b"405".to_vec());
    assert_eq!(pairs(&hs)[2].1, b"0".to_vec());
    let (_, body) = build_response(&vec![], None);
    assert!(body.is_empty());
}

#[test]
fn path_utf8_check() {
    assert!(paths_valid_utf8(&vec![h(":path", "/é".as_bytes())]));
    assert!(!paths_valid_utf8(&vec![h(":path", &[0xff, 0xfe])]));
    assert!(paths_valid_utf8(&vec![h("x", &[0xff])]));
}

#[test]
fn header_strings() {
    let s = hdrs_to_strings(&vec![h(":status", b"200"), h("bad", &[0x66, 0xff])]);
    assert_eq!(s[0], (":status".to_string(), "200".to_string()));
    assert_eq!(s[1], ("bad".to_string(), "f\u{fffd}".to_string()));
    let s = hdrs_to_strings(&vec![h(":status", b"200"), h("x", &[0xff])]);
    assert_eq!(
        s,
        vec![(":status".to_string(), "200".to_string()), ("x".to_string(), char::REPLACEMENT_CHARACTER.to_string())]
    );
}

#[test]
fn pending_responses_progress() {
    let mut p = PendingResponses::new();
    p.insert(0, PartialResponse { headers: Some(vec![h(":status", b"200")]), body: vec![1, 2, 3, 4], written: 1 });
    assert!(p.contains(0));
    assert_eq!(p.pending_headers(0).map(|v| v.len()), Some(1));
    p.headers_sent(0);
    assert!(p.pending_headers(0).is_none());
    assert_eq!(p.remaining(0), Some(vec![2, 3, 4]));
    p.advance(0, 2);
    assert_eq!(p.remaining(0), Some(vec![4]));
    p.advance(0, 1);
    assert!(!p.contains(0));
    assert_eq!(p.remaining(0), None);
    p.insert(4, PartialResponse { headers: None, body: vec![], written: 0 });
    p.advance(4, 0);
    assert!(!p.contains(4));
}

#[test]
fn response_state_flags() {
    let mut s = ResponseState::new();
    s.body_sent(0, vec![1, 2, 3], 1);
    assert_eq!(s.partial.remaining(0), Some(vec![2, 3]));
    assert!(!s.sending_response);
    s.body_sent(0, vec![9, 218, 143, 129, 7], 5);
    assert!(s.sending_response);
    let mut s = ResponseState::new();
    s.blocked(0, vec![5, 6]);
    assert_eq!(s.partial.remaining(0), Some(vec![5, 6]));
}

#[test]
fn request_queue_lifecycle() {
    let end = vec![7, 0, 0, 0, 0, 1, 0, 0, 0, 0];
    let mut q = RequestQueue::new();
    q.request_started(4);
    assert!(q.sending_request());
    assert_eq!(q.stream_id(), 4);
    q.data_sent(end.clone(), 1);
    assert!(q.sending_request());
    let w = q.take_waiting();
    assert_eq!(w.len(), 1);
    assert_eq!(w[0].written, 1);
    for r in w {
        q.settle(r, Some(9));
    }
    assert!(!q.sending_request());
    assert!(q.take_waiting().is_empty());
    q.queue_blocked(vec![1, 2]);
    let w = q.take_waiting();
    for r in w {
        q.settle(r, Some(1));
    }
    let w = q.take_waiting();
    assert_eq!(w.len(), 1);
    assert_eq!((w[0].body.clone(), w[0].written), (vec![1, 2], 1));
    q.put_back(PartialRequest { body: vec![3], written: 0 });
    let w = q.take_waiting();
    for r in w {
        q.settle(r, None);
    }
    assert!(q.take_waiting().is_empty());
    q.request_started(8);
    q.data_sent(end, 10);
    assert!(!q.sending_request());
}

#[test]
fn fresh_data_requests() {
    let end = vec![0, 0, 0, 0, 0, 1, 0, 0, 0, 0];
    let mid = vec![1, 2, 3];
    let mut q = RequestQueue::new();
    let plan = q.plan_fresh(&mid);
    assert!(plan.open_request);
    assert!(!plan.fin);
    q.fresh_sent(mid.clone(), Some(4), 3);
    assert_eq!(q.stream_id(), 4);
    assert!(q.sending_request());
    let plan = q.plan_fresh(&end);
    assert!(!plan.open_request);
    assert!(plan.fin);
    q.fresh_sent(end.clone(), None, 10);
    assert_eq!(q.stream_id(), 4);
    assert!(!q.sending_request());
    assert!(q.plan_fresh(&mid).open_request);
    q.fresh_sent(mid.clone(), Some(8), 1);
    assert_eq!(q.stream_id(), 8);
    assert_eq!(q.take_waiting().len(), 1);
}

#[test]
fn writable_steps() {
    let mut s = ResponseState::new();
    assert!(matches!(s.on_writable(0), WritableStep::Nothing));
    s.blocked(0, vec![1, 2, 3]);
    assert!(matches!(s.on_writable(0), WritableStep::SendHeaders));
    s.sending_response = true;
    match s.on_writable(0) {
        WritableStep::SendBody(b) => assert_eq!(b, vec![1, 2, 3]),
        _ => panic!("expected the body"),
    }
    s.partial.body_outcome(0, Some(2));
    match s.on_writable(0) {
        WritableStep::SendBody(b) => assert_eq!(b, vec![3]),
        _ => panic!("expected the body"),
    }
    s.partial.body_outcome(0, None);
    assert!(matches!(s.on_writable(0), WritableStep::Nothing));

    let mut p = PendingResponses::new();
    p.insert(4, PartialResponse { headers: Some(vec![h(":status", b"200")]), body: vec![5, 6], written: 0 });
    match p.on_writable(4) {
        StreamWritableStep::SendHeaders(hs) => assert_eq!(pairs(&hs), vec![(b":status".to_vec(), b"200".to_vec())]),
        _ => panic!("expected the headers"),
    }
    p.headers_sent(4);
    match p.on_writable(4) {
        StreamWritableStep::SendBody(b) => assert_eq!(b, vec![5, 6]),
        _ => panic!("expected the body"),
    }
    p.body_outcome(4, Some(2));
    assert!(matches!(p.on_writable(4), StreamWritableStep::Nothing));
}

#[test]
fn settings_ack_is_skipped() {
    let q = RequestQueue::new();
    assert!(q.plan_fresh(&[0, 0, 0, 4, 1, 0, 0, 0, 0]).skip);
    assert!(!q.plan_fresh(&[0, 0, 0, 4, 1, 0, 0, 0, 1]).skip);
}
