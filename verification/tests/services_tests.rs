use grpc_http3::services::{
    echo_requests, EchoRequest, EchoServer, EchoStep, FileData, FileFailure, FileStep, HelloRequest, Incoming,
    MyFileService, MyGreeter, Proto, RpcCode, ServiceKind, ECHO_STREAM_INTERVAL_MS,
};

#[test]
fn greeter_says_hello() {
    let reply = MyGreeter {}.say_hello(HelloRequest { name: "Maxime".to_string() });
    assert_eq!(reply.message, "Hello Maxime!");
    let reply = MyGreeter {}.say_hello(HelloRequest { name: String::new() });
    assert_eq!(reply.message, "Hello !");
}

#[test]
fn echo_unimplemented_calls() {
    let s = EchoServer {};
    match s.unary_echo(EchoRequest { message: "a".to_string() }) {
        Err(st) => {
            assert_eq!(st.code, RpcCode::Unimplemented);
            assert_eq!(st.message, "not implemented");
        },
        Ok(_) => panic!("unary echo answered"),
    }
    match s.client_streaming_echo() {
        Err(st) => assert_eq!(st.code, RpcCode::Unimplemented),
        Ok(_) => panic!("client streaming echo answered"),
    }
}

#[test]
fn echo_streams() {
    let s = EchoServer {};
    let r = s.server_streaming_echo(&EchoRequest { message: "ping".to_string() });
    assert_eq!(r.message, "ping");
    assert_eq!(ECHO_STREAM_INTERVAL_MS, 200);
    match s.bidirectional_streaming_echo(Incoming::Message(EchoRequest { message: "x".to_string() })) {
        EchoStep::Reply(r) => assert_eq!(r.message, "x"),
        _ => panic!("expected a reply"),
    }
    assert!(matches!(s.bidirectional_streaming_echo(Incoming::BrokenPipe), EchoStep::Stop));
    assert!(matches!(s.bidirectional_streaming_echo(Incoming::Failed), EchoStep::PassError));
    assert!(matches!(s.bidirectional_streaming_echo(Incoming::Ended), EchoStep::Stop));
}

#[test]
fn file_service_answers() {
    let f = MyFileService {};
    match f.upload_file(Ok(())) {
        Ok(u) => assert_eq!(u.message, "File uploaded successfully"),
        Err(_) => panic!("upload failed"),
    }
    let fail = FileFailure { step: FileStep::Write, detail: "disk full".to_string() };
    match f.upload_file(Err(fail)) {
        Err(s) => {
            assert_eq!(s.code, RpcCode::Internal);
            assert_eq!(s.message, "disk full");
        },
        Ok(_) => panic!("upload succeeded"),
    }
    match f.download_file("a.txt".to_string(), Ok(vec![1, 2])) {
        Ok(d) => {
            assert_eq!(d.filename, "a.txt");
            assert_eq!(d.data, vec![1, 2]);
        },
        Err(_) => panic!("download failed"),
    }
    let missing = FileFailure { step: FileStep::Open, detail: "no such file".to_string() };
    match f.download_file("b.txt".to_string(), Err(missing)) {
        Err(s) => assert_eq!(s.code, RpcCode::NotFound),
        Ok(_) => panic!("download succeeded"),
    }
    let unreadable = FileFailure { step: FileStep::Read, detail: "io".to_string() };
    match f.download_file("b.txt".to_string(), Err(unreadable)) {
        Err(s) => assert_eq!(s.code, RpcCode::Internal),
        Ok(_) => panic!("download succeeded"),
    }
    let file = FileData { filename: "c.bin".to_string(), data: vec![9] };
    match f.exchange_file(file, Ok(vec![9])) {
        Ok(d) => {
            assert_eq!(d.filename, "c.bin");
            assert_eq!(d.data, vec![9]);
        },
        Err(_) => panic!("exchange failed"),
    }
    let file = FileData { filename: "c.bin".to_string(), data: vec![9] };
    let failed = FileFailure { step: FileStep::Create, detail: "denied".to_string() };
    match f.exchange_file(file, Err(failed)) {
        Err(s) => {
            assert_eq!(s.code, RpcCode::Internal);
            assert_eq!(s.message, "denied");
        },
        Ok(_) => panic!("exchange succeeded"),
    }
}

#[test]
fn echo_client_messages() {
    assert!(echo_requests(0).is_empty());
    let reqs = echo_requests(12);
    assert_eq!(reqs.len(), 12);
    assert_eq!(reqs[0].message, "msg 01");
    assert_eq!(reqs[8].message, "msg 09");
    assert_eq!(reqs[9].message, "msg 10");
    assert_eq!(reqs[11].message, "msg 12");
    assert_eq!(echo_requests(100)[99].message, "msg 100");
}

#[test]
fn protocol_names() {
    assert_eq!(Proto::from_name(b"helloworld"), Some(Proto::HelloWorld));
    assert_eq!(Proto::from_name(b"echo"), Some(Proto::Echo));
    assert_eq!(Proto::from_name(b"filetransfer"), Some(Proto::FileTransfer));
    assert_eq!(Proto::from_name(b"fileexchange"), Some(Proto::FileExchange));
    assert_eq!(Proto::from_name(b"grpc"), None);
    assert_eq!(Proto::HelloWorld.service(), ServiceKind::Greeter);
    assert_eq!(Proto::Echo.service(), ServiceKind::Echo);
    assert_eq!(Proto::FileTransfer.service(), ServiceKind::Files);
    assert_eq!(Proto::FileExchange.service(), ServiceKind::Files);
}
