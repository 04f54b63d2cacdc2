//! The gRPC services that the bridge serves: the greeter, the echo service
//! and the file service, as computations on plain messages. Reading and
//! writing files, and the streams that carry the messages, stay with the
//! caller, which hands in what they gave.
use vstd::prelude::*;
use crate::bytes::bytes_eq;
use crate::h3::{hex_digit, hex_str};

verus! {

/// A greeting request: the name to greet.
pub struct HelloRequest {
    pub name: String,
}

/// A greeting reply.
pub struct HelloReply {
    pub message: String,
}

/// A message to echo.
pub struct EchoRequest {
    pub message: String,
}

/// An echoed message.
pub struct EchoResponse {
    pub message: String,
}

/// A file's name and contents.
pub struct FileData {
    pub filename: String,
    pub data: Vec<u8>,
}

/// The reply to an upload.
pub struct UploadResponse {
    pub message: String,
}

/// The gRPC status codes that the services answer with.
#[derive(PartialEq, Eq, Structural, Clone, Copy, Debug)]
pub enum RpcCode {
    Unimplemented,
    Internal,
    NotFound,
}

/// A failed call: its code and message.
pub struct RpcStatus {
    pub code: RpcCode,
    pub message: String,
}

/// The file operation that failed.
#[derive(PartialEq, Eq, Structural, Clone, Copy, Debug)]
pub enum FileStep {
    Create,
    Write,
    Open,
    Read,
}

/// A failed file operation and the error's text.
pub struct FileFailure {
    pub step: FileStep,
    pub detail: String,
}

/// What arrives on the incoming stream of a bidirectional echo.
pub enum Incoming {
    /// A message.
    Message(EchoRequest),
    /// The client went away: the pipe broke.
    BrokenPipe,
    /// Any other failure of the stream; the caller holds its status.
    Failed,
    /// The client sends no more.
    Ended,
}

/// What the bidirectional echo does with one item of its incoming stream.
pub enum EchoStep {
    /// Send this reply.
    Reply(EchoResponse),
    /// Pass the stream's failure on to the client.
    PassError,
    /// Stop echoing.
    Stop,
}

/// The greeting for a name: `Hello `, the name, `!`.
pub open spec fn greeting(name: Seq<char>) -> Seq<char> {
    seq!['H', 'e', 'l', 'l', 'o', ' '] + name + seq!['!']
}

/// The text of an unimplemented call's status.
pub open spec fn not_implemented_text() -> Seq<char> {
    seq!['n', 'o', 't', ' ', 'i', 'm', 'p', 'l', 'e', 'm', 'e', 'n', 't', 'e', 'd']
}

/// The text of a successful upload's reply.
pub open spec fn uploaded_text() -> Seq<char> {
    seq![
        'F', 'i', 'l', 'e', ' ', 'u', 'p', 'l', 'o', 'a', 'd', 'e', 'd', ' ', 's', 'u', 'c', 'c',
        'e', 's', 's', 'f', 'u', 'l', 'l', 'y',
    ]
}

/// The status code for a failed file operation: a file that cannot be
/// opened is not found, every other failure is internal.
pub open spec fn failure_code(step: FileStep) -> RpcCode {
    if step == FileStep::Open {
        RpcCode::NotFound
    } else {
        RpcCode::Internal
    }
}

/// The decimal digits of `n`, most significant first.
pub open spec fn decimal_text(n: nat) -> Seq<char>
    decreases n,
{
    if n < 10 {
        seq![hex_digit(n as int)]
    } else {
        decimal_text(n / 10) + seq![hex_digit((n % 10) as int)]
    }
}

/// The text of the `i`-th message of the echo client: `msg ` and `i` in
/// decimal, padded to two digits.
pub open spec fn echo_message(i: nat) -> Seq<char> {
    seq!['m', 's', 'g', ' '] + (if i < 10 { seq!['0'] } else { Seq::empty() }) + decimal_text(i)
}

/// How many messages the echo client's request stream holds: it numbers
/// them from 1 up to, not including, `usize::MAX`.
pub open spec fn echo_stream_len(num: nat) -> nat {
    if num < usize::MAX { num } else { (usize::MAX - 1) as nat }
}

/// Appends the decimal digits of `n`.
fn push_decimal_text(s: &mut String, n: usize)
    ensures
        final(s)@ == old(s)@ + decimal_text(n as nat),
    decreases n,
{
    if n >= 10 {
        push_decimal_text(s, n / 10);
    }
    s.append(hex_str((n % 10) as u8));
    proof {
        if n < 10 {
            assert(old(s)@ + decimal_text(n as nat) =~= old(s)@ + seq![hex_digit(n as int)]);
        } else {
            assert(old(s)@ + decimal_text(n as nat) =~= old(s)@ + decimal_text((n / 10) as nat) + seq![
                hex_digit((n % 10) as int),
            ]);
        }
    }
}

/// The first `num` requests of the echo client's stream: the `i`-th carries
/// the message `msg ` and `i` padded to two digits.
pub fn echo_requests(num: usize) -> (reqs: Vec<EchoRequest>)
    ensures
        reqs@.len() == echo_stream_len(num as nat),
        forall|k: int| 0 <= k < reqs@.len() ==> (#[trigger] reqs@[k]).message@ == echo_message((k + 1) as nat),
{
    let mut reqs: Vec<EchoRequest> = Vec::new();
    let mut i: usize = 1;
    while i <= num && i < usize::MAX
        invariant
            1 <= i,
            i <= num + 1,
            reqs@.len() == i - 1,
            forall|k: int| 0 <= k < reqs@.len() ==> (#[trigger] reqs@[k]).message@ == echo_message((k + 1) as nat),
        decreases usize::MAX - i,
    {
        proof {
            reveal_strlit("msg ");
            reveal_strlit("msg 0");
        }
        let mut message = if i < 10 { String::from_str("msg 0") } else { String::from_str("msg ") };
        push_decimal_text(&mut message, i);
        proof {
            assert(message@ =~= echo_message(i as nat));
        }
        reqs.push(EchoRequest { message });
        i = i + 1;
    }
    reqs
}

/// The protocol buffers that the endpoints speak.
#[derive(PartialEq, Eq, Structural, Clone, Copy, Debug)]
pub enum Proto {
    HelloWorld,
    Echo,
    FileTransfer,
    FileExchange,
}

/// The services a server can offer.
#[derive(PartialEq, Eq, Structural, Clone, Copy, Debug)]
pub enum ServiceKind {
    Greeter,
    Echo,
    Files,
}

pub open spec fn name_helloworld() -> Seq<u8> {
    seq![0x68u8, 0x65u8, 0x6cu8, 0x6cu8, 0x6fu8, 0x77u8, 0x6fu8, 0x72u8, 0x6cu8, 0x64u8]
}

pub open spec fn name_echo() -> Seq<u8> {
    seq![0x65u8, 0x63u8, 0x68u8, 0x6fu8]
}

pub open spec fn name_filetransfer() -> Seq<u8> {
    seq![0x66u8, 0x69u8, 0x6cu8, 0x65u8, 0x74u8, 0x72u8, 0x61u8, 0x6eu8, 0x73u8, 0x66u8, 0x65u8, 0x72u8]
}

pub open spec fn name_fileexchange() -> Seq<u8> {
    seq![0x66u8, 0x69u8, 0x6cu8, 0x65u8, 0x65u8, 0x78u8, 0x63u8, 0x68u8, 0x61u8, 0x6eu8, 0x67u8, 0x65u8]
}

impl Proto {
    /// The protocol a name selects: `helloworld`, `echo`, `filetransfer`
    /// or `fileexchange`; no other name selects one.
    pub open spec fn spec_from_name(name: Seq<u8>) -> Option<Proto> {
        if name == name_helloworld() {
            Some(Proto::HelloWorld)
        } else if name == name_echo() {
            Some(Proto::Echo)
        } else if name == name_filetransfer() {
            Some(Proto::FileTransfer)
        } else if name == name_fileexchange() {
            Some(Proto::FileExchange)
        } else {
            None
        }
    }

    /// Selects a protocol by its name, given as bytes.
    pub fn from_name(name: &[u8]) -> (p: Option<Proto>)
        ensures
            p == Self::spec_from_name(name@),
    {
        let helloworld: [u8; 10] = [0x68, 0x65, 0x6c, 0x6c, 0x6f, 0x77, 0x6f, 0x72, 0x6c, 0x64];
        let echo: [u8; 4] = [0x65, 0x63, 0x68, 0x6f];
        let filetransfer: [u8; 12] = [0x66, 0x69, 0x6c, 0x65, 0x74, 0x72, 0x61, 0x6e, 0x73, 0x66, 0x65, 0x72];
        let fileexchange: [u8; 12] = [0x66, 0x69, 0x6c, 0x65, 0x65, 0x78, 0x63, 0x68, 0x61, 0x6e, 0x67, 0x65];
        assert(helloworld@ =~= name_helloworld());
        assert(echo@ =~= name_echo());
        assert(filetransfer@ =~= name_filetransfer());
        assert(fileexchange@ =~= name_fileexchange());
        if bytes_eq(name, helloworld.as_slice()) {
            Some(Proto::HelloWorld)
        } else if bytes_eq(name, echo.as_slice()) {
            Some(Proto::Echo)
        } else if bytes_eq(name, filetransfer.as_slice()) {
            Some(Proto::FileTransfer)
        } else if bytes_eq(name, fileexchange.as_slice()) {
            Some(Proto::FileExchange)
        } else {
            None
        }
    }

    /// The service that serves the protocol: both file protocols are served
    /// by the file service.
    pub fn service(self) -> (k: ServiceKind)
        ensures
            k == (match self {
                Proto::HelloWorld => ServiceKind::Greeter,
                Proto::Echo => ServiceKind::Echo,
                _ => ServiceKind::Files,
            }),
    {
        match self {
            Proto::HelloWorld => ServiceKind::Greeter,
            Proto::Echo => ServiceKind::Echo,
            Proto::FileTransfer => ServiceKind::Files,
            Proto::FileExchange => ServiceKind::Files,
        }
    }
}

/// The milliseconds between two replies of the server-streaming echo.
pub const ECHO_STREAM_INTERVAL_MS: u64 = 200;

/// The greeter service.
pub struct MyGreeter {}

impl MyGreeter {
    /// Greets the name of the request.
    pub fn say_hello(&self, request: HelloRequest) -> (reply: HelloReply)
        ensures
            reply.message@ == greeting(request.name@),
    {
        proof {
            reveal_strlit("Hello ");
            reveal_strlit("!");
        }
        let mut message = String::from_str("Hello ");
        message.append(request.name.as_str());
        message.append("!");
        HelloReply { message }
    }
}

/// The echo service.
pub struct EchoServer {}

/// The status of a call that the echo service does not implement.
fn not_implemented() -> (s: RpcStatus)
    ensures
        s.code == RpcCode::Unimplemented,
        s.message@ == not_implemented_text(),
{
    proof {
        reveal_strlit("not implemented");
    }
    RpcStatus { code: RpcCode::Unimplemented, message: String::from_str("not implemented") }
}

impl EchoServer {
    /// Unary echo is not implemented: every call fails.
    pub fn unary_echo(&self, request: EchoRequest) -> (r: Result<EchoResponse, RpcStatus>)
        ensures
            r matches Err(s) && s.code == RpcCode::Unimplemented && s.message@ == not_implemented_text(),
    {
        Err(not_implemented())
    }

    /// Client-streaming echo is not implemented: every call fails.
    pub fn client_streaming_echo(&self) -> (r: Result<EchoResponse, RpcStatus>)
        ensures
            r matches Err(s) && s.code == RpcCode::Unimplemented && s.message@ == not_implemented_text(),
    {
        Err(not_implemented())
    }

    /// The reply that the server-streaming echo repeats, every
    /// `ECHO_STREAM_INTERVAL_MS` milliseconds, for as long as the client
    /// listens: the request's message.
    pub fn server_streaming_echo(&self, request: &EchoRequest) -> (reply: EchoResponse)
        ensures
            reply.message@ == request.message@,
    {
        EchoResponse { message: request.message.clone() }
    }

    /// One step of the bidirectional echo: a message is sent back as it
    /// came, a broken pipe or the end of the client's stream ends the echo,
    /// and any other failure is passed on.
    pub fn bidirectional_streaming_echo(&self, item: Incoming) -> (step: EchoStep)
        ensures
            match item {
                Incoming::Message(m) => step matches EchoStep::Reply(r) && r.message@ == m.message@,
                Incoming::BrokenPipe => step is Stop,
                Incoming::Failed => step is PassError,
                Incoming::Ended => step is Stop,
            },
    {
        match item {
            Incoming::Message(m) => EchoStep::Reply(EchoResponse { message: m.message }),
            Incoming::BrokenPipe => EchoStep::Stop,
            Incoming::Failed => EchoStep::PassError,
            Incoming::Ended => EchoStep::Stop,
        }
    }
}

/// The file service. The caller performs the file operations and hands in
/// their outcome.
pub struct MyFileService {}

/// The status for a failed file operation.
fn failure_status(f: FileFailure) -> (s: RpcStatus)
    ensures
        s.code == failure_code(f.step),
        s.message@ == f.detail@,
{
    let code = match f.step {
        FileStep::Open => RpcCode::NotFound,
        _ => RpcCode::Internal,
    };
    RpcStatus { code, message: f.detail }
}

impl MyFileService {
    /// The answer to an upload, given whether creating and writing the file
    /// succeeded.
    pub fn upload_file(&self, written: Result<(), FileFailure>) -> (r: Result<UploadResponse, RpcStatus>)
        ensures
            match written {
                Ok(_) => r matches Ok(u) && u.message@ == uploaded_text(),
                Err(f) => r matches Err(s) && s.code == failure_code(f.step) && s.message@ == f.detail@,
            },
    {
        match written {
            Ok(_) => {
                proof {
                    reveal_strlit("File uploaded successfully");
                }
                Ok(UploadResponse { message: String::from_str("File uploaded successfully") })
            },
            Err(f) => Err(failure_status(f)),
        }
    }

    /// The answer to a download of `filename`, given the bytes read from it
    /// or the failure to open or read it.
    pub fn download_file(&self, filename: String, read: Result<Vec<u8>, FileFailure>) -> (r: Result<
        FileData,
        RpcStatus,
    >)
        ensures
            match read {
                Ok(d) => r matches Ok(f) && f.filename@ == filename@ && f.data@ == d@,
                Err(f) => r matches Err(s) && s.code == failure_code(f.step) && s.message@ == f.detail@,
            },
    {
        match read {
            Ok(data) => Ok(FileData { filename, data }),
            Err(f) => Err(failure_status(f)),
        }
    }

    /// The answer to an exchange: the file is stored under its name, then
    /// read back and returned. `stored` is what reading it back gave, or the
    /// first operation that failed.
    pub fn exchange_file(&self, file: FileData, stored: Result<Vec<u8>, FileFailure>) -> (r: Result<
        FileData,
        RpcStatus,
    >)
        ensures
            match stored {
                Ok(d) => r matches Ok(f) && f.filename@ == file.filename@ && f.data@ == d@,
                Err(f) => r matches Err(s) && s.code == failure_code(f.step) && s.message@ == f.detail@,
            },
    {
        match stored {
            Ok(data) => Ok(FileData { filename: file.filename, data }),
            Err(f) => Err(failure_status(f)),
        }
    }
}

} // verus!
