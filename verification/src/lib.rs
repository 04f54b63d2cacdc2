//! Verified core of a gRPC-over-HTTP/3 bridge: QUIC retry tokens, multipath
//! path scheduling, HTTP/3 response bookkeeping, gRPC frame detection and
//! the services served over the bridge.
mod addr_map;
mod bytes;
pub mod conn_ids;
pub mod conn;
pub mod grpc;
pub mod h3;
pub mod io_plan;
pub mod net;
pub mod order;
pub mod sched;
pub mod services;
pub mod streams;
pub mod tcp;
pub mod token;

pub use addr_map::AddrMap;
