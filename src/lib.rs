//! A test harness for HTTP services: build requests against a service, send
//! them through a transport, and inspect the captured responses, with a
//! session cookie store shared by every request of one harness.
use vstd::prelude::*;

pub mod body;
pub mod cookie_store;
pub mod error;
pub mod headers;
pub mod request;
pub mod response;
pub mod server;
pub mod status;
pub mod wire;

verus! {

} // verus!
