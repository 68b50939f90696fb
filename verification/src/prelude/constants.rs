//! Process-wide defaults: addresses, worker count, chunk size and the
//! protocol version token.

use vstd::prelude::*;

verus! {

/// Size of one relay chunk, in bytes.
pub const CHUNK_SIZE: usize = 1024;

/// Address of the proxy target.
pub const TARGET_ADDRESS: &'static str = "127.0.0.1:3001";

/// Count of worker threads.
pub const THREADS: usize = 4;

/// Proxy server listen address.
pub const PROXY_ADDRESS: &'static str = "127.0.0.1:3000";

/// Default time-to-live reported for a connection.
pub const TTL_DEFAULT: u32 = 64;

/// Default protocol version token.
pub const HTTP_VERSION_DEFAULT: &'static str = "HTTP/1.1";

} // verus!
