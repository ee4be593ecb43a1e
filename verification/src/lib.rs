//! A name-based reverse proxy's connection logic: request parsing, site
//! lookup, client-address forwarding and the per-connection state machine.

use vstd::prelude::*;

pub mod addr;
pub mod addr_text;
pub mod closeable;
pub mod config;
pub mod document;
pub mod forward;
pub mod http_server;
pub mod number;
pub mod outgoing;
pub mod request;
pub mod runs;
pub mod scan;
pub mod server;
pub mod ssl_cert;
pub mod text;
pub mod tls;
pub mod websocket;
pub mod yaml;

verus! {

/// How many workers serve the plain listener.
pub const DEFAULT_POOL_SIZE: usize = 10;

/// Why a worker pool could not be created.
#[derive(Clone, Copy, Debug, PartialEq, Eq, Structural)]
pub enum PoolCreationError {
    /// A pool needs one worker at least.
    InvalidSize,
}

/// The size of a worker pool that is asked to have `size` workers: the
/// size itself, which has to be one at least.
pub fn pool_size(size: usize) -> (r: Result<usize, PoolCreationError>)
    ensures
        r == if size > 0 {
            Ok::<usize, PoolCreationError>(size)
        } else {
            Err::<usize, PoolCreationError>(PoolCreationError::InvalidSize)
        },
{
    if size == 0 {
        Err(PoolCreationError::InvalidSize)
    } else {
        Ok(size)
    }
}

} // verus!
