//! Request handlers: what turns one request into one response.

use vstd::prelude::*;

verus! {

/// A handler's refusal to answer a request. The connection that carried the
/// request is closed on it; `code` is the handler's own account of why.
#[derive(Clone, Copy, Debug, PartialEq, Eq, Structural)]
pub struct HandlerError {
    pub code: u64,
}

/// Something that answers requests, one at a time.
///
/// A handler is a function of the request: `respond` says, for every
/// request, the response or the failure that `call` returns for it.
pub trait Handler {
    /// The answer to `req`.
    spec fn respond(&self, req: u64) -> Result<u64, HandlerError>;

    /// Answers `req`.
    fn call(&self, req: u64) -> (r: Result<u64, HandlerError>)
        ensures
            r == self.respond(req),
    ;
}

/// Twice a number, keeping the low 64 bits of the product.
pub open spec fn doubled(req: u64) -> u64 {
    ((req * 2) % 0x1_0000_0000_0000_0000) as u64
}

/// The handler that answers every request with twice its value, wrapping
/// around where the double does not fit in 64 bits.
#[derive(Clone, Copy, Debug, Default)]
pub struct Doubler;

impl Handler for Doubler {
    open spec fn respond(&self, req: u64) -> Result<u64, HandlerError> {
        Ok(doubled(req))
    }

    fn call(&self, req: u64) -> (r: Result<u64, HandlerError>) {
        Ok(req.wrapping_mul(2))
    }
}

} // verus!
