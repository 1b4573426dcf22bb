use vstd::prelude::*;

verus! {

/// The error kinds of the resolver service.
///
/// `Io` stands for a socket failure reported by the transport layer,
/// `ParseError` for a malformed or truncated wire message,
/// `InvalidResolverAddress` for an upstream address that resolves to
/// nothing, and `QueryFailed` for a failed upstream exchange.
#[derive(Clone, Copy, Debug, PartialEq, Eq, Structural)]
pub enum Error {
    Io,
    ParseError,
    InvalidResolverAddress,
    QueryFailed,
}

} // verus!
