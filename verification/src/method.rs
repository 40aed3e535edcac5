//! The fixed set of HTTP methods the proxy accepts and forwards.

use vstd::prelude::*;

verus! {

/// An HTTP request method, one of the fixed set the proxy routes.
///
/// The forwarder preserves the inbound method exactly; no normalization is
/// performed anywhere in the library.
#[derive(Clone, Copy, PartialEq, Eq, Structural, Debug)]
pub enum Method {
    Get,
    Post,
    Put,
    Delete,
    Head,
    Connect,
    Options,
    Trace,
    Patch,
}

} // verus!
