//! A transitive HTTP forwarding proxy core.
//!
//! An inbound request carries its own forwarding destination, either in the
//! `x-transitive-dest` header or in a query parameter of the same name. The
//! library resolves that destination, builds the outbound request (same
//! method and body, headers propagated except hop-by-hop ones), and maps the
//! upstream outcome back into a response for the original caller. All wire
//! data is modelled as byte sequences; the surrounding HTTP runtime converts
//! at the boundary.

pub mod forward;
pub mod message;
pub mod method;
pub mod query;
pub mod resolve;

pub use method::Method;
