//! The error kinds a client operation can surface.

use vstd::prelude::*;

use crate::client::Messages;

verus! {

/// What went wrong, and for hard failures, where.
///
/// `TransportExhausted` and `NoDevicesFound` are hard failures that end the
/// operation; the others describe degraded results that a caller may accept.
#[derive(Clone, Debug)]
pub enum OnvifError {
    /// Every HTTP attempt for one request timed out or failed.
    TransportExhausted { msg: Messages, url: Vec<u8> },
    /// Discovery exhausted its probe budget with no device heard.
    NoDevicesFound,
    /// A stage ran but a required field was absent from the response.
    MissingField { field: Vec<u8> },
    /// A response stopped parsing early; partial fields were kept.
    MalformedResponse,
    /// The device registry file could not be used.
    RegistryUnavailable,
}

} // verus!
