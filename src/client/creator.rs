//! A plain source of requests, for callers that only fill in a request.
use vstd::prelude::*;

use crate::client::request::Request;

verus! {

/// Something that writes requests, written by the user of the library.
pub trait RequestCreator: Sized {
    /// Writes one request into `req`.
    fn create(&mut self, req: &mut Request);
}

} // verus!
