//! A response on its way out.
use vstd::prelude::*;
use crate::response::{buffer_to_vec, response_view, wire, Response};

verus! {

/// A response ready to be written to a connection.
pub struct Outcoming(pub Response);

impl Outcoming {
    pub fn new(resp: Response) -> (r: Outcoming)
        ensures
            r.0 == resp,
    {
        Outcoming(resp)
    }
}

/// Turning a value into the bytes that are sent.
pub trait Serialize: Sized {
    /// The bytes `self` is sent as.
    spec fn wire_bytes(&self) -> Seq<u8>;

    fn serialize(self) -> (r: Vec<u8>)
        ensures
            r@ == self.wire_bytes(),
    ;
}

impl Serialize for Outcoming {
    open spec fn wire_bytes(&self) -> Seq<u8> {
        wire(response_view(self.0))
    }

    fn serialize(self) -> (r: Vec<u8>) {
        buffer_to_vec(&self.0.serialize())
    }
}

} // verus!
