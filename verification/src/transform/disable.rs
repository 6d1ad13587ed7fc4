use vstd::prelude::*;
use crate::error::TransformError;
use crate::message::Message;

verus! {

/// The transformer that leaves messages as they are.
pub struct DisableTransformer;

impl DisableTransformer {
    pub fn new() -> DisableTransformer {
        DisableTransformer
    }

    /// Accepts the message unchanged.
    pub fn on_receive(&self, message: &mut Message) -> (r: Result<(), TransformError>)
        ensures
            r is Ok,
            *final(message) == *old(message),
    {
        Ok(())
    }
}

} // verus!
