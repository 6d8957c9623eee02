use vstd::prelude::*;

verus! {

/// A file sent along with a message.
pub struct Attachment {
    pub file: Vec<u8>,
    pub filename: String,
}

} // verus!
