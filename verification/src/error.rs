use vstd::prelude::*;

verus! {

/// The ways a blocking or cleanup operation can fail: a hosts-file
/// read or write failed, or no DNS-flush command could be run.
pub enum BlockError {
    IoError(String),
    CommandError(String),
}

impl BlockError {
    /// The text carried by the error, whichever kind it is.
    pub open spec fn message_spec(&self) -> Seq<char> {
        match self {
            BlockError::IoError(m) => m@,
            BlockError::CommandError(m) => m@,
        }
    }

    /// Hands out the carried text for display by the caller.
    pub fn message(&self) -> (r: &str)
        ensures
            r@ == self.message_spec(),
    {
        match self {
            BlockError::IoError(m) => m.as_str(),
            BlockError::CommandError(m) => m.as_str(),
        }
    }
}

} // verus!
