//! The errors a read can end in.

use vstd::prelude::*;

verus! {

/// Why a read or a skip did not succeed.
#[derive(Debug, Clone, Copy, PartialEq, Eq, Structural)]
pub enum BitreadError {
    /// The request reaches past the end of the buffer. The cursor has not moved.
    BufferExceeded,
    /// The bytes of a string read are not valid UTF-8. The cursor stands behind them.
    InvalidEncoding,
}

impl BitreadError {
    /// The text that describes the error.
    pub open spec fn message_text(self) -> Seq<char> {
        match self {
            BitreadError::BufferExceeded => {
                "Unable to read bits, read size exceeds remaining buffer length."@
            },
            BitreadError::InvalidEncoding => "Unable to parse bytes to String type."@,
        }
    }

    /// A description of the error for people to read.
    pub fn message(&self) -> (text: String)
        ensures
            text@ == self.message_text(),
    {
        match self {
            BitreadError::BufferExceeded => {
                "Unable to read bits, read size exceeds remaining buffer length.".to_owned()
            },
            BitreadError::InvalidEncoding => "Unable to parse bytes to String type.".to_owned(),
        }
    }
}

} // verus!
