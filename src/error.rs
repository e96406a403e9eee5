use vstd::prelude::*;

verus! {

/// The error that a command hands back to its caller.
pub enum PhotoArchiveError {
    Generic(String),
}

pub open spec fn error_message(e: PhotoArchiveError) -> Seq<char> {
    match e {
        PhotoArchiveError::Generic(m) => "Generic Error - "@ + m@,
    }
}

impl PhotoArchiveError {
    /// The human-readable text of the error.
    pub fn message(&self) -> (r: String)
        ensures
            r@ == error_message(*self),
    {
        match self {
            PhotoArchiveError::Generic(m) => {
                let mut text = String::from_str("Generic Error - ");
                text.append(m.as_str());
                text
            },
        }
    }
}

} // verus!
