use vstd::prelude::*;

verus! {

/// The single error type shared by the encode and decode paths.  It carries
/// only a message; equality is structural so that callers can compare errors.
#[derive(Debug, PartialEq)]
pub struct Error {
    pub message: String,
}

impl View for Error {
    type V = Seq<char>;

    open spec fn view(&self) -> Seq<char> {
        self.message@
    }
}

impl Error {
    /// Build an error from a static descriptive message.
    pub fn new(message: &str) -> (r: Error)
        ensures
            r@ == message@,
    {
        Error { message: message.to_owned() }
    }
}

} // verus!
