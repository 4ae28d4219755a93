use vstd::prelude::*;

verus! {

/// The library's error type. Each variant carries a human-readable message.
///
/// `Generic` wraps conditions that have no more precise variant, such as
/// plain filesystem failures; `FileNotFound` reports a missing input;
/// `CopifyFailed` a failure of the per-project rewrite pipeline;
/// `MoverFailed` a failure while relocating whole projects; `Xml` a
/// malformed document; and `TranscodeFailed` a corrupt or truncated
/// compressed container.
#[derive(Debug)]
pub enum Error {
    Generic(String),
    FileNotFound(String),
    CopifyFailed(String),
    MoverFailed(String),
    Xml(String),
    TranscodeFailed(String),
}

impl Error {
    /// The message carried by the error, whatever its variant.
    pub open spec fn spec_message(&self) -> Seq<char> {
        match self {
            Error::Generic(m) => m@,
            Error::FileNotFound(m) => m@,
            Error::CopifyFailed(m) => m@,
            Error::MoverFailed(m) => m@,
            Error::Xml(m) => m@,
            Error::TranscodeFailed(m) => m@,
        }
    }

    /// Borrows the message carried by the error.
    pub fn message(&self) -> (r: &String)
        ensures
            r@ == self.spec_message(),
    {
        match self {
            Error::Generic(m) => m,
            Error::FileNotFound(m) => m,
            Error::CopifyFailed(m) => m,
            Error::MoverFailed(m) => m,
            Error::Xml(m) => m,
            Error::TranscodeFailed(m) => m,
        }
    }
}

} // verus!
