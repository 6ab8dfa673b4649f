//! The error type of frame and container decoding.

use vstd::prelude::*;

verus! {

/// Error raised while reading BMP input.
#[derive(Debug)]
pub enum DoctorError {
    /// The input could not be read; holds the system's message.
    Io(String),
    /// The bytes do not form a frame or record; holds a description.
    Frame(String),
}

/// Abstract value of a [`DoctorError`].
pub enum DoctorErrorV {
    Io(Seq<char>),
    Frame(Seq<char>),
}

impl View for DoctorError {
    type V = DoctorErrorV;

    open spec fn view(&self) -> DoctorErrorV {
        match self {
            DoctorError::Io(m) => DoctorErrorV::Io(m@),
            DoctorError::Frame(m) => DoctorErrorV::Frame(m@),
        }
    }
}

/// The human-readable text of an error.
pub open spec fn error_text(e: DoctorErrorV) -> Seq<char> {
    match e {
        DoctorErrorV::Io(m) => "I/O error: "@ + m,
        DoctorErrorV::Frame(m) => "Frame error: "@ + m,
    }
}

impl DoctorError {
    /// The human-readable text of this error.
    pub fn message(&self) -> (r: String)
        ensures
            r@ == error_text(self@),
    {
        match self {
            DoctorError::Io(m) => {
                let mut s = String::from_str("I/O error: ");
                s.append(m.as_str());
                s
            },
            DoctorError::Frame(m) => {
                let mut s = String::from_str("Frame error: ");
                s.append(m.as_str());
                s
            },
        }
    }
}

} // verus!
