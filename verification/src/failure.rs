use vstd::prelude::*;

verus! {

/// Why a file's content could not be turned into a digest.
#[derive(Clone, Copy, Debug, PartialEq, Eq, Structural)]
pub enum FailureKind {
    /// The file was gone when it was opened or read.
    NotFound,
    /// The file may not be opened or read.
    PermissionDenied,
    /// A read was interrupted.
    Interrupted,
    /// The file holds more bytes than SHA-256 can digest.
    TooLarge,
    /// Any other failure of the file system.
    Other,
}

/// What a failure is, mathematically: its kind and the text of its
/// description.
pub struct FailureModel {
    pub kind: FailureKind,
    pub message: Seq<char>,
}

/// A failure to hash one file: the kind of the failure, and a description
/// for a human reader.
#[derive(Debug)]
pub struct HashError {
    pub kind: FailureKind,
    pub message: String,
}

impl View for HashError {
    type V = FailureModel;

    open spec fn view(&self) -> FailureModel {
        FailureModel { kind: self.kind, message: self.message@ }
    }
}

/// The description of a failure of kind `TooLarge`.
pub open spec fn too_large_message() -> Seq<char> {
    "content is longer than SHA-256 can digest"@
}

impl HashError {
    /// A failure with the given kind and description.
    pub fn new(kind: FailureKind, message: String) -> (error: Self)
        ensures
            error@ == (FailureModel { kind, message: message@ }),
    {
        HashError { kind, message }
    }

    /// The failure of a file that is too long to digest.
    pub fn too_large() -> (error: Self)
        ensures
            error@ == (FailureModel { kind: FailureKind::TooLarge, message: too_large_message() }),
    {
        HashError {
            kind: FailureKind::TooLarge,
            message: "content is longer than SHA-256 can digest".to_owned(),
        }
    }
}

} // verus!
