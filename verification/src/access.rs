//! The outcome of one read under the process-information filesystem.

use vstd::prelude::*;

verus! {

/// `std::io::Error`, carried through without looking inside.
#[verifier::external_type_specification]
#[verifier::external_body]
pub struct ExIoError(std::io::Error);

/// What became of a read that concerns one process: it succeeded, it was
/// refused, the process was gone, or it failed in a way that is not expected.
#[derive(Debug)]
pub enum ProcAccess<T> {
    Success(T),
    PermissionDenied,
    Gone,
    Fatal(std::io::Error),
}

/// The kinds of I/O failure that are told apart.
#[derive(Clone, Copy, Debug, PartialEq, Eq, Structural)]
pub enum ErrorClass {
    NotFound,
    PermissionDenied,
    Other,
}

/// The class of an I/O error: that of the kind it reports.
pub uninterp spec fn error_class_of(e: std::io::Error) -> ErrorClass;

/// `std::io::Error::kind`: tells the kinds `NotFound` and `PermissionDenied`
/// from all others. The contract only gives the answer its name.
#[verifier::external_body]
pub(crate) fn error_class(e: &std::io::Error) -> (c: ErrorClass)
    ensures
        c == error_class_of(*e),
{
    match e.kind() {
        std::io::ErrorKind::NotFound => ErrorClass::NotFound,
        std::io::ErrorKind::PermissionDenied => ErrorClass::PermissionDenied,
        _ => ErrorClass::Other,
    }
}

/// The outcome that a failed read stands for.
pub open spec fn classified<T>(e: std::io::Error) -> ProcAccess<T> {
    match error_class_of(e) {
        ErrorClass::NotFound => ProcAccess::Gone,
        ErrorClass::PermissionDenied => ProcAccess::PermissionDenied,
        ErrorClass::Other => ProcAccess::Fatal(e),
    }
}

/// Classifies a failed read: a missing file means the process is gone, a
/// refusal is a refusal, and anything else is fatal and keeps the error.
pub fn classify_proc_io_error<T>(e: std::io::Error) -> (r: ProcAccess<T>)
    ensures
        r == classified::<T>(e),
{
    match error_class(&e) {
        ErrorClass::NotFound => ProcAccess::Gone,
        ErrorClass::PermissionDenied => ProcAccess::PermissionDenied,
        ErrorClass::Other => ProcAccess::Fatal(e),
    }
}

/// Why a query ends without a result: its target is not valid, or something
/// failed that is not expected to fail.
#[derive(Debug)]
pub enum Failure {
    InvalidInput(std::io::Error),
    Fatal(std::io::Error),
}

/// What a failure to find the identity of a target path means: a path that
/// does not exist is invalid input, any other failure is fatal.
pub open spec fn target_failure(e: std::io::Error) -> Failure {
    if error_class_of(e) == ErrorClass::NotFound {
        Failure::InvalidInput(e)
    } else {
        Failure::Fatal(e)
    }
}

/// Classifies a failure to find the identity of a target path.
pub fn classify_target_error(e: std::io::Error) -> (r: Failure)
    ensures
        r == target_failure(e),
{
    match error_class(&e) {
        ErrorClass::NotFound => Failure::InvalidInput(e),
        _ => Failure::Fatal(e),
    }
}

impl Failure {
    /// The exit code that reports the failure: 1 for invalid input, 2 for a
    /// fatal failure.
    pub fn exit_code(&self) -> (code: i32)
        ensures
            code == match self {
                Failure::InvalidInput(_) => 1i32,
                Failure::Fatal(_) => 2i32,
            },
    {
        match self {
            Failure::InvalidInput(_) => 1,
            Failure::Fatal(_) => 2,
        }
    }
}

/// `std::io::Error`'s `Display`: the text that describes an I/O error.
/// Nothing is claimed of the text: the operating system words it.
#[verifier::external_body]
pub(crate) fn error_text(e: &std::io::Error) -> String {
    e.to_string()
}

} // verus!
