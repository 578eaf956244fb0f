use vstd::prelude::*;
use vstd::string::StringExecFns;

verus! {

#[verifier::external_type_specification]
#[verifier::external_body]
pub struct ExIoError(std::io::Error);

/// The application's error: an I/O failure, or a backend failure described in words.
#[derive(Debug)]
pub enum AppError {
    IoError(std::io::Error),
    BackendError(String),
}

impl From<String> for AppError {
    fn from(err: String) -> (r: AppError)
        ensures
            r == AppError::BackendError(err),
    {
        AppError::BackendError(err)
    }
}

impl vstd::std_specs::convert::FromSpecImpl<String> for AppError {
    open spec fn obeys_from_spec() -> bool {
        true
    }

    open spec fn from_spec(err: String) -> AppError {
        AppError::BackendError(err)
    }
}

impl From<std::io::Error> for AppError {
    fn from(err: std::io::Error) -> (r: AppError)
        ensures
            r == AppError::IoError(err),
    {
        AppError::IoError(err)
    }
}

impl vstd::std_specs::convert::FromSpecImpl<std::io::Error> for AppError {
    open spec fn obeys_from_spec() -> bool {
        true
    }

    open spec fn from_spec(err: std::io::Error) -> AppError {
        AppError::IoError(err)
    }
}

/// Relies on the `Display` impl of `std::io::Error`: the system's description
/// of the failure. Nothing is promised of its text.
#[verifier::external_body]
fn io_error_text(err: &std::io::Error) -> String {
    err.to_string()
}

impl AppError {
    /// The error in words: its kind, then its description.
    pub fn message(&self) -> (r: String)
        ensures
            match self {
                AppError::IoError(_) => exists|t: Seq<char>| r@ == "IO Error: "@ + t,
                AppError::BackendError(m) => r@ == "Backend Error: "@ + m@,
            },
    {
        match self {
            AppError::IoError(err) => {
                let mut r = String::from_str("IO Error: ");
                let t = io_error_text(err);
                r.append(t.as_str());
                r
            },
            AppError::BackendError(m) => {
                let mut r = String::from_str("Backend Error: ");
                r.append(m.as_str());
                r
            },
        }
    }
}

} // verus!
