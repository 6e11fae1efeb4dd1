//! The engine's error taxonomy: backend failures, vector-length mismatches,
//! unrecoverable parses and index failures.  A cache miss is ordinary
//! control flow, not an error.

use vstd::prelude::*;

verus! {

/// What can go wrong in the memory engine.
#[derive(Debug)]
pub enum MemoryError {
    /// A backend call failed: network, auth or quota.
    Provider(String),
    /// A vector had the wrong length: expected, then got.
    Dimension(usize, usize),
    /// An insight response stayed unparsable even after the recovery
    /// chain.
    Parse(String),
    /// A vector-store operation failed.
    Index(String),
}

impl MemoryError {
    /// A short, fixed name of the error's kind.
    pub fn kind_name(&self) -> (r: &'static str)
        ensures
            r@ == match self {
                MemoryError::Provider(_) => "provider error"@,
                MemoryError::Dimension(_, _) => "dimension mismatch"@,
                MemoryError::Parse(_) => "parse error"@,
                MemoryError::Index(_) => "index error"@,
            },
    {
        match self {
            MemoryError::Provider(_) => "provider error",
            MemoryError::Dimension(_, _) => "dimension mismatch",
            MemoryError::Parse(_) => "parse error",
            MemoryError::Index(_) => "index error",
        }
    }

    /// True iff this is the vector-length mismatch error.
    pub fn is_dimension(&self) -> (r: bool)
        ensures
            r == (self is Dimension),
    {
        match self {
            MemoryError::Dimension(_, _) => true,
            _ => false,
        }
    }
}

/// The driver-level error taxonomy of the surrounding program.
#[derive(Debug)]
pub enum AppError {
    Provider(String),
    Database(String),
    Api(String),
    Timeout,
}

impl AppError {
    /// Renders the error as the driver prints it.
    pub fn message(&self) -> (r: String)
        ensures
            r@ == match self {
                AppError::Provider(s) => "Provider error: "@ + s@,
                AppError::Database(s) => "Database error: "@ + s@,
                AppError::Api(s) => "API error: "@ + s@,
                AppError::Timeout => "Timeout error"@,
            },
    {
        match self {
            AppError::Provider(s) => {
                let mut r = String::new();
                r.append("Provider error: ");
                r.append(s.as_str());
                r
            },
            AppError::Database(s) => {
                let mut r = String::new();
                r.append("Database error: ");
                r.append(s.as_str());
                r
            },
            AppError::Api(s) => {
                let mut r = String::new();
                r.append("API error: ");
                r.append(s.as_str());
                r
            },
            AppError::Timeout => "Timeout error".to_owned(),
        }
    }
}

} // verus!
