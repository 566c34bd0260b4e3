//! Diagnostics that stop generation.

use vstd::prelude::*;

verus! {

/// Why no parser was generated for an enumeration.
#[derive(Clone, Copy, Debug, PartialEq, Eq, Structural)]
pub enum GenerateError {
    /// The directive at this position names `truncate` without exactly one
    /// positive integer argument that fits in a `usize`.
    MalformedTruncate(usize),
    /// The variant at this position carries data.
    VariantWithData(usize),
    /// Two different variants (by position) would be matched by the same
    /// pattern.
    PatternConflict(usize, usize),
}

impl GenerateError {
    /// The text of the diagnostic.
    pub fn message(&self) -> (r: String)
        ensures
            r@ == error_message(*self),
    {
        match self {
            GenerateError::MalformedTruncate(_) => String::from_str(
                "derive_fromstr: truncate expects one positive integer argument",
            ),
            GenerateError::VariantWithData(_) => String::from_str(
                "derive_fromstr: variants with data are not supported",
            ),
            GenerateError::PatternConflict(_, _) => String::from_str(
                "derive_fromstr: two variants share a match pattern",
            ),
        }
    }
}

/// The text of each diagnostic.
pub open spec fn error_message(e: GenerateError) -> Seq<char> {
    match e {
        GenerateError::MalformedTruncate(_) => "derive_fromstr: truncate expects one positive integer argument"@,
        GenerateError::VariantWithData(_) => "derive_fromstr: variants with data are not supported"@,
        GenerateError::PatternConflict(_, _) => "derive_fromstr: two variants share a match pattern"@,
    }
}

} // verus!
