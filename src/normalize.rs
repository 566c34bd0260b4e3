//! The normalization applied to input before lookup: trim, then lower-case.

use vstd::prelude::*;

use crate::options::Config;
use crate::text::{lower_of, lowercase, trim_str, trimmed};

verus! {

/// The four normalizations that a configuration can select.
#[derive(Clone, Copy, Debug, PartialEq, Eq, Structural)]
pub enum Transform {
    Identity,
    Trim,
    Lowercase,
    TrimThenLowercase,
}

/// The normalization that `c` selects.
pub open spec fn transform_spec(c: Config) -> Transform {
    if c.trim && c.lowercase {
        Transform::TrimThenLowercase
    } else if c.trim {
        Transform::Trim
    } else if c.lowercase {
        Transform::Lowercase
    } else {
        Transform::Identity
    }
}

/// The normalization that `c` selects.
pub fn transform_of(c: &Config) -> (r: Transform)
    ensures
        r == transform_spec(*c),
{
    if c.trim && c.lowercase {
        Transform::TrimThenLowercase
    } else if c.trim {
        Transform::Trim
    } else if c.lowercase {
        Transform::Lowercase
    } else {
        Transform::Identity
    }
}

/// `raw` as `c` normalizes it: trimmed when `trim` is set, then lower-cased
/// when `lowercase` is set.
pub open spec fn normalized(raw: Seq<char>, c: Config) -> Seq<char> {
    let t = if c.trim {
        trimmed(raw)
    } else {
        raw
    };
    if c.lowercase {
        lower_of(t)
    } else {
        t
    }
}

/// Normalizes `raw` under `c`.
pub fn normalize(raw: &str, c: &Config) -> (r: String)
    ensures
        r@ == normalized(raw@, *c),
{
    let t = if c.trim {
        trim_str(raw)
    } else {
        raw
    };
    if c.lowercase {
        lowercase(t)
    } else {
        String::from_str(t)
    }
}

} // verus!
