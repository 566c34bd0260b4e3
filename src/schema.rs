//! The shape of an enumeration: its name and its variants.

use vstd::prelude::*;

use crate::error::GenerateError;

verus! {

/// One variant of an enumeration.
#[derive(Clone, Debug, PartialEq, Eq)]
pub struct VariantDecl {
    /// The variant's identifier.
    pub name: String,
    /// The variant carries no data.
    pub is_unit: bool,
}

/// An enumeration: its name and its variants, in declaration order.
#[derive(Clone, Debug, PartialEq, Eq)]
pub struct EnumSchema {
    pub name: String,
    pub variants: Vec<VariantDecl>,
}

/// The names of the variants, in order.
pub open spec fn names_of(vs: Seq<VariantDecl>) -> Seq<Seq<char>> {
    vs.map_values(|v: VariantDecl| v.name@)
}

/// The first variant at or after position `i` that carries data.
pub open spec fn first_non_unit_from(vs: Seq<VariantDecl>, i: int) -> Option<int>
    decreases vs.len() - i,
{
    if i < 0 || i >= vs.len() {
        None
    } else if !vs[i].is_unit {
        Some(i)
    } else {
        first_non_unit_from(vs, i + 1)
    }
}

/// The first variant that carries data.
pub open spec fn first_non_unit(vs: Seq<VariantDecl>) -> Option<int> {
    first_non_unit_from(vs, 0)
}

/// Accepts an enumeration whose variants all carry no data; otherwise
/// reports the first one that does.
pub fn validate_schema(schema: &EnumSchema) -> (r: Result<(), GenerateError>)
    ensures
        r == (match first_non_unit(schema.variants@) {
            Some(i) => Err(GenerateError::VariantWithData(i as usize)),
            None => Ok(()),
        }),
{
    let mut i: usize = 0;
    while i < schema.variants.len()
        invariant
            0 <= i <= schema.variants@.len(),
            first_non_unit(schema.variants@) == first_non_unit_from(schema.variants@, i as int),
        decreases schema.variants@.len() - i,
    {
        if !schema.variants[i].is_unit {
            return Err(GenerateError::VariantWithData(i));
        }
        i = i + 1;
    }
    Ok(())
}

} // verus!
