//! The generated parser and the generation pipeline: directives, schema,
//! match table, conflicts.

use vstd::prelude::*;

use crate::error::GenerateError;
use crate::normalize::{normalize, normalized};
use crate::options::{options_of, parse_options, Config, Directive};
use crate::schema::{first_non_unit, names_of, validate_schema, EnumSchema};
use crate::table::{build_table, find_variant, lookup, match_table, table_view, MatchEntry};

verus! {

/// The failure of a generated parser: no pattern matched. It carries the
/// input exactly as given.
#[derive(Clone, Debug, PartialEq, Eq)]
pub enum ParseError {
    UnknownVariant(String),
}

impl ParseError {
    /// The description of the error: `Unknown variant: <input>`.
    pub fn message(&self) -> (r: String)
        ensures
            r@ == "Unknown variant: "@ + self->UnknownVariant_0@,
    {
        match self {
            ParseError::UnknownVariant(s) => {
                let mut m = String::from_str("Unknown variant: ");
                m.append(s.as_str());
                m
            },
        }
    }
}

/// A generated parser for one enumeration.
#[derive(Clone, Debug, PartialEq, Eq)]
pub struct Generated {
    /// The enumeration's name.
    pub enum_name: String,
    /// The name of its error type, `Parse<EnumName>Error`.
    pub error_name: String,
    /// The matching options.
    pub config: Config,
    /// The patterns, first match wins.
    pub table: Vec<MatchEntry>,
}

/// The variant that a parser with table `t` and options `c` gives for `raw`.
pub open spec fn parse_spec(t: Seq<(Seq<char>, int)>, c: Config, raw: Seq<char>) -> Option<int> {
    lookup(t, normalized(raw, c))
}

impl Generated {
    /// Parses `raw`: normalizes it, then takes the variant of the first
    /// entry whose pattern equals the result. With no such entry the error
    /// holds `raw` unchanged.
    pub fn parse(&self, raw: &str) -> (r: Result<usize, ParseError>)
        ensures
            match parse_spec(table_view(self.table@), self.config, raw@) {
                Some(v) => r == Ok::<usize, ParseError>(v as usize),
                None => r matches Err(ParseError::UnknownVariant(s)) && s@ == raw@,
            },
    {
        let key = normalize(raw, &self.config);
        match find_variant(&self.table, &key) {
            Some(v) => Ok(v),
            None => Err(ParseError::UnknownVariant(String::from_str(raw))),
        }
    }
}

/// The name of the error type of enumeration `enum_name`.
pub open spec fn error_name_spec(enum_name: Seq<char>) -> Seq<char> {
    "Parse"@ + enum_name + "Error"@
}

/// Builds `Parse<EnumName>Error`.
pub fn error_type_name(enum_name: &str) -> (r: String)
    ensures
        r@ == error_name_spec(enum_name@),
{
    let mut r = String::from_str("Parse");
    r.append(enum_name);
    r.append("Error");
    r
}

/// Entries `i < j` whose patterns coincide while their variants differ.
pub open spec fn conflict_at(t: Seq<(Seq<char>, int)>, i: int, j: int) -> bool {
    0 <= i < j < t.len() && t[i].0 == t[j].0 && t[i].1 != t[j].1
}

/// The first entry at or after `i` that conflicts with entry `j`.
pub open spec fn partner_from(t: Seq<(Seq<char>, int)>, j: int, i: int) -> Option<int>
    decreases j - i,
{
    if i < 0 || i >= j {
        None
    } else if conflict_at(t, i, j) {
        Some(i)
    } else {
        partner_from(t, j, i + 1)
    }
}

/// The first conflict at or after entry `j`: the least such `j`, and for it
/// the least earlier entry.
pub open spec fn conflict_from(t: Seq<(Seq<char>, int)>, j: int) -> Option<(int, int)>
    decreases t.len() - j,
{
    if j < 0 || j >= t.len() {
        None
    } else {
        match partner_from(t, j, 0) {
            Some(i) => Some((i, j)),
            None => conflict_from(t, j + 1),
        }
    }
}

/// The first conflict of a table, if any.
pub open spec fn first_conflict(t: Seq<(Seq<char>, int)>) -> Option<(int, int)> {
    conflict_from(t, 0)
}

/// Finds the first conflict of `t`, as positions of entries.
pub fn find_conflict(t: &Vec<MatchEntry>) -> (r: Option<(usize, usize)>)
    ensures
        r matches Some((i, j)) ==> i < j < t@.len() && first_conflict(table_view(t@)) == Some(
            (i as int, j as int),
        ),
        r is None ==> first_conflict(table_view(t@)) is None,
{
    let ghost tv = table_view(t@);
    let mut j: usize = 0;
    while j < t.len()
        invariant
            0 <= j <= t@.len(),
            tv == table_view(t@),
            first_conflict(tv) == conflict_from(tv, j as int),
        decreases t@.len() - j,
    {
        let mut i: usize = 0;
        while i < j
            invariant
                0 <= i <= j < t@.len(),
                tv == table_view(t@),
                partner_from(tv, j as int, 0) == partner_from(tv, j as int, i as int),
                first_conflict(tv) == conflict_from(tv, j as int),
            decreases j - i,
        {
            if t[i].pattern == t[j].pattern && t[i].variant != t[j].variant {
                assert(tv[i as int] == t@[i as int]@ && tv[j as int] == t@[j as int]@);
                assert(conflict_at(tv, i as int, j as int));
                assert(partner_from(tv, j as int, i as int) == Some(i as int));
                return Some((i, j));
            }
            assert(tv[i as int] == t@[i as int]@ && tv[j as int] == t@[j as int]@);
            i = i + 1;
        }
        j = j + 1;
    }
    None
}

/// What generation yields: an error, or the options and the match table.
pub open spec fn generation(ds: Seq<Directive>, schema: EnumSchema) -> Result<
    (Config, Seq<(Seq<char>, int)>),
    GenerateError,
> {
    match options_of(ds) {
        Err(e) => Err(e),
        Ok(c) => match first_non_unit(schema.variants@) {
            Some(i) => Err(GenerateError::VariantWithData(i as usize)),
            None => {
                let t = match_table(names_of(schema.variants@), c);
                match first_conflict(t) {
                    Some((i, j)) => Err(GenerateError::PatternConflict(t[i].1 as usize, t[j].1 as usize)),
                    None => Ok((c, t)),
                }
            },
        },
    }
}

/// Generates the parser of `schema` under the directives `directives`:
/// reads the options, rejects variants with data, builds the match table
/// and rejects patterns shared by two variants. Fails with the first error
/// of these stages, in this order.
pub fn derive_fromstr(directives: &Vec<Directive>, schema: &EnumSchema) -> (r: Result<
    Generated,
    GenerateError,
>)
    ensures
        match generation(directives@, *schema) {
            Err(e) => r == Err::<Generated, GenerateError>(e),
            Ok((c, t)) => r matches Ok(g) && g.config == c && table_view(g.table@) == t
                && g.enum_name@ == schema.name@ && g.error_name@ == error_name_spec(schema.name@),
        },
{
    let c = match parse_options(directives) {
        Ok(c) => c,
        Err(e) => return Err(e),
    };
    match validate_schema(schema) {
        Ok(()) => {},
        Err(e) => return Err(e),
    }
    let table = build_table(&schema.variants, &c);
    match find_conflict(&table) {
        Some((i, j)) => {
            return Err(GenerateError::PatternConflict(table[i].variant, table[j].variant));
        },
        None => {},
    }
    let error_name = error_type_name(schema.name.as_str());
    Ok(Generated { enum_name: String::from_str(schema.name.as_str()), error_name, config: c, table })
}

} // verus!
