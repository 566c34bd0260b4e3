//! The directives of the annotation and the configuration they select.

use vstd::prelude::*;

use crate::error::GenerateError;
use crate::text::{decimal_value, is_decimal, parse_decimal, text_eq};

verus! {

/// One argument of a keyed directive.
#[derive(Clone, Debug, PartialEq, Eq)]
pub enum DirectiveArg {
    /// An integer literal, given by its decimal digits.
    Int(String),
    /// Anything else.
    Other,
}

/// One directive of the annotation.
#[derive(Clone, Debug, PartialEq, Eq)]
pub enum Directive {
    /// A bare name, such as `trim`.
    Flag(String),
    /// A name with a parenthesised argument list, such as `truncate(3)`.
    Keyed(String, Vec<DirectiveArg>),
    /// Any other form; ignored.
    Other,
}

/// The matching options of a generated parser.
#[derive(Clone, Copy, Debug, PartialEq, Eq, Structural)]
pub struct Config {
    /// Remove surrounding whitespace from the input before matching.
    pub trim: bool,
    /// Lower-case patterns and input before matching.
    pub lowercase: bool,
    /// Also accept the first `N` characters of a variant's name.
    pub truncate: Option<usize>,
}

/// The configuration with every option off.
pub open spec fn default_config() -> Config {
    Config { trim: false, lowercase: false, truncate: None }
}

/// `d` is the bare flag `name`.
pub open spec fn is_flag(d: Directive, name: Seq<char>) -> bool {
    d matches Directive::Flag(n) && n@ == name
}

/// `d` is a `truncate` directive, well formed or not.
pub open spec fn is_truncate(d: Directive) -> bool {
    match d {
        Directive::Flag(n) => n@ == "truncate"@,
        Directive::Keyed(n, _) => n@ == "truncate"@,
        Directive::Other => false,
    }
}

/// The length that a well-formed `truncate(N)` directive gives.
pub open spec fn truncate_arg(d: Directive) -> Option<usize> {
    match d {
        Directive::Keyed(n, args) => {
            if n@ == "truncate"@ && args.len() == 1 && args[0] is Int {
                let digits = args[0]->Int_0@;
                if is_decimal(digits) && 0 < decimal_value(digits) <= usize::MAX {
                    Some(decimal_value(digits) as usize)
                } else {
                    None
                }
            } else {
                None
            }
        },
        _ => None,
    }
}

/// The effect of the directive `d`, found at position `i`, on `c`. The
/// first well-formed `truncate` counts; a malformed one is an error.
pub open spec fn apply_directive(c: Config, d: Directive, i: int) -> Result<Config, GenerateError> {
    if is_flag(d, "trim"@) {
        Ok(Config { trim: true, ..c })
    } else if is_flag(d, "lowercase"@) {
        Ok(Config { lowercase: true, ..c })
    } else if is_truncate(d) {
        match truncate_arg(d) {
            Some(n) => Ok(if c.truncate is None { Config { truncate: Some(n), ..c } } else { c }),
            None => Err(GenerateError::MalformedTruncate(i as usize)),
        }
    } else {
        Ok(c)
    }
}

/// The outcome of the first `n` directives of `ds`.
pub open spec fn options_prefix(ds: Seq<Directive>, n: int) -> Result<Config, GenerateError>
    decreases n,
{
    if n <= 0 {
        Ok(default_config())
    } else {
        match options_prefix(ds, n - 1) {
            Ok(c) => apply_directive(c, ds[n - 1], n - 1),
            Err(e) => Err(e),
        }
    }
}

/// The outcome of a whole directive list.
pub open spec fn options_of(ds: Seq<Directive>) -> Result<Config, GenerateError> {
    options_prefix(ds, ds.len() as int)
}

/// The name that `d` carries, if any.
fn directive_name(d: &Directive) -> (r: Option<&str>)
    ensures
        r matches Some(s) ==> (d matches Directive::Flag(n) && n@ == s@) || (
        d matches Directive::Keyed(n, _) && n@ == s@),
        r is None ==> d is Other,
{
    match d {
        Directive::Flag(n) => Some(n.as_str()),
        Directive::Keyed(n, _) => Some(n.as_str()),
        Directive::Other => None,
    }
}

/// The length given by a `truncate` directive, if it is well formed.
fn read_truncate_arg(d: &Directive) -> (r: Option<usize>)
    ensures
        r == truncate_arg(*d),
{
    match d {
        Directive::Keyed(n, args) => {
            if text_eq(n.as_str(), "truncate") && args.len() == 1 {
                match &args[0] {
                    DirectiveArg::Int(digits) => match parse_decimal(digits.as_str()) {
                        Some(v) => if v > 0 {
                            Some(v)
                        } else {
                            None
                        },
                        None => None,
                    },
                    DirectiveArg::Other => None,
                }
            } else {
                None
            }
        },
        _ => None,
    }
}

impl Directive {
    /// Whether this is the bare flag `name`.
    pub fn is_flag_named(&self, name: &str) -> (r: bool)
        ensures
            r == is_flag(*self, name@),
    {
        match self {
            Directive::Flag(n) => text_eq(n.as_str(), name),
            _ => false,
        }
    }
}

/// Applies one directive, found at position `i`, to `c`.
pub fn apply_one(c: Config, d: &Directive, i: usize) -> (r: Result<Config, GenerateError>)
    ensures
        r == apply_directive(c, *d, i as int),
{
    let is_trim = d.is_flag_named("trim");
    let is_lower = d.is_flag_named("lowercase");
    if is_trim {
        Ok(Config { trim: true, ..c })
    } else if is_lower {
        Ok(Config { lowercase: true, ..c })
    } else {
        let named_truncate = match directive_name(d) {
            Some(n) => text_eq(n, "truncate"),
            None => false,
        };
        if named_truncate {
            match read_truncate_arg(d) {
                Some(n) => Ok(
                    if c.truncate.is_none() {
                        Config { truncate: Some(n), ..c }
                    } else {
                        c
                    },
                ),
                None => Err(GenerateError::MalformedTruncate(i)),
            }
        } else {
            Ok(c)
        }
    }
}

/// Reads the configuration from a directive list. Unknown directives are
/// ignored and repeating one changes nothing; the first malformed
/// `truncate` directive is reported.
pub fn parse_options(directives: &Vec<Directive>) -> (r: Result<Config, GenerateError>)
    ensures
        r == options_of(directives@),
{
    let mut c = Config { trim: false, lowercase: false, truncate: None };
    let mut i: usize = 0;
    while i < directives.len()
        invariant
            0 <= i <= directives@.len(),
            options_prefix(directives@, i as int) == Ok::<Config, GenerateError>(c),
        decreases directives@.len() - i,
    {
        match apply_one(c, &directives[i], i) {
            Ok(next) => {
                c = next;
            },
            Err(e) => {
                assert(options_prefix(directives@, i as int + 1) == Err::<Config, GenerateError>(e));
                proof {
                    lemma_error_persists(directives@, i as int + 1, directives@.len() as int);
                }
                return Err(e);
            },
        }
        i = i + 1;
    }
    Ok(c)
}

/// Once an error occurs, the outcome of every longer prefix is that error.
proof fn lemma_error_persists(ds: Seq<Directive>, n: int, m: int)
    requires
        0 <= n <= m,
        options_prefix(ds, n) is Err,
    ensures
        options_prefix(ds, m) == options_prefix(ds, n),
    decreases m - n,
{
    if n < m {
        lemma_error_persists(ds, n, m - 1);
    }
}

/// Applying `d` to `c` changes nothing: `c` already holds its effect.
pub open spec fn absorbs(c: Config, d: Directive) -> bool {
    apply_directive(c, d, 0) == Ok::<Config, GenerateError>(c)
}

/// Where a directive succeeds, what it yields does not depend on its
/// position, and neither does whether it succeeds.
proof fn lemma_apply_position_free(c: Config, d: Directive, i: int, k: int)
    ensures
        apply_directive(c, d, i) is Ok <==> apply_directive(c, d, k) is Ok,
        apply_directive(c, d, i) is Ok ==> apply_directive(c, d, i) == apply_directive(c, d, k),
{
}

/// A configuration that holds the effect of `d` keeps it through any
/// further directive.
proof fn lemma_absorbs_kept(c: Config, d: Directive, e: Directive, i: int)
    requires
        absorbs(c, d),
        apply_directive(c, e, i) is Ok,
    ensures
        absorbs(apply_directive(c, e, i)->Ok_0, d),
{
}

/// After the directive at position `j` has been read, every successful
/// outcome holds its effect.
proof fn lemma_prefix_absorbs(ds: Seq<Directive>, j: int, n: int)
    requires
        0 <= j < n <= ds.len(),
        options_prefix(ds, n) is Ok,
    ensures
        absorbs(options_prefix(ds, n)->Ok_0, ds[j]),
    decreases n,
{
    let prev = options_prefix(ds, n - 1);
    if n - 1 > j {
        lemma_prefix_absorbs(ds, j, n - 1);
        lemma_absorbs_kept(prev->Ok_0, ds[j], ds[n - 1], n - 1);
    } else {
        lemma_apply_position_free(prev->Ok_0, ds[j], j, 0);
    }
}

/// Inserting a directive leaves the outcome of the prefix before it alone.
proof fn lemma_prefix_before_insert(ds: Seq<Directive>, k: int, d: Directive, n: int)
    requires
        0 <= n <= k <= ds.len(),
    ensures
        options_prefix(ds.insert(k, d), n) == options_prefix(ds, n),
    decreases n,
{
    if n > 0 {
        lemma_prefix_before_insert(ds, k, d, n - 1);
        assert(ds.insert(k, d)[n - 1] == ds[n - 1]);
    }
}

/// Two outcomes agree: both fail, or both succeed with one configuration.
pub open spec fn same_outcome(a: Result<Config, GenerateError>, b: Result<Config, GenerateError>) -> bool {
    (a is Ok <==> b is Ok) && (a is Ok ==> a == b)
}

/// Past the inserted copy, the outcomes of the two lists agree.
proof fn lemma_prefix_after_insert(ds: Seq<Directive>, j: int, k: int, n: int)
    requires
        0 <= j < k <= n <= ds.len(),
    ensures
        same_outcome(options_prefix(ds.insert(k, ds[j]), n + 1), options_prefix(ds, n)),
    decreases n,
{
    let e = ds.insert(k, ds[j]);
    if n == k {
        lemma_prefix_before_insert(ds, k, ds[j], k);
        assert(e[k] == ds[j]);
        if options_prefix(ds, k) is Ok {
            lemma_prefix_absorbs(ds, j, k);
            lemma_apply_position_free(options_prefix(ds, k)->Ok_0, ds[j], k, 0);
        }
    } else {
        lemma_prefix_after_insert(ds, j, k, n - 1);
        assert(e[n] == ds[n - 1]);
        if options_prefix(ds, n - 1) is Ok {
            lemma_apply_position_free(options_prefix(ds, n - 1)->Ok_0, ds[n - 1], n, n - 1);
        }
    }
}

/// Repeating a directive has no effect: with a copy of the directive at
/// position `j` inserted at any later position `k`, the directives are
/// accepted exactly when the original list is, and then give the same
/// configuration.
pub proof fn lemma_repeated_directive(ds: Seq<Directive>, j: int, k: int)
    requires
        0 <= j < k <= ds.len(),
    ensures
        same_outcome(options_of(ds.insert(k, ds[j])), options_of(ds)),
{
    lemma_prefix_after_insert(ds, j, k, ds.len() as int);
    assert(ds.insert(k, ds[j]).len() == ds.len() + 1);
}

} // verus!
