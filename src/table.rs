//! The match table: the patterns that select each variant, and lookup in it.

use vstd::prelude::*;

use crate::options::Config;
use crate::schema::{names_of, VariantDecl};
use crate::text::{lower_of, lowercase};

verus! {

/// A pattern and the position of the variant that it selects.
#[derive(Clone, Debug, PartialEq, Eq)]
pub struct MatchEntry {
    pub pattern: String,
    pub variant: usize,
}

impl View for MatchEntry {
    type V = (Seq<char>, int);

    open spec fn view(&self) -> (Seq<char>, int) {
        (self.pattern@, self.variant as int)
    }
}

/// The model of a table: its entries as (pattern, variant position).
pub open spec fn table_view(t: Seq<MatchEntry>) -> Seq<(Seq<char>, int)> {
    t.map_values(|e: MatchEntry| e@)
}

/// `s`, lower-cased when `lower` is set.
pub open spec fn cased(s: Seq<char>, lower: bool) -> Seq<char> {
    if lower {
        lower_of(s)
    } else {
        s
    }
}

/// The pattern of a variant's full name.
pub open spec fn full_pattern(name: Seq<char>, lower: bool) -> Seq<char> {
    cased(name, lower)
}

/// The pattern of a variant's name cut to its first `n` characters.
pub open spec fn alias_pattern(name: Seq<char>, lower: bool, n: int) -> Seq<char> {
    cased(name.take(n), lower)
}

/// A variant gets an alias when its name is longer than `n` and the cut
/// pattern differs from the full one.
pub open spec fn has_alias(name: Seq<char>, lower: bool, n: int) -> bool {
    name.len() > n && alias_pattern(name, lower, n) != full_pattern(name, lower)
}

/// One entry per variant, for its full name, in order.
pub open spec fn primary_entries(names: Seq<Seq<char>>, lower: bool) -> Seq<(Seq<char>, int)> {
    Seq::new(names.len(), |i: int| (full_pattern(names[i], lower), i))
}

/// The aliases of the first `k` variants, in order.
pub open spec fn alias_entries(names: Seq<Seq<char>>, lower: bool, n: int, k: int) -> Seq<
    (Seq<char>, int),
>
    decreases k,
{
    if k <= 0 {
        Seq::empty()
    } else {
        let prev = alias_entries(names, lower, n, k - 1);
        if has_alias(names[k - 1], lower, n) {
            prev.push((alias_pattern(names[k - 1], lower, n), k - 1))
        } else {
            prev
        }
    }
}

/// The whole table: full names first, then aliases when `truncate` is set.
pub open spec fn match_table(names: Seq<Seq<char>>, c: Config) -> Seq<(Seq<char>, int)> {
    match c.truncate {
        Some(n) => primary_entries(names, c.lowercase) + alias_entries(
            names,
            c.lowercase,
            n as int,
            names.len() as int,
        ),
        None => primary_entries(names, c.lowercase),
    }
}

/// The first entry at or after position `i` whose pattern is `key`.
pub open spec fn first_match_from(t: Seq<(Seq<char>, int)>, key: Seq<char>, i: int) -> Option<int>
    decreases t.len() - i,
{
    if i < 0 || i >= t.len() {
        None
    } else if t[i].0 == key {
        Some(i)
    } else {
        first_match_from(t, key, i + 1)
    }
}

/// The variant that the first entry with pattern `key` selects.
pub open spec fn lookup(t: Seq<(Seq<char>, int)>, key: Seq<char>) -> Option<int> {
    match first_match_from(t, key, 0) {
        Some(i) => Some(t[i].1),
        None => None,
    }
}

/// `s`, lower-cased when `lower` is set.
fn apply_case(s: &str, lower: bool) -> (r: String)
    ensures
        r@ == cased(s@, lower),
{
    if lower {
        lowercase(s)
    } else {
        String::from_str(s)
    }
}

/// Builds the match table of the variants `variants` under `c`.
pub fn build_table(variants: &Vec<VariantDecl>, c: &Config) -> (r: Vec<MatchEntry>)
    ensures
        table_view(r@) == match_table(names_of(variants@), *c),
{
    let ghost names = names_of(variants@);
    let mut t: Vec<MatchEntry> = Vec::new();
    let mut i: usize = 0;
    while i < variants.len()
        invariant
            0 <= i <= variants@.len(),
            names == names_of(variants@),
            table_view(t@) == primary_entries(names, c.lowercase).take(i as int),
        decreases variants@.len() - i,
    {
        let pattern = apply_case(variants[i].name.as_str(), c.lowercase);
        assert(names[i as int] == variants@[i as int].name@);
        let ghost before = t@;
        t.push(MatchEntry { pattern, variant: i });
        assert(t@ == before.push(MatchEntry { pattern, variant: i }));
        assert(table_view(t@) == table_view(before).push((full_pattern(names[i as int], c.lowercase), i as int)));
        assert(table_view(t@) =~= primary_entries(names, c.lowercase).take(i + 1));
        i = i + 1;
    }
    assert(primary_entries(names, c.lowercase).take(i as int) =~= primary_entries(names, c.lowercase));
    match c.truncate {
        None => {},
        Some(n) => {
            let ghost primary = table_view(t@);
            let mut k: usize = 0;
            while k < variants.len()
                invariant
                    0 <= k <= variants@.len(),
                    names == names_of(variants@),
                    c.truncate == Some(n),
                    primary == primary_entries(names, c.lowercase),
                    table_view(t@) == primary + alias_entries(names, c.lowercase, n as int, k as int),
                decreases variants@.len() - k,
            {
                let name = variants[k].name.as_str();
                assert(names[k as int] == name@);
                let len = name.unicode_len();
                if len > n {
                    let cut = name.substring_char(0, n);
                    assert(cut@ == names[k as int].take(n as int));
                    let alias = apply_case(cut, c.lowercase);
                    let full = apply_case(name, c.lowercase);
                    if alias != full {
                        let ghost before = t@;
                        let ghost ap = alias@;
                        t.push(MatchEntry { pattern: alias, variant: k });
                        assert(t@ == before.push(MatchEntry { pattern: alias, variant: k }));
                        assert(table_view(t@) == table_view(before).push((ap, k as int)));
                        assert(table_view(t@) =~= primary + alias_entries(
                            names,
                            c.lowercase,
                            n as int,
                            k + 1,
                        ));
                    }
                }
                k = k + 1;
            }
        },
    }
    t
}

/// Finds the variant selected by the first entry whose pattern is `key`.
pub fn find_variant(t: &Vec<MatchEntry>, key: &String) -> (r: Option<usize>)
    ensures
        r matches Some(v) ==> lookup(table_view(t@), key@) == Some(v as int),
        r is None ==> lookup(table_view(t@), key@) is None,
{
    let ghost tv = table_view(t@);
    let mut i: usize = 0;
    while i < t.len()
        invariant
            0 <= i <= t@.len(),
            tv == table_view(t@),
            first_match_from(tv, key@, 0) == first_match_from(tv, key@, i as int),
        decreases t@.len() - i,
    {
        if t[i].pattern == *key {
            return Some(t[i].variant);
        }
        i = i + 1;
    }
    None
}

} // verus!
