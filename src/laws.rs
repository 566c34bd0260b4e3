//! What every generated parser satisfies, stated over the models of the
//! pipeline and proved.

use vstd::prelude::*;

use crate::generate::{conflict_at, conflict_from, first_conflict, generation, parse_spec, partner_from};
use crate::normalize::normalized;
use crate::options::{default_config, Config, Directive};
use crate::schema::{names_of, EnumSchema};
use crate::table::{
    alias_entries, alias_pattern, first_match_from, full_pattern, has_alias, lookup,
    match_table, primary_entries,
};
use crate::text::{is_ws, lower_of, trim_end, trim_start, trimmed};

verus! {

/// A name free of whitespace, as every identifier is.
pub open spec fn no_ws(s: Seq<char>) -> bool {
    forall|i: int| 0 <= i < s.len() ==> !is_ws(#[trigger] s[i])
}

proof fn lemma_first_match(t: Seq<(Seq<char>, int)>, key: Seq<char>, i: int)
    requires
        0 <= i,
    ensures
        first_match_from(t, key, i) matches Some(m) ==> i <= m < t.len() && t[m].0 == key && (
        forall|k: int| i <= k < m ==> t[k].0 != key),
        first_match_from(t, key, i) is None ==> forall|k: int| i <= k < t.len() ==> t[k].0 != key,
    decreases t.len() - i,
{
    if i < t.len() && t[i].0 != key {
        lemma_first_match(t, key, i + 1);
    }
}

proof fn lemma_partner_found(t: Seq<(Seq<char>, int)>, i: int, j: int, k: int)
    requires
        conflict_at(t, i, j),
        0 <= k <= i,
    ensures
        partner_from(t, j, k) is Some,
    decreases i - k,
{
    if !conflict_at(t, k, j) {
        lemma_partner_found(t, i, j, k + 1);
    }
}

proof fn lemma_conflict_found(t: Seq<(Seq<char>, int)>, i: int, j: int, k: int)
    requires
        conflict_at(t, i, j),
        0 <= k <= j,
    ensures
        conflict_from(t, k) is Some,
    decreases j - k,
{
    if k < j && partner_from(t, k, 0) is None {
        lemma_conflict_found(t, i, j, k + 1);
    } else if k == j {
        lemma_partner_found(t, i, j, 0);
    }
}

/// A table without a first conflict has no conflict at all.
proof fn lemma_no_conflict(t: Seq<(Seq<char>, int)>, i: int, j: int)
    requires
        first_conflict(t) is None,
    ensures
        !conflict_at(t, i, j),
{
    if conflict_at(t, i, j) {
        lemma_conflict_found(t, i, j, 0);
    }
}

/// In a table without conflicts, an entry at `p` that selects `v` makes
/// every key equal to its pattern select `v`.
proof fn lemma_entry_selects(t: Seq<(Seq<char>, int)>, p: int, v: int)
    requires
        first_conflict(t) is None,
        0 <= p < t.len(),
        t[p].1 == v,
    ensures
        lookup(t, t[p].0) == Some(v),
{
    lemma_first_match(t, t[p].0, 0);
    let m = first_match_from(t, t[p].0, 0)->Some_0;
    if m < p {
        lemma_no_conflict(t, m, p);
    }
}

proof fn lemma_trim_start_shape(s: Seq<char>)
    ensures
        trim_start(s).len() == 0 || !is_ws(trim_start(s)[0]),
    decreases s.len(),
{
    if s.len() > 0 && is_ws(s[0]) {
        lemma_trim_start_shape(s.subrange(1, s.len() as int));
    }
}

proof fn lemma_trim_end_shape(s: Seq<char>)
    ensures
        trim_end(s).len() <= s.len(),
        trim_end(s) == s.take(trim_end(s).len() as int),
        trim_end(s).len() == 0 || !is_ws(trim_end(s).last()),
    decreases s.len(),
{
    if s.len() > 0 && is_ws(s.last()) {
        lemma_trim_end_shape(s.drop_last());
        assert(s.drop_last().take(trim_end(s).len() as int) =~= s.take(trim_end(s).len() as int));
    } else {
        assert(s.take(s.len() as int) =~= s);
    }
}

/// Trimming twice is trimming once.
pub proof fn lemma_trimmed_idempotent(s: Seq<char>)
    ensures
        trimmed(trimmed(s)) == trimmed(s),
{
    let u = trim_start(s);
    let w = trim_end(u);
    lemma_trim_start_shape(s);
    lemma_trim_end_shape(u);
    assert(w.len() == 0 || w[0] == u[0]);
    assert(trim_start(w) == w);
    assert(trim_end(w) == w);
}

/// A string without whitespace is its own trimmed form.
proof fn lemma_trimmed_no_ws(s: Seq<char>)
    requires
        no_ws(s),
    ensures
        trimmed(s) == s,
{
    assert(trim_start(s) == s);
    assert(trim_end(s) == s);
}

/// The normal form of a whitespace-free name is its full pattern.
proof fn lemma_normalized_name(name: Seq<char>, c: Config)
    requires
        no_ws(name),
    ensures
        normalized(name, c) == full_pattern(name, c.lowercase),
{
    lemma_trimmed_no_ws(name);
}

/// The entries of a table that lie before its aliases are the full names.
proof fn lemma_primary_part(names: Seq<Seq<char>>, c: Config, v: int)
    requires
        0 <= v < names.len(),
    ensures
        match_table(names, c).len() >= names.len(),
        match_table(names, c)[v] == (full_pattern(names[v], c.lowercase), v),
{
    assert(primary_entries(names, c.lowercase)[v] == (full_pattern(names[v], c.lowercase), v));
}

/// The aliases of the first `k` variants are, in order, one for each such
/// variant that has one.
pub proof fn lemma_alias_entries(names: Seq<Seq<char>>, lower: bool, n: int, k: int)
    requires
        0 <= k <= names.len(),
    ensures
        forall|p: int|
            #![trigger alias_entries(names, lower, n, k)[p]]
            0 <= p < alias_entries(names, lower, n, k).len() ==> {
                let e = alias_entries(names, lower, n, k)[p];
                &&& 0 <= e.1 < k
                &&& has_alias(names[e.1], lower, n)
                &&& e.0 == alias_pattern(names[e.1], lower, n)
            },
        forall|v: int|
            0 <= v < k && #[trigger] has_alias(names[v], lower, n) ==> exists|p: int|
                0 <= p < alias_entries(names, lower, n, k).len() && #[trigger] alias_entries(
                    names,
                    lower,
                    n,
                    k,
                )[p] == (alias_pattern(names[v], lower, n), v),
    decreases k,
{
    if k > 0 {
        lemma_alias_entries(names, lower, n, k - 1);
        let prev = alias_entries(names, lower, n, k - 1);
        let cur = alias_entries(names, lower, n, k);
        assert forall|v: int| 0 <= v < k && #[trigger] has_alias(names[v], lower, n) implies exists|p: int|
            0 <= p < cur.len() && #[trigger] cur[p] == (alias_pattern(names[v], lower, n), v) by {
            if v < k - 1 {
                let p = choose|p: int| 0 <= p < prev.len() && #[trigger] prev[p] == (alias_pattern(names[v], lower, n), v);
                assert(cur[p] == prev[p]);
            } else {
                assert(cur[prev.len() as int] == (alias_pattern(names[v], lower, n), v));
            }
        }
    }
}

/// With no options, a generated parser accepts exactly the variant names:
/// an input selects variant `v` if and only if it is the name of `v`, and
/// selects nothing if it is no name at all.
pub proof fn lemma_exact_names(ds: Seq<Directive>, schema: EnumSchema, raw: Seq<char>)
    requires
        generation(ds, schema) matches Ok((c, _)) && c == default_config(),
    ensures
        ({
            let names = names_of(schema.variants@);
            let t = generation(ds, schema)->Ok_0.1;
            let c = generation(ds, schema)->Ok_0.0;
            &&& forall|v: int| 0 <= v < names.len() ==> (parse_spec(t, c, raw) == Some(v) <==> raw
                == names[v])
            &&& parse_spec(t, c, raw) is None <==> forall|v: int|
                0 <= v < names.len() ==> raw != #[trigger] names[v]
        }),
{
    let names = names_of(schema.variants@);
    let c = default_config();
    let t = match_table(names, c);
    assert(normalized(raw, c) == raw);
    assert(t == primary_entries(names, false));
    lemma_first_match(t, raw, 0);
    assert forall|v: int| 0 <= v < names.len() implies (parse_spec(t, c, raw) == Some(v) <==> raw
        == names[v]) by {
        lemma_primary_part(names, c, v);
        if raw == names[v] {
            lemma_entry_selects(t, v, v);
        }
    }
    if parse_spec(t, c, raw) is None {
        assert forall|v: int| 0 <= v < names.len() implies raw != #[trigger] names[v] by {
            lemma_primary_part(names, c, v);
        }
    } else {
        let m = first_match_from(t, raw, 0)->Some_0;
        lemma_primary_part(names, c, m);
    }
}

/// Round trip: a generated parser gives each variant for the variant's
/// own name.
pub proof fn lemma_round_trip(ds: Seq<Directive>, schema: EnumSchema, v: int)
    requires
        generation(ds, schema) is Ok,
        0 <= v < schema.variants@.len(),
        no_ws(schema.variants@[v].name@),
    ensures
        parse_spec(
            generation(ds, schema)->Ok_0.1,
            generation(ds, schema)->Ok_0.0,
            schema.variants@[v].name@,
        ) == Some(v),
{
    let names = names_of(schema.variants@);
    let c = generation(ds, schema)->Ok_0.0;
    let t = match_table(names, c);
    assert(names[v] == schema.variants@[v].name@);
    lemma_normalized_name(names[v], c);
    lemma_primary_part(names, c, v);
    lemma_entry_selects(t, v, v);
}

/// Any input that normalizes as a variant's name does selects that
/// variant; with `lowercase` this is any casing of the name.
pub proof fn lemma_any_casing(ds: Seq<Directive>, schema: EnumSchema, v: int, raw: Seq<char>)
    requires
        generation(ds, schema) is Ok,
        0 <= v < schema.variants@.len(),
        no_ws(schema.variants@[v].name@),
        generation(ds, schema)->Ok_0.0.lowercase,
        lower_of(
            if generation(ds, schema)->Ok_0.0.trim {
                trimmed(raw)
            } else {
                raw
            },
        ) == lower_of(schema.variants@[v].name@),
    ensures
        parse_spec(generation(ds, schema)->Ok_0.1, generation(ds, schema)->Ok_0.0, raw) == Some(v),
{
    let c = generation(ds, schema)->Ok_0.0;
    lemma_normalized_name(schema.variants@[v].name@, c);
    lemma_round_trip(ds, schema, v);
}

/// With `trim`, surrounding whitespace does not change what an input
/// selects: the input and its trimmed form select the same variant.
pub proof fn lemma_trim_ignored(ds: Seq<Directive>, schema: EnumSchema, raw: Seq<char>)
    requires
        generation(ds, schema) is Ok,
        generation(ds, schema)->Ok_0.0.trim,
    ensures
        parse_spec(generation(ds, schema)->Ok_0.1, generation(ds, schema)->Ok_0.0, raw)
            == parse_spec(
            generation(ds, schema)->Ok_0.1,
            generation(ds, schema)->Ok_0.0,
            trimmed(raw),
        ),
{
    lemma_trimmed_idempotent(raw);
}

/// With `truncate(n)`, the entries after the full names are the aliases:
/// each selects a variant whose name is longer than `n` and whose cut
/// pattern differs from its full pattern, and each such variant has one.
/// So a variant whose name has at most `n` characters has no alias.
pub proof fn lemma_aliases(names: Seq<Seq<char>>, c: Config, n: usize)
    requires
        c.truncate == Some(n),
    ensures
        forall|p: int|
            names.len() <= p < match_table(names, c).len() ==> {
                let e = #[trigger] match_table(names, c)[p];
                &&& 0 <= e.1 < names.len()
                &&& names[e.1].len() > n
                &&& e.0 == alias_pattern(names[e.1], c.lowercase, n as int)
                &&& e.0 != full_pattern(names[e.1], c.lowercase)
            },
        forall|v: int|
            0 <= v < names.len() && #[trigger] has_alias(names[v], c.lowercase, n as int)
                ==> exists|p: int|
                names.len() <= p < match_table(names, c).len() && #[trigger] match_table(names, c)[p]
                    == (alias_pattern(names[v], c.lowercase, n as int), v),
{
    let prim = primary_entries(names, c.lowercase);
    let al = alias_entries(names, c.lowercase, n as int, names.len() as int);
    lemma_alias_entries(names, c.lowercase, n as int, names.len() as int);
    let t = match_table(names, c);
    assert forall|p: int| names.len() <= p < t.len() implies {
        let e = #[trigger] t[p];
        &&& 0 <= e.1 < names.len()
        &&& names[e.1].len() > n
        &&& e.0 == alias_pattern(names[e.1], c.lowercase, n as int)
        &&& e.0 != full_pattern(names[e.1], c.lowercase)
    } by {
        assert(t[p] == al[p - names.len()]);
    }
    assert forall|v: int|
        0 <= v < names.len() && #[trigger] has_alias(names[v], c.lowercase, n as int) implies exists|p: int|
        names.len() <= p < t.len() && #[trigger] t[p] == (alias_pattern(names[v], c.lowercase, n as int), v) by {
        let q = choose|q: int| 0 <= q < al.len() && #[trigger] al[q] == (alias_pattern(names[v], c.lowercase, n as int), v);
        assert(t[q + names.len()] == al[q]);
    }
}

/// A cut name selects its variant: where variant `v` has an alias, the
/// first `n` characters of its name select `v`.
pub proof fn lemma_alias_selects(ds: Seq<Directive>, schema: EnumSchema, v: int, n: usize)
    requires
        generation(ds, schema) is Ok,
        generation(ds, schema)->Ok_0.0.truncate == Some(n),
        0 <= v < schema.variants@.len(),
        no_ws(schema.variants@[v].name@),
        has_alias(schema.variants@[v].name@, generation(ds, schema)->Ok_0.0.lowercase, n as int),
    ensures
        parse_spec(
            generation(ds, schema)->Ok_0.1,
            generation(ds, schema)->Ok_0.0,
            schema.variants@[v].name@.take(n as int),
        ) == Some(v),
{
    let names = names_of(schema.variants@);
    let c = generation(ds, schema)->Ok_0.0;
    let t = match_table(names, c);
    let name = schema.variants@[v].name@;
    assert(names[v] == name);
    lemma_aliases(names, c, n);
    let p = choose|p: int|
        names.len() <= p < t.len() && #[trigger] t[p] == (alias_pattern(names[v], c.lowercase, n as int), v);
    assert(no_ws(name.take(n as int)));
    lemma_normalized_name(name.take(n as int), c);
    assert(normalized(name.take(n as int), c) == t[p].0);
    lemma_entry_selects(t, p, v);
}

} // verus!
