//! JSON documents, as the parser's output is compared with a reference.
//!
//! A reference document matches an output when every key of each of its
//! objects is in the output's object with a matching value, its arrays
//! have the output's length and matching elements, and its other values
//! equal the output's.

use vstd::prelude::*;
use crate::text::str_eq;
use serde_json::Value;

verus! {

/// A JSON number: a non-negative integer, a negative integer, or the bits
/// of a floating-point number.
#[derive(Debug, Clone, Copy, PartialEq, Eq, Structural)]
pub enum JsonNumber {
    PosInt(u64),
    NegInt(i64),
    Float(u64),
}

/// A JSON value. An object lists its entries in order, each key once.
#[derive(Debug)]
pub enum JsonTree {
    Null,
    Bool(bool),
    Number(JsonNumber),
    Str(String),
    Array(Vec<JsonTree>),
    Object(Vec<(String, JsonTree)>),
}

/// The bits of the floating-point numbers positive and negative zero.
pub open spec fn is_zero_bits(b: u64) -> bool {
    b == 0 || b == 0x8000_0000_0000_0000
}

/// Whether two numbers are equal: integers of the same kind and value, or
/// floating-point numbers with the same bits, where both zeros are equal.
pub open spec fn number_eq(x: JsonNumber, y: JsonNumber) -> bool {
    match (x, y) {
        (JsonNumber::Float(a), JsonNumber::Float(b)) => a == b || (is_zero_bits(a) && is_zero_bits(
            b,
        )),
        _ => x == y,
    }
}

/// Whether two numbers are equal.
pub fn json_numbers_equal(x: JsonNumber, y: JsonNumber) -> (r: bool)
    ensures
        r == number_eq(x, y),
{
    match (x, y) {
        (JsonNumber::Float(a), JsonNumber::Float(b)) => a == b || ((a == 0 || a
            == 0x8000_0000_0000_0000) && (b == 0 || b == 0x8000_0000_0000_0000)),
        _ => x == y,
    }
}

/// Whether two values are equal: same kind, same contents, entries of
/// objects in the same order.
pub open spec fn json_eq(a: JsonTree, b: JsonTree) -> bool
    decreases a,
{
    match a {
        JsonTree::Null => b is Null,
        JsonTree::Bool(x) => b matches JsonTree::Bool(y) && x == y,
        JsonTree::Number(x) => b matches JsonTree::Number(y) && number_eq(x, y),
        JsonTree::Str(x) => b matches JsonTree::Str(y) && x@ == y@,
        JsonTree::Array(xs) => match b {
            JsonTree::Array(ys) => seq_eq(xs@, ys@),
            _ => false,
        },
        JsonTree::Object(xs) => match b {
            JsonTree::Object(ys) => entries_eq(xs@, ys@),
            _ => false,
        },
    }
}

/// Whether two sequences of values are equal, element by element.
pub open spec fn seq_eq(xs: Seq<JsonTree>, ys: Seq<JsonTree>) -> bool
    decreases xs,
{
    xs.len() == ys.len() && (xs.len() == 0 || (seq_eq(xs.drop_last(), ys.drop_last()) && json_eq(
        xs.last(),
        ys.last(),
    )))
}

/// Whether two sequences of entries are equal, entry by entry.
pub open spec fn entries_eq(xs: Seq<(String, JsonTree)>, ys: Seq<(String, JsonTree)>) -> bool
    decreases xs,
{
    xs.len() == ys.len() && (xs.len() == 0 || (entries_eq(xs.drop_last(), ys.drop_last())
        && xs.last().0@ == ys.last().0@ && json_eq(xs.last().1, ys.last().1)))
}

/// The index of the first entry of `entries` with key `k`.
pub open spec fn find_key(entries: Seq<(String, JsonTree)>, k: Seq<char>) -> Option<int> {
    if exists|j: int| 0 <= j < entries.len() && entries[j].0@ == k {
        Some(
            choose|j: int|
                0 <= j < entries.len() && entries[j].0@ == k && forall|l: int|
                    0 <= l < j ==> entries[l].0@ != k,
        )
    } else {
        None
    }
}

/// Whether the reference value `g` matches the output value `r`.
pub open spec fn json_match(g: JsonTree, r: JsonTree) -> bool
    decreases g,
{
    match g {
        JsonTree::Object(gm) => match r {
            JsonTree::Object(rm) => entries_match(gm@, rm@),
            _ => json_eq(g, r),
        },
        JsonTree::Array(ga) => match r {
            JsonTree::Array(ra) => seq_match(ga@, ra@),
            _ => json_eq(g, r),
        },
        _ => json_eq(g, r),
    }
}

/// Whether each reference value matches the output value at its place.
pub open spec fn seq_match(gs: Seq<JsonTree>, rs: Seq<JsonTree>) -> bool
    decreases gs,
{
    gs.len() == rs.len() && (gs.len() == 0 || (seq_match(gs.drop_last(), rs.drop_last()) && json_match(
        gs.last(),
        rs.last(),
    )))
}

/// Whether each reference entry has an output entry of its key (the first
/// one) with a matching value.
pub open spec fn entries_match(gm: Seq<(String, JsonTree)>, rm: Seq<(String, JsonTree)>) -> bool
    decreases gm,
{
    gm.len() == 0 || (entries_match(gm.drop_last(), rm) && match find_key(rm, gm.last().0@) {
        Some(j) => json_match(gm.last().1, rm[j].1),
        None => false,
    })
}

/// The index of the first entry of `entries` with key `k`.
fn find_key_exec(entries: &Vec<(String, JsonTree)>, k: &str) -> (r: Option<usize>)
    ensures
        r matches Some(j) ==> find_key(entries@, k@) == Some(j as int) && j < entries@.len(),
        r is None ==> find_key(entries@, k@) is None,
{
    let mut j: usize = 0;
    while j < entries.len()
        invariant
            j <= entries.len(),
            forall|l: int| 0 <= l < j ==> entries@[l].0@ != k@,
        decreases entries.len() - j,
    {
        if str_eq(entries[j].0.as_str(), k) {
            proof {
                let c = choose|c: int|
                    0 <= c < entries@.len() && entries@[c].0@ == k@ && forall|l: int|
                        0 <= l < c ==> entries@[l].0@ != k@;
                assert(0 <= j < entries@.len() && entries@[j as int].0@ == k@ && forall|l: int|
                    0 <= l < j ==> entries@[l].0@ != k@);
                if c < j {
                    assert(entries@[c].0@ != k@);
                }
                if j < c {
                    assert(entries@[j as int].0@ != k@);
                }
            }
            return Some(j);
        }
        j = j + 1;
    }
    None
}

/// Whether two values are equal.
pub fn json_values_equal(a: &JsonTree, b: &JsonTree) -> (r: bool)
    ensures
        r == json_eq(*a, *b),
    decreases a,
{
    match (a, b) {
        (JsonTree::Null, JsonTree::Null) => true,
        (JsonTree::Bool(x), JsonTree::Bool(y)) => *x == *y,
        (JsonTree::Number(x), JsonTree::Number(y)) => json_numbers_equal(*x, *y),
        (JsonTree::Str(x), JsonTree::Str(y)) => str_eq(x.as_str(), y.as_str()),
        (JsonTree::Array(xs), JsonTree::Array(ys)) => {
            if xs.len() != ys.len() {
                return false;
            }
            let mut i: usize = 0;
            while i < xs.len()
                invariant
                    i <= xs.len() == ys.len(),
                    *a == JsonTree::Array(*xs),
                    *b == JsonTree::Array(*ys),
                    seq_eq(xs@.take(i as int), ys@.take(i as int)),
                decreases xs.len() - i,
            {
                proof {
                    assert(decreases_to!(*a => (*a)->Array_0));
                    assert(decreases_to!(*xs => xs@));
                    assert(decreases_to!(xs@ => xs@[i as int]));
                }
                let same = json_values_equal(&xs[i], &ys[i]);
                proof {
                    let tx = xs@.take(i as int + 1);
                    let ty = ys@.take(i as int + 1);
                    assert(tx.drop_last() =~= xs@.take(i as int));
                    assert(ty.drop_last() =~= ys@.take(i as int));
                    assert(seq_eq(tx, ty) == same);
                    if !same && seq_eq(xs@, ys@) {
                        lemma_seq_eq_prefix(xs@, ys@, i as int + 1);
                    }
                }
                if !same {
                    return false;
                }
                i = i + 1;
            }
            assert(xs@.take(xs.len() as int) =~= xs@);
            assert(ys@.take(ys.len() as int) =~= ys@);
            true
        },
        (JsonTree::Object(xs), JsonTree::Object(ys)) => {
            if xs.len() != ys.len() {
                return false;
            }
            let mut i: usize = 0;
            while i < xs.len()
                invariant
                    i <= xs.len() == ys.len(),
                    *a == JsonTree::Object(*xs),
                    *b == JsonTree::Object(*ys),
                    entries_eq(xs@.take(i as int), ys@.take(i as int)),
                decreases xs.len() - i,
            {
                proof {
                    assert(decreases_to!(*a => (*a)->Object_0));
                    assert(decreases_to!(*xs => xs@));
                    assert(decreases_to!(xs@ => xs@[i as int]));
                    assert(decreases_to!(xs@[i as int] => xs@[i as int].1));
                }
                let same = str_eq(xs[i].0.as_str(), ys[i].0.as_str()) && json_values_equal(
                    &xs[i].1,
                    &ys[i].1,
                );
                proof {
                    let tx = xs@.take(i as int + 1);
                    let ty = ys@.take(i as int + 1);
                    assert(tx.drop_last() =~= xs@.take(i as int));
                    assert(ty.drop_last() =~= ys@.take(i as int));
                    assert(entries_eq(tx, ty) == same);
                    if !same && entries_eq(xs@, ys@) {
                        lemma_entries_eq_prefix(xs@, ys@, i as int + 1);
                    }
                }
                if !same {
                    return false;
                }
                i = i + 1;
            }
            assert(xs@.take(xs.len() as int) =~= xs@);
            assert(ys@.take(ys.len() as int) =~= ys@);
            true
        },
        _ => false,
    }
}

/// Equal sequences have equal prefixes.
proof fn lemma_seq_eq_prefix(xs: Seq<JsonTree>, ys: Seq<JsonTree>, n: int)
    requires
        0 <= n <= xs.len(),
        xs.len() == ys.len(),
        seq_eq(xs, ys),
    ensures
        seq_eq(xs.take(n), ys.take(n)),
    decreases xs.len(),
{
    if n < xs.len() {
        lemma_seq_eq_prefix(xs.drop_last(), ys.drop_last(), n);
        assert(xs.drop_last().take(n) =~= xs.take(n));
        assert(ys.drop_last().take(n) =~= ys.take(n));
    } else {
        assert(xs.take(n) =~= xs);
        assert(ys.take(n) =~= ys);
    }
}

/// Equal entry sequences have equal prefixes.
proof fn lemma_entries_eq_prefix(xs: Seq<(String, JsonTree)>, ys: Seq<(String, JsonTree)>, n: int)
    requires
        0 <= n <= xs.len(),
        xs.len() == ys.len(),
        entries_eq(xs, ys),
    ensures
        entries_eq(xs.take(n), ys.take(n)),
    decreases xs.len(),
{
    if n < xs.len() {
        lemma_entries_eq_prefix(xs.drop_last(), ys.drop_last(), n);
        assert(xs.drop_last().take(n) =~= xs.take(n));
        assert(ys.drop_last().take(n) =~= ys.take(n));
    } else {
        assert(xs.take(n) =~= xs);
        assert(ys.take(n) =~= ys);
    }
}

/// Matching sequences have matching prefixes.
proof fn lemma_seq_match_prefix(gs: Seq<JsonTree>, rs: Seq<JsonTree>, n: int)
    requires
        0 <= n <= gs.len(),
        gs.len() == rs.len(),
        seq_match(gs, rs),
    ensures
        seq_match(gs.take(n), rs.take(n)),
    decreases gs.len(),
{
    if n < gs.len() {
        lemma_seq_match_prefix(gs.drop_last(), rs.drop_last(), n);
        assert(gs.drop_last().take(n) =~= gs.take(n));
        assert(rs.drop_last().take(n) =~= rs.take(n));
    } else {
        assert(gs.take(n) =~= gs);
        assert(rs.take(n) =~= rs);
    }
}

/// Matching entry sequences have matching prefixes.
proof fn lemma_entries_match_prefix(gm: Seq<(String, JsonTree)>, rm: Seq<(String, JsonTree)>, n: int)
    requires
        0 <= n <= gm.len(),
        entries_match(gm, rm),
    ensures
        entries_match(gm.take(n), rm),
    decreases gm.len(),
{
    if n < gm.len() {
        lemma_entries_match_prefix(gm.drop_last(), rm, n);
        assert(gm.drop_last().take(n) =~= gm.take(n));
    } else {
        assert(gm.take(n) =~= gm);
    }
}

/// Whether the reference value `golden` matches the output value `rust`.
pub fn compare_json_values(golden: &JsonTree, rust: &JsonTree) -> (r: bool)
    ensures
        r == json_match(*golden, *rust),
    decreases golden,
{
    match (golden, rust) {
        (JsonTree::Object(g_map), JsonTree::Object(r_map)) => {
            let mut i: usize = 0;
            while i < g_map.len()
                invariant
                    i <= g_map.len(),
                    *golden == JsonTree::Object(*g_map),
                    *rust == JsonTree::Object(*r_map),
                    entries_match(g_map@.take(i as int), r_map@),
                decreases g_map.len() - i,
            {
                proof {
                    assert(decreases_to!(*golden => (*golden)->Object_0));
                    assert(decreases_to!(*g_map => g_map@));
                    assert(decreases_to!(g_map@ => g_map@[i as int]));
                    assert(decreases_to!(g_map@[i as int] => g_map@[i as int].1));
                }
                let ghost t = g_map@.take(i as int + 1);
                proof {
                    assert(t.drop_last() =~= g_map@.take(i as int));
                }
                let ok = match find_key_exec(r_map, g_map[i].0.as_str()) {
                    Some(j) => compare_json_values(&g_map[i].1, &r_map[j].1),
                    None => false,
                };
                proof {
                    assert(entries_match(t, r_map@) == ok);
                    if !ok {
                        if entries_match(g_map@, r_map@) {
                            lemma_entries_match_prefix(g_map@, r_map@, i as int + 1);
                        }
                    }
                }
                if !ok {
                    return false;
                }
                i = i + 1;
            }
            assert(g_map@.take(g_map.len() as int) =~= g_map@);
            true
        },
        (JsonTree::Array(g_arr), JsonTree::Array(r_arr)) => {
            if g_arr.len() != r_arr.len() {
                return false;
            }
            let mut i: usize = 0;
            while i < g_arr.len()
                invariant
                    i <= g_arr.len() == r_arr.len(),
                    *golden == JsonTree::Array(*g_arr),
                    *rust == JsonTree::Array(*r_arr),
                    seq_match(g_arr@.take(i as int), r_arr@.take(i as int)),
                decreases g_arr.len() - i,
            {
                proof {
                    assert(decreases_to!(*golden => (*golden)->Array_0));
                    assert(decreases_to!(*g_arr => g_arr@));
                    assert(decreases_to!(g_arr@ => g_arr@[i as int]));
                }
                let ok = compare_json_values(&g_arr[i], &r_arr[i]);
                proof {
                    let tg = g_arr@.take(i as int + 1);
                    let tr = r_arr@.take(i as int + 1);
                    assert(tg.drop_last() =~= g_arr@.take(i as int));
                    assert(tr.drop_last() =~= r_arr@.take(i as int));
                    assert(seq_match(tg, tr) == ok);
                    if !ok && seq_match(g_arr@, r_arr@) {
                        lemma_seq_match_prefix(g_arr@, r_arr@, i as int + 1);
                    }
                }
                if !ok {
                    return false;
                }
                i = i + 1;
            }
            assert(g_arr@.take(g_arr.len() as int) =~= g_arr@);
            assert(r_arr@.take(r_arr.len() as int) =~= r_arr@);
            true
        },
        _ => json_values_equal(golden, rust),
    }
}

// ---------------------------------------------------------------------------
// Reference documents

/// A JSON value of serde_json, carried through unread.
#[verifier::external_type_specification]
#[verifier::external_body]
pub struct ExJsonValue(serde_json::Value);

/// The value that serde_json reads from the JSON text `text`, or none when
/// the text is not JSON.
pub uninterp spec fn json_parse(text: Seq<char>) -> Option<JsonTree>;

/// `serde_json::from_str::<serde_json::Value>`: reads JSON text. Trusted:
/// the result is what serde_json reads from the text, named `json_parse`,
/// converted one for one (a number kept as serde_json holds it: a
/// non-negative integer, a negative integer, or the bits of a float).
#[verifier::external_body]
pub fn parse_json_text(text: &str) -> (r: Option<JsonTree>)
    ensures
        r == json_parse(text@),
{
    match serde_json::from_str::<serde_json::Value>(text) {
        Ok(v) => Some(tree_of_value(v)),
        Err(_) => None,
    }
}

/// The one-for-one conversion of a serde_json value, used by
/// `parse_json_text`. Trusted for nothing beyond what that function states.
#[verifier::external_body]
fn tree_of_value(v: Value) -> JsonTree {
    match v {
        Value::Null => JsonTree::Null,
        Value::Bool(b) => JsonTree::Bool(b),
        Value::Number(n) => JsonTree::Number(match (n.as_u64(), n.as_i64()) {
            (Some(u), _) => JsonNumber::PosInt(u),
            (None, Some(i)) => JsonNumber::NegInt(i),
            _ => JsonNumber::Float(n.as_f64().unwrap_or_default().to_bits()),
        }),
        Value::String(s) => JsonTree::Str(s),
        Value::Array(a) => JsonTree::Array(a.into_iter().map(tree_of_value).collect()),
        Value::Object(m) => JsonTree::Object(
            m.into_iter().map(|(k, x)| (k, tree_of_value(x))).collect(),
        ),
    }
}

/// Compares the parser's output with the reference document `golden_text`:
/// an error when the text is not JSON, else whether the reference matches
/// the output.
pub fn golden_master_matches(golden_text: &str, rust: &JsonTree) -> (r: Result<bool, ()>)
    ensures
        match json_parse(golden_text@) {
            Some(g) => r == Ok::<bool, ()>(json_match(g, *rust)),
            None => r is Err,
        },
{
    match parse_json_text(golden_text) {
        Some(golden) => Ok(compare_json_values(&golden, rust)),
        None => Err(()),
    }
}

// ---------------------------------------------------------------------------
// Laws

/// Equality is reflexive.
pub proof fn lemma_json_eq_refl(a: JsonTree)
    ensures
        json_eq(a, a),
    decreases a,
{
    match a {
        JsonTree::Array(xs) => {
            lemma_seq_eq_refl(xs@);
        },
        JsonTree::Object(xs) => {
            lemma_entries_eq_refl(xs@);
        },
        _ => {},
    }
}

/// Sequence equality is reflexive.
proof fn lemma_seq_eq_refl(xs: Seq<JsonTree>)
    ensures
        seq_eq(xs, xs),
    decreases xs,
{
    if xs.len() > 0 {
        lemma_seq_eq_refl(xs.drop_last());
        lemma_json_eq_refl(xs.last());
    }
}

/// Entry-sequence equality is reflexive.
proof fn lemma_entries_eq_refl(xs: Seq<(String, JsonTree)>)
    ensures
        entries_eq(xs, xs),
    decreases xs,
{
    if xs.len() > 0 {
        lemma_entries_eq_refl(xs.drop_last());
        lemma_json_eq_refl(xs.last().1);
    }
}

/// Whether every object in `a` holds each key once.
pub open spec fn keys_distinct(a: JsonTree) -> bool
    decreases a,
{
    match a {
        JsonTree::Array(xs) => all_keys_distinct(xs@),
        JsonTree::Object(xs) => (forall|i: int, j: int|
            0 <= i < xs@.len() && 0 <= j < xs@.len() && i != j ==> xs@[i].0@ != xs@[j].0@)
            && entry_keys_distinct(xs@),
        _ => true,
    }
}

/// Whether every value of `xs` has distinct keys in its objects.
pub open spec fn all_keys_distinct(xs: Seq<JsonTree>) -> bool
    decreases xs,
{
    xs.len() == 0 || (all_keys_distinct(xs.drop_last()) && keys_distinct(xs.last()))
}

/// Whether every value of the entries `xs` has distinct keys in its
/// objects.
pub open spec fn entry_keys_distinct(xs: Seq<(String, JsonTree)>) -> bool
    decreases xs,
{
    xs.len() == 0 || (entry_keys_distinct(xs.drop_last()) && keys_distinct(xs.last().1))
}

proof fn lemma_seq_match_elementwise(gs: Seq<JsonTree>, rs: Seq<JsonTree>)
    ensures
        seq_match(gs, rs) <==> (gs.len() == rs.len() && forall|i: int|
            0 <= i < gs.len() ==> #[trigger] json_match(gs[i], rs[i])),
    decreases gs.len(),
{
    if gs.len() > 0 && gs.len() == rs.len() {
        lemma_seq_match_elementwise(gs.drop_last(), rs.drop_last());
        assert forall|i: int| 0 <= i < gs.len() - 1 implies #[trigger] gs.drop_last()[i] == gs[i]
            && rs.drop_last()[i] == rs[i] by {}
        if forall|i: int| 0 <= i < gs.len() ==> #[trigger] json_match(gs[i], rs[i]) {
            assert forall|i: int| 0 <= i < gs.drop_last().len() implies #[trigger] json_match(
                gs.drop_last()[i],
                rs.drop_last()[i],
            ) by {
                assert(json_match(gs[i], rs[i]));
            }
            assert(json_match(gs[gs.len() - 1], rs[rs.len() - 1]));
        }
        if seq_match(gs, rs) {
            assert forall|i: int| 0 <= i < gs.len() implies #[trigger] json_match(gs[i], rs[i]) by {
                if i < gs.len() - 1 {
                    assert(json_match(gs.drop_last()[i], rs.drop_last()[i]));
                }
            }
        }
    }
}

proof fn lemma_entries_match_each(gm: Seq<(String, JsonTree)>, rm: Seq<(String, JsonTree)>)
    ensures
        entries_match(gm, rm) <==> forall|i: int|
            0 <= i < gm.len() ==> match find_key(rm, #[trigger] gm[i].0@) {
                Some(j) => json_match(gm[i].1, rm[j].1),
                None => false,
            },
    decreases gm.len(),
{
    if gm.len() > 0 {
        lemma_entries_match_each(gm.drop_last(), rm);
        assert forall|i: int| 0 <= i < gm.len() - 1 implies #[trigger] gm.drop_last()[i] == gm[i] by {}
        if entries_match(gm, rm) {
            assert forall|i: int| 0 <= i < gm.len() implies match find_key(rm, #[trigger] gm[i].0@) {
                Some(j) => json_match(gm[i].1, rm[j].1),
                None => false,
            } by {
                if i < gm.len() - 1 {
                    assert(gm.drop_last()[i] == gm[i]);
                }
            }
        }
        if forall|i: int|
            0 <= i < gm.len() ==> match find_key(rm, #[trigger] gm[i].0@) {
                Some(j) => json_match(gm[i].1, rm[j].1),
                None => false,
            } {
            assert forall|i: int| 0 <= i < gm.drop_last().len() implies match find_key(
                rm,
                #[trigger] gm.drop_last()[i].0@,
            ) {
                Some(j) => json_match(gm.drop_last()[i].1, rm[j].1),
                None => false,
            } by {
                assert(gm.drop_last()[i] == gm[i]);
            }
            assert(gm.last() == gm[gm.len() - 1]);
        }
    }
}

/// Two arrays match exactly when they have the same length and each
/// reference element matches the output element at its index.
pub proof fn lemma_array_match(g: JsonTree, r: JsonTree)
    requires
        g is Array,
        r is Array,
    ensures
        json_match(g, r) <==> (g->Array_0@.len() == r->Array_0@.len() && forall|i: int|
            0 <= i < g->Array_0@.len() ==> #[trigger] json_match(g->Array_0@[i], r->Array_0@[i])),
{
    lemma_seq_match_elementwise(g->Array_0@, r->Array_0@);
}

/// A reference object matches an output object exactly when each of its
/// entries has an output entry of the same key (the first one) whose value
/// it matches.
pub proof fn lemma_object_match(g: JsonTree, r: JsonTree)
    requires
        g is Object,
        r is Object,
    ensures
        json_match(g, r) <==> forall|i: int|
            0 <= i < g->Object_0@.len() ==> match find_key(r->Object_0@, #[trigger] g->Object_0@[i].0@) {
                Some(j) => json_match(g->Object_0@[i].1, r->Object_0@[j].1),
                None => false,
            },
{
    lemma_entries_match_each(g->Object_0@, r->Object_0@);
}

/// Values that are neither arrays nor objects match exactly when they are
/// of one kind with the same contents: booleans and strings equal, integers
/// of one sign equal, floats with the same bits or both zero.
pub proof fn lemma_leaf_match(g: JsonTree, r: JsonTree)
    requires
        !(g is Array),
        !(g is Object),
    ensures
        json_match(g, r) <==> match (g, r) {
            (JsonTree::Null, JsonTree::Null) => true,
            (JsonTree::Bool(x), JsonTree::Bool(y)) => x == y,
            (JsonTree::Str(x), JsonTree::Str(y)) => x@ == y@,
            (JsonTree::Number(JsonNumber::PosInt(x)), JsonTree::Number(JsonNumber::PosInt(y))) => x == y,
            (JsonTree::Number(JsonNumber::NegInt(x)), JsonTree::Number(JsonNumber::NegInt(y))) => x == y,
            (JsonTree::Number(JsonNumber::Float(x)), JsonTree::Number(JsonNumber::Float(y))) => x == y || (
            (x == 0 || x == 0x8000_0000_0000_0000) && (y == 0 || y == 0x8000_0000_0000_0000)),
            _ => false,
        },
{
}

/// A document matches itself, provided that its objects hold each key
/// once.
pub proof fn lemma_json_match_refl(a: JsonTree)
    requires
        keys_distinct(a),
    ensures
        json_match(a, a),
    decreases a,
{
    match a {
        JsonTree::Array(xs) => {
            lemma_seq_match_refl(xs@);
        },
        JsonTree::Object(xs) => {
            lemma_entry_values_match_refl(xs@);
            lemma_entries_match_refl(xs@, xs@.len() as int);
            assert(xs@.take(xs@.len() as int) =~= xs@);
        },
        _ => {
            lemma_json_eq_refl(a);
        },
    }
}

/// A sequence of documents matches itself.
proof fn lemma_seq_match_refl(xs: Seq<JsonTree>)
    requires
        all_keys_distinct(xs),
    ensures
        seq_match(xs, xs),
    decreases xs,
{
    if xs.len() > 0 {
        lemma_seq_match_refl(xs.drop_last());
        lemma_json_match_refl(xs.last());
    }
}

/// Each value of entries with distinct nested keys matches itself.
proof fn lemma_entry_values_match_refl(xs: Seq<(String, JsonTree)>)
    requires
        entry_keys_distinct(xs),
    ensures
        forall|i: int| 0 <= i < xs.len() ==> #[trigger] json_match(xs[i].1, xs[i].1),
    decreases xs,
{
    if xs.len() > 0 {
        lemma_entry_values_match_refl(xs.drop_last());
        lemma_json_match_refl(xs.last().1);
        assert forall|i: int| 0 <= i < xs.len() implies #[trigger] json_match(xs[i].1, xs[i].1) by {
            if i < xs.len() - 1 {
                assert(xs.drop_last()[i] == xs[i]);
            }
        }
    }
}

/// The first `n` entries of an object with distinct keys match the
/// object's own entries.
proof fn lemma_entries_match_refl(all: Seq<(String, JsonTree)>, n: int)
    requires
        0 <= n <= all.len(),
        forall|i: int, j: int| 0 <= i < all.len() && 0 <= j < all.len() && i != j ==> all[i].0@ != all[j].0@,
        forall|i: int| 0 <= i < all.len() ==> #[trigger] json_match(all[i].1, all[i].1),
    ensures
        entries_match(all.take(n), all),
    decreases n,
{
    if n > 0 {
        lemma_entries_match_refl(all, n - 1);
        let t = all.take(n);
        assert(t.drop_last() =~= all.take(n - 1));
        let k = all[n - 1].0@;
        assert(t.last() == all[n - 1]);
        assert(exists|j: int| 0 <= j < all.len() && all[j].0@ == k) by {
            assert(all[n - 1].0@ == k);
        }
        let c = choose|c: int|
            0 <= c < all.len() && all[c].0@ == k && forall|l: int| 0 <= l < c ==> all[l].0@ != k;
        if c != n - 1 {
            assert(all[c].0@ != all[n - 1].0@);
        }
        assert(find_key(all, k) == Some(n - 1));
        assert(json_match(all[n - 1].1, all[n - 1].1));
    } else {
        assert(all.take(0) =~= Seq::<(String, JsonTree)>::empty());
    }
}

} // verus!
