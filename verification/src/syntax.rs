//! Line-level syntax of `.casp` files: inline comments and argument lists.

use vstd::prelude::*;
use crate::text::{is_ws, lemma_trim_clean, trim, trim_chars, trim_end, trim_start};

verus! {

// ---------------------------------------------------------------------------
// Inline comments

/// The characters of `s` kept by comment stripping, given whether the scan
/// is inside a string literal and whether the previous character was an
/// escaping backslash. A `#` outside a string ends the line; a backslash
/// inside a string escapes the next character.
pub open spec fn strip_from(s: Seq<char>, in_string: bool, escape: bool) -> Seq<char>
    decreases s.len(),
{
    if s.len() == 0 {
        Seq::empty()
    } else {
        let c = s[0];
        let rest = s.drop_first();
        if escape {
            seq![c] + strip_from(rest, in_string, false)
        } else if c == '\\' && in_string {
            seq![c] + strip_from(rest, in_string, true)
        } else if c == '"' {
            seq![c] + strip_from(rest, !in_string, false)
        } else if c == '#' && !in_string {
            Seq::empty()
        } else {
            seq![c] + strip_from(rest, in_string, false)
        }
    }
}

/// `s` without its inline comment.
pub open spec fn strip_comment(s: Seq<char>) -> Seq<char> {
    strip_from(s, false, false)
}

/// Removes everything from the first `#` that is not inside a string.
pub fn strip_inline_comment_chars(v: &Vec<char>) -> (r: Vec<char>)
    ensures
        r@ == strip_comment(v@),
{
    let mut r: Vec<char> = Vec::new();
    let mut in_string = false;
    let mut escape_next = false;
    let mut i: usize = 0;
    assert(v@.skip(0) =~= v@);
    while i < v.len()
        invariant
            i <= v.len(),
            strip_comment(v@) == r@ + strip_from(v@.skip(i as int), in_string, escape_next),
        decreases v.len() - i,
    {
        let ch = v[i];
        let ghost rest = v@.skip(i as int);
        assert(rest[0] == ch);
        assert(rest.drop_first() =~= v@.skip(i + 1));
        if escape_next {
            r.push(ch);
            escape_next = false;
        } else if ch == '\\' && in_string {
            escape_next = true;
            r.push(ch);
        } else if ch == '"' {
            in_string = !in_string;
            r.push(ch);
        } else if ch == '#' && !in_string {
            assert(strip_from(rest, in_string, escape_next) =~= Seq::<char>::empty());
            assert(r@ + Seq::<char>::empty() =~= r@);
            return r;
        } else {
            r.push(ch);
        }
        i = i + 1;
        assert(r@ + strip_from(v@.skip(i as int), in_string, escape_next) =~= (r@.drop_last()
            + seq![ch]) + strip_from(v@.skip(i as int), in_string, escape_next));
    }
    assert(v@.skip(i as int) =~= Seq::<char>::empty());
    assert(r@ + Seq::<char>::empty() =~= r@);
    r
}

proof fn lemma_strip_from_prefix(s: Seq<char>, in_string: bool, escape: bool)
    ensures
        strip_from(s, in_string, escape).len() <= s.len(),
        strip_from(s, in_string, escape) == s.subrange(
            0,
            strip_from(s, in_string, escape).len() as int,
        ),
        !s.contains('#') ==> strip_from(s, in_string, escape) == s,
    decreases s.len(),
{
    if s.len() == 0 {
        assert(s.subrange(0, 0) =~= s);
    } else {
        let rest = s.drop_first();
        assert(!s.contains('#') ==> !rest.contains('#')) by {
            if !s.contains('#') && rest.contains('#') {
                let k = choose|k: int| 0 <= k < rest.len() && rest[k] == '#';
                assert(s[k + 1] == '#');
            }
        }
        assert(!s.contains('#') ==> s[0] != '#') by {
            if !s.contains('#') && s[0] == '#' {
                assert(s.contains('#'));
            }
        }
        let nin = if escape {
            in_string
        } else if s[0] == '"' {
            !in_string
        } else {
            in_string
        };
        let nesc = !escape && s[0] == '\\' && in_string;
        lemma_strip_from_prefix(rest, nin, nesc);
        let t = strip_from(rest, nin, nesc);
        if strip_from(s, in_string, escape).len() > 0 {
            assert(strip_from(s, in_string, escape) == seq![s[0]] + t);
            assert(seq![s[0]] + t =~= s.subrange(0, t.len() + 1 as int)) by {
                assert(t =~= rest.subrange(0, t.len() as int));
            }
        } else {
            assert(s.subrange(0, 0) =~= Seq::<char>::empty());
        }
        if !s.contains('#') {
            assert(seq![s[0]] + rest =~= s);
        }
    }
}

/// Where stripping stops early, it stops at a `#`.
proof fn lemma_strip_from_stop(s: Seq<char>, in_string: bool, escape: bool)
    ensures
        strip_from(s, in_string, escape).len() < s.len() ==> s[strip_from(
            s,
            in_string,
            escape,
        ).len() as int] == '#',
    decreases s.len(),
{
    if s.len() > 0 {
        let rest = s.drop_first();
        let nin = if escape {
            in_string
        } else if s[0] == '"' {
            !in_string
        } else {
            in_string
        };
        let nesc = !escape && s[0] == '\\' && in_string;
        lemma_strip_from_stop(rest, nin, nesc);
        let t = strip_from(s, in_string, escape);
        if t.len() > 0 && t.len() < s.len() {
            assert(t == seq![s[0]] + strip_from(rest, nin, nesc));
            assert(s[t.len() as int] == rest[t.len() - 1]);
        }
    }
}

/// Stripping a prefix of what stripping keeps gives that prefix back.
proof fn lemma_strip_from_kept(s: Seq<char>, in_string: bool, escape: bool, k: int)
    requires
        0 <= k <= strip_from(s, in_string, escape).len(),
    ensures
        strip_from(s.subrange(0, k), in_string, escape) == s.subrange(0, k),
    decreases s.len(),
{
    lemma_strip_from_prefix(s, in_string, escape);
    if k == 0 {
        assert(s.subrange(0, 0) =~= Seq::<char>::empty());
    } else {
        let rest = s.drop_first();
        let nin = if escape {
            in_string
        } else if s[0] == '"' {
            !in_string
        } else {
            in_string
        };
        let nesc = !escape && s[0] == '\\' && in_string;
        let t = s.subrange(0, k);
        assert(strip_from(s, in_string, escape) == seq![s[0]] + strip_from(rest, nin, nesc));
        lemma_strip_from_kept(rest, nin, nesc, k - 1);
        assert(t.drop_first() =~= rest.subrange(0, k - 1));
        assert(t[0] == s[0]);
        assert(strip_from(t, in_string, escape) == seq![t[0]] + strip_from(t.drop_first(), nin, nesc));
        assert(seq![t[0]] + rest.subrange(0, k - 1) =~= t);
    }
}

/// Comment stripping keeps a prefix of the line; what it cuts off is empty
/// or starts with `#`; a line without `#` is left whole; and stripping
/// again changes nothing.
pub proof fn lemma_strip_comment(s: Seq<char>)
    ensures
        strip_comment(s).len() <= s.len(),
        strip_comment(s) == s.subrange(0, strip_comment(s).len() as int),
        strip_comment(s).len() < s.len() ==> s[strip_comment(s).len() as int] == '#',
        !s.contains('#') ==> strip_comment(s) == s,
        strip_comment(strip_comment(s)) == strip_comment(s),
{
    lemma_strip_from_prefix(s, false, false);
    lemma_strip_from_stop(s, false, false);
    lemma_strip_from_kept(s, false, false, strip_comment(s).len() as int);
}

// ---------------------------------------------------------------------------
// Argument lists

/// The argument `cur` contributes when the list is cut there: its trimmed
/// text if that is not empty.
pub open spec fn flush(cur: Seq<char>) -> Seq<Seq<char>> {
    if trim(cur).len() > 0 {
        seq![trim(cur)]
    } else {
        Seq::empty()
    }
}

/// The arguments of `s`, given the current partial argument `cur`, the
/// parenthesis depth, whether the scan is inside a string literal and
/// whether the previous character was a backslash. Commas split only
/// outside strings and at depth zero.
pub open spec fn args_from(
    s: Seq<char>,
    cur: Seq<char>,
    depth: int,
    in_string: bool,
    escape: bool,
) -> Seq<Seq<char>>
    decreases s.len(),
{
    if s.len() == 0 {
        flush(cur)
    } else {
        let c = s[0];
        let rest = s.drop_first();
        if escape {
            args_from(rest, cur.push(c), depth, in_string, false)
        } else if c == '\\' {
            args_from(rest, cur.push(c), depth, in_string, true)
        } else if c == '"' {
            args_from(rest, cur.push(c), depth, !in_string, false)
        } else if c == '(' && !in_string {
            args_from(rest, cur.push(c), depth + 1, in_string, false)
        } else if c == ')' && !in_string {
            args_from(rest, cur.push(c), depth - 1, in_string, false)
        } else if c == ',' && !in_string && depth == 0 {
            flush(cur) + args_from(rest, Seq::empty(), depth, in_string, false)
        } else {
            args_from(rest, cur.push(c), depth, in_string, false)
        }
    }
}

/// The arguments of an argument list such as `a, F(b, c), "d, e"`.
pub open spec fn split_args(s: Seq<char>) -> Seq<Seq<char>> {
    args_from(s, Seq::empty(), 0, false, false)
}

/// An argument as the splitter hands it out: not empty, and neither
/// starting nor ending with whitespace.
pub open spec fn clean_argument(a: Seq<char>) -> bool {
    a.len() > 0 && !is_ws(a[0]) && !is_ws(a.last())
}

proof fn lemma_flush_clean(cur: Seq<char>)
    ensures
        forall|i: int| 0 <= i < flush(cur).len() ==> clean_argument(#[trigger] flush(cur)[i]),
{
    lemma_trim_clean(cur);
}

proof fn lemma_args_from_clean(
    s: Seq<char>,
    cur: Seq<char>,
    depth: int,
    in_string: bool,
    escape: bool,
)
    ensures
        forall|i: int|
            0 <= i < args_from(s, cur, depth, in_string, escape).len() ==> clean_argument(
                #[trigger] args_from(s, cur, depth, in_string, escape)[i],
            ),
    decreases s.len(),
{
    lemma_flush_clean(cur);
    if s.len() == 0 {
        assert(args_from(s, cur, depth, in_string, escape) == flush(cur));
    } else {
        let c = s[0];
        let rest = s.drop_first();
        if escape {
            lemma_args_from_clean(rest, cur.push(c), depth, in_string, false);
            assert(args_from(s, cur, depth, in_string, escape) == args_from(
                rest, cur.push(c), depth, in_string, false,
            ));
        } else if c == '\\' {
            lemma_args_from_clean(rest, cur.push(c), depth, in_string, true);
            assert(args_from(s, cur, depth, in_string, escape) == args_from(
                rest, cur.push(c), depth, in_string, true,
            ));
        } else if c == '"' {
            lemma_args_from_clean(rest, cur.push(c), depth, !in_string, false);
            assert(args_from(s, cur, depth, in_string, escape) == args_from(
                rest, cur.push(c), depth, !in_string, false,
            ));
        } else if c == '(' && !in_string {
            lemma_args_from_clean(rest, cur.push(c), depth + 1, in_string, false);
            assert(args_from(s, cur, depth, in_string, escape) == args_from(
                rest, cur.push(c), depth + 1, in_string, false,
            ));
        } else if c == ')' && !in_string {
            lemma_args_from_clean(rest, cur.push(c), depth - 1, in_string, false);
            assert(args_from(s, cur, depth, in_string, escape) == args_from(
                rest, cur.push(c), depth - 1, in_string, false,
            ));
        } else if c == ',' && !in_string && depth == 0 {
            lemma_args_from_clean(rest, Seq::empty(), depth, in_string, false);
            let a = flush(cur);
            let b = args_from(rest, Seq::empty(), depth, in_string, false);
            assert(args_from(s, cur, depth, in_string, escape) == a + b);
            assert forall|i: int| 0 <= i < (a + b).len() implies clean_argument(
                #[trigger] (a + b)[i],
            ) by {
                if i < a.len() {
                    assert((a + b)[i] == a[i]);
                } else {
                    assert((a + b)[i] == b[i - a.len()]);
                }
            }
        } else {
            lemma_args_from_clean(rest, cur.push(c), depth, in_string, false);
            assert(args_from(s, cur, depth, in_string, escape) == args_from(
                rest, cur.push(c), depth, in_string, false,
            ));
        }
    }
}

/// Every argument that argument splitting yields is non-empty and carries
/// no surrounding whitespace.
pub proof fn lemma_arguments_clean(s: Seq<char>)
    ensures
        forall|i: int| 0 <= i < split_args(s).len() ==> clean_argument(#[trigger] split_args(s)[i]),
{
    lemma_args_from_clean(s, Seq::empty(), 0, false, false);
}

/// The arguments of `s` split at every comma, trimmed, empty ones dropped,
/// given the current partial argument `cur`.
pub open spec fn plain_args_from(s: Seq<char>, cur: Seq<char>) -> Seq<Seq<char>>
    decreases s.len(),
{
    if s.len() == 0 {
        flush(cur)
    } else if s[0] == ',' {
        flush(cur) + plain_args_from(s.drop_first(), Seq::empty())
    } else {
        plain_args_from(s.drop_first(), cur.push(s[0]))
    }
}

/// Whether `s` has no quote, parenthesis or backslash.
pub open spec fn is_plain(s: Seq<char>) -> bool {
    forall|i: int| 0 <= i < s.len() ==> #[trigger] s[i] != '"' && s[i] != '(' && s[i] != ')' && s[i] != '\\'
}

proof fn lemma_plain_args_from(s: Seq<char>, cur: Seq<char>)
    requires
        is_plain(s),
    ensures
        args_from(s, cur, 0, false, false) == plain_args_from(s, cur),
    decreases s.len(),
{
    if s.len() > 0 {
        let rest = s.drop_first();
        assert(s[0] != '"' && s[0] != '(' && s[0] != ')' && s[0] != '\\');
        assert forall|i: int| 0 <= i < rest.len() implies #[trigger] rest[i] != '"' && rest[i] != '('
            && rest[i] != ')' && rest[i] != '\\' by {
            assert(rest[i] == s[i + 1]);
        }
        if s[0] == ',' {
            lemma_plain_args_from(rest, Seq::empty());
        } else {
            lemma_plain_args_from(rest, cur.push(s[0]));
        }
    }
}

/// On text without quotes, parentheses or backslashes, argument splitting
/// is splitting at every comma, trimming each part and dropping empty ones.
pub proof fn lemma_plain_arguments(s: Seq<char>)
    requires
        is_plain(s),
    ensures
        split_args(s) == plain_args_from(s, Seq::empty()),
{
    lemma_plain_args_from(s, Seq::empty());
}

/// Whether `s` has no backslash.
pub open spec fn no_backslash(s: Seq<char>) -> bool {
    forall|i: int| 0 <= i < s.len() ==> #[trigger] s[i] != '\\'
}

/// The parenthesis depth and string flag after reading `c`.
pub open spec fn next_state(c: char, depth: int, in_string: bool) -> (int, bool) {
    if c == '"' {
        (depth, !in_string)
    } else if c == '(' && !in_string {
        (depth + 1, in_string)
    } else if c == ')' && !in_string {
        (depth - 1, in_string)
    } else {
        (depth, in_string)
    }
}

/// The depth and string flag after reading `x`.
pub open spec fn end_state(x: Seq<char>, depth: int, in_string: bool) -> (int, bool)
    decreases x.len(),
{
    if x.len() == 0 {
        (depth, in_string)
    } else {
        let n = next_state(x[0], depth, in_string);
        end_state(x.drop_first(), n.0, n.1)
    }
}

/// Whether reading `x` meets no comma that splits.
pub open spec fn no_split(x: Seq<char>, depth: int, in_string: bool) -> bool
    decreases x.len(),
{
    x.len() == 0 || (!(x[0] == ',' && !in_string && depth == 0) && {
        let n = next_state(x[0], depth, in_string);
        no_split(x.drop_first(), n.0, n.1)
    })
}

/// The arguments joined with `", "`.
pub open spec fn join_args(a: Seq<Seq<char>>) -> Seq<char>
    decreases a.len(),
{
    if a.len() == 0 {
        Seq::empty()
    } else if a.len() == 1 {
        a[0]
    } else {
        a[0] + ", "@ + join_args(a.drop_first())
    }
}

/// An argument that may stand last in a list: clean, without backslash,
/// and with no comma that splits.
pub open spec fn last_ok(x: Seq<char>) -> bool {
    clean_argument(x) && no_backslash(x) && no_split(x, 0, false)
}

/// An argument that may stand before another: it also ends outside any
/// string and parenthesis.
pub open spec fn middle_ok(x: Seq<char>) -> bool {
    last_ok(x) && end_state(x, 0, false) == (0int, false)
}

/// Every argument may stand last, and every one but the last before another.
pub open spec fn list_ok(a: Seq<Seq<char>>) -> bool {
    &&& forall|i: int| 0 <= i < a.len() ==> last_ok(#[trigger] a[i])
    &&& forall|i: int| 0 <= i < a.len() - 1 ==> middle_ok(#[trigger] a[i])
}

/// Whether every character of `w` is whitespace.
pub open spec fn all_ws(w: Seq<char>) -> bool {
    forall|i: int| 0 <= i < w.len() ==> is_ws(#[trigger] w[i])
}

proof fn lemma_ws_plain(c: char)
    requires
        is_ws(c),
    ensures
        c != '"' && c != '(' && c != ')' && c != ',' && c != '\\',
{
}

proof fn lemma_end_push(x: Seq<char>, c: char, d: int, b: bool)
    ensures
        end_state(x.push(c), d, b) == next_state(c, end_state(x, d, b).0, end_state(x, d, b).1),
        no_split(x.push(c), d, b) == (no_split(x, d, b) && !(c == ',' && !end_state(x, d, b).1
            && end_state(x, d, b).0 == 0)),
    decreases x.len(),
{
    if x.len() > 0 {
        let n = next_state(x[0], d, b);
        lemma_end_push(x.drop_first(), c, n.0, n.1);
        assert(x.push(c)[0] == x[0]);
        assert(x.push(c).drop_first() =~= x.drop_first().push(c));
    } else {
        assert(x.push(c)[0] == c);
        assert(x.push(c).drop_first() =~= Seq::<char>::empty());
        let n = next_state(c, d, b);
        assert(end_state(Seq::<char>::empty(), n.0, n.1) == n);
        assert(no_split(Seq::<char>::empty(), n.0, n.1));
    }
}

proof fn lemma_ws_run(w: Seq<char>, x: Seq<char>, d: int, b: bool)
    requires
        all_ws(w),
    ensures
        end_state(w + x, d, b) == end_state(x, d, b),
        no_split(w + x, d, b) == no_split(x, d, b),
    decreases w.len(),
{
    if w.len() > 0 {
        lemma_ws_plain(w[0]);
        assert((w + x).drop_first() =~= w.drop_first() + x);
        assert(all_ws(w.drop_first())) by {
            assert forall|i: int| 0 <= i < w.drop_first().len() implies is_ws(#[trigger] w.drop_first()[i]) by {
                assert(w.drop_first()[i] == w[i + 1]);
            }
        }
        lemma_ws_run(w.drop_first(), x, d, b);
    } else {
        assert(w + x =~= x);
    }
}

proof fn lemma_trim_start_ws(s: Seq<char>)
    ensures
        exists|k: int|
            0 <= k <= s.len() && trim_start(s) == s.skip(k) && #[trigger] all_ws(s.take(k)),
    decreases s.len(),
{
    if s.len() > 0 && is_ws(s[0]) {
        lemma_trim_start_ws(s.drop_first());
        let k = choose|k: int|
            0 <= k <= s.drop_first().len() && trim_start(s.drop_first()) == s.drop_first().skip(k)
                && #[trigger] all_ws(s.drop_first().take(k));
        assert(s.drop_first().skip(k) =~= s.skip(k + 1));
        assert(all_ws(s.take(k + 1))) by {
            assert forall|i: int| 0 <= i < s.take(k + 1).len() implies is_ws(#[trigger] s.take(k + 1)[i]) by {
                if i > 0 {
                    assert(s.take(k + 1)[i] == s.drop_first().take(k)[i - 1]);
                }
            }
        }
    } else {
        assert(s.skip(0) =~= s);
        assert(all_ws(s.take(0)));
    }
}

proof fn lemma_trim_end_ws(s: Seq<char>)
    ensures
        exists|m: int|
            0 <= m <= s.len() && trim_end(s) == s.take(m) && #[trigger] all_ws(s.skip(m)),
    decreases s.len(),
{
    if s.len() > 0 && is_ws(s.last()) {
        lemma_trim_end_ws(s.drop_last());
        let m = choose|m: int|
            0 <= m <= s.drop_last().len() && trim_end(s.drop_last()) == s.drop_last().take(m)
                && #[trigger] all_ws(s.drop_last().skip(m));
        assert(s.drop_last().take(m) =~= s.take(m));
        assert(all_ws(s.skip(m))) by {
            assert forall|i: int| 0 <= i < s.skip(m).len() implies is_ws(#[trigger] s.skip(m)[i]) by {
                if i < s.skip(m).len() - 1 {
                    assert(s.skip(m)[i] == s.drop_last().skip(m)[i]);
                }
            }
        }
    } else {
        assert(s.take(s.len() as int) =~= s);
        assert(all_ws(s.skip(s.len() as int)));
    }
}

proof fn lemma_prefix_run(x: Seq<char>, m: int, d: int, b: bool)
    requires
        0 <= m <= x.len(),
        all_ws(x.skip(m)),
    ensures
        end_state(x.take(m), d, b) == end_state(x, d, b),
        no_split(x, d, b) ==> no_split(x.take(m), d, b),
    decreases x.len() - m,
{
    if m < x.len() {
        let y = x.take(m + 1);
        assert(y.take(m) =~= x.take(m));
        assert(y =~= x.take(m).push(x[m]));
        assert(x.skip(m)[0] == x[m]);
        lemma_ws_plain(x[m]);
        lemma_end_push(x.take(m), x[m], d, b);
        assert(all_ws(x.skip(m + 1))) by {
            assert forall|i: int| 0 <= i < x.skip(m + 1).len() implies is_ws(#[trigger] x.skip(m + 1)[i]) by {
                assert(x.skip(m + 1)[i] == x.skip(m)[i + 1]);
            }
        }
        lemma_prefix_run(x, m + 1, d, b);
    } else {
        assert(x.take(m) =~= x);
    }
}

/// Trimming keeps the state that an argument ends in and keeps it free of
/// splitting commas.
proof fn lemma_trim_run(x: Seq<char>)
    requires
        no_split(x, 0, false),
    ensures
        no_split(trim(x), 0, false),
        end_state(trim(x), 0, false) == end_state(x, 0, false),
{
    lemma_trim_start_ws(x);
    let k = choose|k: int| 0 <= k <= x.len() && trim_start(x) == x.skip(k) && #[trigger] all_ws(x.take(k));
    assert(x.take(k) + x.skip(k) =~= x);
    lemma_ws_run(x.take(k), x.skip(k), 0, false);
    let t = x.skip(k);
    lemma_trim_end_ws(t);
    let m = choose|m: int| 0 <= m <= t.len() && trim_end(t) == t.take(m) && #[trigger] all_ws(t.skip(m));
    lemma_prefix_run(t, m, 0, false);
}

proof fn lemma_no_backslash_sub(s: Seq<char>, a: int, b: int)
    requires
        no_backslash(s),
        0 <= a <= b <= s.len(),
    ensures
        no_backslash(s.subrange(a, b)),
{
    assert forall|i: int| 0 <= i < s.subrange(a, b).len() implies #[trigger] s.subrange(a, b)[i] != '\\' by {
        assert(s.subrange(a, b)[i] == s[a + i]);
    }
}

proof fn lemma_trim_sub(x: Seq<char>)
    ensures
        exists|a: int, b: int| 0 <= a <= b <= x.len() && trim(x) == #[trigger] x.subrange(a, b),
{
    lemma_trim_start_ws(x);
    let k = choose|k: int| 0 <= k <= x.len() && trim_start(x) == x.skip(k) && #[trigger] all_ws(x.take(k));
    let t = x.skip(k);
    lemma_trim_end_ws(t);
    let m = choose|m: int| 0 <= m <= t.len() && trim_end(t) == t.take(m) && #[trigger] all_ws(t.skip(m));
    assert(t.take(m) =~= x.subrange(k, k + m));
}

/// What the current argument contributes when cut, if it was read from a
/// clean state to the state `(0, false)`.
proof fn lemma_flush_middle(cur: Seq<char>)
    requires
        no_backslash(cur),
        no_split(cur, 0, false),
        end_state(cur, 0, false) == (0int, false),
    ensures
        forall|i: int| 0 <= i < flush(cur).len() ==> middle_ok(#[trigger] flush(cur)[i]),
{
    lemma_trim_clean(cur);
    lemma_trim_run(cur);
    lemma_trim_sub(cur);
    let (a, b) = choose|a: int, b: int| 0 <= a <= b <= cur.len() && trim(cur) == #[trigger] cur.subrange(a, b);
    lemma_no_backslash_sub(cur, a, b);
}

proof fn lemma_flush_last(cur: Seq<char>)
    requires
        no_backslash(cur),
        no_split(cur, 0, false),
    ensures
        forall|i: int| 0 <= i < flush(cur).len() ==> last_ok(#[trigger] flush(cur)[i]),
{
    lemma_trim_clean(cur);
    lemma_trim_run(cur);
    lemma_trim_sub(cur);
    let (a, b) = choose|a: int, b: int| 0 <= a <= b <= cur.len() && trim(cur) == #[trigger] cur.subrange(a, b);
    lemma_no_backslash_sub(cur, a, b);
}

/// The arguments of text without backslashes can stand in a list.
proof fn lemma_args_list_ok(s: Seq<char>, cur: Seq<char>, d: int, b: bool)
    requires
        no_backslash(s),
        no_backslash(cur),
        no_split(cur, 0, false),
        end_state(cur, 0, false) == (d, b),
    ensures
        list_ok(args_from(s, cur, d, b, false)),
    decreases s.len(),
{
    if s.len() == 0 {
        lemma_flush_last(cur);
    } else {
        let c = s[0];
        let rest = s.drop_first();
        assert(no_backslash(rest)) by {
            assert forall|i: int| 0 <= i < rest.len() implies #[trigger] rest[i] != '\\' by {
                assert(rest[i] == s[i + 1]);
            }
        }
        assert(c != '\\');
        lemma_end_push(cur, c, 0, false);
        assert(no_backslash(cur.push(c))) by {
            assert forall|i: int| 0 <= i < cur.push(c).len() implies #[trigger] cur.push(c)[i] != '\\' by {
                if i < cur.len() {
                    assert(cur.push(c)[i] == cur[i]);
                }
            }
        }
        if c == ',' && !b && d == 0 {
            lemma_flush_middle(cur);
            assert(no_split(Seq::<char>::empty(), 0, false));
            lemma_args_list_ok(rest, Seq::empty(), 0, false);
            let x = flush(cur);
            let y = args_from(rest, Seq::empty(), 0, false, false);
            assert(args_from(s, cur, d, b, false) == x + y);
            assert forall|i: int| 0 <= i < (x + y).len() implies last_ok(#[trigger] (x + y)[i]) by {
                if i < x.len() {
                    assert((x + y)[i] == x[i]);
                } else {
                    assert((x + y)[i] == y[i - x.len()]);
                }
            }
            assert forall|i: int| 0 <= i < (x + y).len() - 1 implies middle_ok(#[trigger] (x + y)[i]) by {
                if i < x.len() {
                    assert((x + y)[i] == x[i]);
                } else {
                    assert((x + y)[i] == y[i - x.len()]);
                }
            }
        } else {
            let n = next_state(c, d, b);
            lemma_args_list_ok(rest, cur.push(c), n.0, n.1);
            assert(args_from(s, cur, d, b, false) == args_from(rest, cur.push(c), n.0, n.1, false));
        }
    }
}

/// Reading text free of splitting commas adds it to the current argument.
proof fn lemma_args_append(x: Seq<char>, y: Seq<char>, cur: Seq<char>, d: int, b: bool)
    requires
        no_backslash(x),
        no_split(x, d, b),
    ensures
        args_from(x + y, cur, d, b, false) == args_from(
            y,
            cur + x,
            end_state(x, d, b).0,
            end_state(x, d, b).1,
            false,
        ),
    decreases x.len(),
{
    if x.len() == 0 {
        assert(x + y =~= y);
        assert(cur + x =~= cur);
    } else {
        let c = x[0];
        let n = next_state(c, d, b);
        assert((x + y)[0] == c);
        assert((x + y).drop_first() =~= x.drop_first() + y);
        assert(no_backslash(x.drop_first())) by {
            assert forall|i: int| 0 <= i < x.drop_first().len() implies #[trigger] x.drop_first()[i] != '\\' by {
                assert(x.drop_first()[i] == x[i + 1]);
            }
        }
        assert(c != '\\');
        lemma_args_append(x.drop_first(), y, cur.push(c), n.0, n.1);
        assert(cur.push(c) + x.drop_first() =~= cur + x);
        assert(args_from(x + y, cur, d, b, false) == args_from(
            (x + y).drop_first(),
            cur.push(c),
            n.0,
            n.1,
            false,
        ));
    }
}

proof fn lemma_trim_ws_clean(w: Seq<char>, x: Seq<char>)
    requires
        all_ws(w),
        clean_argument(x),
    ensures
        trim(w + x) == x,
    decreases w.len(),
{
    if w.len() > 0 {
        assert((w + x)[0] == w[0]);
        assert((w + x).drop_first() =~= w.drop_first() + x);
        assert(all_ws(w.drop_first())) by {
            assert forall|i: int| 0 <= i < w.drop_first().len() implies is_ws(#[trigger] w.drop_first()[i]) by {
                assert(w.drop_first()[i] == w[i + 1]);
            }
        }
        lemma_trim_ws_clean(w.drop_first(), x);
    } else {
        assert(w + x =~= x);
    }
}

proof fn lemma_flush_ws(w: Seq<char>)
    requires
        all_ws(w),
    ensures
        flush(w) == Seq::<Seq<char>>::empty(),
{
    lemma_trim_clean(w);
    lemma_trim_sub(w);
    if trim(w).len() > 0 {
        let (a, b) = choose|a: int, b: int| 0 <= a <= b <= w.len() && trim(w) == #[trigger] w.subrange(a, b);
        assert(trim(w)[0] == w[a]);
    }
}

proof fn lemma_parse_joined(a: Seq<Seq<char>>, w: Seq<char>)
    requires
        list_ok(a),
        all_ws(w),
    ensures
        args_from(join_args(a), w, 0, false, false) == a,
    decreases a.len(),
{
    if a.len() == 0 {
        lemma_flush_ws(w);
        assert(a =~= Seq::<Seq<char>>::empty());
    } else if a.len() == 1 {
        let x = a[0];
        assert(last_ok(x));
        assert(x + Seq::<char>::empty() =~= x);
        lemma_args_append(x, Seq::empty(), w, 0, false);
        lemma_trim_ws_clean(w, x);
        assert(seq![x] =~= a);
    } else {
        let x = a[0];
        let rest = a.drop_first();
        assert(middle_ok(x));
        let tail = ", "@ + join_args(rest);
        assert(join_args(a) == x + tail) by {
            assert(x + ", "@ + join_args(rest) =~= x + tail);
        }
        lemma_args_append(x, tail, w, 0, false);
        reveal_strlit(", ");
        reveal_strlit(" ");
        assert(", "@ =~= seq![',', ' ']);
        assert(" "@ =~= seq![' ']);
        assert(tail[0] == ',');
        assert(tail.drop_first() =~= " "@ + join_args(rest));
        lemma_trim_ws_clean(w, x);
        assert(flush(w + x) == seq![x]);
        let sp = " "@ + join_args(rest);
        assert(sp[0] == ' ');
        assert(sp.drop_first() =~= join_args(rest));
        assert(Seq::<char>::empty().push(' ') =~= " "@);
        assert(all_ws(" "@));
        assert(list_ok(rest)) by {
            assert forall|i: int| 0 <= i < rest.len() implies last_ok(#[trigger] rest[i]) by {
                assert(rest[i] == a[i + 1]);
            }
            assert forall|i: int| 0 <= i < rest.len() - 1 implies middle_ok(#[trigger] rest[i]) by {
                assert(rest[i] == a[i + 1]);
            }
        }
        lemma_parse_joined(rest, " "@);
        assert(args_from(sp, Seq::empty(), 0, false, false) == args_from(join_args(rest), " "@, 0, false, false));
        assert(seq![x] + rest =~= a);
    }
}

/// Joining the arguments of text without backslashes with `", "` and
/// splitting again gives them back.
pub proof fn lemma_arguments_rejoin(s: Seq<char>)
    requires
        no_backslash(s),
    ensures
        split_args(join_args(split_args(s))) == split_args(s),
{
    assert(no_backslash(Seq::<char>::empty()));
    lemma_args_list_ok(s, Seq::empty(), 0, false);
    assert(all_ws(Seq::<char>::empty()));
    lemma_parse_joined(split_args(s), Seq::empty());
}

/// Splits an argument list at top-level commas, keeping nested calls and
/// string literals whole; each argument is trimmed and empty ones dropped.
pub fn parse_arguments_chars(v: &Vec<char>) -> (r: Vec<Vec<char>>)
    ensures
        r@.map_values(|a: Vec<char>| a@) == split_args(v@),
{
    let mut args: Vec<Vec<char>> = Vec::new();
    let mut cur: Vec<char> = Vec::new();
    // The depth is `opened - closed`; two counters keep it free of overflow.
    let mut opened: usize = 0;
    let mut closed: usize = 0;
    let mut in_string = false;
    let mut escape_next = false;
    let mut i: usize = 0;
    assert(v@.skip(0) =~= v@);
    while i < v.len()
        invariant
            i <= v.len(),
            opened <= i,
            closed <= i,
            split_args(v@) == args@.map_values(|a: Vec<char>| a@) + args_from(
                v@.skip(i as int),
                cur@,
                opened - closed,
                in_string,
                escape_next,
            ),
        decreases v.len() - i,
    {
        let ch = v[i];
        let ghost rest = v@.skip(i as int);
        let ghost old_args = args@.map_values(|a: Vec<char>| a@);
        assert(rest[0] == ch);
        assert(rest.drop_first() =~= v@.skip(i + 1));
        if escape_next {
            cur.push(ch);
            escape_next = false;
        } else if ch == '\\' {
            escape_next = true;
            cur.push(ch);
        } else if ch == '"' {
            in_string = !in_string;
            cur.push(ch);
        } else if ch == '(' && !in_string {
            opened = opened + 1;
            cur.push(ch);
        } else if ch == ')' && !in_string {
            closed = closed + 1;
            cur.push(ch);
        } else if ch == ',' && !in_string && opened == closed {
            let t = trim_chars(&cur);
            if t.len() > 0 {
                args.push(t);
                assert(args@.map_values(|a: Vec<char>| a@) =~= old_args + flush(cur@));
            } else {
                assert(args@.map_values(|a: Vec<char>| a@) =~= old_args + flush(cur@));
            }
            cur = Vec::new();
            assert(cur@ =~= Seq::<char>::empty());
        } else {
            cur.push(ch);
        }
        i = i + 1;
    }
    assert(v@.skip(i as int) =~= Seq::<char>::empty());
    let ghost old_args = args@.map_values(|a: Vec<char>| a@);
    let t = trim_chars(&cur);
    if t.len() > 0 {
        args.push(t);
    }
    assert(args@.map_values(|a: Vec<char>| a@) =~= old_args + flush(cur@));
    args
}

} // verus!
