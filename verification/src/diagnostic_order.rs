//! The order in which diagnostics are reported: by path, line, column,
//! severity and message.
use vstd::prelude::*;
use crate::diagnostic::Diagnostic;
use crate::text::str_chars;
use crate::workspace::{severity_order, spec_severity_order};

verus! {

broadcast use vstd::seq_lib::group_to_multiset_ensures;

/// How `std::path::Path` orders two paths, compared by the components the
/// target platform's path syntax gives: -1, 0 or 1.
pub uninterp spec fn path_order(a: Seq<char>, b: Seq<char>) -> int;

/// `Path::new(a).cmp(Path::new(b))` as -1, 0 or 1. `Path` implements
/// `Ord`, a total order, so swapping the two paths negates the result.
#[verifier::external_body]
fn compare_paths(a: &str, b: &str) -> (r: i8)
    ensures
        r == path_order(a@, b@),
        -1 <= r <= 1,
        path_order(b@, a@) == -r,
{
    match std::path::Path::new(a).cmp(std::path::Path::new(b)) {
        std::cmp::Ordering::Less => -1,
        std::cmp::Ordering::Equal => 0,
        std::cmp::Ordering::Greater => 1,
    }
}

/// Lexicographic order of two texts from position `i` on, by code point
/// (which is the byte order of their UTF-8): -1, 0 or 1.
pub open spec fn spec_text_order_from(a: Seq<char>, b: Seq<char>, i: int) -> int
    decreases a.len() - i,
{
    if i < 0 || i >= a.len() {
        if i < 0 || i >= b.len() {
            0
        } else {
            -1
        }
    } else if i >= b.len() {
        1
    } else if a[i] != b[i] {
        if a[i] < b[i] {
            -1
        } else {
            1
        }
    } else {
        spec_text_order_from(a, b, i + 1)
    }
}

pub open spec fn spec_text_order(a: Seq<char>, b: Seq<char>) -> int {
    spec_text_order_from(a, b, 0)
}

proof fn lemma_text_order_antisymmetric(a: Seq<char>, b: Seq<char>, i: int)
    requires
        0 <= i,
    ensures
        spec_text_order_from(b, a, i) == -spec_text_order_from(a, b, i),
    decreases a.len() - i,
{
    if i < a.len() && i < b.len() && a[i] == b[i] {
        lemma_text_order_antisymmetric(a, b, i + 1);
    }
}

fn compare_text(a: &str, b: &str) -> (r: i8)
    ensures
        r == spec_text_order(a@, b@),
{
    let x = str_chars(a);
    let y = str_chars(b);
    let mut i: usize = 0;
    while i < x.len() && i < y.len() && x[i] == y[i]
        invariant
            x@ == a@,
            y@ == b@,
            i <= x@.len(),
            i <= y@.len(),
            spec_text_order_from(a@, b@, i as int) == spec_text_order(a@, b@),
        decreases x@.len() - i,
    {
        i = i + 1;
    }
    if i >= x.len() {
        if i >= y.len() {
            0
        } else {
            -1
        }
    } else if i >= y.len() {
        1
    } else if x[i] < y[i] {
        -1
    } else {
        1
    }
}

pub open spec fn spec_three_way(a: int, b: int) -> int {
    if a < b {
        -1
    } else if a == b {
        0
    } else {
        1
    }
}

/// How two diagnostics are ordered: those without a path first, then by
/// path, line, column, severity (errors first) and message.
pub open spec fn spec_diagnostic_order(a: Diagnostic, b: Diagnostic) -> int {
    let p = match (a.path, b.path) {
        (None, None) => 0,
        (None, Some(_)) => -1,
        (Some(_), None) => 1,
        (Some(x), Some(y)) => path_order(x@, y@),
    };
    if p != 0 {
        p
    } else if a.line != b.line {
        spec_three_way(a.line as int, b.line as int)
    } else if a.column != b.column {
        spec_three_way(a.column as int, b.column as int)
    } else if spec_severity_order(a.severity) != spec_severity_order(b.severity) {
        spec_three_way(spec_severity_order(a.severity) as int, spec_severity_order(b.severity) as int)
    } else {
        spec_text_order(a.message@, b.message@)
    }
}

pub fn compare_diagnostics(a: &Diagnostic, b: &Diagnostic) -> (r: i8)
    ensures
        r == spec_diagnostic_order(*a, *b),
        spec_diagnostic_order(*b, *a) == -r,
{
    proof {
        reveal(spec_diagnostic_order);
    }
    let p: i8 = match (&a.path, &b.path) {
        (None, None) => 0,
        (None, Some(_)) => -1,
        (Some(_), None) => 1,
        (Some(x), Some(y)) => compare_paths(x.as_str(), y.as_str()),
    };
    if p != 0 {
        return p;
    }
    if a.line != b.line {
        return if a.line < b.line {
            -1
        } else {
            1
        };
    }
    if a.column != b.column {
        return if a.column < b.column {
            -1
        } else {
            1
        };
    }
    let sa = severity_order(&a.severity);
    let sb = severity_order(&b.severity);
    if sa != sb {
        return if sa < sb {
            -1
        } else {
            1
        };
    }
    proof {
        lemma_text_order_antisymmetric(a.message@, b.message@, 0);
    }
    compare_text(a.message.as_str(), b.message.as_str())
}

pub open spec fn spec_diagnostics_sorted(s: Seq<Diagnostic>) -> bool {
    forall|i: int| 0 <= i < s.len() - 1 ==> spec_diagnostic_order(#[trigger] s[i], s[i + 1]) <= 0
}

/// Each item of `out` is the item of `input` at the position `perm`
/// gives, a position below `bound`.
#[verifier::opaque]
pub open spec fn spec_taken_from(input: Seq<Diagnostic>, out: Seq<Diagnostic>, perm: Seq<int>, bound: int) -> bool {
    &&& perm.len() == out.len()
    &&& forall|i: int| 0 <= i < out.len() ==> 0 <= #[trigger] perm[i] < bound && out[i] == input[perm[i]]
}

/// No position is taken twice.
#[verifier::opaque]
pub open spec fn spec_distinct_positions(perm: Seq<int>) -> bool {
    forall|i: int, j: int| 0 <= i < j < perm.len() ==> #[trigger] perm[i] != #[trigger] perm[j]
}

/// Items that compare equal come in the order of their positions.
#[verifier::opaque]
pub open spec fn spec_equal_items_keep_order(out: Seq<Diagnostic>, perm: Seq<int>) -> bool {
    forall|i: int, j: int|
        0 <= i < j < out.len() && spec_diagnostic_order(#[trigger] out[i], #[trigger] out[j]) == 0 ==> perm[i] < perm[j]
}

/// `out` is `input` rearranged by `perm`, no position taken twice, and
/// items that compare equal keep their input order.
pub open spec fn spec_stable_arrangement(input: Seq<Diagnostic>, out: Seq<Diagnostic>, perm: Seq<int>) -> bool {
    &&& spec_taken_from(input, out, perm, input.len() as int)
    &&& spec_distinct_positions(perm)
    &&& spec_equal_items_keep_order(out, perm)
}

proof fn lemma_insert_sorted(before_out: Seq<Diagnostic>, x: Diagnostic, p: int)
    requires
        0 <= p <= before_out.len(),
        spec_diagnostics_sorted(before_out),
        p > 0 ==> spec_diagnostic_order(before_out[p - 1], x) <= 0,
        p < before_out.len() ==> spec_diagnostic_order(x, before_out[p]) < 0,
    ensures
        spec_diagnostics_sorted(before_out.insert(p, x)),
{
    let s = before_out.insert(p, x);
    assert forall|i: int| 0 <= i < s.len() - 1 implies spec_diagnostic_order(#[trigger] s[i], s[i + 1]) <= 0 by {
        if i + 1 < p {
            assert(s[i] == before_out[i] && s[i + 1] == before_out[i + 1]);
        } else if i + 1 == p {
            assert(s[i] == before_out[i] && s[i + 1] == x);
        } else if i == p {
            assert(s[i] == x && s[i + 1] == before_out[i]);
        } else {
            assert(s[i] == before_out[i - 1] && s[i + 1] == before_out[i]);
        }
    }
}

proof fn lemma_insert_taken(all: Seq<Diagnostic>, before_out: Seq<Diagnostic>, before_perm: Seq<int>, x: Diagnostic, p: int, t: int)
    requires
        0 <= p <= before_out.len(),
        0 <= t < all.len(),
        x == all[t],
        spec_taken_from(all, before_out, before_perm, t),
    ensures
        spec_taken_from(all, before_out.insert(p, x), before_perm.insert(p, t), t + 1),
{
    reveal(spec_taken_from);
    let s = before_out.insert(p, x);
    let perm = before_perm.insert(p, t);
    assert forall|i: int| 0 <= i < s.len() implies 0 <= #[trigger] perm[i] < t + 1 && s[i] == all[perm[i]] by {
        if i < p {
            assert(perm[i] == before_perm[i] && s[i] == before_out[i]);
        } else if i > p {
            assert(perm[i] == before_perm[i - 1] && s[i] == before_out[i - 1]);
        }
    }
}

proof fn lemma_insert_distinct(before_out: Seq<Diagnostic>, before_perm: Seq<int>, p: int, t: int, all: Seq<Diagnostic>)
    requires
        0 <= p <= before_perm.len(),
        spec_taken_from(all, before_out, before_perm, t),
        spec_distinct_positions(before_perm),
    ensures
        spec_distinct_positions(before_perm.insert(p, t)),
{
    reveal(spec_taken_from);
    reveal(spec_distinct_positions);
    let perm = before_perm.insert(p, t);
    assert forall|i: int, j: int| 0 <= i < j < perm.len() implies #[trigger] perm[i] != #[trigger] perm[j] by {
        if i < p && j < p {
            assert(perm[i] == before_perm[i] && perm[j] == before_perm[j]);
        } else if i < p && j == p {
            assert(perm[i] == before_perm[i]);
        } else if i < p {
            assert(perm[i] == before_perm[i] && perm[j] == before_perm[j - 1]);
        } else if i == p {
            assert(perm[j] == before_perm[j - 1]);
        } else {
            assert(perm[i] == before_perm[i - 1] && perm[j] == before_perm[j - 1]);
        }
    }
}

proof fn lemma_insert_stable(all: Seq<Diagnostic>, before_out: Seq<Diagnostic>, before_perm: Seq<int>, x: Diagnostic, p: int, t: int)
    requires
        0 <= p <= before_out.len(),
        spec_taken_from(all, before_out, before_perm, t),
        spec_equal_items_keep_order(before_out, before_perm),
        forall|k: int| p <= k < before_out.len() ==> spec_diagnostic_order(x, #[trigger] before_out[k]) < 0,
    ensures
        spec_equal_items_keep_order(before_out.insert(p, x), before_perm.insert(p, t)),
{
    reveal(spec_taken_from);
    reveal(spec_equal_items_keep_order);
    let s = before_out.insert(p, x);
    let perm = before_perm.insert(p, t);
    assert forall|i: int, j: int|
        0 <= i < j < s.len() && spec_diagnostic_order(#[trigger] s[i], #[trigger] s[j]) == 0 implies perm[i] < perm[j] by {
        if i < p && j < p {
            assert(s[i] == before_out[i] && s[j] == before_out[j]);
            assert(perm[i] == before_perm[i] && perm[j] == before_perm[j]);
        } else if i < p && j == p {
            assert(perm[i] == before_perm[i]);
        } else if i < p {
            assert(s[i] == before_out[i] && s[j] == before_out[j - 1]);
            assert(perm[i] == before_perm[i] && perm[j] == before_perm[j - 1]);
        } else if i == p {
            assert(s[j] == before_out[j - 1]);
        } else {
            assert(s[i] == before_out[i - 1] && s[j] == before_out[j - 1]);
            assert(perm[i] == before_perm[i - 1] && perm[j] == before_perm[j - 1]);
        }
    }
}

proof fn lemma_insert_multiset(before_out: Seq<Diagnostic>, before_in: Seq<Diagnostic>, x: Diagnostic, p: int, all: Seq<Diagnostic>)
    requires
        0 <= p <= before_out.len(),
        before_in.len() > 0,
        before_in[0] == x,
        before_out.to_multiset().add(before_in.to_multiset()) == all.to_multiset(),
    ensures
        before_out.insert(p, x).to_multiset().add(before_in.remove(0).to_multiset()) == all.to_multiset(),
{
    let s = before_out.insert(p, x);
    assert(s.remove(p) =~= before_out);
    assert(s[p] == x);
    assert(s.to_multiset().remove(x) == before_out.to_multiset());
    assert(s.to_multiset().count(x) > 0);
    assert(s.to_multiset() =~= before_out.to_multiset().insert(x));
    assert(before_in.to_multiset().remove(before_in[0]) == before_in.remove(0).to_multiset());
    assert(before_in.to_multiset().count(x) > 0);
    assert(before_in.to_multiset() =~= before_in.remove(0).to_multiset().insert(x));
    assert(s.to_multiset().add(before_in.remove(0).to_multiset()) =~= all.to_multiset());
}

/// Sorts diagnostics into report order: the result holds the same
/// diagnostics, each ordered at or before the next, and diagnostics that
/// compare equal keep the order they came in.
pub fn sort_diagnostics(diagnostics: &mut Vec<Diagnostic>)
    ensures
        final(diagnostics)@.to_multiset() == old(diagnostics)@.to_multiset(),
        spec_diagnostics_sorted(final(diagnostics)@),
        exists|perm: Seq<int>| spec_stable_arrangement(old(diagnostics)@, final(diagnostics)@, perm),
{
    let mut input: Vec<Diagnostic> = Vec::new();
    std::mem::swap(&mut input, diagnostics);
    let ghost all = input@;
    let mut out: Vec<Diagnostic> = Vec::new();
    let ghost mut perm: Seq<int> = Seq::empty();
    let ghost mut t: int = 0;
    assert(out@.to_multiset().add(input@.to_multiset()) =~= all.to_multiset());
    assert(input@ =~= all.subrange(0, all.len() as int));
    proof {
        reveal(spec_taken_from);
        reveal(spec_distinct_positions);
        reveal(spec_equal_items_keep_order);
    }
    while input.len() > 0
        invariant
            0 <= t <= all.len(),
            input@ == all.subrange(t, all.len() as int),
            out@.to_multiset().add(input@.to_multiset()) == all.to_multiset(),
            spec_diagnostics_sorted(out@),
            spec_taken_from(all, out@, perm, t),
            spec_distinct_positions(perm),
            spec_equal_items_keep_order(out@, perm),
        decreases input@.len(),
    {
        let ghost before_in = input@;
        let ghost before_out = out@;
        let ghost before_perm = perm;
        let x = input.remove(0);
        assert(before_in.remove(0) == input@);
        assert(x == all[t]);
        let mut p: usize = out.len();
        loop
            invariant
                out@ == before_out,
                p <= out@.len(),
                forall|k: int| p <= k < out@.len() ==> spec_diagnostic_order(x, #[trigger] out@[k]) < 0,
            decreases p,
        {
            if p == 0 {
                break;
            }
            let c = compare_diagnostics(&out[p - 1], &x);
            if c <= 0 {
                break;
            }
            p = p - 1;
        }
        assert(p > 0 ==> spec_diagnostic_order(out@[p - 1], x) <= 0);
        out.insert(p, x);
        proof {
            lemma_insert_sorted(before_out, x, p as int);
            lemma_insert_taken(all, before_out, before_perm, x, p as int, t);
            lemma_insert_distinct(before_out, before_perm, p as int, t, all);
            lemma_insert_stable(all, before_out, before_perm, x, p as int, t);
            lemma_insert_multiset(before_out, before_in, x, p as int, all);
            perm = before_perm.insert(p as int, t);
            assert(input@ =~= all.subrange(t + 1, all.len() as int));
            t = t + 1;
        }
    }
    assert(input@ =~= Seq::<Diagnostic>::empty());
    assert(out@.to_multiset() =~= all.to_multiset());
    assert(t == all.len());
    assert(spec_stable_arrangement(all, out@, perm));
    *diagnostics = out;
}

} // verus!
