//! Run summaries and the unified diff that the `diff` mode prints: line
//! splitting, an LCS diff with a linear fallback for large inputs, hunk
//! grouping and rendering.
use vstd::prelude::*;
use crate::diagnostic::{Diagnostic, Severity};
use crate::text::{chars_eq, chars_to_string, push_all, push_decimal, spec_decimal, str_chars};

verus! {

/// One line of a diffed text: its characters and whether a line ending
/// followed it.
#[derive(Debug, Clone)]
pub struct DiffLine {
    pub text: Vec<char>,
    pub has_line_ending: bool,
}

impl View for DiffLine {
    type V = (Seq<char>, bool);

    open spec fn view(&self) -> (Seq<char>, bool) {
        (self.text@, self.has_line_ending)
    }
}

/// The views of a sequence of lines.
pub open spec fn lines_view(s: Seq<DiffLine>) -> Seq<(Seq<char>, bool)> {
    s.map_values(|l: DiffLine| l@)
}

/// One step of an edit script: a line kept (its index in the old and in the
/// new text), a line of the old text removed, a line of the new text added.
#[derive(Debug, Clone, Copy, PartialEq, Eq)]
pub enum DiffOp {
    Equal(usize, usize),
    Remove(usize),
    Add(usize),
}

/// Whether two lines are the same (text and line ending).
pub fn same_line(a: &DiffLine, b: &DiffLine) -> (r: bool)
    ensures
        r == (a@ == b@),
{
    a.has_line_ending == b.has_line_ending && chars_eq(a.text.as_slice(), b.text.as_slice())
}

/// The lines of `s`, split after `\n`, `\r\n` or a lone `\r`; a last line
/// without a line ending is kept as such.
pub open spec fn spec_diff_lines(s: Seq<char>, start: int, i: int) -> Seq<(Seq<char>, bool)>
    decreases s.len() - i,
{
    if i < 0 || i >= s.len() {
        if 0 <= start < s.len() {
            seq![(s.subrange(start, s.len() as int), false)]
        } else {
            seq![]
        }
    } else if s[i] == '\n' {
        seq![(s.subrange(start, i), true)] + spec_diff_lines(s, i + 1, i + 1)
    } else if s[i] == '\r' {
        let next = if i + 1 < s.len() && s[i + 1] == '\n' {
            i + 2
        } else {
            i + 1
        };
        seq![(s.subrange(start, i), true)] + spec_diff_lines(s, next, next)
    } else {
        spec_diff_lines(s, start, i + 1)
    }
}

/// Splits `input` into the lines that the diff compares.
pub fn diff_lines(input: &[char]) -> (r: Vec<DiffLine>)
    ensures
        lines_view(r@) == spec_diff_lines(input@, 0, 0),
{
    let n = input.len();
    let mut lines: Vec<DiffLine> = Vec::new();
    let mut start: usize = 0;
    let mut i: usize = 0;
    while i < n
        invariant
            n == input@.len(),
            start <= i <= n,
            lines_view(lines@) + spec_diff_lines(input@, start as int, i as int) == spec_diff_lines(
                input@,
                0,
                0,
            ),
        decreases n - i,
    {
        let c = input[i];
        if c == '\n' || c == '\r' {
            let text = crate::text::sub_chars(input, start, i);
            let line = DiffLine { text, has_line_ending: true };
            let ghost before = lines@;
            lines.push(line);
            let next = if c == '\r' && i + 1 < n && input[i + 1] == '\n' {
                i + 2
            } else {
                i + 1
            };
            proof {
                assert(lines_view(lines@) == lines_view(before).push(line@));
                assert(spec_diff_lines(input@, start as int, i as int) == seq![line@]
                    + spec_diff_lines(input@, next as int, next as int));
                assert(lines_view(lines@) + spec_diff_lines(input@, next as int, next as int)
                    == lines_view(before) + spec_diff_lines(input@, start as int, i as int));
            }
            i = next;
            start = next;
        } else {
            i = i + 1;
        }
    }
    if start < n {
        let text = crate::text::sub_chars(input, start, n);
        let line = DiffLine { text, has_line_ending: false };
        let ghost before = lines@;
        lines.push(line);
        proof {
            assert(lines_view(lines@) == lines_view(before).push(line@));
            assert(lines_view(lines@) == lines_view(before) + spec_diff_lines(
                input@,
                start as int,
                i as int,
            ));
        }
    } else {
        assert(lines_view(lines@) + seq![] == lines_view(lines@));
    }
    lines
}

/// `len - i`, or zero past the end.
pub open spec fn spec_rest(len: int, i: int) -> nat {
    if i < len {
        (len - i) as nat
    } else {
        0
    }
}

/// The length of a longest common subsequence of `b[i..]` and `a[j..]`.
pub open spec fn spec_lcs(b: Seq<(Seq<char>, bool)>, a: Seq<(Seq<char>, bool)>, i: int, j: int) -> nat
    decreases spec_rest(b.len() as int, i) + spec_rest(a.len() as int, j),
{
    if i < 0 || j < 0 || i >= b.len() || j >= a.len() {
        0
    } else if b[i] == a[j] {
        1 + spec_lcs(b, a, i + 1, j + 1)
    } else {
        let down = spec_lcs(b, a, i + 1, j);
        let right = spec_lcs(b, a, i, j + 1);
        if down >= right {
            down
        } else {
            right
        }
    }
}

pub proof fn lemma_lcs_bound(b: Seq<(Seq<char>, bool)>, a: Seq<(Seq<char>, bool)>, i: int, j: int)
    requires
        0 <= i <= b.len(),
        0 <= j <= a.len(),
    ensures
        spec_lcs(b, a, i, j) <= b.len() - i,
    decreases spec_rest(b.len() as int, i) + spec_rest(a.len() as int, j),
{
    if i < b.len() && j < a.len() {
        lemma_lcs_bound(b, a, i + 1, j + 1);
        lemma_lcs_bound(b, a, i + 1, j);
        lemma_lcs_bound(b, a, i, j + 1);
    }
}

/// The edit script that the LCS table gives: keep equal lines, otherwise
/// remove when that keeps at least as long a common subsequence, else add.
pub open spec fn spec_lcs_trace(b: Seq<(Seq<char>, bool)>, a: Seq<(Seq<char>, bool)>, i: int, j: int) -> Seq<
    DiffOp,
>
    decreases spec_rest(b.len() as int, i) + spec_rest(a.len() as int, j),
{
    if i < 0 || j < 0 || (i >= b.len() && j >= a.len()) {
        seq![]
    } else if i < b.len() && j < a.len() && b[i] == a[j] {
        seq![DiffOp::Equal(i as usize, j as usize)] + spec_lcs_trace(b, a, i + 1, j + 1)
    } else if i < b.len() && (j >= a.len() || spec_lcs(b, a, i + 1, j) >= spec_lcs(b, a, i, j + 1)) {
        seq![DiffOp::Remove(i as usize)] + spec_lcs_trace(b, a, i + 1, j)
    } else {
        seq![DiffOp::Add(j as usize)] + spec_lcs_trace(b, a, i, j + 1)
    }
}

/// The old-text line indices that an edit script walks, in order.
pub open spec fn spec_old_side(ops: Seq<DiffOp>) -> Seq<int>
    decreases ops.len(),
{
    if ops.len() == 0 {
        seq![]
    } else {
        let rest = spec_old_side(ops.drop_last());
        match ops.last() {
            DiffOp::Equal(i, _) => rest.push(i as int),
            DiffOp::Remove(i) => rest.push(i as int),
            DiffOp::Add(_) => rest,
        }
    }
}

/// The new-text line indices that an edit script walks, in order.
pub open spec fn spec_new_side(ops: Seq<DiffOp>) -> Seq<int>
    decreases ops.len(),
{
    if ops.len() == 0 {
        seq![]
    } else {
        let rest = spec_new_side(ops.drop_last());
        match ops.last() {
            DiffOp::Equal(_, j) => rest.push(j as int),
            DiffOp::Remove(_) => rest,
            DiffOp::Add(j) => rest.push(j as int),
        }
    }
}

/// `lo, lo + 1, ..., hi - 1`.
pub open spec fn spec_range(lo: int, hi: int) -> Seq<int> {
    Seq::new(if lo <= hi { (hi - lo) as nat } else { 0 }, |k: int| lo + k)
}

/// Every kept line pairs equal lines of the two texts.
pub open spec fn spec_matched(ops: Seq<DiffOp>, b: Seq<(Seq<char>, bool)>, a: Seq<(Seq<char>, bool)>) -> bool {
    forall|k: int|
        0 <= k < ops.len() ==> match #[trigger] ops[k] {
            DiffOp::Equal(i, j) => i < b.len() && j < a.len() && b[i as int] == a[j as int],
            _ => true,
        }
}

/// An edit script from `b` to `a`: it walks every old line once and in
/// order, every new line once and in order, and keeps only equal lines.
pub open spec fn spec_edit_script(ops: Seq<DiffOp>, b: Seq<(Seq<char>, bool)>, a: Seq<(Seq<char>, bool)>) -> bool {
    &&& spec_old_side(ops) == spec_range(0, b.len() as int)
    &&& spec_new_side(ops) == spec_range(0, a.len() as int)
    &&& spec_matched(ops, b, a)
}

/// Appends `op` to `ops`, keeping track of both sides.
fn push_op(ops: &mut Vec<DiffOp>, op: DiffOp)
    ensures
        final(ops)@ == old(ops)@.push(op),
        spec_old_side(final(ops)@) == match op {
            DiffOp::Equal(i, _) => spec_old_side(old(ops)@).push(i as int),
            DiffOp::Remove(i) => spec_old_side(old(ops)@).push(i as int),
            DiffOp::Add(_) => spec_old_side(old(ops)@),
        },
        spec_new_side(final(ops)@) == match op {
            DiffOp::Equal(_, j) => spec_new_side(old(ops)@).push(j as int),
            DiffOp::Remove(_) => spec_new_side(old(ops)@),
            DiffOp::Add(j) => spec_new_side(old(ops)@).push(j as int),
        },
{
    let ghost before = ops@;
    ops.push(op);
    assert(ops@.drop_last() == before);
}

proof fn lemma_range_push(lo: int, hi: int)
    requires
        lo <= hi,
    ensures
        spec_range(lo, hi).push(hi) == spec_range(lo, hi + 1),
{
    assert(spec_range(lo, hi).push(hi) =~= spec_range(lo, hi + 1));
}

/// The LCS table, stored bottom row first: `rows[k][j]` is the LCS length of
/// `b[m - k..]` and `a[j..]`.
fn lcs_rows(b: &[DiffLine], a: &[DiffLine]) -> (rows: Vec<Vec<usize>>)
    requires
        (b@.len() + 1) * (a@.len() + 1) <= usize::MAX,
    ensures
        rows@.len() == b@.len() + 1,
        forall|k: int|
            0 <= k <= b@.len() ==> #[trigger] rows@[k]@.len() == a@.len() + 1 && forall|j: int|
                0 <= j <= a@.len() ==> rows@[k]@[j] == spec_lcs(
                    lines_view(b@),
                    lines_view(a@),
                    b@.len() - k,
                    j,
                ),
{
    let m = b.len();
    let n = a.len();
    let ghost bv = lines_view(b@);
    let ghost av = lines_view(a@);
    assert(n + 1 <= usize::MAX) by (nonlinear_arith)
        requires
            (m + 1) * (n + 1) <= usize::MAX,
    ;
    let mut rows: Vec<Vec<usize>> = Vec::new();
    let mut bottom: Vec<usize> = Vec::new();
    let mut j: usize = 0;
    while j <= n
        invariant
            j <= n + 1,
            n == a@.len(),
            bottom@.len() == j,
            forall|t: int| 0 <= t < j ==> bottom@[t] == 0,
        decreases n + 1 - j,
    {
        bottom.push(0);
        j = j + 1;
    }
    proof {
        assert forall|t: int| 0 <= t <= n implies bottom@[t] == spec_lcs(bv, av, m as int, t) by {}
    }
    rows.push(bottom);
    let mut k: usize = 0;
    while k < m
        invariant
            m == b@.len(),
            n == a@.len(),
            bv == lines_view(b@),
            av == lines_view(a@),
            k <= m,
            rows@.len() == k + 1,
            forall|kk: int|
                0 <= kk <= k ==> #[trigger] rows@[kk]@.len() == n + 1 && forall|t: int|
                    0 <= t <= n ==> rows@[kk]@[t] == spec_lcs(bv, av, m - kk, t),
        decreases m - k,
    {
        let i = m - 1 - k;
        let mut row: Vec<usize> = Vec::new();
        let mut t: usize = 0;
        while t <= n
            invariant
                t <= n + 1,
                row@.len() == t,
                forall|t2: int| 0 <= t2 < t ==> row@[t2] == 0,
            decreases n + 1 - t,
        {
            row.push(0);
            t = t + 1;
        }
        let mut jj: usize = n;
        proof {
            assert(row@[n as int] == spec_lcs(bv, av, i as int, n as int));
            assert(rows@[k as int]@.len() == n + 1);
        }
        while jj > 0
            invariant
                m == b@.len(),
                n == a@.len(),
                i < m,
                i == m - 1 - k,
                jj <= n,
                row@.len() == n + 1,
                rows@.len() == k + 1,
                rows@[k as int]@.len() == n + 1,
                forall|t2: int|
                    0 <= t2 <= n ==> rows@[k as int]@[t2] == spec_lcs(bv, av, i + 1, t2),
                forall|t2: int| jj <= t2 <= n ==> row@[t2] == spec_lcs(bv, av, i as int, t2),
            decreases jj,
        {
            let jx = jj - 1;
            proof {
                lemma_lcs_bound(bv, av, i + 1, jx + 1);
                lemma_lcs_bound(bv, av, i as int, jx as int);
            }
            let v: usize = if same_line(&b[i], &a[jx]) {
                rows[k][jx + 1] + 1
            } else {
                let down = rows[k][jx];
                let right = row[jx + 1];
                if down >= right {
                    down
                } else {
                    right
                }
            };
            row.set(jx, v);
            jj = jx;
        }
        rows.push(row);
        k = k + 1;
    }
    rows
}

/// The LCS edit script of `b` into `a`.
fn lcs_diff_ops(b: &[DiffLine], a: &[DiffLine]) -> (ops: Vec<DiffOp>)
    requires
        (b@.len() + 1) * (a@.len() + 1) <= usize::MAX,
    ensures
        ops@ == spec_lcs_trace(lines_view(b@), lines_view(a@), 0, 0),
        spec_edit_script(ops@, lines_view(b@), lines_view(a@)),
{
    let m = b.len();
    let n = a.len();
    let ghost bv = lines_view(b@);
    let ghost av = lines_view(a@);
    let rows = lcs_rows(b, a);
    let mut ops: Vec<DiffOp> = Vec::new();
    let mut i: usize = 0;
    let mut j: usize = 0;
    assert(spec_old_side(ops@) =~= spec_range(0, 0));
    assert(spec_new_side(ops@) =~= spec_range(0, 0));
    while i < m || j < n
        invariant
            m == b@.len(),
            n == a@.len(),
            bv == lines_view(b@),
            av == lines_view(a@),
            i <= m,
            j <= n,
            ops@ + spec_lcs_trace(bv, av, i as int, j as int) == spec_lcs_trace(bv, av, 0, 0),
            spec_old_side(ops@) == spec_range(0, i as int),
            spec_new_side(ops@) == spec_range(0, j as int),
            spec_matched(ops@, bv, av),
        decreases (m - i) + (n - j),
    {
        let ghost prev = ops@;
        let eq = i < m && j < n && same_line(&b[i], &a[j]);
        let remove = if eq {
            false
        } else if i < m {
            if j == n {
                true
            } else {
                proof {
                    assert(rows@[(m - (i + 1)) as int]@.len() == n + 1);
                    assert(rows@[(m - i) as int]@.len() == n + 1);
                }
                rows[m - (i + 1)][j] >= rows[m - i][j + 1]
            }
        } else {
            false
        };
        if eq {
            push_op(&mut ops, DiffOp::Equal(i, j));
            proof {
                lemma_range_push(0, i as int);
                lemma_range_push(0, j as int);
                assert(spec_lcs_trace(bv, av, i as int, j as int) == seq![DiffOp::Equal(i, j)]
                    + spec_lcs_trace(bv, av, i + 1, j + 1));
                assert(ops@ + spec_lcs_trace(bv, av, i + 1, j + 1) == prev + spec_lcs_trace(
                    bv,
                    av,
                    i as int,
                    j as int,
                ));
                assert(forall|k: int| 0 <= k < prev.len() ==> ops@[k] == prev[k]);
            }
            i = i + 1;
            j = j + 1;
        } else if remove {
            push_op(&mut ops, DiffOp::Remove(i));
            proof {
                lemma_range_push(0, i as int);
                assert(spec_lcs_trace(bv, av, i as int, j as int) == seq![DiffOp::Remove(i)]
                    + spec_lcs_trace(bv, av, i + 1, j as int));
                assert(ops@ + spec_lcs_trace(bv, av, i + 1, j as int) == prev + spec_lcs_trace(
                    bv,
                    av,
                    i as int,
                    j as int,
                ));
                assert(forall|k: int| 0 <= k < prev.len() ==> ops@[k] == prev[k]);
            }
            i = i + 1;
        } else {
            push_op(&mut ops, DiffOp::Add(j));
            proof {
                lemma_range_push(0, j as int);
                assert(spec_lcs_trace(bv, av, i as int, j as int) == seq![DiffOp::Add(j)]
                    + spec_lcs_trace(bv, av, i as int, j + 1));
                assert(ops@ + spec_lcs_trace(bv, av, i as int, j + 1) == prev + spec_lcs_trace(
                    bv,
                    av,
                    i as int,
                    j as int,
                ));
                assert(forall|k: int| 0 <= k < prev.len() ==> ops@[k] == prev[k]);
            }
            j = j + 1;
        }
    }
    assert(spec_lcs_trace(bv, av, m as int, n as int) == Seq::<DiffOp>::empty());
    assert(ops@ == ops@ + Seq::<DiffOp>::empty());
    ops
}

/// A resynchronisation point `(removed, added)` of the bounded search: the
/// lines `b[bs + removed]` and `a[as_ + added]` are equal, within the window.
pub open spec fn spec_bounded_sync_candidate(
    b: Seq<(Seq<char>, bool)>,
    a: Seq<(Seq<char>, bool)>,
    bs: int,
    as_: int,
    max_before: int,
    max_after: int,
    removed: int,
    added: int,
) -> bool {
    &&& 0 <= removed <= max_before
    &&& 0 <= added <= max_after
    &&& 1 <= removed + added
    &&& b[bs + removed] == a[as_ + added]
}

/// `x - 1` clamped at zero, then at most `window`.
pub open spec fn spec_window_max(len: int, window: int) -> int {
    let m = if len >= 1 {
        len - 1
    } else {
        0
    };
    if m <= window {
        m
    } else {
        window
    }
}

/// The nearest resynchronisation point of `b[bs..be]` and `a[as_..ae]`
/// within `window` lines of each start: the smallest total distance, and on
/// a tie the fewest removed lines.
pub fn next_bounded_linear_diff_sync(
    b: &[DiffLine],
    a: &[DiffLine],
    bs: usize,
    be: usize,
    as_: usize,
    ae: usize,
    window: usize,
) -> (r: Option<(usize, usize)>)
    requires
        bs < be <= b@.len(),
        as_ < ae <= a@.len(),
        window <= 64,
    ensures
        ({
            let mb = spec_window_max(be - bs, window as int);
            let ma = spec_window_max(ae - as_, window as int);
            let bv = lines_view(b@);
            let av = lines_view(a@);
            match r {
                Some((rc, ac)) => spec_bounded_sync_candidate(bv, av, bs as int, as_ as int, mb, ma, rc as int, ac as int)
                    && forall|r2: int, a2: int|
                    spec_bounded_sync_candidate(bv, av, bs as int, as_ as int, mb, ma, r2, a2) ==> rc + ac < r2 + a2
                        || (rc + ac == r2 + a2 && rc <= r2),
                None => forall|r2: int, a2: int|
                    !spec_bounded_sync_candidate(bv, av, bs as int, as_ as int, mb, ma, r2, a2),
            }
        }),
{
    let ghost bv = lines_view(b@);
    let ghost av = lines_view(a@);
    let blen = be - bs;
    let alen = ae - as_;
    let max_before = if blen - 1 <= window {
        blen - 1
    } else {
        window
    };
    let max_after = if alen - 1 <= window {
        alen - 1
    } else {
        window
    };
    let ghost mb = max_before as int;
    let ghost ma = max_after as int;
    let mut distance: usize = 1;
    while distance <= max_before + max_after
        invariant
            1 <= distance <= max_before + max_after + 1,
            max_before <= 64,
            max_after <= 64,
            mb == max_before,
            ma == max_after,
            bs + max_before < be <= b@.len(),
            as_ + max_after < ae <= a@.len(),
            bv == lines_view(b@),
            av == lines_view(a@),
            forall|r2: int, a2: int|
                spec_bounded_sync_candidate(bv, av, bs as int, as_ as int, mb, ma, r2, a2) ==> r2 + a2
                    >= distance,
        decreases max_before + max_after + 1 - distance,
    {
        let remove_min = if distance >= max_after {
            distance - max_after
        } else {
            0
        };
        let remove_max = if max_before <= distance {
            max_before
        } else {
            distance
        };
        let mut rc = remove_min;
        while rc <= remove_max
            invariant
                remove_min <= rc <= remove_max + 1,
                remove_max <= max_before,
                remove_max <= distance,
                remove_min + max_after >= distance,
                1 <= distance <= max_before + max_after,
                mb == max_before,
                ma == max_after,
                bs + max_before < be <= b@.len(),
                as_ + max_after < ae <= a@.len(),
                bv == lines_view(b@),
                av == lines_view(a@),
                forall|r2: int, a2: int|
                    spec_bounded_sync_candidate(bv, av, bs as int, as_ as int, mb, ma, r2, a2) ==> r2
                        + a2 >= distance,
                forall|r2: int, a2: int|
                    spec_bounded_sync_candidate(bv, av, bs as int, as_ as int, mb, ma, r2, a2) && r2
                        + a2 == distance ==> r2 >= rc,
            decreases remove_max + 1 - rc,
        {
            let ac = distance - rc;
            if ac <= max_after && same_line(&b[bs + rc], &a[as_ + ac]) {
                return Some((rc, ac));
            }
            rc = rc + 1;
        }
        distance = distance + 1;
    }
    None
}

/// The first position in `a[from..end]` that holds `line`.
pub open spec fn spec_first_occurrence(
    a: Seq<(Seq<char>, bool)>,
    from: int,
    end: int,
    line: (Seq<char>, bool),
) -> Option<int>
    decreases end - from,
{
    if from >= end {
        None
    } else if a[from] == line {
        Some(from)
    } else {
        spec_first_occurrence(a, from + 1, end, line)
    }
}

pub proof fn lemma_first_occurrence(a: Seq<(Seq<char>, bool)>, from: int, end: int, line: (Seq<char>, bool))
    ensures
        spec_first_occurrence(a, from, end, line) matches Some(p) ==> from <= p < end && a[p] == line,
    decreases end - from,
{
    if from < end && a[from] != line {
        lemma_first_occurrence(a, from + 1, end, line);
    }
}

/// Finds the first position in `a[from..end]` holding `line`.
fn first_occurrence(a: &[DiffLine], from: usize, end: usize, line: &DiffLine) -> (r: Option<usize>)
    requires
        end <= a@.len(),
    ensures
        match spec_first_occurrence(lines_view(a@), from as int, end as int, line@) {
            Some(p) => r == Some(p as usize),
            None => r is None,
        },
        r matches Some(p) ==> from <= p < end,
{
    let ghost av = lines_view(a@);
    let mut p = from;
    while p < end
        invariant
            from <= p,
            end <= a@.len(),
            av == lines_view(a@),
            spec_first_occurrence(av, p as int, end as int, line@) == spec_first_occurrence(
                av,
                from as int,
                end as int,
                line@,
            ),
        decreases end - p,
    {
        if same_line(&a[p], line) {
            return Some(p);
        }
        p = p + 1;
    }
    proof {
        lemma_first_occurrence(av, from as int, end as int, line@);
    }
    None
}

/// The resynchronisation distance that removing `removed` lines gives: the
/// distance to the first later occurrence of `b[bs + removed]` in `a[as_..ae]`.
pub open spec fn spec_index_sync_added(
    b: Seq<(Seq<char>, bool)>,
    a: Seq<(Seq<char>, bool)>,
    bs: int,
    as_: int,
    ae: int,
    removed: int,
) -> Option<int> {
    match spec_first_occurrence(a, as_, ae, b[bs + removed]) {
        Some(p) => Some(p - as_),
        None => None,
    }
}

/// A resynchronisation point of the unbounded search.
pub open spec fn spec_index_sync_candidate(
    b: Seq<(Seq<char>, bool)>,
    a: Seq<(Seq<char>, bool)>,
    bs: int,
    be: int,
    as_: int,
    ae: int,
    removed: int,
    added: int,
) -> bool {
    &&& 0 <= removed < be - bs
    &&& spec_index_sync_added(b, a, bs, as_, ae, removed) == Some(added)
    &&& 1 <= removed + added
}

/// The nearest resynchronisation point over the whole remaining texts: for
/// each removed count the first later occurrence of that line, the smallest
/// total distance, and on a tie the fewest removed lines.
pub fn next_index_diff_sync(b: &[DiffLine], a: &[DiffLine], bs: usize, be: usize, as_: usize, ae: usize) -> (r:
    Option<(usize, usize)>)
    requires
        bs <= be <= b@.len(),
        as_ <= ae <= a@.len(),
        b@.len() + a@.len() <= usize::MAX,
    ensures
        ({
            let bv = lines_view(b@);
            let av = lines_view(a@);
            match r {
                Some((rc, ac)) => spec_index_sync_candidate(bv, av, bs as int, be as int, as_ as int, ae as int, rc as int, ac as int)
                    && forall|r2: int, a2: int|
                    spec_index_sync_candidate(bv, av, bs as int, be as int, as_ as int, ae as int, r2, a2) ==> rc + ac < r2 + a2
                        || (rc + ac == r2 + a2 && rc <= r2),
                None => forall|r2: int, a2: int|
                    !spec_index_sync_candidate(bv, av, bs as int, be as int, as_ as int, ae as int, r2, a2),
            }
        }),
        r matches Some((rc, ac)) ==> rc < be - bs && ac < ae - as_,
{
    let ghost bv = lines_view(b@);
    let ghost av = lines_view(a@);
    let mut best: Option<(usize, usize)> = None;
    let mut rc: usize = 0;
    while rc < be - bs
        invariant
            bs <= be <= b@.len(),
            as_ <= ae <= a@.len(),
            bv == lines_view(b@),
            av == lines_view(a@),
            rc <= be - bs,
            match best {
                Some((br, ba)) => spec_index_sync_candidate(bv, av, bs as int, be as int, as_ as int, ae as int, br as int, ba as int)
                    && ba < ae - as_ && forall|r2: int, a2: int|
                    r2 < rc && spec_index_sync_candidate(bv, av, bs as int, be as int, as_ as int, ae as int, r2, a2) ==> br + ba
                        < r2 + a2 || (br + ba == r2 + a2 && br <= r2),
                None => forall|r2: int, a2: int|
                    r2 < rc ==> !spec_index_sync_candidate(bv, av, bs as int, be as int, as_ as int, ae as int, r2, a2),
            },
        decreases be - bs - rc,
    {
        if let Some((br, ba)) = best {
            if rc > br + ba {
                proof {
                    assert forall|r2: int, a2: int|
                        spec_index_sync_candidate(bv, av, bs as int, be as int, as_ as int, ae as int, r2, a2) implies br + ba
                            < r2 + a2 || (br + ba == r2 + a2 && br <= r2) by {
                        lemma_first_occurrence(av, as_ as int, ae as int, bv[bs + r2]);
                        if r2 >= rc {
                            assert(r2 + a2 >= rc);
                        }
                    }
                }
                return best;
            }
        }
        let found = first_occurrence(a, as_, ae, &b[bs + rc]);
        proof {
            lemma_first_occurrence(av, as_ as int, ae as int, bv[bs + rc]);
            assert(b@[bs + rc]@ == bv[bs + rc]);
        }
        match found {
            None => {},
            Some(position) => {
                let add_count = position - as_;
                let distance_zero = rc == 0 && add_count == 0;
                if !distance_zero {
                    let better = match best {
                        None => true,
                        Some((br, ba)) => rc + add_count < br + ba || (rc + add_count == br + ba && rc
                            < br),
                    };
                    if better {
                        best = Some((rc, add_count));
                    }
                }
            },
        }
        rc = rc + 1;
    }
    best
}

/// `Remove(from)`, ..., `Remove(to - 1)`.
pub open spec fn spec_removes(from: int, to: int) -> Seq<DiffOp> {
    Seq::new((to - from) as nat, |k: int| DiffOp::Remove((from + k) as usize))
}

/// `Add(from)`, ..., `Add(to - 1)`.
pub open spec fn spec_adds(from: int, to: int) -> Seq<DiffOp> {
    Seq::new((to - from) as nat, |k: int| DiffOp::Add((from + k) as usize))
}

/// `Equal(bfrom + k, afrom + k)` for `k < count`.
pub open spec fn spec_equals(bfrom: int, afrom: int, count: int) -> Seq<DiffOp> {
    Seq::new(count as nat, |k: int| DiffOp::Equal((bfrom + k) as usize, (afrom + k) as usize))
}

/// Appends `Remove(from)`, ..., `Remove(to - 1)`.
fn push_removes(ops: &mut Vec<DiffOp>, from: usize, to: usize, Ghost(b): Ghost<Seq<(Seq<char>, bool)>>, Ghost(a): Ghost<Seq<(Seq<char>, bool)>>)
    requires
        from <= to,
        spec_old_side(old(ops)@) == spec_range(0, from as int),
        spec_matched(old(ops)@, b, a),
    ensures
        spec_old_side(final(ops)@) == spec_range(0, to as int),
        spec_new_side(final(ops)@) == spec_new_side(old(ops)@),
        spec_matched(final(ops)@, b, a),
        final(ops)@ == old(ops)@ + spec_removes(from as int, to as int),
{
    let mut k = from;
    while k < to
        invariant
            from <= k <= to,
            spec_old_side(ops@) == spec_range(0, k as int),
            spec_new_side(ops@) == spec_new_side(old(ops)@),
            spec_matched(ops@, b, a),
            ops@ == old(ops)@ + spec_removes(from as int, k as int),
        decreases to - k,
    {
        let ghost prev = ops@;
        push_op(ops, DiffOp::Remove(k));
        proof {
            assert(ops@ =~= old(ops)@ + spec_removes(from as int, k + 1));
            lemma_range_push(0, k as int);
            assert forall|t: int| 0 <= t < ops@.len() implies match #[trigger] ops@[t] {
                DiffOp::Equal(i, j) => i < b.len() && j < a.len() && b[i as int] == a[j as int],
                _ => true,
            } by {
                if t < prev.len() {
                    assert(ops@[t] == prev[t]);
                }
            }
        }
        k = k + 1;
    }
}

/// Appends `Add(from)`, ..., `Add(to - 1)`.
fn push_adds(ops: &mut Vec<DiffOp>, from: usize, to: usize, Ghost(b): Ghost<Seq<(Seq<char>, bool)>>, Ghost(a): Ghost<Seq<(Seq<char>, bool)>>)
    requires
        from <= to,
        spec_new_side(old(ops)@) == spec_range(0, from as int),
        spec_matched(old(ops)@, b, a),
    ensures
        spec_new_side(final(ops)@) == spec_range(0, to as int),
        spec_old_side(final(ops)@) == spec_old_side(old(ops)@),
        spec_matched(final(ops)@, b, a),
        final(ops)@ == old(ops)@ + spec_adds(from as int, to as int),
{
    let mut k = from;
    while k < to
        invariant
            from <= k <= to,
            spec_new_side(ops@) == spec_range(0, k as int),
            spec_old_side(ops@) == spec_old_side(old(ops)@),
            spec_matched(ops@, b, a),
            ops@ == old(ops)@ + spec_adds(from as int, k as int),
        decreases to - k,
    {
        let ghost prev = ops@;
        push_op(ops, DiffOp::Add(k));
        proof {
            assert(ops@ =~= old(ops)@ + spec_adds(from as int, k + 1));
            lemma_range_push(0, k as int);
            assert forall|t: int| 0 <= t < ops@.len() implies match #[trigger] ops@[t] {
                DiffOp::Equal(i, j) => i < b.len() && j < a.len() && b[i as int] == a[j as int],
                _ => true,
            } by {
                if t < prev.len() {
                    assert(ops@[t] == prev[t]);
                }
            }
        }
        k = k + 1;
    }
}

/// Appends `Equal(bfrom + k, afrom + k)` for `k < count`.
fn push_equals(
    ops: &mut Vec<DiffOp>,
    bfrom: usize,
    afrom: usize,
    count: usize,
    Ghost(b): Ghost<Seq<(Seq<char>, bool)>>,
    Ghost(a): Ghost<Seq<(Seq<char>, bool)>>,
)
    requires
        bfrom + count <= b.len(),
        afrom + count <= a.len(),
        bfrom + count <= usize::MAX,
        afrom + count <= usize::MAX,
        forall|t: int| bfrom <= t < bfrom + count ==> #[trigger] b[t] == a[t - bfrom + afrom],
        spec_old_side(old(ops)@) == spec_range(0, bfrom as int),
        spec_new_side(old(ops)@) == spec_range(0, afrom as int),
        spec_matched(old(ops)@, b, a),
    ensures
        spec_old_side(final(ops)@) == spec_range(0, bfrom + count),
        spec_new_side(final(ops)@) == spec_range(0, afrom + count),
        spec_matched(final(ops)@, b, a),
        final(ops)@ == old(ops)@ + spec_equals(bfrom as int, afrom as int, count as int),
{
    let mut k: usize = 0;
    while k < count
        invariant
            k <= count,
            ops@ == old(ops)@ + spec_equals(bfrom as int, afrom as int, k as int),
            bfrom + count <= usize::MAX,
            afrom + count <= usize::MAX,
            bfrom + count <= b.len(),
            afrom + count <= a.len(),
            spec_old_side(ops@) == spec_range(0, bfrom + k),
            spec_new_side(ops@) == spec_range(0, afrom + k),
            spec_matched(ops@, b, a),
        decreases count - k,
    {
        let ghost prev = ops@;
        push_op(ops, DiffOp::Equal(bfrom + k, afrom + k));
        proof {
            assert(ops@ =~= old(ops)@ + spec_equals(bfrom as int, afrom as int, k + 1));
            lemma_range_push(0, bfrom + k);
            lemma_range_push(0, afrom + k);
            assert forall|t: int| 0 <= t < ops@.len() implies match #[trigger] ops@[t] {
                DiffOp::Equal(i, j) => i < b.len() && j < a.len() && b[i as int] == a[j as int],
                _ => true,
            } by {
                if t < prev.len() {
                    assert(ops@[t] == prev[t]);
                }
            }
        }
        k = k + 1;
    }
}

/// The next resynchronisation point of the linear diff: the bounded search
/// first, then the search over the whole remaining texts.
pub fn next_linear_diff_sync(b: &[DiffLine], a: &[DiffLine], bs: usize, be: usize, as_: usize, ae: usize) -> (r:
    Option<(usize, usize)>)
    requires
        bs < be <= b@.len(),
        as_ < ae <= a@.len(),
        b@.len() + a@.len() <= usize::MAX,
    ensures
        r matches Some((rc, ac)) ==> 1 <= rc + ac && rc < be - bs && ac < ae - as_ && lines_view(
            b@,
        )[bs + rc] == lines_view(a@)[as_ + ac],
        ({
            let mb = spec_window_max(be - bs, 64);
            let ma = spec_window_max(ae - as_, 64);
            let bv = lines_view(b@);
            let av = lines_view(a@);
            if exists|r2: int, a2: int| spec_bounded_sync_candidate(bv, av, bs as int, as_ as int, mb, ma, r2, a2) {
                r matches Some((rc, ac)) && spec_bounded_sync_candidate(bv, av, bs as int, as_ as int, mb, ma, rc as int, ac as int)
                    && forall|r2: int, a2: int|
                    spec_bounded_sync_candidate(bv, av, bs as int, as_ as int, mb, ma, r2, a2) ==> rc + ac < r2 + a2
                        || (rc + ac == r2 + a2 && rc <= r2)
            } else {
                match r {
                    Some((rc, ac)) => spec_index_sync_candidate(bv, av, bs as int, be as int, as_ as int, ae as int, rc as int, ac as int)
                        && forall|r2: int, a2: int|
                        spec_index_sync_candidate(bv, av, bs as int, be as int, as_ as int, ae as int, r2, a2) ==> rc + ac < r2 + a2
                            || (rc + ac == r2 + a2 && rc <= r2),
                    None => forall|r2: int, a2: int|
                        !spec_index_sync_candidate(bv, av, bs as int, be as int, as_ as int, ae as int, r2, a2),
                }
            }
        }),
{
    let ghost bv = lines_view(b@);
    let ghost av = lines_view(a@);
    match next_bounded_linear_diff_sync(b, a, bs, be, as_, ae, 64) {
        Some(found) => Some(found),
        None => {
            let r = next_index_diff_sync(b, a, bs, be, as_, ae);
            proof {
                if let Some((rc, ac)) = r {
                    lemma_first_occurrence(av, as_ as int, ae as int, bv[bs + rc]);
                }
            }
            r
        },
    }
}

/// `(removed, added)` is the least bounded resynchronisation point: the
/// smallest total distance, and on a tie the fewest removed lines.
pub open spec fn spec_least_bounded_sync(
    b: Seq<(Seq<char>, bool)>,
    a: Seq<(Seq<char>, bool)>,
    bs: int,
    as_: int,
    mb: int,
    ma: int,
    removed: int,
    added: int,
) -> bool {
    &&& spec_bounded_sync_candidate(b, a, bs, as_, mb, ma, removed, added)
    &&& forall|r2: int, a2: int|
        spec_bounded_sync_candidate(b, a, bs, as_, mb, ma, r2, a2) ==> removed + added < r2 + a2 || (removed + added
            == r2 + a2 && removed <= r2)
}

/// `(removed, added)` is the least resynchronisation point of the unbounded
/// search.
pub open spec fn spec_least_index_sync(
    b: Seq<(Seq<char>, bool)>,
    a: Seq<(Seq<char>, bool)>,
    bs: int,
    be: int,
    as_: int,
    ae: int,
    removed: int,
    added: int,
) -> bool {
    &&& spec_index_sync_candidate(b, a, bs, be, as_, ae, removed, added)
    &&& forall|r2: int, a2: int|
        spec_index_sync_candidate(b, a, bs, be, as_, ae, r2, a2) ==> removed + added < r2 + a2 || (removed + added
            == r2 + a2 && removed <= r2)
}

/// The resynchronisation point the linear diff takes at `b[bs..be]` and
/// `a[as_..ae]`: the least point within 64 lines of each start when there
/// is one, else the least point over the whole remaining texts, if any.
#[verifier::opaque]
pub open spec fn spec_linear_sync(b: Seq<(Seq<char>, bool)>, a: Seq<(Seq<char>, bool)>, bs: int, be: int, as_: int, ae: int) -> Option<
    (int, int),
> {
    let mb = spec_window_max(be - bs, 64);
    let ma = spec_window_max(ae - as_, 64);
    if exists|r: int, x: int| spec_bounded_sync_candidate(b, a, bs, as_, mb, ma, r, x) {
        if exists|r: int, x: int| spec_least_bounded_sync(b, a, bs, as_, mb, ma, r, x) {
            Some(choose|r: int, x: int| spec_least_bounded_sync(b, a, bs, as_, mb, ma, r, x))
        } else {
            None
        }
    } else if exists|r: int, x: int| spec_least_index_sync(b, a, bs, be, as_, ae, r, x) {
        Some(choose|r: int, x: int| spec_least_index_sync(b, a, bs, be, as_, ae, r, x))
    } else {
        None
    }
}

/// The length of the common prefix of `b` and `a`, counted from `p`.
pub open spec fn spec_common_prefix(b: Seq<(Seq<char>, bool)>, a: Seq<(Seq<char>, bool)>, p: int) -> int
    decreases b.len() - p,
{
    if 0 <= p && p < b.len() && p < a.len() && b[p] == a[p] {
        spec_common_prefix(b, a, p + 1)
    } else {
        p
    }
}

/// The length of the common suffix of `b` and `a` outside their first
/// `prefix` lines, counted from `s`.
pub open spec fn spec_common_suffix(b: Seq<(Seq<char>, bool)>, a: Seq<(Seq<char>, bool)>, prefix: int, s: int) -> int
    decreases b.len() - prefix - s,
{
    if 0 <= s && s < b.len() - prefix && s < a.len() - prefix && b[b.len() - 1 - s] == a[a.len() - 1 - s] {
        spec_common_suffix(b, a, prefix, s + 1)
    } else {
        s
    }
}

/// The middle of the linear script from `b[i]` and `a[j]` up to `be` and
/// `ae`: equal lines are kept; at a difference the lines up to the next
/// resynchronisation point are removed and added, or all the rest when
/// there is none.
pub open spec fn spec_linear_walk(b: Seq<(Seq<char>, bool)>, a: Seq<(Seq<char>, bool)>, i: int, j: int, be: int, ae: int) -> Seq<
    DiffOp,
>
    decreases (be - i) + (ae - j),
{
    if !(0 <= i <= be && 0 <= j <= ae) || (i == be && j == ae) {
        seq![]
    } else if i < be && j < ae && b[i] == a[j] {
        seq![DiffOp::Equal(i as usize, j as usize)] + spec_linear_walk(b, a, i + 1, j + 1, be, ae)
    } else if i == be {
        spec_adds(j, ae)
    } else if j == ae {
        spec_removes(i, be)
    } else {
        match spec_linear_sync(b, a, i, be, j, ae) {
            Some((rc, ac)) => if 0 <= rc && 0 <= ac && 1 <= rc + ac && i + rc <= be && j + ac <= ae {
                spec_removes(i, i + rc) + spec_adds(j, j + ac) + spec_linear_walk(b, a, i + rc, j + ac, be, ae)
            } else {
                seq![]
            },
            None => spec_removes(i, be) + spec_adds(j, ae),
        }
    }
}

/// The edit script of the linear diff: the common prefix and suffix kept,
/// the middle walked.
pub open spec fn spec_linear_script(b: Seq<(Seq<char>, bool)>, a: Seq<(Seq<char>, bool)>) -> Seq<DiffOp> {
    let p = spec_common_prefix(b, a, 0);
    let sfx = spec_common_suffix(b, a, p, 0);
    spec_equals(0, 0, p) + spec_linear_walk(b, a, p, p, b.len() - sfx, a.len() - sfx) + spec_equals(
        b.len() - sfx,
        a.len() - sfx,
        sfx,
    )
}

/// What the next resynchronisation search gives is the point the linear
/// walk takes.
proof fn lemma_linear_sync_is(
    b: Seq<(Seq<char>, bool)>,
    a: Seq<(Seq<char>, bool)>,
    bs: int,
    be: int,
    as_: int,
    ae: int,
    r: Option<(usize, usize)>,
)
    requires
        ({
            let mb = spec_window_max(be - bs, 64);
            let ma = spec_window_max(ae - as_, 64);
            if exists|r2: int, a2: int| spec_bounded_sync_candidate(b, a, bs, as_, mb, ma, r2, a2) {
                r matches Some((rc, ac)) && spec_least_bounded_sync(b, a, bs, as_, mb, ma, rc as int, ac as int)
            } else {
                match r {
                    Some((rc, ac)) => spec_least_index_sync(b, a, bs, be, as_, ae, rc as int, ac as int),
                    None => forall|r2: int, a2: int| !spec_index_sync_candidate(b, a, bs, be, as_, ae, r2, a2),
                }
            }
        }),
    ensures
        match r {
            Some((rc, ac)) => spec_linear_sync(b, a, bs, be, as_, ae) == Some((rc as int, ac as int)),
            None => spec_linear_sync(b, a, bs, be, as_, ae) is None,
        },
{
    reveal(spec_linear_sync);
    let mb = spec_window_max(be - bs, 64);
    let ma = spec_window_max(ae - as_, 64);
    if exists|r2: int, a2: int| spec_bounded_sync_candidate(b, a, bs, as_, mb, ma, r2, a2) {
        let (rc, ac) = r.unwrap();
        assert(spec_least_bounded_sync(b, a, bs, as_, mb, ma, rc as int, ac as int));
        let (x, y) = choose|x: int, y: int| spec_least_bounded_sync(b, a, bs, as_, mb, ma, x, y);
        assert(spec_least_bounded_sync(b, a, bs, as_, mb, ma, x, y));
        assert(spec_bounded_sync_candidate(b, a, bs, as_, mb, ma, x, y));
        assert(spec_bounded_sync_candidate(b, a, bs, as_, mb, ma, rc as int, ac as int));
    } else {
        match r {
            Some((rc, ac)) => {
                assert(spec_least_index_sync(b, a, bs, be, as_, ae, rc as int, ac as int));
                let (x, y) = choose|x: int, y: int| spec_least_index_sync(b, a, bs, be, as_, ae, x, y);
                assert(spec_least_index_sync(b, a, bs, be, as_, ae, x, y));
                assert(spec_index_sync_candidate(b, a, bs, be, as_, ae, x, y));
                assert(spec_index_sync_candidate(b, a, bs, be, as_, ae, rc as int, ac as int));
                assert(x == rc && y == ac) by {
                    assert(spec_index_sync_added(b, a, bs, as_, ae, x) == Some(y));
                }
            },
            None => {
                if exists|x: int, y: int| spec_least_index_sync(b, a, bs, be, as_, ae, x, y) {
                    let (x, y) = choose|x: int, y: int| spec_least_index_sync(b, a, bs, be, as_, ae, x, y);
                    assert(spec_index_sync_candidate(b, a, bs, be, as_, ae, x, y));
                }
            },
        }
    }
}

/// The linear edit script for texts too large for the LCS table: the common
/// prefix and suffix are kept, and the middle is walked by resynchronising on
/// the nearest equal lines.
#[verifier::rlimit(60)]
#[verifier::spinoff_prover]
pub fn linear_diff_ops(b: &[DiffLine], a: &[DiffLine]) -> (ops: Vec<DiffOp>)
    requires
        b@.len() + a@.len() <= usize::MAX,
    ensures
        spec_edit_script(ops@, lines_view(b@), lines_view(a@)),
        ops@ == spec_linear_script(lines_view(b@), lines_view(a@)),
{
    let ghost bv = lines_view(b@);
    let ghost av = lines_view(a@);
    let m = b.len();
    let n = a.len();
    let mut prefix: usize = 0;
    while prefix < m && prefix < n && same_line(&b[prefix], &a[prefix])
        invariant
            m == b@.len(),
            n == a@.len(),
            bv == lines_view(b@),
            av == lines_view(a@),
            prefix <= m,
            prefix <= n,
            forall|t: int| 0 <= t < prefix ==> #[trigger] bv[t] == av[t],
            spec_common_prefix(bv, av, 0) == spec_common_prefix(bv, av, prefix as int),
        decreases m - prefix,
    {
        assert(b@[prefix as int]@ == bv[prefix as int] && a@[prefix as int]@ == av[prefix as int]);
        prefix = prefix + 1;
    }
    proof {
        if prefix < m && prefix < n {
            assert(b@[prefix as int]@ == bv[prefix as int] && a@[prefix as int]@ == av[prefix as int]);
        }
    }
    assert(spec_common_prefix(bv, av, prefix as int) == prefix);
    let mut suffix: usize = 0;
    while suffix < m - prefix && suffix < n - prefix && same_line(&b[m - 1 - suffix], &a[n - 1 - suffix])
        invariant
            m == b@.len(),
            n == a@.len(),
            bv == lines_view(b@),
            av == lines_view(a@),
            prefix <= m,
            prefix <= n,
            suffix <= m - prefix,
            suffix <= n - prefix,
            forall|t: int| m - suffix <= t < m ==> #[trigger] bv[t] == av[t - m + n],
            spec_common_suffix(bv, av, prefix as int, 0) == spec_common_suffix(bv, av, prefix as int, suffix as int),
        decreases m - prefix - suffix,
    {
        assert(b@[m - 1 - suffix]@ == bv[m - 1 - suffix] && a@[n - 1 - suffix]@ == av[n - 1 - suffix]);
        suffix = suffix + 1;
    }
    proof {
        if suffix < m - prefix && suffix < n - prefix {
            assert(b@[m - 1 - suffix]@ == bv[m - 1 - suffix] && a@[n - 1 - suffix]@ == av[n - 1 - suffix]);
        }
    }
    assert(spec_common_suffix(bv, av, prefix as int, suffix as int) == suffix);
    let ghost target = spec_equals(0, 0, prefix as int) + spec_linear_walk(
        bv,
        av,
        prefix as int,
        prefix as int,
        m - suffix,
        n - suffix,
    );
    let before_end = m - suffix;
    let after_end = n - suffix;
    let mut ops: Vec<DiffOp> = Vec::new();
    assert(spec_old_side(ops@) =~= spec_range(0, 0));
    assert(spec_new_side(ops@) =~= spec_range(0, 0));
    push_equals(&mut ops, 0, 0, prefix, Ghost(bv), Ghost(av));
    assert(ops@ =~= spec_equals(0, 0, prefix as int));
    let mut i = prefix;
    let mut j = prefix;
    while i < before_end || j < after_end
        invariant
            m == b@.len(),
            n == a@.len(),
            bv == lines_view(b@),
            av == lines_view(a@),
            m + n <= usize::MAX,
            before_end == m - suffix,
            after_end == n - suffix,
            i <= before_end <= m,
            j <= after_end <= n,
            spec_old_side(ops@) == spec_range(0, i as int),
            spec_new_side(ops@) == spec_range(0, j as int),
            spec_matched(ops@, bv, av),
            ops@ + spec_linear_walk(bv, av, i as int, j as int, before_end as int, after_end as int) == target,
        decreases (before_end - i) + (after_end - j),
    {
        let ghost prev_ops = ops@;
        let ghost walk = spec_linear_walk(bv, av, i as int, j as int, before_end as int, after_end as int);
        if i < before_end && j < after_end && same_line(&b[i], &a[j]) {
            let ghost prev = ops@;
            assert(b@[i as int]@ == bv[i as int] && a@[j as int]@ == av[j as int]);
            push_op(&mut ops, DiffOp::Equal(i, j));
            proof {
                assert(ops@ + spec_linear_walk(bv, av, i + 1, j + 1, before_end as int, after_end as int) =~= prev_ops
                    + walk);
                lemma_range_push(0, i as int);
                lemma_range_push(0, j as int);
                assert forall|t: int| 0 <= t < ops@.len() implies match #[trigger] ops@[t] {
                    DiffOp::Equal(x, y) => x < bv.len() && y < av.len() && bv[x as int] == av[y as int],
                    _ => true,
                } by {
                    if t < prev.len() {
                        assert(ops@[t] == prev[t]);
                    }
                }
            }
            i = i + 1;
            j = j + 1;
        } else if i == before_end {
            proof {
                if i < before_end && j < after_end {
                    assert(b@[i as int]@ == bv[i as int] && a@[j as int]@ == av[j as int]);
                }
            }
            push_adds(&mut ops, j, after_end, Ghost(bv), Ghost(av));
            j = after_end;
            assert(ops@ + spec_linear_walk(bv, av, i as int, j as int, before_end as int, after_end as int) =~= prev_ops
                + walk);
        } else if j == after_end {
            push_removes(&mut ops, i, before_end, Ghost(bv), Ghost(av));
            i = before_end;
            assert(ops@ + spec_linear_walk(bv, av, i as int, j as int, before_end as int, after_end as int) =~= prev_ops
                + walk);
        } else {
            assert(b@[i as int]@ == bv[i as int] && a@[j as int]@ == av[j as int]);
            let found = next_linear_diff_sync(b, a, i, before_end, j, after_end);
            proof {
                lemma_linear_sync_is(bv, av, i as int, before_end as int, j as int, after_end as int, found);
            }
            match found {
                Some((remove_count, add_count)) => {
                    let ghost i0 = i as int;
                    let ghost j0 = j as int;
                    push_removes(&mut ops, i, i + remove_count, Ghost(bv), Ghost(av));
                    push_adds(&mut ops, j, j + add_count, Ghost(bv), Ghost(av));
                    i = i + remove_count;
                    j = j + add_count;
                    assert(walk == spec_removes(i0, i as int) + spec_adds(j0, j as int) + spec_linear_walk(
                        bv,
                        av,
                        i as int,
                        j as int,
                        before_end as int,
                        after_end as int,
                    ));
                    assert(ops@ + spec_linear_walk(bv, av, i as int, j as int, before_end as int, after_end as int)
                        =~= prev_ops + walk);
                },
                None => {
                    push_removes(&mut ops, i, before_end, Ghost(bv), Ghost(av));
                    push_adds(&mut ops, j, after_end, Ghost(bv), Ghost(av));
                    i = before_end;
                    j = after_end;
                    assert(ops@ + spec_linear_walk(bv, av, i as int, j as int, before_end as int, after_end as int)
                        =~= prev_ops + walk);
                },
            }
        }
    }
    assert(ops@ =~= target);
    push_equals(&mut ops, before_end, after_end, suffix, Ghost(bv), Ghost(av));
    assert(ops@ =~= spec_linear_script(bv, av));
    ops
}

/// The most LCS table cells the diff builds before it falls back to the
/// linear diff.
pub const MAX_LCS_CELLS: usize = 4_000_000;

/// The edit script of `b` into `a`: the LCS script when the table is small
/// enough, the linear script otherwise.
pub fn diff_ops(b: &[DiffLine], a: &[DiffLine]) -> (ops: Vec<DiffOp>)
    requires
        b@.len() + a@.len() <= usize::MAX,
    ensures
        spec_edit_script(ops@, lines_view(b@), lines_view(a@)),
        b@.len() * a@.len() <= MAX_LCS_CELLS && (b@.len() + 1) * (a@.len() + 1) <= usize::MAX
            ==> ops@ == spec_lcs_trace(lines_view(b@), lines_view(a@), 0, 0),
        ops@ == spec_diff_script(lines_view(b@), lines_view(a@)),
{
    let m = b.len();
    let n = a.len();
    let small = match m.checked_mul(n) {
        None => false,
        Some(cells) => cells <= MAX_LCS_CELLS,
    };
    if !small {
        return linear_diff_ops(b, a);
    }
    let bound = match m.checked_add(1) {
        None => None,
        Some(m1) => match n.checked_add(1) {
            None => None,
            Some(n1) => m1.checked_mul(n1),
        },
    };
    match bound {
        None => {
            proof {
                assert((m + 1) * (n + 1) > usize::MAX) by (nonlinear_arith)
                    requires
                        m + 1 > usize::MAX || n + 1 > usize::MAX || (m + 1) * (n + 1) > usize::MAX,
                ;
            }
            linear_diff_ops(b, a)
        },
        Some(_) => lcs_diff_ops(b, a),
    }
}

/// The first index at or after `start` whose step is not a kept line.
pub open spec fn spec_next_change(ops: Seq<DiffOp>, start: int) -> Option<int>
    decreases ops.len() - start,
{
    if start < 0 || start >= ops.len() {
        None
    } else if !(ops[start] is Equal) {
        Some(start)
    } else {
        spec_next_change(ops, start + 1)
    }
}

pub proof fn lemma_next_change(ops: Seq<DiffOp>, start: int)
    requires
        0 <= start,
    ensures
        spec_next_change(ops, start) matches Some(c) ==> start <= c < ops.len() && !(ops[c] is Equal),
        spec_next_change(ops, start) is None ==> forall|k: int| start <= k < ops.len() ==> #[trigger] ops[k] is Equal,
    decreases ops.len() - start,
{
    if start < ops.len() && ops[start] is Equal {
        lemma_next_change(ops, start + 1);
    }
}

/// The first change at or after `start`.
pub fn next_change(ops: &[DiffOp], start: usize) -> (r: Option<usize>)
    ensures
        match spec_next_change(ops@, start as int) {
            Some(c) => r == Some(c as usize),
            None => r is None,
        },
{
    let mut k = start;
    while k < ops.len()
        invariant
            start <= k,
            spec_next_change(ops@, k as int) == spec_next_change(ops@, start as int),
        decreases ops@.len() - k,
    {
        if !matches!(ops[k], DiffOp::Equal(_, _)) {
            return Some(k);
        }
        k = k + 1;
    }
    None
}

/// Where a hunk around a change starts: up to `context` kept lines before it.
pub open spec fn spec_hunk_start(ops: Seq<DiffOp>, start: int, taken: int, context: int) -> int
    decreases start,
{
    if start > 0 && start <= ops.len() && ops[start - 1] is Equal && taken < context {
        spec_hunk_start(ops, start - 1, taken + 1, context)
    } else {
        start
    }
}

/// Where a hunk ends: after the changes that follow with fewer than
/// `context + 1` kept lines between them, and `context` kept lines after the
/// last of them.
pub open spec fn spec_hunk_end(ops: Seq<DiffOp>, end: int, trailing: int, context: int) -> int
    decreases ops.len() - end,
{
    if end < 0 || end >= ops.len() {
        end
    } else if ops[end] is Equal {
        if trailing == context {
            end
        } else {
            spec_hunk_end(ops, end + 1, trailing + 1, context)
        }
    } else {
        spec_hunk_end(ops, end + 1, 0, context)
    }
}

pub proof fn lemma_hunk_bounds(ops: Seq<DiffOp>, end: int, trailing: int, context: int)
    requires
        0 <= end <= ops.len(),
    ensures
        end <= spec_hunk_end(ops, end, trailing, context) <= ops.len(),
    decreases ops.len() - end,
{
    if end < ops.len() {
        if ops[end] is Equal {
            if trailing != context {
                lemma_hunk_bounds(ops, end + 1, trailing + 1, context);
            }
        } else {
            lemma_hunk_bounds(ops, end + 1, 0, context);
        }
    }
}

pub proof fn lemma_hunk_start_bounds(ops: Seq<DiffOp>, start: int, taken: int, context: int)
    requires
        0 <= start <= ops.len(),
    ensures
        0 <= spec_hunk_start(ops, start, taken, context) <= start,
    decreases start,
{
    if start > 0 && ops[start - 1] is Equal && taken < context {
        lemma_hunk_start_bounds(ops, start - 1, taken + 1, context);
    }
}

/// The hunks of an edit script from `index` on, as `(start, end)` ranges of
/// steps.
pub open spec fn spec_hunks(ops: Seq<DiffOp>, index: int, context: int) -> Seq<(int, int)>
    decreases ops.len() - index,
{
    match spec_next_change(ops, index) {
        None => seq![],
        Some(change) => {
            let end = spec_hunk_end(ops, change + 1, 0, context);
            if index < 0 || change < index || end <= index || end > ops.len() {
                seq![]
            } else {
                seq![(spec_hunk_start(ops, change, 0, context), end)] + spec_hunks(ops, end, context)
            }
        },
    }
}

/// Groups the changes of an edit script into hunks with `context` kept lines
/// around them.
pub fn diff_hunks(ops: &[DiffOp], context: usize) -> (r: Vec<(usize, usize)>)
    ensures
        r@.len() == spec_hunks(ops@, 0, context as int).len(),
        forall|h: int|
            0 <= h < r@.len() ==> (#[trigger] r@[h]).0 == spec_hunks(ops@, 0, context as int)[h].0 && r@[h].1
                == spec_hunks(ops@, 0, context as int)[h].1,
        forall|h: int| 0 <= h < r@.len() ==> (#[trigger] r@[h]).0 < r@[h].1 <= ops@.len(),
{
    let _len = ops.len();
    let mut hunks: Vec<(usize, usize)> = Vec::new();
    let mut index: usize = 0;
    let ghost mut spec_done: Seq<(int, int)> = seq![];
    loop
        invariant
            index <= ops@.len(),
            hunks@.len() == spec_done.len(),
            forall|h: int|
                0 <= h < hunks@.len() ==> (#[trigger] hunks@[h]).0 == spec_done[h].0 && hunks@[h].1
                    == spec_done[h].1,
            forall|h: int| 0 <= h < hunks@.len() ==> (#[trigger] hunks@[h]).0 < hunks@[h].1 <= ops@.len(),
            spec_done + spec_hunks(ops@, index as int, context as int) == spec_hunks(ops@, 0, context as int),
        decreases ops@.len() - index,
    {
        let change = match next_change(ops, index) {
            None => {
                assert(spec_hunks(ops@, index as int, context as int) == Seq::<(int, int)>::empty());
                assert(spec_done + Seq::<(int, int)>::empty() == spec_done);
                break;
            },
            Some(c) => c,
        };
        proof {
            lemma_next_change(ops@, index as int);
        }
        let mut start = change;
        let mut context_before: usize = 0;
        while start > 0 && matches!(ops[start - 1], DiffOp::Equal(_, _)) && context_before < context
            invariant
                start <= change < ops@.len(),
                spec_hunk_start(ops@, start as int, context_before as int, context as int) == spec_hunk_start(
                    ops@,
                    change as int,
                    0,
                    context as int,
                ),
            decreases start,
        {
            start = start - 1;
            context_before = context_before + 1;
        }
        let mut end = change + 1;
        let mut trailing: usize = 0;
        while end < ops.len()
            invariant
                change < end <= ops@.len(),
                trailing <= context,
                spec_hunk_end(ops@, end as int, trailing as int, context as int) == spec_hunk_end(
                    ops@,
                    change + 1,
                    0,
                    context as int,
                ),
            decreases ops@.len() - end,
        {
            if matches!(ops[end], DiffOp::Equal(_, _)) {
                if trailing == context {
                    break;
                }
                trailing = trailing + 1;
            } else {
                trailing = 0;
            }
            end = end + 1;
        }
        proof {
            let ghost e = spec_hunk_end(ops@, change + 1, 0, context as int);
            assert(end as int == e);
            let ghost piece = seq![(spec_hunk_start(ops@, change as int, 0, context as int), e)];
            assert(spec_hunks(ops@, index as int, context as int) == piece + spec_hunks(
                ops@,
                end as int,
                context as int,
            ));
            assert(spec_done.push(piece[0]) + spec_hunks(ops@, end as int, context as int) == spec_done
                + spec_hunks(ops@, index as int, context as int));
            spec_done = spec_done.push(piece[0]);
        }
        hunks.push((start, end));
        index = end;
    }
    hunks
}

/// How many old and how many new lines an edit script walks.
pub proof fn lemma_sides_len(ops: Seq<DiffOp>)
    ensures
        spec_old_side(ops).len() <= ops.len(),
        spec_new_side(ops).len() <= ops.len(),
        ops.len() <= spec_old_side(ops).len() + spec_new_side(ops).len(),
    decreases ops.len(),
{
    if ops.len() > 0 {
        lemma_sides_len(ops.drop_last());
    }
}

/// The one-based first old line, old line count, first new line and new
/// line count of the hunk `ops[start..end]`.
pub fn hunk_ranges(ops: &[DiffOp], start: usize, end: usize) -> (r: (usize, usize, usize, usize))
    requires
        start <= end <= ops@.len(),
        ops@.len() < usize::MAX,
    ensures
        r.0 == 1 + spec_old_side(ops@.subrange(0, start as int)).len(),
        r.1 == spec_old_side(ops@.subrange(start as int, end as int)).len(),
        r.2 == 1 + spec_new_side(ops@.subrange(0, start as int)).len(),
        r.3 == spec_new_side(ops@.subrange(start as int, end as int)).len(),
{
    let mut old_line: usize = 1;
    let mut new_line: usize = 1;
    let mut k: usize = 0;
    while k < start
        invariant
            k <= start <= end <= ops@.len() < usize::MAX,
            old_line == 1 + spec_old_side(ops@.subrange(0, k as int)).len(),
            new_line == 1 + spec_new_side(ops@.subrange(0, k as int)).len(),
        decreases start - k,
    {
        proof {
            assert(ops@.subrange(0, k + 1).drop_last() == ops@.subrange(0, k as int));
            lemma_sides_len(ops@.subrange(0, k as int));
        }
        match ops[k] {
            DiffOp::Equal(_, _) => {
                old_line = old_line + 1;
                new_line = new_line + 1;
            },
            DiffOp::Remove(_) => {
                old_line = old_line + 1;
            },
            DiffOp::Add(_) => {
                new_line = new_line + 1;
            },
        }
        k = k + 1;
    }
    let mut old_count: usize = 0;
    let mut new_count: usize = 0;
    let mut k: usize = start;
    assert(ops@.subrange(start as int, start as int) == Seq::<DiffOp>::empty());
    while k < end
        invariant
            start <= k <= end <= ops@.len() < usize::MAX,
            old_count == spec_old_side(ops@.subrange(start as int, k as int)).len(),
            new_count == spec_new_side(ops@.subrange(start as int, k as int)).len(),
        decreases end - k,
    {
        proof {
            assert(ops@.subrange(start as int, k + 1).drop_last() == ops@.subrange(start as int, k as int));
            lemma_sides_len(ops@.subrange(start as int, k as int));
        }
        match ops[k] {
            DiffOp::Equal(_, _) => {
                old_count = old_count + 1;
                new_count = new_count + 1;
            },
            DiffOp::Remove(_) => {
                old_count = old_count + 1;
            },
            DiffOp::Add(_) => {
                new_count = new_count + 1;
            },
        }
        k = k + 1;
    }
    (old_line, old_count, new_line, new_count)
}

/// A unified diff range: `start,0`, `start`, or `start,count`.
pub open spec fn spec_unified_range(start: nat, count: nat) -> Seq<char> {
    if count == 0 {
        spec_decimal(start) + seq![',', '0']
    } else if count == 1 {
        spec_decimal(start)
    } else {
        spec_decimal(start) + seq![','] + spec_decimal(count)
    }
}

/// Renders a unified diff range.
pub fn unified_range(start: usize, count: usize) -> (r: Vec<char>)
    ensures
        r@ == spec_unified_range(start as nat, count as nat),
{
    let mut out: Vec<char> = Vec::new();
    push_decimal(&mut out, start);
    if count == 0 {
        out.push(',');
        out.push('0');
    } else if count > 1 {
        out.push(',');
        push_decimal(&mut out, count);
    }
    out
}

/// The marker line printed after a line that had no line ending.
pub open spec fn spec_no_newline_marker() -> Seq<char> {
    seq![
        '\\', ' ', 'N', 'o', ' ', 'n', 'e', 'w', 'l', 'i', 'n', 'e', ' ', 'a', 't', ' ', 'e', 'n',
        'd', ' ', 'o', 'f', ' ', 'f', 'i', 'l', 'e', '\n'
    ]
}

/// One diff line: the prefix, the text and a newline, then the marker when
/// the line had no line ending.
pub open spec fn spec_diff_line(prefix: char, line: (Seq<char>, bool)) -> Seq<char> {
    seq![prefix] + line.0 + seq!['\n'] + if line.1 {
        seq![]
    } else {
        spec_no_newline_marker()
    }
}

/// Appends one diff line to `out`.
pub fn push_diff_line(out: &mut Vec<char>, prefix: char, line: &DiffLine)
    ensures
        final(out)@ == old(out)@ + spec_diff_line(prefix, line@),
{
    out.push(prefix);
    push_all(out, line.text.as_slice());
    out.push('\n');
    if !line.has_line_ending {
        let marker = vec![
            '\\', ' ', 'N', 'o', ' ', 'n', 'e', 'w', 'l', 'i', 'n', 'e', ' ', 'a', 't', ' ', 'e', 'n',
            'd', ' ', 'o', 'f', ' ', 'f', 'i', 'l', 'e', '\n'
        ];
        push_all(out, marker.as_slice());
        assert(marker@ == spec_no_newline_marker());
    } else {
        assert(seq![prefix] + line@.0 + seq!['\n'] + Seq::<char>::empty() == seq![prefix] + line@.0 + seq!['\n']);
    }
}

/// The rendering of one step of an edit script.
pub open spec fn spec_render_op(op: DiffOp, b: Seq<(Seq<char>, bool)>, a: Seq<(Seq<char>, bool)>) -> Seq<char> {
    match op {
        DiffOp::Equal(i, _) => spec_diff_line(' ', b[i as int]),
        DiffOp::Remove(i) => spec_diff_line('-', b[i as int]),
        DiffOp::Add(j) => spec_diff_line('+', a[j as int]),
    }
}

/// The rendering of a run of steps.
pub open spec fn spec_render_ops(ops: Seq<DiffOp>, b: Seq<(Seq<char>, bool)>, a: Seq<(Seq<char>, bool)>) -> Seq<char>
    decreases ops.len(),
{
    if ops.len() == 0 {
        seq![]
    } else {
        spec_render_ops(ops.drop_last(), b, a) + spec_render_op(ops.last(), b, a)
    }
}

/// The header line of a hunk.
pub open spec fn spec_hunk_header(ops: Seq<DiffOp>, start: int, end: int) -> Seq<char> {
    seq!['@', '@', ' ', '-'] + spec_unified_range(
        1 + spec_old_side(ops.subrange(0, start)).len(),
        spec_old_side(ops.subrange(start, end)).len(),
    ) + seq![' ', '+'] + spec_unified_range(
        1 + spec_new_side(ops.subrange(0, start)).len(),
        spec_new_side(ops.subrange(start, end)).len(),
    ) + seq![' ', '@', '@', '\n']
}

/// The rendering of the hunks `hunks` of `ops`.
pub open spec fn spec_render_hunks(
    ops: Seq<DiffOp>,
    hunks: Seq<(int, int)>,
    b: Seq<(Seq<char>, bool)>,
    a: Seq<(Seq<char>, bool)>,
) -> Seq<char>
    decreases hunks.len(),
{
    if hunks.len() == 0 {
        seq![]
    } else {
        let h = hunks.last();
        spec_render_hunks(ops, hunks.drop_last(), b, a) + spec_hunk_header(ops, h.0, h.1) + spec_render_ops(
            ops.subrange(h.0, h.1),
            b,
            a,
        )
    }
}

/// A unified diff of `b` into `a` along the edit script `ops`, under the
/// header naming `path`, with three lines of context.
pub open spec fn spec_unified_diff(
    path: Seq<char>,
    ops: Seq<DiffOp>,
    b: Seq<(Seq<char>, bool)>,
    a: Seq<(Seq<char>, bool)>,
) -> Seq<char> {
    seq!['-', '-', '-', ' '] + path + seq!['\n', '+', '+', '+', ' '] + path + seq!['\n'] + spec_render_hunks(
        ops,
        spec_hunks(ops, 0, 3),
        b,
        a,
    )
}

/// Appends the rendering of `ops[start..end]`.
fn push_ops(out: &mut Vec<char>, ops: &[DiffOp], start: usize, end: usize, b: &[DiffLine], a: &[DiffLine])
    requires
        start <= end <= ops@.len(),
        forall|k: int| 0 <= k < ops@.len() ==> match #[trigger] ops@[k] {
            DiffOp::Equal(i, _) => i < b@.len(),
            DiffOp::Remove(i) => i < b@.len(),
            DiffOp::Add(j) => j < a@.len(),
        },
    ensures
        final(out)@ == old(out)@ + spec_render_ops(ops@.subrange(start as int, end as int), lines_view(b@), lines_view(a@)),
{
    let mut k = start;
    assert(ops@.subrange(start as int, start as int) == Seq::<DiffOp>::empty());
    while k < end
        invariant
            start <= k <= end <= ops@.len(),
            forall|k2: int| 0 <= k2 < ops@.len() ==> match #[trigger] ops@[k2] {
                DiffOp::Equal(i, _) => i < b@.len(),
                DiffOp::Remove(i) => i < b@.len(),
                DiffOp::Add(j) => j < a@.len(),
            },
            out@ == old(out)@ + spec_render_ops(ops@.subrange(start as int, k as int), lines_view(b@), lines_view(a@)),
        decreases end - k,
    {
        proof {
            assert(ops@.subrange(start as int, k + 1).drop_last() == ops@.subrange(start as int, k as int));
            assert(ops@.subrange(start as int, k + 1).last() == ops@[k as int]);
        }
        let op = ops[k];
        match op {
            DiffOp::Equal(i, _) => {
                assert(b@[i as int]@ == lines_view(b@)[i as int]);
                push_diff_line(out, ' ', &b[i]);
            },
            DiffOp::Remove(i) => {
                assert(b@[i as int]@ == lines_view(b@)[i as int]);
                push_diff_line(out, '-', &b[i]);
            },
            DiffOp::Add(j) => {
                assert(a@[j as int]@ == lines_view(a@)[j as int]);
                push_diff_line(out, '+', &a[j]);
            },
        }
        k = k + 1;
    }
}

/// Each old or new line index of a step occurs in the side it walks.
pub proof fn lemma_side_contains(ops: Seq<DiffOp>, k: int)
    requires
        0 <= k < ops.len(),
    ensures
        match ops[k] {
            DiffOp::Equal(i, j) => spec_old_side(ops).contains(i as int) && spec_new_side(ops).contains(j as int),
            DiffOp::Remove(i) => spec_old_side(ops).contains(i as int),
            DiffOp::Add(j) => spec_new_side(ops).contains(j as int),
        },
    decreases ops.len(),
{
    let rest = ops.drop_last();
    if k < ops.len() - 1 {
        lemma_side_contains(rest, k);
        assert(rest[k] == ops[k]);
        match ops[k] {
            DiffOp::Equal(i, j) => {
                let w = choose|w: int| 0 <= w < spec_old_side(rest).len() && spec_old_side(rest)[w] == i as int;
                assert(spec_old_side(ops)[w] == i as int);
                let w2 = choose|w2: int| 0 <= w2 < spec_new_side(rest).len() && spec_new_side(rest)[w2] == j as int;
                assert(spec_new_side(ops)[w2] == j as int);
            },
            DiffOp::Remove(i) => {
                let w = choose|w: int| 0 <= w < spec_old_side(rest).len() && spec_old_side(rest)[w] == i as int;
                assert(spec_old_side(ops)[w] == i as int);
            },
            DiffOp::Add(j) => {
                let w2 = choose|w2: int| 0 <= w2 < spec_new_side(rest).len() && spec_new_side(rest)[w2] == j as int;
                assert(spec_new_side(ops)[w2] == j as int);
            },
        }
    } else {
        match ops[k] {
            DiffOp::Equal(i, j) => {
                assert(spec_old_side(ops)[spec_old_side(ops).len() - 1] == i as int);
                assert(spec_new_side(ops)[spec_new_side(ops).len() - 1] == j as int);
            },
            DiffOp::Remove(i) => {
                assert(spec_old_side(ops)[spec_old_side(ops).len() - 1] == i as int);
            },
            DiffOp::Add(j) => {
                assert(spec_new_side(ops)[spec_new_side(ops).len() - 1] == j as int);
            },
        }
    }
}

/// The steps of an edit script name only lines of the two texts.
pub proof fn lemma_edit_script_bounds(ops: Seq<DiffOp>, b: Seq<(Seq<char>, bool)>, a: Seq<(Seq<char>, bool)>)
    requires
        spec_edit_script(ops, b, a),
    ensures
        forall|k: int| 0 <= k < ops.len() ==> match #[trigger] ops[k] {
            DiffOp::Equal(i, _) => i < b.len(),
            DiffOp::Remove(i) => i < b.len(),
            DiffOp::Add(j) => j < a.len(),
        },
        ops.len() <= b.len() + a.len(),
{
    lemma_sides_len(ops);
    assert forall|k: int| 0 <= k < ops.len() implies match #[trigger] ops[k] {
        DiffOp::Equal(i, _) => i < b.len(),
        DiffOp::Remove(i) => i < b.len(),
        DiffOp::Add(j) => j < a.len(),
    } by {
        lemma_side_contains(ops, k);
    }
}

pub proof fn lemma_diff_lines_len(s: Seq<char>, start: int, i: int)
    requires
        0 <= start <= i,
    ensures
        spec_diff_lines(s, start, i).len() <= if start < s.len() { s.len() - start } else { 0 },
    decreases s.len() - i,
{
    if i < s.len() {
        if s[i] == '\n' {
            lemma_diff_lines_len(s, i + 1, i + 1);
        } else if s[i] == '\r' {
            let next = if i + 1 < s.len() && s[i + 1] == '\n' {
                i + 2
            } else {
                i + 1
            };
            lemma_diff_lines_len(s, next, next);
        } else {
            lemma_diff_lines_len(s, start, i + 1);
        }
    }
}

/// Appends the header line of the hunk `ops[start..end]`.
fn push_hunk_header(out: &mut Vec<char>, ops: &[DiffOp], start: usize, end: usize)
    requires
        start <= end <= ops@.len(),
        ops@.len() < usize::MAX,
    ensures
        final(out)@ == old(out)@ + spec_hunk_header(ops@, start as int, end as int),
{
    let (old_start, old_count, new_start, new_count) = hunk_ranges(ops, start, end);
    out.push('@');
    out.push('@');
    out.push(' ');
    out.push('-');
    let old_range = unified_range(old_start, old_count);
    push_all(out, old_range.as_slice());
    out.push(' ');
    out.push('+');
    let new_range = unified_range(new_start, new_count);
    push_all(out, new_range.as_slice());
    out.push(' ');
    out.push('@');
    out.push('@');
    out.push('\n');
}

/// Appends every hunk of `ops`, with three lines of context.
fn push_hunks(out: &mut Vec<char>, ops: &[DiffOp], before_lines: &[DiffLine], after_lines: &[DiffLine])
    requires
        ops@.len() < usize::MAX,
        forall|k: int| 0 <= k < ops@.len() ==> match #[trigger] ops@[k] {
            DiffOp::Equal(i, _) => i < before_lines@.len(),
            DiffOp::Remove(i) => i < before_lines@.len(),
            DiffOp::Add(j) => j < after_lines@.len(),
        },
    ensures
        final(out)@ == old(out)@ + spec_render_hunks(
            ops@,
            spec_hunks(ops@, 0, 3),
            lines_view(before_lines@),
            lines_view(after_lines@),
        ),
{
    let ghost b = lines_view(before_lines@);
    let ghost a = lines_view(after_lines@);
    let ghost header = old(out)@;
    let hunks = diff_hunks(ops, 3);
    let ghost all = spec_hunks(ops@, 0, 3);
    let mut h: usize = 0;
    assert(all.subrange(0, 0) == Seq::<(int, int)>::empty());
    assert(out@ == header + spec_render_hunks(ops@, all.subrange(0, 0), b, a));
    while h < hunks.len()
        invariant
            h <= hunks@.len(),
            hunks@.len() == all.len(),
            forall|x: int|
                0 <= x < hunks@.len() ==> (#[trigger] hunks@[x]).0 == all[x].0 && hunks@[x].1 == all[x].1,
            forall|x: int| 0 <= x < hunks@.len() ==> (#[trigger] hunks@[x]).0 < hunks@[x].1 <= ops@.len(),
            out@ == header + spec_render_hunks(ops@, all.subrange(0, h as int), b, a),
        decreases hunks@.len() - h,
    {
        let (start, end) = hunks[h];
        push_hunk_header(out, ops, start, end);
        push_ops(out, ops, start, end, before_lines, after_lines);
        proof {
            let next = all.subrange(0, h + 1);
            assert(next.drop_last() == all.subrange(0, h as int));
            assert(next.last() == (start as int, end as int));
        }
        h = h + 1;
    }
    assert(all.subrange(0, hunks@.len() as int) == all);
}

/// The edit script the diff takes: the LCS script when the LCS table is
/// small enough, the linear script otherwise.
pub open spec fn spec_diff_script(b: Seq<(Seq<char>, bool)>, a: Seq<(Seq<char>, bool)>) -> Seq<DiffOp> {
    if b.len() * a.len() <= MAX_LCS_CELLS && (b.len() + 1) * (a.len() + 1) <= usize::MAX {
        spec_lcs_trace(b, a, 0, 0)
    } else {
        spec_linear_script(b, a)
    }
}

/// `ops` is the edit script the diff takes.
pub open spec fn spec_is_diff_script(ops: Seq<DiffOp>, b: Seq<(Seq<char>, bool)>, a: Seq<(Seq<char>, bool)>) -> bool {
    ops == spec_diff_script(b, a)
}

/// A unified diff of `before` into `after` under the header naming `path`,
/// with three lines of context around each change.
pub fn simple_diff(path: &[char], before: &[char], after: &[char]) -> (r: Vec<char>)
    requires
        before@.len() + after@.len() < usize::MAX,
    ensures
        exists|ops: Seq<DiffOp>|
            #[trigger] spec_edit_script(ops, spec_diff_lines(before@, 0, 0), spec_diff_lines(after@, 0, 0))
                && spec_is_diff_script(ops, spec_diff_lines(before@, 0, 0), spec_diff_lines(after@, 0, 0))
                && r@ == spec_unified_diff(path@, ops, spec_diff_lines(before@, 0, 0), spec_diff_lines(after@, 0, 0)),
{
    let mut out: Vec<char> = Vec::new();
    out.push('-');
    out.push('-');
    out.push('-');
    out.push(' ');
    push_all(&mut out, path);
    out.push('\n');
    out.push('+');
    out.push('+');
    out.push('+');
    out.push(' ');
    push_all(&mut out, path);
    out.push('\n');
    let ghost header = out@;
    assert(header == seq!['-', '-', '-', ' '] + path@ + seq!['\n', '+', '+', '+', ' '] + path@ + seq!['\n']);
    let before_lines = diff_lines(before);
    let after_lines = diff_lines(after);
    let ghost b = lines_view(before_lines@);
    let ghost a = lines_view(after_lines@);
    proof {
        lemma_diff_lines_len(before@, 0, 0);
        lemma_diff_lines_len(after@, 0, 0);
    }
    let ops = diff_ops(before_lines.as_slice(), after_lines.as_slice());
    proof {
        lemma_edit_script_bounds(ops@, b, a);
    }
    push_hunks(&mut out, ops.as_slice(), before_lines.as_slice(), after_lines.as_slice());
    out
}


/// The outcome of formatting one source text.
#[derive(Debug, Clone)]
pub struct FormattedSource {
    pub output: String,
    pub changed: bool,
    pub diagnostics: Vec<Diagnostic>,
}

/// What a run does with a changed file.
#[derive(Debug, Clone, Copy, PartialEq, Eq)]
pub enum FormatMode {
    Write,
    Check,
    Diff,
}

/// The file counts of a run.
#[derive(Debug, Clone)]
pub struct FormatSummary {
    pub scanned: usize,
    pub formatted: usize,
    pub unchanged: usize,
    pub skipped: usize,
    pub failed: usize,
}

impl Default for FormatSummary {
    fn default() -> (r: Self)
        ensures
            r.scanned == 0 && r.formatted == 0 && r.unchanged == 0 && r.skipped == 0 && r.failed == 0,
    {
        FormatSummary { scanned: 0, formatted: 0, unchanged: 0, skipped: 0, failed: 0 }
    }
}

/// `N files scanned, N formatted, N unchanged, N skipped, N failed`.
pub open spec fn spec_summary_line(s: FormatSummary) -> Seq<char> {
    spec_decimal(s.scanned as nat) + seq![' ', 'f', 'i', 'l', 'e', 's', ' ', 's', 'c', 'a', 'n', 'n', 'e', 'd', ',', ' ']
        + spec_decimal(s.formatted as nat) + seq![' ', 'f', 'o', 'r', 'm', 'a', 't', 't', 'e', 'd', ',', ' ']
        + spec_decimal(s.unchanged as nat) + seq![' ', 'u', 'n', 'c', 'h', 'a', 'n', 'g', 'e', 'd', ',', ' ']
        + spec_decimal(s.skipped as nat) + seq![' ', 's', 'k', 'i', 'p', 'p', 'e', 'd', ',', ' ']
        + spec_decimal(s.failed as nat) + seq![' ', 'f', 'a', 'i', 'l', 'e', 'd']
}

impl FormatSummary {
    /// The one-line summary of the counts.
    pub fn render(&self) -> (r: String)
        ensures
            r@ == spec_summary_line(*self),
    {
        let mut out: Vec<char> = Vec::new();
        push_decimal(&mut out, self.scanned);
        let w1 = vec![' ', 'f', 'i', 'l', 'e', 's', ' ', 's', 'c', 'a', 'n', 'n', 'e', 'd', ',', ' '];
        push_all(&mut out, w1.as_slice());
        push_decimal(&mut out, self.formatted);
        let w2 = vec![' ', 'f', 'o', 'r', 'm', 'a', 't', 't', 'e', 'd', ',', ' '];
        push_all(&mut out, w2.as_slice());
        push_decimal(&mut out, self.unchanged);
        let w3 = vec![' ', 'u', 'n', 'c', 'h', 'a', 'n', 'g', 'e', 'd', ',', ' '];
        push_all(&mut out, w3.as_slice());
        push_decimal(&mut out, self.skipped);
        let w4 = vec![' ', 's', 'k', 'i', 'p', 'p', 'e', 'd', ',', ' '];
        push_all(&mut out, w4.as_slice());
        push_decimal(&mut out, self.failed);
        let w5 = vec![' ', 'f', 'a', 'i', 'l', 'e', 'd'];
        push_all(&mut out, w5.as_slice());
        chars_to_string(out.as_slice())
    }
}

/// The summary, unified diffs and diagnostics of a run.
#[derive(Debug, Clone)]
pub struct FormatRun {
    pub summary: FormatSummary,
    pub diffs: Vec<String>,
    pub diagnostics: Vec<Diagnostic>,
}

impl Default for FormatRun {
    fn default() -> (r: Self)
        ensures
            r.summary.scanned == 0 && r.summary.formatted == 0 && r.summary.unchanged == 0
                && r.summary.skipped == 0 && r.summary.failed == 0,
            r.diffs@.len() == 0,
            r.diagnostics@.len() == 0,
    {
        FormatRun { summary: FormatSummary::default(), diffs: Vec::new(), diagnostics: Vec::new() }
    }
}

/// The order of severities in sorted diagnostics: errors first.
pub open spec fn spec_severity_order(severity: Severity) -> u8 {
    match severity {
        Severity::Error => 0,
        Severity::Note => 1,
    }
}

/// Whether file bytes start with a UTF-16 byte-order mark, in either
/// byte order; such files are refused.
pub open spec fn spec_utf16_bom(bytes: Seq<u8>) -> bool {
    bytes.len() >= 2 && ((bytes[0] == 0xff && bytes[1] == 0xfe) || (bytes[0] == 0xfe && bytes[1] == 0xff))
}

pub fn has_utf16_bom(bytes: &[u8]) -> (r: bool)
    ensures
        r == spec_utf16_bom(bytes@),
{
    bytes.len() >= 2 && ((bytes[0] == 0xff && bytes[1] == 0xfe) || (bytes[0] == 0xfe && bytes[1] == 0xff))
}

pub fn severity_order(severity: &Severity) -> (r: u8)
    ensures
        r == spec_severity_order(*severity),
{
    match severity {
        Severity::Error => 0,
        Severity::Note => 1,
    }
}

/// What formatting one file came to.
#[derive(Debug, Clone)]
pub enum FileFormatResult {
    Skipped,
    Failed(Diagnostic),
    Unchanged { diagnostics: Vec<Diagnostic> },
    Changed { diagnostics: Vec<Diagnostic>, output: String, diff_input: Option<String> },
}

/// The outcome for the file at `path`, the `index`-th candidate of a run.
#[derive(Debug, Clone)]
pub struct IndexedOutcome {
    pub index: usize,
    pub path: String,
    pub result: FileFormatResult,
}

/// A changed file's new text, to be written to `path`.
#[derive(Debug, Clone)]
pub struct WriteRequest {
    pub path: String,
    pub output: String,
}

/// Appends all of `extra` to `diagnostics`.
fn extend_diagnostics(diagnostics: &mut Vec<Diagnostic>, extra: Vec<Diagnostic>)
    ensures
        final(diagnostics)@ == old(diagnostics)@ + extra@,
{
    let mut extra = extra;
    let ghost whole = extra@;
    let ghost start = diagnostics@;
    diagnostics.append(&mut extra);
    assert(diagnostics@ == start + whole);
}

/// In `Diff` mode a changed file keeps its input, and the texts fit the
/// machine's sizes.
pub open spec fn spec_diff_input_kept(outcome: IndexedOutcome, mode: FormatMode) -> bool {
    match outcome.result {
        FileFormatResult::Changed { diff_input, output, .. } => mode == FormatMode::Diff ==> match diff_input {
            Some(input) => outcome.path@.len() + input@.len() + output@.len() < usize::MAX,
            None => false,
        },
        _ => true,
    }
}

/// Counts one file's outcome into the run. A changed file's diff is added in
/// `Diff` mode; in `Write` mode its new text is handed back for writing.
pub fn apply_format_outcome(run: &mut FormatRun, outcome: IndexedOutcome, mode: FormatMode) -> (r: Option<WriteRequest>)
    requires
        spec_diff_input_kept(outcome, mode),
        old(run).summary.skipped < usize::MAX,
        old(run).summary.failed < usize::MAX,
        old(run).summary.unchanged < usize::MAX,
        old(run).summary.formatted < usize::MAX,
    ensures
        final(run).summary.scanned == old(run).summary.scanned,
        final(run).summary.skipped == old(run).summary.skipped + if outcome.result is Skipped { 1int } else { 0 },
        final(run).summary.failed == old(run).summary.failed + if outcome.result is Failed { 1int } else { 0 },
        final(run).summary.unchanged == old(run).summary.unchanged + if outcome.result is Unchanged { 1int } else { 0 },
        final(run).summary.formatted == old(run).summary.formatted + if outcome.result is Changed { 1int } else { 0 },
        match outcome.result {
            FileFormatResult::Skipped => final(run).diagnostics@ == old(run).diagnostics@,
            FileFormatResult::Failed(d) => final(run).diagnostics@ == old(run).diagnostics@.push(d),
            FileFormatResult::Unchanged { diagnostics } => final(run).diagnostics@ == old(run).diagnostics@ + diagnostics@,
            FileFormatResult::Changed { diagnostics, .. } => final(run).diagnostics@ == old(run).diagnostics@ + diagnostics@,
        },
        match outcome.result {
            FileFormatResult::Changed { output, diff_input, .. } => {
                &&& (mode == FormatMode::Write <==> r is Some)
                &&& (r matches Some(w) ==> w.path@ == outcome.path@ && w.output@ == output@)
                &&& (mode == FormatMode::Diff ==> final(run).diffs@.len() == old(run).diffs@.len() + 1
                    && final(run).diffs@.subrange(0, old(run).diffs@.len() as int) == old(run).diffs@
                    && exists|ops: Seq<DiffOp>|
                    #[trigger] spec_edit_script(ops, spec_diff_lines(diff_input->0@, 0, 0), spec_diff_lines(output@, 0, 0))
                        && spec_is_diff_script(ops, spec_diff_lines(diff_input->0@, 0, 0), spec_diff_lines(output@, 0, 0))
                        && final(run).diffs@.last()@ == spec_unified_diff(
                        outcome.path@,
                        ops,
                        spec_diff_lines(diff_input->0@, 0, 0),
                        spec_diff_lines(output@, 0, 0),
                    ))
                &&& (mode != FormatMode::Diff ==> final(run).diffs@ == old(run).diffs@)
            },
            _ => r is None && final(run).diffs@ == old(run).diffs@,
        },
{
    let IndexedOutcome { index: _, path, result } = outcome;
    match result {
        FileFormatResult::Skipped => {
            run.summary.skipped = run.summary.skipped + 1;
            None
        },
        FileFormatResult::Failed(diagnostic) => {
            run.summary.failed = run.summary.failed + 1;
            run.diagnostics.push(diagnostic);
            None
        },
        FileFormatResult::Unchanged { diagnostics } => {
            extend_diagnostics(&mut run.diagnostics, diagnostics);
            run.summary.unchanged = run.summary.unchanged + 1;
            None
        },
        FileFormatResult::Changed { diagnostics, output, diff_input } => {
            extend_diagnostics(&mut run.diagnostics, diagnostics);
            run.summary.formatted = run.summary.formatted + 1;
            match mode {
                FormatMode::Write => Some(WriteRequest { path, output }),
                FormatMode::Check => None,
                FormatMode::Diff => {
                    let input = match diff_input {
                        Some(input) => input,
                        None => {
                            return None;
                        },
                    };
                    let path_chars = str_chars(path.as_str());
                    let before = str_chars(input.as_str());
                    let after = str_chars(output.as_str());
                    let diff = simple_diff(path_chars.as_slice(), before.as_slice(), after.as_slice());
                    run.diffs.push(chars_to_string(diff.as_slice()));
                    None
                },
            }
        },
    }
}

} // verus!
