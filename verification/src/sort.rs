//! Putting row numbers in order: a stable merge sort, and what it means for a list of row
//! numbers to be the ordered selection of a table's rows.

use vstd::prelude::*;

use crate::filter::{SortDir, SortState};

verus! {

/// A table whose rows compare.
pub trait Rows {
    spec fn row_count(&self) -> nat;

    /// Negative, zero or positive as row `i` sorts before, level with or after row `j`.
    spec fn row_sign(&self, i: int, j: int) -> int;

    proof fn row_sign_antisymmetric(&self, i: int, j: int)
        ensures
            self.row_sign(i, j) == -self.row_sign(j, i),
    ;

    proof fn row_sign_transitive(&self, i: int, j: int, k: int)
        requires
            self.row_sign(i, j) <= 0,
            self.row_sign(j, k) <= 0,
        ensures
            self.row_sign(i, k) <= 0,
            self.row_sign(i, j) < 0 || self.row_sign(j, k) < 0 ==> self.row_sign(i, k) < 0,
    ;

    /// Tells whether row `i` sorts after row `j`.
    fn goes_after(&self, i: usize, j: usize) -> (after: bool)
        requires
            i < self.row_count(),
            j < self.row_count(),
        ensures
            after == (self.row_sign(i as int, j as int) > 0),
    ;
}

/// Row `i` comes before row `j` in a stable sort: it sorts before it, or level with it and has
/// the lower number.
pub open spec fn stable_before(sign: int, i: int, j: int) -> bool {
    sign < 0 || (sign == 0 && i < j)
}

/// Row `i` is listed before row `j` under a sort, where `sign` is how they compare in its column:
/// in the stable order, in that order turned round, or, without a column, by row number.
pub open spec fn listed_before(sort: SortState, sign: int, i: int, j: int) -> bool {
    match sort.col {
        None => i < j,
        Some(_) => match sort.dir {
            SortDir::Asc => stable_before(sign, i, j),
            SortDir::Desc => stable_before(-sign, j, i),
        },
    }
}

/// `list` holds exactly the row numbers below `n` that are shown, and stands in order: every row
/// is listed before all that follow it.
pub open spec fn is_listing(
    list: Seq<usize>,
    n: nat,
    shown: spec_fn(int) -> bool,
    before: spec_fn(int, int) -> bool,
) -> bool {
    &&& forall|x: usize| #[trigger] list.contains(x) <==> x < n && shown(x as int)
    &&& forall|p: int, q: int|
        0 <= p < q < list.len() ==> before(#[trigger] list[p] as int, #[trigger] list[q] as int)
}

/// There is one way only to list the shown rows in order.
pub proof fn listing_is_unique(
    a: Seq<usize>,
    b: Seq<usize>,
    n: nat,
    shown: spec_fn(int) -> bool,
    before: spec_fn(int, int) -> bool,
)
    requires
        is_listing(a, n, shown, before),
        is_listing(b, n, shown, before),
        forall|i: int, j: int| #[trigger] before(i, j) ==> !before(j, i),
    ensures
        a == b,
    decreases a.len(),
{
    if a.len() == 0 {
        if b.len() > 0 {
            assert(b.contains(b[0]));
            assert(a.contains(b[0]));
        }
        assert(a =~= b);
    } else {
        assert(a.contains(a[0]));
        assert(b.contains(a[0]));
        let q = choose|q: int| 0 <= q < b.len() && b[q] == a[0];
        assert(b.contains(b[0]));
        assert(a.contains(b[0]));
        let p = choose|p: int| 0 <= p < a.len() && a[p] == b[0];
        if q > 0 {
            assert(before(b[0] as int, b[q] as int));
            assert(p > 0 ==> before(a[0] as int, a[p] as int));
            assert(!before(a[0] as int, a[0] as int));
        }
        assert(a[0] == b[0]);
        let x = a[0];
        let rest = |i: int| shown(i) && i != x as int;
        lemma_listing_tail(a, n, shown, before);
        lemma_listing_tail(b, n, shown, before);
        listing_is_unique(a.drop_first(), b.drop_first(), n, rest, before);
        assert(a =~= seq![x] + a.drop_first());
        assert(b =~= seq![x] + b.drop_first());
    }
}

proof fn lemma_listing_tail(
    list: Seq<usize>,
    n: nat,
    shown: spec_fn(int) -> bool,
    before: spec_fn(int, int) -> bool,
)
    requires
        is_listing(list, n, shown, before),
        list.len() > 0,
        forall|i: int, j: int| #[trigger] before(i, j) ==> !before(j, i),
    ensures
        is_listing(list.drop_first(), n, |i: int| shown(i) && i != list[0] as int, before),
{
    let tail = list.drop_first();
    assert forall|x: usize| #[trigger] tail.contains(x) <==> x < n && shown(x as int) && x
        != list[0] by {
        if tail.contains(x) {
            let k = choose|k: int| 0 <= k < tail.len() && tail[k] == x;
            assert(list[k + 1] == x);
            assert(list.contains(x));
            assert(before(list[0] as int, list[k + 1] as int));
        }
        if x < n && shown(x as int) && x != list[0] {
            assert(list.contains(x));
            let k = choose|k: int| 0 <= k < list.len() && list[k] == x;
            assert(tail[k - 1] == x);
        }
    }
}

/// The rows in `list` stand in the order that a stable sort gives them.
pub open spec fn sorted_rows<R: Rows>(rows: &R, list: Seq<usize>) -> bool {
    forall|p: int, q: int|
        0 <= p < q < list.len() ==> stable_before(
            rows.row_sign(#[trigger] list[p] as int, #[trigger] list[q] as int),
            list[p] as int,
            list[q] as int,
        )
}

/// The row numbers in `list` are row numbers of the table.
pub open spec fn all_rows<R: Rows>(rows: &R, list: Seq<usize>) -> bool {
    forall|p: int| 0 <= p < list.len() ==> (#[trigger] list[p]) < rows.row_count()
}

/// The row numbers in `list` go up.
pub open spec fn ascending(list: Seq<usize>) -> bool {
    forall|p: int, q: int| 0 <= p < q < list.len() ==> #[trigger] list[p] < #[trigger] list[q]
}

/// The two lists hold the same row numbers.
pub open spec fn same_rows(a: Seq<usize>, b: Seq<usize>) -> bool {
    &&& a.len() == b.len()
    &&& forall|x: usize| #[trigger] a.contains(x) <==> b.contains(x)
}

proof fn lemma_stable_before_transitive<R: Rows>(rows: &R, i: int, j: int, k: int)
    requires
        stable_before(rows.row_sign(i, j), i, j),
        stable_before(rows.row_sign(j, k), j, k),
    ensures
        stable_before(rows.row_sign(i, k), i, k),
{
    rows.row_sign_transitive(i, j, k);
    if rows.row_sign(i, k) == 0 {
        assert(rows.row_sign(i, j) == 0 && rows.row_sign(j, k) == 0);
    }
}

/// Merges two sorted lists, where every row number of the first is below every one of the
/// second.
fn merge_rows<R: Rows>(rows: &R, left: &Vec<usize>, right: &Vec<usize>) -> (out: Vec<usize>)
    requires
        all_rows(rows, left@),
        all_rows(rows, right@),
        sorted_rows(rows, left@),
        sorted_rows(rows, right@),
        forall|p: int, q: int|
            0 <= p < left@.len() && 0 <= q < right@.len() ==> #[trigger] left@[p]
                < #[trigger] right@[q],
        left@.len() + right@.len() <= usize::MAX,
    ensures
        sorted_rows(rows, out@),
        same_rows(left@ + right@, out@),
{
    let mut out: Vec<usize> = Vec::new();
    let mut i: usize = 0;
    let mut j: usize = 0;
    while i < left.len() || j < right.len()
        invariant
            all_rows(rows, left@),
            all_rows(rows, right@),
            sorted_rows(rows, left@),
            sorted_rows(rows, right@),
            forall|p: int, q: int|
                0 <= p < left@.len() && 0 <= q < right@.len() ==> #[trigger] left@[p]
                    < #[trigger] right@[q],
            left@.len() + right@.len() <= usize::MAX,
            i <= left@.len(),
            j <= right@.len(),
            out@.len() == i + j,
            sorted_rows(rows, out@),
            forall|p: int, q: int|
                0 <= p < out@.len() && i <= q < left@.len() ==> stable_before(
                    rows.row_sign(#[trigger] out@[p] as int, #[trigger] left@[q] as int),
                    out@[p] as int,
                    left@[q] as int,
                ),
            forall|p: int, q: int|
                0 <= p < out@.len() && j <= q < right@.len() ==> stable_before(
                    rows.row_sign(#[trigger] out@[p] as int, #[trigger] right@[q] as int),
                    out@[p] as int,
                    right@[q] as int,
                ),
            forall|x: usize|
                #[trigger] out@.contains(x) <==> (left@.take(i as int) + right@.take(
                    j as int,
                )).contains(x),
        decreases left@.len() + right@.len() - i - j,
    {
        let ghost before = out@;
        let take_left: bool = j >= right.len() || (i < left.len() && !rows.goes_after(
            left[i],
            right[j],
        ));
        let ghost l = left@.take(i as int);
        let ghost r = right@.take(j as int);
        if take_left {
            let x = left[i];
            proof {
                lemma_step_left(rows, left@, right@, i as int, j as int);
                assert(left@.take(i + 1) =~= l.push(x));
                lemma_push_members(l, r, x);
                assert forall|y: usize| #[trigger] before.push(x).contains(y) <==> before.contains(
                    y,
                ) || y == x by {
                    lemma_push_contains(before, x, y);
                }
            }
            out.push(x);
            i += 1;
        } else {
            let x = right[j];
            proof {
                lemma_step_right(rows, left@, right@, i as int, j as int);
                assert(right@.take(j + 1) =~= r.push(x));
                assert forall|y: usize| #[trigger] (l + r.push(x)).contains(y) <==> (l
                    + r).contains(y) || y == x by {
                    assert(l + r.push(x) =~= (l + r).push(x));
                    lemma_push_contains(l + r, x, y);
                }
                assert forall|y: usize| #[trigger] before.push(x).contains(y) <==> before.contains(
                    y,
                ) || y == x by {
                    lemma_push_contains(before, x, y);
                }
            }
            out.push(x);
            j += 1;
        }
    }
    assert(left@.take(i as int) =~= left@);
    assert(right@.take(j as int) =~= right@);
    out
}

/// A list with one more item holds that item and what it held before.
pub proof fn lemma_push_contains(s: Seq<usize>, x: usize, y: usize)
    ensures
        s.push(x).contains(y) <==> s.contains(y) || y == x,
{
    if s.contains(y) {
        let k = choose|k: int| 0 <= k < s.len() && s[k] == y;
        assert(s.push(x)[k] == y);
    }
    if y == x {
        assert(s.push(x)[s.len() as int] == y);
    }
    if s.push(x).contains(y) {
        let k = choose|k: int| 0 <= k < s.push(x).len() && s.push(x)[k] == y;
        if k < s.len() {
            assert(s[k] == y);
        }
    }
}

proof fn lemma_push_members(l: Seq<usize>, r: Seq<usize>, x: usize)
    ensures
        forall|y: usize| #[trigger] (l.push(x) + r).contains(y) <==> (l + r).contains(y) || y == x,
{
    assert forall|y: usize| #[trigger] (l.push(x) + r).contains(y) <==> (l + r).contains(y) || y
        == x by {
        if (l + r).contains(y) {
            let k = choose|k: int| 0 <= k < (l + r).len() && (l + r)[k] == y;
            if k < l.len() {
                assert((l.push(x) + r)[k] == y);
            } else {
                assert((l.push(x) + r)[k + 1] == y);
            }
        }
        if y == x {
            assert((l.push(x) + r)[l.len() as int] == y);
        }
        if (l.push(x) + r).contains(y) {
            let k = choose|k: int| 0 <= k < (l.push(x) + r).len() && (l.push(x) + r)[k] == y;
            if k < l.len() {
                assert((l + r)[k] == y);
            } else if k > l.len() {
                assert((l + r)[k - 1] == y);
            }
        }
    }
}

/// The head of the first list, where it does not sort after that of the second, comes before
/// all that is left.
proof fn lemma_step_left<R: Rows>(rows: &R, left: Seq<usize>, right: Seq<usize>, i: int, j: int)
    requires
        sorted_rows(rows, left),
        sorted_rows(rows, right),
        0 <= i < left.len(),
        0 <= j <= right.len(),
        forall|p: int, q: int|
            0 <= p < left.len() && 0 <= q < right.len() ==> #[trigger] left[p]
                < #[trigger] right[q],
        j < right.len() ==> rows.row_sign(left[i] as int, right[j] as int) <= 0,
    ensures
        forall|q: int|
            i < q < left.len() ==> stable_before(
                rows.row_sign(left[i] as int, #[trigger] left[q] as int),
                left[i] as int,
                left[q] as int,
            ),
        forall|q: int|
            j <= q < right.len() ==> stable_before(
                rows.row_sign(left[i] as int, #[trigger] right[q] as int),
                left[i] as int,
                right[q] as int,
            ),
{
    assert forall|q: int| j <= q < right.len() implies stable_before(
        rows.row_sign(left[i] as int, #[trigger] right[q] as int),
        left[i] as int,
        right[q] as int,
    ) by {
        assert(left[i] < right[j]);
        if q > j {
            lemma_stable_before_transitive(
                rows,
                left[i] as int,
                right[j] as int,
                right[q] as int,
            );
        }
    }
}

/// The head of the second list, where that of the first sorts after it or there is none, comes
/// before all that is left.
proof fn lemma_step_right<R: Rows>(rows: &R, left: Seq<usize>, right: Seq<usize>, i: int, j: int)
    requires
        sorted_rows(rows, left),
        sorted_rows(rows, right),
        0 <= i <= left.len(),
        0 <= j < right.len(),
        i < left.len() ==> rows.row_sign(left[i] as int, right[j] as int) > 0,
    ensures
        forall|q: int|
            i <= q < left.len() ==> stable_before(
                rows.row_sign(right[j] as int, #[trigger] left[q] as int),
                right[j] as int,
                left[q] as int,
            ),
{
    assert forall|q: int| i <= q < left.len() implies stable_before(
        rows.row_sign(right[j] as int, #[trigger] left[q] as int),
        right[j] as int,
        left[q] as int,
    ) by {
        rows.row_sign_antisymmetric(left[i] as int, right[j] as int);
        if q > i {
            lemma_stable_before_transitive(rows, right[j] as int, left[i] as int, left[q] as int);
        }
    }
}

/// Sorts row numbers, given in ascending order. Rows that sort level keep that order.
pub fn sort_rows<R: Rows>(rows: &R, list: Vec<usize>) -> (out: Vec<usize>)
    requires
        all_rows(rows, list@),
        ascending(list@),
    ensures
        sorted_rows(rows, out@),
        same_rows(list@, out@),
    decreases list@.len(),
{
    if list.len() <= 1 {
        return list;
    }
    let ghost whole = list@;
    let mut list = list;
    let mid: usize = list.len() / 2;
    let tail = list.split_off(mid);
    let ghost head_rows = list@;
    let ghost tail_rows = tail@;
    proof {
        assert(head_rows + tail_rows =~= whole);
    }
    let left = sort_rows(rows, list);
    let right = sort_rows(rows, tail);
    proof {
        assert forall|p: int| 0 <= p < left@.len() implies exists|k: int|
            0 <= k < head_rows.len() && head_rows[k] == #[trigger] left@[p] by {
            assert(left@.contains(left@[p]));
            assert(head_rows.contains(left@[p]));
        }
        assert forall|q: int| 0 <= q < right@.len() implies exists|k: int|
            0 <= k < tail_rows.len() && tail_rows[k] == #[trigger] right@[q] by {
            assert(right@.contains(right@[q]));
            assert(tail_rows.contains(right@[q]));
        }
        assert forall|p: int, q: int|
            0 <= p < left@.len() && 0 <= q < right@.len() implies #[trigger] left@[p]
            < #[trigger] right@[q] by {
            let a = choose|k: int| 0 <= k < head_rows.len() && head_rows[k] == left@[p];
            let b = choose|k: int| 0 <= k < tail_rows.len() && tail_rows[k] == right@[q];
            assert(whole[a] == left@[p] && whole[mid + b] == right@[q]);
        }
    }
    let out = merge_rows(rows, &left, &right);
    proof {
        assert forall|x: usize| #[trigger] whole.contains(x) <==> out@.contains(x) by {
            lemma_concat_contains(head_rows, tail_rows, x);
            lemma_concat_contains(left@, right@, x);
            assert(head_rows.contains(x) <==> left@.contains(x));
            assert(tail_rows.contains(x) <==> right@.contains(x));
            assert((left@ + right@).contains(x) <==> out@.contains(x));
        }
    }
    out
}

/// The list from its end to its start.
fn reversed(list: &Vec<usize>) -> (out: Vec<usize>)
    ensures
        out@ == list@.reverse(),
{
    let mut out: Vec<usize> = Vec::new();
    let mut i: usize = list.len();
    while i > 0
        invariant
            i <= list@.len(),
            out@.len() == list@.len() - i,
            forall|k: int| 0 <= k < out@.len() ==> out@[k] == list@[list@.len() - 1 - k],
        decreases i,
    {
        i -= 1;
        out.push(list[i]);
    }
    assert(out@ =~= list@.reverse());
    out
}

/// Puts row numbers, given in ascending order, in the order of a sort column and direction.
pub fn arrange_rows<R: Rows>(rows: &R, list: Vec<usize>, dir: SortDir) -> (out: Vec<usize>)
    requires
        all_rows(rows, list@),
        ascending(list@),
    ensures
        same_rows(list@, out@),
        forall|p: int, q: int|
            0 <= p < q < out@.len() ==> listed_before(
                SortState { col: Some(0), dir },
                rows.row_sign(#[trigger] out@[p] as int, #[trigger] out@[q] as int),
                out@[p] as int,
                out@[q] as int,
            ),
{
    let sorted = sort_rows(rows, list);
    match dir {
        SortDir::Asc => sorted,
        SortDir::Desc => {
            let out = reversed(&sorted);
            proof {
                let n = sorted@.len();
                assert forall|x: usize| #[trigger] sorted@.contains(x) <==> out@.contains(x) by {
                    if sorted@.contains(x) {
                        let k = choose|k: int| 0 <= k < n && sorted@[k] == x;
                        assert(out@[n - 1 - k] == x);
                    }
                    if out@.contains(x) {
                        let k = choose|k: int| 0 <= k < n && out@[k] == x;
                        assert(sorted@[n - 1 - k] == x);
                    }
                }
                assert forall|p: int, q: int| 0 <= p < q < n implies stable_before(
                    -rows.row_sign(#[trigger] out@[p] as int, #[trigger] out@[q] as int),
                    out@[q] as int,
                    out@[p] as int,
                ) by {
                    assert(out@[p] == sorted@[n - 1 - p]);
                    assert(out@[q] == sorted@[n - 1 - q]);
                    rows.row_sign_antisymmetric(out@[p] as int, out@[q] as int);
                }
            }
            out
        },
    }
}

proof fn lemma_concat_contains(a: Seq<usize>, b: Seq<usize>, x: usize)
    ensures
        (a + b).contains(x) <==> a.contains(x) || b.contains(x),
{
    if a.contains(x) {
        let k = choose|k: int| 0 <= k < a.len() && a[k] == x;
        assert((a + b)[k] == x);
    }
    if b.contains(x) {
        let k = choose|k: int| 0 <= k < b.len() && b[k] == x;
        assert((a + b)[a.len() + k] == x);
    }
    if (a + b).contains(x) {
        let k = choose|k: int| 0 <= k < (a + b).len() && (a + b)[k] == x;
        if k < a.len() {
            assert(a[k] == x);
        } else {
            assert(b[k - a.len()] == x);
        }
    }
}

} // verus!
