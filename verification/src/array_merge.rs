//! Two-sided sorted merge over column vectors.
//!
//! `merge_indices` walks two sets of ordered key columns with one cursor per
//! side and emits a pick-bitmap: `true` takes the next left row, `false` the
//! next right row.  A left row is taken exactly when it compares `Less` than
//! the right cursor's row (ties pick the right side — an observable
//! convention) or when the right side is exhausted.  `merge_array` then
//! applies such a bitmap to one pair of columns.

use core::cmp::Ordering;
use vstd::multiset::Multiset;
use vstd::prelude::*;
use vstd::seq_lib::lemma_multiset_commutative;

use crate::arrays::DataArray;
use crate::arrays::SortOptions;
use crate::compare::key_row;
use crate::compare::lemma_merge_row_cmp_flip;
use crate::compare::merge_row_cmp;
use crate::compare::merge_value_cmp;
use crate::compare::reverse_ord;
use crate::error::FuseQueryError;
use crate::error::FuseQueryResult;

verus! {

/// The element views of a vector of arrays.
pub open spec fn cols_of(arrays: Seq<DataArray>) -> Seq<Seq<Option<u64>>> {
    arrays.map_values(|a: DataArray| a@)
}

/// All columns of one side have the same length.
pub open spec fn side_uniform(cols: Seq<Seq<Option<u64>>>) -> bool {
    forall|k: int| 0 <= k < cols.len() ==> (#[trigger] cols[k].len()) == cols[0].len()
}

/// The row count of one side (its first column's length).
pub open spec fn side_rows(cols: Seq<Seq<Option<u64>>>) -> int {
    if cols.len() == 0 {
        0
    } else {
        cols[0].len() as int
    }
}

/// The pick-bitmap of the two-cursor merge, starting at cursors `l`, `r`:
/// `true` takes the next left row, `false` the next right row; a left row is
/// taken exactly when it compares `Less` or the right side is exhausted.
pub open spec fn merge_bitmap(
    lhs: Seq<Seq<Option<u64>>>,
    rhs: Seq<Seq<Option<u64>>>,
    opts: Seq<SortOptions>,
    l: int,
    r: int,
) -> Seq<bool>
    decreases side_rows(lhs) - l + side_rows(rhs) - r,
    when 0 <= l <= side_rows(lhs) && 0 <= r <= side_rows(rhs)
{
    let nl = side_rows(lhs);
    let nr = side_rows(rhs);
    if l >= nl && r >= nr {
        Seq::empty()
    } else if r >= nr {
        seq![true] + merge_bitmap(lhs, rhs, opts, l + 1, r)
    } else if l >= nl {
        seq![false] + merge_bitmap(lhs, rhs, opts, l, r + 1)
    } else if merge_row_cmp(key_row(lhs, l), key_row(rhs, r), opts) == Ordering::Less {
        seq![true] + merge_bitmap(lhs, rhs, opts, l + 1, r)
    } else {
        seq![false] + merge_bitmap(lhs, rhs, opts, l, r + 1)
    }
}

/// How many entries of a bitmap are `true`.
pub open spec fn count_true(m: Seq<bool>) -> int
    decreases m.len(),
{
    if m.len() == 0 {
        0
    } else {
        (if m[0] {
            1int
        } else {
            0int
        }) + count_true(m.drop_first())
    }
}

/// How many entries of a bitmap are `false`.
pub open spec fn count_false(m: Seq<bool>) -> int
    decreases m.len(),
{
    if m.len() == 0 {
        0
    } else {
        (if m[0] {
            0int
        } else {
            1int
        }) + count_false(m.drop_first())
    }
}

/// Counts are non-negative and sum to the length.
pub proof fn lemma_counts(m: Seq<bool>)
    ensures
        0 <= count_true(m),
        0 <= count_false(m),
        count_true(m) + count_false(m) == m.len(),
    decreases m.len(),
{
    if m.len() > 0 {
        lemma_counts(m.drop_first());
    }
}

/// The merge bitmap takes each left row and each right row exactly once.
pub proof fn lemma_merge_bitmap_counts(
    lhs: Seq<Seq<Option<u64>>>,
    rhs: Seq<Seq<Option<u64>>>,
    opts: Seq<SortOptions>,
    l: int,
    r: int,
)
    requires
        0 <= l <= side_rows(lhs),
        0 <= r <= side_rows(rhs),
    ensures
        count_true(merge_bitmap(lhs, rhs, opts, l, r)) == side_rows(lhs) - l,
        count_false(merge_bitmap(lhs, rhs, opts, l, r)) == side_rows(rhs) - r,
        merge_bitmap(lhs, rhs, opts, l, r).len() == side_rows(lhs) - l + side_rows(rhs) - r,
    decreases side_rows(lhs) - l + side_rows(rhs) - r,
{
    let m = merge_bitmap(lhs, rhs, opts, l, r);
    let nl = side_rows(lhs);
    let nr = side_rows(rhs);
    if l >= nl && r >= nr {
    } else if r >= nr {
        lemma_merge_bitmap_counts(lhs, rhs, opts, l + 1, r);
        assert(m.drop_first() =~= merge_bitmap(lhs, rhs, opts, l + 1, r));
    } else if l >= nl {
        lemma_merge_bitmap_counts(lhs, rhs, opts, l, r + 1);
        assert(m.drop_first() =~= merge_bitmap(lhs, rhs, opts, l, r + 1));
    } else if merge_row_cmp(key_row(lhs, l), key_row(rhs, r), opts) == Ordering::Less {
        lemma_merge_bitmap_counts(lhs, rhs, opts, l + 1, r);
        assert(m.drop_first() =~= merge_bitmap(lhs, rhs, opts, l + 1, r));
    } else {
        lemma_merge_bitmap_counts(lhs, rhs, opts, l, r + 1);
        assert(m.drop_first() =~= merge_bitmap(lhs, rhs, opts, l, r + 1));
    }
}

/// Counts over a prefix never exceed counts over the whole.
pub proof fn lemma_counts_prefix(m: Seq<bool>, k: int)
    requires
        0 <= k <= m.len(),
    ensures
        count_true(m.take(k)) + count_true(m.skip(k)) == count_true(m),
        count_false(m.take(k)) + count_false(m.skip(k)) == count_false(m),
        0 <= count_true(m.take(k)) <= count_true(m),
        0 <= count_false(m.take(k)) <= count_false(m),
    decreases m.len(),
{
    lemma_counts(m.take(k));
    lemma_counts(m.skip(k));
    if k == 0 {
        assert(m.take(0) =~= Seq::<bool>::empty());
        assert(m.skip(0) =~= m);
    } else {
        lemma_counts_prefix(m.drop_first(), k - 1);
        assert(m.take(k)[0] == m[0]);
        assert(m.take(k).drop_first() =~= m.drop_first().take(k - 1));
        assert(m.skip(k) =~= m.drop_first().skip(k - 1));
    }
}

/// Appending one entry raises the matching count by one.
pub proof fn lemma_count_push(m: Seq<bool>, b: bool)
    ensures
        count_true(m.push(b)) == count_true(m) + (if b {
            1int
        } else {
            0int
        }),
        count_false(m.push(b)) == count_false(m) + (if b {
            0int
        } else {
            1int
        }),
    decreases m.len(),
{
    if m.len() == 0 {
        assert(m.push(b)[0] == b);
        assert(m.push(b).drop_first() =~= Seq::<bool>::empty());
        assert(count_true(m.push(b)) == (if b {
            1int
        } else {
            0int
        }) + count_true(m.push(b).drop_first()));
        assert(count_false(m.push(b)) == (if b {
            0int
        } else {
            1int
        }) + count_false(m.push(b).drop_first()));
    } else {
        lemma_count_push(m.drop_first(), b);
        assert(m.push(b)[0] == m[0]);
        assert(m.push(b).drop_first() =~= m.drop_first().push(b));
        assert(count_true(m.push(b)) == (if m[0] {
            1int
        } else {
            0int
        }) + count_true(m.drop_first().push(b)));
        assert(count_false(m.push(b)) == (if m[0] {
            0int
        } else {
            1int
        }) + count_false(m.drop_first().push(b)));
    }
}

/// Interleaves two sequences as a bitmap directs, starting at cursors `l`
/// and `r`: a `true` entry takes the next element of `a`, a `false` entry
/// the next element of `b`.
pub open spec fn merge_apply<T>(a: Seq<T>, b: Seq<T>, m: Seq<bool>, l: int, r: int) -> Seq<T>
    decreases m.len(),
{
    if m.len() == 0 {
        Seq::empty()
    } else if m[0] {
        seq![a[l]] + merge_apply(a, b, m.drop_first(), l + 1, r)
    } else {
        seq![b[r]] + merge_apply(a, b, m.drop_first(), l, r + 1)
    }
}

/// The interleaving is as long as the bitmap.
pub proof fn lemma_merge_apply_len<T>(a: Seq<T>, b: Seq<T>, m: Seq<bool>, l: int, r: int)
    ensures
        merge_apply(a, b, m, l, r).len() == m.len(),
    decreases m.len(),
{
    if m.len() > 0 {
        if m[0] {
            lemma_merge_apply_len(a, b, m.drop_first(), l + 1, r);
        } else {
            lemma_merge_apply_len(a, b, m.drop_first(), l, r + 1);
        }
    }
}

/// Row `a` sorts at or before row `b` under the merge comparator.
pub open spec fn rows_le(a: Seq<Option<u64>>, b: Seq<Option<u64>>, opts: Seq<SortOptions>) -> bool {
    merge_row_cmp(a, b, opts) != Ordering::Greater
}

/// A sequence of key rows is non-decreasing under the merge comparator.
pub open spec fn sorted_rows(rows: Seq<Seq<Option<u64>>>, opts: Seq<SortOptions>) -> bool {
    forall|i: int| 0 <= i < rows.len() - 1 ==> rows_le(#[trigger] rows[i], rows[i + 1], opts)
}

/// The sequence of key rows of a set of key columns.
pub open spec fn key_rows(cols: Seq<Seq<Option<u64>>>) -> Seq<Seq<Option<u64>>> {
    Seq::new(side_rows(cols) as nat, |i: int| key_row(cols, i))
}

/// Merging two sorted sides by the merge bitmap yields a sorted sequence
/// holding exactly the rows of both sides.
pub proof fn lemma_merge_bitmap_sorted(
    lhs: Seq<Seq<Option<u64>>>,
    rhs: Seq<Seq<Option<u64>>>,
    opts: Seq<SortOptions>,
    l: int,
    r: int,
)
    requires
        side_uniform(lhs),
        side_uniform(rhs),
        lhs.len() == opts.len(),
        rhs.len() == opts.len(),
        0 <= l <= side_rows(lhs),
        0 <= r <= side_rows(rhs),
        sorted_rows(key_rows(lhs), opts),
        sorted_rows(key_rows(rhs), opts),
    ensures
        ({
            let merged = merge_apply(
                key_rows(lhs),
                key_rows(rhs),
                merge_bitmap(lhs, rhs, opts, l, r),
                l,
                r,
            );
            &&& sorted_rows(merged, opts)
            &&& merged.to_multiset() == key_rows(lhs).skip(l).to_multiset().add(
                key_rows(rhs).skip(r).to_multiset(),
            )
            &&& merged.len() > 0 ==> ((l < side_rows(lhs) && merged[0] == key_rows(lhs)[l]) || (r
                < side_rows(rhs) && merged[0] == key_rows(rhs)[r]))
        }),
    decreases side_rows(lhs) - l + side_rows(rhs) - r,
{
    broadcast use vstd::seq_lib::group_to_multiset_ensures;

    let nl = side_rows(lhs);
    let nr = side_rows(rhs);
    let la = key_rows(lhs);
    let ra = key_rows(rhs);
    let m = merge_bitmap(lhs, rhs, opts, l, r);
    let merged = merge_apply(la, ra, m, l, r);
    if l >= nl && r >= nr {
        assert(la.skip(l) =~= Seq::<Seq<Option<u64>>>::empty());
        assert(ra.skip(r) =~= Seq::<Seq<Option<u64>>>::empty());
        assert(merged.to_multiset() =~= la.skip(l).to_multiset().add(ra.skip(r).to_multiset()));
    } else {
        let pick_left = if r >= nr {
            true
        } else if l >= nl {
            false
        } else {
            merge_row_cmp(key_row(lhs, l), key_row(rhs, r), opts) == Ordering::Less
        };
        let head = if pick_left {
            la[l]
        } else {
            ra[r]
        };
        let l2 = if pick_left {
            l + 1
        } else {
            l
        };
        let r2 = if pick_left {
            r
        } else {
            r + 1
        };
        lemma_merge_bitmap_sorted(lhs, rhs, opts, l2, r2);
        let m2 = merge_bitmap(lhs, rhs, opts, l2, r2);
        let merged2 = merge_apply(la, ra, m2, l2, r2);
        assert(m == seq![pick_left] + m2);
        assert(m.drop_first() =~= m2);
        assert(m[0] == pick_left);
        assert(merged == seq![head] + merged2);
        // The head sorts at or before whatever comes next.
        if merged2.len() > 0 {
            let next = merged2[0];
            assert(rows_le(head, next, opts)) by {
                if pick_left {
                    if l2 < nl && next == la[l2] {
                        assert(rows_le(la[l], la[l + 1], opts));
                    } else {
                        assert(r2 < nr && next == ra[r]);
                        assert(merge_row_cmp(la[l], ra[r], opts) == Ordering::Less);
                    }
                } else {
                    if l2 < nl && next == la[l] {
                        assert(merge_row_cmp(la[l], ra[r], opts) != Ordering::Less);
                        lemma_merge_row_cmp_flip(la[l], ra[r], opts);
                    } else {
                        assert(r2 < nr && next == ra[r + 1]);
                        assert(rows_le(ra[r], ra[r + 1], opts));
                    }
                }
            }
        }
        assert(sorted_rows(merged, opts)) by {
            assert forall|i: int| 0 <= i < merged.len() - 1 implies rows_le(
                #[trigger] merged[i],
                merged[i + 1],
                opts,
            ) by {
                if i == 0 {
                } else {
                    assert(merged[i] == merged2[i - 1]);
                    assert(merged[i + 1] == merged2[i]);
                    assert(rows_le(merged2[i - 1], merged2[i], opts));
                }
            }
        }
        // Multiset bookkeeping: the head moves from its side to the output.
        if pick_left {
            assert(la.skip(l) =~= seq![la[l]] + la.skip(l + 1));
            lemma_multiset_commutative(seq![la[l]], la.skip(l + 1));
        } else {
            assert(ra.skip(r) =~= seq![ra[r]] + ra.skip(r + 1));
            lemma_multiset_commutative(seq![ra[r]], ra.skip(r + 1));
        }
        lemma_multiset_commutative(seq![head], merged2);
        assert(seq![head] =~= Seq::<Seq<Option<u64>>>::empty().push(head));
        assert(seq![head].to_multiset() =~= Multiset::empty().insert(head));
        assert(merged.to_multiset() =~= la.skip(l).to_multiset().add(ra.skip(r).to_multiset()));
    }
}

/// Entry `i` of an interleaving: the side the bitmap picks, at the cursor
/// advanced by the number of earlier picks of that side.
pub proof fn lemma_merge_apply_index<T>(a: Seq<T>, b: Seq<T>, m: Seq<bool>, l: int, r: int, i: int)
    requires
        0 <= i < m.len(),
    ensures
        merge_apply(a, b, m, l, r)[i] == if m[i] {
            a[l + count_true(m.take(i))]
        } else {
            b[r + count_false(m.take(i))]
        },
    decreases m.len(),
{
    if i == 0 {
        assert(m.take(0) =~= Seq::<bool>::empty());
    } else {
        if m[0] {
            lemma_merge_apply_index(a, b, m.drop_first(), l + 1, r, i - 1);
        } else {
            lemma_merge_apply_index(a, b, m.drop_first(), l, r + 1, i - 1);
        }
        assert(m.take(i)[0] == m[0]);
        assert(m.take(i).drop_first() =~= m.drop_first().take(i - 1));
        assert(m.drop_first()[i - 1] == m[i]);
        if m[0] {
            let rest = merge_apply(a, b, m.drop_first(), l + 1, r);
            lemma_merge_apply_len(a, b, m.drop_first(), l + 1, r);
            assert(merge_apply(a, b, m, l, r) == seq![a[l]] + rest);
            assert((seq![a[l]] + rest)[i] == rest[i - 1]);
        } else {
            let rest = merge_apply(a, b, m.drop_first(), l, r + 1);
            lemma_merge_apply_len(a, b, m.drop_first(), l, r + 1);
            assert(merge_apply(a, b, m, l, r) == seq![b[r]] + rest);
            assert((seq![b[r]] + rest)[i] == rest[i - 1]);
        }
    }
}

/// An interleaving whose bitmap consumes both suffixes holds exactly their
/// elements.
pub proof fn lemma_merge_apply_multiset<T>(a: Seq<T>, b: Seq<T>, m: Seq<bool>, l: int, r: int)
    requires
        0 <= l <= a.len(),
        0 <= r <= b.len(),
        count_true(m) == a.len() - l,
        count_false(m) == b.len() - r,
    ensures
        merge_apply(a, b, m, l, r).to_multiset() == a.skip(l).to_multiset().add(
            b.skip(r).to_multiset(),
        ),
    decreases m.len(),
{
    broadcast use vstd::seq_lib::group_to_multiset_ensures;

    let merged = merge_apply(a, b, m, l, r);
    lemma_counts(m);
    if m.len() == 0 {
        assert(a.skip(l) =~= Seq::<T>::empty());
        assert(b.skip(r) =~= Seq::<T>::empty());
        assert(merged.to_multiset() =~= a.skip(l).to_multiset().add(b.skip(r).to_multiset()));
    } else {
        lemma_counts(m.drop_first());
        if m[0] {
            lemma_merge_apply_multiset(a, b, m.drop_first(), l + 1, r);
            assert(a.skip(l) =~= seq![a[l]] + a.skip(l + 1));
            lemma_multiset_commutative(seq![a[l]], a.skip(l + 1));
            lemma_multiset_commutative(seq![a[l]], merge_apply(a, b, m.drop_first(), l + 1, r));
            assert(seq![a[l]] =~= Seq::<T>::empty().push(a[l]));
            assert(merged =~= seq![a[l]] + merge_apply(a, b, m.drop_first(), l + 1, r));
            assert(merged.to_multiset() =~= a.skip(l).to_multiset().add(b.skip(r).to_multiset()));
        } else {
            lemma_merge_apply_multiset(a, b, m.drop_first(), l, r + 1);
            assert(b.skip(r) =~= seq![b[r]] + b.skip(r + 1));
            lemma_multiset_commutative(seq![b[r]], b.skip(r + 1));
            lemma_multiset_commutative(seq![b[r]], merge_apply(a, b, m.drop_first(), l, r + 1));
            assert(seq![b[r]] =~= Seq::<T>::empty().push(b[r]));
            assert(merged =~= seq![b[r]] + merge_apply(a, b, m.drop_first(), l, r + 1));
            assert(merged.to_multiset() =~= a.skip(l).to_multiset().add(b.skip(r).to_multiset()));
        }
    }
}

/// The reverse of an ordering, executably.
fn reverse_order(o: Ordering) -> (r: Ordering)
    ensures
        r == reverse_ord(o),
{
    match o {
        Ordering::Less => Ordering::Greater,
        Ordering::Equal => Ordering::Equal,
        Ordering::Greater => Ordering::Less,
    }
}

/// Compares two nullable values under the merge comparator.
fn merge_value_compare(l: Option<u64>, r: Option<u64>, o: SortOptions) -> (c: Ordering)
    ensures
        c == merge_value_cmp(l, r, o),
{
    let base = match (l, r) {
        (Some(a), Some(b)) => if a < b {
            Ordering::Less
        } else if a == b {
            Ordering::Equal
        } else {
            Ordering::Greater
        },
        (None, Some(_)) => if o.nulls_first {
            Ordering::Less
        } else {
            Ordering::Greater
        },
        (Some(_), None) => if o.nulls_first {
            Ordering::Greater
        } else {
            Ordering::Less
        },
        (None, None) => Ordering::Equal,
    };
    if o.descending {
        reverse_order(base)
    } else {
        base
    }
}

/// Once the first `k` keys tie, the row comparison is decided by the rest.
proof fn lemma_merge_row_cmp_skip(a: Seq<Option<u64>>, b: Seq<Option<u64>>, opts: Seq<
    SortOptions,
>, k: int)
    requires
        0 <= k < opts.len(),
        a.len() == opts.len(),
        b.len() == opts.len(),
        merge_value_cmp(a[k], b[k], opts[k]) == Ordering::Equal,
        merge_row_cmp(a, b, opts) == merge_row_cmp(a.skip(k), b.skip(k), opts.skip(k)),
    ensures
        merge_row_cmp(a, b, opts) == merge_row_cmp(a.skip(k + 1), b.skip(k + 1), opts.skip(k + 1)),
{
    assert(a.skip(k)[0] == a[k]);
    assert(b.skip(k)[0] == b[k]);
    assert(opts.skip(k)[0] == opts[k]);
    assert(a.skip(k).drop_first() =~= a.skip(k + 1));
    assert(b.skip(k).drop_first() =~= b.skip(k + 1));
    assert(opts.skip(k).drop_first() =~= opts.skip(k + 1));
}

/// Compares row `l` of the left key columns with row `r` of the right key
/// columns, major-to-minor.
fn merge_rows_compare(
    lhs: &Vec<DataArray>,
    rhs: &Vec<DataArray>,
    options: &Vec<SortOptions>,
    l: usize,
    r: usize,
) -> (c: Ordering)
    requires
        lhs@.len() == options@.len(),
        rhs@.len() == options@.len(),
        side_uniform(cols_of(lhs@)),
        side_uniform(cols_of(rhs@)),
        l < side_rows(cols_of(lhs@)),
        r < side_rows(cols_of(rhs@)),
    ensures
        c == merge_row_cmp(key_row(cols_of(lhs@), l as int), key_row(cols_of(rhs@), r as int), options@),
{
    let ghost rowa = key_row(cols_of(lhs@), l as int);
    let ghost rowb = key_row(cols_of(rhs@), r as int);
    let n = options.len();
    proof {
        assert(rowa.skip(0) =~= rowa);
        assert(rowb.skip(0) =~= rowb);
        assert(options@.skip(0) =~= options@);
    }
    let mut k: usize = 0;
    while k < n
        invariant
            n == options@.len(),
            lhs@.len() == n,
            rhs@.len() == n,
            side_uniform(cols_of(lhs@)),
            side_uniform(cols_of(rhs@)),
            l < side_rows(cols_of(lhs@)),
            r < side_rows(cols_of(rhs@)),
            rowa == key_row(cols_of(lhs@), l as int),
            rowb == key_row(cols_of(rhs@), r as int),
            k <= n,
            merge_row_cmp(rowa, rowb, options@) == merge_row_cmp(
                rowa.skip(k as int),
                rowb.skip(k as int),
                options@.skip(k as int),
            ),
        decreases n - k,
    {
        assert(cols_of(lhs@)[k as int] == lhs@[k as int]@);
        assert(cols_of(rhs@)[k as int] == rhs@[k as int]@);
        let lv = lhs[k].value(l);
        let rv = rhs[k].value(r);
        let c = merge_value_compare(lv, rv, options[k]);
        proof {
            assert(rowa.skip(k as int)[0] == rowa[k as int]);
            assert(rowb.skip(k as int)[0] == rowb[k as int]);
            assert(options@.skip(k as int)[0] == options@[k as int]);
        }
        match c {
            Ordering::Equal => {
                proof {
                    lemma_merge_row_cmp_skip(rowa, rowb, options@, k as int);
                }
                k += 1;
            },
            _ => {
                return c;
            },
        }
    }
    assert(rowa.skip(n as int) =~= Seq::<Option<u64>>::empty());
    assert(options@.skip(n as int) =~= Seq::<SortOptions>::empty());
    Ordering::Equal
}

/// Produces the pick-bitmap merging two sets of ordered key columns.
///
/// Fails with `Internal` exactly when the two sides have different numbers
/// of columns, the sides are empty, or the number of sort options differs
/// from the number of columns.  On success the bitmap is the two-cursor
/// merge from the start of both sides: its length is the total row count,
/// and ties pick the right side.
pub fn merge_indices(
    lhs: &Vec<DataArray>,
    rhs: &Vec<DataArray>,
    options: &Vec<SortOptions>,
) -> (res: FuseQueryResult<Vec<bool>>)
    requires
        lhs@.len() == rhs@.len() && lhs@.len() > 0 && lhs@.len() == options@.len() ==> side_uniform(
            cols_of(lhs@),
        ) && side_uniform(cols_of(rhs@)),
    ensures
        res is Err <==> !(lhs@.len() == rhs@.len() && lhs@.len() > 0 && lhs@.len()
            == options@.len()),
        res matches Err(e) ==> e.is_internal(),
        res matches Ok(m) ==> m@ == merge_bitmap(cols_of(lhs@), cols_of(rhs@), options@, 0, 0),
{
    if lhs.len() != rhs.len() {
        return Err(
            FuseQueryError::Internal(
                "Merge requires lhs and rhs to have the same number of arrays".to_owned(),
            ),
        );
    }
    if lhs.len() == 0 {
        return Err(
            FuseQueryError::Internal("Merge requires lhs to have at least 1 entry".to_owned()),
        );
    }
    if lhs.len() != options.len() {
        return Err(
            FuseQueryError::Internal(
                "Merge requires the number of sort options to equal number of columns".to_owned(),
            ),
        );
    }
    let ghost lcols = cols_of(lhs@);
    let ghost rcols = cols_of(rhs@);
    assert(lcols[0] == lhs@[0]@);
    assert(rcols[0] == rhs@[0]@);
    let max_left = lhs[0].len();
    let max_right = rhs[0].len();
    let mut left: usize = 0;
    let mut right: usize = 0;
    let mut result: Vec<bool> = Vec::new();
    while left < max_left || right < max_right
        invariant
            lhs@.len() == options@.len(),
            rhs@.len() == options@.len(),
            lhs@.len() > 0,
            side_uniform(lcols),
            side_uniform(rcols),
            lcols == cols_of(lhs@),
            rcols == cols_of(rhs@),
            max_left == side_rows(lcols),
            max_right == side_rows(rcols),
            left <= max_left,
            right <= max_right,
            merge_bitmap(lcols, rcols, options@, 0, 0) == result@ + merge_bitmap(
                lcols,
                rcols,
                options@,
                left as int,
                right as int,
            ),
        decreases max_left - left + max_right - right,
    {
        let ghost pre = merge_bitmap(lcols, rcols, options@, left as int, right as int);
        let pick_left: bool;
        if right >= max_right {
            pick_left = true;
        } else if left >= max_left {
            pick_left = false;
        } else {
            let c = merge_rows_compare(lhs, rhs, options, left, right);
            pick_left = match c {
                Ordering::Less => true,
                _ => false,
            };
        }
        result.push(pick_left);
        if pick_left {
            left += 1;
        } else {
            right += 1;
        }
        proof {
            assert(pre == seq![pick_left] + merge_bitmap(
                lcols,
                rcols,
                options@,
                left as int,
                right as int,
            ));
            assert(result@ + merge_bitmap(lcols, rcols, options@, left as int, right as int)
                =~= merge_bitmap(lcols, rcols, options@, 0, 0));
        }
    }
    proof {
        assert(merge_bitmap(lcols, rcols, options@, left as int, right as int) =~= Seq::<
            bool,
        >::empty());
        assert(result@ =~= merge_bitmap(lcols, rcols, options@, 0, 0));
    }
    Ok(result)
}

/// Applies a pick-bitmap to one pair of columns.
pub fn merge_array(lhs: &DataArray, rhs: &DataArray, bitmap: &Vec<bool>) -> (r: DataArray)
    requires
        count_true(bitmap@) <= lhs@.len(),
        count_false(bitmap@) <= rhs@.len(),
    ensures
        r@ == merge_apply(lhs@, rhs@, bitmap@, 0, 0),
{
    let n = bitmap.len();
    let mut la: usize = 0;
    let mut ra: usize = 0;
    let mut values: Vec<Option<u64>> = Vec::new();
    proof {
        lemma_counts(bitmap@);
        assert(bitmap@.skip(0) =~= bitmap@);
    }
    while la + ra < n
        invariant
            n == bitmap@.len(),
            la + ra <= n,
            la + count_true(bitmap@.skip(la + ra)) == count_true(bitmap@),
            ra + count_false(bitmap@.skip(la + ra)) == count_false(bitmap@),
            count_true(bitmap@) <= lhs@.len(),
            count_false(bitmap@) <= rhs@.len(),
            merge_apply(lhs@, rhs@, bitmap@, 0, 0) == values@ + merge_apply(
                lhs@,
                rhs@,
                bitmap@.skip(la + ra),
                la as int,
                ra as int,
            ),
        decreases n - la - ra,
    {
        let i = la + ra;
        let ghost rest = bitmap@.skip(i as int);
        proof {
            assert(rest[0] == bitmap@[i as int]);
            assert(rest.drop_first() =~= bitmap@.skip(i + 1));
            lemma_counts(rest.drop_first());
        }
        if bitmap[i] {
            proof {
                assert(count_true(rest) == 1 + count_true(rest.drop_first()));
                assert(la < count_true(bitmap@));
            }
            values.push(lhs.values[la]);
            la += 1;
        } else {
            proof {
                assert(count_false(rest) == 1 + count_false(rest.drop_first()));
                assert(ra < count_false(bitmap@));
            }
            values.push(rhs.values[ra]);
            ra += 1;
        }
        proof {
            assert(values@ + merge_apply(lhs@, rhs@, bitmap@.skip(la + ra), la as int, ra as int)
                =~= merge_apply(lhs@, rhs@, bitmap@, 0, 0));
        }
    }
    proof {
        assert(bitmap@.skip(la + ra) =~= Seq::<bool>::empty());
        assert(values@ =~= merge_apply(lhs@, rhs@, bitmap@, 0, 0));
    }
    DataArray { values }
}

} // verus!
