//! Lexicographic sort of row indices.
//!
//! `lexsort_to_indices` sorts the row ids `0..row_count` of a set of key
//! columns under the sort comparator and returns them as an index vector.
//! The algorithm is a stable insertion sort, and its exact output is pinned
//! by the spec functions here: `sort_indices_spec` inserts each row id in
//! turn behind every earlier id that does not compare `Greater`, so equal
//! rows keep their earlier relative order.

use core::cmp::Ordering;
use vstd::prelude::*;
use vstd::pervasive::VecAdditionalExecFns;

use crate::array_merge::cols_of;
use crate::arrays::DataArray;
use crate::arrays::SortOptions;
use crate::compare::key_row;
use crate::compare::lemma_sort_row_cmp_flip;
use crate::compare::sort_row_cmp;
use crate::compare::sort_value_cmp;

verus! {

/// The sort-comparator order of rows `a` and `b` of the key columns.
pub open spec fn idx_cmp(cols: Seq<Seq<Option<u64>>>, opts: Seq<SortOptions>, a: int, b: int) -> Ordering {
    sort_row_cmp(key_row(cols, a), key_row(cols, b), opts)
}

/// Inserts row id `x` into the sorted index sequence `s`, behind every
/// entry that does not compare `Greater` than `x` (so ties keep `x` last).
pub open spec fn insert_sorted(
    s: Seq<u32>,
    x: u32,
    cols: Seq<Seq<Option<u64>>>,
    opts: Seq<SortOptions>,
) -> Seq<u32>
    decreases s.len(),
{
    if s.len() == 0 {
        seq![x]
    } else if idx_cmp(cols, opts, s.last() as int, x as int) == Ordering::Greater {
        insert_sorted(s.drop_last(), x, cols, opts).push(s.last())
    } else {
        s.push(x)
    }
}

/// The index vector after inserting the row ids `0..n` in turn.
pub open spec fn sort_indices_spec(cols: Seq<Seq<Option<u64>>>, opts: Seq<SortOptions>, n: nat) -> Seq<u32>
    decreases n,
{
    if n == 0 {
        Seq::empty()
    } else {
        insert_sorted(sort_indices_spec(cols, opts, (n - 1) as nat), (n - 1) as u32, cols, opts)
    }
}

/// An index sequence is non-decreasing under the sort comparator.
pub open spec fn sorted_idx(s: Seq<u32>, cols: Seq<Seq<Option<u64>>>, opts: Seq<SortOptions>) -> bool {
    forall|i: int| 0 <= i < s.len() - 1 ==> idx_cmp(cols, opts, #[trigger] s[i] as int, s[i + 1] as int)
        != Ordering::Greater
}

/// The rows picked out of `vals` by an index sequence, in index order.
pub open spec fn map_picks<T>(vals: Seq<T>, idx: Seq<u32>) -> Seq<T> {
    Seq::new(idx.len(), |k: int| vals[idx[k] as int])
}

/// Insertion adds one entry and keeps the others.
pub proof fn lemma_insert_sorted_shape(
    s: Seq<u32>,
    x: u32,
    cols: Seq<Seq<Option<u64>>>,
    opts: Seq<SortOptions>,
)
    ensures
        insert_sorted(s, x, cols, opts).len() == s.len() + 1,
        forall|k: int|
            0 <= k < s.len() + 1 ==> (#[trigger] insert_sorted(s, x, cols, opts)[k] == x
                || s.contains(insert_sorted(s, x, cols, opts)[k])),
    decreases s.len(),
{
    let ins = insert_sorted(s, x, cols, opts);
    if s.len() == 0 {
    } else if idx_cmp(cols, opts, s.last() as int, x as int) == Ordering::Greater {
        lemma_insert_sorted_shape(s.drop_last(), x, cols, opts);
        assert forall|k: int| 0 <= k < s.len() + 1 implies (#[trigger] ins[k] == x || s.contains(
            ins[k],
        )) by {
            if k < s.len() {
                let prev = insert_sorted(s.drop_last(), x, cols, opts);
                assert(ins[k] == prev[k]);
                if prev[k] != x {
                    let j = choose|j: int| 0 <= j < s.drop_last().len() && s.drop_last()[j]
                        == prev[k];
                    assert(s[j] == prev[k]);
                }
            } else {
                assert(ins[k] == s.last());
            }
        }
    } else {
        assert forall|k: int| 0 <= k < s.len() + 1 implies (#[trigger] ins[k] == x || s.contains(
            ins[k],
        )) by {
            if k < s.len() {
                assert(ins[k] == s[k]);
            }
        }
    }
}

/// Every entry of the sorted index vector is a row id below `n`.
pub proof fn lemma_sort_indices_bounds(cols: Seq<Seq<Option<u64>>>, opts: Seq<SortOptions>, n: nat)
    requires
        n <= u32::MAX,
    ensures
        sort_indices_spec(cols, opts, n).len() == n,
        forall|k: int|
            0 <= k < n ==> (#[trigger] sort_indices_spec(cols, opts, n)[k]) < n,
    decreases n,
{
    if n > 0 {
        let prev = sort_indices_spec(cols, opts, (n - 1) as nat);
        lemma_sort_indices_bounds(cols, opts, (n - 1) as nat);
        lemma_insert_sorted_shape(prev, (n - 1) as u32, cols, opts);
        assert forall|k: int| 0 <= k < n implies (#[trigger] sort_indices_spec(cols, opts, n)[k])
            < n by {
            let v = sort_indices_spec(cols, opts, n)[k];
            if v != (n - 1) as u32 {
                assert(prev.contains(v));
            }
        }
    }
}

/// Inserting row id `x` inserts row `vals[x]` into the picked rows.
pub proof fn lemma_insert_sorted_map_multiset<T>(
    vals: Seq<T>,
    s: Seq<u32>,
    x: u32,
    cols: Seq<Seq<Option<u64>>>,
    opts: Seq<SortOptions>,
)
    ensures
        map_picks(vals, insert_sorted(s, x, cols, opts)).to_multiset() == map_picks(
            vals,
            s,
        ).to_multiset().insert(vals[x as int]),
    decreases s.len(),
{
    broadcast use vstd::seq_lib::group_to_multiset_ensures;

    let ins = insert_sorted(s, x, cols, opts);
    if s.len() == 0 {
        assert(map_picks(vals, seq![x]) =~= Seq::empty().push(vals[x as int]));
        assert(map_picks(vals, s) =~= Seq::<T>::empty());
    } else if idx_cmp(cols, opts, s.last() as int, x as int) == Ordering::Greater {
        let prev = insert_sorted(s.drop_last(), x, cols, opts);
        lemma_insert_sorted_map_multiset(vals, s.drop_last(), x, cols, opts);
        assert(map_picks(vals, ins) =~= map_picks(vals, prev).push(vals[s.last() as int]));
        assert(map_picks(vals, s) =~= map_picks(vals, s.drop_last()).push(vals[s.last() as int]));
        assert(map_picks(vals, ins).to_multiset() =~= map_picks(vals, s).to_multiset().insert(
            vals[x as int],
        ));
    } else {
        assert(map_picks(vals, ins) =~= map_picks(vals, s).push(vals[x as int]));
    }
}

/// The rows picked by the sorted index vector are exactly the first `n`
/// rows of `vals`, as a multiset.
pub proof fn lemma_sort_indices_map_multiset<T>(
    vals: Seq<T>,
    cols: Seq<Seq<Option<u64>>>,
    opts: Seq<SortOptions>,
    n: nat,
)
    requires
        n <= vals.len(),
        n <= u32::MAX,
    ensures
        map_picks(vals, sort_indices_spec(cols, opts, n)).to_multiset() == vals.take(
            n as int,
        ).to_multiset(),
    decreases n,
{
    broadcast use vstd::seq_lib::group_to_multiset_ensures;

    if n == 0 {
        assert(map_picks(vals, sort_indices_spec(cols, opts, 0)) =~= Seq::<T>::empty());
        assert(vals.take(0) =~= Seq::<T>::empty());
    } else {
        let prev = sort_indices_spec(cols, opts, (n - 1) as nat);
        lemma_sort_indices_map_multiset(vals, cols, opts, (n - 1) as nat);
        lemma_insert_sorted_map_multiset(vals, prev, (n - 1) as u32, cols, opts);
        assert(vals.take(n as int) =~= vals.take(n - 1).push(vals[n - 1]));
    }
}

/// The last entry of an insertion is the new id or the old last entry.
proof fn lemma_insert_sorted_last(
    s: Seq<u32>,
    x: u32,
    cols: Seq<Seq<Option<u64>>>,
    opts: Seq<SortOptions>,
)
    ensures
        insert_sorted(s, x, cols, opts).last() == x || (s.len() > 0 && insert_sorted(
            s,
            x,
            cols,
            opts,
        ).last() == s.last()),
{
}

/// Appending an id that no sorted sequence's last entry exceeds keeps it
/// sorted.
proof fn lemma_sorted_push(
    t: Seq<u32>,
    y: u32,
    cols: Seq<Seq<Option<u64>>>,
    opts: Seq<SortOptions>,
)
    requires
        sorted_idx(t, cols, opts),
        t.len() > 0 ==> idx_cmp(cols, opts, t.last() as int, y as int) != Ordering::Greater,
    ensures
        sorted_idx(t.push(y), cols, opts),
{
    let u = t.push(y);
    assert forall|i: int| 0 <= i < u.len() - 1 implies idx_cmp(
        cols,
        opts,
        #[trigger] u[i] as int,
        u[i + 1] as int,
    ) != Ordering::Greater by {
        if i < t.len() - 1 {
            assert(u[i] == t[i]);
            assert(u[i + 1] == t[i + 1]);
        } else {
            assert(u[i] == t.last());
            assert(u[i + 1] == y);
        }
    }
}

/// Insertion keeps the index sequence sorted.
pub proof fn lemma_insert_sorted_sorted(
    s: Seq<u32>,
    x: u32,
    cols: Seq<Seq<Option<u64>>>,
    opts: Seq<SortOptions>,
)
    requires
        sorted_idx(s, cols, opts),
        cols.len() == opts.len(),
    ensures
        sorted_idx(insert_sorted(s, x, cols, opts), cols, opts),
    decreases s.len(), 1int,
{
    let ins = insert_sorted(s, x, cols, opts);
    if s.len() == 0 {
    } else if idx_cmp(cols, opts, s.last() as int, x as int) == Ordering::Greater {
        lemma_insert_sorted_sorted_shift(s, x, cols, opts);
    } else {
        assert(ins == s.push(x));
        lemma_sorted_push(s, x, cols, opts);
    }
}

/// The shifting case of sorted insertion: the old last entry compares
/// `Greater`, so it moves behind the inserted id.
#[verifier::spinoff_prover]
#[verifier::rlimit(100)]
proof fn lemma_insert_sorted_sorted_shift(
    s: Seq<u32>,
    x: u32,
    cols: Seq<Seq<Option<u64>>>,
    opts: Seq<SortOptions>,
)
    requires
        sorted_idx(s, cols, opts),
        cols.len() == opts.len(),
        s.len() > 0,
        idx_cmp(cols, opts, s.last() as int, x as int) == Ordering::Greater,
    ensures
        sorted_idx(insert_sorted(s, x, cols, opts), cols, opts),
    decreases s.len(), 0int,
{
    let ins = insert_sorted(s, x, cols, opts);
    let prev = insert_sorted(s.drop_last(), x, cols, opts);
    assert(ins == prev.push(s.last()));
    assert(sorted_idx(s.drop_last(), cols, opts)) by {
        assert forall|i: int| 0 <= i < s.drop_last().len() - 1 implies idx_cmp(
            cols,
            opts,
            #[trigger] s.drop_last()[i] as int,
            s.drop_last()[i + 1] as int,
        ) != Ordering::Greater by {
            assert(s.drop_last()[i] == s[i]);
            assert(s.drop_last()[i + 1] == s[i + 1]);
        }
    }
    lemma_insert_sorted_sorted(s.drop_last(), x, cols, opts);
    lemma_insert_sorted_shape(s.drop_last(), x, cols, opts);
    lemma_insert_sorted_last(s.drop_last(), x, cols, opts);
    // The entry pushed on the end sorts after the last of the insertion.
    assert(prev.len() > 0);
    assert(idx_cmp(cols, opts, prev.last() as int, s.last() as int) != Ordering::Greater) by {
        if prev.last() == x {
            lemma_sort_row_cmp_flip(key_row(cols, s.last() as int), key_row(cols, x as int), opts);
        } else {
            assert(s.drop_last().len() > 0 && prev.last() == s.drop_last().last());
            assert(s.drop_last().last() == s[s.len() - 2]);
            assert(idx_cmp(cols, opts, s[s.len() - 2] as int, s[s.len() - 1] as int)
                != Ordering::Greater);
        }
    }
    lemma_sorted_push(prev, s.last(), cols, opts);
}

/// The sorted index vector is sorted.
pub proof fn lemma_sort_indices_sorted(cols: Seq<Seq<Option<u64>>>, opts: Seq<SortOptions>, n: nat)
    requires
        cols.len() == opts.len(),
    ensures
        sorted_idx(sort_indices_spec(cols, opts, n), cols, opts),
    decreases n,
{
    if n > 0 {
        lemma_sort_indices_sorted(cols, opts, (n - 1) as nat);
        lemma_insert_sorted_sorted(
            sort_indices_spec(cols, opts, (n - 1) as nat),
            (n - 1) as u32,
            cols,
            opts,
        );
    }
}

/// Compares two nullable values under the sort comparator.
fn sort_value_compare(l: Option<u64>, r: Option<u64>, o: SortOptions) -> (c: Ordering)
    ensures
        c == sort_value_cmp(l, r, o),
{
    match (l, r) {
        (Some(a), Some(b)) => {
            let base = if a < b {
                Ordering::Less
            } else if a == b {
                Ordering::Equal
            } else {
                Ordering::Greater
            };
            if o.descending {
                match base {
                    Ordering::Less => Ordering::Greater,
                    Ordering::Equal => Ordering::Equal,
                    Ordering::Greater => Ordering::Less,
                }
            } else {
                base
            }
        },
        (None, Some(_)) => if o.nulls_first {
            Ordering::Less
        } else {
            Ordering::Greater
        },
        (Some(_), None) => if o.nulls_first {
            Ordering::Greater
        } else {
            Ordering::Less
        },
        (None, None) => Ordering::Equal,
    }
}

/// Once the first `k` keys tie, the row comparison is decided by the rest.
proof fn lemma_sort_row_cmp_skip(a: Seq<Option<u64>>, b: Seq<Option<u64>>, opts: Seq<
    SortOptions,
>, k: int)
    requires
        0 <= k < opts.len(),
        a.len() == opts.len(),
        b.len() == opts.len(),
        sort_value_cmp(a[k], b[k], opts[k]) == Ordering::Equal,
        sort_row_cmp(a, b, opts) == sort_row_cmp(a.skip(k), b.skip(k), opts.skip(k)),
    ensures
        sort_row_cmp(a, b, opts) == sort_row_cmp(a.skip(k + 1), b.skip(k + 1), opts.skip(k + 1)),
{
    assert(a.skip(k)[0] == a[k]);
    assert(b.skip(k)[0] == b[k]);
    assert(opts.skip(k)[0] == opts[k]);
    assert(a.skip(k).drop_first() =~= a.skip(k + 1));
    assert(b.skip(k).drop_first() =~= b.skip(k + 1));
    assert(opts.skip(k).drop_first() =~= opts.skip(k + 1));
}

/// Compares rows `a` and `b` of the key columns, major-to-minor, under the
/// sort comparator.
fn sort_rows_compare(
    columns: &Vec<DataArray>,
    options: &Vec<SortOptions>,
    row_count: usize,
    a: u32,
    b: u32,
) -> (c: Ordering)
    requires
        columns@.len() == options@.len(),
        forall|k: int|
            0 <= k < columns@.len() ==> (#[trigger] columns@[k]@.len()) == row_count,
        a < row_count,
        b < row_count,
    ensures
        c == idx_cmp(cols_of(columns@), options@, a as int, b as int),
{
    let ghost cols = cols_of(columns@);
    let ghost rowa = key_row(cols, a as int);
    let ghost rowb = key_row(cols, b as int);
    let n = options.len();
    proof {
        assert(rowa.skip(0) =~= rowa);
        assert(rowb.skip(0) =~= rowb);
        assert(options@.skip(0) =~= options@);
    }
    let mut k: usize = 0;
    while k < n
        invariant
            n == options@.len(),
            columns@.len() == n,
            forall|j: int|
                0 <= j < columns@.len() ==> (#[trigger] columns@[j]@.len()) == row_count,
            a < row_count,
            b < row_count,
            cols == cols_of(columns@),
            rowa == key_row(cols, a as int),
            rowb == key_row(cols, b as int),
            k <= n,
            sort_row_cmp(rowa, rowb, options@) == sort_row_cmp(
                rowa.skip(k as int),
                rowb.skip(k as int),
                options@.skip(k as int),
            ),
        decreases n - k,
    {
        assert(cols[k as int] == columns@[k as int]@);
        let lv = columns[k].value(a as usize);
        let rv = columns[k].value(b as usize);
        let c = sort_value_compare(lv, rv, options[k]);
        proof {
            assert(rowa.skip(k as int)[0] == rowa[k as int]);
            assert(rowb.skip(k as int)[0] == rowb[k as int]);
            assert(options@.skip(k as int)[0] == options@[k as int]);
        }
        match c {
            Ordering::Equal => {
                proof {
                    lemma_sort_row_cmp_skip(rowa, rowb, options@, k as int);
                }
                k += 1;
            },
            _ => {
                return c;
            },
        }
    }
    assert(rowa.skip(n as int) =~= Seq::<Option<u64>>::empty());
    assert(options@.skip(n as int) =~= Seq::<SortOptions>::empty());
    Ordering::Equal
}

/// Sorts the row ids `0..row_count` lexicographically under the key
/// columns and options, by a stable insertion sort.
pub fn lexsort_to_indices(
    columns: &Vec<DataArray>,
    options: &Vec<SortOptions>,
    row_count: usize,
) -> (r: Vec<u32>)
    requires
        columns@.len() == options@.len(),
        forall|k: int|
            0 <= k < columns@.len() ==> (#[trigger] columns@[k]@.len()) == row_count,
        row_count <= u32::MAX,
    ensures
        r@ == sort_indices_spec(cols_of(columns@), options@, row_count as nat),
{
    let ghost cols = cols_of(columns@);
    let mut idx: Vec<u32> = Vec::new();
    let mut i: usize = 0;
    while i < row_count
        invariant
            columns@.len() == options@.len(),
            forall|k: int|
                0 <= k < columns@.len() ==> (#[trigger] columns@[k]@.len()) == row_count,
            row_count <= u32::MAX,
            cols == cols_of(columns@),
            i <= row_count,
            idx@.len() == i,
            idx@ == sort_indices_spec(cols, options@, i as nat),
            forall|k: int| 0 <= k < i ==> (#[trigger] idx@[k]) < row_count,
        decreases row_count - i,
    {
        let ghost s = idx@;
        let x = i as u32;
        idx.push(x);
        let mut j: usize = i;
        proof {
            lemma_sort_indices_bounds(cols, options@, i as nat);
            assert(s.subrange(0, i as int) =~= s);
            assert(s.subrange(i as int, i as int) =~= Seq::<u32>::empty());
            assert(idx@ =~= s.subrange(0, j as int) + seq![x] + s.subrange(j as int, i as int));
            assert(insert_sorted(s.subrange(0, j as int), x, cols, options@) + s.subrange(
                j as int,
                i as int,
            ) =~= insert_sorted(s, x, cols, options@));
        }
        let mut moving = true;
        while moving && j > 0
            invariant
                !moving ==> j == 0 || idx_cmp(cols, options@, s[j - 1] as int, x as int)
                    != Ordering::Greater,
                columns@.len() == options@.len(),
                forall|k: int|
                    0 <= k < columns@.len() ==> (#[trigger] columns@[k]@.len()) == row_count,
                row_count <= u32::MAX,
                cols == cols_of(columns@),
                i < row_count,
                x == i as u32,
                j <= i,
                s == sort_indices_spec(cols, options@, i as nat),
                s.len() == i,
                forall|k: int| 0 <= k < i ==> (#[trigger] s[k]) < row_count,
                idx@ =~= s.subrange(0, j as int) + seq![x] + s.subrange(j as int, i as int),
                insert_sorted(s, x, cols, options@) =~= insert_sorted(
                    s.subrange(0, j as int),
                    x,
                    cols,
                    options@,
                ) + s.subrange(j as int, i as int),
            decreases j + (if moving {
                1int
            } else {
                0int
            }),
        {
            let prev = idx[j - 1];
            assert(prev == s[j - 1]);
            let c = sort_rows_compare(columns, options, row_count, prev, x);
            match c {
                Ordering::Greater => {
                    let ghost front = s.subrange(0, j as int);
                    proof {
                        assert(front.last() == s[j - 1]);
                        assert(front.drop_last() =~= s.subrange(0, j - 1));
                        assert(insert_sorted(front, x, cols, options@) == insert_sorted(
                            s.subrange(0, j - 1),
                            x,
                            cols,
                            options@,
                        ).push(s[j - 1]));
                    }
                    let cur = idx[j];
                    idx.set(j, prev);
                    idx.set(j - 1, cur);
                    proof {
                        assert(idx@ =~= s.subrange(0, j - 1) + seq![x] + s.subrange(
                            j - 1,
                            i as int,
                        ));
                        assert(insert_sorted(s.subrange(0, j - 1), x, cols, options@)
                            + s.subrange(j - 1, i as int) =~= insert_sorted(
                            s.subrange(0, j as int),
                            x,
                            cols,
                            options@,
                        ) + s.subrange(j as int, i as int));
                    }
                    j -= 1;
                },
                _ => {
                    moving = false;
                },
            }
        }
        proof {
            let front = s.subrange(0, j as int);
            if j > 0 {
                assert(front.last() == s[j - 1]);
                assert(idx_cmp(cols, options@, s[j - 1] as int, x as int) != Ordering::Greater);
                assert(insert_sorted(front, x, cols, options@) == front.push(x));
            } else {
                assert(front =~= Seq::<u32>::empty());
                assert(insert_sorted(front, x, cols, options@) == seq![x]);
            }
            assert(idx@ =~= front + seq![x] + s.subrange(j as int, i as int));
            assert(front.push(x) =~= front + seq![x]);
            assert(idx@ =~= insert_sorted(s, x, cols, options@));
            lemma_sort_indices_bounds(cols, options@, (i + 1) as nat);
        }
        i += 1;
    }
    idx
}

} // verus!
