//! Comparator semantics shared by sort and merge.
//!
//! A key list is compared major-to-minor: the first key whose comparison is
//! not `Equal` decides; if every key ties the rows compare `Equal`.  Per key,
//! a valid pair compares by value, a null against a value is placed by
//! `nulls_first`, and a null pair compares `Equal` (falling through to the
//! next key).
//!
//! Direction is where the two consumers differ, and both readings are kept
//! apart here on purpose:
//! - the merge comparator reverses the whole per-key result when
//!   `descending` is set, nulls included;
//! - the sort comparator reverses only comparisons between two valid values,
//!   so null placement follows `nulls_first` alone.

use core::cmp::Ordering;
use vstd::prelude::*;

use crate::arrays::SortOptions;

verus! {

/// The order of two integers.
pub open spec fn int_ord(a: int, b: int) -> Ordering {
    if a < b {
        Ordering::Less
    } else if a == b {
        Ordering::Equal
    } else {
        Ordering::Greater
    }
}

/// The opposite of an ordering.
pub open spec fn reverse_ord(o: Ordering) -> Ordering {
    match o {
        Ordering::Less => Ordering::Greater,
        Ordering::Equal => Ordering::Equal,
        Ordering::Greater => Ordering::Less,
    }
}

/// The per-key comparison used by the merge: nulls placed by `nulls_first`,
/// and the whole result — null placement included — reversed when
/// `descending` is set.
pub open spec fn merge_value_cmp(l: Option<u64>, r: Option<u64>, o: SortOptions) -> Ordering {
    let base = match (l, r) {
        (Some(a), Some(b)) => int_ord(a as int, b as int),
        (None, Some(_)) => if o.nulls_first {
            Ordering::Less
        } else {
            Ordering::Greater
        },
        (Some(_), None) => if o.nulls_first {
            Ordering::Greater
        } else {
            Ordering::Less
        },
        (None, None) => Ordering::Equal,
    };
    if o.descending {
        reverse_ord(base)
    } else {
        base
    }
}

/// The per-key comparison used by the in-block sort: `descending` reverses
/// only comparisons between two valid values; null placement follows
/// `nulls_first` alone.
pub open spec fn sort_value_cmp(l: Option<u64>, r: Option<u64>, o: SortOptions) -> Ordering {
    match (l, r) {
        (Some(a), Some(b)) => if o.descending {
            reverse_ord(int_ord(a as int, b as int))
        } else {
            int_ord(a as int, b as int)
        },
        (None, Some(_)) => if o.nulls_first {
            Ordering::Less
        } else {
            Ordering::Greater
        },
        (Some(_), None) => if o.nulls_first {
            Ordering::Greater
        } else {
            Ordering::Less
        },
        (None, None) => Ordering::Equal,
    }
}

/// Major-to-minor comparison of two key rows (`a[k]` and `b[k]` are the
/// entries of the `k`-th key column) under the merge comparator.
pub open spec fn merge_row_cmp(a: Seq<Option<u64>>, b: Seq<Option<u64>>, opts: Seq<
    SortOptions,
>) -> Ordering
    decreases opts.len(),
{
    if opts.len() == 0 {
        Ordering::Equal
    } else {
        let c = merge_value_cmp(a[0], b[0], opts[0]);
        if c != Ordering::Equal {
            c
        } else {
            merge_row_cmp(a.drop_first(), b.drop_first(), opts.drop_first())
        }
    }
}

/// Major-to-minor comparison of two key rows under the sort comparator.
pub open spec fn sort_row_cmp(a: Seq<Option<u64>>, b: Seq<Option<u64>>, opts: Seq<
    SortOptions,
>) -> Ordering
    decreases opts.len(),
{
    if opts.len() == 0 {
        Ordering::Equal
    } else {
        let c = sort_value_cmp(a[0], b[0], opts[0]);
        if c != Ordering::Equal {
            c
        } else {
            sort_row_cmp(a.drop_first(), b.drop_first(), opts.drop_first())
        }
    }
}

/// The key row of row `i`: its entry in each key column.
pub open spec fn key_row(cols: Seq<Seq<Option<u64>>>, i: int) -> Seq<Option<u64>> {
    Seq::new(cols.len(), |k: int| cols[k][i])
}

// ---------------------------------------------------------------------------
// Both comparators order each entry exactly as an integer rank does, which
// makes the order laws below plain integer arithmetic.
// ---------------------------------------------------------------------------
/// An integer whose order mirrors `merge_value_cmp` under `o`.
pub open spec fn merge_rank(v: Option<u64>, o: SortOptions) -> int {
    let base: int = match v {
        Some(x) => x as int + 1,
        None => if o.nulls_first {
            0
        } else {
            0x10000000000000001
        },
    };
    if o.descending {
        -base
    } else {
        base
    }
}

/// An integer whose order mirrors `sort_value_cmp` under `o`.
pub open spec fn sort_rank(v: Option<u64>, o: SortOptions) -> int {
    match v {
        Some(x) => if o.descending {
            -(x as int) - 1
        } else {
            x as int + 1
        },
        None => if o.nulls_first {
            -0x10000000000000002
        } else {
            0x10000000000000002
        },
    }
}

/// The merge comparator is the order of the merge ranks.
pub proof fn lemma_merge_value_cmp_is_rank(l: Option<u64>, r: Option<u64>, o: SortOptions)
    ensures
        merge_value_cmp(l, r, o) == int_ord(merge_rank(l, o), merge_rank(r, o)),
{
}

/// The sort comparator is the order of the sort ranks.
pub proof fn lemma_sort_value_cmp_is_rank(l: Option<u64>, r: Option<u64>, o: SortOptions)
    ensures
        sort_value_cmp(l, r, o) == int_ord(sort_rank(l, o), sort_rank(r, o)),
{
}

/// Lexicographic comparison of two integer sequences.
pub open spec fn lex_cmp(a: Seq<int>, b: Seq<int>) -> Ordering
    decreases a.len(),
{
    if a.len() == 0 {
        Ordering::Equal
    } else {
        let c = int_ord(a[0], b[0]);
        if c != Ordering::Equal {
            c
        } else {
            lex_cmp(a.drop_first(), b.drop_first())
        }
    }
}

/// The merge rank row of a key row.
pub open spec fn merge_rank_row(a: Seq<Option<u64>>, opts: Seq<SortOptions>) -> Seq<int> {
    Seq::new(opts.len(), |k: int| merge_rank(a[k], opts[k]))
}

/// The sort rank row of a key row.
pub open spec fn sort_rank_row(a: Seq<Option<u64>>, opts: Seq<SortOptions>) -> Seq<int> {
    Seq::new(opts.len(), |k: int| sort_rank(a[k], opts[k]))
}

/// Row comparison under the merge comparator is lexicographic comparison of
/// merge rank rows.
pub proof fn lemma_merge_row_cmp_is_lex(a: Seq<Option<u64>>, b: Seq<Option<u64>>, opts: Seq<
    SortOptions,
>)
    requires
        a.len() == opts.len(),
        b.len() == opts.len(),
    ensures
        merge_row_cmp(a, b, opts) == lex_cmp(merge_rank_row(a, opts), merge_rank_row(b, opts)),
    decreases opts.len(),
{
    if opts.len() == 0 {
    } else {
        lemma_merge_value_cmp_is_rank(a[0], b[0], opts[0]);
        lemma_merge_row_cmp_is_lex(a.drop_first(), b.drop_first(), opts.drop_first());
        assert(merge_rank_row(a.drop_first(), opts.drop_first()) =~= merge_rank_row(
            a,
            opts,
        ).drop_first());
        assert(merge_rank_row(b.drop_first(), opts.drop_first()) =~= merge_rank_row(
            b,
            opts,
        ).drop_first());
    }
}

/// Row comparison under the sort comparator is lexicographic comparison of
/// sort rank rows.
pub proof fn lemma_sort_row_cmp_is_lex(a: Seq<Option<u64>>, b: Seq<Option<u64>>, opts: Seq<
    SortOptions,
>)
    requires
        a.len() == opts.len(),
        b.len() == opts.len(),
    ensures
        sort_row_cmp(a, b, opts) == lex_cmp(sort_rank_row(a, opts), sort_rank_row(b, opts)),
    decreases opts.len(),
{
    if opts.len() == 0 {
    } else {
        lemma_sort_value_cmp_is_rank(a[0], b[0], opts[0]);
        lemma_sort_row_cmp_is_lex(a.drop_first(), b.drop_first(), opts.drop_first());
        assert(sort_rank_row(a.drop_first(), opts.drop_first()) =~= sort_rank_row(
            a,
            opts,
        ).drop_first());
        assert(sort_rank_row(b.drop_first(), opts.drop_first()) =~= sort_rank_row(
            b,
            opts,
        ).drop_first());
    }
}

/// A sequence compares `Equal` with itself.
pub proof fn lemma_lex_cmp_refl(a: Seq<int>)
    ensures
        lex_cmp(a, a) == Ordering::Equal,
    decreases a.len(),
{
    if a.len() > 0 {
        lemma_lex_cmp_refl(a.drop_first());
    }
}

/// Swapping the sides reverses the result.
pub proof fn lemma_lex_cmp_flip(a: Seq<int>, b: Seq<int>)
    requires
        a.len() == b.len(),
    ensures
        lex_cmp(b, a) == reverse_ord(lex_cmp(a, b)),
    decreases a.len(),
{
    if a.len() > 0 {
        lemma_lex_cmp_flip(a.drop_first(), b.drop_first());
    }
}

/// A row compares `Equal` with itself under the merge comparator.
pub proof fn lemma_merge_row_cmp_refl(a: Seq<Option<u64>>, opts: Seq<SortOptions>)
    requires
        a.len() == opts.len(),
    ensures
        merge_row_cmp(a, a, opts) == Ordering::Equal,
{
    lemma_merge_row_cmp_is_lex(a, a, opts);
    lemma_lex_cmp_refl(merge_rank_row(a, opts));
}

/// Swapping the rows reverses the merge comparison.
pub proof fn lemma_merge_row_cmp_flip(a: Seq<Option<u64>>, b: Seq<Option<u64>>, opts: Seq<
    SortOptions,
>)
    requires
        a.len() == opts.len(),
        b.len() == opts.len(),
    ensures
        merge_row_cmp(b, a, opts) == reverse_ord(merge_row_cmp(a, b, opts)),
{
    lemma_merge_row_cmp_is_lex(a, b, opts);
    lemma_merge_row_cmp_is_lex(b, a, opts);
    lemma_lex_cmp_flip(merge_rank_row(a, opts), merge_rank_row(b, opts));
}

/// The merge comparison is transitive over `Less`-or-`Equal`.
pub proof fn lemma_merge_row_cmp_trans(
    a: Seq<Option<u64>>,
    b: Seq<Option<u64>>,
    c: Seq<Option<u64>>,
    opts: Seq<SortOptions>,
)
    requires
        a.len() == opts.len(),
        b.len() == opts.len(),
        c.len() == opts.len(),
        merge_row_cmp(a, b, opts) != Ordering::Greater,
        merge_row_cmp(b, c, opts) != Ordering::Greater,
    ensures
        merge_row_cmp(a, c, opts) != Ordering::Greater,
{
    lemma_merge_row_cmp_is_lex(a, b, opts);
    lemma_merge_row_cmp_is_lex(b, c, opts);
    lemma_merge_row_cmp_is_lex(a, c, opts);
    lemma_lex_cmp_trans(merge_rank_row(a, opts), merge_rank_row(b, opts), merge_rank_row(c, opts));
}

/// A row compares `Equal` with itself under the sort comparator.
pub proof fn lemma_sort_row_cmp_refl(a: Seq<Option<u64>>, opts: Seq<SortOptions>)
    requires
        a.len() == opts.len(),
    ensures
        sort_row_cmp(a, a, opts) == Ordering::Equal,
{
    lemma_sort_row_cmp_is_lex(a, a, opts);
    lemma_lex_cmp_refl(sort_rank_row(a, opts));
}

/// Swapping the rows reverses the sort comparison.
pub proof fn lemma_sort_row_cmp_flip(a: Seq<Option<u64>>, b: Seq<Option<u64>>, opts: Seq<
    SortOptions,
>)
    requires
        a.len() == opts.len(),
        b.len() == opts.len(),
    ensures
        sort_row_cmp(b, a, opts) == reverse_ord(sort_row_cmp(a, b, opts)),
{
    lemma_sort_row_cmp_is_lex(a, b, opts);
    lemma_sort_row_cmp_is_lex(b, a, opts);
    lemma_lex_cmp_flip(sort_rank_row(a, opts), sort_rank_row(b, opts));
}

/// The sort comparison is transitive over `Less`-or-`Equal`.
pub proof fn lemma_sort_row_cmp_trans(
    a: Seq<Option<u64>>,
    b: Seq<Option<u64>>,
    c: Seq<Option<u64>>,
    opts: Seq<SortOptions>,
)
    requires
        a.len() == opts.len(),
        b.len() == opts.len(),
        c.len() == opts.len(),
        sort_row_cmp(a, b, opts) != Ordering::Greater,
        sort_row_cmp(b, c, opts) != Ordering::Greater,
    ensures
        sort_row_cmp(a, c, opts) != Ordering::Greater,
{
    lemma_sort_row_cmp_is_lex(a, b, opts);
    lemma_sort_row_cmp_is_lex(b, c, opts);
    lemma_sort_row_cmp_is_lex(a, c, opts);
    lemma_lex_cmp_trans(sort_rank_row(a, opts), sort_rank_row(b, opts), sort_rank_row(c, opts));
}

/// `lex_cmp` composes transitively: chains through `Less`/`Equal` stay
/// `Less`/`Equal`, and strictness is preserved.
pub proof fn lemma_lex_cmp_trans(a: Seq<int>, b: Seq<int>, c: Seq<int>)
    requires
        a.len() == b.len(),
        b.len() == c.len(),
        lex_cmp(a, b) != Ordering::Greater,
        lex_cmp(b, c) != Ordering::Greater,
    ensures
        lex_cmp(a, c) != Ordering::Greater,
        lex_cmp(a, b) == Ordering::Less || lex_cmp(b, c) == Ordering::Less ==> lex_cmp(a, c)
            == Ordering::Less,
    decreases a.len(),
{
    if a.len() > 0 {
        if int_ord(a[0], b[0]) == Ordering::Equal && int_ord(b[0], c[0]) == Ordering::Equal {
            lemma_lex_cmp_trans(a.drop_first(), b.drop_first(), c.drop_first());
        }
    }
}

} // verus!
