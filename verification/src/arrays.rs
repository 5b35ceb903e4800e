//! The columnar array model.
//!
//! A `DataArray` is an immutable vector of nullable unsigned integers: the
//! element view the sort and merge core reads from a column (a value, or a
//! null).  The kernels the core needs — `take`, `slice` and `concat` — are
//! defined here with exact contracts.

use vstd::prelude::*;

verus! {

/// Per-key comparator options: direction and null placement.
#[derive(Clone, Copy, PartialEq, Eq, Structural, Debug)]
pub struct SortOptions {
    /// Compare in descending order.
    pub descending: bool,
    /// Place nulls before all values.
    pub nulls_first: bool,
}

impl Default for SortOptions {
    /// The default options: ascending, nulls first.
    fn default() -> (r: SortOptions)
        ensures
            r.descending == false,
            r.nulls_first == true,
    {
        SortOptions { descending: false, nulls_first: true }
    }
}

/// One column of a block: a vector of nullable values.
///
/// `None` is a null entry; `Some(v)` is a valid entry holding `v`.
pub struct DataArray {
    /// The entries, in row order.
    pub values: Vec<Option<u64>>,
}

impl View for DataArray {
    type V = Seq<Option<u64>>;

    open spec fn view(&self) -> Seq<Option<u64>> {
        self.values@
    }
}

impl DataArray {
    /// Builds an array from its entries.
    pub fn from_values(values: Vec<Option<u64>>) -> (r: DataArray)
        ensures
            r@ == values@,
    {
        DataArray { values }
    }

    /// The number of entries.
    pub fn len(&self) -> (r: usize)
        ensures
            r == self@.len(),
    {
        self.values.len()
    }

    /// True iff entry `i` is valid (not null).
    pub fn is_valid(&self, i: usize) -> (r: bool)
        requires
            i < self@.len(),
        ensures
            r == self@[i as int].is_some(),
    {
        self.values[i].is_some()
    }

    /// The entry at row `i`.
    pub fn value(&self, i: usize) -> (r: Option<u64>)
        requires
            i < self@.len(),
        ensures
            r == self@[i as int],
    {
        self.values[i]
    }

    /// An element-wise copy of this array.
    pub fn duplicate(&self) -> (r: DataArray)
        ensures
            r@ == self@,
    {
        let n = self.values.len();
        let mut values: Vec<Option<u64>> = Vec::new();
        let mut i: usize = 0;
        while i < n
            invariant
                n == self@.len(),
                i <= n,
                values@ == self@.subrange(0, i as int),
            decreases n - i,
        {
            values.push(self.values[i]);
            i += 1;
        }
        assert(values@ =~= self@);
        DataArray { values }
    }

    /// The contiguous sub-array of `len` entries starting at `offset`.
    pub fn slice(&self, offset: usize, len: usize) -> (r: DataArray)
        requires
            offset + len <= self@.len(),
        ensures
            r@ == self@.subrange(offset as int, offset as int + len as int),
    {
        let n = self.values.len();
        let mut values: Vec<Option<u64>> = Vec::new();
        let mut i: usize = 0;
        while i < len
            invariant
                n == self@.len(),
                offset + len <= n,
                i <= len,
                values@ == self@.subrange(offset as int, offset as int + i as int),
            decreases len - i,
        {
            values.push(self.values[offset + i]);
            assert(values@ =~= self@.subrange(offset as int, offset as int + (i + 1) as int));
            i += 1;
        }
        DataArray { values }
    }
}

/// What `take` returns: entry `k` of the result is the entry of `a` at row
/// `indices[k]`.
pub open spec fn spec_take(a: Seq<Option<u64>>, indices: Seq<u32>) -> Seq<Option<u64>> {
    Seq::new(indices.len(), |k: int| a[indices[k] as int])
}

/// Permutes an array by a vector of row indices.
pub fn take(a: &DataArray, indices: &Vec<u32>) -> (r: DataArray)
    requires
        forall|k: int| 0 <= k < indices@.len() ==> (#[trigger] indices@[k]) < a@.len(),
    ensures
        r@ == spec_take(a@, indices@),
{
    let n = indices.len();
    let mut values: Vec<Option<u64>> = Vec::new();
    let mut i: usize = 0;
    while i < n
        invariant
            n == indices@.len(),
            forall|k: int| 0 <= k < indices@.len() ==> (#[trigger] indices@[k]) < a@.len(),
            i <= n,
            values@ == spec_take(a@, indices@).subrange(0, i as int),
        decreases n - i,
    {
        let idx = indices[i];
        values.push(a.values[idx as usize]);
        assert(values@ =~= spec_take(a@, indices@).subrange(0, (i + 1) as int));
        i += 1;
    }
    assert(values@ =~= spec_take(a@, indices@));
    DataArray { values }
}

/// What `concat` returns: the entries of each input, in input order.
pub open spec fn spec_concat(arrays: Seq<Seq<Option<u64>>>) -> Seq<Option<u64>>
    decreases arrays.len(),
{
    if arrays.len() == 0 {
        Seq::empty()
    } else {
        arrays[0] + spec_concat(arrays.drop_first())
    }
}

/// Concatenates the given arrays in order.
pub fn concat(arrays: &Vec<DataArray>) -> (r: DataArray)
    ensures
        r@ == spec_concat(arrays@.map_values(|a: DataArray| a@)),
{
    let ghost model = arrays@.map_values(|a: DataArray| a@);
    let n = arrays.len();
    let mut values: Vec<Option<u64>> = Vec::new();
    let mut i: usize = 0;
    while i < n
        invariant
            n == arrays@.len(),
            model == arrays@.map_values(|a: DataArray| a@),
            i <= n,
            values@ == spec_concat(model.subrange(0, i as int)),
        decreases n - i,
    {
        let a = &arrays[i];
        let m = a.values.len();
        let mut j: usize = 0;
        while j < m
            invariant
                i < n,
                n == arrays@.len(),
                model == arrays@.map_values(|a: DataArray| a@),
                m == arrays@[i as int]@.len(),
                j <= m,
                a == arrays@[i as int],
                values@ == spec_concat(model.subrange(0, i as int)) + arrays@[i as int]@.subrange(
                    0,
                    j as int,
                ),
            decreases m - j,
        {
            values.push(a.values[j]);
            assert(values@ =~= spec_concat(model.subrange(0, i as int)) + arrays@[i as int]@
                .subrange(0, (j + 1) as int));
            j += 1;
        }
        proof {
            lemma_spec_concat_snoc(model, i as int);
            assert(values@ =~= spec_concat(model.subrange(0, (i + 1) as int)));
        }
        i += 1;
    }
    proof {
        assert(model.subrange(0, model.len() as int) =~= model);
    }
    DataArray { values }
}

/// The total length of a sequence of arrays.
pub open spec fn total_len(arrays: Seq<Seq<Option<u64>>>) -> int
    decreases arrays.len(),
{
    if arrays.len() == 0 {
        0
    } else {
        arrays[0].len() + total_len(arrays.drop_first())
    }
}

/// A concatenation is as long as its inputs together.
pub proof fn lemma_spec_concat_len(arrays: Seq<Seq<Option<u64>>>)
    ensures
        spec_concat(arrays).len() == total_len(arrays),
    decreases arrays.len(),
{
    if arrays.len() > 0 {
        lemma_spec_concat_len(arrays.drop_first());
    }
}

/// Concatenating one more array appends its entries.
proof fn lemma_spec_concat_snoc(arrays: Seq<Seq<Option<u64>>>, i: int)
    requires
        0 <= i < arrays.len(),
    ensures
        spec_concat(arrays.subrange(0, i + 1)) == spec_concat(arrays.subrange(0, i)) + arrays[i],
    decreases i,
{
    if i == 0 {
        assert(arrays.subrange(0, 1).drop_first() =~= arrays.subrange(0, 0));
        assert(spec_concat(arrays.subrange(0, 0)) == Seq::<Option<u64>>::empty());
        assert(spec_concat(arrays.subrange(0, 1)) == arrays[0] + Seq::<Option<u64>>::empty());
        assert(spec_concat(arrays.subrange(0, 1)) =~= spec_concat(arrays.subrange(0, 0))
            + arrays[0]);
    } else {
        let tail = arrays.drop_first();
        lemma_spec_concat_snoc(tail, i - 1);
        assert(arrays.subrange(0, i + 1).drop_first() =~= tail.subrange(0, i));
        assert(arrays.subrange(0, i).drop_first() =~= tail.subrange(0, i - 1));
        assert(tail.subrange(0, i) =~= arrays.subrange(0, i + 1).drop_first());
        assert(spec_concat(arrays.subrange(0, i + 1)) == arrays[0] + spec_concat(
            tail.subrange(0, i),
        ));
        assert(spec_concat(arrays.subrange(0, i)) == arrays[0] + spec_concat(
            tail.subrange(0, i - 1),
        ));
        assert(tail[i - 1] == arrays[i]);
        assert(arrays[0] + (spec_concat(tail.subrange(0, i - 1)) + tail[i - 1]) =~= (arrays[0]
            + spec_concat(tail.subrange(0, i - 1))) + arrays[i]);
    }
}

} // verus!
