//! Sorting and merging whole blocks.
//!
//! `sort_block` sorts one block lexicographically by a list of sort keys,
//! optionally truncated to a top-K prefix.  `merge_sort_block` merges two
//! blocks that are already sorted by the same keys, and
//! `merge_sort_blocks` extends that to any number of blocks by balanced
//! pairwise reduction.

use core::cmp::Ordering;
use vstd::multiset::Multiset;
use vstd::prelude::*;

use crate::array_merge::cols_of;
use crate::array_merge::count_false;
use crate::array_merge::count_true;
use crate::array_merge::key_rows;
use crate::array_merge::lemma_count_push;
use crate::array_merge::lemma_counts_prefix;
use crate::array_merge::lemma_merge_apply_index;
use crate::array_merge::lemma_merge_apply_len;
use crate::array_merge::lemma_merge_apply_multiset;
use crate::array_merge::lemma_merge_bitmap_counts;
use crate::array_merge::lemma_merge_bitmap_sorted;
use crate::array_merge::merge_apply;
use crate::array_merge::merge_array;
use crate::array_merge::merge_bitmap;
use crate::array_merge::merge_indices;
use crate::array_merge::side_rows;
use crate::array_merge::side_uniform;
use crate::array_merge::sorted_rows;
use crate::arrays::DataArray;
use crate::arrays::SortOptions;
use crate::arrays::spec_take;
use crate::arrays::take;
use crate::blocks::BlockModel;
use crate::blocks::DataBlock;
use crate::blocks::FieldModel;
use crate::blocks::block_rows;
use crate::blocks::field_index_of;
use crate::blocks::has_field;
use crate::blocks::lemma_field_index_of;
use crate::blocks::model_rows;
use crate::blocks::model_wf;
use crate::compare::key_row;
use crate::compare::sort_row_cmp;
use crate::error::FuseQueryError;
use crate::error::FuseQueryResult;
use crate::sort_indices::lemma_sort_indices_bounds;
use crate::sort_indices::lemma_sort_indices_map_multiset;
use crate::sort_indices::lemma_sort_indices_sorted;
use crate::sort_indices::lexsort_to_indices;
use crate::sort_indices::map_picks;
use crate::sort_indices::sort_indices_spec;
use crate::sort_indices::sorted_idx;

verus! {

/// One sort key: a column name, a direction, and a null placement.
pub struct SortColumnDescription {
    /// The name of the column to sort by.
    pub column_name: String,
    /// Sort ascending.
    pub asc: bool,
    /// Place nulls before all values.
    pub nulls_first: bool,
}

impl SortColumnDescription {
    /// An element-wise copy of this descriptor.
    pub fn duplicate(&self) -> (r: SortColumnDescription)
        ensures
            r.column_name@ == self.column_name@,
            r.asc == self.asc,
            r.nulls_first == self.nulls_first,
    {
        SortColumnDescription {
            column_name: self.column_name.clone(),
            asc: self.asc,
            nulls_first: self.nulls_first,
        }
    }
}

/// Every sort key resolves to a field of the schema.
pub open spec fn keys_ok(schema: Seq<FieldModel>, descs: Seq<SortColumnDescription>) -> bool {
    forall|k: int| 0 <= k < descs.len() ==> has_field(schema, (#[trigger] descs[k]).column_name@)
}

/// The comparator options of each sort key, in key order: `descending` is
/// the negation of `asc`.
pub open spec fn options_of(descs: Seq<SortColumnDescription>) -> Seq<SortOptions> {
    Seq::new(
        descs.len(),
        |k: int|
            SortOptions { descending: !descs[k].asc, nulls_first: descs[k].nulls_first },
    )
}

/// The key columns of a block, in key order: each key's name resolved to
/// the first field carrying it.
pub open spec fn key_columns(m: BlockModel, descs: Seq<SortColumnDescription>) -> Seq<
    Seq<Option<u64>>,
> {
    Seq::new(descs.len(), |k: int| m.columns[field_index_of(m.schema, descs[k].column_name@)])
}

/// The row count a limit cuts an `n`-row result to: `min(limit, n)`, or
/// `n` when no limit is given.
pub open spec fn cut_len(limit: Option<usize>, n: int) -> int {
    match limit {
        Some(k) => if k <= n {
            k as int
        } else {
            n
        },
        None => n,
    }
}

/// The sorted row-id vector of a block under the sort keys.
pub open spec fn spec_sort_indices_of(m: BlockModel, descs: Seq<SortColumnDescription>) -> Seq<
    u32,
> {
    sort_indices_spec(key_columns(m, descs), options_of(descs), model_rows(m) as nat)
}

/// What `sort_block` returns: every column permuted by the sorted row ids,
/// truncated to the limit, under the block's own schema.
pub open spec fn spec_sort_block(
    m: BlockModel,
    descs: Seq<SortColumnDescription>,
    limit: Option<usize>,
) -> BlockModel {
    let idx = spec_sort_indices_of(m, descs).take(cut_len(limit, model_rows(m)));
    BlockModel {
        schema: m.schema,
        columns: Seq::new(m.columns.len(), |j: int| spec_take(m.columns[j], idx)),
    }
}

/// Under a well-formed block, every resolved key column has the block's
/// row count.
pub proof fn lemma_key_columns_uniform(m: BlockModel, descs: Seq<SortColumnDescription>)
    requires
        model_wf(m),
        keys_ok(m.schema, descs),
    ensures
        forall|k: int|
            0 <= k < descs.len() ==> (#[trigger] key_columns(m, descs)[k]).len() == model_rows(m),
        side_uniform(key_columns(m, descs)),
        descs.len() > 0 ==> side_rows(key_columns(m, descs)) == model_rows(m),
{
    assert forall|k: int| 0 <= k < descs.len() implies (#[trigger] key_columns(m, descs)[k]).len()
        == model_rows(m) by {
        lemma_field_index_of(m.schema, descs[k].column_name@);
        let idx = field_index_of(m.schema, descs[k].column_name@);
        assert(0 <= idx < m.columns.len());
        assert(m.columns[idx].len() == model_rows(m));
    }
    assert forall|k: int| 0 <= k < key_columns(m, descs).len() implies (#[trigger] key_columns(
        m,
        descs,
    )[k].len()) == key_columns(m, descs)[0].len() by {}
}

/// Builds the per-key comparator options.
fn build_options(descs: &Vec<SortColumnDescription>) -> (r: Vec<SortOptions>)
    ensures
        r@ == options_of(descs@),
{
    let n = descs.len();
    let mut r: Vec<SortOptions> = Vec::new();
    let mut k: usize = 0;
    while k < n
        invariant
            n == descs@.len(),
            k <= n,
            r@ =~= options_of(descs@).subrange(0, k as int),
        decreases n - k,
    {
        r.push(
            SortOptions { descending: !descs[k].asc, nulls_first: descs[k].nulls_first },
        );
        assert(r@ =~= options_of(descs@).subrange(0, (k + 1) as int));
        k += 1;
    }
    assert(r@ =~= options_of(descs@));
    r
}

/// Resolves every sort key to a copy of its column, or `Internal` for the
/// first key whose name no field carries.
fn resolve_key_columns(block: &DataBlock, descs: &Vec<SortColumnDescription>) -> (res:
    FuseQueryResult<Vec<DataArray>>)
    requires
        block.wf(),
    ensures
        res is Ok <==> keys_ok(block@.schema, descs@),
        res matches Err(e) ==> e.is_internal(),
        res matches Ok(v) ==> v@.map_values(|a: DataArray| a@) == key_columns(block@, descs@),
{
    let n = descs.len();
    let mut v: Vec<DataArray> = Vec::new();
    let mut k: usize = 0;
    while k < n
        invariant
            n == descs@.len(),
            block.wf(),
            k <= n,
            v@.len() == k,
            forall|j: int| 0 <= j < k ==> has_field(block@.schema, (#[trigger] descs@[j]).column_name@),
            v@.map_values(|a: DataArray| a@) =~= key_columns(block@, descs@).subrange(0, k as int),
        decreases n - k,
    {
        let ghost old_v = v@;
        match block.column_by_name(&descs[k].column_name) {
            Ok(a) => {
                v.push(a.duplicate());
                proof {
                    let m = v@.map_values(|a: DataArray| a@);
                    assert forall|j: int| 0 <= j < m.len() implies m[j] == key_columns(
                        block@,
                        descs@,
                    ).subrange(0, (k + 1) as int)[j] by {
                        assert(m[j] == v@[j]@);
                        if j < k {
                            assert(v@[j] == old_v[j]);
                            assert(old_v.map_values(|a: DataArray| a@)[j] == old_v[j]@);
                        }
                    }
                    assert(m =~= key_columns(block@, descs@).subrange(0, (k + 1) as int));
                }
                k += 1;
            },
            Err(e) => {
                assert(!has_field(block@.schema, descs@[k as int].column_name@));
                return Err(e);
            },
        }
    }
    assert(v@.map_values(|a: DataArray| a@) =~= key_columns(block@, descs@));
    Ok(v)
}

/// Sorts one block lexicographically by the sort keys.
///
/// Fails with `Internal` exactly when some key's column name resolves to
/// no field of the block's schema.  On success the result keeps the
/// block's schema; its rows are the block's rows permuted by the sorted
/// row-id vector, truncated to `min(limit, rows)` when a limit is given.
pub fn sort_block(
    block: &DataBlock,
    sort_columns_descriptions: &Vec<SortColumnDescription>,
    limit: Option<usize>,
) -> (res: FuseQueryResult<DataBlock>)
    requires
        block.wf(),
        model_rows(block@) <= u32::MAX,
    ensures
        res is Err <==> !keys_ok(block@.schema, sort_columns_descriptions@),
        res matches Err(e) ==> e.is_internal(),
        res matches Ok(b) ==> {
            &&& b@ == spec_sort_block(block@, sort_columns_descriptions@, limit)
            &&& b.wf()
            &&& model_rows(b@) == cut_len(limit, model_rows(block@))
        },
{
    let ghost m = block@;
    let ghost descs = sort_columns_descriptions@;
    let order_columns = match resolve_key_columns(block, sort_columns_descriptions) {
        Ok(v) => v,
        Err(e) => {
            return Err(e);
        },
    };
    let options = build_options(sort_columns_descriptions);
    let num_rows = block.num_rows();
    proof {
        lemma_key_columns_uniform(m, descs);
        assert(cols_of(order_columns@) =~= key_columns(m, descs));
        assert forall|k: int| 0 <= k < order_columns@.len() implies (#[trigger] order_columns@[k]@
            .len()) == num_rows by {
            assert(order_columns@[k]@ == key_columns(m, descs)[k]);
        }
    }
    let mut indices = lexsort_to_indices(&order_columns, &options, num_rows);
    let ghost full = sort_indices_spec(key_columns(m, descs), options_of(descs), num_rows as nat);
    proof {
        lemma_sort_indices_bounds(key_columns(m, descs), options_of(descs), num_rows as nat);
    }
    match limit {
        Some(limit_size) => {
            let c = if limit_size < num_rows {
                limit_size
            } else {
                num_rows
            };
            indices.truncate(c);
            assert(indices@ =~= full.take(cut_len(limit, model_rows(m))));
        },
        None => {
            assert(indices@ =~= full.take(cut_len(limit, model_rows(m))));
        },
    }
    let ghost idx = indices@;
    let n_cols = block.num_columns();
    let mut columns: Vec<DataArray> = Vec::new();
    let mut j: usize = 0;
    while j < n_cols
        invariant
            block.wf(),
            m == block@,
            n_cols == m.columns.len(),
            idx == indices@,
            forall|k: int| 0 <= k < idx.len() ==> (#[trigger] idx[k]) < model_rows(m),
            j <= n_cols,
            columns@.len() == j,
            forall|c: int| 0 <= c < j ==> (#[trigger] columns@[c]@) == spec_take(m.columns[c], idx),
        decreases n_cols - j,
    {
        let col = block.column(j);
        assert(col@.len() == model_rows(m));
        columns.push(take(col, &indices));
        j += 1;
    }
    let result = DataBlock::create(block.schema.duplicate(), columns);
    proof {
        assert forall|c: int| 0 <= c < n_cols implies result@.columns[c] == spec_sort_block(
            m,
            descs,
            limit,
        ).columns[c] by {
            assert(result@.columns[c] == columns@[c]@);
        }
        assert(result@ =~= spec_sort_block(m, descs, limit));
        assert forall|c: int| 0 <= c < result@.columns.len() implies (#[trigger] result@.columns[c]
            .len()) == idx.len() by {
            assert(result@.columns[c] == spec_take(m.columns[c], idx));
        }
        assert(model_wf(result@));
    }
    Ok(result)
}

/// The merge bitmap of two blocks over their resolved key columns.
pub open spec fn spec_merge_bitmap_of(
    l: BlockModel,
    r: BlockModel,
    descs: Seq<SortColumnDescription>,
) -> Seq<bool> {
    merge_bitmap(key_columns(l, descs), key_columns(r, descs), options_of(descs), 0, 0)
}

/// What `merge_sort_block` returns: an empty side yields the other block
/// unchanged; otherwise every column pair is interleaved by the merge
/// bitmap, truncated to the limit, under the left block's schema.
pub open spec fn spec_merge_sort_block(
    l: BlockModel,
    r: BlockModel,
    descs: Seq<SortColumnDescription>,
    limit: Option<usize>,
) -> BlockModel {
    if model_rows(l) == 0 {
        r
    } else if model_rows(r) == 0 {
        l
    } else {
        let bitmap = spec_merge_bitmap_of(l, r, descs);
        let cut = bitmap.take(cut_len(limit, bitmap.len() as int));
        BlockModel {
            schema: l.schema,
            columns: Seq::new(
                l.columns.len(),
                |j: int| merge_apply(l.columns[j], r.columns[j], cut, 0, 0),
            ),
        }
    }
}

/// Merges two blocks that are each sorted by the sort keys.
///
/// An empty side returns the other block unchanged, whatever the keys.
/// Otherwise the call fails with `Internal` exactly when the key list is
/// empty or some key's name resolves to no field.  On success the columns
/// are interleaved pairwise by the merge bitmap of the resolved key
/// columns, truncated to `min(limit, rows)` when a limit is given, under
/// the left block's schema.
pub fn merge_sort_block(
    lhs: &DataBlock,
    rhs: &DataBlock,
    sort_columns_descriptions: &Vec<SortColumnDescription>,
    limit: Option<usize>,
) -> (res: FuseQueryResult<DataBlock>)
    requires
        lhs.wf(),
        rhs.wf(),
        lhs@.schema == rhs@.schema,
    ensures
        res is Err <==> (model_rows(lhs@) > 0 && model_rows(rhs@) > 0 && !(
        sort_columns_descriptions@.len() > 0 && keys_ok(lhs@.schema, sort_columns_descriptions@))),
        res matches Err(e) ==> e.is_internal(),
        res matches Ok(b) ==> {
            &&& b@ == spec_merge_sort_block(lhs@, rhs@, sort_columns_descriptions@, limit)
            &&& b.wf()
            &&& b@.schema == lhs@.schema
        },
{
    let ghost lm = lhs@;
    let ghost rm = rhs@;
    let ghost descs = sort_columns_descriptions@;
    if lhs.num_rows() == 0 {
        return Ok(rhs.duplicate());
    }
    if rhs.num_rows() == 0 {
        return Ok(lhs.duplicate());
    }
    let lhs_keys = match resolve_key_columns(lhs, sort_columns_descriptions) {
        Ok(v) => v,
        Err(e) => {
            return Err(e);
        },
    };
    let rhs_keys = match resolve_key_columns(rhs, sort_columns_descriptions) {
        Ok(v) => v,
        Err(e) => {
            return Err(e);
        },
    };
    let options = build_options(sort_columns_descriptions);
    proof {
        lemma_key_columns_uniform(lm, descs);
        lemma_key_columns_uniform(rm, descs);
        assert(cols_of(lhs_keys@) =~= key_columns(lm, descs));
        assert(cols_of(rhs_keys@) =~= key_columns(rm, descs));
    }
    let mut bitmap = match merge_indices(&lhs_keys, &rhs_keys, &options) {
        Ok(m) => m,
        Err(e) => {
            assert(descs.len() == 0);
            return Err(e);
        },
    };
    let ghost full = spec_merge_bitmap_of(lm, rm, descs);
    proof {
        assert(bitmap@ == full);
        lemma_merge_bitmap_counts(key_columns(lm, descs), key_columns(rm, descs), options_of(descs), 0, 0);
        assert(side_rows(key_columns(lm, descs)) == model_rows(lm));
        assert(side_rows(key_columns(rm, descs)) == model_rows(rm));
    }
    let total = bitmap.len();
    match limit {
        Some(limit_size) => {
            let c = if limit_size < total {
                limit_size
            } else {
                total
            };
            bitmap.truncate(c);
            assert(bitmap@ =~= full.take(cut_len(limit, full.len() as int)));
        },
        None => {
            assert(bitmap@ =~= full.take(cut_len(limit, full.len() as int)));
        },
    }
    let ghost cut = bitmap@;
    proof {
        lemma_counts_prefix(full, cut.len() as int);
        assert(full.take(cut.len() as int) =~= cut);
    }
    let n_cols = lhs.num_columns();
    assert(n_cols == rhs@.columns.len());
    let mut columns: Vec<DataArray> = Vec::new();
    let mut j: usize = 0;
    while j < n_cols
        invariant
            lhs.wf(),
            rhs.wf(),
            lm == lhs@,
            rm == rhs@,
            n_cols == lm.columns.len(),
            n_cols == rm.columns.len(),
            cut == bitmap@,
            count_true(cut) <= model_rows(lm),
            count_false(cut) <= model_rows(rm),
            j <= n_cols,
            columns@.len() == j,
            forall|c: int| 0 <= c < j ==> (#[trigger] columns@[c]@) == merge_apply(
                lm.columns[c],
                rm.columns[c],
                cut,
                0,
                0,
            ),
        decreases n_cols - j,
    {
        let a = lhs.column(j);
        let b = rhs.column(j);
        assert(a@.len() == model_rows(lm));
        assert(b@.len() == model_rows(rm));
        columns.push(merge_array(a, b, &bitmap));
        j += 1;
    }
    let result = DataBlock::create(lhs.schema.duplicate(), columns);
    proof {
        let spec = spec_merge_sort_block(lm, rm, descs, limit);
        assert forall|c: int| 0 <= c < n_cols implies result@.columns[c] == spec.columns[c] by {
            assert(result@.columns[c] == columns@[c]@);
        }
        assert(result@ =~= spec);
        assert forall|c: int| 0 <= c < result@.columns.len() implies (#[trigger] result@.columns[c]
            .len()) == cut.len() by {
            lemma_merge_apply_len(lm.columns[c], rm.columns[c], cut, 0, 0);
        }
        assert(model_wf(result@));
    }
    Ok(result)
}

/// How many of the given blocks hold at least one row.
pub open spec fn count_nonempty(models: Seq<BlockModel>) -> int
    decreases models.len(),
{
    if models.len() == 0 {
        0
    } else {
        (if model_rows(models[0]) > 0 {
            1int
        } else {
            0int
        }) + count_nonempty(models.drop_first())
    }
}

/// The nonempty count is bounded and splits across a cut.
pub proof fn lemma_count_nonempty_split(models: Seq<BlockModel>, h: int)
    requires
        0 <= h <= models.len(),
    ensures
        0 <= count_nonempty(models) <= models.len(),
        count_nonempty(models) == count_nonempty(models.take(h)) + count_nonempty(models.skip(h)),
    decreases models.len(),
{
    if models.len() == 0 {
        assert(models.take(h) =~= models);
        assert(models.skip(h) =~= models);
    } else if h == 0 {
        lemma_count_nonempty_split(models.drop_first(), 0);
        assert(models.take(0) =~= Seq::<BlockModel>::empty());
        assert(models.skip(0) =~= models);
        assert(models.drop_first().take(0) =~= Seq::<BlockModel>::empty());
        assert(models.drop_first().skip(0) =~= models.drop_first());
    } else {
        lemma_count_nonempty_split(models.drop_first(), h - 1);
        assert(models.take(h)[0] == models[0]);
        assert(models.take(h).drop_first() =~= models.drop_first().take(h - 1));
        assert(models.skip(h) =~= models.drop_first().skip(h - 1));
    }
}

/// What the balanced pairwise reduction of the given blocks produces:
/// one block is itself; more are split at the middle, each half reduced,
/// and the two results merged.
pub open spec fn spec_merge_sort_blocks(
    models: Seq<BlockModel>,
    descs: Seq<SortColumnDescription>,
    limit: Option<usize>,
) -> BlockModel
    decreases models.len(),
    when models.len() >= 1
{
    if models.len() == 1 {
        models[0]
    } else {
        let h = models.len() as int / 2;
        spec_merge_sort_block(
            spec_merge_sort_blocks(models.take(h), descs, limit),
            spec_merge_sort_blocks(models.skip(h), descs, limit),
            descs,
            limit,
        )
    }
}

/// The reduction keeps the common schema, and its result holds rows
/// exactly when some input with at most one nonempty block does.
pub proof fn lemma_spec_merge_blocks_props(
    models: Seq<BlockModel>,
    descs: Seq<SortColumnDescription>,
    limit: Option<usize>,
)
    requires
        models.len() > 0,
        forall|i: int| 0 <= i < models.len() ==> (#[trigger] models[i]).schema == models[0].schema,
    ensures
        spec_merge_sort_blocks(models, descs, limit).schema == models[0].schema,
        count_nonempty(models) == 0 ==> model_rows(spec_merge_sort_blocks(models, descs, limit))
            == 0,
        count_nonempty(models) == 1 ==> model_rows(spec_merge_sort_blocks(models, descs, limit))
            > 0,
    decreases models.len(),
{
    lemma_count_nonempty_split(models, models.len() as int / 2);
    if models.len() == 1 {
        assert(count_nonempty(models) == (if model_rows(models[0]) > 0 {
            1int
        } else {
            0int
        }) + count_nonempty(models.drop_first()));
        assert(count_nonempty(models.drop_first()) == 0);
    } else {
        let h = models.len() as int / 2;
        let left = models.take(h);
        let right = models.skip(h);
        assert(left[0] == models[0]);
        assert(right[0] == models[h]);
        assert forall|i: int| 0 <= i < left.len() implies (#[trigger] left[i]).schema
            == left[0].schema by {
            assert(left[i] == models[i]);
        }
        assert forall|i: int| 0 <= i < right.len() implies (#[trigger] right[i]).schema
            == right[0].schema by {
            assert(right[i] == models[h + i]);
        }
        lemma_spec_merge_blocks_props(left, descs, limit);
        lemma_spec_merge_blocks_props(right, descs, limit);
        lemma_count_nonempty_split(left, 0);
        lemma_count_nonempty_split(right, 0);
        let lb = spec_merge_sort_blocks(left, descs, limit);
        let rb = spec_merge_sort_blocks(right, descs, limit);
        if count_nonempty(models) == 0 {
            assert(count_nonempty(left) == 0 && count_nonempty(right) == 0);
            assert(model_rows(lb) == 0);
        } else if count_nonempty(models) == 1 {
            assert(count_nonempty(left) + count_nonempty(right) == 1);
        }
    }
}

/// Merges any number of blocks, each sorted by the sort keys, by balanced
/// pairwise reduction.
///
/// Fails with `Internal` when no block is given.  A single block is
/// returned unchanged; otherwise the blocks are split at the middle, each
/// half merged recursively, and the two results merged, with the limit
/// handed to every step.
pub fn merge_sort_blocks(
    blocks: &Vec<DataBlock>,
    sort_columns_descriptions: &Vec<SortColumnDescription>,
    limit: Option<usize>,
) -> (res: FuseQueryResult<DataBlock>)
    requires
        forall|i: int| 0 <= i < blocks@.len() ==> (#[trigger] blocks@[i]).wf(),
        forall|i: int| 0 <= i < blocks@.len() ==> (#[trigger] blocks@[i])@.schema
            == blocks@[0]@.schema,
    ensures
        res is Err <==> (blocks@.len() == 0 || (count_nonempty(
            blocks@.map_values(|bl: DataBlock| bl@),
        ) >= 2 && !(sort_columns_descriptions@.len() > 0 && keys_ok(
            blocks@[0]@.schema,
            sort_columns_descriptions@,
        )))),
        res matches Err(e) ==> e.is_internal(),
        res matches Ok(b) ==> {
            &&& b@ == spec_merge_sort_blocks(
                blocks@.map_values(|bl: DataBlock| bl@),
                sort_columns_descriptions@,
                limit,
            )
            &&& b.wf()
            &&& b@.schema == blocks@[0]@.schema
        },
{
    if blocks.len() == 0 {
        return Err(FuseQueryError::Internal("Can't merge empty blocks".to_owned()));
    }
    let ghost models = blocks@.map_values(|bl: DataBlock| bl@);
    let n = blocks.len();
    let res = merge_sort_blocks_range(blocks, 0, n, sort_columns_descriptions, limit);
    proof {
        assert(models.subrange(0, n as int) =~= models);
    }
    res
}

/// Merges the blocks in positions `lo..hi` by balanced pairwise
/// reduction.
fn merge_sort_blocks_range(
    blocks: &Vec<DataBlock>,
    lo: usize,
    hi: usize,
    sort_columns_descriptions: &Vec<SortColumnDescription>,
    limit: Option<usize>,
) -> (res: FuseQueryResult<DataBlock>)
    requires
        forall|i: int| 0 <= i < blocks@.len() ==> (#[trigger] blocks@[i]).wf(),
        forall|i: int| 0 <= i < blocks@.len() ==> (#[trigger] blocks@[i])@.schema
            == blocks@[0]@.schema,
        lo < hi <= blocks@.len(),
    ensures
        res is Err <==> (count_nonempty(
            blocks@.map_values(|bl: DataBlock| bl@).subrange(lo as int, hi as int),
        ) >= 2 && !(sort_columns_descriptions@.len() > 0 && keys_ok(
            blocks@[0]@.schema,
            sort_columns_descriptions@,
        ))),
        res matches Err(e) ==> e.is_internal(),
        res matches Ok(b) ==> {
            &&& b@ == spec_merge_sort_blocks(
                blocks@.map_values(|bl: DataBlock| bl@).subrange(lo as int, hi as int),
                sort_columns_descriptions@,
                limit,
            )
            &&& b.wf()
            &&& b@.schema == blocks@[0]@.schema
        },
    decreases hi - lo,
{
    let ghost models = blocks@.map_values(|bl: DataBlock| bl@);
    let ghost sub = models.subrange(lo as int, hi as int);
    let ghost descs = sort_columns_descriptions@;
    let ghost schema0 = blocks@[0]@.schema;
    proof {
        assert forall|i: int| lo <= i < hi implies models[i] == blocks@[i]@ by {}
        lemma_count_nonempty_split(sub, 0);
        assert forall|i: int| 0 <= i < sub.len() implies (#[trigger] sub[i]).schema
            == schema0 by {
            assert(sub[i] == models[lo + i]);
            assert(models[lo + i] == blocks@[lo + i]@);
        }
    }
    if hi - lo == 1 {
        let b = blocks[lo].duplicate();
        proof {
            assert(sub.len() == 1);
            assert(sub[0] == models[lo as int]);
            assert(b@ == spec_merge_sort_blocks(sub, descs, limit));
            lemma_count_nonempty_split(sub, 1);
        }
        return Ok(b);
    }
    let mid = lo + (hi - lo) / 2;
    let ghost h = (hi - lo) as int / 2;
    let ghost left_sub = sub.take(h);
    let ghost right_sub = sub.skip(h);
    proof {
        assert(left_sub =~= models.subrange(lo as int, mid as int));
        assert(right_sub =~= models.subrange(mid as int, hi as int));
        lemma_count_nonempty_split(sub, h);
    }
    let left = match merge_sort_blocks_range(blocks, lo, mid, sort_columns_descriptions, limit) {
        Ok(b) => b,
        Err(e) => {
            proof {
                lemma_count_nonempty_split(right_sub, 0);
            }
            return Err(e);
        },
    };
    let right = match merge_sort_blocks_range(blocks, mid, hi, sort_columns_descriptions, limit) {
        Ok(b) => b,
        Err(e) => {
            proof {
                lemma_count_nonempty_split(left_sub, 0);
            }
            return Err(e);
        },
    };
    proof {
        assert forall|i: int| 0 <= i < left_sub.len() implies (#[trigger] left_sub[i]).schema
            == left_sub[0].schema by {}
        assert forall|i: int| 0 <= i < right_sub.len() implies (#[trigger] right_sub[i]).schema
            == right_sub[0].schema by {}
        lemma_spec_merge_blocks_props(left_sub, descs, limit);
        lemma_spec_merge_blocks_props(right_sub, descs, limit);
        lemma_count_nonempty_split(left_sub, 0);
        lemma_count_nonempty_split(right_sub, 0);
    }
    let res = merge_sort_block(&left, &right, sort_columns_descriptions, limit);
    proof {
        let good = descs.len() > 0 && keys_ok(schema0, descs);
        if !good {
            // Each half merged without error, so it holds at most one
            // nonempty block; the final merge fails exactly when both
            // halves kept rows, that is when two nonempty blocks exist.
            assert(count_nonempty(left_sub) <= 1);
            assert(count_nonempty(right_sub) <= 1);
            if count_nonempty(sub) >= 2 {
                assert(count_nonempty(left_sub) == 1 && count_nonempty(right_sub) == 1);
                assert(model_rows(left@) > 0 && model_rows(right@) > 0);
            } else {
                assert(count_nonempty(left_sub) == 0 || count_nonempty(right_sub) == 0);
                assert(model_rows(left@) == 0 || model_rows(right@) == 0);
            }
        }
    }
    res
}

/// Sorts the row ids of a set of key columns and keeps the first `limit`:
/// after the cut those are exactly the `limit` least rows, in sorted
/// order.
///
/// Fails with `Internal` exactly when no column is given or the columns'
/// row counts differ.
pub fn partial_sort_to_indices(
    columns: &Vec<DataArray>,
    options: &Vec<SortOptions>,
    limit: usize,
) -> (res: FuseQueryResult<Vec<u32>>)
    requires
        columns@.len() == options@.len(),
        columns@.len() > 0 && side_uniform(cols_of(columns@)) ==> limit <= side_rows(
            cols_of(columns@),
        ) && side_rows(cols_of(columns@)) <= u32::MAX,
    ensures
        res is Err <==> (columns@.len() == 0 || !side_uniform(cols_of(columns@))),
        res matches Err(e) ==> e.is_internal(),
        res matches Ok(v) ==> v@ == sort_indices_spec(
            cols_of(columns@),
            options@,
            side_rows(cols_of(columns@)) as nat,
        ).take(limit as int),
{
    if columns.len() == 0 {
        return Err(FuseQueryError::Internal("Sort requires at least one column".to_owned()));
    }
    let ghost cols = cols_of(columns@);
    assert(cols[0] == columns@[0]@);
    let row_count = columns[0].len();
    let n = columns.len();
    let mut k: usize = 0;
    while k < n
        invariant
            n == columns@.len(),
            cols == cols_of(columns@),
            row_count == side_rows(cols),
            k <= n,
            forall|j: int| 0 <= j < k ==> (#[trigger] cols[j].len()) == row_count,
        decreases n - k,
    {
        assert(cols[k as int] == columns@[k as int]@);
        if columns[k].len() != row_count {
            assert(!side_uniform(cols));
            return Err(
                FuseQueryError::Internal(
                    "lexical sort columns have different row counts".to_owned(),
                ),
            );
        }
        k += 1;
    }
    assert(side_uniform(cols));
    proof {
        assert forall|j: int| 0 <= j < columns@.len() implies (#[trigger] columns@[j]@.len())
            == row_count by {
            assert(cols[j] == columns@[j]@);
        }
    }
    let mut indices = lexsort_to_indices(columns, options, row_count);
    proof {
        lemma_sort_indices_bounds(cols, options@, row_count as nat);
    }
    indices.truncate(limit);
    assert(indices@ =~= sort_indices_spec(cols, options@, row_count as nat).take(limit as int));
    Ok(indices)
}

// ---------------------------------------------------------------------------
// Laws of sorting and merging.
// ---------------------------------------------------------------------------
/// A block is non-decreasing, row over row, under the sort comparator of
/// its resolved key columns.
pub open spec fn block_sorted_for_sort(m: BlockModel, descs: Seq<SortColumnDescription>) -> bool {
    forall|i: int|
        0 <= i < model_rows(m) - 1 ==> sort_row_cmp(
            key_row(key_columns(m, descs), i),
            #[trigger] key_row(key_columns(m, descs), i + 1),
            options_of(descs),
        ) != Ordering::Greater
}

/// A block is non-decreasing, row over row, under the merge comparator of
/// its resolved key columns.
pub open spec fn block_sorted_for_merge(m: BlockModel, descs: Seq<SortColumnDescription>) -> bool {
    sorted_rows(key_rows(key_columns(m, descs)), options_of(descs))
}

/// The rows of a block whose columns pick rows of `m` by an index vector
/// are the picked rows of `m`.
proof fn lemma_block_rows_picked(
    m: BlockModel,
    idx: Seq<u32>,
    out: BlockModel,
)
    requires
        model_wf(m),
        out.columns.len() == m.columns.len(),
        forall|j: int|
            0 <= j < m.columns.len() ==> (#[trigger] out.columns[j]) == spec_take(
                m.columns[j],
                idx,
            ),
        forall|k: int| 0 <= k < idx.len() ==> (#[trigger] idx[k]) < model_rows(m),
    ensures
        block_rows(out) == map_picks(block_rows(m), idx),
        m.columns.len() > 0 ==> model_rows(out) == idx.len(),
{
    if m.columns.len() == 0 {
        assert(block_rows(out) =~= Seq::<Seq<Option<u64>>>::empty());
        assert(idx.len() == 0) by {
            if idx.len() > 0 {
                assert(idx[0] < model_rows(m));
            }
        }
        assert(map_picks(block_rows(m), idx) =~= Seq::<Seq<Option<u64>>>::empty());
    } else {
        assert(out.columns[0] == spec_take(m.columns[0], idx));
        assert(model_rows(out) == idx.len());
        assert forall|i: int| 0 <= i < idx.len() implies block_rows(out)[i] == map_picks(
            block_rows(m),
            idx,
        )[i] by {
            assert(block_rows(m)[idx[i] as int] =~= Seq::new(
                m.columns.len(),
                |j: int| m.columns[j][idx[i] as int],
            ));
            assert forall|j: int| 0 <= j < m.columns.len() implies block_rows(out)[i][j]
                == block_rows(m)[idx[i] as int][j] by {
                assert(out.columns[j][i] == m.columns[j][idx[i] as int]);
            }
            assert(block_rows(out)[i] =~= block_rows(m)[idx[i] as int]);
        }
        assert(block_rows(out) =~= map_picks(block_rows(m), idx));
    }
}

/// Sort correctness: without a limit, sorting permutes the rows — the
/// output holds exactly the input's rows, as a multiset — and leaves them
/// non-decreasing under the sort comparator.
#[verifier::rlimit(60)]
pub proof fn lemma_sort_block_correct(m: BlockModel, descs: Seq<SortColumnDescription>)
    requires
        model_wf(m),
        keys_ok(m.schema, descs),
        model_rows(m) <= u32::MAX,
    ensures
        block_rows(spec_sort_block(m, descs, None)).to_multiset() == block_rows(m).to_multiset(),
        block_sorted_for_sort(spec_sort_block(m, descs, None), descs),
{
    let cols = key_columns(m, descs);
    let opts = options_of(descs);
    let n = model_rows(m);
    let idx_full = spec_sort_indices_of(m, descs);
    lemma_sort_indices_bounds(cols, opts, n as nat);
    let idx = idx_full.take(cut_len(None::<usize>, n));
    assert(idx =~= idx_full);
    let out = spec_sort_block(m, descs, None);
    assert forall|j: int| 0 <= j < m.columns.len() implies (#[trigger] out.columns[j])
        == spec_take(m.columns[j], idx) by {}
    lemma_block_rows_picked(m, idx, out);
    lemma_sort_indices_map_multiset(block_rows(m), cols, opts, n as nat);
    assert(block_rows(m).take(n) =~= block_rows(m));
    assert(map_picks(block_rows(m), idx) == map_picks(block_rows(m), idx_full));
    // Sortedness carries over: row `i` of the output is row `idx[i]` of
    // the input, and the index vector is sorted.
    lemma_sort_indices_sorted(cols, opts, n as nat);
    assert forall|i: int| 0 <= i < model_rows(out) - 1 implies sort_row_cmp(
        key_row(key_columns(out, descs), i),
        #[trigger] key_row(key_columns(out, descs), i + 1),
        opts,
    ) != Ordering::Greater by {
        assert(m.columns.len() > 0);
        lemma_out_key_row_picked(m, descs, idx, out, i);
        lemma_out_key_row_picked(m, descs, idx, out, i + 1);
        assert(sorted_idx(idx_full, cols, opts));
    }
    assert(options_of(descs) == opts);
}

/// Key row `i` of a block whose columns pick rows of `m` by `idx` is key
/// row `idx[i]` of `m`.
proof fn lemma_out_key_row_picked(
    m: BlockModel,
    descs: Seq<SortColumnDescription>,
    idx: Seq<u32>,
    out: BlockModel,
    i: int,
)
    requires
        model_wf(m),
        keys_ok(m.schema, descs),
        out.schema == m.schema,
        out.columns.len() == m.columns.len(),
        forall|j: int|
            0 <= j < m.columns.len() ==> (#[trigger] out.columns[j]) == spec_take(
                m.columns[j],
                idx,
            ),
        0 <= i < idx.len(),
        forall|k: int| 0 <= k < idx.len() ==> (#[trigger] idx[k]) < model_rows(m),
    ensures
        key_row(key_columns(out, descs), i) == key_row(key_columns(m, descs), idx[i] as int),
{
    assert forall|k: int| 0 <= k < descs.len() implies key_row(key_columns(out, descs), i)[k]
        == key_row(key_columns(m, descs), idx[i] as int)[k] by {
        lemma_field_index_of(m.schema, descs[k].column_name@);
        let f = field_index_of(m.schema, descs[k].column_name@);
        assert(key_columns(out, descs)[k] == out.columns[f]);
        assert(out.columns[f] == spec_take(m.columns[f], idx));
        assert(key_columns(m, descs)[k] == m.columns[f]);
    }
    assert(key_row(key_columns(out, descs), i) =~= key_row(
        key_columns(m, descs),
        idx[i] as int,
    ));
}

/// Top-K: sorting with a limit yields exactly the first `min(k, rows)`
/// rows of the full sort, under the same schema.
pub proof fn lemma_sort_block_top_k(m: BlockModel, descs: Seq<SortColumnDescription>, k: usize)
    requires
        model_wf(m),
        model_rows(m) <= u32::MAX,
    ensures
        block_rows(spec_sort_block(m, descs, Some(k))) == block_rows(
            spec_sort_block(m, descs, None),
        ).take(cut_len(Some(k), model_rows(m))),
        spec_sort_block(m, descs, Some(k)).schema == spec_sort_block(m, descs, None).schema,
{
    let n = model_rows(m);
    let c = cut_len(Some(k), n);
    let idx_full = spec_sort_indices_of(m, descs);
    lemma_sort_indices_bounds(key_columns(m, descs), options_of(descs), n as nat);
    let out_k = spec_sort_block(m, descs, Some(k));
    let out_full = spec_sort_block(m, descs, None);
    assert(idx_full.take(cut_len(None::<usize>, n)) =~= idx_full);
    if m.columns.len() == 0 {
        assert(block_rows(out_k) =~= Seq::<Seq<Option<u64>>>::empty());
        assert(block_rows(out_full).take(c) =~= Seq::<Seq<Option<u64>>>::empty());
    } else {
        assert(out_k.columns[0] == spec_take(m.columns[0], idx_full.take(c)));
        assert(model_rows(out_k) == c);
        assert(model_rows(out_full) == n);
        assert forall|i: int| 0 <= i < c implies block_rows(out_k)[i] == block_rows(
            out_full,
        ).take(c)[i] by {
            assert forall|j: int| 0 <= j < m.columns.len() implies block_rows(out_k)[i][j]
                == block_rows(out_full)[i][j] by {
                assert(out_k.columns[j][i] == m.columns[j][idx_full.take(c)[i] as int]);
                assert(out_full.columns[j][i] == m.columns[j][idx_full[i] as int]);
            }
            assert(block_rows(out_k)[i] =~= block_rows(out_full)[i]);
        }
        assert(block_rows(out_k) =~= block_rows(out_full).take(c));
    }
}

/// Merge correctness: merging two blocks sorted under the merge
/// comparator yields a well-formed block, sorted the same way, holding
/// exactly the rows of both inputs.
pub proof fn lemma_merge_sort_block_correct(
    l: BlockModel,
    r: BlockModel,
    descs: Seq<SortColumnDescription>,
)
    requires
        model_wf(l),
        model_wf(r),
        l.schema == r.schema,
        descs.len() > 0,
        keys_ok(l.schema, descs),
        block_sorted_for_merge(l, descs),
        block_sorted_for_merge(r, descs),
    ensures
        ({
            let out = spec_merge_sort_block(l, r, descs, None);
            &&& block_rows(out).to_multiset() == block_rows(l).to_multiset().add(
                block_rows(r).to_multiset(),
            )
            &&& block_sorted_for_merge(out, descs)
            &&& model_wf(out)
            &&& out.schema == l.schema
            &&& model_rows(out) == model_rows(l) + model_rows(r)
        }),
{
    broadcast use vstd::seq_lib::group_to_multiset_ensures;

    let out = spec_merge_sort_block(l, r, descs, None);
    if model_rows(l) == 0 {
        assert(block_rows(l) =~= Seq::<Seq<Option<u64>>>::empty());
        assert(block_rows(out).to_multiset() =~= block_rows(l).to_multiset().add(
            block_rows(r).to_multiset(),
        ));
    } else if model_rows(r) == 0 {
        assert(block_rows(r) =~= Seq::<Seq<Option<u64>>>::empty());
        assert(block_rows(out).to_multiset() =~= block_rows(l).to_multiset().add(
            block_rows(r).to_multiset(),
        ));
    } else {
        let la = key_columns(l, descs);
        let ra = key_columns(r, descs);
        let opts = options_of(descs);
        let bitmap = spec_merge_bitmap_of(l, r, descs);
        lemma_key_columns_uniform(l, descs);
        lemma_key_columns_uniform(r, descs);
        lemma_merge_bitmap_counts(la, ra, opts, 0, 0);
        let total = model_rows(l) + model_rows(r);
        assert(bitmap.len() == total);
        let cut = bitmap.take(cut_len(None::<usize>, bitmap.len() as int));
        assert(cut =~= bitmap);
        // Each output column interleaves its input pair; bounds on the
        // advanced cursors come from the prefix counts.
        assert forall|i: int| 0 <= i < total implies ((bitmap[i] ==> count_true(bitmap.take(i))
            < model_rows(l)) && (!bitmap[i] ==> count_false(bitmap.take(i)) < model_rows(
            r,
        ))) by {
            lemma_counts_prefix(bitmap, i + 1);
            assert(bitmap.take(i + 1) =~= bitmap.take(i).push(bitmap[i]));
            lemma_count_push(bitmap.take(i), bitmap[i]);
            lemma_counts_prefix(bitmap, i);
        }
        // Whole rows: the output's rows are the interleaving of the
        // inputs' rows.
        assert(model_rows(out) == total) by {
            assert(out.columns[0] == merge_apply(l.columns[0], r.columns[0], cut, 0, 0));
            lemma_merge_apply_len(l.columns[0], r.columns[0], cut, 0, 0);
        }
        assert forall|i: int| 0 <= i < total implies block_rows(out)[i] == merge_apply(
            block_rows(l),
            block_rows(r),
            bitmap,
            0,
            0,
        )[i] by {
            lemma_merge_apply_index(block_rows(l), block_rows(r), bitmap, 0, 0, i);
            let pos_l = count_true(bitmap.take(i));
            let pos_r = count_false(bitmap.take(i));
            lemma_counts_prefix(bitmap, i);
            assert forall|j: int| 0 <= j < l.columns.len() implies block_rows(out)[i][j] == (
            if bitmap[i] {
                block_rows(l)[pos_l]
            } else {
                block_rows(r)[pos_r]
            })[j] by {
                assert(out.columns[j] == merge_apply(l.columns[j], r.columns[j], cut, 0, 0));
                lemma_merge_apply_index(l.columns[j], r.columns[j], cut, 0, 0, i);
            }
            assert(block_rows(out)[i] =~= (if bitmap[i] {
                block_rows(l)[pos_l]
            } else {
                block_rows(r)[pos_r]
            }));
        }
        lemma_merge_apply_len(block_rows(l), block_rows(r), bitmap, 0, 0);
        assert(block_rows(out) =~= merge_apply(block_rows(l), block_rows(r), bitmap, 0, 0));
        lemma_merge_apply_multiset(block_rows(l), block_rows(r), bitmap, 0, 0);
        assert(block_rows(l).skip(0) =~= block_rows(l));
        assert(block_rows(r).skip(0) =~= block_rows(r));
        // Key rows: the output's key rows are the interleaving of the
        // inputs' key rows, which the bitmap keeps sorted.
        lemma_merge_bitmap_sorted(la, ra, opts, 0, 0);
        let merged_keys = merge_apply(key_rows(la), key_rows(ra), bitmap, 0, 0);
        lemma_merge_apply_len(key_rows(la), key_rows(ra), bitmap, 0, 0);
        assert(key_rows(key_columns(out, descs)).len() == total) by {
            lemma_field_index_of(out.schema, descs[0].column_name@);
            let f = field_index_of(out.schema, descs[0].column_name@);
            assert(key_columns(out, descs)[0] == out.columns[f]);
            assert(out.columns[f] == merge_apply(l.columns[f], r.columns[f], cut, 0, 0));
            lemma_merge_apply_len(l.columns[f], r.columns[f], cut, 0, 0);
        }
        assert forall|i: int| 0 <= i < total implies key_row(key_columns(out, descs), i)
            == merged_keys[i] by {
            lemma_merge_apply_index(key_rows(la), key_rows(ra), bitmap, 0, 0, i);
            let pos_l = count_true(bitmap.take(i));
            let pos_r = count_false(bitmap.take(i));
            lemma_counts_prefix(bitmap, i);
            assert forall|k: int| 0 <= k < descs.len() implies key_row(key_columns(out, descs), i)[k]
                == merged_keys[i][k] by {
                lemma_field_index_of(out.schema, descs[k].column_name@);
                let f = field_index_of(out.schema, descs[k].column_name@);
                assert(key_columns(out, descs)[k] == out.columns[f]);
                assert(out.columns[f] == merge_apply(l.columns[f], r.columns[f], cut, 0, 0));
                lemma_merge_apply_index(l.columns[f], r.columns[f], cut, 0, 0, i);
                assert(la[k] == l.columns[f]);
                assert(ra[k] == r.columns[f]);
                if bitmap[i] {
                    assert(key_rows(la)[pos_l] == key_row(la, pos_l));
                    assert(key_row(la, pos_l)[k] == la[k][pos_l]);
                } else {
                    assert(key_rows(ra)[pos_r] == key_row(ra, pos_r));
                    assert(key_row(ra, pos_r)[k] == ra[k][pos_r]);
                }
            }
            assert(key_row(key_columns(out, descs), i) =~= merged_keys[i]);
        }
        assert(key_rows(key_columns(out, descs)) =~= merged_keys);
        // Well-formedness: every column of the output has the bitmap's
        // length.
        assert forall|j: int| 0 <= j < out.columns.len() implies (#[trigger] out.columns[j].len())
            == total by {
            lemma_merge_apply_len(l.columns[j], r.columns[j], cut, 0, 0);
        }
        assert(model_wf(out));
    }
}

/// The rows of all the given blocks together, as a multiset.
pub open spec fn all_rows_multiset(models: Seq<BlockModel>) -> Multiset<Seq<Option<u64>>>
    decreases models.len(),
{
    if models.len() == 0 {
        Multiset::empty()
    } else {
        block_rows(models[0]).to_multiset().add(all_rows_multiset(models.drop_first()))
    }
}

/// The row multiset splits across a cut.
proof fn lemma_all_rows_split(models: Seq<BlockModel>, h: int)
    requires
        0 <= h <= models.len(),
    ensures
        all_rows_multiset(models) == all_rows_multiset(models.take(h)).add(
            all_rows_multiset(models.skip(h)),
        ),
    decreases models.len(),
{
    if models.len() == 0 {
        assert(models.take(h) =~= models);
        assert(models.skip(h) =~= models);
        assert(all_rows_multiset(models) =~= all_rows_multiset(models.take(h)).add(
            all_rows_multiset(models.skip(h)),
        ));
    } else if h == 0 {
        assert(models.take(0) =~= Seq::<BlockModel>::empty());
        assert(models.skip(0) =~= models);
        assert(all_rows_multiset(models) =~= all_rows_multiset(models.take(0)).add(
            all_rows_multiset(models.skip(0)),
        ));
    } else {
        lemma_all_rows_split(models.drop_first(), h - 1);
        assert(models.take(h)[0] == models[0]);
        assert(models.take(h).drop_first() =~= models.drop_first().take(h - 1));
        assert(models.skip(h) =~= models.drop_first().skip(h - 1));
        assert(all_rows_multiset(models) =~= all_rows_multiset(models.take(h)).add(
            all_rows_multiset(models.skip(h)),
        ));
    }
}

/// K-way merge correctness: the balanced pairwise reduction of any number
/// of blocks sorted under the merge comparator is itself sorted the same
/// way and holds exactly the rows of all inputs.
pub proof fn lemma_merge_sort_blocks_correct(
    models: Seq<BlockModel>,
    descs: Seq<SortColumnDescription>,
)
    requires
        models.len() > 0,
        forall|i: int| 0 <= i < models.len() ==> model_wf(#[trigger] models[i]),
        forall|i: int| 0 <= i < models.len() ==> (#[trigger] models[i]).schema == models[0].schema,
        forall|i: int|
            0 <= i < models.len() ==> block_sorted_for_merge(#[trigger] models[i], descs),
        descs.len() > 0,
        keys_ok(models[0].schema, descs),
    ensures
        ({
            let out = spec_merge_sort_blocks(models, descs, None);
            &&& block_rows(out).to_multiset() == all_rows_multiset(models)
            &&& block_sorted_for_merge(out, descs)
            &&& model_wf(out)
            &&& out.schema == models[0].schema
        }),
    decreases models.len(),
{
    if models.len() == 1 {
        assert(all_rows_multiset(models.drop_first()) == Multiset::<Seq<Option<u64>>>::empty());
        assert(block_rows(models[0]).to_multiset() =~= all_rows_multiset(models));
    } else {
        let h = models.len() as int / 2;
        let left = models.take(h);
        let right = models.skip(h);
        assert(left[0] == models[0]);
        assert(right[0] == models[h]);
        assert forall|i: int| 0 <= i < left.len() implies model_wf(#[trigger] left[i])
            && left[i].schema == left[0].schema && block_sorted_for_merge(left[i], descs) by {
            assert(left[i] == models[i]);
        }
        assert forall|i: int| 0 <= i < right.len() implies model_wf(#[trigger] right[i])
            && right[i].schema == right[0].schema && block_sorted_for_merge(right[i], descs) by {
            assert(right[i] == models[h + i]);
        }
        lemma_merge_sort_blocks_correct(left, descs);
        lemma_merge_sort_blocks_correct(right, descs);
        let lb = spec_merge_sort_blocks(left, descs, None);
        let rb = spec_merge_sort_blocks(right, descs, None);
        lemma_merge_sort_block_correct(lb, rb, descs);
        lemma_all_rows_split(models, h);
        assert(block_rows(spec_merge_sort_blocks(models, descs, None)).to_multiset()
            =~= all_rows_multiset(models));
    }
}

} // verus!
