//! The streaming sort transforms.
//!
//! `get_sort_descriptions` turns the planner's sort expressions into sort
//! key descriptors.  `PartialSortTransform` sorts each block as it
//! arrives; `MergingSortTransform` drains its lane, concatenates, and
//! sorts the concatenation once.  The asynchronous draining lives outside
//! the library: each transform's `execute` work is a function from the
//! drained blocks to the blocks it emits.

use vstd::prelude::*;

use crate::block_sort::keys_ok;
use crate::block_sort::sort_block;
use crate::block_sort::spec_sort_block;
use crate::block_sort::SortColumnDescription;
use crate::blocks::concat_blocks;
use crate::blocks::has_field;
use crate::blocks::model_rows;
use crate::blocks::spec_concat_blocks;
use crate::blocks::BlockModel;
use crate::blocks::DataBlock;
use crate::blocks::DataSchema;
use crate::blocks::FieldModel;
use crate::error::FuseQueryError;
use crate::error::FuseQueryResult;
use crate::expressions::ExpressionPlan;

verus! {

/// What one sort expression contributes: the resolved column name, the
/// direction, and the null placement — or nothing, when the expression is
/// not a `Sort` or its inner expression resolves to no field.
pub open spec fn spec_sort_desc(e: ExpressionPlan, schema: Seq<FieldModel>) -> Option<
    (Seq<char>, bool, bool),
> {
    match e {
        ExpressionPlan::Sort { expr, asc, nulls_first } => match expr.spec_to_field_name(schema) {
            Some(n) => Some((n, asc, nulls_first)),
            None => None,
        },
        _ => None,
    }
}

/// Every expression contributes a sort key.
pub open spec fn descs_resolvable(exprs: Seq<ExpressionPlan>, schema: Seq<FieldModel>) -> bool {
    forall|k: int| 0 <= k < exprs.len() ==> spec_sort_desc(#[trigger] exprs[k], schema) is Some
}

/// The given descriptors are the keys the expressions contribute.
pub open spec fn descs_match(
    exprs: Seq<ExpressionPlan>,
    schema: Seq<FieldModel>,
    descs: Seq<SortColumnDescription>,
) -> bool {
    &&& descs.len() == exprs.len()
    &&& forall|k: int|
        0 <= k < exprs.len() ==> spec_sort_desc(#[trigger] exprs[k], schema) == Some(
            (descs[k].column_name@, descs[k].asc, descs[k].nulls_first),
        )
}

/// Every key the expressions contribute names a field of the block
/// schema.
pub open spec fn sort_keys_found(
    exprs: Seq<ExpressionPlan>,
    plan_schema: Seq<FieldModel>,
    block_schema: Seq<FieldModel>,
) -> bool {
    forall|k: int|
        0 <= k < exprs.len() ==> match spec_sort_desc(#[trigger] exprs[k], plan_schema) {
            Some(t) => has_field(block_schema, t.0),
            None => false,
        }
}

/// Matching descriptors resolve against a block schema exactly when the
/// expressions' keys are all found there.
pub proof fn lemma_descs_match_keys(
    exprs: Seq<ExpressionPlan>,
    plan_schema: Seq<FieldModel>,
    block_schema: Seq<FieldModel>,
    descs: Seq<SortColumnDescription>,
)
    requires
        descs_match(exprs, plan_schema, descs),
    ensures
        keys_ok(block_schema, descs) <==> sort_keys_found(exprs, plan_schema, block_schema),
{
    if keys_ok(block_schema, descs) {
        assert forall|k: int| 0 <= k < exprs.len() implies match spec_sort_desc(
            #[trigger] exprs[k],
            plan_schema,
        ) {
            Some(t) => has_field(block_schema, t.0),
            None => false,
        } by {
            assert(has_field(block_schema, descs[k].column_name@));
        }
    }
    if sort_keys_found(exprs, plan_schema, block_schema) {
        assert forall|k: int| 0 <= k < descs.len() implies has_field(
            block_schema,
            (#[trigger] descs[k]).column_name@,
        ) by {
            assert(spec_sort_desc(exprs[k], plan_schema) == Some(
                (descs[k].column_name@, descs[k].asc, descs[k].nulls_first),
            ));
        }
    }
}

/// Turns the planner's sort expressions into sort key descriptors.
///
/// Fails with `Internal` exactly when some expression is not a `Sort` or
/// its inner expression resolves to no field of the schema.
pub fn get_sort_descriptions(schema: &DataSchema, exprs: &Vec<ExpressionPlan>) -> (res:
    FuseQueryResult<Vec<SortColumnDescription>>)
    ensures
        res is Ok <==> descs_resolvable(exprs@, schema@),
        res matches Err(e) ==> e.is_internal(),
        res matches Ok(v) ==> descs_match(exprs@, schema@, v@),
{
    let n = exprs.len();
    let mut v: Vec<SortColumnDescription> = Vec::new();
    let mut k: usize = 0;
    while k < n
        invariant
            n == exprs@.len(),
            k <= n,
            v@.len() == k,
            forall|j: int|
                0 <= j < k ==> spec_sort_desc(#[trigger] exprs@[j], schema@) == Some(
                    (v@[j].column_name@, v@[j].asc, v@[j].nulls_first),
                ),
        decreases n - k,
    {
        match &exprs[k] {
            ExpressionPlan::Sort { expr, asc, nulls_first } => {
                match expr.to_field(schema) {
                    Ok(f) => {
                        v.push(
                            SortColumnDescription {
                                column_name: f.name,
                                asc: *asc,
                                nulls_first: *nulls_first,
                            },
                        );
                        k += 1;
                    },
                    Err(e) => {
                        assert(spec_sort_desc(exprs@[k as int], schema@) is None);
                        return Err(e);
                    },
                }
            },
            _ => {
                assert(spec_sort_desc(exprs@[k as int], schema@) is None);
                return Err(
                    FuseQueryError::Internal(
                        "Sort expression must be an ExpressionPlan sort variant".to_owned(),
                    ),
                );
            },
        }
    }
    Ok(v)
}

/// A processor with one input and one output that sorts each block as it
/// arrives, without draining its lane.
pub struct PartialSortTransform {
    schema: DataSchema,
    exprs: Vec<ExpressionPlan>,
}

impl PartialSortTransform {
    /// The schema the transform was planned with.
    pub closed spec fn spec_schema(&self) -> Seq<FieldModel> {
        self.schema@
    }

    /// The sort expressions the transform was planned with.
    pub closed spec fn spec_exprs(&self) -> Seq<ExpressionPlan> {
        self.exprs@
    }

    /// Builds the transform over a schema and sort expressions.
    pub fn try_create(schema: DataSchema, exprs: Vec<ExpressionPlan>) -> (res: FuseQueryResult<
        PartialSortTransform,
    >)
        ensures
            res is Ok,
            res matches Ok(t) ==> t.spec_schema() == schema@ && t.spec_exprs() == exprs@,
    {
        Ok(PartialSortTransform { schema, exprs })
    }

    /// The processor's display name.
    pub fn name(&self) -> (r: &'static str)
        ensures
            r@ == "PartialSortTransform"@,
    {
        "PartialSortTransform"
    }

    /// The work of `execute`: wrap the upstream stream in a per-block
    /// sorting stream over the resolved sort keys.  Fails exactly when
    /// some sort expression contributes no key.
    pub fn execute(&self) -> (res: FuseQueryResult<crate::streams::SortStream>)
        ensures
            res is Ok <==> descs_resolvable(self.spec_exprs(), self.spec_schema()),
            res matches Err(e) ==> e.is_internal(),
            res matches Ok(s) ==> descs_match(self.spec_exprs(), self.spec_schema(), s@),
    {
        let descs = match get_sort_descriptions(&self.schema, &self.exprs) {
            Ok(d) => d,
            Err(e) => {
                return Err(e);
            },
        };
        match crate::streams::SortStream::try_create(descs) {
            Ok(s) => Ok(s),
            Err(e) => Err(e),
        }
    }
}

/// A processor with one input and one output that drains its lane,
/// concatenates all blocks, and emits the sorted concatenation as one
/// block.
pub struct MergingSortTransform {
    schema: DataSchema,
    exprs: Vec<ExpressionPlan>,
    limit: Option<usize>,
}

impl MergingSortTransform {
    /// The schema the transform was planned with.
    pub closed spec fn spec_schema(&self) -> Seq<FieldModel> {
        self.schema@
    }

    /// The sort expressions the transform was planned with.
    pub closed spec fn spec_exprs(&self) -> Seq<ExpressionPlan> {
        self.exprs@
    }

    /// The top-K limit the transform was planned with.
    pub closed spec fn spec_limit(&self) -> Option<usize> {
        self.limit
    }

    /// Builds the transform over a schema, sort expressions and a limit.
    pub fn try_create(
        schema: DataSchema,
        exprs: Vec<ExpressionPlan>,
        limit: Option<usize>,
    ) -> (res: FuseQueryResult<MergingSortTransform>)
        ensures
            res is Ok,
            res matches Ok(t) ==> t.spec_schema() == schema@ && t.spec_exprs() == exprs@
                && t.spec_limit() == limit,
    {
        Ok(MergingSortTransform { schema, exprs, limit })
    }

    /// The processor's display name.
    pub fn name(&self) -> (r: &'static str)
        ensures
            r@ == "MergingSortTransform"@,
    {
        "MergingSortTransform"
    }

    /// The work of `execute` after the lane is drained: no block yields
    /// no output; otherwise all blocks are concatenated and the
    /// concatenation sorted once, under the transform's limit.
    pub fn execute_blocks(&self, blocks: &Vec<DataBlock>) -> (res: FuseQueryResult<
        Vec<DataBlock>,
    >)
        requires
            forall|i: int| 0 <= i < blocks@.len() ==> (#[trigger] blocks@[i]).wf(),
            (blocks@.len() > 0 && (forall|i: int|
                0 <= i < blocks@.len() ==> (#[trigger] blocks@[i])@.schema == blocks@[0]@.schema))
                ==> model_rows(
                spec_concat_blocks(blocks@.map_values(|bl: DataBlock| bl@)),
            ) <= u32::MAX,
        ensures
            res is Err <==> (!descs_resolvable(self.spec_exprs(), self.spec_schema()) || (
            blocks@.len() > 0 && ((exists|i: int|
                0 <= i < blocks@.len() && (#[trigger] blocks@[i])@.schema != blocks@[0]@.schema)
                || !sort_keys_found(
                self.spec_exprs(),
                self.spec_schema(),
                blocks@[0]@.schema,
            )))),
            res matches Err(e) ==> e.is_internal(),
            res matches Ok(v) ==> (blocks@.len() == 0 ==> v@.len() == 0),
            res matches Ok(v) ==> (blocks@.len() > 0 ==> v@.len() == 1 && exists|
                descs: Seq<SortColumnDescription>,
            |
                #[trigger] descs_match(self.spec_exprs(), self.spec_schema(), descs) && v@[0]@
                    == spec_sort_block(
                    spec_concat_blocks(blocks@.map_values(|bl: DataBlock| bl@)),
                    descs,
                    self.spec_limit(),
                )),
    {
        let ghost models = blocks@.map_values(|bl: DataBlock| bl@);
        let descs = match get_sort_descriptions(&self.schema, &self.exprs) {
            Ok(d) => d,
            Err(e) => {
                return Err(e);
            },
        };
        if blocks.len() == 0 {
            let v: Vec<DataBlock> = Vec::new();
            return Ok(v);
        }
        let big = match concat_blocks(blocks) {
            Ok(b) => b,
            Err(e) => {
                return Err(e);
            },
        };
        proof {
            assert forall|j: int| 0 <= j < big@.columns.len() implies big@.columns[j]
                == spec_concat_blocks(models).columns[j] by {}
            assert(big@ =~= spec_concat_blocks(models));
            lemma_descs_match_keys(self.exprs@, self.schema@, big@.schema, descs@);
        }
        let sorted = match sort_block(&big, &descs, self.limit) {
            Ok(b) => b,
            Err(e) => {
                return Err(e);
            },
        };
        let mut v: Vec<DataBlock> = Vec::new();
        v.push(sorted);
        proof {
            assert(descs_match(self.spec_exprs(), self.spec_schema(), descs@) && v@[0]@
                == spec_sort_block(spec_concat_blocks(models), descs@, self.spec_limit()));
        }
        Ok(v)
    }
}

} // verus!
