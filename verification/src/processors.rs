//! The fan-in merge processor.
//!
//! `MergingSortedProcessor` has one input per lane and one output.  The
//! asynchronous draining of the lanes lives outside the library: the
//! processor's `execute` work is a function from all drained blocks —
//! each already sorted by its lane's `MergingSortTransform` — to the one
//! globally merged block it emits.

use vstd::prelude::*;

use crate::block_sort::count_nonempty;
use crate::block_sort::merge_sort_blocks;
use crate::block_sort::spec_merge_sort_blocks;
use crate::block_sort::SortColumnDescription;
use crate::blocks::DataBlock;
use crate::blocks::DataSchema;
use crate::blocks::FieldModel;
use crate::error::FuseQueryResult;
use crate::expressions::ExpressionPlan;
use crate::transforms::descs_match;
use crate::transforms::descs_resolvable;
use crate::transforms::get_sort_descriptions;
use crate::transforms::lemma_descs_match_keys;
use crate::transforms::sort_keys_found;

verus! {

/// The fan-in processor: merges all lanes' sorted blocks into one.
pub struct MergingSortedProcessor {
    schema: DataSchema,
    exprs: Vec<ExpressionPlan>,
    limit: Option<usize>,
}

impl MergingSortedProcessor {
    /// The schema the processor was planned with.
    pub closed spec fn spec_schema(&self) -> Seq<FieldModel> {
        self.schema@
    }

    /// The sort expressions the processor was planned with.
    pub closed spec fn spec_exprs(&self) -> Seq<ExpressionPlan> {
        self.exprs@
    }

    /// The top-K limit the processor was planned with.
    pub closed spec fn spec_limit(&self) -> Option<usize> {
        self.limit
    }

    /// Builds the processor over a schema, sort expressions and a limit.
    pub fn try_create(
        schema: DataSchema,
        exprs: Vec<ExpressionPlan>,
        limit: Option<usize>,
    ) -> (res: FuseQueryResult<MergingSortedProcessor>)
        ensures
            res is Ok,
            res matches Ok(t) ==> t.spec_schema() == schema@ && t.spec_exprs() == exprs@
                && t.spec_limit() == limit,
    {
        Ok(MergingSortedProcessor { schema, exprs, limit })
    }

    /// The processor's display name.
    pub fn name(&self) -> (r: &'static str)
        ensures
            r@ == "MergingSortedProcessor"@,
    {
        "MergingSortedProcessor"
    }

    /// The work of `execute` after every lane is drained: no block
    /// yields no output; otherwise the blocks — assumed schema-identical
    /// and each sorted by its lane — are merged k-way into one block,
    /// under the processor's limit.
    pub fn execute_blocks(&self, blocks: &Vec<DataBlock>) -> (res: FuseQueryResult<
        Vec<DataBlock>,
    >)
        requires
            forall|i: int| 0 <= i < blocks@.len() ==> (#[trigger] blocks@[i]).wf(),
            forall|i: int|
                0 <= i < blocks@.len() ==> (#[trigger] blocks@[i])@.schema == blocks@[0]@.schema,
        ensures
            res is Err <==> (!descs_resolvable(self.spec_exprs(), self.spec_schema()) || (
            blocks@.len() > 0 && count_nonempty(blocks@.map_values(|bl: DataBlock| bl@)) >= 2 && !(
            self.spec_exprs().len() > 0 && sort_keys_found(
                self.spec_exprs(),
                self.spec_schema(),
                blocks@[0]@.schema,
            )))),
            res matches Err(e) ==> e.is_internal(),
            res matches Ok(v) ==> (blocks@.len() == 0 ==> v@.len() == 0),
            res matches Ok(v) ==> (blocks@.len() > 0 ==> v@.len() == 1 && exists|
                descs: Seq<SortColumnDescription>,
            |
                #[trigger] descs_match(self.spec_exprs(), self.spec_schema(), descs) && v@[0]@
                    == spec_merge_sort_blocks(
                    blocks@.map_values(|bl: DataBlock| bl@),
                    descs,
                    self.spec_limit(),
                )),
    {
        let ghost models = blocks@.map_values(|bl: DataBlock| bl@);
        let descs = match get_sort_descriptions(&self.schema, &self.exprs) {
            Ok(d) => d,
            Err(e) => {
                return Err(e);
            },
        };
        if blocks.len() == 0 {
            let v: Vec<DataBlock> = Vec::new();
            return Ok(v);
        }
        proof {
            lemma_descs_match_keys(self.exprs@, self.schema@, blocks@[0]@.schema, descs@);
        }
        let merged = match merge_sort_blocks(blocks, &descs, self.limit) {
            Ok(b) => b,
            Err(e) => {
                return Err(e);
            },
        };
        let mut v: Vec<DataBlock> = Vec::new();
        v.push(merged);
        proof {
            assert(descs_match(self.spec_exprs(), self.spec_schema(), descs@) && v@[0]@
                == spec_merge_sort_blocks(models, descs@, self.spec_limit()));
        }
        Ok(v)
    }
}

} // verus!
