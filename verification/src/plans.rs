//! Query plan nodes.
//!
//! The fragment of the plan tree the sort pipeline reads: an empty leaf
//! carrying a schema, a filter over an input plan, and a sort over an
//! input plan.  A node's schema is its input's schema, recursively.

use vstd::prelude::*;

use crate::blocks::DataSchema;
use crate::blocks::FieldModel;
use crate::error::FuseQueryResult;
use crate::expressions::ExpressionPlan;

verus! {

/// A node of the query plan tree.
pub enum PlanNode {
    /// A leaf producing no work, carrying the schema of its stage.
    Empty(DataSchema),
    /// A filter over an input plan.
    Filter(FilterPlan),
    /// A sort over an input plan.
    Sort(SortPlan),
}

/// A filter stage of the plan.
pub struct FilterPlan {
    /// The predicate expression, which must have Boolean type.
    pub predicate: ExpressionPlan,
    /// The incoming logical plan.
    pub input: Box<PlanNode>,
}

/// A sort stage of the plan.
pub struct SortPlan {
    /// The expressions to sort on.
    pub order_by: Vec<ExpressionPlan>,
    /// The incoming logical plan.
    pub input: Box<PlanNode>,
}

/// The mathematical view of a plan tree.
#[verifier::ext_equal]
pub enum PlanModel {
    Empty(Seq<FieldModel>),
    Filter { predicate: ExpressionPlan, input: Box<PlanModel> },
    Sort { order_by: Seq<ExpressionPlan>, input: Box<PlanModel> },
}

impl PlanNode {
    /// The view of this node.
    pub open spec fn model(self) -> PlanModel
        decreases self,
    {
        match self {
            PlanNode::Empty(s) => PlanModel::Empty(s@),
            PlanNode::Filter(f) => PlanModel::Filter {
                predicate: f.predicate,
                input: Box::new(f.input.model()),
            },
            PlanNode::Sort(s) => PlanModel::Sort {
                order_by: s.order_by@,
                input: Box::new(s.input.model()),
            },
        }
    }
}

impl View for PlanNode {
    type V = PlanModel;

    open spec fn view(&self) -> PlanModel {
        self.model()
    }
}

/// The schema of the rows a plan produces: its deepest input's schema.
pub open spec fn plan_schema(m: PlanModel) -> Seq<FieldModel>
    decreases m,
{
    match m {
        PlanModel::Empty(s) => s,
        PlanModel::Filter { input, .. } => plan_schema(*input),
        PlanModel::Sort { input, .. } => plan_schema(*input),
    }
}

impl PlanNode {
    /// The schema of the rows this node produces.
    pub fn schema(&self) -> (r: DataSchema)
        ensures
            r@ == plan_schema(self@),
        decreases *self,
    {
        match self {
            PlanNode::Empty(s) => s.duplicate(),
            PlanNode::Filter(f) => f.input.schema(),
            PlanNode::Sort(s) => s.input.schema(),
        }
    }

    /// A deep copy of this plan.
    pub fn duplicate(&self) -> (r: PlanNode)
        ensures
            r@ == self@,
        decreases *self,
    {
        match self {
            PlanNode::Empty(s) => PlanNode::Empty(s.duplicate()),
            PlanNode::Filter(f) => PlanNode::Filter(f.duplicate()),
            PlanNode::Sort(s) => PlanNode::Sort(s.duplicate()),
        }
    }
}

impl FilterPlan {
    /// The view of this stage.
    pub open spec fn model(self) -> PlanModel {
        PlanModel::Filter { predicate: self.predicate, input: Box::new(self.input.model()) }
    }

    /// The schema of the rows this stage produces: its input's schema.
    pub fn schema(&self) -> (r: DataSchema)
        ensures
            r@ == plan_schema(self.input@),
    {
        self.input.schema()
    }

    /// Replaces the incoming plan with a copy of `node`.
    pub fn set_input(&mut self, node: &PlanNode)
        ensures
            final(self).predicate == old(self).predicate,
            final(self).input@ == node@,
    {
        self.input = Box::new(node.duplicate());
    }

    /// A deep copy of this stage.
    pub fn duplicate(&self) -> (r: FilterPlan)
        ensures
            r.model() == self.model(),
        decreases *self,
    {
        let r = FilterPlan {
            predicate: self.predicate.duplicate(),
            input: Box::new(self.input.duplicate()),
        };
        assert(r.model() =~= self.model());
        r
    }
}

impl SortPlan {
    /// The view of this stage.
    pub open spec fn model(self) -> PlanModel {
        PlanModel::Sort { order_by: self.order_by@, input: Box::new(self.input.model()) }
    }

    /// The schema of the rows this stage produces: its input's schema.
    pub fn schema(&self) -> (r: DataSchema)
        ensures
            r@ == plan_schema(self.input@),
    {
        self.input.schema()
    }

    /// A copy of the incoming plan.
    pub fn input(&self) -> (r: PlanNode)
        ensures
            r@ == self.input@,
    {
        self.input.duplicate()
    }

    /// Replaces the incoming plan with a copy of `input`.
    pub fn set_input(&mut self, input: &PlanNode) -> (res: FuseQueryResult<()>)
        ensures
            res is Ok,
            final(self).order_by == old(self).order_by,
            final(self).input@ == input@,
    {
        self.input = Box::new(input.duplicate());
        Ok(())
    }

    /// A deep copy of this stage.
    pub fn duplicate(&self) -> (r: SortPlan)
        ensures
            r.model() == self.model(),
        decreases *self,
    {
        let n = self.order_by.len();
        let mut order_by: Vec<ExpressionPlan> = Vec::new();
        let mut i: usize = 0;
        while i < n
            invariant
                n == self.order_by@.len(),
                i <= n,
                order_by@ =~= self.order_by@.subrange(0, i as int),
            decreases n - i,
        {
            order_by.push(self.order_by[i].duplicate());
            assert(order_by@ =~= self.order_by@.subrange(0, (i + 1) as int));
            i += 1;
        }
        assert(order_by@ =~= self.order_by@);
        let r = SortPlan { order_by, input: Box::new(self.input.duplicate()) };
        assert(r.model() =~= self.model());
        r
    }
}

} // verus!
