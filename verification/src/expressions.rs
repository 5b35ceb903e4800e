//! Plan expressions.
//!
//! The planner hands the sort stages a list of expressions; a sort stage
//! accepts only the `Sort` variant, whose inner expression resolves to the
//! column to order by.

use vstd::prelude::*;

use crate::blocks::field_index_of;
use crate::blocks::has_field;
use crate::blocks::lemma_field_index_of;
use crate::blocks::DataField;
use crate::blocks::DataSchema;
use crate::blocks::FieldModel;
use crate::error::FuseQueryError;
use crate::error::FuseQueryResult;

verus! {

/// An expression of the query plan.
pub enum ExpressionPlan {
    /// A reference to a named column.
    Column(String),
    /// All columns; it names no single field.
    Wildcard,
    /// A sort wrapper: order by `expr`, with a direction and a null
    /// placement.
    Sort { expr: Box<ExpressionPlan>, asc: bool, nulls_first: bool },
}

impl ExpressionPlan {
    /// The name of the field this expression resolves to under the given
    /// schema, if it resolves to one.
    pub open spec fn spec_to_field_name(self, schema: Seq<FieldModel>) -> Option<Seq<char>>
        decreases self,
    {
        match self {
            ExpressionPlan::Column(name) => if has_field(schema, name@) {
                Some(name@)
            } else {
                None
            },
            ExpressionPlan::Wildcard => None,
            ExpressionPlan::Sort { expr, .. } => expr.spec_to_field_name(schema),
        }
    }

    /// Resolves this expression to a schema field, or `Internal` if it
    /// names none.
    pub fn to_field(&self, schema: &DataSchema) -> (res: FuseQueryResult<DataField>)
        ensures
            res is Ok <==> self.spec_to_field_name(schema@) is Some,
            res matches Ok(f) ==> Some(f@.name) == self.spec_to_field_name(schema@) && has_field(
                schema@,
                f@.name,
            ) && f@ == schema@[field_index_of(schema@, f@.name)],
            res matches Err(e) ==> e.is_internal(),
        decreases *self,
    {
        match self {
            ExpressionPlan::Column(name) => {
                match schema.index_of(name) {
                    Some(i) => {
                        proof {
                            lemma_field_index_of(schema@, name@);
                            assert(schema@[i as int] == schema.fields@[i as int]@);
                        }
                        Ok(schema.fields[i].duplicate())
                    },
                    None => Err(
                        FuseQueryError::Internal("Unable to find the column field".to_owned()),
                    ),
                }
            },
            ExpressionPlan::Wildcard => Err(
                FuseQueryError::Internal(
                    "Wildcard expressions are not valid to get a field".to_owned(),
                ),
            ),
            ExpressionPlan::Sort { expr, .. } => expr.to_field(schema),
        }
    }

    /// A deep copy of this expression.
    pub fn duplicate(&self) -> (r: ExpressionPlan)
        ensures
            r == *self,
        decreases *self,
    {
        match self {
            ExpressionPlan::Column(name) => ExpressionPlan::Column(name.clone()),
            ExpressionPlan::Wildcard => ExpressionPlan::Wildcard,
            ExpressionPlan::Sort { expr, asc, nulls_first } => ExpressionPlan::Sort {
                expr: Box::new(expr.duplicate()),
                asc: *asc,
                nulls_first: *nulls_first,
            },
        }
    }
}

} // verus!
