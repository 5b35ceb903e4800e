use fuse_query::aggregators::AggregatorUniqFunction;
use fuse_query::arrays::DataArray;
use fuse_query::blocks::DataBlock;
use fuse_query::blocks::DataField;
use fuse_query::blocks::DataSchema;
use fuse_query::blocks::DataType;
use fuse_query::error::FuseQueryError;
use fuse_query::expressions::ExpressionPlan;
use fuse_query::plans::FilterPlan;
use fuse_query::plans::PlanNode;
use fuse_query::plans::SortPlan;
use fuse_query::processors::MergingSortedProcessor;
use fuse_query::transforms::get_sort_descriptions;
use fuse_query::transforms::MergingSortTransform;
use fuse_query::transforms::PartialSortTransform;

fn schema(names: Vec<&str>) -> DataSchema {
    let mut fields = Vec::new();
    for n in names {
        fields.push(DataField::create(n.to_string(), DataType::UInt64));
    }
    DataSchema::create(fields)
}

fn block(names: Vec<&str>, cols: Vec<Vec<Option<u64>>>) -> DataBlock {
    let mut arrays = Vec::new();
    for c in cols {
        arrays.push(DataArray::from_values(c));
    }
    DataBlock::create(schema(names), arrays)
}

fn sort_expr(name: &str, asc: bool, nulls_first: bool) -> ExpressionPlan {
    ExpressionPlan::Sort {
        expr: Box::new(ExpressionPlan::Column(name.to_string())),
        asc,
        nulls_first,
    }
}

fn column_values(b: &DataBlock, i: usize) -> Vec<Option<u64>> {
    b.column(i).values.clone()
}

#[test]
fn test_get_sort_descriptions_resolves_keys() {
    let s = schema(vec!["number", "name"]);
    let exprs = vec![sort_expr("number", false, true), sort_expr("name", true, false)];
    let descs = get_sort_descriptions(&s, &exprs).unwrap();
    assert_eq!(descs.len(), 2);
    assert_eq!(descs[0].column_name, "number");
    assert!(!descs[0].asc);
    assert!(descs[0].nulls_first);
    assert_eq!(descs[1].column_name, "name");
    assert!(descs[1].asc);
    assert!(!descs[1].nulls_first);
}

#[test]
fn test_get_sort_descriptions_rejects_non_sort_expression() {
    let s = schema(vec!["number"]);
    let exprs = vec![ExpressionPlan::Column("number".to_string())];
    let r = get_sort_descriptions(&s, &exprs);
    assert!(matches!(r, Err(FuseQueryError::Internal(_))));
}

#[test]
fn test_get_sort_descriptions_rejects_unknown_column() {
    let s = schema(vec!["number"]);
    let exprs = vec![sort_expr("missing", true, true)];
    let r = get_sort_descriptions(&s, &exprs);
    assert!(matches!(r, Err(FuseQueryError::Internal(_))));
}

#[test]
fn test_expression_to_field() {
    let s = schema(vec!["x", "y"]);
    let f = ExpressionPlan::Column("y".to_string()).to_field(&s).unwrap();
    assert_eq!(f.name, "y");
    let r = ExpressionPlan::Wildcard.to_field(&s);
    assert!(matches!(r, Err(FuseQueryError::Internal(_))));
    let r = ExpressionPlan::Column("z".to_string()).to_field(&s);
    assert!(matches!(r, Err(FuseQueryError::Internal(_))));
}

#[test]
fn test_plan_nodes_share_input_schema() {
    let base = PlanNode::Empty(schema(vec!["x"]));
    let filter = FilterPlan {
        predicate: ExpressionPlan::Column("x".to_string()),
        input: Box::new(base.duplicate()),
    };
    assert_eq!(filter.schema().num_fields(), 1);
    let sort = SortPlan { order_by: vec![sort_expr("x", true, true)], input: Box::new(base) };
    assert_eq!(sort.schema().num_fields(), 1);
    assert_eq!(sort.input().schema().num_fields(), 1);
}

#[test]
fn test_plan_set_input_replaces_input() {
    let base = PlanNode::Empty(schema(vec!["x"]));
    let wider = PlanNode::Empty(schema(vec!["x", "y"]));
    let mut filter = FilterPlan {
        predicate: ExpressionPlan::Column("x".to_string()),
        input: Box::new(base.duplicate()),
    };
    filter.set_input(&wider);
    assert_eq!(filter.schema().num_fields(), 2);
    let mut sort = SortPlan { order_by: vec![sort_expr("x", true, true)], input: Box::new(base) };
    assert!(sort.set_input(&wider).is_ok());
    assert_eq!(sort.schema().num_fields(), 2);
}

#[test]
fn test_partial_sort_transform_sorts_each_block() {
    let t = PartialSortTransform::try_create(
        schema(vec!["number"]),
        vec![sort_expr("number", true, true)],
    )
    .unwrap();
    assert_eq!(t.name(), "PartialSortTransform");
    let stream = t.execute().unwrap();
    let b = block(vec!["number"], vec![vec![Some(3), Some(1), Some(2)]]);
    let sorted = stream.process_block(&b).unwrap();
    assert_eq!(column_values(&sorted, 0), vec![Some(1), Some(2), Some(3)]);
}

#[test]
fn test_merging_sort_transform_drains_and_sorts() {
    let t = MergingSortTransform::try_create(
        schema(vec!["number"]),
        vec![sort_expr("number", true, true)],
        None,
    )
    .unwrap();
    assert_eq!(t.name(), "MergingSortTransform");
    let b1 = block(vec!["number"], vec![vec![Some(2), Some(9)]]);
    let b2 = block(vec!["number"], vec![vec![Some(5), Some(1)]]);
    let out = t.execute_blocks(&vec![b1, b2]).unwrap();
    assert_eq!(out.len(), 1);
    assert_eq!(
        column_values(&out[0], 0),
        vec![Some(1), Some(2), Some(5), Some(9)]
    );
}

#[test]
fn test_merging_sort_transform_empty_lane_emits_nothing() {
    let t = MergingSortTransform::try_create(
        schema(vec!["number"]),
        vec![sort_expr("number", true, true)],
        None,
    )
    .unwrap();
    let out = t.execute_blocks(&Vec::new()).unwrap();
    assert_eq!(out.len(), 0);
}

#[test]
fn test_merging_sort_transform_applies_limit() {
    let t = MergingSortTransform::try_create(
        schema(vec!["number"]),
        vec![sort_expr("number", false, true)],
        Some(2),
    )
    .unwrap();
    let b1 = block(vec!["number"], vec![vec![Some(2), Some(9)]]);
    let b2 = block(vec!["number"], vec![vec![Some(5), Some(1)]]);
    let out = t.execute_blocks(&vec![b1, b2]).unwrap();
    assert_eq!(out.len(), 1);
    assert_eq!(column_values(&out[0], 0), vec![Some(9), Some(5)]);
}

#[test]
fn test_merging_sorted_processor_merges_lanes() {
    let p = MergingSortedProcessor::try_create(
        schema(vec!["number"]),
        vec![sort_expr("number", true, true)],
        None,
    )
    .unwrap();
    assert_eq!(p.name(), "MergingSortedProcessor");
    let lane1 = block(vec!["number"], vec![vec![Some(1), Some(4)]]);
    let lane2 = block(vec!["number"], vec![vec![Some(2), Some(3)]]);
    let out = p.execute_blocks(&vec![lane1, lane2]).unwrap();
    assert_eq!(out.len(), 1);
    assert_eq!(
        column_values(&out[0], 0),
        vec![Some(1), Some(2), Some(3), Some(4)]
    );
}

#[test]
fn test_merging_sorted_processor_empty_emits_nothing() {
    let p = MergingSortedProcessor::try_create(
        schema(vec!["number"]),
        vec![sort_expr("number", true, true)],
        None,
    )
    .unwrap();
    let out = p.execute_blocks(&Vec::new()).unwrap();
    assert_eq!(out.len(), 0);
}

#[test]
fn test_uniq_aggregator_requires_single_argument() {
    let args = vec![
        ExpressionPlan::Column("x".to_string()),
        ExpressionPlan::Column("y".to_string()),
    ];
    let r = AggregatorUniqFunction::try_create("uniq", &args);
    assert!(matches!(r, Err(FuseQueryError::BadArguments(_))));
}

#[test]
fn test_uniq_aggregator_counts_every_row() {
    let args = vec![ExpressionPlan::Column("x".to_string())];
    let mut agg = AggregatorUniqFunction::try_create("uniq", &args).unwrap();
    assert_eq!(agg.name(), "AggregatorUniqFunction");
    assert!(agg.is_aggregator());
    assert!(matches!(agg.return_type(), Ok(DataType::UInt64)));
    assert!(matches!(agg.nullable(), Ok(false)));
    let b = block(
        vec!["x"],
        vec![vec![Some(1), Some(2), Some(2), Some(3), None]],
    );
    // Accumulating an array input must insert every row's value: the
    // distinct count sees all of them, the null included.
    agg.accumulate(&b).unwrap();
    assert_eq!(agg.merge_result().unwrap(), 4);
    let vals = agg.accumulate_result().unwrap();
    assert_eq!(vals.len(), 4);
}

#[test]
fn test_uniq_aggregator_merges_states() {
    let args = vec![ExpressionPlan::Column("x".to_string())];
    let mut agg = AggregatorUniqFunction::try_create("uniq", &args).unwrap();
    let b = block(vec!["x"], vec![vec![Some(1), Some(2)]]);
    agg.accumulate(&b).unwrap();
    agg.merge(&vec![Some(2), Some(7), None]).unwrap();
    assert_eq!(agg.merge_result().unwrap(), 4);
}

#[test]
fn test_error_messages_carry_through() {
    let e = FuseQueryError::Internal("Schema not matched".to_string());
    assert_eq!(e.message(), "Schema not matched");
    let e = FuseQueryError::BadArguments("wrong arity".to_string());
    assert_eq!(e.message(), "wrong arity");
}
