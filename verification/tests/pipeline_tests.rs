use fuse_query::pipeline::Pipe;
use fuse_query::pipeline::Pipeline;
use fuse_query::pipeline::ProcessorKind;

fn aggregate_plan_pipeline() -> Pipeline {
    Pipeline::create(vec![
        Pipe::create(ProcessorKind::SourceTransform, 8),
        Pipe::create(ProcessorKind::FilterTransform, 8),
        Pipe::create(ProcessorKind::AggregatePartialTransform, 8),
        Pipe::create(ProcessorKind::MergeProcessor, 1),
        Pipe::create(ProcessorKind::AggregateFinalTransform, 1),
        Pipe::create(ProcessorKind::LimitTransform, 1),
    ])
}

fn sort_plan_pipeline() -> Pipeline {
    Pipeline::create(vec![
        Pipe::create(ProcessorKind::SourceTransform, 8),
        Pipe::create(ProcessorKind::FilterTransform, 8),
        Pipe::create(ProcessorKind::ProjectionTransform, 8),
        Pipe::create(ProcessorKind::PartialSortTransform, 8),
        Pipe::create(ProcessorKind::MergingSortTransform, 8),
        Pipe::create(ProcessorKind::MergingSortedProcessor, 1),
        Pipe::create(ProcessorKind::LimitTransform, 1),
    ])
}

#[test]
fn test_pipeline_display_aggregate_plan() {
    let pipeline = aggregate_plan_pipeline();
    let expect = "\
    \n  \u{2514}\u{2500} LimitTransform \u{d7} 1 processor\
    \n    \u{2514}\u{2500} AggregateFinalTransform \u{d7} 1 processor\
    \n      \u{2514}\u{2500} Merge (AggregatePartialTransform \u{d7} 8 processors) to (MergeProcessor \u{d7} 1)\
    \n        \u{2514}\u{2500} AggregatePartialTransform \u{d7} 8 processors\
    \n          \u{2514}\u{2500} FilterTransform \u{d7} 8 processors\
    \n            \u{2514}\u{2500} SourceTransform \u{d7} 8 processors";
    let actual = pipeline.display_indent();
    assert_eq!(expect, actual);
}

#[test]
fn test_pipeline_display_sort_plan() {
    let pipeline = sort_plan_pipeline();
    let expect = "\
    \n  \u{2514}\u{2500} LimitTransform \u{d7} 1 processor\
    \n    \u{2514}\u{2500} MergingSortedProcessor \u{d7} 1 processor\
    \n      \u{2514}\u{2500} MergingSortTransform \u{d7} 8 processors\
    \n        \u{2514}\u{2500} PartialSortTransform \u{d7} 8 processors\
    \n          \u{2514}\u{2500} ProjectionTransform \u{d7} 8 processors\
    \n            \u{2514}\u{2500} FilterTransform \u{d7} 8 processors\
    \n              \u{2514}\u{2500} SourceTransform \u{d7} 8 processors";
    let actual = pipeline.display_indent();
    assert_eq!(expect, actual);
}

#[test]
fn test_pipeline_display_is_shape_function() {
    let a = sort_plan_pipeline();
    let b = sort_plan_pipeline();
    assert_eq!(a.display_indent(), b.display_indent());
}

#[test]
fn test_pipeline_display_wide_counts() {
    let pipeline = Pipeline::create(vec![
        Pipe::create(ProcessorKind::SourceTransform, 12),
        Pipe::create(ProcessorKind::LimitTransform, 1),
    ]);
    let expect = "\
    \n  \u{2514}\u{2500} LimitTransform \u{d7} 1 processor\
    \n    \u{2514}\u{2500} SourceTransform \u{d7} 12 processors";
    assert_eq!(expect, pipeline.display_indent());
}

#[test]
fn test_pipeline_display_graphviz() {
    let pipeline = sort_plan_pipeline();
    let expect = "// Begin DataFuse GraphViz Pipeline (see https://graphviz.org)\ndigraph {\n}\n// End DataFuse GraphViz Pipeline\n";
    assert_eq!(expect, pipeline.display_graphviz());
}

#[test]
fn test_processor_kind_names() {
    assert_eq!(ProcessorKind::MergeProcessor.name(), "MergeProcessor");
    assert_eq!(ProcessorKind::EmptyProcessor.name(), "EmptyProcessor");
    assert_eq!(
        ProcessorKind::MergingSortedProcessor.name(),
        "MergingSortedProcessor"
    );
}
