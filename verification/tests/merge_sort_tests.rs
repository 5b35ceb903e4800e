use fuse_query::array_merge::merge_array;
use fuse_query::array_merge::merge_indices;
use fuse_query::arrays::DataArray;
use fuse_query::arrays::SortOptions;
use fuse_query::block_sort::merge_sort_block;
use fuse_query::block_sort::merge_sort_blocks;
use fuse_query::block_sort::partial_sort_to_indices;
use fuse_query::block_sort::sort_block;
use fuse_query::block_sort::SortColumnDescription;
use fuse_query::blocks::concat_blocks;
use fuse_query::blocks::DataBlock;
use fuse_query::blocks::DataField;
use fuse_query::blocks::DataSchema;
use fuse_query::blocks::DataType;
use fuse_query::error::FuseQueryError;

fn array(values: Vec<Option<u64>>) -> DataArray {
    DataArray::from_values(values)
}

fn block(names: Vec<&str>, cols: Vec<Vec<Option<u64>>>) -> DataBlock {
    let mut fields = Vec::new();
    for n in names {
        fields.push(DataField::create(n.to_string(), DataType::UInt32));
    }
    let mut arrays = Vec::new();
    for c in cols {
        arrays.push(array(c));
    }
    DataBlock::create(DataSchema::create(fields), arrays)
}

fn desc(name: &str, asc: bool, nulls_first: bool) -> SortColumnDescription {
    SortColumnDescription { column_name: name.to_string(), asc, nulls_first }
}

fn column_values(b: &DataBlock, i: usize) -> Vec<Option<u64>> {
    b.column(i).values.clone()
}

#[test]
fn test_indices_other() {
    let a = array(vec![None, Some(1), Some(2), Some(4)]);
    let b = array(vec![None, Some(3)]);
    let c = merge_indices(&vec![a], &vec![b], &vec![SortOptions::default()]).unwrap();

    // [0] false: when equal (None = None), rhs is picked
    // [1] true: None < 3
    // [2] true: 1 < 3
    // [3] true: 2 < 3
    // [4] false: 3 < 4
    // [5] true: rhs has finished => pick lhs
    assert_eq!(c, vec![false, true, true, true, false, true]);
}

#[test]
fn test_indices_many() {
    let a1 = array(vec![None, Some(1), Some(3)]);
    let b1 = array(vec![None, Some(2), Some(3), Some(5)]);
    let option1 = SortOptions { descending: false, nulls_first: true };

    let a2 = array(vec![Some(2), Some(3), Some(5)]);
    let b2 = array(vec![Some(1), Some(4), Some(6), Some(6)]);
    let option2 = SortOptions { descending: true, nulls_first: true };

    let c = merge_indices(&vec![a1, a2], &vec![b1, b2], &vec![option1, option2]).unwrap();

    // [0] true: (N = N, 2 > 1)
    // [1] false: (1 < N, irrelevant)
    // [2] true: (1 < 2, irrelevant)
    // [3] false: (2 < 3, irrelevant)
    // [4] false: (3 = 3, 5 < 6)
    // [5] true: (3 < 5, irrelevant)
    // [6] false: lhs finished
    assert_eq!(c, vec![true, false, true, false, false, true, false]);
}

#[test]
fn test_merge_indices_arity_errors() {
    let opts = vec![SortOptions { descending: false, nulls_first: true }];
    let lhs = vec![array(vec![Some(1)])];
    let rhs = vec![array(vec![Some(2)]), array(vec![Some(3)])];
    let r = merge_indices(&lhs, &rhs, &opts);
    assert!(matches!(r, Err(FuseQueryError::Internal(_))));

    let empty_l: Vec<DataArray> = Vec::new();
    let empty_r: Vec<DataArray> = Vec::new();
    let no_opts: Vec<SortOptions> = Vec::new();
    let r = merge_indices(&empty_l, &empty_r, &no_opts);
    assert!(matches!(r, Err(FuseQueryError::Internal(_))));

    let lhs = vec![array(vec![Some(1)])];
    let rhs = vec![array(vec![Some(2)])];
    let no_opts: Vec<SortOptions> = Vec::new();
    let r = merge_indices(&lhs, &rhs, &no_opts);
    assert!(matches!(r, Err(FuseQueryError::Internal(_))));
}

#[test]
fn test_merge_array_applies_bitmap() {
    let a = array(vec![Some(1), Some(3)]);
    let b = array(vec![Some(2), Some(4)]);
    let bitmap = vec![true, false, true, false];
    let c = merge_array(&a, &b, &bitmap);
    assert_eq!(c.values, vec![Some(1), Some(2), Some(3), Some(4)]);
}

#[test]
fn test_sort_block_with_limit() {
    let b = block(vec!["x"], vec![vec![Some(5), Some(1), Some(4), Some(2), Some(3)]]);
    let descs = vec![desc("x", true, true)];
    let sorted = sort_block(&b, &descs, Some(3)).unwrap();
    assert_eq!(column_values(&sorted, 0), vec![Some(1), Some(2), Some(3)]);
}

#[test]
fn test_sort_block_nulls_last_descending() {
    let b = block(vec!["x"], vec![vec![Some(3), None, Some(1), None, Some(2)]]);
    let descs = vec![desc("x", false, false)];
    let sorted = sort_block(&b, &descs, None).unwrap();
    assert_eq!(column_values(&sorted, 0), vec![Some(3), Some(2), Some(1), None, None]);
}

#[test]
fn test_sort_block_permutes_rows() {
    let b = block(
        vec!["x", "y"],
        vec![
            vec![Some(2), Some(1), Some(2)],
            vec![Some(10), Some(20), Some(30)],
        ],
    );
    let descs = vec![desc("x", true, true)];
    let sorted = sort_block(&b, &descs, None).unwrap();
    assert_eq!(column_values(&sorted, 0), vec![Some(1), Some(2), Some(2)]);
    // Rows move whole: each y still travels with its x.
    assert_eq!(column_values(&sorted, 1), vec![Some(20), Some(10), Some(30)]);
}

#[test]
fn test_sort_block_top_k_is_prefix_of_full_sort() {
    let b = block(vec!["x"], vec![vec![Some(4), None, Some(2), Some(9), Some(7)]]);
    let descs = vec![desc("x", true, false)];
    let full = sort_block(&b, &descs, None).unwrap();
    let top = sort_block(&b, &descs, Some(2)).unwrap();
    assert_eq!(column_values(&top, 0), column_values(&full, 0)[0..2].to_vec());
}

#[test]
fn test_sort_block_unknown_key_fails() {
    let b = block(vec!["x"], vec![vec![Some(1)]]);
    let descs = vec![desc("missing", true, true)];
    let r = sort_block(&b, &descs, None);
    assert!(matches!(r, Err(FuseQueryError::Internal(_))));
}

#[test]
fn test_merge_sort_block_merges_sorted_inputs() {
    let lhs = block(vec!["x"], vec![vec![Some(1), Some(3), Some(5)]]);
    let rhs = block(vec!["x"], vec![vec![Some(2), Some(4)]]);
    let descs = vec![desc("x", true, true)];
    let merged = merge_sort_block(&lhs, &rhs, &descs, None).unwrap();
    assert_eq!(
        column_values(&merged, 0),
        vec![Some(1), Some(2), Some(3), Some(4), Some(5)]
    );
}

#[test]
fn test_merge_sort_block_empty_side_returns_other() {
    let lhs = block(vec!["x"], vec![vec![]]);
    let rhs = block(vec!["x"], vec![vec![Some(2), Some(4)]]);
    let descs = vec![desc("x", true, true)];
    let merged = merge_sort_block(&lhs, &rhs, &descs, None).unwrap();
    assert_eq!(column_values(&merged, 0), vec![Some(2), Some(4)]);
}

#[test]
fn test_merge_sort_blocks_k_way() {
    let b1 = block(vec!["x"], vec![vec![Some(5)]]);
    let b2 = block(vec!["x"], vec![vec![Some(1)]]);
    let b3 = block(vec!["x"], vec![vec![Some(3)]]);
    let descs = vec![desc("x", true, true)];
    let merged = merge_sort_blocks(&vec![b1, b2, b3], &descs, None).unwrap();
    assert_eq!(column_values(&merged, 0), vec![Some(1), Some(3), Some(5)]);
}

#[test]
fn test_merge_sort_blocks_limit_propagates() {
    let b1 = block(vec!["x"], vec![vec![Some(2), Some(6)]]);
    let b2 = block(vec!["x"], vec![vec![Some(1), Some(4)]]);
    let descs = vec![desc("x", true, true)];
    let merged = merge_sort_blocks(&vec![b1, b2], &descs, Some(2)).unwrap();
    assert_eq!(column_values(&merged, 0), vec![Some(1), Some(2)]);
}

#[test]
fn test_merge_sort_blocks_empty_fails() {
    let blocks: Vec<DataBlock> = Vec::new();
    let descs = vec![desc("x", true, true)];
    let r = merge_sort_blocks(&blocks, &descs, None);
    assert!(matches!(r, Err(FuseQueryError::Internal(_))));
}

#[test]
fn test_merge_sort_blocks_single_block_unchanged() {
    let b1 = block(vec!["x"], vec![vec![Some(9), Some(2)]]);
    let descs = vec![desc("x", true, true)];
    let merged = merge_sort_blocks(&vec![b1], &descs, None).unwrap();
    // One block passes through untouched, even if unsorted.
    assert_eq!(column_values(&merged, 0), vec![Some(9), Some(2)]);
}

#[test]
fn test_concat_blocks_concatenates_columns() {
    let b1 = block(vec!["x"], vec![vec![Some(1), Some(2)]]);
    let b2 = block(vec!["x"], vec![vec![Some(3)]]);
    let big = concat_blocks(&vec![b1, b2]).unwrap();
    assert_eq!(big.num_rows(), 3);
    assert_eq!(column_values(&big, 0), vec![Some(1), Some(2), Some(3)]);
}

#[test]
fn test_concat_blocks_empty_fails() {
    let blocks: Vec<DataBlock> = Vec::new();
    let r = concat_blocks(&blocks);
    assert!(matches!(r, Err(FuseQueryError::Internal(_))));
}

#[test]
fn test_concat_blocks_schema_mismatch_fails() {
    let b1 = block(vec!["x"], vec![vec![Some(1)]]);
    let b2 = block(vec!["y"], vec![vec![Some(2)]]);
    let r = concat_blocks(&vec![b1, b2]);
    assert!(matches!(r, Err(FuseQueryError::Internal(_))));
    let e = r.err().unwrap();
    assert_eq!(e.message(), "Schema not matched");
}

#[test]
fn test_partial_sort_to_indices_smallest_first() {
    let cols = vec![array(vec![Some(3), Some(1), Some(2)])];
    let opts = vec![SortOptions { descending: false, nulls_first: true }];
    let idx = partial_sort_to_indices(&cols, &opts, 2).unwrap();
    assert_eq!(idx, vec![1, 2]);
}

#[test]
fn test_partial_sort_to_indices_no_columns_fails() {
    let cols: Vec<DataArray> = Vec::new();
    let opts: Vec<SortOptions> = Vec::new();
    let r = partial_sort_to_indices(&cols, &opts, 1);
    assert!(matches!(r, Err(FuseQueryError::Internal(_))));
}

#[test]
fn test_partial_sort_to_indices_uneven_columns_fail() {
    let cols = vec![array(vec![Some(1), Some(2)]), array(vec![Some(3)])];
    let opts = vec![
        SortOptions { descending: false, nulls_first: true },
        SortOptions { descending: false, nulls_first: true },
    ];
    let r = partial_sort_to_indices(&cols, &opts, 1);
    assert!(matches!(r, Err(FuseQueryError::Internal(_))));
}

#[test]
fn test_array_slice_and_take() {
    let a = array(vec![Some(1), None, Some(3), Some(4)]);
    let s = a.slice(1, 2);
    assert_eq!(s.values, vec![None, Some(3)]);
    assert_eq!(a.len(), 4);
    assert!(a.is_valid(0));
    assert!(!a.is_valid(1));
}
