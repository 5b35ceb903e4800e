//! Per-block streaming sort.
//!
//! A `SortStream` wraps an upstream block stream: each block that arrives
//! is sorted block-locally by the configured keys and passed on.  The
//! stream produces no global order — only block-local order.  The
//! asynchronous polling that feeds blocks in lives outside the library;
//! `process_block` is the work done per upstream item, and upstream
//! errors pass through untouched.

use vstd::prelude::*;

use crate::block_sort::cut_len;
use crate::block_sort::keys_ok;
use crate::block_sort::sort_block;
use crate::block_sort::spec_sort_block;
use crate::block_sort::SortColumnDescription;
use crate::blocks::model_rows;
use crate::blocks::DataBlock;
use crate::error::FuseQueryResult;

verus! {

/// A per-block sorting wrapper around an upstream block stream.
pub struct SortStream {
    sort_columns_descriptions: Vec<SortColumnDescription>,
}

impl View for SortStream {
    type V = Seq<SortColumnDescription>;

    closed spec fn view(&self) -> Seq<SortColumnDescription> {
        self.sort_columns_descriptions@
    }
}

impl SortStream {
    /// Builds the stream over the given sort keys.
    pub fn try_create(sort_columns_descriptions: Vec<SortColumnDescription>) -> (res:
        FuseQueryResult<SortStream>)
        ensures
            res is Ok,
            res matches Ok(s) ==> s@ == sort_columns_descriptions@,
    {
        Ok(SortStream { sort_columns_descriptions })
    }

    /// Sorts one upstream block block-locally, without a limit: the work
    /// done for each item the stream yields.
    pub fn process_block(&self, block: &DataBlock) -> (res: FuseQueryResult<DataBlock>)
        requires
            block.wf(),
            model_rows(block@) <= u32::MAX,
        ensures
            res is Err <==> !keys_ok(block@.schema, self@),
            res matches Err(e) ==> e.is_internal(),
            res matches Ok(b) ==> {
                &&& b@ == spec_sort_block(block@, self@, None)
                &&& b.wf()
                &&& model_rows(b@) == cut_len(None::<usize>, model_rows(block@))
            },
    {
        sort_block(block, &self.sort_columns_descriptions, None)
    }
}

} // verus!
