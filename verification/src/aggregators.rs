//! The `uniq` aggregator: counts distinct values of one argument.
//!
//! The aggregator keeps every distinct value it has seen, nulls
//! included; its merged result is how many there are.  Accumulating a
//! block inserts the value of every row of the evaluated argument
//! column — each row counts, whether the argument evaluates to an array
//! or to a scalar.

use vstd::prelude::*;

use crate::arrays::DataArray;
use crate::blocks::field_index_of;
use crate::blocks::DataBlock;
use crate::blocks::DataType;
use crate::error::FuseQueryError;
use crate::error::FuseQueryResult;
use crate::expressions::ExpressionPlan;

verus! {

/// What evaluating an expression over a block yields: a column, or one
/// scalar.
pub enum DataColumnarValue {
    /// One value per row.
    Array(DataArray),
    /// A single value.
    Scalar(Option<u64>),
}

/// Inserting a value into a distinct-value list: already-seen values
/// leave it unchanged, new ones are appended.
pub open spec fn insert_distinct(s: Seq<Option<u64>>, v: Option<u64>) -> Seq<Option<u64>> {
    if s.contains(v) {
        s
    } else {
        s.push(v)
    }
}

/// The inserted list holds exactly the old values and the new one.
pub proof fn lemma_insert_distinct_contains(s: Seq<Option<u64>>, v: Option<u64>)
    ensures
        forall|w: Option<u64>|
            #[trigger] insert_distinct(s, v).contains(w) <==> (s.contains(w) || w == v),
{
    assert forall|w: Option<u64>| #[trigger] insert_distinct(s, v).contains(w) <==> (s.contains(w)
        || w == v) by {
        if !s.contains(v) {
            assert(s.push(v)[s.len() as int] == v);
            if w == v {
                assert(s.push(v).contains(v));
            }
            if s.contains(w) {
                let j = choose|j: int| 0 <= j < s.len() && s[j] == w;
                assert(s.push(v)[j] == w);
            }
            if s.push(v).contains(w) {
                let j = choose|j: int| 0 <= j < s.push(v).len() && s.push(v)[j] == w;
                if j < s.len() {
                    assert(s[j] == w);
                }
            }
        }
    }
}

/// An aggregator counting the distinct values of its single argument.
pub struct AggregatorUniqFunction {
    display_name: String,
    depth: usize,
    arg: ExpressionPlan,
    state: Vec<Option<u64>>,
}

impl AggregatorUniqFunction {
    /// The distinct values seen so far, in first-seen order.
    pub closed spec fn spec_state(&self) -> Seq<Option<u64>> {
        self.state@
    }

    /// The argument expression.
    pub closed spec fn spec_arg(&self) -> ExpressionPlan {
        self.arg
    }

    /// The aggregator's depth in the expression tree.
    pub closed spec fn spec_depth(&self) -> usize {
        self.depth
    }

    /// The aggregator's display name.
    pub closed spec fn spec_display_name(&self) -> Seq<char> {
        self.display_name@
    }

    /// The state holds no value twice.
    pub closed spec fn wf(&self) -> bool {
        forall|i: int, j: int| #![trigger self.state@[i], self.state@[j]]
            0 <= i < j < self.state@.len() ==> self.state@[i] != self.state@[j]
    }

    /// Builds the aggregator over its arguments.
    ///
    /// Fails with `BadArguments` exactly when not exactly one argument is
    /// given.
    pub fn try_create(display_name: &str, args: &Vec<ExpressionPlan>) -> (res: FuseQueryResult<
        AggregatorUniqFunction,
    >)
        ensures
            res is Ok <==> args@.len() == 1,
            res matches Err(e) ==> e.is_bad_arguments(),
            res matches Ok(a) ==> {
                &&& a.wf()
                &&& a.spec_state().len() == 0
                &&& a.spec_arg() == args@[0]
            },
    {
        if args.len() == 1 {
            Ok(
                AggregatorUniqFunction {
                    display_name: display_name.to_owned(),
                    depth: 0,
                    arg: args[0].duplicate(),
                    state: Vec::new(),
                },
            )
        } else {
            Err(
                FuseQueryError::BadArguments(
                    "Aggregator function args require single argument".to_owned(),
                ),
            )
        }
    }

    /// The aggregator's display name.
    pub fn name(&self) -> (r: &'static str)
        ensures
            r@ == "AggregatorUniqFunction"@,
    {
        "AggregatorUniqFunction"
    }

    /// The result type of the aggregate.
    pub fn return_type(&self) -> (res: FuseQueryResult<DataType>)
        ensures
            res matches Ok(t) && t == DataType::UInt64,
    {
        Ok(DataType::UInt64)
    }

    /// Whether the aggregate can yield null: it cannot.
    pub fn nullable(&self) -> (res: FuseQueryResult<bool>)
        ensures
            res matches Ok(b) && b == false,
    {
        Ok(false)
    }

    /// Marks the aggregator's depth in the expression tree.
    pub fn set_depth(&mut self, depth: usize)
        ensures
            final(self).spec_depth() == depth,
            final(self).spec_state() == old(self).spec_state(),
            final(self).spec_arg() == old(self).spec_arg(),
            final(self).spec_display_name() == old(self).spec_display_name(),
    {
        self.depth = depth;
    }

    /// True of every aggregator.
    pub fn is_aggregator(&self) -> (r: bool)
        ensures
            r,
    {
        true
    }

    /// Evaluates the argument over a block: the column its field
    /// resolves to.
    pub fn eval(&self, block: &DataBlock) -> (res: FuseQueryResult<DataColumnarValue>)
        requires
            block.wf(),
        ensures
            res is Ok <==> self.spec_arg().spec_to_field_name(block@.schema) is Some,
            res matches Err(e) ==> e.is_internal(),
            res matches Ok(cv) ==> (cv matches DataColumnarValue::Array(a) && exists|n: Seq<char>|
                self.spec_arg().spec_to_field_name(block@.schema) == Some(n) && a@
                    == block@.columns[#[trigger] field_index_of(block@.schema, n)]),
    {
        let f = match self.arg.to_field(&block.schema) {
            Ok(f) => f,
            Err(e) => {
                return Err(e);
            },
        };
        match block.column_by_name(&f.name) {
            Ok(a) => {
                let ghost n = f@.name;
                let r = DataColumnarValue::Array(a.duplicate());
                proof {
                    assert(self.spec_arg().spec_to_field_name(block@.schema) == Some(n));
                }
                Ok(r)
            },
            Err(e) => Err(e),
        }
    }

    /// Inserts one value, keeping the state free of duplicates.
    fn insert_value(&mut self, v: Option<u64>)
        requires
            old(self).wf(),
        ensures
            final(self).wf(),
            final(self).spec_state() == insert_distinct(old(self).spec_state(), v),
            final(self).arg == old(self).arg,
            final(self).display_name == old(self).display_name,
            final(self).depth == old(self).depth,
    {
        let n = self.state.len();
        let mut i: usize = 0;
        while i < n
            invariant
                *self == *old(self),
                old(self).wf(),
                n == self.state@.len(),
                i <= n,
                forall|j: int| 0 <= j < i ==> (#[trigger] self.state@[j]) != v,
            decreases n - i,
        {
            let got_match = match (self.state[i], v) {
                (None, None) => true,
                (Some(a), Some(b)) => a == b,
                _ => false,
            };
            if got_match {
                assert(self.state@.contains(v));
                assert(self.spec_state() == insert_distinct(old(self).spec_state(), v));
                return ;
            }
            i += 1;
        }
        let ghost old_state = self.state@;
        proof {
            assert(!old_state.contains(v)) by {
                if old_state.contains(v) {
                    let j = choose|j: int| 0 <= j < old_state.len() && old_state[j] == v;
                    assert(self.state@[j] != v);
                }
            }
        }
        self.state.push(v);
        proof {
            assert(self.state@ == old_state.push(v));
            assert(self.spec_state() == insert_distinct(old_state, v));
            assert forall|i2: int, j2: int| #![trigger self.state@[i2], self.state@[j2]]
                0 <= i2 < j2 < self.state@.len() implies self.state@[i2] != self.state@[j2] by {
                if j2 < old_state.len() {
                } else {
                    assert(self.state@[j2] == v);
                    assert(old_state[i2] == self.state@[i2]);
                    assert(!old_state.contains(v));
                }
            }
        }
    }

    /// Accumulates a block: inserts the value of every row of the
    /// evaluated argument column.
    pub fn accumulate(&mut self, block: &DataBlock) -> (res: FuseQueryResult<()>)
        requires
            old(self).wf(),
            block.wf(),
        ensures
            final(self).wf(),
            res is Ok <==> old(self).spec_arg().spec_to_field_name(block@.schema) is Some,
            res matches Err(e) ==> e.is_internal() && *final(self) == *old(self),
            res is Ok ==> exists|n: Seq<char>|
                old(self).spec_arg().spec_to_field_name(block@.schema) == Some(n) && (forall|
                    w: Option<u64>,
                |
                    final(self).spec_state().contains(w) <==> (old(self).spec_state().contains(w)
                        || block@.columns[#[trigger] field_index_of(block@.schema, n)].contains(
                        w,
                    ))),
            final(self).spec_arg() == old(self).spec_arg(),
    {
        let cv = match self.eval(block) {
            Ok(cv) => cv,
            Err(e) => {
                return Err(e);
            },
        };
        match cv {
            DataColumnarValue::Array(array) => {
                let ghost n = choose|n: Seq<char>|
                    old(self).spec_arg().spec_to_field_name(block@.schema) == Some(n) && array@
                        == block@.columns[field_index_of(block@.schema, n)];
                let ghost base = self.state@;
                let rows = array.len();
                let mut i: usize = 0;
                while i < rows
                    invariant
                        self.wf(),
                        rows == array@.len(),
                        i <= rows,
                        self.arg == old(self).arg,
                        forall|w: Option<u64>|
                            self.state@.contains(w) <==> (base.contains(w) || array@.subrange(
                                0,
                                i as int,
                            ).contains(w)),
                    decreases rows - i,
                {
                    let ghost before = self.state@;
                    proof {
                        assert(forall|w: Option<u64>|
                            before.contains(w) <==> (base.contains(w) || array@.subrange(
                                0,
                                i as int,
                            ).contains(w)));
                    }
                    self.insert_value(array.value(i));
                    proof {
                        let varr = array@[i as int];
                        assert(self.state@ == insert_distinct(before, varr));
                        lemma_insert_distinct_contains(before, varr);
                        assert forall|w: Option<u64>| self.state@.contains(w) <==> (
                        base.contains(w) || array@.subrange(0, (i + 1) as int).contains(w)) by {
                            assert(insert_distinct(before, varr).contains(w) <==> (
                            before.contains(w) || w == varr));
                            assert(before.contains(w) <==> (base.contains(w) || array@.subrange(
                                0,
                                i as int,
                            ).contains(w)));
                            let sub = array@.subrange(0, (i + 1) as int);
                            if self.state@.contains(w) {
                                if before.contains(w) {
                                    if !base.contains(w) {
                                        let j = choose|j: int|
                                            0 <= j < i && array@.subrange(0, i as int)[j] == w;
                                        assert(sub[j] == w);
                                    }
                                } else {
                                    assert(w == varr);
                                    assert(sub[i as int] == w);
                                }
                            }
                            if sub.contains(w) {
                                let j = choose|j: int| 0 <= j < sub.len() && sub[j] == w;
                                if j < i {
                                    assert(array@.subrange(0, i as int)[j] == w);
                                } else {
                                    assert(w == array@[i as int]);
                                }
                            }
                        }
                    }
                    i += 1;
                }
                proof {
                    assert(array@.subrange(0, rows as int) =~= array@);
                    assert(self.spec_state() == self.state@);
                }
                Ok(())
            },
            DataColumnarValue::Scalar(v) => {
                self.insert_value(v);
                Ok(())
            },
        }
    }

    /// The distinct values seen so far.
    pub fn accumulate_result(&self) -> (res: FuseQueryResult<Vec<Option<u64>>>)
        ensures
            res matches Ok(v) && v@ == self.spec_state(),
    {
        let n = self.state.len();
        let mut v: Vec<Option<u64>> = Vec::new();
        let mut i: usize = 0;
        while i < n
            invariant
                n == self.state@.len(),
                i <= n,
                v@ == self.state@.subrange(0, i as int),
            decreases n - i,
        {
            v.push(self.state[i]);
            assert(v@ =~= self.state@.subrange(0, (i + 1) as int));
            i += 1;
        }
        assert(v@ =~= self.state@);
        Ok(v)
    }

    /// Merges another aggregator's accumulated values: inserts each one.
    pub fn merge(&mut self, states: &Vec<Option<u64>>) -> (res: FuseQueryResult<()>)
        requires
            old(self).wf(),
        ensures
            res is Ok,
            final(self).wf(),
            forall|w: Option<u64>|
                final(self).spec_state().contains(w) <==> (old(self).spec_state().contains(w)
                    || states@.contains(w)),
    {
        let ghost base = self.state@;
        let n = states.len();
        let mut i: usize = 0;
        while i < n
            invariant
                self.wf(),
                n == states@.len(),
                i <= n,
                forall|w: Option<u64>|
                    self.state@.contains(w) <==> (base.contains(w) || states@.subrange(
                        0,
                        i as int,
                    ).contains(w)),
            decreases n - i,
        {
            let ghost before = self.state@;
            proof {
                assert(forall|w: Option<u64>|
                    before.contains(w) <==> (base.contains(w) || states@.subrange(
                        0,
                        i as int,
                    ).contains(w)));
            }
            self.insert_value(states[i]);
            proof {
                let vst = states@[i as int];
                assert(self.state@ == insert_distinct(before, vst));
                lemma_insert_distinct_contains(before, vst);
                assert forall|w: Option<u64>| self.state@.contains(w) <==> (base.contains(w)
                    || states@.subrange(0, (i + 1) as int).contains(w)) by {
                    assert(insert_distinct(before, vst).contains(w) <==> (before.contains(w) || w
                        == vst));
                    assert(before.contains(w) <==> (base.contains(w) || states@.subrange(
                        0,
                        i as int,
                    ).contains(w)));
                    let sub = states@.subrange(0, (i + 1) as int);
                    if self.state@.contains(w) {
                        if before.contains(w) {
                            if !base.contains(w) {
                                let j = choose|j: int|
                                    0 <= j < i && states@.subrange(0, i as int)[j] == w;
                                assert(sub[j] == w);
                            }
                        } else {
                            assert(sub[i as int] == w);
                        }
                    }
                    if sub.contains(w) {
                        let j = choose|j: int| 0 <= j < sub.len() && sub[j] == w;
                        if j < i {
                            assert(states@.subrange(0, i as int)[j] == w);
                        } else {
                            assert(w == states@[i as int]);
                        }
                    }
                }
            }
            i += 1;
        }
        proof {
            assert(states@.subrange(0, n as int) =~= states@);
            assert(self.spec_state() == self.state@);
            assert(old(self).spec_state() == base);
            assert forall|w: Option<u64>| self.spec_state().contains(w) <==> (old(
                self,
            ).spec_state().contains(w) || states@.contains(w)) by {
                assert(self.state@.contains(w) <==> (base.contains(w) || states@.subrange(
                    0,
                    n as int,
                ).contains(w)));
                assert(old(self).spec_state().contains(w) == base.contains(w));
            }
        }
        Ok(())
    }

    /// The merged result: how many distinct values were seen.
    pub fn merge_result(&self) -> (res: FuseQueryResult<u64>)
        ensures
            res matches Ok(c) && c == self.spec_state().len(),
    {
        Ok(self.state.len() as u64)
    }
}

} // verus!
