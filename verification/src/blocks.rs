//! Blocks: immutable columnar row-batches over a fixed schema.
//!
//! A schema is an ordered list of named, typed fields; a block holds one
//! `DataArray` per field, all of the same length.  Two blocks are
//! schema-compatible iff their field lists are pointwise equal (name and
//! element type).  `concat_blocks` concatenates schema-identical blocks
//! column-wise.

use vstd::prelude::*;

use crate::arrays::concat;
use crate::arrays::lemma_spec_concat_len;
use crate::arrays::spec_concat;
use crate::arrays::total_len;
use crate::arrays::DataArray;
use crate::error::FuseQueryError;
use crate::error::FuseQueryResult;

verus! {

/// The element type of a schema field.
#[derive(Clone, Copy, PartialEq, Eq, Structural, Debug)]
pub enum DataType {
    UInt32,
    UInt64,
    Int64,
    Boolean,
}

/// A named, typed field of a schema.
pub struct DataField {
    /// The column name.
    pub name: String,
    /// The element type.
    pub data_type: DataType,
}

/// The mathematical view of a field: its name and element type.
#[verifier::ext_equal]
pub struct FieldModel {
    pub name: Seq<char>,
    pub data_type: DataType,
}

impl View for DataField {
    type V = FieldModel;

    open spec fn view(&self) -> FieldModel {
        FieldModel { name: self.name@, data_type: self.data_type }
    }
}

impl DataField {
    /// Builds a field from a name and a type.
    pub fn create(name: String, data_type: DataType) -> (r: DataField)
        ensures
            r@.name == name@,
            r@.data_type == data_type,
    {
        DataField { name, data_type }
    }

    /// An element-wise copy of this field.
    pub fn duplicate(&self) -> (r: DataField)
        ensures
            r@ == self@,
    {
        DataField { name: self.name.clone(), data_type: self.data_type }
    }
}

/// An ordered list of fields.
pub struct DataSchema {
    /// The fields, in column order.
    pub fields: Vec<DataField>,
}

impl View for DataSchema {
    type V = Seq<FieldModel>;

    open spec fn view(&self) -> Seq<FieldModel> {
        self.fields@.map_values(|f: DataField| f@)
    }
}

/// The position of the first field named `name`, or `-1` if none is.
pub open spec fn field_index_of(fields: Seq<FieldModel>, name: Seq<char>) -> int
    decreases fields.len(),
{
    if fields.len() == 0 {
        -1
    } else if fields[0].name == name {
        0
    } else {
        let r = field_index_of(fields.drop_first(), name);
        if r < 0 {
            -1
        } else {
            r + 1
        }
    }
}

/// Some field of the schema is named `name`.
pub open spec fn has_field(fields: Seq<FieldModel>, name: Seq<char>) -> bool {
    field_index_of(fields, name) >= 0
}

/// `field_index_of` finds the first field with the given name, and finds
/// one exactly when one exists.
pub proof fn lemma_field_index_of(fields: Seq<FieldModel>, name: Seq<char>)
    ensures
        !has_field(fields, name) ==> forall|j: int|
            0 <= j < fields.len() ==> (#[trigger] fields[j].name) != name,
        has_field(fields, name) ==> {
            let idx = field_index_of(fields, name);
            &&& 0 <= idx < fields.len()
            &&& fields[idx].name == name
            &&& forall|j: int| 0 <= j < idx ==> (#[trigger] fields[j].name) != name
        },
    decreases fields.len(),
{
    if fields.len() > 0 && fields[0].name != name {
        lemma_field_index_of(fields.drop_first(), name);
        let idx = field_index_of(fields, name);
        if has_field(fields, name) {
            assert(fields.drop_first()[idx - 1] == fields[idx]);
            assert forall|j: int| 0 <= j < idx implies (#[trigger] fields[j].name) != name by {
                if j > 0 {
                    assert(fields.drop_first()[j - 1] == fields[j]);
                }
            }
        } else {
            assert forall|j: int| 0 <= j < fields.len() implies (#[trigger] fields[j].name)
                != name by {
                if j > 0 {
                    assert(fields.drop_first()[j - 1] == fields[j]);
                }
            }
        }
    }
}

impl DataSchema {
    /// Builds a schema from its fields.
    pub fn create(fields: Vec<DataField>) -> (r: DataSchema)
        ensures
            r@ == fields@.map_values(|f: DataField| f@),
    {
        DataSchema { fields }
    }

    /// The number of fields.
    pub fn num_fields(&self) -> (r: usize)
        ensures
            r == self@.len(),
    {
        self.fields.len()
    }

    /// The position of the first field named `name`, if any.
    pub fn index_of(&self, name: &String) -> (r: Option<usize>)
        ensures
            r is Some <==> has_field(self@, name@),
            r matches Some(i) ==> i == field_index_of(self@, name@),
    {
        proof {
            lemma_field_index_of(self@, name@);
        }
        let n = self.fields.len();
        let mut i: usize = 0;
        while i < n
            invariant
                n == self@.len(),
                i <= n,
                forall|j: int| 0 <= j < i ==> (#[trigger] self@[j].name) != name@,
                has_field(self@, name@) ==> field_index_of(self@, name@) >= i,
            decreases n - i,
        {
            proof {
                lemma_field_index_of(self@, name@);
            }
            if self.fields[i].name == *name {
                assert(self@[i as int].name == name@);
                return Some(i);
            }
            i += 1;
        }
        None
    }

    /// An element-wise copy of this schema.
    pub fn duplicate(&self) -> (r: DataSchema)
        ensures
            r@ == self@,
    {
        let n = self.fields.len();
        let mut fields: Vec<DataField> = Vec::new();
        let mut i: usize = 0;
        while i < n
            invariant
                n == self@.len(),
                i <= n,
                fields@.len() == i,
                fields@.map_values(|f: DataField| f@) =~= self@.subrange(0, i as int),
            decreases n - i,
        {
            let ghost old_fields = fields@;
            fields.push(self.fields[i].duplicate());
            proof {
                let m = fields@.map_values(|f: DataField| f@);
                assert forall|k: int| 0 <= k < m.len() implies m[k] == self@.subrange(
                    0,
                    (i + 1) as int,
                )[k] by {
                    assert(m[k] == fields@[k]@);
                    if k < i {
                        assert(fields@[k] == old_fields[k]);
                        assert(old_fields.map_values(|f: DataField| f@)[k] == old_fields[k]@);
                    }
                }
                assert(m =~= self@.subrange(0, (i + 1) as int));
            }
            i += 1;
        }
        assert(fields@.map_values(|f: DataField| f@) =~= self@);
        DataSchema { fields }
    }

    /// True iff the two schemas are pointwise equal (names and types).
    pub fn equals(&self, other: &DataSchema) -> (r: bool)
        ensures
            r <==> self@ == other@,
    {
        let n = self.fields.len();
        if n != other.fields.len() {
            assert(self@.len() != other@.len());
            return false;
        }
        let mut i: usize = 0;
        while i < n
            invariant
                n == self@.len(),
                n == other@.len(),
                i <= n,
                forall|j: int| 0 <= j < i ==> #[trigger] self@[j] == other@[j],
            decreases n - i,
        {
            let a = &self.fields[i];
            let b = &other.fields[i];
            let type_eq = match (a.data_type, b.data_type) {
                (DataType::UInt32, DataType::UInt32) => true,
                (DataType::UInt64, DataType::UInt64) => true,
                (DataType::Int64, DataType::Int64) => true,
                (DataType::Boolean, DataType::Boolean) => true,
                _ => false,
            };
            if !(a.name == b.name && type_eq) {
                assert(self@[i as int] != other@[i as int]);
                return false;
            }
            assert(self@[i as int] =~= other@[i as int]);
            i += 1;
        }
        assert(self@ =~= other@);
        true
    }
}

/// The mathematical view of a block: its schema and its column contents.
#[verifier::ext_equal]
pub struct BlockModel {
    pub schema: Seq<FieldModel>,
    pub columns: Seq<Seq<Option<u64>>>,
}

/// The row count of a block model.
pub open spec fn model_rows(m: BlockModel) -> int {
    if m.columns.len() == 0 {
        0
    } else {
        m.columns[0].len() as int
    }
}

/// A block model is well-formed: one column per field, all of one length.
pub open spec fn model_wf(m: BlockModel) -> bool {
    &&& m.columns.len() == m.schema.len()
    &&& forall|j: int| 0 <= j < m.columns.len() ==> (#[trigger] m.columns[j].len()) == model_rows(m)
}

/// The rows of a block model, in row order; each row lists its entry in
/// every column, in schema order.
pub open spec fn block_rows(m: BlockModel) -> Seq<Seq<Option<u64>>> {
    Seq::new(model_rows(m) as nat, |i: int| Seq::new(m.columns.len(), |j: int| m.columns[j][i]))
}

/// An immutable columnar row-batch.
pub struct DataBlock {
    /// The schema the columns follow.
    pub schema: DataSchema,
    /// One column per schema field.
    pub columns: Vec<DataArray>,
}

impl View for DataBlock {
    type V = BlockModel;

    open spec fn view(&self) -> BlockModel {
        BlockModel {
            schema: self.schema@,
            columns: self.columns@.map_values(|a: DataArray| a@),
        }
    }
}

impl DataBlock {
    /// A well-formed block has one column per field, all of one length.
    pub open spec fn wf(&self) -> bool {
        model_wf(self@)
    }

    /// Assembles a block from a schema and its columns.
    pub fn create(schema: DataSchema, columns: Vec<DataArray>) -> (r: DataBlock)
        ensures
            r@.schema == schema@,
            r@.columns == columns@.map_values(|a: DataArray| a@),
    {
        DataBlock { schema, columns }
    }

    /// The number of rows.
    pub fn num_rows(&self) -> (r: usize)
        ensures
            r == model_rows(self@),
    {
        if self.columns.len() == 0 {
            0
        } else {
            assert(self@.columns[0] == self.columns@[0]@);
            self.columns[0].len()
        }
    }

    /// The number of columns.
    pub fn num_columns(&self) -> (r: usize)
        ensures
            r == self@.columns.len(),
    {
        self.columns.len()
    }

    /// The column at position `i`.
    pub fn column(&self, i: usize) -> (r: &DataArray)
        requires
            i < self@.columns.len(),
        ensures
            r@ == self@.columns[i as int],
    {
        assert(self@.columns[i as int] == self.columns@[i as int]@);
        &self.columns[i]
    }

    /// The column under the first field named `name`, or `Internal` if no
    /// field carries that name.
    pub fn column_by_name(&self, name: &String) -> (r: FuseQueryResult<&DataArray>)
        requires
            self.wf(),
        ensures
            r is Ok <==> has_field(self@.schema, name@),
            r matches Ok(a) ==> a@ == self@.columns[field_index_of(self@.schema, name@)],
            r matches Err(e) ==> e.is_internal(),
    {
        proof {
            lemma_field_index_of(self@.schema, name@);
        }
        match self.schema.index_of(name) {
            Some(i) => {
                assert(self@.columns[i as int] == self.columns@[i as int]@);
                Ok(&self.columns[i])
            },
            None => Err(FuseQueryError::Internal("Unable to get field named".to_owned())),
        }
    }

    /// An element-wise copy of this block.
    pub fn duplicate(&self) -> (r: DataBlock)
        ensures
            r@ == self@,
    {
        let n = self.columns.len();
        let mut columns: Vec<DataArray> = Vec::new();
        let mut i: usize = 0;
        while i < n
            invariant
                n == self.columns@.len(),
                i <= n,
                columns@.len() == i,
                columns@.map_values(|a: DataArray| a@) =~= self.columns@.map_values(
                    |a: DataArray| a@,
                ).subrange(0, i as int),
            decreases n - i,
        {
            assert(self.columns@.map_values(|a: DataArray| a@)[i as int] == self.columns@[i as int]@);
            let ghost old_cols = columns@;
            columns.push(self.columns[i].duplicate());
            proof {
                let m = columns@.map_values(|a: DataArray| a@);
                let target = self.columns@.map_values(|a: DataArray| a@);
                assert forall|k: int| 0 <= k < m.len() implies m[k] == target.subrange(
                    0,
                    (i + 1) as int,
                )[k] by {
                    assert(m[k] == columns@[k]@);
                    assert(target[k] == self.columns@[k]@);
                    if k < i {
                        assert(columns@[k] == old_cols[k]);
                        assert(old_cols.map_values(|a: DataArray| a@)[k] == old_cols[k]@);
                    }
                }
                assert(m =~= target.subrange(0, (i + 1) as int));
            }
            i += 1;
        }
        proof {
            assert(columns@.map_values(|a: DataArray| a@) =~= self.columns@.map_values(
                |a: DataArray| a@,
            ));
            assert(BlockModel {
                schema: self.schema@,
                columns: columns@.map_values(|a: DataArray| a@),
            } =~= self@);
        }
        DataBlock { schema: self.schema.duplicate(), columns }
    }
}

/// The `j`-th columns of the given blocks, in block order.
pub open spec fn column_slices(blocks: Seq<BlockModel>, j: int) -> Seq<Seq<Option<u64>>> {
    Seq::new(blocks.len(), |i: int| blocks[i].columns[j])
}

/// What `concat_blocks` returns: the first block's schema, and per
/// field the concatenation of every block's column under it.
pub open spec fn spec_concat_blocks(models: Seq<BlockModel>) -> BlockModel {
    BlockModel {
        schema: models[0].schema,
        columns: Seq::new(
            models[0].columns.len(),
            |j: int| spec_concat(column_slices(models, j)),
        ),
    }
}

/// Concatenates schema-identical blocks column-wise.
///
/// Fails with `Internal` exactly when the input is empty or some block's
/// schema differs from the first block's.  On success the result carries
/// the first block's schema, and its `j`-th column is the concatenation of
/// the `j`-th columns of all inputs, in input order.
pub fn concat_blocks(blocks: &Vec<DataBlock>) -> (res: FuseQueryResult<DataBlock>)
    requires
        forall|i: int| 0 <= i < blocks@.len() ==> (#[trigger] blocks@[i]).wf(),
    ensures
        res is Err <==> (blocks@.len() == 0 || exists|i: int|
            0 <= i < blocks@.len() && (#[trigger] blocks@[i])@.schema != blocks@[0]@.schema),
        res matches Err(e) ==> e.is_internal(),
        res matches Ok(b) ==> {
            &&& b@.schema == blocks@[0]@.schema
            &&& b.wf()
            &&& b@.columns.len() == blocks@[0]@.columns.len()
            &&& forall|j: int|
                0 <= j < b@.columns.len() ==> (#[trigger] b@.columns[j]) == spec_concat(
                    column_slices(blocks@.map_values(|bl: DataBlock| bl@), j),
                )
        },
{
    if blocks.len() == 0 {
        return Err(FuseQueryError::Internal("Can't concat empty blocks".to_owned()));
    }
    let n = blocks.len();
    let mut i: usize = 0;
    while i < n
        invariant
            n == blocks@.len(),
            i <= n,
            forall|k: int| 0 <= k < blocks@.len() ==> (#[trigger] blocks@[k]).wf(),
            forall|k: int| 0 <= k < i ==> (#[trigger] blocks@[k])@.schema == blocks@[0]@.schema,
        decreases n - i,
    {
        if !blocks[i].schema.equals(&blocks[0].schema) {
            return Err(FuseQueryError::Internal("Schema not matched".to_owned()));
        }
        i += 1;
    }
    let ghost models = blocks@.map_values(|bl: DataBlock| bl@);
    let num_columns = blocks[0].columns.len();
    let mut columns: Vec<DataArray> = Vec::new();
    let mut j: usize = 0;
    while j < num_columns
        invariant
            n == blocks@.len(),
            n > 0,
            models == blocks@.map_values(|bl: DataBlock| bl@),
            forall|k: int| 0 <= k < blocks@.len() ==> (#[trigger] blocks@[k]).wf(),
            forall|k: int| 0 <= k < blocks@.len() ==> (#[trigger] blocks@[k])@.schema
                == blocks@[0]@.schema,
            num_columns == blocks@[0]@.columns.len(),
            j <= num_columns,
            columns@.len() == j,
            forall|c: int| 0 <= c < j ==> (#[trigger] columns@[c]@) == spec_concat(
                column_slices(models, c),
            ),
        decreases num_columns - j,
    {
        let mut arr: Vec<DataArray> = Vec::new();
        let mut i: usize = 0;
        while i < n
            invariant
                n == blocks@.len(),
                models == blocks@.map_values(|bl: DataBlock| bl@),
                forall|k: int| 0 <= k < blocks@.len() ==> (#[trigger] blocks@[k]).wf(),
                forall|k: int| 0 <= k < blocks@.len() ==> (#[trigger] blocks@[k])@.schema
                    == blocks@[0]@.schema,
                num_columns == blocks@[0]@.columns.len(),
                j < num_columns,
                i <= n,
                arr@.len() == i,
                arr@.map_values(|a: DataArray| a@) =~= column_slices(models, j as int).subrange(
                    0,
                    i as int,
                ),
            decreases n - i,
        {
            assert(blocks@[i as int].wf());
            assert(blocks@[i as int]@.schema.len() == blocks@[0]@.schema.len());
            assert(blocks@[i as int]@.columns[j as int] == blocks@[i as int].columns@[j as int]@);
            let ghost old_arr = arr@;
            arr.push(blocks[i].column(j).duplicate());
            proof {
                let m = arr@.map_values(|a: DataArray| a@);
                assert forall|k: int| 0 <= k < m.len() implies m[k] == column_slices(
                    models,
                    j as int,
                ).subrange(0, (i + 1) as int)[k] by {
                    assert(m[k] == arr@[k]@);
                    assert(models[k] == blocks@[k]@);
                    if k < i {
                        assert(arr@[k] == old_arr[k]);
                        assert(old_arr.map_values(|a: DataArray| a@)[k] == old_arr[k]@);
                    }
                }
                assert(m =~= column_slices(models, j as int).subrange(0, (i + 1) as int));
            }
            i += 1;
        }
        proof {
            assert(arr@.map_values(|a: DataArray| a@) =~= column_slices(models, j as int));
        }
        columns.push(concat(&arr));
        j += 1;
    }
    let ghost first = blocks@[0]@;
    let result = DataBlock::create(blocks[0].schema.duplicate(), columns);
    proof {
        assert(result@.schema == first.schema);
        assert(result@.columns.len() == num_columns);
        assert forall|c: int| 0 <= c < num_columns implies (#[trigger] result@.columns[c])
            == spec_concat(column_slices(models, c)) by {
            assert(result@.columns[c] == columns@[c]@);
        }
        // Each concatenated column has the same total length, so the
        // result is well-formed.
        assert forall|c: int| 0 <= c < num_columns implies (#[trigger] result@.columns[c].len())
            == model_rows(result@) by {
            lemma_concat_columns_equal_len(models, c, 0);
            if num_columns > 0 {
                lemma_concat_columns_equal_len(models, 0, 0);
            }
        }
        assert(model_wf(result@));
    }
    Ok(result)
}

/// Every column slice of schema-identical well-formed blocks concatenates
/// to the same length.
proof fn lemma_concat_columns_equal_len(models: Seq<BlockModel>, j: int, c: int)
    requires
        forall|k: int| 0 <= k < models.len() ==> model_wf(#[trigger] models[k]),
        forall|k: int| 0 <= k < models.len() ==> (#[trigger] models[k]).schema == models[0].schema,
        models.len() > 0 ==> 0 <= j < models[0].schema.len() && 0 <= c < models[0].schema.len(),
    ensures
        total_len(column_slices(models, j)) == total_len(column_slices(models, c)),
        spec_concat(column_slices(models, j)).len() == spec_concat(column_slices(models, c)).len(),
    decreases models.len(),
{
    lemma_spec_concat_len(column_slices(models, j));
    lemma_spec_concat_len(column_slices(models, c));
    if models.len() > 0 {
        assert forall|k: int| 0 <= k < models.drop_first().len() implies (#[trigger] models
            .drop_first()[k]).schema == models.drop_first()[0].schema by {
            assert(models.drop_first()[k] == models[k + 1]);
            if models.drop_first().len() > 0 {
                assert(models.drop_first()[0] == models[1]);
            }
        }
        if models.drop_first().len() > 0 {
            assert(models.drop_first()[0] == models[1]);
            assert(models.drop_first()[0].schema == models[0].schema);
        }
        lemma_concat_columns_equal_len(models.drop_first(), j, c);
        assert(column_slices(models, j).drop_first() =~= column_slices(models.drop_first(), j));
        assert(column_slices(models, c).drop_first() =~= column_slices(models.drop_first(), c));
        lemma_spec_concat_len(column_slices(models.drop_first(), j));
        lemma_spec_concat_len(column_slices(models.drop_first(), c));
    }
}

} // verus!
