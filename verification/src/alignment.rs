//! Aligning the columns of a chunk with those of an existing destination: by
//! name, with exactly equal types, and without nulls where none are allowed.
use crate::destination::write_failed;
use crate::duckdb::{duckdb_schema_mismatch, DuckDbTable};
use crate::failure::{FailureView, LoadFailure};
use crate::parquet::{parquet_schema_mismatch, path_failure, path_message};
use crate::text::same_text;
use vstd::prelude::*;

verus! {

/// `arrow_schema::DataType`, of which only equality is known.
#[verifier::external_type_specification]
#[verifier::external_body]
pub struct ExDataType(arrow_schema::DataType);

/// `DataType`'s `PartialEq` tells whether two column types are the same.
#[verifier::external_body]
fn same_type(a: &arrow_schema::DataType, b: &arrow_schema::DataType) -> (same: bool)
    ensures
        same == (*a == *b),
{
    a == b
}

/// A chunk of records in columns: an `arrow_array::RecordBatch`, known only
/// through `chunk_shape`.
#[verifier::external_body]
pub struct RecordChunk {
    pub batch: arrow_array::RecordBatch,
}

/// A column of a chunk: its name and its type as the chunk declares them, the
/// type of the values themselves, and how many nulls it holds. The two types may
/// differ in the names inside a nested type.
pub struct ColumnShape {
    pub name: Seq<char>,
    pub data_type: arrow_schema::DataType,
    pub held_type: arrow_schema::DataType,
    pub null_count: nat,
}

/// A column of a destination: its name, its type, and whether it takes nulls.
pub struct FieldShape {
    pub name: Seq<char>,
    pub data_type: arrow_schema::DataType,
    pub nullable: bool,
}

/// The columns of a chunk, in order.
pub uninterp spec fn chunk_shape(chunk: RecordChunk) -> Seq<ColumnShape>;

/// The fields of a schema, in order.
pub uninterp spec fn schema_shape(schema: arrow_schema::Schema) -> Seq<FieldShape>;

/// The values of the columns of a chunk, in order, each column as bytes.
pub uninterp spec fn column_values(chunk: RecordChunk) -> Seq<Seq<u8>>;

/// The text of the error that putting columns of a chunk under a schema gives.
pub uninterp spec fn rebuild_error(
    chunk: RecordChunk,
    schema: arrow_schema::Schema,
    order: Seq<usize>,
) -> Seq<char>;

/// A column of a chunk.
#[derive(Debug)]
pub struct ChunkColumn {
    pub name: String,
    pub data_type: arrow_schema::DataType,
    pub held_type: arrow_schema::DataType,
    pub null_count: usize,
}

impl View for ChunkColumn {
    type V = ColumnShape;

    open spec fn view(&self) -> ColumnShape {
        ColumnShape {
            name: self.name@,
            data_type: self.data_type,
            held_type: self.held_type,
            null_count: self.null_count as nat,
        }
    }
}

/// A column of a destination.
#[derive(Debug)]
pub struct DestinationColumn {
    pub name: String,
    pub data_type: arrow_schema::DataType,
    pub nullable: bool,
}

impl View for DestinationColumn {
    type V = FieldShape;

    open spec fn view(&self) -> FieldShape {
        FieldShape { name: self.name@, data_type: self.data_type, nullable: self.nullable }
    }
}

/// The shapes of a list of columns.
pub open spec fn column_shapes(columns: Seq<ChunkColumn>) -> Seq<ColumnShape> {
    columns.map_values(|column: ChunkColumn| column@)
}

/// The shapes of a list of fields.
pub open spec fn field_shapes(columns: Seq<DestinationColumn>) -> Seq<FieldShape> {
    columns.map_values(|column: DestinationColumn| column@)
}

/// The fields of `RecordBatch::schema` with `Array::data_type` and
/// `Array::null_count` of the column at their place.
#[verifier::external_body]
fn chunk_columns(chunk: &RecordChunk) -> (columns: Vec<ChunkColumn>)
    ensures
        column_shapes(columns@) == chunk_shape(*chunk),
{
    let schema = chunk.batch.schema();
    let fields = schema.fields().iter().zip(chunk.batch.columns());
    fields
        .map(|(field, column)| ChunkColumn {
            name: field.name().clone(),
            data_type: field.data_type().clone(),
            held_type: column.data_type().clone(),
            null_count: column.null_count(),
        })
        .collect()
}

/// The fields of a `Schema`: `Field::name`, `Field::data_type` and
/// `Field::is_nullable`.
#[verifier::external_body]
fn schema_columns(schema: &arrow_schema::SchemaRef) -> (columns: Vec<DestinationColumn>)
    ensures
        field_shapes(columns@) == schema_shape(**schema),
{
    let fields = schema.fields().iter();
    fields
        .map(|field| DestinationColumn {
            name: field.name().clone(),
            data_type: field.data_type().clone(),
            nullable: field.is_nullable(),
        })
        .collect()
}

/// `RecordBatch::try_new` over the columns of a chunk at these places. It
/// succeeds where there is a column for each field, at least one, and each has
/// the field's type and no nulls that the field does not take. The columns are
/// then declared as the schema has it, and hold what they held.
#[verifier::external_body]
fn rebuilt_chunk(
    chunk: &RecordChunk,
    schema: &arrow_schema::SchemaRef,
    order: &Vec<usize>,
) -> (rebuilt: Result<RecordChunk, String>)
    requires
        forall|i: int| 0 <= i < order@.len() ==> #[trigger] order@[i] < chunk_shape(*chunk).len(),
    ensures
        match rebuilt {
            Ok(new) => rebuilds(chunk_shape(*chunk), schema_shape(**schema), order@)
                && chunk_shape(new) == rebuilt_columns(
                chunk_shape(*chunk),
                schema_shape(**schema),
                order@,
            ) && column_values(new) == Seq::new(
                order@.len(),
                |i: int| column_values(*chunk)[order@[i] as int],
            ),
            Err(message) => !rebuilds(chunk_shape(*chunk), schema_shape(**schema), order@)
                && message@ == rebuild_error(*chunk, **schema, order@),
        },
{
    let columns = order.iter().map(|at| chunk.batch.column(*at).clone()).collect();
    arrow_array::RecordBatch::try_new(schema.clone(), columns)
        .map(|batch| RecordChunk { batch })
        .map_err(|error| error.to_string())
}

/// Whether the columns at these places can be put under fields.
pub open spec fn rebuilds(
    columns: Seq<ColumnShape>,
    fields: Seq<FieldShape>,
    order: Seq<usize>,
) -> bool {
    &&& 0 < order.len() == fields.len()
    &&& forall|i: int|
        0 <= i < order.len() ==> {
            let column = columns[#[trigger] order[i] as int];
            column.held_type == fields[i].data_type && (fields[i].nullable || column.null_count
                == 0)
        }
}

/// The columns at these places under fields: the names and the types are those
/// of the fields, and the nulls stay.
pub open spec fn rebuilt_columns(
    columns: Seq<ColumnShape>,
    fields: Seq<FieldShape>,
    order: Seq<usize>,
) -> Seq<ColumnShape> {
    Seq::new(
        order.len(),
        |i: int|
            ColumnShape {
                name: fields[i].name,
                data_type: fields[i].data_type,
                held_type: columns[order[i] as int].held_type,
                null_count: columns[order[i] as int].null_count,
            },
    )
}

/// The position of the first column with a name, or their number.
pub open spec fn column_index(columns: Seq<ColumnShape>, name: Seq<char>) -> nat
    decreases columns.len(),
{
    if columns.len() == 0 {
        0
    } else if columns[0].name == name {
        0
    } else {
        1 + column_index(columns.drop_first(), name)
    }
}

/// Whether a chunk column can go into a destination column.
pub open spec fn column_fits(column: ColumnShape, field: FieldShape) -> bool {
    column.data_type == field.data_type && (field.nullable || column.null_count == 0)
}

/// Whether a chunk can be written to the destination: as many columns, and for
/// each of the destination's one of its name that fits.
pub open spec fn aligns(columns: Seq<ColumnShape>, fields: Seq<FieldShape>) -> bool {
    &&& columns.len() == fields.len()
    &&& forall|i: int|
        0 <= i < fields.len() ==> {
            let at = column_index(columns, (#[trigger] fields[i]).name);
            at < columns.len() && column_fits(columns[at as int], fields[i])
        }
}

/// The places of the chunk's columns in the destination's order.
pub open spec fn alignment_order(columns: Seq<ColumnShape>, fields: Seq<FieldShape>) -> Seq<usize> {
    fields.map_values(|field: FieldShape| column_index(columns, field.name) as usize)
}

fn find_column(columns: &Vec<ChunkColumn>, name: &str) -> (at: usize)
    ensures
        at == column_index(column_shapes(columns@), name@),
        at <= columns@.len(),
{
    let ghost shapes = column_shapes(columns@);
    let mut at: usize = 0;
    proof {
        assert(shapes.skip(0) =~= shapes);
    }
    while at < columns.len()
        invariant
            at <= columns.len(),
            shapes == column_shapes(columns@),
            column_index(shapes, name@) == at + column_index(shapes.skip(at as int), name@),
        decreases columns.len() - at,
    {
        proof {
            assert(shapes.skip(at as int)[0].name == columns@[at as int].name@);
        }
        if same_text(columns[at].name.as_str(), name) {
            return at;
        }
        proof {
            assert(shapes.skip(at as int).drop_first() =~= shapes.skip(at as int + 1));
        }
        at = at + 1;
    }
    at
}

/// The places of the chunk's columns in the destination's order, where the
/// chunk aligns.
pub fn align_columns(columns: &Vec<ChunkColumn>, destination: &Vec<DestinationColumn>) -> (order:
    Option<Vec<usize>>)
    ensures
        ({
            let shapes = column_shapes(columns@);
            let fields = field_shapes(destination@);
            match order {
                Some(order) => {
                    &&& aligns(shapes, fields)
                    &&& order@ == alignment_order(shapes, fields)
                    &&& forall|i: int|
                        0 <= i < order@.len() ==> #[trigger] order@[i] < columns@.len()
                },
                None => !aligns(shapes, fields),
            }
        }),
{
    let ghost shapes = column_shapes(columns@);
    let ghost fields = field_shapes(destination@);
    if columns.len() != destination.len() {
        assert(shapes.len() != fields.len());
        return None;
    }
    let mut order: Vec<usize> = Vec::new();
    let mut i: usize = 0;
    while i < destination.len()
        invariant
            i <= destination.len(),
            columns.len() == destination.len(),
            shapes == column_shapes(columns@),
            fields == field_shapes(destination@),
            order.len() == i,
            forall|j: int|
                0 <= j < i ==> {
                    let at = column_index(shapes, (#[trigger] fields[j]).name);
                    at < shapes.len() && column_fits(shapes[at as int], fields[j])
                },
            forall|j: int|
                0 <= j < i ==> #[trigger] order@[j] == column_index(shapes, fields[j].name),
            forall|j: int| 0 <= j < i ==> #[trigger] order@[j] < columns@.len(),
        decreases destination.len() - i,
    {
        let ghost field = fields[i as int];
        proof {
            assert(field == destination@[i as int]@);
        }
        let at: usize = find_column(columns, destination[i].name.as_str());
        if at >= columns.len() {
            proof {
                assert(!aligns(shapes, fields)) by {
                    assert(column_index(shapes, fields[i as int].name) >= shapes.len());
                }
            }
            return None;
        }
        let column = &columns[at];
        proof {
            assert(shapes[at as int] == columns@[at as int]@);
        }
        if !same_type(&column.data_type, &destination[i].data_type) || (!destination[i].nullable
            && column.null_count > 0) {
            proof {
                assert(!aligns(shapes, fields)) by {
                    assert(column_index(shapes, fields[i as int].name) == at);
                    assert(!column_fits(shapes[at as int], fields[i as int]));
                }
            }
            return None;
        }
        order.push(at);
        i = i + 1;
    }
    proof {
        assert(order@ =~= alignment_order(shapes, fields));
    }
    Some(order)
}

/// What aligning a chunk with a schema comes to: columns that do not match fail
/// with `mismatch`, and a chunk that cannot be rebuilt with `unaligned` around
/// the reason. Every other chunk comes back with its columns in the order of the
/// schema.
pub open spec fn alignment_outcome(
    chunk: RecordChunk,
    schema: arrow_schema::Schema,
    mismatch: FailureView,
    unaligned: spec_fn(Seq<char>) -> FailureView,
    aligned: Result<RecordChunk, LoadFailure>,
) -> bool {
    let columns = chunk_shape(chunk);
    let fields = schema_shape(schema);
    if !aligns(columns, fields) {
        aligned matches Err(failure) && failure@ == mismatch
    } else {
        let order = alignment_order(columns, fields);
        if rebuilds(columns, fields, order) {
            &&& aligned matches Ok(new)
            &&& chunk_shape(new) == rebuilt_columns(columns, fields, order)
            &&& column_values(new) == Seq::new(
                order.len(),
                |i: int| column_values(chunk)[order[i] as int],
            )
        } else {
            aligned matches Err(failure) && failure@ == unaligned(
                rebuild_error(chunk, schema, order),
            )
        }
    }
}

/// The failure of putting a chunk under the schema of a Parquet dataset.
pub fn parquet_align_failure(destination_path: &str, error: &str) -> (failure: LoadFailure)
    ensures
        failure@ == parquet_unaligned(destination_path@, error@),
{
    path_failure("align append records with Parquet destination", destination_path, error)
}

/// The failure of putting a chunk under the schema of a Parquet dataset.
pub open spec fn parquet_unaligned(destination_path: Seq<char>, error: Seq<char>) -> FailureView {
    write_failed(
        path_message("align append records with Parquet destination"@, destination_path, error),
    )
}

/// Puts a chunk under the schema of a Parquet dataset.
pub fn align_batch_to_destination_schema(
    destination_path: &str,
    chunk: &RecordChunk,
    destination_schema: &arrow_schema::SchemaRef,
) -> (aligned: Result<RecordChunk, LoadFailure>)
    ensures
        alignment_outcome(
            *chunk,
            **destination_schema,
            write_failed("append schema does not match Parquet destination "@ + destination_path@),
            |error: Seq<char>| parquet_unaligned(destination_path@, error),
            aligned,
        ),
{
    let columns = chunk_columns(chunk);
    let destination = schema_columns(destination_schema);
    assert(column_shapes(columns@).len() == columns@.len());
    match align_columns(&columns, &destination) {
        None => Err(parquet_schema_mismatch(destination_path)),
        Some(order) => match rebuilt_chunk(chunk, destination_schema, &order) {
            Ok(aligned) => Ok(aligned),
            Err(error) => Err(parquet_align_failure(destination_path, error.as_str())),
        },
    }
}

/// Puts a chunk under the schema of a DuckDB table, for an operation.
pub fn align_batch_to_duckdb_schema(
    table: &DuckDbTable,
    chunk: &RecordChunk,
    destination_schema: &arrow_schema::SchemaRef,
    operation: &str,
) -> (aligned: Result<RecordChunk, LoadFailure>)
    ensures
        alignment_outcome(
            *chunk,
            **destination_schema,
            write_failed(
                operation@ + " schema does not match DuckDB destination "@ + table.place(),
            ),
            |error: Seq<char>|
                write_failed(
                    "failed to align "@ + operation@ + " records with DuckDB destination "@
                        + table.place() + ": "@ + error,
                ),
            aligned,
        ),
{
    let columns = chunk_columns(chunk);
    let destination = schema_columns(destination_schema);
    assert(column_shapes(columns@).len() == columns@.len());
    match align_columns(&columns, &destination) {
        None => Err(duckdb_schema_mismatch(table, operation)),
        Some(order) => match rebuilt_chunk(chunk, destination_schema, &order) {
            Ok(aligned) => Ok(aligned),
            Err(error) => Err(table.align_failure(operation, error.as_str())),
        },
    }
}

proof fn lemma_column_index_finds(columns: Seq<ColumnShape>, name: Seq<char>)
    ensures
        column_index(columns, name) < columns.len() ==> columns[column_index(
            columns,
            name,
        ) as int].name == name,
    decreases columns.len(),
{
    if columns.len() > 0 && columns[0].name != name {
        lemma_column_index_finds(columns.drop_first(), name);
    }
}

/// An aligned chunk lacks no column of the destination, and where two of the
/// destination's names differ, they take two different columns of the chunk.
pub proof fn law_aligned_columns_are_matched_by_name(
    columns: Seq<ColumnShape>,
    fields: Seq<FieldShape>,
    i: int,
    j: int,
)
    requires
        aligns(columns, fields),
        0 <= i < fields.len(),
        0 <= j < fields.len(),
    ensures
        columns[column_index(columns, fields[i].name) as int].name == fields[i].name,
        fields[i].name != fields[j].name ==> column_index(columns, fields[i].name) != column_index(
            columns,
            fields[j].name,
        ),
{
    lemma_column_index_finds(columns, fields[i].name);
    lemma_column_index_finds(columns, fields[j].name);
}

/// A chunk whose columns hold values of the types that it declares is never
/// refused once its columns match, unless it has none; and each of its columns
/// comes back under its own name and with its nulls.
pub proof fn law_matching_columns_are_rebuilt(columns: Seq<ColumnShape>, fields: Seq<FieldShape>)
    requires
        aligns(columns, fields),
        0 < columns.len() <= usize::MAX,
        forall|i: int|
            0 <= i < columns.len() ==> (#[trigger] columns[i]).held_type == columns[i].data_type,
    ensures
        rebuilds(columns, fields, alignment_order(columns, fields)),
        forall|i: int|
            0 <= i < fields.len() ==> (#[trigger] rebuilt_columns(
                columns,
                fields,
                alignment_order(columns, fields),
            )[i]) == columns[column_index(columns, fields[i].name) as int],
{
    let order = alignment_order(columns, fields);
    assert forall|i: int| 0 <= i < order.len() implies ({
        let column = columns[#[trigger] order[i] as int];
        column.held_type == fields[i].data_type && (fields[i].nullable || column.null_count == 0)
    }) by {
        let at = column_index(columns, fields[i].name);
        assert(at < columns.len() && column_fits(columns[at as int], fields[i]));
        assert(order[i] == at);
    }
    assert forall|i: int| 0 <= i < fields.len() implies (#[trigger] rebuilt_columns(
        columns,
        fields,
        order,
    )[i]) == columns[column_index(columns, fields[i].name) as int] by {
        let at = column_index(columns, fields[i].name);
        lemma_column_index_finds(columns, fields[i].name);
        assert(at < columns.len() && column_fits(columns[at as int], fields[i]));
        assert(order[i] == at);
    }
}

/// A chunk fits a destination exactly where both have as many columns and each of the
/// destination's finds one of its name in the chunk, the first of that name, with
/// exactly its type and no nulls it does not take. The order then says where each of
/// the destination's columns is in the chunk.
pub proof fn law_columns_are_aligned_by_name(
    columns: Vec<ChunkColumn>,
    destination: Vec<DestinationColumn>,
    order: Option<Vec<usize>>,
)
    requires
        call_ensures(align_columns, (&columns, &destination), order),
    ensures
        order matches Some(places) ==> {
            &&& columns@.len() == destination@.len()
            &&& places@.len() == destination@.len()
            &&& forall|i: int|
                #![trigger places@[i]]
                0 <= i < places@.len() ==> {
                    let at = places@[i] as int;
                    &&& at < columns@.len()
                    &&& columns@[at].name@ == destination@[i].name@
                    &&& columns@[at].data_type == destination@[i].data_type
                    &&& destination@[i].nullable || columns@[at].null_count == 0
                    &&& forall|k: int|
                        0 <= k < at ==> (#[trigger] columns@[k]).name@ != destination@[i].name@
                }
        },
        order is None ==> columns@.len() != destination@.len() || exists|i: int|
            #![trigger destination@[i]]
            0 <= i < destination@.len() && forall|at: int|
                0 <= at < columns@.len() && (#[trigger] columns@[at]).name@ == destination@[i].name@
                    && (forall|k: int|
                    0 <= k < at ==> (#[trigger] columns@[k]).name@ != destination@[i].name@)
                    ==> columns@[at].data_type != destination@[i].data_type || (
                !destination@[i].nullable && columns@[at].null_count > 0),
{
    let shapes = column_shapes(columns@);
    let fields = field_shapes(destination@);
    assert(shapes.len() == columns@.len() && fields.len() == destination@.len());
    assert(columns.len() == columns@.len());
    match order {
        Some(places) => {
            assert forall|i: int| #![trigger places@[i]] 0 <= i < places@.len() implies ({
                let at = places@[i] as int;
                &&& at < columns@.len()
                &&& columns@[at].name@ == destination@[i].name@
                &&& columns@[at].data_type == destination@[i].data_type
                &&& destination@[i].nullable || columns@[at].null_count == 0
                &&& forall|k: int|
                    0 <= k < at ==> (#[trigger] columns@[k]).name@ != destination@[i].name@
            }) by {
                let name = fields[i].name;
                let at = column_index(shapes, name);
                assert(at < shapes.len() && column_fits(shapes[at as int], fields[i]));
                assert(places@[i] == at);
                lemma_column_index_is_first(shapes, name);
                assert(shapes[at as int] == columns@[at as int]@);
                assert(fields[i] == destination@[i]@);
                assert forall|k: int| 0 <= k < at implies (#[trigger] columns@[k]).name@
                    != destination@[i].name@ by {
                    assert(shapes[k] == columns@[k]@);
                    assert(shapes[k].name != name);
                }
            }
        },
        None => {
            if columns@.len() == destination@.len() {
                let i = choose|i: int|
                    0 <= i < fields.len() && !({
                        let at = column_index(shapes, (#[trigger] fields[i]).name);
                        at < shapes.len() && column_fits(shapes[at as int], fields[i])
                    });
                assert(fields[i] == destination@[i]@);
                let name = fields[i].name;
                lemma_column_index_is_first(shapes, name);
                assert forall|at: int|
                    0 <= at < columns@.len() && (#[trigger] columns@[at]).name@
                        == destination@[i].name@ && (forall|k: int|
                        0 <= k < at ==> (#[trigger] columns@[k]).name@ != destination@[i].name@)
                        implies columns@[at].data_type != destination@[i].data_type || (
                !destination@[i].nullable && columns@[at].null_count > 0) by {
                    assert(shapes[at] == columns@[at]@);
                    let first = column_index(shapes, name) as int;
                    if first < at {
                        assert(shapes[first] == columns@[first]@);
                        assert(shapes[first].name == name);
                    }
                    assert(first == at);
                }
            }
        },
    }
}

proof fn lemma_column_index_is_first(columns: Seq<ColumnShape>, name: Seq<char>)
    ensures
        column_index(columns, name) <= columns.len(),
        column_index(columns, name) < columns.len() ==> columns[column_index(
            columns,
            name,
        ) as int].name == name,
        forall|k: int|
            0 <= k < column_index(columns, name) ==> (#[trigger] columns[k]).name != name,
    decreases columns.len(),
{
    if columns.len() > 0 && columns[0].name != name {
        let rest = columns.drop_first();
        lemma_column_index_is_first(rest, name);
        assert forall|k: int| 0 <= k < column_index(columns, name) implies (
        #[trigger] columns[k]).name != name by {
            if k > 0 {
                assert(rest[k - 1] == columns[k]);
            }
        }
    }
}

/// What aligning with a schema gives back is the chunk in the schema's order: each
/// column is the chunk's first one of the name that the schema has at its place, with
/// all of its values and nulls.
pub proof fn law_aligned_chunk_keeps_its_values(
    destination_path: &str,
    chunk: RecordChunk,
    schema: arrow_schema::Schema,
    shared: arrow_schema::SchemaRef,
    new: RecordChunk,
    i: int,
)
    requires
        schema == *shared,
        chunk_shape(chunk).len() <= usize::MAX,
        call_ensures(
            align_batch_to_destination_schema,
            (destination_path, &chunk, &shared),
            Ok::<RecordChunk, LoadFailure>(new),
        ),
        0 <= i < schema_shape(schema).len(),
    ensures
        ({
            let columns = chunk_shape(chunk);
            let field = schema_shape(schema)[i];
            &&& columns.len() == schema_shape(schema).len()
            &&& chunk_shape(new).len() == columns.len()
            &&& column_values(new).len() == columns.len()
            &&& chunk_shape(new)[i].name == field.name
            &&& chunk_shape(new)[i].data_type == field.data_type
            &&& exists|at: int|
                {
                    &&& 0 <= at < columns.len()
                    &&& (#[trigger] columns[at]).name == field.name
                    &&& columns[at].data_type == field.data_type
                    &&& chunk_shape(new)[i].null_count == columns[at].null_count
                    &&& field.nullable || columns[at].null_count == 0
                    &&& column_values(new)[i] == column_values(chunk)[at]
                    &&& forall|k: int| 0 <= k < at ==> (#[trigger] columns[k]).name != field.name
                }
        }),
{
    let columns = chunk_shape(chunk);
    let fields = schema_shape(schema);
    let order = alignment_order(columns, fields);
    let at = column_index(columns, fields[i].name);
    lemma_column_index_is_first(columns, fields[i].name);
    assert(at < columns.len() && column_fits(columns[at as int], fields[i]));
    assert(order[i] == at);
    assert(columns[at as int].name == fields[i].name);
}

/// Aligning for a Parquet dataset and for a DuckDB table succeed and fail on the same
/// chunks. Columns that do not match are told as a schema mismatch of the
/// destination, and a chunk that cannot be rebuilt with the reason.
pub proof fn law_both_destinations_align_alike(
    destination_path: &str,
    table: DuckDbTable,
    operation: &str,
    chunk: RecordChunk,
    schema: arrow_schema::SchemaRef,
    for_parquet: Result<RecordChunk, LoadFailure>,
    for_duckdb: Result<RecordChunk, LoadFailure>,
)
    requires
        call_ensures(
            align_batch_to_destination_schema,
            (destination_path, &chunk, &schema),
            for_parquet,
        ),
        call_ensures(
            align_batch_to_duckdb_schema,
            (&table, &chunk, &schema, operation),
            for_duckdb,
        ),
    ensures
        for_parquet is Ok <==> for_duckdb is Ok,
        for_parquet matches Ok(a) ==> chunk_shape(a) == chunk_shape(for_duckdb->Ok_0)
            && column_values(a) == column_values(for_duckdb->Ok_0),
        for_parquet matches Err(failure) ==> failure.code@ == "destination_write_failed"@,
        for_duckdb matches Err(failure) ==> failure.code@ == "destination_write_failed"@,
        !aligns(chunk_shape(chunk), schema_shape(*schema)) ==> {
            &&& for_parquet is Err && for_parquet->Err_0.message@
                == "append schema does not match Parquet destination "@ + destination_path@
            &&& for_duckdb is Err && for_duckdb->Err_0.message@ == operation@
                + " schema does not match DuckDB destination "@ + (table.dataset@ + " in "@
                + table.path@)
        },
        aligns(chunk_shape(chunk), schema_shape(*schema)) && for_parquet is Err ==> {
            let reason = rebuild_error(
                chunk,
                *schema,
                alignment_order(chunk_shape(chunk), schema_shape(*schema)),
            );
            &&& for_parquet->Err_0.message@ == "failed to "@
                + "align append records with Parquet destination"@ + " "@ + destination_path@
                + ": "@ + reason
            &&& for_duckdb->Err_0.message@ == "failed to align "@ + operation@
                + " records with DuckDB destination "@ + (table.dataset@ + " in "@ + table.path@)
                + ": "@ + reason
        },
        aligns(chunk_shape(chunk), schema_shape(*schema)) ==> (for_parquet is Ok <==> rebuilds(
            chunk_shape(chunk),
            schema_shape(*schema),
            alignment_order(chunk_shape(chunk), schema_shape(*schema)),
        )),
        for_parquet is Ok ==> alignment_outcome(
            chunk,
            *schema,
            write_failed(
                "append schema does not match Parquet destination "@ + destination_path@,
            ),
            |error: Seq<char>| parquet_unaligned(destination_path@, error),
            for_parquet,
        ),
{
    if let Err(failure) = for_parquet {
        assert(failure@.code == failure.code@ && failure@.message == failure.message@);
    }
    if let Err(failure) = for_duckdb {
        assert(failure@.code == failure.code@ && failure@.message == failure.message@);
    }
}

/// A chunk that cannot be put under the schema of a dataset is told with the path of
/// the dataset and the reason.
pub proof fn law_unaligned_chunk_is_told(destination_path: &str, error: &str, failure: LoadFailure)
    requires
        call_ensures(parquet_align_failure, (destination_path, error), failure),
    ensures
        failure.code@ == "destination_write_failed"@,
        failure.message@ == "failed to "@ + "align append records with Parquet destination"@ + " "@
            + destination_path@ + ": "@ + error@,
{
    assert(failure@.code == failure.code@ && failure@.message == failure.message@);
}

} // verus!
