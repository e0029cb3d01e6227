//! How large the messages of a stream get.
use arrow::array::ArrayData;
use arrow::datatypes::{DataType, Schema};
use vstd::prelude::*;

use crate::schema::schema_contents;
use crate::types::{
    inner_entries, inner_types, row_shape, row_type, text_length, type_shape, type_shapes,
    TypeShape,
};

verus! {

/// The room for what a message says of its parts: two gigabytes, which the writer cannot go
/// beyond, without what the frame of a message takes.
pub const MESSAGE_ROOM: u64 = 2_147_482_624;

/// The most that a field takes in the message of a schema, its texts and metadata aside.
pub const FIELD_SIZE: u64 = 256;

/// The most that a metadata entry takes in the message of a schema, its texts aside.
pub const ENTRY_SIZE: u64 = 64;

/// The most that an array takes in the message of a batch, its buffers aside.
pub const ARRAY_SIZE: u64 = 64;

/// What a buffer takes in the message of a batch.
pub const BUFFER_SIZE: u64 = 16;

/// What metadata entries take, by their numbers.
pub open spec fn entries_size(entries: Seq<nat>) -> nat
    decreases entries.len(),
{
    if entries.len() == 0 {
        0
    } else {
        entries_size(entries.drop_last()) + ENTRY_SIZE as nat * entries.last()
    }
}

/// What a field of a type takes in the message of a schema, texts aside.
pub open spec fn type_size(t: TypeShape) -> nat
    decreases t, t.inner.len() + 1,
{
    FIELD_SIZE as nat + entries_size(t.entries) + inner_size(t, t.inner.len())
}

/// What fields of the first `n` types inside a type take in the message of a schema.
pub open spec fn inner_size(t: TypeShape, n: nat) -> nat
    decreases t, n,
{
    if n == 0 || n > t.inner.len() {
        0
    } else {
        inner_size(t, (n - 1) as nat) + type_size(t.inner[n - 1])
    }
}

/// The length of the text of the metadata of a schema, and the number of its entries, by what
/// `==` on schemas compares.
pub uninterp spec fn metadata_size(contents: Seq<Seq<char>>) -> (nat, nat);

/// `Schema::metadata`: the length of what its `Debug` shows, in bytes, which holds all keys
/// and values, and the number of entries.
#[verifier::external_body]
fn measure_metadata(schema: &Schema) -> (size: (usize, usize))
    ensures
        metadata_size(schema_contents(*schema)) == (size.0 as nat, size.1 as nat),
{
    (format!("{:?}", schema.metadata()).len(), schema.metadata().len())
}

/// What a schema takes in its message, at the most.
pub open spec fn schema_size(contents: Seq<Seq<char>>) -> nat {
    let row = row_shape(contents);
    let (length, entries) = metadata_size(contents);
    row.length + type_size(row) + length + ENTRY_SIZE as nat * entries
}

/// The message of the schema has room for it.
pub open spec fn schema_fits(schema: Schema) -> bool {
    schema_size(schema_contents(schema)) <= MESSAGE_ROOM
}

/// What is left of `room` without `count` parts that take `each`; nothing where there is no
/// room for them.
fn without(room: u64, count: usize, each: u64) -> (left: Option<u64>)
    requires
        0 < each <= FIELD_SIZE,
    ensures
        match left {
            Some(left) => left + each * count == room,
            None => each * count > room,
        },
{
    let most: u64 = room / each;
    let count: u64 = count as u64;
    if count > most {
        assert(each * count > room) by (nonlinear_arith)
            requires
                each > 0,
                most == room / each,
                count > most,
        ;
        None
    } else {
        assert(each * count <= room) by (nonlinear_arith)
            requires
                each > 0,
                most == room / each,
                count <= most,
        ;
        Some(room - each * count)
    }
}

/// No part of a list of numbers of entries takes more than all of them.
proof fn lemma_entries_grow(entries: Seq<nat>, n: int)
    requires
        0 <= n <= entries.len(),
    ensures
        entries_size(entries.take(n)) <= entries_size(entries),
    decreases entries.len() - n,
{
    if n < entries.len() {
        lemma_entries_grow(entries, n + 1);
        assert(entries.take(n + 1).drop_last() =~= entries.take(n));
    } else {
        assert(entries.take(n) =~= entries);
    }
}

/// No number of types inside a type takes more than all of them.
proof fn lemma_inner_grows(t: TypeShape, n: nat)
    requires
        n <= t.inner.len(),
    ensures
        inner_size(t, n) <= inner_size(t, t.inner.len()),
    decreases t.inner.len() - n,
{
    if n < t.inner.len() {
        lemma_inner_grows(t, n + 1);
    }
}

/// What is left of `room` without metadata entries.
fn room_without_entries(room: u64, entries: &Vec<usize>) -> (left: Option<u64>)
    ensures
        match left {
            Some(left) => left + entries_size(entries@.map_values(|n: usize| n as nat)) == room,
            None => entries_size(entries@.map_values(|n: usize| n as nat)) > room,
        },
{
    let ghost numbers = entries@.map_values(|n: usize| n as nat);
    let mut left: u64 = room;
    let mut i: usize = 0;
    assert(numbers.take(0) =~= Seq::empty());
    while i < entries.len()
        invariant
            i <= entries@.len(),
            numbers == entries@.map_values(|n: usize| n as nat),
            left + entries_size(numbers.take(i as int)) == room,
        decreases entries@.len() - i,
    {
        proof {
            assert(numbers.take(i + 1).drop_last() =~= numbers.take(i as int));
            lemma_entries_grow(numbers, i + 1);
        }
        match without(left, entries[i], ENTRY_SIZE) {
            Some(rest) => {
                left = rest;
            },
            None => {
                return None;
            },
        }
        i = i + 1;
    }
    assert(numbers.take(i as int) =~= numbers);
    Some(left)
}

/// What is left of `room` without a field of a type.
fn room_without_type(room: u64, t: &DataType) -> (left: Option<u64>)
    ensures
        match left {
            Some(left) => left + type_size(type_shape(*t)) == room,
            None => type_size(type_shape(*t)) > room,
        },
    decreases type_shape(*t),
{
    let ghost shape = type_shape(*t);
    if room < FIELD_SIZE {
        return None;
    }
    let mut left: u64 = match room_without_entries(room - FIELD_SIZE, &inner_entries(t)) {
        Some(left) => left,
        None => {
            return None;
        },
    };
    let inner = inner_types(t);
    let mut i: usize = 0;
    while i < inner.len()
        invariant
            i <= inner@.len(),
            shape == type_shape(*t),
            type_shapes(inner@) == shape.inner,
            left + inner_size(shape, i as nat) + entries_size(shape.entries) + FIELD_SIZE == room,
        decreases inner@.len() - i,
    {
        proof {
            assert(inner@.len() == shape.inner.len());
            assert(type_shapes(inner@)[i as int] == type_shape(inner@[i as int]));
            assert(decreases_to!(shape => shape.inner[i as int]));
            lemma_inner_grows(shape, (i + 1) as nat);
        }
        match room_without_type(left, &inner[i]) {
            Some(rest) => {
                left = rest;
            },
            None => {
                return None;
            },
        }
        i = i + 1;
    }
    assert(inner@.len() == shape.inner.len());
    Some(left)
}

/// Whether the message of the schema has room for it.
pub fn check_schema_fits(schema: &Schema) -> (fits: bool)
    ensures
        fits == schema_fits(*schema),
{
    let row = row_type(schema);
    let (length, entries) = measure_metadata(schema);
    match without(MESSAGE_ROOM, text_length(&row), 1) {
        Some(left) => match without(left, length, 1) {
            Some(left) => match without(left, entries, ENTRY_SIZE) {
                Some(left) => room_without_type(left, &row).is_some(),
                None => false,
            },
            None => false,
        },
        None => false,
    }
}

/// The data of an array of the columnar format.
#[verifier::external_type_specification]
#[verifier::external_body]
pub struct ExArrayData(ArrayData);

/// An array with the arrays inside it.
pub struct Layout {
    /// The number of buffers, that of nulls aside.
    pub buffers: nat,
    /// The arrays inside: of the fields of a struct, of the items of a list or a map, of the
    /// values of a dictionary, of the ends and of the values of runs.
    pub inner: Seq<Layout>,
}

/// An array with the arrays inside it.
pub uninterp spec fn data_layout(data: ArrayData) -> Layout;

/// The arrays in a list.
pub open spec fn data_layouts(arrays: Seq<ArrayData>) -> Seq<Layout> {
    arrays.map_values(|data: ArrayData| data_layout(data))
}

/// `ArrayData::buffers`: the number of buffers.
#[verifier::external_body]
fn buffer_count(data: &ArrayData) -> (n: usize)
    ensures
        n == data_layout(*data).buffers,
{
    data.buffers().len()
}

/// `ArrayData::child_data`: the arrays inside, in their order.
#[verifier::external_body]
fn inner_arrays(data: &ArrayData) -> (arrays: Vec<ArrayData>)
    ensures
        data_layouts(arrays@) == data_layout(*data).inner,
{
    data.child_data().to_vec()
}

/// What an array takes in the message of a batch, at the most.
pub open spec fn layout_size(layout: Layout) -> nat
    decreases layout, layout.inner.len() + 1,
{
    ARRAY_SIZE as nat + BUFFER_SIZE as nat * layout.buffers + inner_layout_size(
        layout,
        layout.inner.len(),
    )
}

/// What the first `n` arrays inside an array take in the message of a batch.
pub open spec fn inner_layout_size(layout: Layout, n: nat) -> nat
    decreases layout, n,
{
    if n == 0 || n > layout.inner.len() {
        0
    } else {
        inner_layout_size(layout, (n - 1) as nat) + layout_size(layout.inner[n - 1])
    }
}

/// What arrays take in the message of a batch, at the most.
pub open spec fn layouts_size(layouts: Seq<Layout>) -> nat
    decreases layouts.len(),
{
    if layouts.len() == 0 {
        0
    } else {
        layouts_size(layouts.drop_last()) + layout_size(layouts.last())
    }
}

/// The message of a batch with these arrays as its columns has room for them.
pub open spec fn layouts_fit(layouts: Seq<Layout>) -> bool {
    layouts_size(layouts) <= MESSAGE_ROOM
}

/// No number of arrays inside an array takes more than all of them.
proof fn lemma_inner_layouts_grow(layout: Layout, n: nat)
    requires
        n <= layout.inner.len(),
    ensures
        inner_layout_size(layout, n) <= inner_layout_size(layout, layout.inner.len()),
    decreases layout.inner.len() - n,
{
    if n < layout.inner.len() {
        lemma_inner_layouts_grow(layout, n + 1);
    }
}

/// No part of a list of arrays takes more than all of them.
proof fn lemma_layouts_grow(layouts: Seq<Layout>, n: int)
    requires
        0 <= n <= layouts.len(),
    ensures
        layouts_size(layouts.take(n)) <= layouts_size(layouts),
    decreases layouts.len() - n,
{
    if n < layouts.len() {
        lemma_layouts_grow(layouts, n + 1);
        assert(layouts.take(n + 1).drop_last() =~= layouts.take(n));
    } else {
        assert(layouts.take(n) =~= layouts);
    }
}

/// What is left of `room` without an array.
fn room_without_array(room: u64, data: &ArrayData) -> (left: Option<u64>)
    ensures
        match left {
            Some(left) => left + layout_size(data_layout(*data)) == room,
            None => layout_size(data_layout(*data)) > room,
        },
    decreases data_layout(*data),
{
    let ghost layout = data_layout(*data);
    if room < ARRAY_SIZE {
        return None;
    }
    let mut left: u64 = match without(room - ARRAY_SIZE, buffer_count(data), BUFFER_SIZE) {
        Some(left) => left,
        None => {
            return None;
        },
    };
    let inner = inner_arrays(data);
    let mut i: usize = 0;
    while i < inner.len()
        invariant
            i <= inner@.len(),
            layout == data_layout(*data),
            data_layouts(inner@) == layout.inner,
            left + inner_layout_size(layout, i as nat) + BUFFER_SIZE as nat * layout.buffers
                + ARRAY_SIZE == room,
        decreases inner@.len() - i,
    {
        proof {
            assert(inner@.len() == layout.inner.len());
            assert(data_layouts(inner@)[i as int] == data_layout(inner@[i as int]));
            assert(decreases_to!(layout => layout.inner[i as int]));
            lemma_inner_layouts_grow(layout, (i + 1) as nat);
        }
        match room_without_array(left, &inner[i]) {
            Some(rest) => {
                left = rest;
            },
            None => {
                return None;
            },
        }
        i = i + 1;
    }
    assert(inner@.len() == layout.inner.len());
    Some(left)
}

/// Whether the message of a batch with these arrays as its columns has room for them.
pub fn check_arrays_fit(arrays: &Vec<ArrayData>) -> (fit: bool)
    ensures
        fit == layouts_fit(data_layouts(arrays@)),
{
    let ghost layouts = data_layouts(arrays@);
    let mut left: u64 = MESSAGE_ROOM;
    let mut i: usize = 0;
    assert(layouts.take(0) =~= Seq::empty());
    while i < arrays.len()
        invariant
            i <= arrays@.len(),
            layouts == data_layouts(arrays@),
            left + layouts_size(layouts.take(i as int)) == MESSAGE_ROOM,
        decreases arrays@.len() - i,
    {
        proof {
            assert(layouts[i as int] == data_layout(arrays@[i as int]));
            assert(layouts.take(i + 1).drop_last() =~= layouts.take(i as int));
            lemma_layouts_grow(layouts, i + 1);
        }
        match room_without_array(left, &arrays[i]) {
            Some(rest) => {
                left = rest;
            },
            None => {
                return false;
            },
        }
        i = i + 1;
    }
    assert(layouts.take(i as int) =~= layouts);
    true
}

/// The number of types in a type, itself included.
pub open spec fn type_count(t: TypeShape) -> nat
    decreases t, t.inner.len() + 1,
{
    1 + inner_type_count(t, t.inner.len())
}

/// The number of types in the first `n` types inside a type.
pub open spec fn inner_type_count(t: TypeShape, n: nat) -> nat
    decreases t, n,
{
    if n == 0 || n > t.inner.len() {
        0
    } else {
        inner_type_count(t, (n - 1) as nat) + type_count(t.inner[n - 1])
    }
}

/// The number of metadata entries in a list of them.
pub open spec fn entry_count(entries: Seq<nat>) -> nat
    decreases entries.len(),
{
    if entries.len() == 0 {
        0
    } else {
        entry_count(entries.drop_last()) + entries.last()
    }
}

/// The number of metadata entries in a type.
pub open spec fn type_entries(t: TypeShape) -> nat
    decreases t, t.inner.len() + 1,
{
    entry_count(t.entries) + inner_entries_count(t, t.inner.len())
}

/// The number of metadata entries in the first `n` types inside a type.
pub open spec fn inner_entries_count(t: TypeShape, n: nat) -> nat
    decreases t, n,
{
    if n == 0 || n > t.inner.len() {
        0
    } else {
        inner_entries_count(t, (n - 1) as nat) + type_entries(t.inner[n - 1])
    }
}

/// Entries take 64 each.
proof fn lemma_entries_size(entries: Seq<nat>)
    ensures
        entries_size(entries) == 64 * entry_count(entries),
    decreases entries.len(),
{
    if entries.len() > 0 {
        lemma_entries_size(entries.drop_last());
    }
}

/// Types take 256 each, and their entries 64.
proof fn lemma_inner_size(t: TypeShape, n: nat)
    ensures
        inner_size(t, n) == 256 * inner_type_count(t, n) + 64 * inner_entries_count(t, n),
    decreases t, n,
{
    if n > 0 && n <= t.inner.len() {
        let last = t.inner[n - 1];
        lemma_inner_size(t, (n - 1) as nat);
        lemma_inner_size(last, last.inner.len());
        lemma_entries_size(last.entries);
        assert(type_size(last) == 256 + entries_size(last.entries) + inner_size(
            last,
            last.inner.len(),
        ));
        assert(type_count(last) == 1 + inner_type_count(last, last.inner.len()));
        assert(type_entries(last) == entry_count(last.entries) + inner_entries_count(
            last,
            last.inner.len(),
        ));
    }
}

/// A schema fits exactly where its texts, and 256 bytes for each of its types and 64 for each of
/// its metadata entries, stay a kilobyte below two gigabytes.
pub proof fn lemma_schema_fits(schema: Schema, fits: bool)
    requires
        call_ensures(check_schema_fits, (&schema,), fits),
    ensures
        ({
            let row = row_shape(schema_contents(schema));
            let (length, entries) = metadata_size(schema_contents(schema));
            fits <==> row.length + length + 256 * type_count(row) + 64 * (type_entries(row)
                + entries) <= 0x8000_0000 - 1024
        }),
{
    let row = row_shape(schema_contents(schema));
    lemma_inner_size(row, row.inner.len());
    lemma_entries_size(row.entries);
}

/// The number of arrays in an array, itself included, and the number of their buffers.
pub open spec fn layout_counts(layout: Layout) -> (nat, nat)
    decreases layout, layout.inner.len() + 1,
{
    let (arrays, buffers) = inner_layout_counts(layout, layout.inner.len());
    (1 + arrays, layout.buffers + buffers)
}

/// The number of arrays in the first `n` arrays inside an array, and of their buffers.
pub open spec fn inner_layout_counts(layout: Layout, n: nat) -> (nat, nat)
    decreases layout, n,
{
    if n == 0 || n > layout.inner.len() {
        (0, 0)
    } else {
        let (arrays, buffers) = inner_layout_counts(layout, (n - 1) as nat);
        let (more, further) = layout_counts(layout.inner[n - 1]);
        (arrays + more, buffers + further)
    }
}

/// The number of arrays in a list of arrays, and of their buffers.
pub open spec fn layouts_counts(layouts: Seq<Layout>) -> (nat, nat)
    decreases layouts.len(),
{
    if layouts.len() == 0 {
        (0, 0)
    } else {
        let (arrays, buffers) = layouts_counts(layouts.drop_last());
        let (more, further) = layout_counts(layouts.last());
        (arrays + more, buffers + further)
    }
}

/// Arrays take 64 each, and their buffers 16.
proof fn lemma_inner_layout_size(layout: Layout, n: nat)
    ensures
        inner_layout_size(layout, n) == 64 * inner_layout_counts(layout, n).0 + 16
            * inner_layout_counts(layout, n).1,
    decreases layout, n,
{
    if n > 0 && n <= layout.inner.len() {
        let last = layout.inner[n - 1];
        lemma_inner_layout_size(layout, (n - 1) as nat);
        lemma_inner_layout_size(last, last.inner.len());
        assert(layout_size(last) == 64 + 16 * last.buffers + inner_layout_size(
            last,
            last.inner.len(),
        ));
        assert(layout_counts(last).0 == 1 + inner_layout_counts(last, last.inner.len()).0);
        assert(layout_counts(last).1 == last.buffers + inner_layout_counts(
            last,
            last.inner.len(),
        ).1);
    }
}

/// Lists of arrays take 64 for each, and 16 for each of their buffers.
proof fn lemma_layouts_size(layouts: Seq<Layout>)
    ensures
        layouts_size(layouts) == 64 * layouts_counts(layouts).0 + 16 * layouts_counts(layouts).1,
    decreases layouts.len(),
{
    if layouts.len() > 0 {
        lemma_layouts_size(layouts.drop_last());
        lemma_inner_layout_size(layouts.last(), layouts.last().inner.len());
    }
}

/// Arrays fit exactly where 64 bytes for each of them and 16 for each of their buffers stay a
/// kilobyte below two gigabytes.
pub proof fn lemma_arrays_fit(arrays: Vec<ArrayData>, fit: bool)
    requires
        call_ensures(check_arrays_fit, (&arrays,), fit),
    ensures
        ({
            let (n, buffers) = layouts_counts(data_layouts(arrays@));
            fit <==> 64 * n + 16 * buffers <= 0x8000_0000 - 1024
        }),
{
    lemma_layouts_size(data_layouts(arrays@));
}

} // verus!
