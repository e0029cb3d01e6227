//! The types of columns: how they nest, and what can be done with their values.
use arrow::datatypes::{DataType, Schema, UnionMode};
use vstd::prelude::*;

use crate::schema::schema_contents;

verus! {

/// The column types of the columnar format.
#[verifier::external_type_specification]
#[verifier::external_body]
pub struct ExDataType(DataType);

/// What a type is, without the types inside it.
#[derive(Debug)]
pub enum TypeKind {
    Struct,
    List,
    LargeList,
    /// Lists of the given length.
    FixedSizeList(i32),
    ListView,
    LargeListView,
    Mapping,
    DenseUnion,
    SparseUnion,
    /// Indices of the given type into a dictionary.
    Dictionary(String),
    /// Run-length encoded values.
    Runs,
    /// A type with no type inside, by its text.
    Other(String),
}

/// What a type is, without the types inside it.
pub enum Kind {
    Struct,
    List,
    LargeList,
    FixedSizeList(i32),
    ListView,
    LargeListView,
    Mapping,
    DenseUnion,
    SparseUnion,
    Dictionary(Seq<char>),
    Runs,
    Other(Seq<char>),
}

impl View for TypeKind {
    type V = Kind;

    open spec fn view(&self) -> Kind {
        match self {
            TypeKind::Struct => Kind::Struct,
            TypeKind::List => Kind::List,
            TypeKind::LargeList => Kind::LargeList,
            TypeKind::FixedSizeList(n) => Kind::FixedSizeList(*n),
            TypeKind::ListView => Kind::ListView,
            TypeKind::LargeListView => Kind::LargeListView,
            TypeKind::Mapping => Kind::Mapping,
            TypeKind::DenseUnion => Kind::DenseUnion,
            TypeKind::SparseUnion => Kind::SparseUnion,
            TypeKind::Dictionary(index) => Kind::Dictionary(index@),
            TypeKind::Runs => Kind::Runs,
            TypeKind::Other(text) => Kind::Other(text@),
        }
    }
}

/// A type with the types inside it.
pub struct TypeShape {
    pub kind: Kind,
    /// The types inside: of the fields of a struct, of the items of a list or a map, of the
    /// alternatives of a union, of the values of a dictionary, of the ends and of the values
    /// of runs.
    pub inner: Seq<TypeShape>,
    /// The number of metadata entries of each field inside; the values of a dictionary are no
    /// field.
    pub entries: Seq<nat>,
    /// The length of the text of the type, which holds all names, time zones and metadata
    /// inside, in bytes.
    pub length: nat,
}

/// A type with the types inside it.
pub uninterp spec fn type_shape(data_type: DataType) -> TypeShape;

/// The types in a list.
pub open spec fn type_shapes(types: Seq<DataType>) -> Seq<TypeShape> {
    types.map_values(|t: DataType| type_shape(t))
}

/// The type of structs with the columns of a schema as their fields, by what `==` on schemas
/// compares.
pub uninterp spec fn row_shape(contents: Seq<Seq<char>>) -> TypeShape;

/// The types of the columns of a schema.
pub open spec fn schema_types(schema: Schema) -> Seq<TypeShape> {
    row_shape(schema_contents(schema)).inner
}

/// The variants of `DataType`, one for one; a type with no type inside by what
/// `DataType::to_string` says of it.
#[verifier::external_body]
fn type_kind(data_type: &DataType) -> (kind: TypeKind)
    ensures
        kind@ == type_shape(*data_type).kind,
{
    match data_type {
        DataType::Struct(_) => TypeKind::Struct,
        DataType::List(_) => TypeKind::List,
        DataType::LargeList(_) => TypeKind::LargeList,
        DataType::FixedSizeList(_, n) => TypeKind::FixedSizeList(*n),
        DataType::ListView(_) => TypeKind::ListView,
        DataType::LargeListView(_) => TypeKind::LargeListView,
        DataType::Map(_, _) => TypeKind::Mapping,
        DataType::Union(_, UnionMode::Dense) => TypeKind::DenseUnion,
        DataType::Union(_, UnionMode::Sparse) => TypeKind::SparseUnion,
        DataType::Dictionary(index, _) => TypeKind::Dictionary(index.to_string()),
        DataType::RunEndEncoded(_, _) => TypeKind::Runs,
        other => TypeKind::Other(other.to_string()),
    }
}

/// The types that the variants of `DataType` hold, in their order.
#[verifier::external_body]
pub(crate) fn inner_types(data_type: &DataType) -> (types: Vec<DataType>)
    ensures
        type_shapes(types@) == type_shape(*data_type).inner,
{
    let inner: Vec<&DataType> = match data_type {
        DataType::Struct(fields) => fields.iter().map(|f| f.data_type()).collect(),
        DataType::List(f) | DataType::LargeList(f) | DataType::ListView(f)
        | DataType::LargeListView(f) | DataType::FixedSizeList(f, _) | DataType::Map(f, _) => vec![f.data_type()],
        DataType::Union(fields, _) => fields.iter().map(|(_, f)| f.data_type()).collect(),
        DataType::Dictionary(_, values) => vec![values],
        DataType::RunEndEncoded(e, v) => vec![e.data_type(), v.data_type()],
        _ => vec![],
    };
    inner.into_iter().cloned().collect()
}

/// `Field::metadata` on the fields that the variants of `DataType` hold: the number of the
/// entries of each, in the order of the fields.
#[verifier::external_body]
pub(crate) fn inner_entries(data_type: &DataType) -> (entries: Vec<usize>)
    ensures
        entries@.map_values(|n: usize| n as nat) == type_shape(*data_type).entries,
{
    match data_type {
        DataType::Struct(fields) => fields.iter().map(|f| f.metadata().len()).collect(),
        DataType::List(f) | DataType::LargeList(f) | DataType::ListView(f)
        | DataType::LargeListView(f) | DataType::FixedSizeList(f, _) | DataType::Map(f, _) => vec![f.metadata().len()],
        DataType::Union(fields, _) => fields.iter().map(|(_, f)| f.metadata().len()).collect(),
        DataType::RunEndEncoded(e, v) => vec![e.metadata().len(), v.metadata().len()],
        _ => vec![],
    }
}

/// `DataType::to_string`: the length of the text, in bytes.
#[verifier::external_body]
pub(crate) fn text_length(data_type: &DataType) -> (length: usize)
    ensures
        length == type_shape(*data_type).length,
{
    data_type.to_string().len()
}

/// `Schema::fields`, as the fields of a struct type.
#[verifier::external_body]
pub(crate) fn row_type(schema: &Schema) -> (row: DataType)
    ensures
        type_shape(row) == row_shape(schema_contents(*schema)),
{
    DataType::Struct(schema.fields().clone())
}

/// The types of the columns of a schema, in their order.
fn column_types(schema: &Schema) -> (types: Vec<DataType>)
    ensures
        type_shapes(types@) == schema_types(*schema),
{
    inner_types(&row_type(schema))
}

/// The type has no type inside and holds values other than null.
pub open spec fn is_flat(t: TypeShape) -> bool {
    t.kind matches Kind::Other(text) && text != "Null"@
}

/// The type has no type inside, or is that of a dictionary.
pub open spec fn is_single(t: TypeShape) -> bool {
    t.kind is Other || t.kind is Dictionary
}

/// What is asked of the types inside a type.
pub enum Rule {
    /// They are out of the question.
    Never,
    /// Nothing.
    Free,
    /// To be flat.
    Flat,
    /// To be single.
    Single,
    /// What is asked of the type itself.
    Same,
}

/// What taking rows asks of the types inside a type of `kind`. Where `rows` is given, the
/// values stand one to a row in that many rows; otherwise there may be any number of them,
/// and none.
pub open spec fn take_rule(kind: Kind, rows: Option<usize>) -> Rule {
    match kind {
        Kind::Other(_) | Kind::Dictionary(_) | Kind::ListView | Kind::LargeListView => Rule::Free,
        Kind::Struct => Rule::Flat,
        Kind::List | Kind::LargeList | Kind::Mapping => Rule::Same,
        Kind::FixedSizeList(n) => match rows {
            Some(rows) => if 0 <= n && rows * n <= u32::MAX {
                Rule::Same
            } else {
                Rule::Never
            },
            None => Rule::Never,
        },
        Kind::DenseUnion | Kind::SparseUnion => Rule::Never,
        Kind::Runs => if rows is Some {
            Rule::Single
        } else {
            Rule::Never
        },
    }
}

/// Rows can be taken of values of this type: there are no unions; the values of structs are
/// flat; runs are not inside lists or maps; lists of a fixed length are not inside other
/// values, and hold no more items than 32 bits can number.
pub open spec fn can_take(t: TypeShape, rows: Option<usize>) -> bool
    decreases t,
{
    match take_rule(t.kind, rows) {
        Rule::Never => false,
        Rule::Free => true,
        Rule::Flat => forall|i: int| 0 <= i < t.inner.len() ==> is_flat(#[trigger] t.inner[i]),
        Rule::Single => forall|i: int| 0 <= i < t.inner.len() ==> is_single(#[trigger] t.inner[i]),
        Rule::Same => forall|i: int|
            0 <= i < t.inner.len() ==> can_take(#[trigger] t.inner[i], None),
    }
}

/// The types that indices into a dictionary have.
pub open spec fn is_index(text: Seq<char>) -> bool {
    ||| text == "Int8"@
    ||| text == "Int16"@
    ||| text == "Int32"@
    ||| text == "Int64"@
    ||| text == "UInt8"@
    ||| text == "UInt16"@
    ||| text == "UInt32"@
    ||| text == "UInt64"@
}

/// What reading a stream back asks of the types inside a type of `kind`; `coded` is the word
/// on dictionaries.
pub open spec fn read_rule(kind: Kind, coded: bool) -> (Rule, bool) {
    match kind {
        Kind::Other(_) => (Rule::Free, coded),
        Kind::Dictionary(index) => if coded && is_index(index) {
            (Rule::Flat, coded)
        } else {
            (Rule::Never, coded)
        },
        Kind::Struct | Kind::List | Kind::LargeList | Kind::FixedSizeList(_) | Kind::Mapping => (
            Rule::Same,
            coded,
        ),
        Kind::ListView | Kind::LargeListView => (Rule::Same, false),
        Kind::Runs => (Rule::Flat, coded),
        Kind::DenseUnion | Kind::SparseUnion => (Rule::Never, coded),
    }
}

/// Values of this type can be read back out of a stream: there are no unions, no
/// dictionaries inside list views, and the values of dictionaries and of runs are flat.
pub open spec fn can_read(t: TypeShape, coded: bool) -> bool
    decreases t,
{
    let (rule, coded) = read_rule(t.kind, coded);
    can_write(t) && match rule {
        Rule::Never => false,
        Rule::Free => true,
        Rule::Flat => forall|i: int| 0 <= i < t.inner.len() ==> is_flat(#[trigger] t.inner[i]),
        Rule::Single => forall|i: int| 0 <= i < t.inner.len() ==> is_single(#[trigger] t.inner[i]),
        Rule::Same => forall|i: int|
            0 <= i < t.inner.len() ==> can_read(#[trigger] t.inner[i], coded),
    }
}

/// Values of this type can be written to a stream: there are no unions.
pub open spec fn can_write(t: TypeShape) -> bool
    decreases t,
{
    &&& !(t.kind is DenseUnion)
    &&& !(t.kind is SparseUnion)
    &&& forall|i: int| 0 <= i < t.inner.len() ==> can_write(#[trigger] t.inner[i])
}

/// The types that a stream changes: an empty time zone is read as none, and the width of a
/// time of day follows its unit.
pub open spec fn is_changed(text: Seq<char>) -> bool {
    ||| text == "Timestamp(s, \"\")"@
    ||| text == "Timestamp(ms, \"\")"@
    ||| text == "Timestamp(µs, \"\")"@
    ||| text == "Timestamp(ns, \"\")"@
    ||| text == "Time32(µs)"@
    ||| text == "Time32(ns)"@
    ||| text == "Time64(s)"@
    ||| text == "Time64(ms)"@
}

/// The type is read back as it was.
pub open spec fn is_kept(t: TypeShape) -> bool
    decreases t,
{
    &&& t.kind matches Kind::Other(text) ==> !is_changed(text)
    &&& forall|i: int| 0 <= i < t.inner.len() ==> is_kept(#[trigger] t.inner[i])
}

/// Rows can be taken of all columns of these types.
pub open spec fn all_take(types: Seq<TypeShape>, rows: usize) -> bool {
    forall|i: int| 0 <= i < types.len() ==> can_take(#[trigger] types[i], Some(rows))
}

/// All columns of these types can be written to a stream.
pub open spec fn all_write(types: Seq<TypeShape>) -> bool {
    forall|i: int| 0 <= i < types.len() ==> can_write(#[trigger] types[i])
}

/// All columns of these types can be read back out of a stream.
pub open spec fn all_read(types: Seq<TypeShape>) -> bool {
    forall|i: int| 0 <= i < types.len() ==> can_read(#[trigger] types[i], true)
}

/// All of these types are read back as they were.
pub open spec fn all_kept(types: Seq<TypeShape>) -> bool {
    forall|i: int| 0 <= i < types.len() ==> is_kept(#[trigger] types[i])
}

/// All of these types are flat.
pub open spec fn all_flat(types: Seq<TypeShape>) -> bool {
    forall|i: int| 0 <= i < types.len() ==> is_flat(#[trigger] types[i])
}

/// Whether the two texts are the same.
fn same_text(a: &String, b: &str) -> (same: bool)
    ensures
        same == (a@ == b@),
{
    *a == b.to_owned()
}

/// Whether the type is flat.
fn check_flat(t: &DataType) -> (flat: bool)
    ensures
        flat == is_flat(type_shape(*t)),
{
    match type_kind(t) {
        TypeKind::Other(text) => !same_text(&text, "Null"),
        _ => false,
    }
}

/// Whether the type is single.
fn check_single(t: &DataType) -> (single: bool)
    ensures
        single == is_single(type_shape(*t)),
{
    match type_kind(t) {
        TypeKind::Other(_) | TypeKind::Dictionary(_) => true,
        _ => false,
    }
}

/// What taking rows asks of the types inside.
fn rule_of_taking(kind: &TypeKind, rows: Option<usize>) -> (rule: Rule)
    ensures
        rule == take_rule(kind@, rows),
{
    match kind {
        TypeKind::Other(_) | TypeKind::Dictionary(_) => Rule::Free,
        TypeKind::ListView | TypeKind::LargeListView => Rule::Free,
        TypeKind::Struct => Rule::Flat,
        TypeKind::List | TypeKind::LargeList | TypeKind::Mapping => Rule::Same,
        TypeKind::FixedSizeList(n) => match rows {
            Some(rows) => if 0 <= *n {
                assert(rows * *n <= usize::MAX * i32::MAX) by (nonlinear_arith)
                    requires
                        0 <= *n <= i32::MAX,
                        0 <= rows <= usize::MAX,
                ;
                if rows as u128 * (*n as u128) <= u32::MAX as u128 {
                    Rule::Same
                } else {
                    Rule::Never
                }
            } else {
                Rule::Never
            },
            None => Rule::Never,
        },
        TypeKind::DenseUnion | TypeKind::SparseUnion => Rule::Never,
        TypeKind::Runs => match rows {
            Some(_) => Rule::Single,
            None => Rule::Never,
        },
    }
}

/// Whether rows can be taken of values of the type.
fn check_take(t: &DataType, rows: Option<usize>) -> (can: bool)
    ensures
        can == can_take(type_shape(*t), rows),
    decreases type_shape(*t),
{
    let rule = rule_of_taking(&type_kind(t), rows);
    let inner = inner_types(t);
    let ghost shape = type_shape(*t);
    match rule {
        Rule::Never => return false,
        Rule::Free => return true,
        _ => {},
    }
    let mut i: usize = 0;
    while i < inner.len()
        invariant
            i <= inner@.len(),
            shape == type_shape(*t),
            type_shapes(inner@) == shape.inner,
            rule == take_rule(shape.kind, rows),
            !(rule is Never),
            !(rule is Free),
            forall|j: int|
                0 <= j < i ==> match rule {
                    Rule::Flat => is_flat(#[trigger] shape.inner[j]),
                    Rule::Single => is_single(shape.inner[j]),
                    Rule::Same => can_take(shape.inner[j], None),
                    _ => true,
                },
        decreases inner@.len() - i,
    {
        assert(type_shapes(inner@)[i as int] == type_shape(inner@[i as int]));
        assert(decreases_to!(shape => shape.inner[i as int]));
        let can = match rule {
            Rule::Flat => check_flat(&inner[i]),
            Rule::Single => check_single(&inner[i]),
            Rule::Same => check_take(&inner[i], None),
            _ => true,
        };
        if !can {
            return false;
        }
        i = i + 1;
    }
    assert(inner@.len() == shape.inner.len());
    true
}

/// Whether indices have this type.
fn check_index(text: &String) -> (index: bool)
    ensures
        index == is_index(text@),
{
    same_text(text, "Int8") || same_text(text, "Int16") || same_text(text, "Int32") || same_text(
        text,
        "Int64",
    ) || same_text(text, "UInt8") || same_text(text, "UInt16") || same_text(text, "UInt32")
        || same_text(text, "UInt64")
}

/// What reading asks of the types inside.
fn rule_of_reading(kind: &TypeKind, coded: bool) -> (rule: (Rule, bool))
    ensures
        rule == read_rule(kind@, coded),
{
    match kind {
        TypeKind::Other(_) => (Rule::Free, coded),
        TypeKind::Dictionary(index) => if coded && check_index(index) {
            (Rule::Flat, coded)
        } else {
            (Rule::Never, coded)
        },
        TypeKind::Struct | TypeKind::List | TypeKind::LargeList => (Rule::Same, coded),
        TypeKind::FixedSizeList(_) | TypeKind::Mapping => (Rule::Same, coded),
        TypeKind::ListView | TypeKind::LargeListView => (Rule::Same, false),
        TypeKind::Runs => (Rule::Flat, coded),
        TypeKind::DenseUnion | TypeKind::SparseUnion => (Rule::Never, coded),
    }
}

/// Whether values of the type can be read back out of a stream.
fn check_read(t: &DataType, coded: bool) -> (can: bool)
    ensures
        can == can_read(type_shape(*t), coded),
    decreases type_shape(*t),
{
    if !check_write(t) {
        return false;
    }
    let (rule, below) = rule_of_reading(&type_kind(t), coded);
    let inner = inner_types(t);
    let ghost shape = type_shape(*t);
    match rule {
        Rule::Never => return false,
        Rule::Free => return true,
        _ => {},
    }
    let mut i: usize = 0;
    while i < inner.len()
        invariant
            i <= inner@.len(),
            shape == type_shape(*t),
            type_shapes(inner@) == shape.inner,
            can_write(shape),
            (rule, below) == read_rule(shape.kind, coded),
            !(rule is Never),
            !(rule is Free),
            forall|j: int|
                0 <= j < i ==> match rule {
                    Rule::Flat => is_flat(#[trigger] shape.inner[j]),
                    Rule::Single => is_single(shape.inner[j]),
                    Rule::Same => can_read(shape.inner[j], below),
                    _ => true,
                },
        decreases inner@.len() - i,
    {
        assert(type_shapes(inner@)[i as int] == type_shape(inner@[i as int]));
        assert(decreases_to!(shape => shape.inner[i as int]));
        let can = match rule {
            Rule::Flat => check_flat(&inner[i]),
            Rule::Single => check_single(&inner[i]),
            Rule::Same => check_read(&inner[i], below),
            _ => true,
        };
        if !can {
            return false;
        }
        i = i + 1;
    }
    assert(inner@.len() == shape.inner.len());
    true
}

/// Whether values of the type can be written to a stream.
fn check_write(t: &DataType) -> (can: bool)
    ensures
        can == can_write(type_shape(*t)),
    decreases type_shape(*t),
{
    match type_kind(t) {
        TypeKind::DenseUnion | TypeKind::SparseUnion => return false,
        _ => {},
    }
    let inner = inner_types(t);
    let ghost shape = type_shape(*t);
    let mut i: usize = 0;
    while i < inner.len()
        invariant
            i <= inner@.len(),
            shape == type_shape(*t),
            type_shapes(inner@) == shape.inner,
            !(shape.kind is DenseUnion),
            !(shape.kind is SparseUnion),
            forall|j: int| 0 <= j < i ==> can_write(#[trigger] shape.inner[j]),
        decreases inner@.len() - i,
    {
        assert(type_shapes(inner@)[i as int] == type_shape(inner@[i as int]));
        assert(decreases_to!(shape => shape.inner[i as int]));
        if !check_write(&inner[i]) {
            return false;
        }
        i = i + 1;
    }
    assert(inner@.len() == shape.inner.len());
    true
}

/// Whether all columns of a schema can be written to a stream.
pub(crate) fn check_all_write(schema: &Schema) -> (can: bool)
    ensures
        can == all_write(schema_types(*schema)),
{
    let types = column_types(schema);
    let ghost shapes = schema_types(*schema);
    let mut i: usize = 0;
    while i < types.len()
        invariant
            i <= types@.len(),
            shapes == schema_types(*schema),
            type_shapes(types@) == shapes,
            forall|j: int| 0 <= j < i ==> can_write(#[trigger] shapes[j]),
        decreases types@.len() - i,
    {
        assert(type_shapes(types@)[i as int] == type_shape(types@[i as int]));
        if !check_write(&types[i]) {
            assert(!can_write(shapes[i as int]));
            return false;
        }
        i = i + 1;
    }
    assert(types@.len() == shapes.len());
    true
}

/// Whether rows can be taken of all columns of a schema.
pub(crate) fn check_all_take(schema: &Schema, rows: usize) -> (can: bool)
    ensures
        can == all_take(schema_types(*schema), rows),
{
    let types = column_types(schema);
    let ghost shapes = schema_types(*schema);
    let mut i: usize = 0;
    while i < types.len()
        invariant
            i <= types@.len(),
            shapes == schema_types(*schema),
            type_shapes(types@) == shapes,
            forall|j: int| 0 <= j < i ==> can_take(#[trigger] shapes[j], Some(rows)),
        decreases types@.len() - i,
    {
        assert(type_shapes(types@)[i as int] == type_shape(types@[i as int]));
        if !check_take(&types[i], Some(rows)) {
            assert(!can_take(shapes[i as int], Some(rows)));
            return false;
        }
        i = i + 1;
    }
    assert(types@.len() == shapes.len());
    true
}

/// Whether all columns of a schema can be read back out of a stream.
pub(crate) fn check_all_read(schema: &Schema) -> (can: bool)
    ensures
        can == all_read(schema_types(*schema)),
{
    let types = column_types(schema);
    let ghost shapes = schema_types(*schema);
    let mut i: usize = 0;
    while i < types.len()
        invariant
            i <= types@.len(),
            shapes == schema_types(*schema),
            type_shapes(types@) == shapes,
            forall|j: int| 0 <= j < i ==> can_read(#[trigger] shapes[j], true),
        decreases types@.len() - i,
    {
        assert(type_shapes(types@)[i as int] == type_shape(types@[i as int]));
        if !check_read(&types[i], true) {
            assert(!can_read(shapes[i as int], true));
            return false;
        }
        i = i + 1;
    }
    assert(types@.len() == shapes.len());
    true
}

/// The type has no type inside.
pub open spec fn is_leaf(t: TypeShape) -> bool {
    t.kind is Other && t.inner.len() == 0
}

/// There is a union in the type.
pub open spec fn holds_union(t: TypeShape) -> bool
    decreases t,
{
    ||| t.kind is DenseUnion
    ||| t.kind is SparseUnion
    ||| exists|i: int| 0 <= i < t.inner.len() && holds_union(#[trigger] t.inner[i])
}

/// Values can be written exactly where there is no union in their type.
pub proof fn lemma_written(t: TypeShape)
    ensures
        can_write(t) <==> !holds_union(t),
    decreases t,
{
    assert forall|i: int| 0 <= i < t.inner.len() implies can_write(#[trigger] t.inner[i])
        == !holds_union(t.inner[i]) by {
        lemma_written(t.inner[i]);
    }
}

/// Values without types inside, lists, maps and structs of them, and dictionaries of them with an
/// integer index, can be taken rows of, written to a stream and read back; unions cannot.
pub proof fn lemma_plain_types(t: TypeShape, rows: Option<usize>)
    requires
        forall|i: int|
            0 <= i < t.inner.len() ==> is_leaf(#[trigger] t.inner[i]) && t.inner[i].kind
                != Kind::Other("Null"@),
    ensures
        is_leaf(t) || t.kind is Struct || t.kind is List || t.kind is LargeList
            || t.kind is Mapping || t.kind == Kind::Dictionary("Int32"@) ==> can_take(t, rows)
            && can_write(t) && can_read(t, true),
        t.kind is DenseUnion || t.kind is SparseUnion ==> !can_take(t, rows) && !can_write(t)
            && !can_read(t, true),
{
    assert forall|i: int| 0 <= i < t.inner.len() implies is_flat(#[trigger] t.inner[i])
        && can_write(t.inner[i]) && can_read(t.inner[i], true) && can_take(t.inner[i], None) by {
        assert(is_leaf(t.inner[i]));
    }
}

/// How types nest: rows can be taken of lists and maps exactly where they can be taken of their
/// items, wherever those stand; of structs where their fields are flat; of lists of a fixed
/// length where 32 bits number their items; and of list views and dictionaries always. Structs,
/// lists and maps can be read back exactly where what is inside can be.
pub proof fn lemma_nested_types(t: TypeShape, rows: usize)
    ensures
        t.kind is List || t.kind is LargeList || t.kind is Mapping ==> {
            &&& can_take(t, Some(rows)) <==> forall|i: int|
                0 <= i < t.inner.len() ==> can_take(#[trigger] t.inner[i], None)
            &&& can_take(t, None) <==> forall|i: int|
                0 <= i < t.inner.len() ==> can_take(#[trigger] t.inner[i], None)
        },
        t.kind is Struct ==> (can_take(t, Some(rows)) <==> forall|i: int|
            0 <= i < t.inner.len() ==> is_flat(#[trigger] t.inner[i])),
        t.kind matches Kind::FixedSizeList(n) ==> (can_take(t, Some(rows)) <==> 0 <= n && rows * n
            <= u32::MAX && forall|i: int|
            0 <= i < t.inner.len() ==> can_take(#[trigger] t.inner[i], None)),
        t.kind is ListView || t.kind is LargeListView || t.kind is Dictionary ==> can_take(
            t,
            Some(rows),
        ) && can_take(t, None),
        t.kind is Struct || t.kind is List || t.kind is LargeList || t.kind is FixedSizeList
            || t.kind is Mapping ==> (can_read(t, true) <==> forall|i: int|
            0 <= i < t.inner.len() ==> can_read(#[trigger] t.inner[i], true)),
        t.kind is ListView || t.kind is LargeListView ==> (can_read(t, true) <==> forall|i: int|
            0 <= i < t.inner.len() ==> can_read(#[trigger] t.inner[i], false)),
{
    assert forall|i: int, coded: bool|
        0 <= i < t.inner.len() && #[trigger] can_read(t.inner[i], coded) implies can_write(
        t.inner[i],
    ) by {}
}

} // verus!
