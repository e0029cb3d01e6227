//! Schemas of the columnar format and their stream encoding.
use std::sync::Arc;

use arrow::datatypes::Schema;
use arrow::ipc::reader::StreamReader;
use arrow::ipc::writer::StreamWriter;
use vstd::prelude::*;

use crate::batch::is_schema_stream;
use crate::size::{check_schema_fits, schema_fits};
use crate::text::text_of;
use crate::types::{all_kept, all_read, check_all_read, schema_types};

verus! {

/// The schema type of the columnar format.
#[verifier::external_type_specification]
#[verifier::external_body]
pub struct ExSchema(Schema);

/// What `==` on schemas compares: the name, type, nullability and metadata of each
/// field, and the metadata of the schema.
pub uninterp spec fn schema_contents(schema: Schema) -> Seq<Seq<char>>;

/// Which of the dictionary-typed fields keep their dictionaries in order; `==` on
/// schemas does not look at it.
pub uninterp spec fn schema_ordered(schema: Schema) -> Seq<bool>;

/// The stream encoding of a schema without batches.
pub uninterp spec fn schema_stream(contents: Seq<Seq<char>>, ordered: Seq<bool>) -> Seq<u8>;

/// Which step of writing a stream failed, and how it says so.
#[derive(Debug)]
pub enum StreamError {
    /// Creating the writer, which writes the schema.
    Create(String),
    /// Ending the stream.
    Finish(String),
}

/// How writing says that a message is too large.
pub open spec fn too_large() -> Seq<char> {
    "the message would take more than two gigabytes"@
}

/// How writing says that a message is too large.
pub(crate) fn too_large_text() -> (text: String)
    ensures
        text@ == too_large(),
{
    "the message would take more than two gigabytes".to_owned()
}

/// `StreamWriter::try_new` into an empty vector, then `StreamWriter::finish`: the bytes
/// depend on the schema alone, and writing them into memory does not fail. The writer panics
/// where a part of a message takes more than two gigabytes.
#[verifier::external_body]
fn write_schema_stream(schema: &Schema) -> (bytes: Result<Vec<u8>, StreamError>)
    requires
        schema_fits(*schema),
    ensures
        bytes is Ok,
        bytes->Ok_0@ == schema_stream(schema_contents(*schema), schema_ordered(*schema)),
{
    let mut buf = Vec::new();
    let mut writer = StreamWriter::try_new(&mut buf, schema)
        .map_err(|e| StreamError::Create(e.to_string()))?;
    writer.finish().map_err(|e| StreamError::Finish(e.to_string()))?;
    Ok(buf)
}

/// The stream encoding of `schema`.
pub open spec fn encoded_schema(schema: Schema) -> Seq<u8> {
    schema_stream(schema_contents(schema), schema_ordered(schema))
}

/// The stream encoding of `schema`; nothing where its message is too large.
pub open spec fn schema_message(schema: Schema) -> Option<Seq<u8>> {
    if schema_fits(schema) {
        Some(encoded_schema(schema))
    } else {
        None
    }
}

/// The schema can be read back out of its stream encoding.
pub open spec fn can_read_schema(schema: Schema) -> bool {
    schema_fits(schema) && all_read(schema_types(schema))
}

/// Writes a schema without batches to a stream.
pub(crate) fn write_schema(schema: &Schema) -> (bytes: Result<Vec<u8>, StreamError>)
    ensures
        match bytes {
            Ok(b) => schema_message(*schema) == Some(b@),
            Err(error) => schema_message(*schema) is None && (error matches StreamError::Create(e)
                && e@ == too_large()),
        },
{
    if !check_schema_fits(schema) {
        return Err(StreamError::Create(too_large_text()));
    }
    write_schema_stream(schema)
}

/// What the schema holds that reading a stream gives; nothing where it cannot be read.
pub uninterp spec fn stream_schema(bytes: Seq<u8>) -> Option<Seq<Seq<char>>>;

/// `StreamReader::try_new` on the stream of a schema that can be read back, then
/// `StreamReader::schema`: whether that succeeds, and what the schema then holds, depends on
/// the bytes alone. Where it succeeds, the schema is equal to the one that was written, if
/// the stream keeps its types. On other bytes the reader can panic. Reading fails where the
/// schema nests too deep or has too many parts for the reader; on which schemas that is so is
/// left open.
#[verifier::external_body]
fn read_schema_stream(bytes: &Vec<u8>) -> (read: Result<Arc<Schema>, String>)
    requires
        is_schema_stream(bytes@),
    ensures
        read is Ok <==> stream_schema(bytes@) is Some,
        read matches Ok(schema) ==> stream_schema(bytes@) == Some(schema_contents(*schema)),
        forall|schema: Schema|
            can_read_schema(schema) && all_kept(schema_types(schema)) && #[trigger] encoded_schema(
                schema,
            ) == bytes@ ==> (read matches Ok(found) ==> schema_contents(*found)
                == schema_contents(schema)),
{
    let reader = StreamReader::try_new(bytes.as_slice(), None).map_err(|e| e.to_string())?;
    Ok(reader.schema())
}

/// `==` on schemas.
#[verifier::external_body]
pub(crate) fn same_schema(a: &Schema, b: &Schema) -> (same: bool)
    ensures
        same == (schema_contents(*a) == schema_contents(*b)),
{
    a == b
}

/// Encodes a schema for a processor library.
pub fn encode_schema(schema: &Schema) -> (bytes: Result<Vec<u8>, String>)
    ensures
        match bytes {
            Ok(b) => schema_message(*schema) == Some(b@),
            Err(e) => schema_message(*schema) is None && e@
                == "failed to create IPC writer for schema: "@ + too_large(),
        },
{
    match write_schema(schema) {
        Ok(bytes) => Ok(bytes),
        Err(StreamError::Create(e)) => Err(
            text_of("failed to create IPC writer for schema: ", e.as_str()),
        ),
        Err(StreamError::Finish(e)) => Err(
            text_of("failed to finish IPC schema writer: ", e.as_str()),
        ),
    }
}

/// `decoded` is what decoding the bytes of a schema gives: the schema that reading gives,
/// which is equal to the one that was encoded if the stream keeps its types, or an error
/// where the bytes cannot be read.
pub open spec fn is_decoded(bytes: Seq<u8>, decoded: Result<Arc<Schema>, String>) -> bool {
    &&& match decoded {
        Ok(schema) => stream_schema(bytes) == Some(schema_contents(*schema)),
        Err(e) => stream_schema(bytes) is None
            && "failed to create IPC reader for schema: "@.is_prefix_of(e@),
    }
    &&& forall|schema: Schema|
        can_read_schema(schema) && all_kept(schema_types(schema)) && #[trigger] encoded_schema(
            schema,
        ) == bytes ==> (decoded matches Ok(found) ==> schema_contents(*found)
            == schema_contents(schema))
}

/// The schema that was read, or how decoding says that there is none.
pub fn decoded_schema(read: Result<Arc<Schema>, String>) -> (decoded: Result<Arc<Schema>, String>)
    ensures
        match read {
            Ok(schema) => decoded == Ok::<Arc<Schema>, String>(schema),
            Err(text) => decoded matches Err(e) && e@
                == "failed to create IPC reader for schema: "@ + text@,
        },
{
    match read {
        Ok(schema) => Ok(schema),
        Err(text) => Err(text_of("failed to create IPC reader for schema: ", text.as_str())),
    }
}

/// Decodes what [`encode_schema`] made of a schema that can be read back.
pub fn decode_schema(bytes: &Vec<u8>) -> (decoded: Result<Arc<Schema>, String>)
    requires
        is_schema_stream(bytes@),
    ensures
        is_decoded(bytes@, decoded),
{
    decoded_schema(read_schema_stream(bytes))
}

/// Encodes a schema and decodes it again, where its types can be read back; nothing
/// otherwise.
pub fn try_reread_schema(schema: &Schema) -> (reread: Option<Result<Arc<Schema>, String>>)
    ensures
        reread is Some <==> all_read(schema_types(*schema)),
        reread matches Some(decoded) ==> if schema_fits(*schema) {
            is_decoded(encoded_schema(*schema), decoded)
        } else {
            decoded matches Err(e) && e@ == "failed to create IPC writer for schema: "@
                + too_large()
        },
{
    if !check_all_read(schema) {
        return None;
    }
    match encode_schema(schema) {
        Ok(bytes) => Some(decode_schema(&bytes)),
        Err(e) => Some(Err(e)),
    }
}

/// A schema is encoded exactly where its message is not too large.
pub proof fn lemma_schema_encodes(schema: Schema, encoded: Result<Vec<u8>, String>)
    requires
        call_ensures(encode_schema, (&schema,), encoded),
    ensures
        encoded is Ok <==> schema_fits(schema),
        encoded matches Ok(bytes) ==> bytes@ == schema_stream(
            schema_contents(schema),
            schema_ordered(schema),
        ),
{
}

/// A schema that is encoded and decoded, where its types can be read back and are kept, is equal
/// to what it was; there is no other outcome but that its stream cannot be read.
pub proof fn lemma_schema_back(
    schema: Schema,
    bytes: Vec<u8>,
    decoded: Result<Arc<Schema>, String>,
)
    requires
        all_read(schema_types(schema)),
        all_kept(schema_types(schema)),
        call_ensures(encode_schema, (&schema,), Ok::<Vec<u8>, String>(bytes)),
        call_ensures(decode_schema, (&bytes,), decoded),
    ensures
        is_schema_stream(bytes@),
        match decoded {
            Ok(back) => schema_contents(*back) == schema_contents(schema),
            Err(e) => stream_schema(bytes@) is None
                && "failed to create IPC reader for schema: "@.is_prefix_of(e@),
        },
{
}

} // verus!
