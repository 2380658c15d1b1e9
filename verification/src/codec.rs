//! Messages as bytes. The bytes are those of the `wascc_codec` crate, which writes its own
//! types as MessagePack maps; each function here makes one call of that crate and moves the
//! fields between its types and those of this library.
//!
//! Running out of memory or stack on a message that claims a huge length or nests very deeply
//! is not a result, and nothing is said of it.

use crate::types::{
    Blob, BlobList, BlobView, CapabilityConfiguration, ConfigurationView, Container, ContainerView,
    FileChunk, FileChunkView, StreamRequest, StreamRequestView,
};
use vstd::prelude::*;

verus! {

/// What `wascc_codec::deserialize` makes of a message that is read as a configuration: the
/// value, or the text of the error.
pub uninterp spec fn decoded_configuration(msg: Seq<u8>) -> Result<ConfigurationView, Seq<char>>;

/// What `wascc_codec::deserialize` makes of a message that is read as a container: the value,
/// or the text of the error.
pub uninterp spec fn decoded_container(msg: Seq<u8>) -> Result<ContainerView, Seq<char>>;

/// What `wascc_codec::deserialize` makes of a message that is read as a blob: the value, or the
/// text of the error.
pub uninterp spec fn decoded_blob(msg: Seq<u8>) -> Result<BlobView, Seq<char>>;

/// What `wascc_codec::deserialize` makes of a message that is read as a file chunk: the value,
/// or the text of the error.
pub uninterp spec fn decoded_file_chunk(msg: Seq<u8>) -> Result<FileChunkView, Seq<char>>;

/// What `wascc_codec::deserialize` makes of a message that is read as a stream request: the
/// value, or the text of the error.
pub uninterp spec fn decoded_stream_request(msg: Seq<u8>) -> Result<StreamRequestView, Seq<char>>;

/// The bytes that `wascc_codec::serialize` writes for a container.
pub uninterp spec fn encoded_container(container: ContainerView) -> Seq<u8>;

/// The bytes that `wascc_codec::serialize` writes for a blob.
pub uninterp spec fn encoded_blob(blob: BlobView) -> Seq<u8>;

/// The bytes that `wascc_codec::serialize` writes for a list of blobs.
pub uninterp spec fn encoded_blob_list(blobs: Seq<BlobView>) -> Seq<u8>;

/// The bytes that `wascc_codec::serialize` writes for a file chunk.
pub uninterp spec fn encoded_file_chunk(chunk: FileChunkView) -> Seq<u8>;

/// A text whose bytes can be counted in the 32 bits that a message has for a length: a character
/// takes at most four bytes.
pub open spec fn fits_message(text: Seq<char>) -> bool {
    text.len() <= 0x3fff_ffff
}

/// Calls `wascc_codec::deserialize` for a `CapabilityConfiguration`. The result depends on the
/// bytes alone; the values come out of a hash map, each name once, in any order.
#[verifier::external_body]
pub(crate) fn decode_configuration(msg: &[u8]) -> (result: Result<CapabilityConfiguration, String>)
    ensures
        match result {
            Ok(config) => decoded_configuration(msg@) == Ok::<ConfigurationView, Seq<char>>(config@),
            Err(text) => decoded_configuration(msg@) == Err::<ConfigurationView, Seq<char>>(text@),
        },
{
    match wascc_codec::deserialize::<wascc_codec::core::CapabilityConfiguration>(msg) {
        Ok(c) => Ok(
            CapabilityConfiguration { module: c.module, values: c.values.into_iter().collect() },
        ),
        Err(error) => Err(error.to_string()),
    }
}

/// Calls `wascc_codec::deserialize` for a `Container`. The result depends on the bytes alone.
#[verifier::external_body]
pub(crate) fn decode_container(msg: &[u8]) -> (result: Result<Container, String>)
    ensures
        match result {
            Ok(container) => decoded_container(msg@) == Ok::<ContainerView, Seq<char>>(container@),
            Err(text) => decoded_container(msg@) == Err::<ContainerView, Seq<char>>(text@),
        },
{
    match wascc_codec::deserialize::<wascc_codec::blobstore::Container>(msg) {
        Ok(c) => Ok(Container { id: c.id }),
        Err(error) => Err(error.to_string()),
    }
}

/// Calls `wascc_codec::deserialize` for a `Blob`. The result depends on the bytes alone.
#[verifier::external_body]
pub(crate) fn decode_blob(msg: &[u8]) -> (result: Result<Blob, String>)
    ensures
        match result {
            Ok(blob) => decoded_blob(msg@) == Ok::<BlobView, Seq<char>>(blob@),
            Err(text) => decoded_blob(msg@) == Err::<BlobView, Seq<char>>(text@),
        },
{
    match wascc_codec::deserialize::<wascc_codec::blobstore::Blob>(msg) {
        Ok(b) => Ok(Blob { id: b.id, container: b.container, byte_size: b.byte_size }),
        Err(error) => Err(error.to_string()),
    }
}

/// Calls `wascc_codec::deserialize` for a `FileChunk`. The result depends on the bytes alone.
#[verifier::external_body]
pub(crate) fn decode_file_chunk(msg: &[u8]) -> (result: Result<FileChunk, String>)
    ensures
        match result {
            Ok(chunk) => decoded_file_chunk(msg@) == Ok::<FileChunkView, Seq<char>>(chunk@),
            Err(text) => decoded_file_chunk(msg@) == Err::<FileChunkView, Seq<char>>(text@),
        },
{
    match wascc_codec::deserialize::<wascc_codec::blobstore::FileChunk>(msg) {
        Ok(c) => Ok(
            FileChunk {
                sequence_no: c.sequence_no,
                container: c.container,
                id: c.id,
                total_bytes: c.total_bytes,
                chunk_size: c.chunk_size,
                chunk_bytes: c.chunk_bytes,
            },
        ),
        Err(error) => Err(error.to_string()),
    }
}

/// Calls `wascc_codec::deserialize` for a `StreamRequest`. The result depends on the bytes alone.
#[verifier::external_body]
pub(crate) fn decode_stream_request(msg: &[u8]) -> (result: Result<StreamRequest, String>)
    ensures
        match result {
            Ok(request) => decoded_stream_request(msg@) == Ok::<StreamRequestView, Seq<char>>(
                request@,
            ),
            Err(text) => decoded_stream_request(msg@) == Err::<StreamRequestView, Seq<char>>(text@),
        },
{
    match wascc_codec::deserialize::<wascc_codec::blobstore::StreamRequest>(msg) {
        Ok(r) => Ok(
            StreamRequest { id: r.id, container: r.container, chunk_size: r.chunk_size },
        ),
        Err(error) => Err(error.to_string()),
    }
}

/// Calls `wascc_codec::serialize` for a `Container`. It writes to memory and does not fail, the
/// bytes depend on the value alone, and reading them gives the value back where the length of
/// the id fits.
#[verifier::external_body]
pub(crate) fn encode_container(container: &Container) -> (result: Result<Vec<u8>, String>)
    ensures
        match result {
            Ok(bytes) => {
                &&& bytes@ == encoded_container(container@)
                &&& fits_message(container@.id) ==> decoded_container(bytes@) == Ok::<
                    ContainerView,
                    Seq<char>,
                >(container@)
            },
            Err(_) => false,
        },
{
    let c = wascc_codec::blobstore::Container { id: container.id.clone() };
    wascc_codec::serialize(&c).map_err(|error| error.to_string())
}

/// Calls `wascc_codec::serialize` for a `Blob`. It writes to memory and does not fail, the bytes
/// depend on the value alone, and reading them gives the value back where the lengths of the
/// ids fit.
#[verifier::external_body]
pub(crate) fn encode_blob(blob: &Blob) -> (result: Result<Vec<u8>, String>)
    ensures
        match result {
            Ok(bytes) => {
                &&& bytes@ == encoded_blob(blob@)
                &&& fits_message(blob@.id) && fits_message(blob@.container) ==> decoded_blob(bytes@)
                    == Ok::<BlobView, Seq<char>>(blob@)
            },
            Err(_) => false,
        },
{
    let b = wascc_codec::blobstore::Blob {
        id: blob.id.clone(),
        container: blob.container.clone(),
        byte_size: blob.byte_size,
    };
    wascc_codec::serialize(&b).map_err(|error| error.to_string())
}

/// Calls `wascc_codec::serialize` for a `BlobList`. It writes to memory and does not fail, and
/// the bytes depend on the value alone.
#[verifier::external_body]
pub(crate) fn encode_blob_list(list: BlobList) -> (result: Result<Vec<u8>, String>)
    ensures
        match result {
            Ok(bytes) => bytes@ == encoded_blob_list(list@),
            Err(_) => false,
        },
{
    let blobs = list.blobs.into_iter().map(
        |b|
            wascc_codec::blobstore::Blob {
                id: b.id,
                container: b.container,
                byte_size: b.byte_size,
            },
    ).collect();
    wascc_codec::serialize(&wascc_codec::blobstore::BlobList { blobs }).map_err(
        |error| error.to_string(),
    )
}

/// Calls `wascc_codec::serialize` for a `FileChunk`. It writes to memory and does not fail, the
/// bytes depend on the value alone, and reading them gives the value back where the lengths of
/// the ids and of the chunk fit.
#[verifier::external_body]
pub(crate) fn encode_file_chunk(chunk: FileChunk) -> (result: Result<Vec<u8>, String>)
    ensures
        match result {
            Ok(bytes) => {
                &&& bytes@ == encoded_file_chunk(chunk@)
                &&& fits_message(chunk@.id) && fits_message(chunk@.container)
                    && chunk@.chunk_bytes.len() <= u32::MAX ==> decoded_file_chunk(bytes@) == Ok::<
                    FileChunkView,
                    Seq<char>,
                >(chunk@)
            },
            Err(_) => false,
        },
{
    let c = wascc_codec::blobstore::FileChunk {
        sequence_no: chunk.sequence_no,
        container: chunk.container,
        id: chunk.id,
        total_bytes: chunk.total_bytes,
        chunk_size: chunk.chunk_size,
        chunk_bytes: chunk.chunk_bytes,
    };
    wascc_codec::serialize(&c).map_err(|error| error.to_string())
}

} // verus!
