//! Calls of actors: which operation is meant, and the message that comes with it.

use crate::codec::{
    decode_blob, decode_configuration, decode_container, decode_file_chunk, decode_stream_request,
};
use crate::text::{same_text, to_decimal};
use crate::types::{
    Blob, BlobView, CapabilityConfiguration, ConfigurationView, Container, ContainerView, FileChunk,
    FileChunkView, StreamRequest, StreamRequestView,
};
use vstd::prelude::*;
use vstd::string::StringExecFns;

verus! {

/// The actor that the host itself goes by.
pub const SYSTEM_ACTOR: &'static str = "system";

/// The host binds an actor and hands over the configuration.
pub const OP_BIND_ACTOR: &'static str = "BindActor";

/// The host removes an actor.
pub const OP_REMOVE_ACTOR: &'static str = "RemoveActor";

/// An actor creates a container.
pub const OP_CREATE_CONTAINER: &'static str = "CreateContainer";

/// An actor removes a container.
pub const OP_REMOVE_CONTAINER: &'static str = "RemoveContainer";

/// An actor removes a blob.
pub const OP_REMOVE_OBJECT: &'static str = "RemoveObject";

/// An actor lists the blobs in a container.
pub const OP_LIST_OBJECTS: &'static str = "ListObjects";

/// An actor sends a chunk of a blob.
pub const OP_UPLOAD_CHUNK: &'static str = "UploadChunk";

/// An actor asks to be sent a blob.
pub const OP_START_DOWNLOAD: &'static str = "StartDownload";

/// An actor announces that it will send a blob.
pub const OP_START_UPLOAD: &'static str = "StartUpload";

/// An actor is sent a chunk of a blob.
pub const OP_RECEIVE_CHUNK: &'static str = "ReceiveChunk";

/// An actor asks about a blob.
pub const OP_GET_OBJECT_INFO: &'static str = "GetObjectInfo";

/// The name of the value in the configuration that says where the root directory is.
pub const ROOT_KEY: &'static str = "ROOT";

/// What an actor asks for.
#[derive(Debug, PartialEq, Eq)]
pub enum Request {
    Configure(CapabilityConfiguration),
    RemoveActor,
    CreateContainer(Container),
    RemoveContainer(Container),
    RemoveObject(Blob),
    ListObjects(Container),
    UploadChunk(FileChunk),
    StartDownload(StreamRequest),
    StartUpload(FileChunk),
    GetObjectInfo(Blob),
}

/// What a [`Request`] stands for.
#[verifier::ext_equal]
pub enum RequestView {
    Configure(ConfigurationView),
    RemoveActor,
    CreateContainer(ContainerView),
    RemoveContainer(ContainerView),
    RemoveObject(BlobView),
    ListObjects(ContainerView),
    UploadChunk(FileChunkView),
    StartDownload(StreamRequestView),
    StartUpload(FileChunkView),
    GetObjectInfo(BlobView),
}

impl View for Request {
    type V = RequestView;

    open spec fn view(&self) -> RequestView {
        match self {
            Request::Configure(config) => RequestView::Configure(config@),
            Request::RemoveActor => RequestView::RemoveActor,
            Request::CreateContainer(container) => RequestView::CreateContainer(container@),
            Request::RemoveContainer(container) => RequestView::RemoveContainer(container@),
            Request::RemoveObject(blob) => RequestView::RemoveObject(blob@),
            Request::ListObjects(container) => RequestView::ListObjects(container@),
            Request::UploadChunk(chunk) => RequestView::UploadChunk(chunk@),
            Request::StartDownload(request) => RequestView::StartDownload(request@),
            Request::StartUpload(chunk) => RequestView::StartUpload(chunk@),
            Request::GetObjectInfo(blob) => RequestView::GetObjectInfo(blob@),
        }
    }
}

impl RequestView {
    /// Whether the request can be carried out at all: a configuration names the root directory,
    /// and the chunks of an upload have a size.
    pub open spec fn is_acceptable(self) -> bool {
        match self {
            RequestView::Configure(config) => config.values.contains_key(ROOT_KEY@),
            RequestView::UploadChunk(chunk) => chunk.chunk_size != 0,
            _ => true,
        }
    }
}

impl Request {
    /// Whether the request can be carried out at all.
    pub fn is_acceptable(&self) -> (acceptable: bool)
        ensures
            acceptable == self@.is_acceptable(),
    {
        match self {
            Request::Configure(config) => config.value(ROOT_KEY).is_some(),
            Request::UploadChunk(chunk) => chunk.chunk_size != 0,
            _ => true,
        }
    }
}

/// Why a call is not carried out.
#[derive(Debug, PartialEq, Eq)]
pub enum CallError {
    /// There is no such operation, or not for this actor.
    BadDispatch,
    /// The message cannot be read, for this reason.
    Codec(String),
    /// Only `written` of the `expected` bytes of a chunk were written.
    ShortWrite { written: usize, expected: usize },
}

/// What a [`CallError`] stands for.
#[verifier::ext_equal]
pub enum CallErrorView {
    BadDispatch,
    Codec(Seq<char>),
    ShortWrite { written: usize, expected: usize },
}

impl View for CallError {
    type V = CallErrorView;

    open spec fn view(&self) -> CallErrorView {
        match self {
            CallError::BadDispatch => CallErrorView::BadDispatch,
            CallError::Codec(text) => CallErrorView::Codec(text@),
            CallError::ShortWrite { written, expected } => CallErrorView::ShortWrite {
                written: *written,
                expected: *expected,
            },
        }
    }
}

impl CallErrorView {
    /// The error in words.
    pub open spec fn message(self) -> Seq<char> {
        match self {
            CallErrorView::BadDispatch => "bad dispatch"@,
            CallErrorView::Codec(text) => text,
            CallErrorView::ShortWrite { written, expected } => {
                "Failed to fully write chunk: "@ + crate::text::decimal(written as nat) + " of "@
                    + crate::text::decimal(expected as nat) + " bytes"@
            },
        }
    }
}

impl CallError {
    /// The error in words.
    pub fn message(&self) -> (text: String)
        ensures
            text@ == self@.message(),
    {
        match self {
            CallError::BadDispatch => "bad dispatch".to_owned(),
            CallError::Codec(text) => text.clone(),
            CallError::ShortWrite { written, expected } => {
                let mut text: String = "Failed to fully write chunk: ".to_owned();
                text.append(to_decimal(*written).as_str());
                text.append(" of ");
                text.append(to_decimal(*expected).as_str());
                text.append(" bytes");
                text
            },
        }
    }
}

/// What the call of operation `op` by `actor` with the message `msg` asks for, or why it is
/// refused. Only the host binds and removes actors.
pub open spec fn called(actor: Seq<char>, op: Seq<char>, msg: Seq<u8>) -> Result<
    RequestView,
    CallErrorView,
> {
    if op == OP_BIND_ACTOR@ && actor == SYSTEM_ACTOR@ {
        match crate::codec::decoded_configuration(msg) {
            Ok(config) => Ok(RequestView::Configure(config)),
            Err(text) => Err(CallErrorView::Codec(text)),
        }
    } else if op == OP_REMOVE_ACTOR@ && actor == SYSTEM_ACTOR@ {
        Ok(RequestView::RemoveActor)
    } else if op == OP_CREATE_CONTAINER@ {
        match crate::codec::decoded_container(msg) {
            Ok(container) => Ok(RequestView::CreateContainer(container)),
            Err(text) => Err(CallErrorView::Codec(text)),
        }
    } else if op == OP_REMOVE_CONTAINER@ {
        match crate::codec::decoded_container(msg) {
            Ok(container) => Ok(RequestView::RemoveContainer(container)),
            Err(text) => Err(CallErrorView::Codec(text)),
        }
    } else if op == OP_REMOVE_OBJECT@ {
        match crate::codec::decoded_blob(msg) {
            Ok(blob) => Ok(RequestView::RemoveObject(blob)),
            Err(text) => Err(CallErrorView::Codec(text)),
        }
    } else if op == OP_LIST_OBJECTS@ {
        match crate::codec::decoded_container(msg) {
            Ok(container) => Ok(RequestView::ListObjects(container)),
            Err(text) => Err(CallErrorView::Codec(text)),
        }
    } else if op == OP_UPLOAD_CHUNK@ {
        match crate::codec::decoded_file_chunk(msg) {
            Ok(chunk) => Ok(RequestView::UploadChunk(chunk)),
            Err(text) => Err(CallErrorView::Codec(text)),
        }
    } else if op == OP_START_DOWNLOAD@ {
        match crate::codec::decoded_stream_request(msg) {
            Ok(request) => Ok(RequestView::StartDownload(request)),
            Err(text) => Err(CallErrorView::Codec(text)),
        }
    } else if op == OP_START_UPLOAD@ {
        match crate::codec::decoded_file_chunk(msg) {
            Ok(chunk) => Ok(RequestView::StartUpload(chunk)),
            Err(text) => Err(CallErrorView::Codec(text)),
        }
    } else if op == OP_GET_OBJECT_INFO@ {
        match crate::codec::decoded_blob(msg) {
            Ok(blob) => Ok(RequestView::GetObjectInfo(blob)),
            Err(text) => Err(CallErrorView::Codec(text)),
        }
    } else {
        Err(CallErrorView::BadDispatch)
    }
}

/// What a request or an error stands for.
pub open spec fn request_view(result: Result<Request, CallError>) -> Result<
    RequestView,
    CallErrorView,
> {
    match result {
        Ok(request) => Ok(request@),
        Err(error) => Err(error@),
    }
}

/// What the call of operation `op` by `actor` with the message `msg` asks for, or why it is
/// refused.
pub fn decode_call(actor: &str, op: &str, msg: &[u8]) -> (result: Result<Request, CallError>)
    ensures
        request_view(result) == called(actor@, op@, msg@),
{
    let by_system: bool = same_text(actor, SYSTEM_ACTOR);
    if same_text(op, OP_BIND_ACTOR) && by_system {
        match decode_configuration(msg) {
            Ok(config) => Ok(Request::Configure(config)),
            Err(text) => Err(CallError::Codec(text)),
        }
    } else if same_text(op, OP_REMOVE_ACTOR) && by_system {
        Ok(Request::RemoveActor)
    } else if same_text(op, OP_CREATE_CONTAINER) {
        match decode_container(msg) {
            Ok(container) => Ok(Request::CreateContainer(container)),
            Err(text) => Err(CallError::Codec(text)),
        }
    } else if same_text(op, OP_REMOVE_CONTAINER) {
        match decode_container(msg) {
            Ok(container) => Ok(Request::RemoveContainer(container)),
            Err(text) => Err(CallError::Codec(text)),
        }
    } else if same_text(op, OP_REMOVE_OBJECT) {
        match decode_blob(msg) {
            Ok(blob) => Ok(Request::RemoveObject(blob)),
            Err(text) => Err(CallError::Codec(text)),
        }
    } else if same_text(op, OP_LIST_OBJECTS) {
        match decode_container(msg) {
            Ok(container) => Ok(Request::ListObjects(container)),
            Err(text) => Err(CallError::Codec(text)),
        }
    } else if same_text(op, OP_UPLOAD_CHUNK) {
        match decode_file_chunk(msg) {
            Ok(chunk) => Ok(Request::UploadChunk(chunk)),
            Err(text) => Err(CallError::Codec(text)),
        }
    } else if same_text(op, OP_START_DOWNLOAD) {
        match decode_stream_request(msg) {
            Ok(request) => Ok(Request::StartDownload(request)),
            Err(text) => Err(CallError::Codec(text)),
        }
    } else if same_text(op, OP_START_UPLOAD) {
        match decode_file_chunk(msg) {
            Ok(chunk) => Ok(Request::StartUpload(chunk)),
            Err(text) => Err(CallError::Codec(text)),
        }
    } else if same_text(op, OP_GET_OBJECT_INFO) {
        match decode_blob(msg) {
            Ok(blob) => Ok(Request::GetObjectInfo(blob)),
            Err(text) => Err(CallError::Codec(text)),
        }
    } else {
        Err(CallError::BadDispatch)
    }
}

/// What comes of a message that can be read, or not, as a value of some kind.
pub open spec fn read_as<T>(message: Result<T, Seq<char>>, request: spec_fn(T) -> RequestView) -> Result<
    RequestView,
    CallErrorView,
> {
    match message {
        Ok(value) => Ok(request(value)),
        Err(text) => Err(CallErrorView::Codec(text)),
    }
}

/// Each operation goes by its name, reads its message as what it is about, and asks for what the
/// name says; a message that cannot be read is refused with the reason.
pub proof fn operations_go_by_their_names(actor: Seq<char>, msg: Seq<u8>)
    ensures
        called("system"@, "BindActor"@, msg) == read_as(
            crate::codec::decoded_configuration(msg),
            |config: ConfigurationView| RequestView::Configure(config),
        ),
        called("system"@, "RemoveActor"@, msg) == Ok::<RequestView, CallErrorView>(
            RequestView::RemoveActor,
        ),
        called(actor, "CreateContainer"@, msg) == read_as(
            crate::codec::decoded_container(msg),
            |container: ContainerView| RequestView::CreateContainer(container),
        ),
        called(actor, "RemoveContainer"@, msg) == read_as(
            crate::codec::decoded_container(msg),
            |container: ContainerView| RequestView::RemoveContainer(container),
        ),
        called(actor, "RemoveObject"@, msg) == read_as(
            crate::codec::decoded_blob(msg),
            |blob: BlobView| RequestView::RemoveObject(blob),
        ),
        called(actor, "ListObjects"@, msg) == read_as(
            crate::codec::decoded_container(msg),
            |container: ContainerView| RequestView::ListObjects(container),
        ),
        called(actor, "UploadChunk"@, msg) == read_as(
            crate::codec::decoded_file_chunk(msg),
            |chunk: FileChunkView| RequestView::UploadChunk(chunk),
        ),
        called(actor, "StartDownload"@, msg) == read_as(
            crate::codec::decoded_stream_request(msg),
            |request: StreamRequestView| RequestView::StartDownload(request),
        ),
        called(actor, "StartUpload"@, msg) == read_as(
            crate::codec::decoded_file_chunk(msg),
            |chunk: FileChunkView| RequestView::StartUpload(chunk),
        ),
        called(actor, "GetObjectInfo"@, msg) == read_as(
            crate::codec::decoded_blob(msg),
            |blob: BlobView| RequestView::GetObjectInfo(blob),
        ),
{
    reveal_strlit("BindActor");
    reveal_strlit("RemoveActor");
    reveal_strlit("CreateContainer");
    reveal_strlit("RemoveContainer");
    reveal_strlit("RemoveObject");
    reveal_strlit("ListObjects");
    reveal_strlit("UploadChunk");
    reveal_strlit("StartDownload");
    reveal_strlit("StartUpload");
    reveal_strlit("GetObjectInfo");
    // Names of one length differ in their first letters.
    assert("BindActor"@.len() == 9);
    assert("RemoveActor"@.len() == 11);
    assert("CreateContainer"@.len() == 15);
    assert("RemoveContainer"@.len() == 15);
    assert("RemoveObject"@.len() == 12);
    assert("ListObjects"@.len() == 11);
    assert("UploadChunk"@.len() == 11);
    assert("StartDownload"@.len() == 13);
    assert("StartUpload"@.len() == 11);
    assert("GetObjectInfo"@.len() == 13);
    assert("CreateContainer"@[0] == 'C');
    assert("RemoveContainer"@[0] == 'R');
    assert("RemoveActor"@[0] == 'R');
    assert("ListObjects"@[0] == 'L');
    assert("UploadChunk"@[0] == 'U');
    assert("StartUpload"@[0] == 'S');
    assert("StartDownload"@[0] != "GetObjectInfo"@[0]);
}

/// A call by the name of no operation is refused, and so is a call by anyone but the host that only
/// the host may make.
pub proof fn other_calls_are_refused(actor: Seq<char>, op: Seq<char>, msg: Seq<u8>)
    requires
        op != "CreateContainer"@,
        op != "RemoveContainer"@,
        op != "RemoveObject"@,
        op != "ListObjects"@,
        op != "UploadChunk"@,
        op != "StartDownload"@,
        op != "StartUpload"@,
        op != "GetObjectInfo"@,
        actor == "system"@ ==> op != "BindActor"@ && op != "RemoveActor"@,
    ensures
        called(actor, op, msg) == Err::<RequestView, CallErrorView>(CallErrorView::BadDispatch),
{
}

/// The errors in words: a refusal says so, an unreadable message gives its reason, and a short
/// write tells in decimal how much was written of how much.
pub proof fn errors_say_what_went_wrong(text: Seq<char>, written: usize, expected: usize)
    ensures
        CallErrorView::BadDispatch.message() == "bad dispatch"@,
        CallErrorView::Codec(text).message() == text,
        ({
            let message = CallErrorView::ShortWrite { written, expected }.message();
            let before = "Failed to fully write chunk: "@;
            let between = " of "@;
            let after = " bytes"@;
            exists|done: Seq<char>, due: Seq<char>|
                {
                    &&& message == #[trigger] (before + done + between + due + after)
                    &&& crate::text::number(done) == written
                    &&& crate::text::number(due) == expected
                    &&& done == crate::text::decimal(written as nat)
                    &&& due == crate::text::decimal(expected as nat)
                }
        }),
{
    crate::text::decimal_stands_for_the_number(written as nat);
    crate::text::decimal_stands_for_the_number(expected as nat);
    let done = crate::text::decimal(written as nat);
    let due = crate::text::decimal(expected as nat);
    assert(CallErrorView::ShortWrite { written, expected }.message()
        == "Failed to fully write chunk: "@ + done + " of "@ + due + " bytes"@);
}

} // verus!
