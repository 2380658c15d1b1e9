//! What holds of the store across calls.

use crate::calls::{
    CallErrorView, RequestView, OP_BIND_ACTOR, OP_CREATE_CONTAINER, OP_GET_OBJECT_INFO,
    OP_LIST_OBJECTS, OP_REMOVE_ACTOR, OP_REMOVE_CONTAINER, OP_REMOVE_OBJECT, OP_START_DOWNLOAD,
    OP_START_UPLOAD, OP_UPLOAD_CHUNK, SYSTEM_ACTOR,
};
use crate::paths::PathView;
use crate::provider::StoreView;
use crate::steps::{ActionView, EventView, StepView, TaskView};
use crate::types::{BlobView, ContainerView, FileChunkView, StreamRequestView};
use vstd::prelude::*;

verus! {

/// Whatever an actor asks for, every action that a call begins with stays below the root
/// directory.
pub proof fn first_action_is_confined(store: StoreView, actor: Seq<char>, request: RequestView)
    ensures
        crate::provider::begun(store, actor, request).1 matches StepView::Perform { action, task }
            ==> action.path().is_confined_to(store.root),
{
    match request {
        RequestView::CreateContainer(container) => crate::names::sanitized_is_safe(container.id),
        RequestView::RemoveContainer(container) => crate::names::sanitized_is_safe(container.id),
        RequestView::ListObjects(container) => crate::names::sanitized_is_safe(container.id),
        RequestView::RemoveObject(blob) => {
            crate::names::sanitized_is_safe(blob.id);
            crate::names::sanitized_is_safe(blob.container);
        },
        RequestView::GetObjectInfo(blob) => {
            crate::names::sanitized_is_safe(blob.id);
            crate::names::sanitized_is_safe(blob.container);
        },
        RequestView::StartDownload(wanted) => {
            crate::names::sanitized_is_safe(wanted.id);
            crate::names::sanitized_is_safe(wanted.container);
        },
        RequestView::StartUpload(chunk) => {
            crate::names::sanitized_is_safe(chunk.id);
            crate::names::sanitized_is_safe(chunk.container);
        },
        RequestView::UploadChunk(chunk) => {
            let key = crate::provider::upload_key(actor, chunk);
            let queue = crate::provider::upload_of(store, key).queued(chunk);
            crate::names::sanitized_is_safe(queue.ready().id);
            crate::names::sanitized_is_safe(queue.ready().container);
        },
        _ => {},
    }
}

/// Every action that a call goes on with stays below the root directory.
pub proof fn later_action_is_confined(store: StoreView, task: TaskView, event: EventView)
    ensures
        crate::provider::resumed(store, task, event).1 matches Ok(
            StepView::Perform { action, task: next },
        ) ==> action.path().is_confined_to(store.root),
{
    match task {
        TaskView::ContinueUpload { key, total_chunk_count } => {
            let queue = store.uploads[key].advanced();
            crate::names::sanitized_is_safe(queue.ready().id);
            crate::names::sanitized_is_safe(queue.ready().container);
        },
        _ => {},
    }
}

/// Beginning, appending to, opening, measuring and removing a blob are about one and the same
/// file, and the names under which the blob is stored lead to it as well.
pub proof fn one_blob_has_one_file(
    store: StoreView,
    actor: Seq<char>,
    chunk: FileChunkView,
    wanted: StreamRequestView,
    blob: BlobView,
)
    requires
        wanted.container == chunk.container,
        wanted.id == chunk.id,
        blob.container == chunk.container,
        blob.id == chunk.id,
    ensures
        ({
            let path = crate::paths::blob_path(
                store.root,
                crate::names::sanitized(chunk.container),
                crate::names::sanitized(chunk.id),
            );
            &&& about(crate::provider::begun(store, actor, RequestView::StartUpload(chunk)).1) == path
            &&& about(crate::provider::begun(store, actor, RequestView::StartDownload(wanted)).1)
                == path
            &&& about(crate::provider::begun(store, actor, RequestView::GetObjectInfo(blob)).1) == path
            &&& about(crate::provider::begun(store, actor, RequestView::RemoveObject(blob)).1) == path
            &&& about(
                crate::provider::begun(
                    store,
                    actor,
                    RequestView::RemoveObject(crate::names::sanitized_blob(blob)),
                ).1,
            ) == path
            &&& crate::assembly::append_action(store.root, chunk).path() == path
        }),
{
    crate::names::sanitizing_is_idempotent(blob.id);
    crate::names::sanitizing_is_idempotent(blob.container);
}

/// The container that answers its creation leads to the directory that was created.
pub proof fn created_container_is_found_again(
    store: StoreView,
    actor: Seq<char>,
    container: ContainerView,
)
    ensures
        crate::provider::begun(store, actor, RequestView::CreateContainer(container)).1 matches StepView::Perform {
            action: ActionView::CreateDirectories(path),
            task: TaskView::ReportContainer(answer),
        } && {
            &&& about(crate::provider::begun(store, actor, RequestView::ListObjects(answer)).1) == path
            &&& about(crate::provider::begun(store, actor, RequestView::RemoveContainer(answer)).1)
                == path
        },
{
    crate::names::sanitizing_is_idempotent(container.id);
}

/// The path that the action of a step is about.
pub open spec fn about(step: StepView) -> PathView {
    match step {
        StepView::Perform { action, task } => action.path(),
        _ => arbitrary(),
    }
}

/// Only the host moves the root directory.
pub proof fn only_the_host_configures(
    store: StoreView,
    actor: Seq<char>,
    op: Seq<char>,
    msg: Seq<u8>,
)
    requires
        actor != SYSTEM_ACTOR@,
    ensures
        crate::calls::called(actor, op, msg) matches Ok(request) ==> crate::provider::begun(
            store,
            actor,
            request,
        ).0.root == store.root,
{
}

/// The operations that the store offers to the actor.
pub open spec fn is_offered(actor: Seq<char>, op: Seq<char>) -> bool {
    ||| actor == SYSTEM_ACTOR@ && op == OP_BIND_ACTOR@
    ||| actor == SYSTEM_ACTOR@ && op == OP_REMOVE_ACTOR@
    ||| op == OP_CREATE_CONTAINER@
    ||| op == OP_REMOVE_CONTAINER@
    ||| op == OP_REMOVE_OBJECT@
    ||| op == OP_LIST_OBJECTS@
    ||| op == OP_UPLOAD_CHUNK@
    ||| op == OP_START_DOWNLOAD@
    ||| op == OP_START_UPLOAD@
    ||| op == OP_GET_OBJECT_INFO@
}

/// A call is refused whatever its message says exactly where the operation is not offered to the
/// actor.
pub proof fn what_is_not_offered_is_refused(actor: Seq<char>, op: Seq<char>, msg: Seq<u8>)
    ensures
        crate::calls::called(actor, op, msg) == Err::<RequestView, CallErrorView>(
            CallErrorView::BadDispatch,
        ) <==> !is_offered(actor, op),
{
}

/// What only the host may ask for is refused to everyone else.
pub proof fn host_operations_are_refused_to_actors(
    actor: Seq<char>,
    op: Seq<char>,
    msg: Seq<u8>,
)
    requires
        actor != SYSTEM_ACTOR@,
        op == OP_BIND_ACTOR@ || op == OP_REMOVE_ACTOR@,
    ensures
        crate::calls::called(actor, op, msg) == Err::<RequestView, CallErrorView>(
            CallErrorView::BadDispatch,
        ),
{
    reveal_strlit("BindActor");
    reveal_strlit("RemoveActor");
    reveal_strlit("CreateContainer");
    reveal_strlit("RemoveContainer");
    reveal_strlit("RemoveObject");
    reveal_strlit("ListObjects");
    reveal_strlit("UploadChunk");
    reveal_strlit("StartDownload");
    reveal_strlit("StartUpload");
    reveal_strlit("GetObjectInfo");
    assert(op[0] == 'B' || op[6] == 'A');
    assert(OP_REMOVE_CONTAINER@[6] == 'C');
    assert(OP_REMOVE_OBJECT@[6] == 'O');
    assert(OP_CREATE_CONTAINER@[0] == 'C');
    assert(OP_LIST_OBJECTS@[0] == 'L');
    assert(OP_UPLOAD_CHUNK@[0] == 'U');
    assert(OP_START_DOWNLOAD@[0] == 'S');
    assert(OP_START_UPLOAD@[0] == 'S');
    assert(OP_GET_OBJECT_INFO@[0] == 'G');
    assert(OP_BIND_ACTOR@[0] == 'B');
    assert(OP_REMOVE_ACTOR@[0] == 'R');
}

} // verus!
