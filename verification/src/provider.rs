//! The store itself.

use crate::calls::{decode_call, CallError, CallErrorView, Request, RequestView, ROOT_KEY};
use crate::codec::{encode_blob, encode_blob_list, encode_container};
use crate::downloads::{chunk_size_for, plan_transfer};
use crate::names::{sanitize_blob, sanitize_container, sanitize_id};
use crate::paths::StorePath;
use crate::steps::{
    Action, ActionView, DirectoryEntry, EntryView, Event, EventView, Step, StepView, Task, TaskView,
};
use crate::types::{
    Blob, BlobList, BlobView, CapabilityConfiguration, Container, ContainerView, FileChunk,
    FileChunkView, StreamRequest,
};
use crate::uploads::{QueueView, UploadQueue, UploadTable, FIRST_SEQ_NBR};
use vstd::prelude::*;
use vstd::string::StringExecFns;

verus! {

/// The capability that the store offers.
pub const CAPABILITY_ID: &'static str = "wascc:blobstore";

/// The name of the store for people.
pub const PROVIDER_NAME: &'static str = "waSCC Blob Store Provider (File System)";

/// A blob store in a directory: where the directory is, and the uploads under way.
#[derive(Debug)]
pub struct FileSystemProvider {
    rootdir: String,
    upload_chunks: UploadTable,
}

/// What a [`FileSystemProvider`] stands for.
#[verifier::ext_equal]
pub struct StoreView {
    pub root: Seq<char>,
    pub uploads: Map<Seq<char>, QueueView>,
}

impl View for FileSystemProvider {
    type V = StoreView;

    closed spec fn view(&self) -> StoreView {
        StoreView { root: self.rootdir@, uploads: self.upload_chunks@ }
    }
}

/// The key of the upload of a blob by an actor.
pub open spec fn upload_key(actor: Seq<char>, chunk: FileChunkView) -> Seq<char> {
    actor + crate::names::sanitized(chunk.container) + crate::names::sanitized(chunk.id)
}

/// The number of full chunks in the blob that a chunk belongs to.
pub open spec fn total_chunk_count(chunk: FileChunkView) -> u64 {
    chunk.total_bytes / chunk.chunk_size
}

/// The upload that goes by `key`; a fresh one where there is none.
pub open spec fn upload_of(store: StoreView, key: Seq<char>) -> QueueView {
    if store.uploads.contains_key(key) {
        store.uploads[key]
    } else {
        QueueView::fresh()
    }
}

/// The store with the upload `queue` under `key`.
pub open spec fn with_upload(store: StoreView, key: Seq<char>, queue: QueueView) -> StoreView {
    StoreView { root: store.root, uploads: store.uploads.insert(key, queue) }
}

/// The store without an upload under `key`.
pub open spec fn without_upload(store: StoreView, key: Seq<char>) -> StoreView {
    StoreView { root: store.root, uploads: store.uploads.remove(key) }
}

/// An upload that may have something to write: the chunk that is next is appended to the file of
/// its blob. Where it is not there, the call is answered, and the upload is over when exactly the
/// full chunks are written.
pub open spec fn settled(store: StoreView, key: Seq<char>, total_chunk_count: u64) -> (
    StoreView,
    StepView,
) {
    let queue = store.uploads[key];
    if queue.has_ready() {
        let chunk = queue.ready();
        (
            store,
            StepView::Perform {
                action: ActionView::AppendToFile {
                    path: crate::paths::blob_path(
                        store.root,
                        crate::names::sanitized(chunk.container),
                        crate::names::sanitized(chunk.id),
                    ),
                    bytes: chunk.chunk_bytes,
                },
                task: TaskView::ContinueUpload { key, total_chunk_count },
            },
        )
    } else if queue.written() == total_chunk_count {
        (without_upload(store, key), StepView::Reply(Seq::empty()))
    } else {
        (store, StepView::Reply(Seq::empty()))
    }
}

/// A chunk comes: it joins its upload, which may then have something to write.
pub open spec fn chunk_received(store: StoreView, actor: Seq<char>, chunk: FileChunkView) -> (
    StoreView,
    StepView,
) {
    let key = upload_key(actor, chunk);
    settled(
        with_upload(store, key, upload_of(store, key).queued(chunk)),
        key,
        total_chunk_count(chunk),
    )
}

/// A write of the next chunk of an upload took `count` bytes: unless that is the whole chunk, the
/// call fails and the chunk stays; else the upload goes on to the next one.
pub open spec fn chunk_appended(
    store: StoreView,
    key: Seq<char>,
    total_chunk_count: u64,
    count: usize,
) -> (StoreView, Result<StepView, CallErrorView>) {
    let queue = store.uploads[key];
    let size = queue.ready().chunk_bytes.len();
    if count != size {
        (
            store,
            Err(CallErrorView::ShortWrite { written: count, expected: size as usize }),
        )
    } else {
        let (after, step) = settled(
            with_upload(store, key, queue.advanced()),
            key,
            total_chunk_count,
        );
        (after, Ok(step))
    }
}

/// What there is to know of a blob whose file has the given size, or does not exist.
pub open spec fn object_info(blob: BlobView, byte_size: Option<u64>) -> BlobView {
    match byte_size {
        Some(n) => BlobView { id: blob.id, container: blob.container, byte_size: n },
        None => BlobView { id: "none"@, container: "none"@, byte_size: 0 },
    }
}

/// The blobs in a container whose directory holds the entries; those that could not be read are
/// left out.
pub open spec fn listed_blobs(container: Seq<char>, entries: Seq<Option<EntryView>>) -> Seq<BlobView>
    decreases entries.len(),
{
    if entries.len() == 0 {
        Seq::empty()
    } else {
        let front = listed_blobs(container, entries.drop_last());
        match entries.last() {
            Some(entry) => front.push(
                BlobView { id: entry.name, container, byte_size: entry.byte_size },
            ),
            None => front,
        }
    }
}

/// The store and the first step of an acceptable request.
pub open spec fn begun(store: StoreView, actor: Seq<char>, request: RequestView) -> (
    StoreView,
    StepView,
) {
    match request {
        RequestView::Configure(config) => (
            StoreView { root: config.values[ROOT_KEY@], uploads: store.uploads },
            StepView::Reply(Seq::empty()),
        ),
        RequestView::RemoveActor => (store, StepView::Reply(Seq::empty())),
        RequestView::CreateContainer(container) => {
            let safe = crate::names::sanitized_container(container);
            (
                store,
                StepView::Perform {
                    action: ActionView::CreateDirectories(
                        crate::paths::container_path(store.root, safe.id),
                    ),
                    task: TaskView::ReportContainer(safe),
                },
            )
        },
        RequestView::RemoveContainer(container) => {
            let safe = crate::names::sanitized_container(container);
            (
                store,
                StepView::Perform {
                    action: ActionView::RemoveDirectory(
                        crate::paths::container_path(store.root, safe.id),
                    ),
                    task: TaskView::Acknowledge,
                },
            )
        },
        RequestView::RemoveObject(blob) => {
            let safe = crate::names::sanitized_blob(blob);
            (
                store,
                StepView::Perform {
                    action: ActionView::RemoveFile(
                        crate::paths::blob_path(store.root, safe.container, safe.id),
                    ),
                    task: TaskView::Acknowledge,
                },
            )
        },
        RequestView::ListObjects(container) => {
            let safe = crate::names::sanitized_container(container);
            (
                store,
                StepView::Perform {
                    action: ActionView::ListDirectory(
                        crate::paths::container_path(store.root, safe.id),
                    ),
                    task: TaskView::ReportBlobs(safe),
                },
            )
        },
        RequestView::UploadChunk(chunk) => chunk_received(store, actor, chunk),
        RequestView::StartDownload(request) => (
            store,
            StepView::Perform {
                action: ActionView::OpenFile(
                    crate::paths::blob_path(
                        store.root,
                        crate::names::sanitized(request.container),
                        crate::names::sanitized(request.id),
                    ),
                ),
                task: TaskView::StreamBlob { actor, request },
            },
        ),
        RequestView::StartUpload(chunk) => (
            store,
            StepView::Perform {
                action: ActionView::WriteEmptyFile(
                    crate::paths::blob_path(
                        store.root,
                        crate::names::sanitized(chunk.container),
                        crate::names::sanitized(chunk.id),
                    ),
                ),
                task: TaskView::Acknowledge,
            },
        ),
        RequestView::GetObjectInfo(blob) => {
            let safe = crate::names::sanitized_blob(blob);
            (
                store,
                StepView::Perform {
                    action: ActionView::MeasureFile(
                        crate::paths::blob_path(store.root, safe.container, safe.id),
                    ),
                    task: TaskView::ReportBlob(safe),
                },
            )
        },
    }
}

/// Whether the event is one that the action of the task can come to. A write belongs to an upload
/// that has a chunk to write, and whose numbers do not run out with it; the chunks of a download
/// have a size.
pub open spec fn fits(store: StoreView, task: TaskView, event: EventView) -> bool {
    match (task, event) {
        (TaskView::Acknowledge, EventView::Done) => true,
        (TaskView::ReportContainer(_), EventView::Done) => true,
        (TaskView::ReportBlob(_), EventView::Measured(_)) => true,
        (TaskView::ReportBlobs(_), EventView::Listed(_)) => true,
        (TaskView::ContinueUpload { key, total_chunk_count }, EventView::Appended(count)) => {
            &&& store.uploads.contains_key(key)
            &&& store.uploads[key].has_ready()
            &&& count == store.uploads[key].ready().chunk_bytes.len() ==> store.uploads[key].expected
                < u64::MAX
        },
        (
            TaskView::StreamBlob { actor, request },
            EventView::Opened { byte_size, default_chunk_size },
        ) => crate::downloads::effective_chunk_size(request.chunk_size, default_chunk_size) != 0,
        _ => false,
    }
}

/// The store and the next step when the action of the task came to the event, or why the call
/// fails.
pub open spec fn resumed(store: StoreView, task: TaskView, event: EventView) -> (
    StoreView,
    Result<StepView, CallErrorView>,
) {
    match (task, event) {
        (TaskView::ReportContainer(container), EventView::Done) => (
            store,
            Ok(StepView::Reply(crate::codec::encoded_container(container))),
        ),
        (TaskView::ReportBlob(blob), EventView::Measured(byte_size)) => (
            store,
            Ok(StepView::Reply(crate::codec::encoded_blob(object_info(blob, byte_size)))),
        ),
        (TaskView::ReportBlobs(container), EventView::Listed(entries)) => (
            store,
            Ok(
                StepView::Reply(
                    crate::codec::encoded_blob_list(listed_blobs(container.id, entries)),
                ),
            ),
        ),
        (TaskView::ContinueUpload { key, total_chunk_count }, EventView::Appended(count)) =>
            chunk_appended(store, key, total_chunk_count, count),
        (
            TaskView::StreamBlob { actor, request },
            EventView::Opened { byte_size, default_chunk_size },
        ) => (
            store,
            Ok(
                StepView::Stream {
                    actor,
                    transfer: crate::downloads::planned_transfer(
                        request,
                        byte_size,
                        default_chunk_size,
                    ),
                },
            ),
        ),
        _ => (store, Ok(StepView::Reply(Seq::empty()))),
    }
}

/// What a step or an error stands for.
pub open spec fn step_view(result: Result<Step, CallError>) -> Result<StepView, CallErrorView> {
    match result {
        Ok(step) => Ok(step@),
        Err(error) => Err(error@),
    }
}

impl Default for FileSystemProvider {
    /// A store whose root is the empty path, without uploads.
    fn default() -> (provider: Self)
        ensures
            provider.wf(),
            provider@ == (StoreView { root: Seq::empty(), uploads: Map::empty() }),
    {
        FileSystemProvider { rootdir: String::new(), upload_chunks: UploadTable::new() }
    }
}

impl FileSystemProvider {
    /// The uploads are in order.
    pub closed spec fn wf(&self) -> bool {
        self.upload_chunks.wf()
    }

    /// A store whose root is the empty path, without uploads.
    pub fn new() -> (provider: Self)
        ensures
            provider.wf(),
            provider@ == (StoreView { root: Seq::empty(), uploads: Map::empty() }),
    {
        Self::default()
    }

    /// The capability that the store offers.
    pub fn capability_id(&self) -> (id: &'static str)
        ensures
            id@ == CAPABILITY_ID@,
            id@ == "wascc:blobstore"@,
    {
        CAPABILITY_ID
    }

    /// The name of the store for people.
    pub fn name(&self) -> (name: &'static str)
        ensures
            name@ == PROVIDER_NAME@,
            name@ == "waSCC Blob Store Provider (File System)"@,
    {
        PROVIDER_NAME
    }

    /// The number of uploads under way.
    pub fn pending_uploads(&self) -> (n: usize)
        requires
            self.wf(),
        ensures
            n == self@.uploads.dom().len(),
    {
        self.upload_chunks.len()
    }

    /// The path of a container that goes by the name it is stored under.
    pub fn container_to_path(&self, container: &Container) -> (path: StorePath)
        ensures
            path@ == crate::paths::container_path(self@.root, container@.id),
    {
        StorePath::of_container(self.rootdir.as_str(), container.id.as_str())
    }

    /// The path of a blob that goes by the names it is stored under.
    pub fn blob_to_path(&self, blob: &Blob) -> (path: StorePath)
        ensures
            path@ == crate::paths::blob_path(self@.root, blob@.container, blob@.id),
    {
        StorePath::of_blob(self.rootdir.as_str(), blob.container.as_str(), blob.id.as_str())
    }

    /// Moves the root directory to where the configuration says.
    pub fn configure(&mut self, config: CapabilityConfiguration) -> (step: Step)
        requires
            old(self).wf(),
            RequestView::Configure(config@).is_acceptable(),
        ensures
            final(self).wf(),
            final(self)@ == (StoreView {
                root: config@.values[ROOT_KEY@],
                uploads: old(self)@.uploads,
            }),
            final(self)@.root == config@.values["ROOT"@],
            step@ == StepView::Reply(Seq::empty()),
            step matches Step::Reply(bytes) && bytes@.len() == 0,
    {
        match config.value(ROOT_KEY) {
            Some(root) => {
                self.rootdir = root;
            },
            None => {},
        }
        Step::Reply(Vec::new())
    }

    /// Creates the directory of a container.
    pub fn create_container(&self, _actor: &str, container: Container) -> (step: Step)
        ensures
            step@ == begun(self@, _actor@, RequestView::CreateContainer(container@)).1,
            step matches Step::Perform { action: Action::CreateDirectories(path), task: Task::ReportContainer(answer) }
                && path@.root == self@.root && path@.names == seq![
                crate::names::sanitized(container.id@),
            ] && answer.id@ == crate::names::sanitized(container.id@),
    {
        let container = sanitize_container(&container);
        let path = self.container_to_path(&container);
        Step::Perform {
            action: Action::CreateDirectories(path),
            task: Task::ReportContainer(container),
        }
    }

    /// Removes the directory of a container.
    pub fn remove_container(&self, _actor: &str, container: Container) -> (step: Step)
        ensures
            step@ == begun(self@, _actor@, RequestView::RemoveContainer(container@)).1,
            step matches Step::Perform { action: Action::RemoveDirectory(path), task: Task::Acknowledge }
                && path@.root == self@.root && path@.names == seq![
                crate::names::sanitized(container.id@),
            ],
    {
        let container = sanitize_container(&container);
        let path = self.container_to_path(&container);
        Step::Perform { action: Action::RemoveDirectory(path), task: Task::Acknowledge }
    }

    /// Creates the empty file of a blob, to which its chunks will be appended.
    pub fn start_upload(&self, _actor: &str, blob: FileChunk) -> (step: Step)
        ensures
            step@ == begun(self@, _actor@, RequestView::StartUpload(blob@)).1,
            step matches Step::Perform { action: Action::WriteEmptyFile(path), task: Task::Acknowledge }
                && path@.root == self@.root && path@.names == seq![
                crate::names::sanitized(blob.container@),
                crate::names::sanitized(blob.id@),
            ],
    {
        let blob = Blob { byte_size: 0, id: blob.id, container: blob.container };
        let blob = sanitize_blob(&blob);
        let path = self.blob_to_path(&blob);
        Step::Perform { action: Action::WriteEmptyFile(path), task: Task::Acknowledge }
    }

    /// Removes the file of a blob.
    pub fn remove_object(&self, _actor: &str, blob: Blob) -> (step: Step)
        ensures
            step@ == begun(self@, _actor@, RequestView::RemoveObject(blob@)).1,
            step matches Step::Perform { action: Action::RemoveFile(path), task: Task::Acknowledge }
                && path@.root == self@.root && path@.names == seq![
                crate::names::sanitized(blob.container@),
                crate::names::sanitized(blob.id@),
            ],
    {
        let blob = sanitize_blob(&blob);
        let path = self.blob_to_path(&blob);
        Step::Perform { action: Action::RemoveFile(path), task: Task::Acknowledge }
    }

    /// Asks for the size of the file of a blob.
    pub fn get_object_info(&self, _actor: &str, blob: Blob) -> (step: Step)
        ensures
            step@ == begun(self@, _actor@, RequestView::GetObjectInfo(blob@)).1,
            step matches Step::Perform { action: Action::MeasureFile(path), task: Task::ReportBlob(answer) }
                && path@.root == self@.root && path@.names == seq![
                crate::names::sanitized(blob.container@),
                crate::names::sanitized(blob.id@),
            ] && answer.id@ == crate::names::sanitized(blob.id@)
                && answer.container@ == crate::names::sanitized(blob.container@),
    {
        let blob = sanitize_blob(&blob);
        let path = self.blob_to_path(&blob);
        Step::Perform { action: Action::MeasureFile(path), task: Task::ReportBlob(blob) }
    }

    /// Asks for the files in the directory of a container.
    pub fn list_objects(&self, _actor: &str, container: Container) -> (step: Step)
        ensures
            step@ == begun(self@, _actor@, RequestView::ListObjects(container@)).1,
            step matches Step::Perform { action: Action::ListDirectory(path), task: Task::ReportBlobs(answer) }
                && path@.root == self@.root && path@.names == seq![
                crate::names::sanitized(container.id@),
            ] && answer.id@ == crate::names::sanitized(container.id@),
    {
        let container = sanitize_container(&container);
        let path = self.container_to_path(&container);
        Step::Perform { action: Action::ListDirectory(path), task: Task::ReportBlobs(container) }
    }

    /// Opens the file of a blob that is to be sent to the actor.
    pub fn start_download(&self, actor: &str, request: StreamRequest) -> (step: Step)
        ensures
            step@ == begun(self@, actor@, RequestView::StartDownload(request@)).1,
            step matches Step::Perform { action: Action::OpenFile(path), task: Task::StreamBlob { actor: to, request: wanted } }
                && path@.root == self@.root && path@.names == seq![
                crate::names::sanitized(request.container@),
                crate::names::sanitized(request.id@),
            ] && to@ == actor@ && wanted == request,
    {
        let container = sanitize_id(request.container.as_str());
        let id = sanitize_id(request.id.as_str());
        let path = StorePath::of_blob(self.rootdir.as_str(), container.as_str(), id.as_str());
        Step::Perform {
            action: Action::OpenFile(path),
            task: Task::StreamBlob { actor: actor.to_owned(), request },
        }
    }

    /// Takes a chunk of a blob in, and begins to write what can be written.
    pub fn upload_chunk(&mut self, actor: &str, chunk: FileChunk) -> (step: Step)
        requires
            old(self).wf(),
            chunk@.chunk_size != 0,
        ensures
            final(self).wf(),
            (final(self)@, step@) == chunk_received(old(self)@, actor@, chunk@),
    {
        let mut key: String = actor.to_owned();
        key.append(sanitize_id(chunk.container.as_str()).as_str());
        key.append(sanitize_id(chunk.id.as_str()).as_str());
        let total_chunk_count: u64 = chunk.total_bytes / chunk.chunk_size;
        let ghost queued = upload_of(self@, key@).queued(chunk@);
        proof {
            if self@.uploads.contains_key(key@) {
                self.upload_chunks.lemma_expected(key@);
            }
        }
        let mut queue: UploadQueue = match self.upload_chunks.take(key.as_str()) {
            Some(queue) => queue,
            None => UploadQueue::new(),
        };
        queue.push(chunk);
        self.upload_chunks.put(key.clone(), queue);
        assert(self@ == with_upload(old(self)@, key@, queued));
        self.settle(key, total_chunk_count)
    }

    /// The next step of an upload.
    fn settle(&mut self, key: String, total_chunk_count: u64) -> (step: Step)
        requires
            old(self).wf(),
            old(self)@.uploads.contains_key(key@),
        ensures
            final(self).wf(),
            (final(self)@, step@) == settled(old(self)@, key@, total_chunk_count),
    {
        proof {
            self.upload_chunks.lemma_expected(key@);
        }
        let over: bool = match self.upload_chunks.get(key.as_str()) {
            Some(queue) => {
                match queue.ready_index() {
                    Some(i) => {
                        proof {
                            crate::uploads::lemma_position(queue@.pending, queue@.expected);
                        }
                        let chunk = &queue.pending[i];
                        assert(chunk@ == queue@.ready());
                        let container = sanitize_id(chunk.container.as_str());
                        let id = sanitize_id(chunk.id.as_str());
                        let path = StorePath::of_blob(
                            self.rootdir.as_str(),
                            container.as_str(),
                            id.as_str(),
                        );
                        let bytes: Vec<u8> = chunk.chunk_bytes.clone();
                        assert(bytes@ == chunk@.chunk_bytes);
                        return Step::Perform {
                            action: Action::AppendToFile { path, bytes },
                            task: Task::ContinueUpload { key, total_chunk_count },
                        };
                    },
                    None => queue.expected - FIRST_SEQ_NBR == total_chunk_count,
                }
            },
            None => false,
        };
        if over {
            let _ = self.upload_chunks.take(key.as_str());
        }
        Step::Reply(Vec::new())
    }

    /// Goes on with an upload whose next chunk was written: the write took `count` bytes.
    pub fn continue_upload(&mut self, key: String, total_chunk_count: u64, count: usize) -> (result:
        Result<Step, CallError>)
        requires
            old(self).wf(),
            fits(
                old(self)@,
                TaskView::ContinueUpload { key: key@, total_chunk_count },
                EventView::Appended(count),
            ),
        ensures
            final(self).wf(),
            (final(self)@, step_view(result)) == chunk_appended(
                old(self)@,
                key@,
                total_chunk_count,
                count,
            ),
            result is Err <==> count != old(self)@.uploads[key@].ready().chunk_bytes.len(),
            result matches Err(error) ==> (error matches CallError::ShortWrite { written, expected }
                && written == count && expected
                == old(self)@.uploads[key@].ready().chunk_bytes.len()),
    {
        proof {
            self.upload_chunks.lemma_expected(key@);
        }
        let size: usize = match self.next_size(key.as_str()) {
            Some(size) => size,
            None => 0,
        };
        if count != size {
            return Err(CallError::ShortWrite { written: count, expected: size });
        }
        match self.upload_chunks.take(key.as_str()) {
            Some(queue) => {
                let mut queue = queue;
                queue.advance();
                self.upload_chunks.put(key.clone(), queue);
            },
            None => {},
        }
        assert(self@ == with_upload(old(self)@, key@, old(self)@.uploads[key@].advanced()));
        Ok(self.settle(key, total_chunk_count))
    }

    /// The number of bytes in the chunk that the upload is to write next.
    fn next_size(&self, key: &str) -> (size: Option<usize>)
        requires
            self.wf(),
        ensures
            match size {
                Some(n) => {
                    &&& self@.uploads.contains_key(key@)
                    &&& self@.uploads[key@].has_ready()
                    &&& n == self@.uploads[key@].ready().chunk_bytes.len()
                },
                None => !(self@.uploads.contains_key(key@) && self@.uploads[key@].has_ready()),
            },
    {
        match self.upload_chunks.get(key) {
            Some(queue) => match queue.ready_index() {
                Some(i) => {
                    proof {
                        crate::uploads::lemma_position(queue@.pending, queue@.expected);
                    }
                    assert(queue.pending@[i as int]@ == queue@.ready());
                    Some(queue.pending[i].chunk_bytes.len())
                },
                None => None,
            },
            None => None,
        }
    }

    /// The answer to the creation of a container.
    pub fn report_container(container: &Container) -> (result: Result<Step, CallError>)
        ensures
            result matches Ok(Step::Reply(bytes)) && {
                &&& bytes@ == crate::codec::encoded_container(container@)
                &&& crate::codec::fits_message(container@.id) ==> crate::codec::decoded_container(
                    bytes@,
                ) == Ok::<ContainerView, Seq<char>>(container@)
            },
    {
        match encode_container(container) {
            Ok(bytes) => Ok(Step::Reply(bytes)),
            Err(text) => Err(CallError::Codec(text)),
        }
    }

    /// The answer to a question about a blob whose file has the given size, or does not exist.
    pub fn report_blob(blob: Blob, byte_size: Option<u64>) -> (result: Result<Step, CallError>)
        ensures
            result matches Ok(Step::Reply(bytes)) && {
                let info = object_info(blob@, byte_size);
                &&& bytes@ == crate::codec::encoded_blob(info)
                &&& crate::codec::fits_message(info.id) && crate::codec::fits_message(info.container)
                    ==> crate::codec::decoded_blob(bytes@) == Ok::<BlobView, Seq<char>>(info)
            },
            byte_size matches Some(n) ==> crate::codec::fits_message(blob.id@)
                && crate::codec::fits_message(blob.container@) ==> (result matches Ok(
                Step::Reply(bytes),
            ) && crate::codec::decoded_blob(bytes@) matches Ok(answer) && {
                &&& answer.id == blob.id@
                &&& answer.container == blob.container@
                &&& answer.byte_size == n
            }),
            byte_size is None ==> (result matches Ok(Step::Reply(bytes))
                && crate::codec::decoded_blob(bytes@) matches Ok(answer) && {
                &&& answer.id == "none"@
                &&& answer.container == "none"@
                &&& answer.byte_size == 0
            }),
    {
        proof {
            reveal_strlit("none");
        }
        let info: Blob = match byte_size {
            Some(n) => Blob { id: blob.id, container: blob.container, byte_size: n },
            None => Blob { id: "none".to_owned(), container: "none".to_owned(), byte_size: 0 },
        };
        assert(info@ == object_info(blob@, byte_size));
        match encode_blob(&info) {
            Ok(bytes) => Ok(Step::Reply(bytes)),
            Err(text) => Err(CallError::Codec(text)),
        }
    }

    /// The blobs in a container whose directory holds the entries.
    pub fn list_blobs(container: &Container, entries: Vec<Option<DirectoryEntry>>) -> (list: BlobList)
        ensures
            list@ == listed_blobs(
                container@.id,
                entries@.map_values(|entry: Option<DirectoryEntry>| crate::steps::listed_entry(entry)),
            ),
            list@ == entries@.filter_map(
                |entry: Option<DirectoryEntry>|
                    match entry {
                        Some(e) => Some(
                            BlobView { id: e.name@, container: container.id@, byte_size: e.byte_size },
                        ),
                        None => None,
                    },
            ),
            (forall|i: int| 0 <= i < entries@.len() ==> entries@[i] is Some) ==> {
                &&& list.blobs@.len() == entries@.len()
                &&& forall|i: int|
                    0 <= i < entries@.len() ==> {
                        &&& (#[trigger] list.blobs@[i]).id@ == entries@[i]->Some_0.name@
                        &&& list.blobs@[i].container@ == container.id@
                        &&& list.blobs@[i].byte_size == entries@[i]->Some_0.byte_size
                    }
            },
    {
        let ghost listed = entries@.map_values(
            |entry: Option<DirectoryEntry>| crate::steps::listed_entry(entry),
        );
        let ghost blob_of = |entry: Option<DirectoryEntry>|
            match entry {
                Some(e) => Some(
                    BlobView { id: e.name@, container: container.id@, byte_size: e.byte_size },
                ),
                None => None,
            };
        let mut list = BlobList { blobs: Vec::new() };
        for i in 0..entries.len()
            invariant
                listed == entries@.map_values(
                    |entry: Option<DirectoryEntry>| crate::steps::listed_entry(entry),
                ),
                list@ == listed_blobs(container@.id, listed.take(i as int)),
                list@ == entries@.take(i as int).filter_map(blob_of),
                blob_of == (|entry: Option<DirectoryEntry>|
                    match entry {
                        Some(e) => Some(
                            BlobView { id: e.name@, container: container.id@, byte_size: e.byte_size },
                        ),
                        None => None,
                    }),
                (forall|j: int| 0 <= j < entries@.len() ==> entries@[j] is Some) ==> {
                    &&& list.blobs@.len() == i
                    &&& forall|j: int|
                        0 <= j < i ==> {
                            &&& (#[trigger] list.blobs@[j]).id@ == entries@[j]->Some_0.name@
                            &&& list.blobs@[j].container@ == container.id@
                            &&& list.blobs@[j].byte_size == entries@[j]->Some_0.byte_size
                        }
                },
        {
            proof {
                entries@.lemma_filter_map_take_succ(blob_of, i as int);
            }
            let ghost before = list@;
            assert(listed.take(i + 1).drop_last() == listed.take(i as int));
            assert(listed.take(i + 1).last() == crate::steps::listed_entry(entries@[i as int]));
            match &entries[i] {
                Some(entry) => {
                    let blob = Blob {
                        id: entry.name.clone(),
                        container: container.id.clone(),
                        byte_size: entry.byte_size,
                    };
                    let ghost view = blob@;
                    list.blobs.push(blob);
                    assert(list@ == before.push(view));
                },
                None => {},
            }
        }
        assert(listed.take(listed.len() as int) == listed);
        assert(entries@.take(entries@.len() as int) == entries@);
        list
    }

    /// The answer to the listing of a container whose directory holds the entries.
    pub fn report_blobs(container: &Container, entries: Vec<Option<DirectoryEntry>>) -> (result: Result<
        Step,
        CallError,
    >)
        ensures
            result matches Ok(Step::Reply(bytes)) && bytes@ == crate::codec::encoded_blob_list(
                listed_blobs(
                    container@.id,
                    entries@.map_values(
                        |entry: Option<DirectoryEntry>| crate::steps::listed_entry(entry),
                    ),
                ),
            ),
            result matches Ok(Step::Reply(bytes)) && bytes@ == crate::codec::encoded_blob_list(
                entries@.filter_map(
                    |entry: Option<DirectoryEntry>|
                        match entry {
                            Some(e) => Some(
                                BlobView {
                                    id: e.name@,
                                    container: container.id@,
                                    byte_size: e.byte_size,
                                },
                            ),
                            None => None,
                        },
                ),
            ),
    {
        match encode_blob_list(Self::list_blobs(container, entries)) {
            Ok(bytes) => Ok(Step::Reply(bytes)),
            Err(text) => Err(CallError::Codec(text)),
        }
    }

    /// Begins to carry a request out.
    pub fn begin(&mut self, actor: &str, request: Request) -> (step: Step)
        requires
            old(self).wf(),
            request@.is_acceptable(),
        ensures
            final(self).wf(),
            (final(self)@, step@) == begun(old(self)@, actor@, request@),
    {
        match request {
            Request::Configure(config) => self.configure(config),
            Request::RemoveActor => Step::Reply(Vec::new()),
            Request::CreateContainer(container) => self.create_container(actor, container),
            Request::RemoveContainer(container) => self.remove_container(actor, container),
            Request::RemoveObject(blob) => self.remove_object(actor, blob),
            Request::ListObjects(container) => self.list_objects(actor, container),
            Request::UploadChunk(chunk) => self.upload_chunk(actor, chunk),
            Request::StartDownload(request) => self.start_download(actor, request),
            Request::StartUpload(chunk) => self.start_upload(actor, chunk),
            Request::GetObjectInfo(blob) => self.get_object_info(actor, blob),
        }
    }

    /// Whether the event is one that the action of the task can come to.
    pub fn accepts(&self, task: &Task, event: &Event) -> (fit: bool)
        requires
            self.wf(),
        ensures
            fit == fits(self@, task@, event@),
    {
        match (task, event) {
            (Task::Acknowledge, Event::Done) => true,
            (Task::ReportContainer(_), Event::Done) => true,
            (Task::ReportBlob(_), Event::Measured(_)) => true,
            (Task::ReportBlobs(_), Event::Listed(_)) => true,
            (Task::ContinueUpload { key, total_chunk_count: _ }, Event::Appended(count)) => {
                match (self.next_size(key.as_str()), self.upload_chunks.get(key.as_str())) {
                    (Some(size), Some(queue)) => *count != size || queue.expected < u64::MAX,
                    _ => false,
                }
            },
            (
                Task::StreamBlob { actor: _, request },
                Event::Opened { byte_size: _, default_chunk_size },
            ) => chunk_size_for(request.chunk_size, *default_chunk_size) != 0,
            _ => false,
        }
    }

    /// Goes on with a call when the action of the task came to the event. An action that fails
    /// ends the call, and nothing else has to be undone.
    pub fn resume(&mut self, task: Task, event: Event) -> (result: Result<Step, CallError>)
        requires
            old(self).wf(),
            fits(old(self)@, task@, event@),
        ensures
            final(self).wf(),
            (final(self)@, step_view(result)) == resumed(old(self)@, task@, event@),
            task@ matches TaskView::ReportContainer(container) ==> crate::codec::fits_message(
                container.id,
            ) ==> (result matches Ok(Step::Reply(bytes)) && crate::codec::decoded_container(bytes@)
                == Ok::<ContainerView, Seq<char>>(container)),
            task@ matches TaskView::ReportBlob(blob) ==> event@ matches EventView::Measured(byte_size)
                ==> crate::codec::fits_message(blob.id) && crate::codec::fits_message(blob.container)
                ==> (result matches Ok(Step::Reply(bytes)) && crate::codec::decoded_blob(bytes@)
                == Ok::<BlobView, Seq<char>>(object_info(blob, byte_size))),
            task@ matches TaskView::ReportBlob(blob) ==> event@ matches EventView::Measured(Some(n))
                ==> crate::codec::fits_message(blob.id) && crate::codec::fits_message(blob.container)
                ==> (result matches Ok(Step::Reply(bytes)) && crate::codec::decoded_blob(
                bytes@,
            ) matches Ok(answer) && {
                &&& answer.id == blob.id
                &&& answer.container == blob.container
                &&& answer.byte_size == n
            }),
            task matches Task::ReportBlobs(container) ==> event matches Event::Listed(entries) ==> (
            result matches Ok(Step::Reply(bytes)) && bytes@ == crate::codec::encoded_blob_list(
                entries@.filter_map(
                    |entry: Option<DirectoryEntry>|
                        match entry {
                            Some(e) => Some(
                                BlobView {
                                    id: e.name@,
                                    container: container.id@,
                                    byte_size: e.byte_size,
                                },
                            ),
                            None => None,
                        },
                ),
            )),
            task matches Task::StreamBlob { actor, request } ==> event matches Event::Opened {
                byte_size,
                default_chunk_size,
            } ==> (result matches Ok(Step::Stream { actor: to, transfer }) && {
                &&& to == actor
                &&& transfer.blob_id@ == crate::names::sanitized(request.id@)
                &&& transfer.container@ == crate::names::sanitized(request.container@)
                &&& transfer.total_size == byte_size
                &&& request.chunk_size == 0 ==> transfer.chunk_size == default_chunk_size
                &&& 0 < request.chunk_size <= usize::MAX ==> transfer.chunk_size
                    == request.chunk_size
                &&& transfer.total_chunks == byte_size / transfer.chunk_size
            }),
            task@ is ReportBlob && event@ == EventView::Measured(None) ==> (result matches Ok(
                Step::Reply(bytes),
            ) && crate::codec::decoded_blob(bytes@) matches Ok(answer) && {
                &&& answer.id == "none"@
                &&& answer.container == "none"@
                &&& answer.byte_size == 0
            }),
    {
        proof {
            reveal_strlit("none");
        }
        match (task, event) {
            (Task::ReportContainer(container), Event::Done) => Self::report_container(&container),
            (Task::ReportBlob(blob), Event::Measured(byte_size)) => Self::report_blob(
                blob,
                byte_size,
            ),
            (Task::ReportBlobs(container), Event::Listed(entries)) => Self::report_blobs(
                &container,
                entries,
            ),
            (Task::ContinueUpload { key, total_chunk_count }, Event::Appended(count)) =>
                self.continue_upload(key, total_chunk_count, count),
            (
                Task::StreamBlob { actor, request },
                Event::Opened { byte_size, default_chunk_size },
            ) => {
                let transfer = plan_transfer(&request, byte_size, default_chunk_size);
                Ok(Step::Stream { actor, transfer })
            },
            _ => Ok(Step::Reply(Vec::new())),
        }
    }

    /// Handles the call of operation `op` by `actor` with the message `msg` up to its first step.
    /// There is none for a request that cannot be carried out at all, and the store is as it was.
    pub fn handle_call(&mut self, actor: &str, op: &str, msg: &[u8]) -> (result: Option<
        Result<Step, CallError>,
    >)
        requires
            old(self).wf(),
        ensures
            final(self).wf(),
            match crate::calls::called(actor@, op@, msg@) {
                Ok(request) => if request.is_acceptable() {
                    &&& result matches Some(Ok(step))
                    &&& (final(self)@, step@) == begun(old(self)@, actor@, request)
                } else {
                    result is None && final(self)@ == old(self)@
                },
                Err(error) => {
                    &&& result matches Some(Err(e))
                    &&& e@ == error
                    &&& final(self)@ == old(self)@
                },
            },
    {
        match decode_call(actor, op, msg) {
            Ok(request) => {
                if request.is_acceptable() {
                    Some(Ok(self.begin(actor, request)))
                } else {
                    None
                }
            },
            Err(error) => Some(Err(error)),
        }
    }
}

} // verus!
