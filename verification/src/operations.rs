//! What each operation comes to, from the call to its answer.

use crate::assembly::{bytes_in_order, performed, performed_all};
use crate::calls::{CallErrorView, RequestView};
use crate::codec::{encoded_blob, encoded_blob_list, encoded_container};
use crate::downloads::{piece, put_together, sent_chunk};
use crate::interleaving::{
    chunks_of, is_whole_blob, keys_of, nothing_waits_for, served, SentChunk, UploadNames,
};
use crate::names::sanitized;
use crate::paths::PathView;
use crate::provider::{begun, listed_blobs, resumed, StoreView};
use crate::steps::{ActionView, EntryView, EventView, StepView, TaskView};
use crate::types::{
    BlobView, ConfigurationView, ContainerView, FileChunkView, StreamRequestView, TransferView,
};
use vstd::prelude::*;

verus! {

/// What an action that only looks at files finds.
pub open spec fn found(
    files: Map<PathView, Seq<u8>>,
    action: ActionView,
    default_chunk_size: usize,
) -> EventView {
    match action {
        ActionView::MeasureFile(path) => EventView::Measured(
            if files.contains_key(path) {
                Some(files[path].len() as u64)
            } else {
                None
            },
        ),
        ActionView::OpenFile(path) => EventView::Opened {
            byte_size: files[path].len() as u64,
            default_chunk_size,
        },
        _ => EventView::Done,
    }
}

/// The directories after an action that did not fail.
pub open spec fn arranged(directories: Set<PathView>, action: ActionView) -> Set<PathView> {
    match action {
        ActionView::CreateDirectories(path) => directories.insert(path),
        ActionView::RemoveDirectory(path) => directories.remove(path),
        _ => directories,
    }
}

/// The place of a blob, by the ids that actors call it by.
pub open spec fn file_of(root: Seq<char>, container: Seq<char>, id: Seq<char>) -> PathView {
    PathView { root, names: seq![sanitized(container), sanitized(id)] }
}

/// The place of a container, by the id that actors call it by.
pub open spec fn directory_of(root: Seq<char>, container: Seq<char>) -> PathView {
    PathView { root, names: seq![sanitized(container)] }
}

/// The call is over, answered with nothing, and the store is as it was.
pub open spec fn acknowledged(
    store: StoreView,
    result: (StoreView, Result<StepView, CallErrorView>),
) -> bool {
    &&& result.0 == store
    &&& result.1 matches Ok(StepView::Reply(bytes)) && bytes.len() == 0
}

/// Removing a blob takes its file away and touches no other, whatever size the request gives. The
/// blob is not found any more then.
pub proof fn removed_blob_is_gone(
    files: Map<PathView, Seq<u8>>,
    store: StoreView,
    actor: Seq<char>,
    blob: BlobView,
    byte_size: u64,
)
    ensures
        ({
            let (after, step) = begun(store, actor, RequestView::RemoveObject(blob));
            &&& after == store
            &&& step matches StepView::Perform { action, task } && {
                let left = performed(files, action);
                &&& action is RemoveFile
                &&& left == files.remove(file_of(store.root, blob.container, blob.id))
                &&& acknowledged(store, resumed(store, task, EventView::Done))
                &&& begun(store, actor, RequestView::GetObjectInfo(blob)).1 matches StepView::Perform {
                    action: look,
                    task: tell,
                } && resumed(store, tell, found(left, look, 0)).1 == Ok::<StepView, CallErrorView>(
                    StepView::Reply(
                        encoded_blob(
                            BlobView { id: "none"@, container: "none"@, byte_size: 0 },
                        ),
                    ),
                )
            }
            &&& begun(
                store,
                actor,
                RequestView::RemoveObject(
                    BlobView { id: blob.id, container: blob.container, byte_size },
                ),
            ) == (after, step)
        }),
{
}

/// The answer about a blob names it as it is stored and gives the size of its file, whatever size
/// the request gives; where there is no such file, the answer is that there is none.
pub proof fn blob_info_tells_the_size(
    files: Map<PathView, Seq<u8>>,
    store: StoreView,
    actor: Seq<char>,
    blob: BlobView,
    n: u64,
)
    ensures
        ({
            let path = file_of(store.root, blob.container, blob.id);
            let (after, step) = begun(store, actor, RequestView::GetObjectInfo(blob));
            &&& after == store
            &&& step matches StepView::Perform { action, task } && {
                &&& action == ActionView::MeasureFile(path)
                &&& resumed(store, task, EventView::Measured(Some(n))) == (
                    store,
                    Ok::<StepView, CallErrorView>(
                        StepView::Reply(
                            encoded_blob(
                                BlobView {
                                    id: sanitized(blob.id),
                                    container: sanitized(blob.container),
                                    byte_size: n,
                                },
                            ),
                        ),
                    ),
                )
                &&& resumed(store, task, EventView::Measured(None)) == (
                    store,
                    Ok::<StepView, CallErrorView>(
                        StepView::Reply(
                            encoded_blob(
                                BlobView { id: "none"@, container: "none"@, byte_size: 0 },
                            ),
                        ),
                    ),
                )
                &&& files.contains_key(path) && files[path].len() == n ==> found(files, action, 0)
                    == EventView::Measured(Some(n))
                &&& performed(files, action) == files
            }
        }),
{
}

/// A listing has one blob for each entry that could be read, in the order of the entries, under the
/// name of the entry and with its size.
pub proof fn listing_has_every_readable_entry(container: Seq<char>, entries: Seq<Option<EntryView>>)
    ensures
        listed_blobs(container, entries) == entries.filter_map(
            |entry: Option<EntryView>|
                match entry {
                    Some(e) => Some(BlobView { id: e.name, container, byte_size: e.byte_size }),
                    None => None,
                },
        ),
        listed_blobs(container, entries).len() == entries.filter(
            |entry: Option<EntryView>| entry is Some,
        ).len(),
        forall|i: int|
            0 <= i < entries.len() ==> ((#[trigger] entries[i]) matches Some(entry) ==> listed_blobs(
                container,
                entries,
            ).contains(BlobView { id: entry.name, container, byte_size: entry.byte_size })),
        forall|blob: BlobView| #[trigger]
            listed_blobs(container, entries).contains(blob) ==> blob.container == container
                && entries.contains(
                Some(EntryView { name: blob.id, byte_size: blob.byte_size }),
            ),
    decreases entries.len(),
{
    let list = listed_blobs(container, entries);
    reveal(Seq::filter);
    if entries.len() > 0 {
        let front = entries.drop_last();
        let before = listed_blobs(container, front);
        listing_has_every_readable_entry(container, front);
        match entries.last() {
            Some(e) => {
                let blob = BlobView { id: e.name, container, byte_size: e.byte_size };
                assert(list == before.push(blob));
                assert(before.push(blob) == before + seq![blob]);
                assert(list[before.len() as int] == blob);
            },
            None => {
                assert(list == before);
            },
        }
        assert forall|i: int| 0 <= i < entries.len() implies ((#[trigger] entries[i]) matches Some(entry)
            ==> list.contains(BlobView { id: entry.name, container, byte_size: entry.byte_size })) by {
            if i < front.len() {
                assert(front[i] == entries[i]);
                if let Some(entry) = entries[i] {
                    let b = BlobView { id: entry.name, container, byte_size: entry.byte_size };
                    assert(before.contains(b));
                    let j = choose|j: int| 0 <= j < before.len() && before[j] == b;
                    assert(list[j] == b);
                }
            }
        }
        assert forall|blob: BlobView| #[trigger] list.contains(blob) implies blob.container
            == container && entries.contains(
            Some(EntryView { name: blob.id, byte_size: blob.byte_size }),
        ) by {
            let j = choose|j: int| 0 <= j < list.len() && list[j] == blob;
            let entry = Some(EntryView { name: blob.id, byte_size: blob.byte_size });
            if j < before.len() {
                assert(before[j] == blob);
                assert(before.contains(blob));
                assert(front.contains(entry));
                let m = choose|m: int| 0 <= m < front.len() && front[m] == entry;
                assert(entries[m] == entry);
            } else {
                assert(entries[entries.len() - 1] == entry);
            }
        }
    }
}

/// Where all entries could be read, the listing has as many blobs, each at the place of its entry.
pub proof fn listing_keeps_the_places(container: Seq<char>, entries: Seq<Option<EntryView>>)
    requires
        forall|i: int| 0 <= i < entries.len() ==> entries[i] is Some,
    ensures
        listed_blobs(container, entries).len() == entries.len(),
        forall|i: int|
            0 <= i < entries.len() ==> {
                let blob = #[trigger] listed_blobs(container, entries)[i];
                &&& blob.id == entries[i]->Some_0.name
                &&& blob.container == container
                &&& blob.byte_size == entries[i]->Some_0.byte_size
            },
    decreases entries.len(),
{
    if entries.len() > 0 {
        let front = entries.drop_last();
        assert forall|i: int| 0 <= i < front.len() implies front[i] is Some by {
            assert(front[i] == entries[i]);
        }
        listing_keeps_the_places(container, front);
        assert(entries[entries.len() - 1] is Some);
        assert forall|i: int| 0 <= i < entries.len() implies {
            let blob = #[trigger] listed_blobs(container, entries)[i];
            &&& blob.id == entries[i]->Some_0.name
            &&& blob.container == container
            &&& blob.byte_size == entries[i]->Some_0.byte_size
        } by {
            if i < front.len() {
                assert(listed_blobs(container, entries)[i] == listed_blobs(container, front)[i]);
                assert(front[i] == entries[i]);
            }
        }
    }
}

/// Listing a container looks into its directory, changes nothing, and is answered with the blobs
/// for the entries that could be read, in the container under the name that it is stored under.
pub proof fn listing_shows_the_container(
    store: StoreView,
    actor: Seq<char>,
    container: ContainerView,
    entries: Seq<Option<EntryView>>,
)
    ensures
        ({
            let (after, step) = begun(store, actor, RequestView::ListObjects(container));
            let blobs = entries.filter_map(
                |entry: Option<EntryView>|
                    match entry {
                        Some(e) => Some(
                            BlobView {
                                id: e.name,
                                container: sanitized(container.id),
                                byte_size: e.byte_size,
                            },
                        ),
                        None => None,
                    },
            );
            &&& after == store
            &&& step matches StepView::Perform { action, task } && {
                &&& action == ActionView::ListDirectory(directory_of(store.root, container.id))
                &&& resumed(store, task, EventView::Listed(entries)) == (
                    store,
                    Ok::<StepView, CallErrorView>(StepView::Reply(encoded_blob_list(blobs))),
                )
            }
        }),
{
    listing_has_every_readable_entry(sanitized(container.id), entries);
}

/// Creating a container makes its directory, touches no file, and is answered with the container
/// under the name that it is stored under.
pub proof fn created_container_is_there(
    directories: Set<PathView>,
    files: Map<PathView, Seq<u8>>,
    store: StoreView,
    actor: Seq<char>,
    container: ContainerView,
)
    ensures
        ({
            let (after, step) = begun(store, actor, RequestView::CreateContainer(container));
            &&& after == store
            &&& step matches StepView::Perform { action, task } && {
                &&& action is CreateDirectories
                &&& arranged(directories, action) == directories.insert(
                    directory_of(store.root, container.id),
                )
                &&& action.path() == directory_of(store.root, container.id)
                &&& performed(files, action) == files
                &&& resumed(store, task, EventView::Done) == (
                    store,
                    Ok::<StepView, CallErrorView>(
                        StepView::Reply(
                            encoded_container(ContainerView { id: sanitized(container.id) }),
                        ),
                    ),
                )
            }
        }),
{
}

/// Removing a container takes its directory away, touches no file, and is answered with nothing.
/// What was created can be removed.
pub proof fn removed_container_is_gone(
    directories: Set<PathView>,
    files: Map<PathView, Seq<u8>>,
    store: StoreView,
    actor: Seq<char>,
    container: ContainerView,
)
    ensures
        ({
            let (after, step) = begun(store, actor, RequestView::RemoveContainer(container));
            &&& after == store
            &&& step matches StepView::Perform { action, task } && {
                &&& action is RemoveDirectory
                &&& arranged(directories, action) == directories.remove(
                    directory_of(store.root, container.id),
                )
                &&& action.path() == directory_of(store.root, container.id)
                &&& performed(files, action) == files
                &&& acknowledged(store, resumed(store, task, EventView::Done))
                &&& begun(store, actor, RequestView::CreateContainer(container)).1 matches StepView::Perform {
                    action: create,
                    task: report,
                } && (!directories.contains(create.path()) ==> arranged(
                    arranged(directories, create),
                    action,
                ) == directories)
            }
        }),
{
    let path = directory_of(store.root, container.id);
    if !directories.contains(path) {
        assert(directories.insert(path).remove(path) == directories);
    }
}

/// Announcing an upload leaves the blob with an empty file, whatever else the announcement says,
/// touches no other file and no upload under way, and is answered with nothing.
pub proof fn announced_blob_is_empty(
    files: Map<PathView, Seq<u8>>,
    store: StoreView,
    actor: Seq<char>,
    announced: FileChunkView,
)
    ensures
        ({
            let (after, step) = begun(store, actor, RequestView::StartUpload(announced));
            &&& after == store
            &&& step matches StepView::Perform { action, task } && {
                &&& action is WriteEmptyFile
                &&& performed(files, action) == files.insert(
                    file_of(store.root, announced.container, announced.id),
                    Seq::empty(),
                )
                &&& action.path() == file_of(store.root, announced.container, announced.id)
                &&& acknowledged(store, resumed(store, task, EventView::Done))
            }
        }),
{
}

/// A download opens the file of the blob, changes nothing, and goes to the actor that asked for it,
/// with the size of the file and the names under which the blob is stored.
pub proof fn download_goes_to_the_actor(
    files: Map<PathView, Seq<u8>>,
    store: StoreView,
    actor: Seq<char>,
    request: StreamRequestView,
    byte_size: u64,
    default_chunk_size: usize,
)
    requires
        request.chunk_size != 0 || default_chunk_size != 0,
        request.chunk_size <= usize::MAX,
    ensures
        ({
            let (after, step) = begun(store, actor, RequestView::StartDownload(request));
            &&& after == store
            &&& step matches StepView::Perform { action, task } && {
                let event = EventView::Opened { byte_size, default_chunk_size };
                let (end, result) = resumed(store, task, event);
                &&& action == ActionView::OpenFile(file_of(store.root, request.container, request.id))
                &&& performed(files, action) == files
                &&& crate::provider::fits(store, task, event)
                &&& end == store
                &&& result matches Ok(StepView::Stream { actor: to, transfer }) && {
                    &&& to == actor
                    &&& transfer.blob_id == sanitized(request.id)
                    &&& transfer.container == sanitized(request.container)
                    &&& transfer.total_size == byte_size
                    &&& transfer.chunk_size == if request.chunk_size == 0 {
                        default_chunk_size as u64
                    } else {
                        request.chunk_size
                    }
                    &&& transfer.total_chunks * transfer.chunk_size <= byte_size
                    &&& byte_size < (transfer.total_chunks + 1) * transfer.chunk_size
                }
            }
        }),
{
    crate::downloads::announced_chunks_are_full(request, byte_size, default_chunk_size);
}

/// A configuration moves the root directory to where it says, and uploads under way go on.
pub proof fn configuration_moves_the_root(
    store: StoreView,
    actor: Seq<char>,
    config: ConfigurationView,
)
    requires
        config.values.contains_key("ROOT"@),
    ensures
        ({
            let (after, step) = begun(store, actor, RequestView::Configure(config));
            &&& RequestView::Configure(config).is_acceptable()
            &&& after.root == config.values["ROOT"@]
            &&& after.uploads == store.uploads
            &&& step matches StepView::Reply(bytes) && bytes.len() == 0
        }),
{
}

/// The removal of an actor changes nothing and is answered with nothing.
pub proof fn removed_actor_leaves_everything(store: StoreView, actor: Seq<char>)
    ensures
        ({
            let (after, step) = begun(store, actor, RequestView::RemoveActor);
            &&& after == store
            &&& step matches StepView::Reply(bytes) && bytes.len() == 0
        }),
{
}

/// A request can be carried out unless it is a configuration that does not say where the root
/// directory is, or a chunk of an upload whose chunks have no size.
pub proof fn what_cannot_be_carried_out(request: RequestView)
    ensures
        !request.is_acceptable() <==> {
            ||| request matches RequestView::Configure(config) && !config.values.contains_key("ROOT"@)
            ||| request matches RequestView::UploadChunk(chunk) && chunk.chunk_size == 0
        },
{
}

/// A blob that was announced and whose chunks came in any order, mixed with those of others, is
/// what an actor receives that asks for it, and the answer about it gives its size.
pub proof fn uploaded_blob_is_downloaded(
    files: Map<PathView, Seq<u8>>,
    store: StoreView,
    upload: UploadNames,
    calls: Seq<SentChunk>,
    reader: Seq<char>,
    request: StreamRequestView,
    default_chunk_size: usize,
    transfer: TransferView,
    n: usize,
    received: Seq<FileChunkView>,
)
    requires
        is_whole_blob(chunks_of(upload, calls)),
        forall|i: int|
            0 <= i < calls.len() ==> (#[trigger] calls[i]).names() == upload
                || calls[i].names().is_apart_from(upload),
        !store.uploads.contains_key(upload.run_together()),
        nothing_waits_for(store, keys_of(calls), upload.file(store.root)),
        files.contains_key(upload.file(store.root)),
        files[upload.file(store.root)] == Seq::<u8>::empty(),
        sanitized(request.container) == upload.container,
        sanitized(request.id) == upload.id,
        request.chunk_size != 0 || default_chunk_size != 0,
        request.chunk_size <= usize::MAX,
        ({
            let (actions, end) = served(store, calls);
            let after = performed_all(files, actions);
            let contents = after[upload.file(store.root)];
            &&& contents.len() <= u64::MAX
            &&& begun(end, reader, RequestView::StartDownload(request)).1 matches StepView::Perform {
                action,
                task,
            } && resumed(end, task, found(after, action, default_chunk_size)).1 == Ok::<
                StepView,
                CallErrorView,
            >(StepView::Stream { actor: reader, transfer })
            &&& n * transfer.chunk_size >= contents.len()
            &&& received.to_multiset() == Seq::new(
                n as nat,
                |i: int|
                    sent_chunk(transfer, i as usize, piece(contents, transfer.chunk_size as int, i)),
            ).to_multiset()
        }),
    ensures
        ({
            let chunks = chunks_of(upload, calls);
            let bytes = bytes_in_order(chunks, chunks.len());
            let (actions, end) = served(store, calls);
            let after = performed_all(files, actions);
            let blob = BlobView { id: request.id, container: request.container, byte_size: 0 };
            &&& put_together(received, n as nat) == bytes
            &&& transfer.total_size == bytes.len()
            &&& begun(end, reader, RequestView::GetObjectInfo(blob)).1 matches StepView::Perform {
                action,
                task,
            } && resumed(end, task, found(after, action, 0)).1 == Ok::<StepView, CallErrorView>(
                StepView::Reply(
                    encoded_blob(
                        BlobView {
                            id: upload.id,
                            container: upload.container,
                            byte_size: bytes.len() as u64,
                        },
                    ),
                ),
            )
        }),
{
    let chunks = chunks_of(upload, calls);
    let bytes = bytes_in_order(chunks, chunks.len());
    crate::interleaving::blob_is_put_together_among_others(files, store, upload, calls);
    assert(Seq::<u8>::empty() + bytes == bytes);
    crate::downloads::received_chunks_make_the_blob(transfer, bytes, n, received);
}

/// The event is one that the action can come to.
pub open spec fn answers(action: ActionView, event: EventView) -> bool {
    match action {
        ActionView::CreateDirectories(_) => event is Done,
        ActionView::RemoveDirectory(_) => event is Done,
        ActionView::WriteEmptyFile(_) => event is Done,
        ActionView::RemoveFile(_) => event is Done,
        ActionView::MeasureFile(_) => event is Measured,
        ActionView::ListDirectory(_) => event is Listed,
        ActionView::AppendToFile { path, bytes } => event is Appended,
        ActionView::OpenFile(_) => event is Opened,
    }
}

/// The first action of a call can come to what answers it, and to nothing else. Left out are a
/// download in chunks without a size, and a chunk that is written when the numbers run out.
pub proof fn call_takes_what_answers_its_action(
    store: StoreView,
    actor: Seq<char>,
    request: RequestView,
    event: EventView,
)
    ensures
        ({
            let (after, step) = begun(store, actor, request);
            step matches StepView::Perform { action, task } ==> {
                &&& crate::provider::fits(after, task, event) ==> answers(action, event)
                &&& answers(action, event) ==> match (task, event) {
                    (
                        TaskView::ContinueUpload { key, total_chunk_count },
                        EventView::Appended(count),
                    ) => crate::provider::fits(after, task, event) <==> (after.uploads[key].expected
                        < u64::MAX || (action matches ActionView::AppendToFile { path, bytes }
                        && count != bytes.len())),
                    (
                        TaskView::StreamBlob { actor: to, request: wanted },
                        EventView::Opened { byte_size, default_chunk_size },
                    ) => crate::provider::fits(after, task, event) <==> (if wanted.chunk_size == 0 {
                        default_chunk_size != 0
                    } else {
                        wanted.chunk_size as usize != 0
                    }),
                    _ => crate::provider::fits(after, task, event),
                }
            }
        }),
{
}

} // verus!
