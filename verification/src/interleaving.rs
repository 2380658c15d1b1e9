//! What holds of several uploads at once: chunks of different blobs, from different actors, may
//! come mixed, and each blob is put together as if its chunks came alone.

use crate::assembly::{
    append_action, append_actions, appended_bytes, assembled, bytes_in_order, chunk_numbered,
    drained, numbered_once, of_one_blob, performed_all, rested, uploaded_chunk, written_out,
};
use crate::paths::PathView;
use crate::provider::StoreView;
use crate::steps::{ActionView, EventView, StepView, TaskView};
use crate::types::FileChunkView;
use crate::uploads::QueueView;
use vstd::prelude::*;

verus! {

/// A chunk and the actor that sends it.
pub struct SentChunk {
    pub actor: Seq<char>,
    pub chunk: FileChunkView,
}

/// An actor, and the names that the blob it uploads is stored under.
pub struct UploadNames {
    pub actor: Seq<char>,
    pub container: Seq<char>,
    pub id: Seq<char>,
}

impl SentChunk {
    /// The upload that the chunk is a part of.
    pub open spec fn names(self) -> UploadNames {
        UploadNames {
            actor: self.actor,
            container: crate::names::sanitized(self.chunk.container),
            id: crate::names::sanitized(self.chunk.id),
        }
    }
}

impl UploadNames {
    /// The names one after the other.
    pub open spec fn run_together(self) -> Seq<char> {
        self.actor + self.container + self.id
    }

    /// The file of the blob.
    pub open spec fn file(self, root: Seq<char>) -> PathView {
        PathView { root, names: seq![self.container, self.id] }
    }

    /// Two uploads of different blobs, whose names do not run into each other.
    pub open spec fn is_apart_from(self, other: UploadNames) -> bool {
        &&& self.run_together() != other.run_together()
        &&& self.container != other.container || self.id != other.id
    }
}

/// The actions of the calls that bring the chunks one after the other, and the store at the end,
/// where every write takes all its bytes.
pub open spec fn served(store: StoreView, calls: Seq<SentChunk>) -> (Seq<ActionView>, StoreView)
    decreases calls.len(),
{
    if calls.len() == 0 {
        (Seq::empty(), store)
    } else {
        let (actions, before) = served(store, calls.drop_last());
        let (more, end) = uploaded_chunk(before, calls.last().actor, calls.last().chunk);
        (actions + more, end)
    }
}

/// The chunks among those of the calls that are a part of the upload, in the order in which they
/// come.
pub open spec fn chunks_of(upload: UploadNames, calls: Seq<SentChunk>) -> Seq<FileChunkView>
    decreases calls.len(),
{
    if calls.len() == 0 {
        Seq::empty()
    } else {
        let front = chunks_of(upload, calls.drop_last());
        if calls.last().names() == upload {
            front.push(calls.last().chunk)
        } else {
            front
        }
    }
}

/// The chunks are all there is of a blob: its full chunks, or these and a shorter one that is not
/// the last to come.
pub open spec fn is_whole_blob(chunks: Seq<FileChunkView>) -> bool {
    let full = chunks[0].total_bytes as int / chunks[0].chunk_size as int;
    &&& 0 < chunks.len() < u64::MAX - 1
    &&& of_one_blob(chunks)
    &&& numbered_once(chunks)
    &&& chunks.len() == full || (chunks.len() == full + 1 && (chunks.len() == 1
        || chunks.last().sequence_no != chunks.len()))
}

/// The keys of the uploads that the calls are about.
pub open spec fn keys_of(calls: Seq<SentChunk>) -> Set<Seq<char>> {
    Set::new(
        |key: Seq<char>|
            exists|i: int|
                0 <= i < calls.len() && (#[trigger] calls[i]).names().run_together() == key,
    )
}

/// No chunk that waits in one of the uploads is to be written to the file.
pub open spec fn nothing_waits_for(store: StoreView, keys: Set<Seq<char>>, file: PathView) -> bool {
    forall|key: Seq<char>, i: int|
        keys.contains(key) && store.uploads.contains_key(key) && 0 <= i
            < store.uploads[key].pending.len() ==> append_action(
            store.root,
            #[trigger] store.uploads[key].pending[i],
        ).path() != file
}

/// No chunk of the upload is to be written to the file.
spec fn waits_elsewhere(root: Seq<char>, queue: QueueView, file: PathView) -> bool {
    forall|i: int|
        0 <= i < queue.pending.len() ==> append_action(root, #[trigger] queue.pending[i]).path()
            != file
}

/// What an upload writes from a settled state on goes to the files of its own chunks, and other
/// uploads stay as they are.
proof fn lemma_writes_its_own(store: StoreView, key: Seq<char>, total_chunk_count: u64, file: PathView)
    requires
        store.uploads.contains_key(key),
    ensures
        ({
            let (after, step) = crate::provider::settled(store, key, total_chunk_count);
            let (actions, end) = written_out(after, step);
            &&& end.root == store.root
            &&& forall|k: Seq<char>|
                k != key ==> (#[trigger] end.uploads.contains_key(k)) == store.uploads.contains_key(k)
            &&& forall|k: Seq<char>|
                k != key ==> #[trigger] end.uploads[k] == store.uploads[k]
            &&& waits_elsewhere(store.root, store.uploads[key], file) ==> {
                &&& end.uploads.contains_key(key) ==> waits_elsewhere(
                    store.root,
                    end.uploads[key],
                    file,
                )
                &&& forall|i: int| 0 <= i < actions.len() ==> (#[trigger] actions[i]).path() != file
            }
        }),
    decreases store.uploads[key].pending.len(),
{
    let queue = store.uploads[key];
    let (after, step) = crate::provider::settled(store, key, total_chunk_count);
    let (actions, end) = written_out(after, step);
    if queue.has_ready() {
        let at = crate::uploads::position(queue.pending, queue.expected);
        crate::uploads::lemma_position(queue.pending, queue.expected);
        let chunk = queue.ready();
        assert(queue.pending[at] == chunk);
        let next = queue.advanced();
        let store2 = crate::provider::with_upload(store, key, next);
        let task = TaskView::ContinueUpload { key, total_chunk_count };
        let event = EventView::Appended(chunk.chunk_bytes.len() as usize);
        assert(step == StepView::Perform { action: append_action(store.root, chunk), task });
        if crate::provider::fits(store, task, event) {
            let (after2, result) = crate::provider::resumed(store, task, event);
            match result {
                Ok(step2) => {
                    lemma_writes_its_own(store2, key, total_chunk_count, file);
                    assert(crate::provider::settled(store2, key, total_chunk_count) == (
                        after2,
                        step2,
                    ));
                    let more = written_out(after2, step2).0;
                    assert(actions == seq![append_action(store.root, chunk)] + more);
                    if waits_elsewhere(store.root, queue, file) {
                        assert forall|i: int| 0 <= i < next.pending.len() implies append_action(
                            store.root,
                            #[trigger] next.pending[i],
                        ).path() != file by {
                            let j = if i < at {
                                i
                            } else {
                                i + 1
                            };
                            assert(next.pending[i] == queue.pending[j]);
                        }
                        assert forall|i: int| 0 <= i < actions.len() implies (
                        #[trigger] actions[i]).path() != file by {
                            if i > 0 {
                                assert(actions[i] == more[i - 1]);
                            }
                        }
                    }
                },
                Err(_) => {
                    assert(actions == seq![append_action(store.root, chunk)]);
                },
            }
        }
    }
}

/// A chunk writes to the files of the chunks in its own upload, and other uploads stay as they are.
proof fn lemma_chunk_stays_in_its_upload(store: StoreView, call: SentChunk, file: PathView)
    ensures
        ({
            let key = call.names().run_together();
            let (actions, end) = uploaded_chunk(store, call.actor, call.chunk);
            &&& end.root == store.root
            &&& forall|k: Seq<char>|
                k != key ==> (#[trigger] end.uploads.contains_key(k)) == store.uploads.contains_key(k)
            &&& forall|k: Seq<char>|
                k != key ==> #[trigger] end.uploads[k] == store.uploads[k]
            &&& call.names().file(store.root) != file && (store.uploads.contains_key(key)
                ==> waits_elsewhere(store.root, store.uploads[key], file)) ==> {
                &&& end.uploads.contains_key(key) ==> waits_elsewhere(
                    store.root,
                    end.uploads[key],
                    file,
                )
                &&& forall|i: int| 0 <= i < actions.len() ==> (#[trigger] actions[i]).path() != file
            }
        }),
{
    let key = call.names().run_together();
    assert(crate::provider::upload_key(call.actor, call.chunk) == key);
    let queue = crate::provider::upload_of(store, key);
    let queued = queue.queued(call.chunk);
    let store2 = crate::provider::with_upload(store, key, queued);
    let total = crate::provider::total_chunk_count(call.chunk);
    lemma_writes_its_own(store2, key, total, file);
    assert(append_action(store.root, call.chunk).path() == call.names().file(store.root));
    if call.names().file(store.root) != file && (store.uploads.contains_key(key)
        ==> waits_elsewhere(store.root, store.uploads[key], file)) {
        assert forall|i: int| 0 <= i < queued.pending.len() implies append_action(
            store.root,
            #[trigger] queued.pending[i],
        ).path() != file by {
            if i < queue.pending.len() {
                assert(queued.pending[i] == queue.pending[i]);
            }
        }
    }
}

/// Uploads that no call is about stay as they are.
proof fn lemma_served_leaves(store: StoreView, calls: Seq<SentChunk>, key: Seq<char>)
    requires
        forall|i: int| 0 <= i < calls.len() ==> (#[trigger] calls[i]).names().run_together() != key,
    ensures
        served(store, calls).1.root == store.root,
        served(store, calls).1.uploads.contains_key(key) == store.uploads.contains_key(key),
        served(store, calls).1.uploads[key] == store.uploads[key],
    decreases calls.len(),
{
    if calls.len() > 0 {
        let front = calls.drop_last();
        assert forall|i: int| 0 <= i < front.len() implies (#[trigger] front[i]).names().run_together()
            != key by {
            assert(front[i] == calls[i]);
        }
        lemma_served_leaves(store, front, key);
        assert(calls.last() == calls[calls.len() - 1]);
        lemma_chunk_stays_in_its_upload(served(store, front).1, calls.last(), arbitrary());
    }
}

/// One series of actions after another.
pub(crate) proof fn lemma_performed_one_after_another(
    files: Map<PathView, Seq<u8>>,
    first: Seq<ActionView>,
    second: Seq<ActionView>,
)
    ensures
        performed_all(files, first + second) == performed_all(performed_all(files, first), second),
    decreases second.len(),
{
    if second.len() == 0 {
        assert(first + second == first);
    } else {
        lemma_performed_one_after_another(files, first, second.drop_last());
        assert((first + second).drop_last() == first + second.drop_last());
        assert((first + second).last() == second.last());
    }
}

/// Actions about other files leave a file as it is.
pub(crate) proof fn lemma_performed_elsewhere(
    files: Map<PathView, Seq<u8>>,
    actions: Seq<ActionView>,
    file: PathView,
)
    requires
        forall|i: int| 0 <= i < actions.len() ==> (#[trigger] actions[i]).path() != file,
    ensures
        performed_all(files, actions).contains_key(file) == files.contains_key(file),
        performed_all(files, actions)[file] == files[file],
    decreases actions.len(),
{
    if actions.len() > 0 {
        let front = actions.drop_last();
        assert forall|i: int| 0 <= i < front.len() implies (#[trigger] front[i]).path() != file by {
            assert(front[i] == actions[i]);
        }
        lemma_performed_elsewhere(files, front, file);
        assert(actions.last() == actions[actions.len() - 1]);
    }
}

/// The files of two blobs with different names are different.
proof fn lemma_files_differ(a: UploadNames, b: UploadNames, root: Seq<char>)
    ensures
        a.file(root) == b.file(root) <==> a.container == b.container && a.id == b.id,
{
    assert(a.file(root).names[0] == a.container && a.file(root).names[1] == a.id);
    assert(b.file(root).names[0] == b.container && b.file(root).names[1] == b.id);
}

/// No call before the last one of the upload leaves exactly `total` of its chunks written.
spec fn is_not_over_before(chunks: Seq<FileChunkView>, total: int) -> bool {
    forall|k: int|
        0 < k < chunks.len() ==> assembled(#[trigger] chunks.take(k)).0.len() != total
}

/// The chunks of one upload, among calls that are about others, are written to its file as
/// [`assembled`] says, and the upload is left as it says.
proof fn lemma_served(
    files: Map<PathView, Seq<u8>>,
    store: StoreView,
    upload: UploadNames,
    calls: Seq<SentChunk>,
    keys: Set<Seq<char>>,
)
    requires
        forall|i: int|
            0 <= i < calls.len() ==> {
                ||| (#[trigger] calls[i]).names() == upload
                ||| {
                    &&& calls[i].names().is_apart_from(upload)
                    &&& keys.contains(calls[i].names().run_together())
                }
            },
        !keys.contains(upload.run_together()),
        chunks_of(upload, calls).len() < u64::MAX - 1,
        of_one_blob(chunks_of(upload, calls)),
        is_not_over_before(
            chunks_of(upload, calls),
            crate::provider::total_chunk_count(chunks_of(upload, calls)[0]) as int,
        ),
        !store.uploads.contains_key(upload.run_together()),
        nothing_waits_for(store, keys, upload.file(store.root)),
        files.contains_key(upload.file(store.root)),
    ensures
        ({
            let key = upload.run_together();
            let file = upload.file(store.root);
            let chunks = chunks_of(upload, calls);
            let (written, queue) = assembled(chunks);
            let (actions, end) = served(store, calls);
            let after = performed_all(files, actions);
            &&& end.root == store.root
            &&& chunks.len() == 0 ==> !end.uploads.contains_key(key)
            &&& chunks.len() > 0 ==> {
                if written.len() == crate::provider::total_chunk_count(chunks[0]) {
                    !end.uploads.contains_key(key)
                } else {
                    end.uploads.contains_key(key) && end.uploads[key] == queue
                }
            }
            &&& nothing_waits_for(end, keys, file)
            &&& after.contains_key(file)
            &&& after[file] == files[file] + appended_bytes(append_actions(store.root, written))
        }),
    decreases calls.len(), 1int,
{
    let key = upload.run_together();
    let file = upload.file(store.root);
    let chunks = chunks_of(upload, calls);
    if calls.len() == 0 {
        assert(append_actions(store.root, assembled(chunks).0) == Seq::<ActionView>::empty());
        assert(files[file] + Seq::<u8>::empty() == files[file]);
    } else {
        let front = calls.drop_last();
        let last = calls.last();
        let own = chunks_of(upload, front);
        assert(last == calls[calls.len() - 1]);
        assert forall|i: int| 0 <= i < front.len() implies {
            ||| (#[trigger] front[i]).names() == upload
            ||| {
                &&& front[i].names().is_apart_from(upload)
                &&& keys.contains(front[i].names().run_together())
            }
        } by {
            assert(front[i] == calls[i]);
        }
        let (actions, before) = served(store, front);
        let (more, end) = uploaded_chunk(before, last.actor, last.chunk);
        lemma_performed_one_after_another(files, actions, more);
        lemma_chunk_stays_in_its_upload(before, last, file);
        if last.names() == upload {
            lemma_served_own(files, store, upload, calls, keys);
        } else {
            lemma_served(files, store, upload, front, keys);
            lemma_files_differ(last.names(), upload, store.root);
            lemma_performed_elsewhere(performed_all(files, actions), more, file);
            assert forall|k: Seq<char>, i: int|
                keys.contains(k) && end.uploads.contains_key(k) && 0 <= i < end.uploads[k].pending.len() implies append_action(
                end.root,
                #[trigger] end.uploads[k].pending[i],
            ).path() != file by {
                if k != last.names().run_together() {
                    assert(end.uploads[k] == before.uploads[k]);
                    assert(before.uploads.contains_key(k));
                }
            }
        }
    }
}

/// The case of [`lemma_served`] in which the last call brings a chunk of the upload.
proof fn lemma_served_own(
    files: Map<PathView, Seq<u8>>,
    store: StoreView,
    upload: UploadNames,
    calls: Seq<SentChunk>,
    keys: Set<Seq<char>>,
)
    requires
        calls.len() > 0,
        calls.last().names() == upload,
        forall|i: int|
            0 <= i < calls.len() ==> {
                ||| (#[trigger] calls[i]).names() == upload
                ||| {
                    &&& calls[i].names().is_apart_from(upload)
                    &&& keys.contains(calls[i].names().run_together())
                }
            },
        !keys.contains(upload.run_together()),
        chunks_of(upload, calls).len() < u64::MAX - 1,
        of_one_blob(chunks_of(upload, calls)),
        is_not_over_before(
            chunks_of(upload, calls),
            crate::provider::total_chunk_count(chunks_of(upload, calls)[0]) as int,
        ),
        !store.uploads.contains_key(upload.run_together()),
        nothing_waits_for(store, keys, upload.file(store.root)),
        files.contains_key(upload.file(store.root)),
    ensures
        ({
            let key = upload.run_together();
            let file = upload.file(store.root);
            let chunks = chunks_of(upload, calls);
            let (written, queue) = assembled(chunks);
            let (actions, end) = served(store, calls);
            let after = performed_all(files, actions);
            &&& end.root == store.root
            &&& if written.len() == crate::provider::total_chunk_count(chunks[0]) {
                !end.uploads.contains_key(key)
            } else {
                end.uploads.contains_key(key) && end.uploads[key] == queue
            }
            &&& nothing_waits_for(end, keys, file)
            &&& after.contains_key(file)
            &&& after[file] == files[file] + appended_bytes(append_actions(store.root, written))
        }),
    decreases calls.len(), 0int,
{
    let key = upload.run_together();
    let file = upload.file(store.root);
    let chunks = chunks_of(upload, calls);
    let total = crate::provider::total_chunk_count(chunks[0]);
    let front = calls.drop_last();
    let chunk = calls.last().chunk;
    let own = chunks_of(upload, front);
    assert(chunks == own.push(chunk));
    assert(chunks.drop_last() == own);
    assert(chunks[chunks.len() - 1] == chunk);
    assert forall|i: int| 0 <= i < front.len() implies {
        ||| (#[trigger] front[i]).names() == upload
        ||| {
            &&& front[i].names().is_apart_from(upload)
            &&& keys.contains(front[i].names().run_together())
        }
    } by {
        assert(front[i] == calls[i]);
    }
    if own.len() > 0 {
        crate::assembly::lemma_prefix_of_one_blob(chunks, own.len() as int);
        assert(chunks.take(own.len() as int) == own);
        assert(assembled(own).0.len() != total);
        assert forall|k: int| 0 < k < own.len() implies assembled(#[trigger] own.take(k)).0.len()
            != total by {
            assert(own.take(k) == chunks.take(k));
        }
    }
    lemma_served(files, store, upload, front, keys);
    crate::assembly::lemma_assembled(own);
    let (written, queue) = assembled(own);
    let (actions, before) = served(store, front);
    let (more, end) = uploaded_chunk(before, upload.actor, chunk);
    assert(crate::provider::upload_key(upload.actor, chunk) == key);
    assert(crate::provider::total_chunk_count(chunk) == total);
    assert(crate::provider::upload_of(before, key) == queue);
    let queued = queue.queued(chunk);
    let store2 = crate::provider::with_upload(before, key, queued);
    assert forall|i: int| 0 <= i < queued.pending.len() implies (#[trigger] queued.pending[i]).chunk_bytes.len()
        <= usize::MAX by {
        if i < queue.pending.len() {
            let c = queue.pending[i];
            assert(queued.pending[i] == c);
            assert(queue.pending.contains(c));
            assert(own.contains(c));
            let j = choose|j: int| 0 <= j < own.len() && own[j] == c;
            assert(own[j] == chunks[j]);
        }
    }
    crate::assembly::lemma_written_out(store2, key, total);
    let (drain, rest) = drained(queued);
    assert(more == append_actions(store.root, drain));
    assert(end == rested(store2, key, rest, total));
    assert forall|k: Seq<char>, i: int|
        keys.contains(k) && end.uploads.contains_key(k) && 0 <= i < end.uploads[k].pending.len() implies append_action(
        end.root,
        #[trigger] end.uploads[k].pending[i],
    ).path() != file by {
        assert(end.uploads[k] == before.uploads[k]);
        assert(before.uploads.contains_key(k));
    }
    lemma_performed_one_after_another(files, actions, more);
    let between = performed_all(files, actions);
    assert forall|i: int| 0 <= i < more.len() implies ((
    #[trigger] more[i]) matches ActionView::AppendToFile { path: p, bytes } && p == file) by {
        let c = drain[i];
        assert(more[i] == append_action(store.root, c));
        crate::assembly::lemma_drained(queued);
        assert(drain.contains(c));
        assert(queued.pending.contains(c));
        let j = choose|j: int| 0 <= j < queued.pending.len() && queued.pending[j] == c;
        if j < queue.pending.len() {
            assert(queue.pending.contains(c));
            assert(own.contains(c));
            let m = choose|m: int| 0 <= m < own.len() && own[m] == c;
            assert(own[m] == chunks[m]);
            lemma_chunks_of(upload, calls, m);
        }
    }
    crate::assembly::lemma_performed_all(between, file, more);
    assert(chunks.last() == chunk);
    assert(assembled(chunks) == (written + drain, rest));
    assert(rest.written() == (written + drain).len()) by {
        crate::assembly::lemma_assembled(chunks);
    }
    assert(served(store, calls) == (actions + more, end));
    assert(append_actions(store.root, written + drain) == append_actions(store.root, written)
        + append_actions(store.root, drain));
    lemma_appended_one_after_another(append_actions(store.root, written), more);
    assert(files[file] + appended_bytes(append_actions(store.root, written)) + appended_bytes(more)
        == files[file] + (appended_bytes(append_actions(store.root, written)) + appended_bytes(
        more,
    )));
}

/// The chunks of an upload go by its names.
proof fn lemma_chunks_of(upload: UploadNames, calls: Seq<SentChunk>, i: int)
    requires
        0 <= i < chunks_of(upload, calls).len(),
    ensures
        ({
            let chunk = chunks_of(upload, calls)[i];
            &&& crate::names::sanitized(chunk.container) == upload.container
            &&& crate::names::sanitized(chunk.id) == upload.id
        }),
    decreases calls.len(),
{
    if calls.len() > 0 {
        let front = calls.drop_last();
        if i < chunks_of(upload, front).len() {
            lemma_chunks_of(upload, front, i);
        }
    }
}

/// The bytes of one series of writes after another.
proof fn lemma_appended_one_after_another(first: Seq<ActionView>, second: Seq<ActionView>)
    ensures
        appended_bytes(first + second) == appended_bytes(first) + appended_bytes(second),
    decreases second.len(),
{
    if second.len() == 0 {
        assert(first + second == first);
        assert(appended_bytes(first) + appended_bytes(second) == appended_bytes(first));
    } else {
        lemma_appended_one_after_another(first, second.drop_last());
        assert((first + second).drop_last() == first + second.drop_last());
        assert((first + second).last() == second.last());
        assert(appended_bytes(first + second) == appended_bytes(first) + appended_bytes(second));
    }
}

/// The chunks of a whole blob do not end its upload before the last one comes.
proof fn lemma_whole_blob_is_not_over_before(chunks: Seq<FileChunkView>)
    requires
        is_whole_blob(chunks),
    ensures
        is_not_over_before(chunks, crate::provider::total_chunk_count(chunks[0]) as int),
{
    let n = chunks.len();
    let total = crate::provider::total_chunk_count(chunks[0]);
    assert(chunks[0].chunk_size != 0);
    assert forall|k: int| 0 < k < n implies assembled(#[trigger] chunks.take(k)).0.len() != total by {
        let front = chunks.take(k);
        crate::assembly::lemma_assembled(front);
        let written = assembled(front).0;
        if written.len() == total {
            // All numbers but the greatest are written, among them that of the chunk to come last.
            assert(k == n - 1);
            let last = chunks.last();
            assert(chunks[n - 1] == last);
            let c = written[last.sequence_no - 1];
            assert(c.sequence_no == last.sequence_no);
            assert(written.contains(c));
            let j = choose|j: int| 0 <= j < front.len() && front[j] == c;
            assert(chunks[j] == c);
            assert(false);
        }
    }
}

/// The chunks of a blob come in any order, mixed with chunks of other blobs and from other actors:
/// the file of the blob gets exactly the bytes of its own chunks, in the order of their numbers. Of
/// the upload, nothing is left where the blob consists of full chunks; else no chunk is left
/// waiting.
pub proof fn blob_is_put_together_among_others(
    files: Map<PathView, Seq<u8>>,
    store: StoreView,
    upload: UploadNames,
    calls: Seq<SentChunk>,
)
    requires
        is_whole_blob(chunks_of(upload, calls)),
        forall|i: int|
            0 <= i < calls.len() ==> (#[trigger] calls[i]).names() == upload
                || calls[i].names().is_apart_from(upload),
        !store.uploads.contains_key(upload.run_together()),
        nothing_waits_for(store, keys_of(calls), upload.file(store.root)),
        files.contains_key(upload.file(store.root)),
    ensures
        ({
            let file = upload.file(store.root);
            let chunks = chunks_of(upload, calls);
            let (actions, end) = served(store, calls);
            let after = performed_all(files, actions);
            &&& after.contains_key(file)
            &&& after[file] == files[file] + bytes_in_order(chunks, chunks.len())
            &&& end.uploads.contains_key(upload.run_together()) ==> {
                &&& chunks.len() * chunks[0].chunk_size > chunks[0].total_bytes
                &&& end.uploads[upload.run_together()].pending.len() == 0
            }
            &&& end.root == store.root
        }),
{
    let chunks = chunks_of(upload, calls);
    lemma_whole_blob_is_not_over_before(chunks);
    let keys = keys_of(calls).remove(upload.run_together());
    lemma_served(files, store, upload, calls, keys);
    crate::assembly::lemma_assembled_in_order(chunks);
    let written = assembled(chunks).0;
    let writes = append_actions(store.root, written);
    assert forall|i: int| 0 <= i < writes.len() implies #[trigger] writes[i] == append_action(
        store.root,
        chunk_numbered(chunks, (i + 1) as u64),
    ) by {
        assert(written[i] == chunk_numbered(chunks, (i + 1) as u64));
    }
    crate::assembly::lemma_appended_bytes(store.root, chunks, writes);
    assert(chunks[0].chunk_size != 0);
    let n = chunks.len() as int;
    let bytes = chunks[0].total_bytes as int;
    let size = chunks[0].chunk_size as int;
    if n == bytes / size + 1 {
        assert(n * size > bytes) by (nonlinear_arith)
            requires
                n == bytes / size + 1,
                size > 0,
        ;
    }
}

/// No file but those of the blobs that the calls are about changes.
pub proof fn files_of_other_blobs_are_left_alone(
    files: Map<PathView, Seq<u8>>,
    store: StoreView,
    calls: Seq<SentChunk>,
    file: PathView,
)
    requires
        forall|i: int| 0 <= i < calls.len() ==> (#[trigger] calls[i]).names().file(store.root) != file,
        nothing_waits_for(store, keys_of(calls), file),
    ensures
        ({
            let after = performed_all(files, served(store, calls).0);
            &&& after.contains_key(file) == files.contains_key(file)
            &&& after[file] == files[file]
        }),
{
    lemma_files_left_alone(files, store, calls, file, keys_of(calls));
}

/// No file but those of the blobs that the calls are about changes.
proof fn lemma_files_left_alone(
    files: Map<PathView, Seq<u8>>,
    store: StoreView,
    calls: Seq<SentChunk>,
    file: PathView,
    keys: Set<Seq<char>>,
)
    requires
        forall|i: int|
            0 <= i < calls.len() ==> {
                &&& (#[trigger] calls[i]).names().file(store.root) != file
                &&& keys.contains(calls[i].names().run_together())
            },
        nothing_waits_for(store, keys, file),
    ensures
        ({
            let (actions, end) = served(store, calls);
            let after = performed_all(files, actions);
            &&& after.contains_key(file) == files.contains_key(file)
            &&& after[file] == files[file]
            &&& nothing_waits_for(end, keys, file)
            &&& end.root == store.root
        }),
    decreases calls.len(),
{
    if calls.len() > 0 {
        let front = calls.drop_last();
        let last = calls.last();
        assert(last == calls[calls.len() - 1]);
        assert forall|i: int| 0 <= i < front.len() implies {
            &&& (#[trigger] front[i]).names().file(store.root) != file
            &&& keys.contains(front[i].names().run_together())
        } by {
            assert(front[i] == calls[i]);
        }
        lemma_files_left_alone(files, store, front, file, keys);
        let (actions, before) = served(store, front);
        let (more, end) = uploaded_chunk(before, last.actor, last.chunk);
        lemma_performed_one_after_another(files, actions, more);
        lemma_chunk_stays_in_its_upload(before, last, file);
        lemma_performed_elsewhere(performed_all(files, actions), more, file);
        assert forall|k: Seq<char>, i: int|
            keys.contains(k) && end.uploads.contains_key(k) && 0 <= i < end.uploads[k].pending.len() implies append_action(
            end.root,
            #[trigger] end.uploads[k].pending[i],
        ).path() != file by {
            if k != last.names().run_together() {
                assert(end.uploads[k] == before.uploads[k]);
                assert(before.uploads.contains_key(k));
            }
        }
    }
}

/// The chunks of two blobs come mixed in any way: each file gets the bytes of its own chunks in the
/// order of their numbers, no other file changes, and where both blobs consist of full chunks, both
/// uploads are over.
pub proof fn two_blobs_are_put_together_apart(
    files: Map<PathView, Seq<u8>>,
    store: StoreView,
    a: UploadNames,
    b: UploadNames,
    calls: Seq<SentChunk>,
)
    requires
        a.is_apart_from(b),
        forall|i: int|
            0 <= i < calls.len() ==> (#[trigger] calls[i]).names() == a || calls[i].names() == b,
        is_whole_blob(chunks_of(a, calls)),
        is_whole_blob(chunks_of(b, calls)),
        !store.uploads.contains_key(a.run_together()),
        !store.uploads.contains_key(b.run_together()),
        files.contains_key(a.file(store.root)),
        files.contains_key(b.file(store.root)),
    ensures
        ({
            let for_a = chunks_of(a, calls);
            let for_b = chunks_of(b, calls);
            let (actions, end) = served(store, calls);
            &&& performed_all(files, actions) == files.insert(
                a.file(store.root),
                files[a.file(store.root)] + bytes_in_order(for_a, for_a.len()),
            ).insert(
                b.file(store.root),
                files[b.file(store.root)] + bytes_in_order(for_b, for_b.len()),
            )
            &&& for_a.len() * for_a[0].chunk_size <= for_a[0].total_bytes && for_b.len()
                * for_b[0].chunk_size <= for_b[0].total_bytes ==> end == store
        }),
{
    let root = store.root;
    assert forall|i: int| 0 <= i < calls.len() implies (#[trigger] calls[i]).names() == a
        || calls[i].names().is_apart_from(a) by {}
    assert forall|i: int| 0 <= i < calls.len() implies (#[trigger] calls[i]).names() == b
        || calls[i].names().is_apart_from(b) by {}
    blob_is_put_together_among_others(files, store, a, calls);
    blob_is_put_together_among_others(files, store, b, calls);
    lemma_files_differ(a, b, root);
    let for_a = chunks_of(a, calls);
    let for_b = chunks_of(b, calls);
    let (actions, end) = served(store, calls);
    let after = performed_all(files, actions);
    let expected = files.insert(
        a.file(root),
        files[a.file(root)] + bytes_in_order(for_a, for_a.len()),
    ).insert(b.file(root), files[b.file(root)] + bytes_in_order(for_b, for_b.len()));
    assert forall|p: PathView| p != a.file(root) && p != b.file(root) implies #[trigger] after.contains_key(p)
        == files.contains_key(p) && after[p] == files[p] by {
        files_of_other_blobs_are_left_alone(files, store, calls, p);
    }
    assert(after == expected);
    if for_a.len() * for_a[0].chunk_size <= for_a[0].total_bytes && for_b.len()
        * for_b[0].chunk_size <= for_b[0].total_bytes {
        assert forall|k: Seq<char>| #[trigger]
            end.uploads.contains_key(k) == store.uploads.contains_key(k) && end.uploads[k]
            == store.uploads[k] || k == a.run_together() || k == b.run_together() by {
            if k != a.run_together() && k != b.run_together() {
                lemma_served_leaves(store, calls, k);
            }
        }
        assert(end.uploads == store.uploads);
    }
}

/// An upload goes by the actor, the container and the id, one after the other: those of one actor to
/// one container share an upload only where they are for one blob, those of one blob only where they
/// are from one actor, and blobs with one id only where they are in one container.
pub proof fn uploads_go_by_their_names(a: SentChunk, b: SentChunk)
    ensures
        ({
            let key = crate::provider::upload_key(a.actor, a.chunk);
            let other = crate::provider::upload_key(b.actor, b.chunk);
            let x = a.names();
            let y = b.names();
            &&& key == x.actor + x.container + x.id
            &&& key == other <==> x.actor + x.container + x.id == y.actor + y.container + y.id
            &&& x.actor == y.actor && x.container == y.container ==> (key == other <==> x.id == y.id)
            &&& x.actor == y.actor && x.id == y.id ==> (key == other <==> x.container
                == y.container)
            &&& x.container == y.container && x.id == y.id ==> (key == other <==> x.actor
                == y.actor)
        }),
{
    let x = a.names();
    let y = b.names();
    let key = x.run_together();
    let other = y.run_together();
    let m = x.actor.len() as int;
    let n = (x.actor.len() + x.container.len()) as int;
    assert(key.take(m) == x.actor && key.subrange(m, n) == x.container && key.skip(n) == x.id);
    let m = y.actor.len() as int;
    let n = (y.actor.len() + y.container.len()) as int;
    assert(other.take(m) == y.actor && other.subrange(m, n) == y.container && other.skip(n)
        == y.id);
}

} // verus!
