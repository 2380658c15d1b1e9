//! What holds of an upload as a whole: its chunks may come in any order, and the file is put
//! together in the right one.

use crate::calls::{CallErrorView, RequestView};
use crate::paths::PathView;
use crate::provider::StoreView;
use crate::steps::{ActionView, EventView, StepView, TaskView};
use crate::types::FileChunkView;
use crate::uploads::QueueView;
use vstd::prelude::*;

verus! {

/// The action that writes a chunk.
pub open spec fn append_action(root: Seq<char>, chunk: FileChunkView) -> ActionView {
    ActionView::AppendToFile {
        path: crate::paths::blob_path(
            root,
            crate::names::sanitized(chunk.container),
            crate::names::sanitized(chunk.id),
        ),
        bytes: chunk.chunk_bytes,
    }
}

/// The actions that write the chunks, one after the other.
pub open spec fn append_actions(root: Seq<char>, chunks: Seq<FileChunkView>) -> Seq<ActionView> {
    chunks.map_values(|chunk: FileChunkView| append_action(root, chunk))
}

/// How many chunks wait in the upload that the step is about.
pub open spec fn waiting(store: StoreView, step: StepView) -> nat {
    match step {
        StepView::Perform { action, task: TaskView::ContinueUpload { key, total_chunk_count } } =>
            store.uploads[key].pending.len(),
        _ => 0,
    }
}

/// The actions of a call of which every write takes all its bytes, from a step on, and the store
/// at the end.
pub open spec fn written_out(store: StoreView, step: StepView) -> (Seq<ActionView>, StoreView)
    decreases waiting(store, step),
{
    match step {
        StepView::Perform {
            action: ActionView::AppendToFile { path, bytes },
            task: TaskView::ContinueUpload { key, total_chunk_count },
        } => {
            let task = TaskView::ContinueUpload { key, total_chunk_count };
            let event = EventView::Appended(bytes.len() as usize);
            if crate::provider::fits(store, task, event) {
                proof {
                    crate::uploads::lemma_position(
                        store.uploads[key].pending,
                        store.uploads[key].expected,
                    );
                }
                let (after, result) = crate::provider::resumed(store, task, event);
                match result {
                    Ok(next) => {
                        let (more, end) = written_out(after, next);
                        (seq![ActionView::AppendToFile { path, bytes }] + more, end)
                    },
                    Err(_) => (seq![ActionView::AppendToFile { path, bytes }], after),
                }
            } else {
                (Seq::empty(), store)
            }
        },
        _ => (Seq::empty(), store),
    }
}

/// The actions of the call that brings a chunk, where every write takes all its bytes, and the
/// store at the end.
pub open spec fn uploaded_chunk(store: StoreView, actor: Seq<char>, chunk: FileChunkView) -> (
    Seq<ActionView>,
    StoreView,
) {
    let (after, step) = crate::provider::begun(
        store,
        actor,
        RequestView::UploadChunk(chunk),
    );
    written_out(after, step)
}

/// The actions of the calls that bring the chunks one after the other, and the store at the end.
pub open spec fn uploaded(store: StoreView, actor: Seq<char>, chunks: Seq<FileChunkView>) -> (
    Seq<ActionView>,
    StoreView,
)
    decreases chunks.len(),
{
    if chunks.len() == 0 {
        (Seq::empty(), store)
    } else {
        let (actions, before) = uploaded(store, actor, chunks.drop_last());
        let (more, end) = uploaded_chunk(before, actor, chunks.last());
        (actions + more, end)
    }
}

/// The chunks that an upload can write at once, in order, and what is left of it then.
pub open spec fn drained(queue: QueueView) -> (Seq<FileChunkView>, QueueView)
    decreases queue.pending.len(),
{
    if queue.has_ready() {
        proof {
            crate::uploads::lemma_position(queue.pending, queue.expected);
        }
        let (more, rest) = drained(queue.advanced());
        (seq![queue.ready()] + more, rest)
    } else {
        (Seq::empty(), queue)
    }
}

/// Draining writes consecutive numbers, starting with the expected one, and loses no chunk.
pub(crate) proof fn lemma_drained(queue: QueueView)
    requires
        queue.expected + queue.pending.len() <= u64::MAX,
    ensures
        ({
            let (chunks, rest) = drained(queue);
            &&& !rest.has_ready()
            &&& rest.expected == queue.expected + chunks.len()
            &&& chunks.len() + rest.pending.len() == queue.pending.len()
            &&& forall|i: int|
                0 <= i < chunks.len() ==> (#[trigger] chunks[i]).sequence_no == queue.expected + i
            &&& forall|c: FileChunkView| chunks.contains(c) ==> queue.pending.contains(c)
            &&& forall|c: FileChunkView| rest.pending.contains(c) ==> queue.pending.contains(c)
            &&& forall|c: FileChunkView|
                queue.pending.contains(c) ==> chunks.contains(c) || rest.pending.contains(c)
        }),
    decreases queue.pending.len(),
{
    if queue.has_ready() {
        let at = crate::uploads::position(queue.pending, queue.expected);
        crate::uploads::lemma_position(queue.pending, queue.expected);
        let first = queue.ready();
        let next = queue.advanced();
        lemma_drained(next);
        let (more, rest) = drained(next);
        let chunks = seq![first] + more;
        assert(drained(queue) == (chunks, rest));
        assert forall|i: int| 0 <= i < chunks.len() implies (#[trigger] chunks[i]).sequence_no
            == queue.expected + i by {
            if i > 0 {
                assert(chunks[i] == more[i - 1]);
            }
        }
        assert forall|c: FileChunkView| next.pending.contains(c) implies queue.pending.contains(c) by {
            let i = choose|i: int| 0 <= i < next.pending.len() && next.pending[i] == c;
            let j = if i < at {
                i
            } else {
                i + 1
            };
            assert(queue.pending[j] == c);
        }
        assert forall|c: FileChunkView| queue.pending.contains(c) implies c == first
            || next.pending.contains(c) by {
            let j = choose|j: int| 0 <= j < queue.pending.len() && queue.pending[j] == c;
            if j != at {
                let i = if j < at {
                    j
                } else {
                    j - 1
                };
                assert(next.pending[i] == c);
            }
        }
        assert(queue.pending[at] == first);
        assert forall|c: FileChunkView| chunks.contains(c) <==> c == first || more.contains(c) by {
            if chunks.contains(c) {
                let i = choose|i: int| 0 <= i < chunks.len() && chunks[i] == c;
                if i > 0 {
                    assert(more[i - 1] == c);
                }
            }
            if c == first {
                assert(chunks[0] == c);
            }
            if more.contains(c) {
                let i = choose|i: int| 0 <= i < more.len() && more[i] == c;
                assert(chunks[i + 1] == c);
            }
        }
    }
}

/// The store when an upload has come to `queue` and nothing of it can be written: it is gone when
/// exactly the full chunks are written.
pub open spec fn rested(
    store: StoreView,
    key: Seq<char>,
    queue: QueueView,
    total_chunk_count: u64,
) -> StoreView {
    if queue.written() == total_chunk_count {
        crate::provider::without_upload(store, key)
    } else {
        crate::provider::with_upload(store, key, queue)
    }
}

/// From a settled upload on, the writes are those of the chunks that it can write at once.
pub(crate) proof fn lemma_written_out(store: StoreView, key: Seq<char>, total_chunk_count: u64)
    requires
        store.uploads.contains_key(key),
        store.uploads[key].expected + store.uploads[key].pending.len() <= u64::MAX,
        forall|i: int|
            0 <= i < store.uploads[key].pending.len() ==> (#[trigger] store.uploads[key].pending[i]).chunk_bytes.len()
                <= usize::MAX,
    ensures
        ({
            let (after, step) = crate::provider::settled(store, key, total_chunk_count);
            let (chunks, rest) = drained(store.uploads[key]);
            written_out(after, step) == (
                append_actions(store.root, chunks),
                rested(store, key, rest, total_chunk_count),
            )
        }),
    decreases store.uploads[key].pending.len(),
{
    let queue = store.uploads[key];
    let (after, step) = crate::provider::settled(store, key, total_chunk_count);
    let (chunks, rest) = drained(queue);
    if queue.has_ready() {
        let at = crate::uploads::position(queue.pending, queue.expected);
        crate::uploads::lemma_position(queue.pending, queue.expected);
        let chunk = queue.ready();
        let next = queue.advanced();
        let store2 = crate::provider::with_upload(store, key, next);
        assert forall|i: int| 0 <= i < next.pending.len() implies (#[trigger] next.pending[i]).chunk_bytes.len()
            <= usize::MAX by {
            let j = if i < at {
                i
            } else {
                i + 1
            };
            assert(next.pending[i] == queue.pending[j]);
        }
        lemma_written_out(store2, key, total_chunk_count);
        let (more, rest2) = drained(next);
        let task = TaskView::ContinueUpload { key, total_chunk_count };
        let event = EventView::Appended(chunk.chunk_bytes.len() as usize);
        assert(chunk.chunk_bytes.len() <= usize::MAX);
        assert(crate::provider::fits(store, task, event));
        let (after2, step2) = crate::provider::settled(store2, key, total_chunk_count);
        assert(crate::provider::resumed(store, task, event) == (
            after2,
            Ok::<StepView, CallErrorView>(step2),
        ));
        assert(append_actions(store.root, chunks) == seq![append_action(store.root, chunk)]
            + append_actions(store.root, more));
        assert(rested(store2, key, rest2, total_chunk_count) == rested(
            store,
            key,
            rest,
            total_chunk_count,
        ));
        assert(step == StepView::Perform { action: append_action(store.root, chunk), task });
    } else {
        assert(append_actions(store.root, chunks) == Seq::<ActionView>::empty());
        assert(crate::provider::with_upload(store, key, queue) == store);
    }
}

/// The chunks that an upload has written after the chunks came one after the other, and what is
/// left of it then, as long as it is not over.
pub open spec fn assembled(chunks: Seq<FileChunkView>) -> (Seq<FileChunkView>, QueueView)
    decreases chunks.len(),
{
    if chunks.len() == 0 {
        (Seq::empty(), QueueView::fresh())
    } else {
        let (written, queue) = assembled(chunks.drop_last());
        let (more, rest) = drained(queue.queued(chunks.last()));
        (written + more, rest)
    }
}

/// What is written is numbered from one on, and every chunk that came is written or waits.
pub(crate) proof fn lemma_assembled(chunks: Seq<FileChunkView>)
    requires
        chunks.len() < u64::MAX,
    ensures
        ({
            let (written, queue) = assembled(chunks);
            &&& !queue.has_ready()
            &&& queue.expected == 1 + written.len()
            &&& written.len() + queue.pending.len() == chunks.len()
            &&& forall|i: int|
                0 <= i < written.len() ==> (#[trigger] written[i]).sequence_no == i + 1
            &&& forall|c: FileChunkView| written.contains(c) ==> chunks.contains(c)
            &&& forall|c: FileChunkView| queue.pending.contains(c) ==> chunks.contains(c)
            &&& forall|c: FileChunkView|
                chunks.contains(c) ==> written.contains(c) || queue.pending.contains(c)
        }),
    decreases chunks.len(),
{
    if chunks.len() > 0 {
        let front = chunks.drop_last();
        let last = chunks.last();
        lemma_assembled(front);
        let (written, queue) = assembled(front);
        let queued = queue.queued(last);
        lemma_drained(queued);
        let (more, rest) = drained(queued);
        let all = written + more;
        assert(assembled(chunks) == (all, rest));
        assert forall|i: int| 0 <= i < all.len() implies (#[trigger] all[i]).sequence_no == i + 1 by {
            if i >= written.len() {
                assert(all[i] == more[i - written.len()]);
            } else {
                assert(all[i] == written[i]);
            }
        }
        assert forall|c: FileChunkView| all.contains(c) <==> written.contains(c) || more.contains(c) by {
            lemma_concat_contains(written, more, c);
        }
        assert forall|c: FileChunkView| queued.pending.contains(c) <==> queue.pending.contains(c) || c
            == last by {
            lemma_push_contains(queue.pending, last, c);
        }
        assert forall|c: FileChunkView| chunks.contains(c) <==> front.contains(c) || c == last by {
            assert(chunks == front.push(last));
            lemma_push_contains(front, last, c);
        }
    }
}

/// What a longer sequence holds.
proof fn lemma_push_contains(s: Seq<FileChunkView>, last: FileChunkView, c: FileChunkView)
    ensures
        s.push(last).contains(c) <==> s.contains(c) || c == last,
{
    if s.push(last).contains(c) {
        let i = choose|i: int| 0 <= i < s.push(last).len() && s.push(last)[i] == c;
        if i < s.len() {
            assert(s[i] == c);
        }
    }
    if s.contains(c) {
        let i = choose|i: int| 0 <= i < s.len() && s[i] == c;
        assert(s.push(last)[i] == c);
    }
    if c == last {
        assert(s.push(last)[s.len() as int] == c);
    }
}

/// What two sequences hold together.
proof fn lemma_concat_contains(s: Seq<FileChunkView>, t: Seq<FileChunkView>, c: FileChunkView)
    ensures
        (s + t).contains(c) <==> s.contains(c) || t.contains(c),
{
    if (s + t).contains(c) {
        let i = choose|i: int| 0 <= i < (s + t).len() && (s + t)[i] == c;
        if i < s.len() {
            assert(s[i] == c);
        } else {
            assert(t[i - s.len()] == c);
        }
    }
    if s.contains(c) {
        let i = choose|i: int| 0 <= i < s.len() && s[i] == c;
        assert((s + t)[i] == c);
    }
    if t.contains(c) {
        let i = choose|i: int| 0 <= i < t.len() && t[i] == c;
        assert((s + t)[i + s.len()] == c);
    }
}

/// The chunks belong to one blob, which goes by the names that it is stored under; they tell the
/// same of it, and their bytes can be counted.
pub open spec fn of_one_blob(chunks: Seq<FileChunkView>) -> bool {
    forall|i: int|
        0 <= i < chunks.len() ==> {
            &&& crate::names::sanitized((#[trigger] chunks[i]).container)
                == crate::names::sanitized(chunks[0].container)
            &&& crate::names::sanitized(chunks[i].id) == crate::names::sanitized(chunks[0].id)
            &&& chunks[i].total_bytes == chunks[0].total_bytes
            &&& chunks[i].chunk_size == chunks[0].chunk_size
            &&& chunks[i].chunk_size != 0
            &&& chunks[i].chunk_bytes.len() <= usize::MAX
        }
}

/// The chunks are numbered from one to the number of chunks: each of these numbers is that of
/// exactly one chunk, and there are no others.
pub open spec fn numbered_once(chunks: Seq<FileChunkView>) -> bool {
    &&& forall|i: int|
        0 <= i < chunks.len() ==> 1 <= (#[trigger] chunks[i]).sequence_no <= chunks.len()
    &&& forall|no: u64|
        1 <= no <= chunks.len() ==> #[trigger] crate::uploads::position(chunks, no) < chunks.len()
    &&& forall|i: int, j: int|
        0 <= i < j < chunks.len() ==> (#[trigger] chunks[i]).sequence_no != (
        #[trigger] chunks[j]).sequence_no
}

/// No call but the last leaves exactly the full chunks of the blob written.
pub open spec fn not_over_early(
    store: StoreView,
    actor: Seq<char>,
    chunks: Seq<FileChunkView>,
) -> bool {
    forall|k: int|
        0 < k < chunks.len() ==> uploaded(store, actor, #[trigger] chunks.take(k)).0.len()
            != crate::provider::total_chunk_count(chunks[0])
}

/// The chunk with the given number.
pub open spec fn chunk_numbered(chunks: Seq<FileChunkView>, no: u64) -> FileChunkView {
    chunks[crate::uploads::position(chunks, no)]
}

/// The bytes that a series of writes appends.
pub open spec fn appended_bytes(actions: Seq<ActionView>) -> Seq<u8>
    decreases actions.len(),
{
    if actions.len() == 0 {
        Seq::empty()
    } else {
        appended_bytes(actions.drop_last()) + match actions.last() {
            ActionView::AppendToFile { path, bytes } => bytes,
            _ => Seq::empty(),
        }
    }
}

/// The bytes of the chunks with the numbers from one to `n`, in this order.
pub open spec fn bytes_in_order(chunks: Seq<FileChunkView>, n: nat) -> Seq<u8>
    decreases n,
{
    if n == 0 {
        Seq::empty()
    } else {
        bytes_in_order(chunks, (n - 1) as nat) + chunk_numbered(chunks, n as u64).chunk_bytes
    }
}

/// The calls that bring the chunks of a new upload write what [`assembled`] says, unless one of
/// them but the last ends the upload.
proof fn lemma_uploaded(store: StoreView, actor: Seq<char>, chunks: Seq<FileChunkView>)
    requires
        0 < chunks.len() < u64::MAX - 1,
        of_one_blob(chunks),
        !store.uploads.contains_key(crate::provider::upload_key(actor, chunks[0])),
        not_over_early(store, actor, chunks),
    ensures
        uploaded(store, actor, chunks) == (
            append_actions(store.root, assembled(chunks).0),
            rested(
                store,
                crate::provider::upload_key(actor, chunks[0]),
                assembled(chunks).1,
                crate::provider::total_chunk_count(chunks[0]),
            ),
        ),
    decreases chunks.len(),
{
    let key = crate::provider::upload_key(actor, chunks[0]);
    let total = crate::provider::total_chunk_count(chunks[0]);
    let front = chunks.drop_last();
    let last = chunks.last();
    let (written, queue) = assembled(front);
    let (actions, before) = uploaded(store, actor, front);
    lemma_assembled(front);
    assert(last == chunks[chunks.len() - 1]);
    assert(crate::provider::upload_key(actor, last) == key);
    assert(crate::provider::total_chunk_count(last) == total);
    if front.len() > 0 {
        assert forall|i: int| 0 <= i < front.len() implies {
            &&& crate::names::sanitized((#[trigger] front[i]).container)
                == crate::names::sanitized(front[0].container)
            &&& crate::names::sanitized(front[i].id) == crate::names::sanitized(front[0].id)
            &&& front[i].total_bytes == front[0].total_bytes
            &&& front[i].chunk_size == front[0].chunk_size
            &&& front[i].chunk_size != 0
            &&& front[i].chunk_bytes.len() <= usize::MAX
        } by {
            assert(front[i] == chunks[i]);
        }
        assert(front[0] == chunks[0]);
        assert(not_over_early(store, actor, front)) by {
            assert forall|k: int| 0 < k < front.len() implies uploaded(
                store,
                actor,
                #[trigger] front.take(k),
            ).0.len() != total by {
                assert(front.take(k) == chunks.take(k));
            }
        }
        lemma_uploaded(store, actor, front);
        assert(front == chunks.take(front.len() as int));
        assert(actions.len() == written.len());
        assert(before == crate::provider::with_upload(store, key, queue));
    } else {
        assert(actions == append_actions(store.root, written));
        assert(before == store);
    }
    assert(crate::provider::upload_of(before, key) == queue);
    let queued = queue.queued(last);
    let store2 = crate::provider::with_upload(before, key, queued);
    assert forall|i: int| 0 <= i < queued.pending.len() implies (#[trigger] queued.pending[i]).chunk_bytes.len()
        <= usize::MAX by {
        if i < queue.pending.len() {
            let c = queue.pending[i];
            assert(queued.pending[i] == c);
            assert(queue.pending.contains(c));
            assert(front.contains(c));
            let j = choose|j: int| 0 <= j < front.len() && front[j] == c;
            assert(front[j] == chunks[j]);
        }
    }
    lemma_written_out(store2, key, total);
    let (more, rest) = drained(queued);
    assert(append_actions(store.root, written + more) == append_actions(store.root, written)
        + append_actions(store.root, more));
    assert(rested(store2, key, rest, total) == rested(store, key, rest, total));
}

/// Where every number is there once, all chunks are written in the order of their numbers, and none
/// waits.
pub(crate) proof fn lemma_assembled_in_order(chunks: Seq<FileChunkView>)
    requires
        chunks.len() < u64::MAX - 1,
        numbered_once(chunks),
    ensures
        ({
            let (written, queue) = assembled(chunks);
            &&& written.len() == chunks.len()
            &&& queue == (QueueView {
                expected: (chunks.len() + 1) as u64,
                pending: Seq::empty(),
            })
            &&& forall|i: int|
                0 <= i < written.len() ==> #[trigger] written[i] == chunk_numbered(
                    chunks,
                    (i + 1) as u64,
                )
        }),
{
    let n = chunks.len();
    let (written, queue) = assembled(chunks);
    lemma_assembled(chunks);
    if written.len() < n {
        // The expected number is that of some chunk, which is neither written nor waiting.
        let no = queue.expected;
        let at = crate::uploads::position(chunks, no);
        crate::uploads::lemma_position(chunks, no);
        assert(at < chunks.len());
        let c = chunks[at];
        assert(chunks.contains(c));
        crate::uploads::lemma_position(queue.pending, no);
        if written.contains(c) {
            let i = choose|i: int| 0 <= i < written.len() && written[i] == c;
            assert(written[i].sequence_no == i + 1);
        } else {
            let i = choose|i: int| 0 <= i < queue.pending.len() && queue.pending[i] == c;
            assert(queue.pending[i].sequence_no == no);
        }
        assert(false);
    }
    assert(queue.pending == Seq::<FileChunkView>::empty());
    assert forall|i: int| 0 <= i < written.len() implies #[trigger] written[i] == chunk_numbered(
        chunks,
        (i + 1) as u64,
    ) by {
        let c = written[i];
        assert(written.contains(c));
        let j = choose|j: int| 0 <= j < chunks.len() && chunks[j] == c;
        let no = (i + 1) as u64;
        crate::uploads::lemma_position(chunks, no);
        let at = crate::uploads::position(chunks, no);
        assert(at < chunks.len());
        assert(chunks[j].sequence_no == chunks[at].sequence_no);
        assert(j == at);
    }
}

/// The chunks of a new upload come in any order, and every write takes all its bytes: each chunk
/// is written once, in the order of the numbers, to the file of the blob. The upload is over when
/// the blob has that many full chunks; else it is left waiting for the next number.
pub proof fn chunks_are_assembled_in_order(
    store: StoreView,
    actor: Seq<char>,
    chunks: Seq<FileChunkView>,
)
    requires
        0 < chunks.len() < u64::MAX - 1,
        of_one_blob(chunks),
        numbered_once(chunks),
        !store.uploads.contains_key(crate::provider::upload_key(actor, chunks[0])),
        not_over_early(store, actor, chunks),
    ensures
        ({
            let (actions, end) = uploaded(store, actor, chunks);
            let key = crate::provider::upload_key(actor, chunks[0]);
            &&& actions.len() == chunks.len()
            &&& forall|i: int|
                0 <= i < actions.len() ==> #[trigger] actions[i] == append_action(
                    store.root,
                    chunk_numbered(chunks, (i + 1) as u64),
                )
            &&& appended_bytes(actions) == bytes_in_order(chunks, chunks.len())
            &&& end == if chunks.len() == crate::provider::total_chunk_count(chunks[0]) {
                store
            } else {
                crate::provider::with_upload(
                    store,
                    key,
                    QueueView { expected: (chunks.len() + 1) as u64, pending: Seq::empty() },
                )
            }
        }),
{
    let key = crate::provider::upload_key(actor, chunks[0]);
    let (written, queue) = assembled(chunks);
    let (actions, end) = uploaded(store, actor, chunks);
    lemma_uploaded(store, actor, chunks);
    lemma_assembled_in_order(chunks);
    assert forall|i: int| 0 <= i < actions.len() implies #[trigger] actions[i] == append_action(
        store.root,
        chunk_numbered(chunks, (i + 1) as u64),
    ) by {
        assert(written[i] == chunk_numbered(chunks, (i + 1) as u64));
    }
    lemma_appended_bytes(store.root, chunks, actions);
    assert(crate::provider::without_upload(store, key) == store);
}

/// Writing the chunks in the order of their numbers appends their bytes in this order.
pub(crate) proof fn lemma_appended_bytes(
    root: Seq<char>,
    chunks: Seq<FileChunkView>,
    actions: Seq<ActionView>,
)
    requires
        forall|i: int|
            0 <= i < actions.len() ==> #[trigger] actions[i] == append_action(
                root,
                chunk_numbered(chunks, (i + 1) as u64),
            ),
    ensures
        appended_bytes(actions) == bytes_in_order(chunks, actions.len()),
    decreases actions.len(),
{
    if actions.len() > 0 {
        let front = actions.drop_last();
        assert forall|i: int| 0 <= i < front.len() implies #[trigger] front[i] == append_action(
            root,
            chunk_numbered(chunks, (i + 1) as u64),
        ) by {
            assert(front[i] == actions[i]);
        }
        lemma_appended_bytes(root, chunks, front);
        assert(actions.last() == actions[actions.len() - 1]);
    }
}

/// As long as no more chunks came than the blob has full ones, no call but the last can have ended
/// the upload.
proof fn lemma_not_over_early(store: StoreView, actor: Seq<char>, chunks: Seq<FileChunkView>)
    requires
        0 < chunks.len() < u64::MAX - 1,
        of_one_blob(chunks),
        !store.uploads.contains_key(crate::provider::upload_key(actor, chunks[0])),
        chunks.len() <= crate::provider::total_chunk_count(chunks[0]),
    ensures
        not_over_early(store, actor, chunks),
    decreases chunks.len(),
{
    let total = crate::provider::total_chunk_count(chunks[0]);
    assert forall|k: int| 0 < k < chunks.len() implies uploaded(
        store,
        actor,
        #[trigger] chunks.take(k),
    ).0.len() != total by {
        let front = chunks.take(k);
        lemma_prefix_of_one_blob(chunks, k);
        lemma_not_over_early(store, actor, front);
        lemma_uploaded(store, actor, front);
        lemma_assembled(front);
    }
}

/// The first chunks of a blob are chunks of the blob.
pub(crate) proof fn lemma_prefix_of_one_blob(chunks: Seq<FileChunkView>, k: int)
    requires
        of_one_blob(chunks),
        0 < k <= chunks.len(),
    ensures
        of_one_blob(chunks.take(k)),
        chunks.take(k)[0] == chunks[0],
{
    let front = chunks.take(k);
    assert forall|i: int| 0 <= i < front.len() implies {
        &&& crate::names::sanitized((#[trigger] front[i]).container)
            == crate::names::sanitized(front[0].container)
        &&& crate::names::sanitized(front[i].id) == crate::names::sanitized(front[0].id)
        &&& front[i].total_bytes == front[0].total_bytes
        &&& front[i].chunk_size == front[0].chunk_size
        &&& front[i].chunk_size != 0
        &&& front[i].chunk_bytes.len() <= usize::MAX
    } by {
        assert(front[i] == chunks[i]);
    }
}

/// A blob that consists of full chunks is complete when they all came, in whatever order, and the
/// upload is over.
pub proof fn full_chunks_make_the_blob(
    store: StoreView,
    actor: Seq<char>,
    chunks: Seq<FileChunkView>,
)
    requires
        0 < chunks.len() < u64::MAX - 1,
        of_one_blob(chunks),
        numbered_once(chunks),
        !store.uploads.contains_key(crate::provider::upload_key(actor, chunks[0])),
        chunks.len() == crate::provider::total_chunk_count(chunks[0]),
    ensures
        appended_bytes(uploaded(store, actor, chunks).0) == bytes_in_order(chunks, chunks.len()),
        uploaded(store, actor, chunks).1 == store,
{
    lemma_not_over_early(store, actor, chunks);
    chunks_are_assembled_in_order(store, actor, chunks);
}

/// A blob whose last chunk is shorter is complete when its chunks all came, in whatever order but
/// one in which the shorter one is the last to come.
pub proof fn shorter_chunk_makes_the_blob(
    store: StoreView,
    actor: Seq<char>,
    chunks: Seq<FileChunkView>,
)
    requires
        0 < chunks.len() < u64::MAX - 1,
        of_one_blob(chunks),
        numbered_once(chunks),
        !store.uploads.contains_key(crate::provider::upload_key(actor, chunks[0])),
        chunks.len() == crate::provider::total_chunk_count(chunks[0]) + 1,
        chunks.len() == 1 || chunks.last().sequence_no != chunks.len(),
    ensures
        appended_bytes(uploaded(store, actor, chunks).0) == bytes_in_order(chunks, chunks.len()),
        uploaded(store, actor, chunks).1 == crate::provider::with_upload(
            store,
            crate::provider::upload_key(actor, chunks[0]),
            QueueView { expected: (chunks.len() + 1) as u64, pending: Seq::empty() },
        ),
{
    let n = chunks.len();
    let total = crate::provider::total_chunk_count(chunks[0]);
    assert forall|k: int| 0 < k < n implies uploaded(store, actor, #[trigger] chunks.take(k)).0.len()
        != total by {
        let front = chunks.take(k);
        lemma_prefix_of_one_blob(chunks, k);
        lemma_not_over_early(store, actor, front);
        lemma_uploaded(store, actor, front);
        lemma_assembled(front);
        let (written, queue) = assembled(front);
        if written.len() == total {
            // All numbers but the greatest are written, among them that of the chunk to come last.
            assert(k == n - 1);
            let last = chunks.last();
            assert(1 <= chunks[n - 1].sequence_no < n);
            let c = written[last.sequence_no - 1];
            assert(c.sequence_no == last.sequence_no);
            assert(written.contains(c));
            let j = choose|j: int| 0 <= j < front.len() && front[j] == c;
            assert(chunks[j] == c);
            assert(chunks[n - 1] == last);
            assert(false);
        }
    }
    chunks_are_assembled_in_order(store, actor, chunks);
}

/// The contents of the files, by their paths, after an action that did not fail and took all its
/// bytes.
pub open spec fn performed(files: Map<PathView, Seq<u8>>, action: ActionView) -> Map<
    PathView,
    Seq<u8>,
> {
    match action {
        ActionView::WriteEmptyFile(path) => files.insert(path, Seq::empty()),
        ActionView::AppendToFile { path, bytes } => if files.contains_key(path) {
            files.insert(path, files[path] + bytes)
        } else {
            files
        },
        ActionView::RemoveFile(path) => files.remove(path),
        _ => files,
    }
}

/// The contents of the files after a series of actions.
pub open spec fn performed_all(files: Map<PathView, Seq<u8>>, actions: Seq<ActionView>) -> Map<
    PathView,
    Seq<u8>,
>
    decreases actions.len(),
{
    if actions.len() == 0 {
        files
    } else {
        performed(performed_all(files, actions.drop_last()), actions.last())
    }
}

/// Appending to one file puts the bytes at its end and leaves the other files as they are.
pub(crate) proof fn lemma_performed_all(
    files: Map<PathView, Seq<u8>>,
    path: PathView,
    actions: Seq<ActionView>,
)
    requires
        files.contains_key(path),
        forall|i: int|
            0 <= i < actions.len() ==> ((#[trigger] actions[i]) matches ActionView::AppendToFile {
                path: p,
                bytes,
            } && p == path),
    ensures
        performed_all(files, actions) == files.insert(path, files[path] + appended_bytes(actions)),
    decreases actions.len(),
{
    if actions.len() > 0 {
        let front = actions.drop_last();
        assert forall|i: int| 0 <= i < front.len() implies ((
        #[trigger] front[i]) matches ActionView::AppendToFile { path: p, bytes } && p == path) by {
            assert(front[i] == actions[i]);
        }
        lemma_performed_all(files, path, front);
        let last = actions[actions.len() - 1];
        assert(last == actions.last());
        match last {
            ActionView::AppendToFile { path: p, bytes } => {
                assert(files[path] + appended_bytes(front) + bytes == files[path] + (appended_bytes(
                    front,
                ) + bytes));
            },
            _ => {},
        }
        assert(performed_all(files, actions) == files.insert(
            path,
            files[path] + appended_bytes(actions),
        ));
    } else {
        assert(files[path] + appended_bytes(actions) == files[path]);
        assert(files.insert(path, files[path]) == files);
    }
}

/// After an upload is announced and its chunks came, in any order in which it is not over early,
/// the file of the blob holds the bytes of the chunks in the order of their numbers, and no other
/// file has changed.
pub proof fn uploaded_blob_is_in_its_file(
    files: Map<PathView, Seq<u8>>,
    store: StoreView,
    actor: Seq<char>,
    announced: FileChunkView,
    chunks: Seq<FileChunkView>,
)
    requires
        0 < chunks.len() < u64::MAX - 1,
        of_one_blob(chunks),
        numbered_once(chunks),
        !store.uploads.contains_key(crate::provider::upload_key(actor, chunks[0])),
        not_over_early(store, actor, chunks),
        crate::names::sanitized(announced.container) == crate::names::sanitized(
            chunks[0].container,
        ),
        crate::names::sanitized(announced.id) == crate::names::sanitized(chunks[0].id),
    ensures
        crate::provider::begun(store, actor, RequestView::StartUpload(announced)).1 matches StepView::Perform {
            action,
            task,
        } && performed_all(performed(files, action), uploaded(store, actor, chunks).0)
            == files.insert(action.path(), bytes_in_order(chunks, chunks.len())),
{
    chunks_are_assembled_in_order(store, actor, chunks);
    let actions = uploaded(store, actor, chunks).0;
    let path = append_action(store.root, announced).path();
    assert forall|i: int| 0 <= i < actions.len() implies ((
    #[trigger] actions[i]) matches ActionView::AppendToFile { path: p, bytes } && p == path) by {
        let no = (i + 1) as u64;
        crate::uploads::lemma_position(chunks, no);
        let at = crate::uploads::position(chunks, no);
        assert(at < chunks.len());
        assert(crate::names::sanitized(chunks[at].container) == crate::names::sanitized(
            chunks[0].container,
        ));
    }
    let files1 = files.insert(path, Seq::empty());
    lemma_performed_all(files1, path, actions);
    assert(files1[path] + appended_bytes(actions) == appended_bytes(actions));
    assert(files1.insert(path, appended_bytes(actions)) == files.insert(
        path,
        appended_bytes(actions),
    ));
}

/// Where the shorter last chunk of a blob is the last to come, the upload is over before: the full
/// chunks are written, and the shorter one is left waiting as if it came too early.
pub proof fn shorter_chunk_that_comes_last_waits(
    store: StoreView,
    actor: Seq<char>,
    chunks: Seq<FileChunkView>,
)
    requires
        1 < chunks.len() < u64::MAX - 1,
        of_one_blob(chunks),
        numbered_once(chunks),
        !store.uploads.contains_key(crate::provider::upload_key(actor, chunks[0])),
        chunks.len() == crate::provider::total_chunk_count(chunks[0]) + 1,
        chunks.last().sequence_no == chunks.len(),
    ensures
        appended_bytes(uploaded(store, actor, chunks).0) == bytes_in_order(
            chunks,
            (chunks.len() - 1) as nat,
        ),
        uploaded(store, actor, chunks).1 == crate::provider::with_upload(
            store,
            crate::provider::upload_key(actor, chunks[0]),
            QueueView::fresh().queued(chunks.last()),
        ),
{
    let n = chunks.len();
    let front = chunks.drop_last();
    let last = chunks.last();
    let key = crate::provider::upload_key(actor, chunks[0]);
    assert(front == chunks.take(n - 1));
    lemma_prefix_of_one_blob(chunks, n - 1);
    assert(chunks[n - 1] == last);
    assert(numbered_once(front)) by {
        assert forall|i: int| 0 <= i < front.len() implies 1 <= (#[trigger] front[i]).sequence_no
            <= front.len() by {
            assert(front[i] == chunks[i]);
        }
        assert forall|no: u64| 1 <= no <= front.len() implies #[trigger] crate::uploads::position(
            front,
            no,
        ) < front.len() by {
            crate::uploads::lemma_position(chunks, no);
            crate::uploads::lemma_position(front, no);
            let at = crate::uploads::position(chunks, no);
            assert(at < n);
            assert(front[at] == chunks[at]);
        }
        assert forall|i: int, j: int| 0 <= i < j < front.len() implies (#[trigger] front[i]).sequence_no
            != (#[trigger] front[j]).sequence_no by {
            assert(front[i] == chunks[i] && front[j] == chunks[j]);
        }
    }
    full_chunks_make_the_blob(store, actor, front);
    lemma_same_bytes_in_order(chunks, front, front.len());
    let queued = QueueView::fresh().queued(last);
    crate::uploads::lemma_position(queued.pending, queued.expected);
    assert(queued.pending[0] == last);
    assert(!queued.has_ready());
    assert(crate::provider::upload_key(actor, last) == key);
    assert(uploaded_chunk(store, actor, last) == (
        Seq::<ActionView>::empty(),
        crate::provider::with_upload(store, key, queued),
    ));
    let actions = uploaded(store, actor, front).0;
    assert(actions + Seq::<ActionView>::empty() == actions);
}

/// The bytes of the first numbers do not change with a chunk that has a greater one.
proof fn lemma_same_bytes_in_order(chunks: Seq<FileChunkView>, front: Seq<FileChunkView>, n: nat)
    requires
        chunks.len() > 0,
        front == chunks.drop_last(),
        numbered_once(front),
        n <= front.len() < u64::MAX,
    ensures
        bytes_in_order(chunks, n) == bytes_in_order(front, n),
    decreases n,
{
    if n > 0 {
        let no = n as u64;
        lemma_same_bytes_in_order(chunks, front, (n - 1) as nat);
        crate::uploads::lemma_position(chunks, no);
        crate::uploads::lemma_position(front, no);
        let a = crate::uploads::position(chunks, no);
        let b = crate::uploads::position(front, no);
        assert(b < front.len());
        assert(chunks[b] == front[b]);
        assert(a <= b);
        assert(chunks[a] == front[a]);
        assert(a == b);
    }
}

/// A chunk whose turn it is not is neither written nor lost: it waits, or is dropped with an upload
/// that has all its full chunks.
pub proof fn chunk_out_of_turn_waits(store: StoreView, actor: Seq<char>, chunk: FileChunkView)
    requires
        ({
            let queue = crate::provider::upload_of(store, crate::provider::upload_key(actor, chunk));
            !queue.has_ready() && chunk.sequence_no != queue.expected
        }),
    ensures
        ({
            let key = crate::provider::upload_key(actor, chunk);
            let queue = crate::provider::upload_of(store, key);
            crate::provider::chunk_received(store, actor, chunk) == (
                rested(
                    store,
                    key,
                    queue.queued(chunk),
                    crate::provider::total_chunk_count(chunk),
                ),
                StepView::Reply(Seq::empty()),
            )
        }),
{
    let key = crate::provider::upload_key(actor, chunk);
    let queue = crate::provider::upload_of(store, key);
    let queued = queue.queued(chunk);
    crate::uploads::lemma_position(queue.pending, queue.expected);
    crate::uploads::lemma_position(queued.pending, queued.expected);
    let at = crate::uploads::position(queued.pending, queued.expected);
    if at < queued.pending.len() {
        if at < queue.pending.len() {
            assert(queued.pending[at] == queue.pending[at]);
        }
        assert(false);
    }
    assert(crate::provider::without_upload(
        crate::provider::with_upload(store, key, queued),
        key,
    ) == crate::provider::without_upload(store, key));
}

/// A chunk whose write failed is written again with the next chunk that comes, before anything
/// else.
pub proof fn unwritten_chunk_is_tried_again(
    store: StoreView,
    actor: Seq<char>,
    chunk: FileChunkView,
)
    requires
        store.uploads.contains_key(crate::provider::upload_key(actor, chunk)),
        store.uploads[crate::provider::upload_key(actor, chunk)].has_ready(),
    ensures
        ({
            let key = crate::provider::upload_key(actor, chunk);
            let queue = store.uploads[key];
            crate::provider::chunk_received(store, actor, chunk) == (
                crate::provider::with_upload(store, key, queue.queued(chunk)),
                StepView::Perform {
                    action: append_action(store.root, queue.ready()),
                    task: TaskView::ContinueUpload {
                        key,
                        total_chunk_count: crate::provider::total_chunk_count(chunk),
                    },
                },
            )
        }),
{
    let key = crate::provider::upload_key(actor, chunk);
    let queue = store.uploads[key];
    let queued = queue.queued(chunk);
    crate::uploads::lemma_position(queue.pending, queue.expected);
    crate::uploads::lemma_position(queued.pending, queued.expected);
    let a = crate::uploads::position(queue.pending, queue.expected);
    let b = crate::uploads::position(queued.pending, queued.expected);
    assert(queued.pending[a] == queue.pending[a]);
    assert(b <= a);
    assert(queued.pending[b] == queue.pending[b]);
    assert(a == b);
}

/// A chunk does nothing to other uploads, neither when it comes nor when it is written.
pub proof fn other_uploads_are_left_alone(
    store: StoreView,
    actor: Seq<char>,
    chunk: FileChunkView,
    key: Seq<char>,
    total_chunk_count: u64,
    count: usize,
    other: Seq<char>,
)
    requires
        other != crate::provider::upload_key(actor, chunk),
        other != key,
    ensures
        ({
            let came = crate::provider::chunk_received(store, actor, chunk).0;
            &&& came.uploads.contains_key(other) == store.uploads.contains_key(other)
            &&& came.uploads[other] == store.uploads[other]
        }),
        ({
            let wrote = crate::provider::chunk_appended(store, key, total_chunk_count, count).0;
            &&& wrote.uploads.contains_key(other) == store.uploads.contains_key(other)
            &&& wrote.uploads[other] == store.uploads[other]
        }),
{
}

/// The first chunk among those that wait that has the number is at index `i`.
pub open spec fn is_next(waiting: Seq<FileChunkView>, no: int, i: int) -> bool {
    &&& 0 <= i < waiting.len()
    &&& waiting[i].sequence_no == no
    &&& forall|j: int| 0 <= j < i ==> (#[trigger] waiting[j]).sequence_no != no
}

/// An upload has come to the number `no` with the chunks that wait. The first one with this number
/// is written to its file. Where there is none, the call is answered with nothing, and the upload
/// is over exactly when as many chunks are written as the blob has full ones. Nothing else in the
/// store changes.
pub open spec fn goes_on(
    store: StoreView,
    key: Seq<char>,
    no: int,
    waiting: Seq<FileChunkView>,
    full_chunks: u64,
    after: StoreView,
    step: StepView,
) -> bool {
    &&& after.root == store.root
    &&& after.uploads.remove(key) == store.uploads.remove(key)
    &&& after.uploads.contains_key(key) ==> after.uploads[key].expected == no
        && after.uploads[key].pending == waiting
    &&& forall|i: int| #[trigger]
        is_next(waiting, no, i) ==> {
            &&& after.uploads.contains_key(key)
            &&& step == StepView::Perform {
                action: ActionView::AppendToFile {
                    path: PathView {
                        root: store.root,
                        names: seq![
                            crate::names::sanitized(waiting[i].container),
                            crate::names::sanitized(waiting[i].id),
                        ],
                    },
                    bytes: waiting[i].chunk_bytes,
                },
                task: TaskView::ContinueUpload { key, total_chunk_count: full_chunks },
            }
        }
    &&& (forall|i: int| !#[trigger] is_next(waiting, no, i)) ==> {
        &&& step matches StepView::Reply(bytes) && bytes.len() == 0
        &&& after.uploads.contains_key(key) <==> no != full_chunks + 1
    }
}

/// A settled upload goes on as it should.
proof fn lemma_settled_goes_on(store: StoreView, key: Seq<char>, total_chunk_count: u64)
    requires
        store.uploads.contains_key(key),
    ensures
        ({
            let (after, step) = crate::provider::settled(store, key, total_chunk_count);
            let queue = store.uploads[key];
            goes_on(store, key, queue.expected as int, queue.pending, total_chunk_count, after, step)
        }),
{
    let queue = store.uploads[key];
    let (after, step) = crate::provider::settled(store, key, total_chunk_count);
    let at = crate::uploads::position(queue.pending, queue.expected);
    crate::uploads::lemma_position(queue.pending, queue.expected);
    assert(after.uploads.remove(key) == store.uploads.remove(key));
    assert forall|i: int| #[trigger] is_next(queue.pending, queue.expected as int, i) implies at == i by {
        if at < i {
            assert(queue.pending[at].sequence_no != queue.expected);
        }
    }
    if at < queue.pending.len() {
        assert(is_next(queue.pending, queue.expected as int, at));
    }
}

/// A chunk that comes joins those of its upload that wait; a new upload begins with number one. The
/// blob has as many full chunks as fit into its size.
pub proof fn chunk_joins_its_upload(
    store: StoreView,
    actor: Seq<char>,
    chunk: FileChunkView,
    full_chunks: u64,
)
    requires
        full_chunks * chunk.chunk_size <= chunk.total_bytes,
        chunk.total_bytes < (full_chunks + 1) * chunk.chunk_size,
    ensures
        ({
            let (after, step) = crate::provider::begun(
                store,
                actor,
                RequestView::UploadChunk(chunk),
            );
            let key = actor + crate::names::sanitized(chunk.container) + crate::names::sanitized(
                chunk.id,
            );
            &&& RequestView::UploadChunk(chunk).is_acceptable()
            &&& store.uploads.contains_key(key) ==> goes_on(
                store,
                key,
                store.uploads[key].expected as int,
                store.uploads[key].pending.push(chunk),
                full_chunks,
                after,
                step,
            )
            &&& !store.uploads.contains_key(key) ==> goes_on(
                store,
                key,
                1,
                seq![chunk],
                full_chunks,
                after,
                step,
            )
        }),
{
    let key = crate::provider::upload_key(actor, chunk);
    let bytes = chunk.total_bytes as int;
    let size = chunk.chunk_size as int;
    let full = full_chunks as int;
    assert(size > 0) by (nonlinear_arith)
        requires
            full * size <= bytes,
            bytes < (full + 1) * size,
            full >= 0,
            size >= 0,
    ;
    assert(bytes / size == full) by (nonlinear_arith)
        requires
            full * size <= bytes,
            bytes < (full + 1) * size,
            size > 0,
    ;
    let queue = crate::provider::upload_of(store, key).queued(chunk);
    let joined = crate::provider::with_upload(store, key, queue);
    lemma_settled_goes_on(joined, key, crate::provider::total_chunk_count(chunk));
    assert(joined.uploads.remove(key) == store.uploads.remove(key));
    if !store.uploads.contains_key(key) {
        assert(queue.pending == seq![chunk]);
    }
}

/// A write that did not take all the bytes of the chunk fails the call with what it took, and
/// everything stays as it was. One that took them all takes the chunk out of those that wait, and
/// the upload goes on with the next number.
pub proof fn written_chunk_is_done(
    store: StoreView,
    key: Seq<char>,
    full_chunks: u64,
    count: usize,
    i: int,
)
    requires
        store.uploads.contains_key(key),
        is_next(store.uploads[key].pending, store.uploads[key].expected as int, i),
        store.uploads[key].expected < u64::MAX,
        store.uploads[key].pending[i].chunk_bytes.len() <= usize::MAX,
    ensures
        ({
            let queue = store.uploads[key];
            let size = queue.pending[i].chunk_bytes.len();
            let task = TaskView::ContinueUpload { key, total_chunk_count: full_chunks };
            let (after, result) = crate::provider::resumed(store, task, EventView::Appended(count));
            &&& crate::provider::fits(store, task, EventView::Appended(count))
            &&& count != size ==> after == store && result == Err::<StepView, CallErrorView>(
                CallErrorView::ShortWrite { written: count, expected: size as usize },
            )
            &&& count == size ==> (result matches Ok(step) && goes_on(
                store,
                key,
                queue.expected + 1,
                queue.pending.remove(i),
                full_chunks,
                after,
                step,
            ))
        }),
{
    let queue = store.uploads[key];
    let at = crate::uploads::position(queue.pending, queue.expected);
    crate::uploads::lemma_position(queue.pending, queue.expected);
    if at < i {
        assert(queue.pending[at].sequence_no != queue.expected);
    }
    assert(at == i);
    let next = crate::provider::with_upload(store, key, queue.advanced());
    lemma_settled_goes_on(next, key, full_chunks);
    assert(next.uploads.remove(key) == store.uploads.remove(key));
}

/// A write is one of a chunk that waits: nothing else can have been written, and the number of the
/// chunk is not the last that can be counted where all of it was written.
pub proof fn only_a_waiting_chunk_is_written(
    store: StoreView,
    key: Seq<char>,
    total_chunk_count: u64,
    count: usize,
)
    ensures
        crate::provider::fits(
            store,
            TaskView::ContinueUpload { key, total_chunk_count },
            EventView::Appended(count),
        ) <==> {
            &&& store.uploads.contains_key(key)
            &&& exists|i: int|
                {
                    &&& #[trigger] is_next(
                        store.uploads[key].pending,
                        store.uploads[key].expected as int,
                        i,
                    )
                    &&& count != store.uploads[key].pending[i].chunk_bytes.len()
                        || store.uploads[key].expected < u64::MAX
                }
        },
{
    let queue = store.uploads[key];
    let at = crate::uploads::position(queue.pending, queue.expected);
    crate::uploads::lemma_position(queue.pending, queue.expected);
    if at < queue.pending.len() {
        assert(is_next(queue.pending, queue.expected as int, at));
    }
    assert forall|i: int| #[trigger] is_next(queue.pending, queue.expected as int, i) implies at == i by {
        if at < i {
            assert(queue.pending[at].sequence_no != queue.expected);
        }
    }
}

} // verus!
