//! Blobs on their way to an actor, chunk by chunk.

use crate::calls::OP_RECEIVE_CHUNK;
use crate::codec::encode_file_chunk;
use crate::names::sanitize_id;
use crate::types::{
    FileChunk, FileChunkView, StreamRequest, StreamRequestView, Transfer, TransferView,
};
use vstd::prelude::*;

verus! {

/// A message for an actor.
#[derive(Debug, PartialEq, Eq)]
pub struct Message {
    pub actor: String,
    pub op: String,
    pub payload: Vec<u8>,
}

/// The size of the chunks of a download: the wanted one, as far as the machine can count, or the
/// default where none is wanted.
pub open spec fn effective_chunk_size(wanted: u64, default_chunk_size: usize) -> usize {
    if wanted == 0 {
        default_chunk_size
    } else {
        wanted as usize
    }
}

/// The transfer that answers a request for a blob of `byte_size` bytes.
pub open spec fn planned_transfer(
    request: StreamRequestView,
    byte_size: u64,
    default_chunk_size: usize,
) -> TransferView {
    let chunk_size = effective_chunk_size(request.chunk_size, default_chunk_size) as u64;
    TransferView {
        blob_id: crate::names::sanitized(request.id),
        container: crate::names::sanitized(request.container),
        chunk_size,
        total_size: byte_size,
        total_chunks: byte_size / chunk_size,
    }
}

/// Chunk number `i` of a transfer; the first one has number zero.
pub open spec fn sent_chunk(transfer: TransferView, i: usize, bytes: Seq<u8>) -> FileChunkView {
    FileChunkView {
        sequence_no: i as u64,
        container: transfer.container,
        id: transfer.blob_id,
        total_bytes: transfer.total_size,
        chunk_size: transfer.chunk_size,
        chunk_bytes: bytes,
    }
}

/// The size of the chunks of a download.
pub fn chunk_size_for(wanted: u64, default_chunk_size: usize) -> (size: usize)
    ensures
        size == effective_chunk_size(wanted, default_chunk_size),
        wanted == 0 ==> size == default_chunk_size,
        0 < wanted <= usize::MAX ==> size == wanted,
{
    if wanted == 0 {
        default_chunk_size
    } else {
        wanted as usize
    }
}

/// The transfer that answers a request for a blob of `byte_size` bytes.
pub fn plan_transfer(request: &StreamRequest, byte_size: u64, default_chunk_size: usize) -> (transfer:
    Transfer)
    requires
        effective_chunk_size(request@.chunk_size, default_chunk_size) != 0,
    ensures
        transfer@ == planned_transfer(request@, byte_size, default_chunk_size),
        transfer.blob_id@ == crate::names::sanitized(request.id@),
        transfer.container@ == crate::names::sanitized(request.container@),
        transfer.total_size == byte_size,
        request.chunk_size == 0 ==> transfer.chunk_size == default_chunk_size,
        0 < request.chunk_size <= usize::MAX ==> transfer.chunk_size == request.chunk_size,
        transfer.total_chunks == byte_size / transfer.chunk_size,
{
    let chunk_size: u64 = chunk_size_for(request.chunk_size, default_chunk_size) as u64;
    Transfer {
        blob_id: sanitize_id(request.id.as_str()),
        container: sanitize_id(request.container.as_str()),
        total_size: byte_size,
        chunk_size,
        total_chunks: byte_size / chunk_size,
    }
}

/// The message that takes chunk number `i` of a transfer to the actor; none where the chunk could
/// not be read.
pub fn dispatch_chunk(xfer: &Transfer, actor: &str, i: usize, chunk: Option<Vec<u8>>) -> (message:
    Option<Message>)
    ensures
        match chunk {
            Some(bytes) => message matches Some(m) && {
                let sent = sent_chunk(xfer@, i, bytes@);
                &&& m.actor@ == actor@
                &&& m.op@ == OP_RECEIVE_CHUNK@
                &&& m.payload@ == crate::codec::encoded_file_chunk(sent)
                &&& crate::codec::fits_message(sent.id) && crate::codec::fits_message(sent.container)
                    && bytes@.len() <= u32::MAX ==> crate::codec::decoded_file_chunk(m.payload@)
                    == Ok::<FileChunkView, Seq<char>>(sent)
            },
            None => message is None,
        },
        chunk matches Some(bytes) ==> crate::codec::fits_message(xfer@.blob_id)
            && crate::codec::fits_message(xfer@.container) && bytes@.len() <= u32::MAX ==> (
        message matches Some(m) && crate::codec::decoded_file_chunk(m.payload@) matches Ok(received)
            && {
            &&& m.actor@ == actor@
            &&& m.op@ == "ReceiveChunk"@
            &&& received.sequence_no == i
            &&& received.chunk_bytes == bytes@
            &&& received.id == xfer.blob_id@
            &&& received.container == xfer.container@
            &&& received.total_bytes == xfer.total_size
            &&& received.chunk_size == xfer.chunk_size
        }),
{
    match chunk {
        Some(bytes) => {
            let fc = FileChunk {
                sequence_no: i as u64,
                container: xfer.container.clone(),
                id: xfer.blob_id.clone(),
                chunk_bytes: bytes,
                chunk_size: xfer.chunk_size,
                total_bytes: xfer.total_size,
            };
            assert(fc@ == sent_chunk(xfer@, i, bytes@));
            match encode_file_chunk(fc) {
                Ok(payload) => Some(
                    Message { actor: actor.to_owned(), op: OP_RECEIVE_CHUNK.to_owned(), payload },
                ),
                Err(_) => None,
            }
        },
        None => None,
    }
}

/// The number of chunks that a transfer announces is the number of full chunks in the blob: what
/// they hold is no more than the blob, and another full one would be too much.
pub proof fn announced_chunks_are_full(
    request: StreamRequestView,
    byte_size: u64,
    default_chunk_size: usize,
)
    requires
        effective_chunk_size(request.chunk_size, default_chunk_size) != 0,
    ensures
        ({
            let transfer = planned_transfer(request, byte_size, default_chunk_size);
            &&& transfer.total_chunks * transfer.chunk_size <= transfer.total_size
            &&& transfer.total_size < (transfer.total_chunks + 1) * transfer.chunk_size
        }),
{
    let size = effective_chunk_size(request.chunk_size, default_chunk_size) as u64;
    let n = byte_size / size;
    assert(n * size <= byte_size && byte_size < (n + 1) * size) by (nonlinear_arith)
        requires
            n == byte_size / size,
            size > 0,
    ;
}

/// The transfer is about the blob that was asked for, as it is stored, and tells its size. Its
/// chunks have the wanted size, as far as the machine can count, and the default one exactly where
/// no size is wanted.
pub proof fn transfer_keeps_to_the_request(
    request: StreamRequestView,
    byte_size: u64,
    default_chunk_size: usize,
)
    ensures
        ({
            let transfer = planned_transfer(request, byte_size, default_chunk_size);
            &&& transfer.blob_id == crate::names::sanitized(request.id)
            &&& transfer.container == crate::names::sanitized(request.container)
            &&& transfer.total_size == byte_size
            &&& request.chunk_size == 0 ==> transfer.chunk_size == default_chunk_size
            &&& 0 < request.chunk_size <= usize::MAX ==> transfer.chunk_size == request.chunk_size
            &&& request.chunk_size != 0 ==> transfer.chunk_size == request.chunk_size as usize
        }),
{
}

/// Piece number `i` of what a file holds, cut every `size` bytes.
pub open spec fn piece(contents: Seq<u8>, size: int, i: int) -> Seq<u8> {
    contents.subrange(cut(contents, size, i), cut(contents, size, i + 1))
}

/// Where piece number `i` begins: after as many pieces, or at the end.
pub open spec fn cut(contents: Seq<u8>, size: int, i: int) -> int {
    if i * size < contents.len() {
        i * size
    } else {
        contents.len() as int
    }
}

/// What an actor makes of the chunks that it received, in whatever order: the bytes of those with
/// the numbers from zero to `n`, in the order of the numbers.
pub open spec fn put_together(received: Seq<FileChunkView>, n: nat) -> Seq<u8>
    decreases n,
{
    if n == 0 {
        Seq::empty()
    } else {
        put_together(received, (n - 1) as nat) + received[crate::uploads::position(
            received,
            (n - 1) as u64,
        )].chunk_bytes
    }
}

/// The chunks of a transfer are numbered from zero on, each number once: two different pieces go
/// by different numbers, and a later piece by a greater one.
pub proof fn pieces_are_numbered_in_order(
    transfer: TransferView,
    i: usize,
    first: Seq<u8>,
    j: usize,
    second: Seq<u8>,
)
    ensures
        sent_chunk(transfer, 0, first).sequence_no == 0,
        sent_chunk(transfer, i, first).sequence_no == i,
        i < j ==> sent_chunk(transfer, i, first).sequence_no < sent_chunk(
            transfer,
            j,
            second,
        ).sequence_no,
        sent_chunk(transfer, i, first).chunk_bytes == first,
        sent_chunk(transfer, i, first).total_bytes == transfer.total_size,
        sent_chunk(transfer, i, first).chunk_size == transfer.chunk_size,
        sent_chunk(transfer, i, first).id == transfer.blob_id,
        sent_chunk(transfer, i, first).container == transfer.container,
{
}

/// An actor that received the chunks of a transfer, in whatever order, has what the file holds: by
/// their numbers it puts them together.
pub proof fn received_chunks_make_the_blob(
    transfer: TransferView,
    contents: Seq<u8>,
    n: usize,
    received: Seq<FileChunkView>,
)
    requires
        transfer.chunk_size > 0,
        n * transfer.chunk_size >= contents.len(),
        received.to_multiset() == Seq::new(
            n as nat,
            |i: int| sent_chunk(transfer, i as usize, piece(contents, transfer.chunk_size as int, i)),
        ).to_multiset(),
    ensures
        put_together(received, n as nat) == contents,
{
    let size = transfer.chunk_size as int;
    let sent = Seq::new(
        n as nat,
        |i: int| sent_chunk(transfer, i as usize, piece(contents, size, i)),
    );
    lemma_put_together(transfer, contents, sent, n as nat, received);
    assert(cut(contents, size, n as int) == contents.len());
    assert(contents.take(contents.len() as int) == contents);
}

/// The first `k` chunks by their numbers are the first `k` pieces.
proof fn lemma_put_together(
    transfer: TransferView,
    contents: Seq<u8>,
    sent: Seq<FileChunkView>,
    k: nat,
    received: Seq<FileChunkView>,
)
    requires
        transfer.chunk_size > 0,
        k <= sent.len() <= usize::MAX,
        forall|i: int|
            0 <= i < sent.len() ==> #[trigger] sent[i] == sent_chunk(
                transfer,
                i as usize,
                piece(contents, transfer.chunk_size as int, i),
            ),
        received.to_multiset() == sent.to_multiset(),
    ensures
        put_together(received, k) == contents.take(cut(contents, transfer.chunk_size as int, k as int)),
    decreases k,
{
    let size = transfer.chunk_size as int;
    if k == 0 {
        assert(cut(contents, size, 0) == 0);
        assert(contents.take(0) == Seq::<u8>::empty());
    } else {
        let i = k - 1;
        lemma_put_together(transfer, contents, sent, i as nat, received);
        received.to_multiset_ensures();
        sent.to_multiset_ensures();
        let no = i as u64;
        assert(sent[i].sequence_no == no);
        assert(sent.contains(sent[i]));
        assert(sent.to_multiset().count(sent[i]) > 0);
        assert(received.to_multiset().count(sent[i]) > 0);
        assert(received.contains(sent[i]));
        let m = choose|m: int| 0 <= m < received.len() && received[m] == sent[i];
        crate::uploads::lemma_position(received, no);
        let at = crate::uploads::position(received, no);
        assert(at <= m);
        assert(received.contains(received[at]));
        assert(received.to_multiset().count(received[at]) > 0);
        assert(sent.to_multiset().count(received[at]) > 0);
        assert(sent.contains(received[at]));
        let j = choose|j: int| 0 <= j < sent.len() && sent[j] == received[at];
        assert(sent[j].sequence_no == j);
        assert(j == i);
        assert(i * size <= k * size) by (nonlinear_arith)
            requires
                i == k - 1,
                size > 0,
        ;
        assert(i * size >= 0) by (nonlinear_arith)
            requires
                i >= 0,
                size > 0,
        ;
        let from = cut(contents, size, i);
        let to = cut(contents, size, k as int);
        assert(0 <= from <= to <= contents.len());
        assert(received[at].chunk_bytes == contents.subrange(from, to));
        assert(contents.take(from) + contents.subrange(from, to) == contents.take(to));
        assert(put_together(received, k) == put_together(received, i as nat)
            + received[at].chunk_bytes);
    }
}

} // verus!
