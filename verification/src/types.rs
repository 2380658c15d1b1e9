//! The values that actors and the store exchange, and their mathematical views.

use vstd::prelude::*;

verus! {

/// A container of blobs, named by its id.
#[derive(Debug, PartialEq, Eq)]
pub struct Container {
    pub id: String,
}

/// A blob in a container.
#[derive(Debug, PartialEq, Eq)]
pub struct Blob {
    pub id: String,
    pub container: String,
    /// Number of bytes in the blob.
    pub byte_size: u64,
}

/// A list of blobs.
#[derive(Debug, PartialEq, Eq)]
pub struct BlobList {
    pub blobs: Vec<Blob>,
}

/// One piece of a blob on its way to or from the store.
#[derive(Debug, PartialEq, Eq)]
pub struct FileChunk {
    /// Place of this piece among the pieces of the blob.
    pub sequence_no: u64,
    pub container: String,
    pub id: String,
    /// Number of bytes in the whole blob.
    pub total_bytes: u64,
    /// Number of bytes in every piece but possibly the last.
    pub chunk_size: u64,
    pub chunk_bytes: Vec<u8>,
}

/// A request to be sent a blob piece by piece.
#[derive(Debug, PartialEq, Eq)]
pub struct StreamRequest {
    pub id: String,
    pub container: String,
    /// The wanted number of bytes in a piece; zero leaves the choice to the store.
    pub chunk_size: u64,
}

/// A blob that is being sent piece by piece.
#[derive(Debug, PartialEq, Eq)]
pub struct Transfer {
    pub blob_id: String,
    pub container: String,
    pub chunk_size: u64,
    pub total_size: u64,
    pub total_chunks: u64,
}

/// The configuration of the store: named values. Of two values with one name the later
/// one counts.
#[derive(Debug, PartialEq, Eq)]
pub struct CapabilityConfiguration {
    pub module: String,
    pub values: Vec<(String, String)>,
}

/// What a [`Container`] stands for.
#[verifier::ext_equal]
pub struct ContainerView {
    pub id: Seq<char>,
}

/// What a [`Blob`] stands for.
#[verifier::ext_equal]
pub struct BlobView {
    pub id: Seq<char>,
    pub container: Seq<char>,
    pub byte_size: u64,
}

/// What a [`FileChunk`] stands for.
#[verifier::ext_equal]
pub struct FileChunkView {
    pub sequence_no: u64,
    pub container: Seq<char>,
    pub id: Seq<char>,
    pub total_bytes: u64,
    pub chunk_size: u64,
    pub chunk_bytes: Seq<u8>,
}

/// What a [`StreamRequest`] stands for.
#[verifier::ext_equal]
pub struct StreamRequestView {
    pub id: Seq<char>,
    pub container: Seq<char>,
    pub chunk_size: u64,
}

/// What a [`Transfer`] stands for.
#[verifier::ext_equal]
pub struct TransferView {
    pub blob_id: Seq<char>,
    pub container: Seq<char>,
    pub chunk_size: u64,
    pub total_size: u64,
    pub total_chunks: u64,
}

/// What a [`CapabilityConfiguration`] stands for.
#[verifier::ext_equal]
pub struct ConfigurationView {
    pub module: Seq<char>,
    pub values: Map<Seq<char>, Seq<char>>,
}

impl View for Container {
    type V = ContainerView;

    open spec fn view(&self) -> ContainerView {
        ContainerView { id: self.id@ }
    }
}

impl View for Blob {
    type V = BlobView;

    open spec fn view(&self) -> BlobView {
        BlobView { id: self.id@, container: self.container@, byte_size: self.byte_size }
    }
}

impl View for BlobList {
    type V = Seq<BlobView>;

    open spec fn view(&self) -> Seq<BlobView> {
        self.blobs@.map_values(|blob: Blob| blob@)
    }
}

impl View for FileChunk {
    type V = FileChunkView;

    open spec fn view(&self) -> FileChunkView {
        FileChunkView {
            sequence_no: self.sequence_no,
            container: self.container@,
            id: self.id@,
            total_bytes: self.total_bytes,
            chunk_size: self.chunk_size,
            chunk_bytes: self.chunk_bytes@,
        }
    }
}

impl View for StreamRequest {
    type V = StreamRequestView;

    open spec fn view(&self) -> StreamRequestView {
        StreamRequestView {
            id: self.id@,
            container: self.container@,
            chunk_size: self.chunk_size,
        }
    }
}

impl View for Transfer {
    type V = TransferView;

    open spec fn view(&self) -> TransferView {
        TransferView {
            blob_id: self.blob_id@,
            container: self.container@,
            chunk_size: self.chunk_size,
            total_size: self.total_size,
            total_chunks: self.total_chunks,
        }
    }
}

impl View for CapabilityConfiguration {
    type V = ConfigurationView;

    open spec fn view(&self) -> ConfigurationView {
        ConfigurationView { module: self.module@, values: named_values(self.values@) }
    }
}

/// The value of each name in a list of names and values: the last one that is listed.
pub open spec fn named_values(pairs: Seq<(String, String)>) -> Map<Seq<char>, Seq<char>>
    decreases pairs.len(),
{
    if pairs.len() == 0 {
        Map::empty()
    } else {
        named_values(pairs.drop_last()).insert(pairs.last().0@, pairs.last().1@)
    }
}

impl CapabilityConfiguration {
    /// The value that goes by `name`.
    pub fn value(&self, name: &str) -> (value: Option<String>)
        ensures
            match value {
                Some(text) => self@.values.contains_key(name@) && text@ == self@.values[name@],
                None => !self@.values.contains_key(name@),
            },
    {
        let mut value: Option<String> = None;
        for i in 0..self.values.len()
            invariant
                match value {
                    Some(text) => {
                        &&& named_values(self.values@.take(i as int)).contains_key(name@)
                        &&& text@ == named_values(self.values@.take(i as int))[name@]
                    },
                    None => !named_values(self.values@.take(i as int)).contains_key(name@),
                },
        {
            assert(self.values@.take(i + 1).drop_last() == self.values@.take(i as int));
            if crate::text::same_text(self.values[i].0.as_str(), name) {
                value = Some(self.values[i].1.clone());
            }
        }
        assert(self.values@.take(self.values@.len() as int) == self.values@);
        value
    }
}

/// Of the values with one name the last one counts, and only names that are listed have a value.
pub proof fn last_value_counts(pairs: Seq<(String, String)>, name: Seq<char>, i: int)
    requires
        -1 <= i < pairs.len(),
        i >= 0 ==> pairs[i].0@ == name,
        forall|j: int| i < j < pairs.len() ==> (#[trigger] pairs[j]).0@ != name,
    ensures
        named_values(pairs).contains_key(name) <==> i >= 0,
        i >= 0 ==> named_values(pairs)[name] == pairs[i].1@,
    decreases pairs.len(),
{
    if pairs.len() > 0 && i < pairs.len() - 1 {
        let front = pairs.drop_last();
        assert forall|j: int| i < j < front.len() implies (#[trigger] front[j]).0@ != name by {
            assert(front[j] == pairs[j]);
        }
        assert(pairs[pairs.len() - 1].0@ != name);
        last_value_counts(front, name, i);
    }
}

/// What chunks stand for tells every difference between them.
pub proof fn chunks_are_told_apart(a: FileChunk, b: FileChunk)
    ensures
        a@ == b@ <==> {
            &&& a.sequence_no == b.sequence_no
            &&& a.container@ == b.container@
            &&& a.id@ == b.id@
            &&& a.total_bytes == b.total_bytes
            &&& a.chunk_size == b.chunk_size
            &&& a.chunk_bytes@ == b.chunk_bytes@
        },
{
}

/// What blobs stand for tells every difference between them, and so do lists of blobs, place by
/// place.
pub proof fn blobs_are_told_apart(a: Blob, b: Blob, list: BlobList, other: BlobList)
    ensures
        a@ == b@ <==> a.id@ == b.id@ && a.container@ == b.container@ && a.byte_size == b.byte_size,
        list@ == other@ <==> {
            &&& list.blobs@.len() == other.blobs@.len()
            &&& forall|i: int|
                0 <= i < list.blobs@.len() ==> (#[trigger] list.blobs@[i])@ == other.blobs@[i]@
        },
{
    if list@ == other@ {
        assert(list@.len() == list.blobs@.len() && other@.len() == other.blobs@.len());
        assert forall|i: int| 0 <= i < list.blobs@.len() implies (#[trigger] list.blobs@[i])@
            == other.blobs@[i]@ by {
            assert(list@[i] == list.blobs@[i]@);
            assert(other@[i] == other.blobs@[i]@);
        }
    }
    if list.blobs@.len() == other.blobs@.len() && (forall|i: int|
        0 <= i < list.blobs@.len() ==> (#[trigger] list.blobs@[i])@ == other.blobs@[i]@) {
        assert(list@ == other@);
    }
}

} // verus!
