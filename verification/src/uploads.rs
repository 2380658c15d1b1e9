//! Uploads under way: the chunks of a blob may come in any order and are written in the order
//! of their sequence numbers.

use crate::types::{FileChunk, FileChunkView};
use vstd::prelude::*;

verus! {

/// The sequence number of the first chunk of an upload.
pub const FIRST_SEQ_NBR: u64 = 1;

/// One upload: the sequence number of the chunk that is to be written next, and the chunks that
/// came and are not written yet, in the order in which they came.
#[derive(Debug)]
pub struct UploadQueue {
    pub expected: u64,
    pub pending: Vec<FileChunk>,
}

/// What an [`UploadQueue`] stands for.
#[verifier::ext_equal]
pub struct QueueView {
    pub expected: u64,
    pub pending: Seq<FileChunkView>,
}

impl View for UploadQueue {
    type V = QueueView;

    open spec fn view(&self) -> QueueView {
        QueueView {
            expected: self.expected,
            pending: self.pending@.map_values(|chunk: FileChunk| chunk@),
        }
    }
}

/// The index of the first chunk with sequence number `no`, or the number of chunks where there is
/// none.
pub open spec fn position(chunks: Seq<FileChunkView>, no: u64) -> int
    decreases chunks.len(),
{
    if chunks.len() == 0 || chunks[0].sequence_no == no {
        0
    } else {
        1 + position(chunks.skip(1), no)
    }
}

/// What [`position`] is: the one index before which no chunk has the number, and at which one has
/// it or the chunks end.
pub proof fn lemma_position(chunks: Seq<FileChunkView>, no: u64)
    ensures
        0 <= position(chunks, no) <= chunks.len(),
        position(chunks, no) < chunks.len() ==> chunks[position(chunks, no)].sequence_no == no,
        forall|j: int| 0 <= j < position(chunks, no) ==> chunks[j].sequence_no != no,
    decreases chunks.len(),
{
    if chunks.len() > 0 && chunks[0].sequence_no != no {
        lemma_position(chunks.skip(1), no);
        assert forall|j: int| 0 <= j < position(chunks, no) implies chunks[j].sequence_no != no by {
            if j > 0 {
                assert(chunks[j] == chunks.skip(1)[j - 1]);
            }
        }
    }
}

impl QueueView {
    /// An upload of which no chunk has come.
    pub open spec fn fresh() -> QueueView {
        QueueView { expected: FIRST_SEQ_NBR, pending: Seq::empty() }
    }

    /// The number of chunks that are written.
    pub open spec fn written(self) -> int {
        self.expected - FIRST_SEQ_NBR
    }

    /// Whether the chunk that is to be written next is there.
    pub open spec fn has_ready(self) -> bool {
        position(self.pending, self.expected) < self.pending.len()
    }

    /// The chunk that is to be written next: the first one that came with that number.
    pub open spec fn ready(self) -> FileChunkView
        recommends
            self.has_ready(),
    {
        self.pending[position(self.pending, self.expected)]
    }

    /// The upload after `chunk` came.
    pub open spec fn queued(self, chunk: FileChunkView) -> QueueView {
        QueueView { expected: self.expected, pending: self.pending.push(chunk) }
    }

    /// The upload after the chunk that was to be written next is written.
    pub open spec fn advanced(self) -> QueueView
        recommends
            self.has_ready(),
            self.expected < u64::MAX,
    {
        QueueView {
            expected: (self.expected + 1) as u64,
            pending: self.pending.remove(position(self.pending, self.expected)),
        }
    }
}

impl UploadQueue {
    /// An upload of which no chunk has come.
    pub fn new() -> (queue: UploadQueue)
        ensures
            queue@ == QueueView::fresh(),
    {
        let queue = UploadQueue { expected: FIRST_SEQ_NBR, pending: Vec::new() };
        assert(queue@ == QueueView::fresh());
        queue
    }

    /// Adds a chunk that came.
    pub fn push(&mut self, chunk: FileChunk)
        ensures
            final(self)@ == old(self)@.queued(chunk@),
    {
        self.pending.push(chunk);
        assert(self@.pending == old(self)@.pending.push(chunk@));
    }

    /// The index of the chunk that is to be written next, if it is there.
    pub fn ready_index(&self) -> (index: Option<usize>)
        ensures
            match index {
                Some(i) => self@.has_ready() && i == position(self@.pending, self@.expected),
                None => !self@.has_ready(),
            },
    {
        proof {
            lemma_position(self@.pending, self@.expected);
        }
        for i in 0..self.pending.len()
            invariant
                forall|j: int| 0 <= j < i ==> self@.pending[j].sequence_no != self.expected,
                0 <= position(self@.pending, self@.expected) <= self@.pending.len(),
                position(self@.pending, self@.expected) < self@.pending.len()
                    ==> self@.pending[position(self@.pending, self@.expected)].sequence_no
                    == self.expected,
                forall|j: int|
                    0 <= j < position(self@.pending, self@.expected)
                        ==> self@.pending[j].sequence_no != self.expected,
        {
            if self.pending[i].sequence_no == self.expected {
                assert(self@.pending[i as int].sequence_no == self.expected);
                return Some(i);
            }
        }
        None
    }

    /// Takes the chunk that was to be written next out, now that it is written.
    pub fn advance(&mut self)
        requires
            old(self)@.has_ready(),
            old(self)@.expected < u64::MAX,
        ensures
            final(self)@ == old(self)@.advanced(),
    {
        match self.ready_index() {
            Some(i) => {
                self.pending.remove(i);
                self.expected = self.expected + 1;
                assert(self@.pending == old(self)@.pending.remove(i as int));
            },
            None => {},
        }
    }
}

/// An upload and the key that it goes by.
#[derive(Debug)]
struct UploadEntry {
    key: String,
    queue: UploadQueue,
}

/// The uploads under way, by their keys.
#[derive(Debug)]
pub struct UploadTable {
    entries: Vec<UploadEntry>,
}

impl View for UploadTable {
    type V = Map<Seq<char>, QueueView>;

    closed spec fn view(&self) -> Map<Seq<char>, QueueView> {
        Map::new(
            |key: Seq<char>| self.has_key(key),
            |key: Seq<char>| self.entries@[self.index_of(key)].queue@,
        )
    }
}

impl UploadTable {
    /// Some entry has the key.
    spec fn has_key(&self, key: Seq<char>) -> bool {
        exists|i: int| 0 <= i < self.entries@.len() && (#[trigger] self.entries@[i]).key@ == key
    }

    /// The index of an entry that has the key.
    spec fn index_of(&self, key: Seq<char>) -> int {
        choose|i: int| 0 <= i < self.entries@.len() && (#[trigger] self.entries@[i]).key@ == key
    }

    /// No key occurs twice, and the sequence numbers start where they should.
    pub closed spec fn wf(&self) -> bool {
        &&& forall|i: int, j: int|
            0 <= i < j < self.entries@.len() ==> (#[trigger] self.entries@[i]).key@ != (
            #[trigger] self.entries@[j]).key@
        &&& forall|i: int|
            0 <= i < self.entries@.len() ==> (#[trigger] self.entries@[i]).queue.expected
                >= FIRST_SEQ_NBR
    }

    /// In a well-formed table, the numbers of all uploads start where they should.
    pub proof fn lemma_expected(&self, key: Seq<char>)
        requires
            self.wf(),
            self@.contains_key(key),
        ensures
            self@[key].expected >= FIRST_SEQ_NBR,
    {
        assert(self.has_key(key));
        let i = self.index_of(key);
        assert(self.entries@[i].key@ == key);
    }

    /// What the table holds under the key of an entry is that entry's upload.
    proof fn lemma_entry(&self, i: int)
        requires
            self.wf(),
            0 <= i < self.entries@.len(),
        ensures
            self@.contains_key(self.entries@[i].key@),
            self@[self.entries@[i].key@] == self.entries@[i].queue@,
    {
        let key = self.entries@[i].key@;
        assert(self.has_key(key));
        let j = self.index_of(key);
        assert(self.entries@[j].key@ == key);
        assert(i == j);
    }

    /// A table without uploads.
    pub fn new() -> (table: UploadTable)
        ensures
            table.wf(),
            table@ == Map::<Seq<char>, QueueView>::empty(),
    {
        let table = UploadTable { entries: Vec::new() };
        assert(table@ == Map::<Seq<char>, QueueView>::empty());
        table
    }

    /// The index of the entry that has the key.
    fn find(&self, key: &str) -> (index: Option<usize>)
        ensures
            match index {
                Some(i) => i < self.entries@.len() && self.entries@[i as int].key@ == key@,
                None => !self.has_key(key@),
            },
    {
        for i in 0..self.entries.len()
            invariant
                forall|j: int| 0 <= j < i ==> (#[trigger] self.entries@[j]).key@ != key@,
        {
            if crate::text::same_text(self.entries[i].key.as_str(), key) {
                return Some(i);
            }
        }
        None
    }

    /// The upload that goes by the key.
    pub fn get(&self, key: &str) -> (queue: Option<&UploadQueue>)
        requires
            self.wf(),
        ensures
            match queue {
                Some(q) => self@.contains_key(key@) && self@[key@] == q@,
                None => !self@.contains_key(key@),
            },
    {
        match self.find(key) {
            Some(i) => {
                proof {
                    self.lemma_entry(i as int);
                }
                Some(&self.entries[i].queue)
            },
            None => None,
        }
    }

    /// Takes the upload that goes by the key out of the table.
    pub fn take(&mut self, key: &str) -> (queue: Option<UploadQueue>)
        requires
            old(self).wf(),
        ensures
            final(self).wf(),
            final(self)@ == old(self)@.remove(key@),
            match queue {
                Some(q) => old(self)@.contains_key(key@) && old(self)@[key@] == q@,
                None => !old(self)@.contains_key(key@),
            },
    {
        match self.find(key) {
            Some(i) => {
                proof {
                    self.lemma_entry(i as int);
                }
                let entry = self.entries.remove(i);
                proof {
                    let before = old(self).entries@;
                    let after = self.entries@;
                    assert(after == before.remove(i as int));
                    assert(self.wf());
                    assert forall|k: Seq<char>| self.has_key(k) <==> old(self).has_key(k) && k != key@ by {
                        if self.has_key(k) {
                            let j = self.index_of(k);
                            let at = if j < i { j } else { j + 1 };
                            assert(after[j] == before[at]);
                        }
                        if old(self).has_key(k) && k != key@ {
                            let j = old(self).index_of(k);
                            let at = if j < i { j } else { j - 1 };
                            assert(after[at] == before[j]);
                        }
                    }
                    assert forall|k: Seq<char>| self.has_key(k) implies self@[k] == old(self)@[k] by {
                        let j = self.index_of(k);
                        let at = if j < i { j } else { j + 1 };
                        assert(after[j] == before[at]);
                        self.lemma_entry(j);
                        old(self).lemma_entry(at);
                    }
                    assert(self@ == old(self)@.remove(key@));
                }
                Some(entry.queue)
            },
            None => {
                assert(self@ == old(self)@.remove(key@));
                None
            },
        }
    }

    /// Puts an upload into the table, under a key that no other goes by.
    pub fn put(&mut self, key: String, queue: UploadQueue)
        requires
            old(self).wf(),
            !old(self)@.contains_key(key@),
            queue@.expected >= FIRST_SEQ_NBR,
        ensures
            final(self).wf(),
            final(self)@ == old(self)@.insert(key@, queue@),
    {
        self.entries.push(UploadEntry { key, queue });
        proof {
            let before = old(self).entries@;
            let after = self.entries@;
            let n = before.len() as int;
            assert(!old(self).has_key(key@));
            assert(forall|j: int| 0 <= j < n ==> after[j] == before[j]);
            assert(self.wf());
            self.lemma_entry(n);
            assert forall|k: Seq<char>| self.has_key(k) <==> old(self).has_key(k) || k == key@ by {
                if self.has_key(k) {
                    let j = self.index_of(k);
                    if j < n {
                        assert(before[j].key@ == k);
                    }
                }
                if old(self).has_key(k) {
                    let j = old(self).index_of(k);
                    assert(after[j].key@ == k);
                }
                if k == key@ {
                    assert(after[n].key@ == k);
                }
            }
            assert forall|k: Seq<char>| old(self).has_key(k) implies self@[k] == old(self)@[k] by {
                let j = old(self).index_of(k);
                assert(after[j] == before[j]);
                self.lemma_entry(j);
                old(self).lemma_entry(j);
            }
            assert(self@ == old(self)@.insert(key@, queue@));
        }
    }

    /// The number of uploads under way.
    pub fn len(&self) -> (n: usize)
        requires
            self.wf(),
        ensures
            self@.dom().finite(),
            n == self@.dom().len(),
    {
        proof {
            let keys = self.entries@.map_values(|entry: UploadEntry| entry.key@);
            assert(keys.no_duplicates()) by {
                assert forall|i: int, j: int|
                    0 <= i < keys.len() && 0 <= j < keys.len() && i != j implies keys[i] != keys[j] by {
                    assert(keys[i] == self.entries@[i].key@ && keys[j] == self.entries@[j].key@);
                }
            }
            keys.unique_seq_to_set();
            assert forall|k: Seq<char>| keys.to_set().contains(k) <==> self@.dom().contains(k) by {
                if keys.contains(k) {
                    let i = choose|i: int| 0 <= i < keys.len() && keys[i] == k;
                    assert(self.entries@[i].key@ == k);
                }
                if self.has_key(k) {
                    let i = self.index_of(k);
                    assert(keys[i] == k);
                }
            }
            assert(keys.to_set() =~= self@.dom());
            keys.lemma_cardinality_of_set();
        }
        self.entries.len()
    }
}

} // verus!
