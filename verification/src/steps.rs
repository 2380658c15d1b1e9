//! The steps of a call: what is to be done outside, what came of it, and what is left to do then.

use crate::paths::{PathView, StorePath};
use crate::types::{
    Blob, BlobView, Container, ContainerView, StreamRequest, StreamRequestView, Transfer,
    TransferView,
};
use vstd::prelude::*;

verus! {

/// Something to be done in the file system.
#[derive(Debug, PartialEq, Eq)]
pub enum Action {
    /// Create the directory, and those above it that are missing; it may exist already.
    CreateDirectories(StorePath),
    /// Remove the directory, which has to be empty.
    RemoveDirectory(StorePath),
    /// Create the file, or empty it where it exists.
    WriteEmptyFile(StorePath),
    /// Remove the file.
    RemoveFile(StorePath),
    /// Find out whether the file exists, and its size.
    MeasureFile(StorePath),
    /// List what is in the directory.
    ListDirectory(StorePath),
    /// Append the bytes to the file, which has to exist, in one write.
    AppendToFile { path: StorePath, bytes: Vec<u8> },
    /// Find out the size of the file, which has to exist, and open it for reading.
    OpenFile(StorePath),
}

/// What came of an action that did not fail.
#[derive(Debug, PartialEq, Eq)]
pub enum Event {
    /// The action is done, and nothing else is to be said of it.
    Done,
    /// The size of the file, if it exists.
    Measured(Option<u64>),
    /// What the directory holds, in the order of the listing; an entry that could not be read is
    /// missing.
    Listed(Vec<Option<DirectoryEntry>>),
    /// The number of bytes that the write took.
    Appended(usize),
    /// The size of the file that was opened, and the size of chunks for those who have no wish.
    Opened { byte_size: u64, default_chunk_size: usize },
}

/// A file in a directory.
#[derive(Debug, PartialEq, Eq)]
pub struct DirectoryEntry {
    pub name: String,
    pub byte_size: u64,
}

/// What is left to do when an action is done.
#[derive(Debug, PartialEq, Eq)]
pub enum Task {
    /// Answer with nothing.
    Acknowledge,
    /// Answer with the container.
    ReportContainer(Container),
    /// Answer with what there is to know of the blob.
    ReportBlob(Blob),
    /// Answer with the blobs in the container.
    ReportBlobs(Container),
    /// Go on with the upload.
    ContinueUpload { key: String, total_chunk_count: u64 },
    /// Send the blob to the actor.
    StreamBlob { actor: String, request: StreamRequest },
}

/// The next step of a call.
#[derive(Debug, PartialEq, Eq)]
pub enum Step {
    /// The call is answered with these bytes.
    Reply(Vec<u8>),
    /// The action is to be performed, and the task is what is left then.
    Perform { action: Action, task: Task },
    /// The file that was opened is to be sent to the actor, and the call is answered with
    /// nothing.
    Stream { actor: String, transfer: Transfer },
}

/// What an [`Action`] stands for.
#[verifier::ext_equal]
pub enum ActionView {
    CreateDirectories(PathView),
    RemoveDirectory(PathView),
    WriteEmptyFile(PathView),
    RemoveFile(PathView),
    MeasureFile(PathView),
    ListDirectory(PathView),
    AppendToFile { path: PathView, bytes: Seq<u8> },
    OpenFile(PathView),
}

/// What a [`DirectoryEntry`] stands for.
#[verifier::ext_equal]
pub struct EntryView {
    pub name: Seq<char>,
    pub byte_size: u64,
}

/// What an [`Event`] stands for.
#[verifier::ext_equal]
pub enum EventView {
    Done,
    Measured(Option<u64>),
    Listed(Seq<Option<EntryView>>),
    Appended(usize),
    Opened { byte_size: u64, default_chunk_size: usize },
}

/// What a [`Task`] stands for.
#[verifier::ext_equal]
pub enum TaskView {
    Acknowledge,
    ReportContainer(ContainerView),
    ReportBlob(BlobView),
    ReportBlobs(ContainerView),
    ContinueUpload { key: Seq<char>, total_chunk_count: u64 },
    StreamBlob { actor: Seq<char>, request: StreamRequestView },
}

/// What a [`Step`] stands for.
#[verifier::ext_equal]
pub enum StepView {
    Reply(Seq<u8>),
    Perform { action: ActionView, task: TaskView },
    Stream { actor: Seq<char>, transfer: TransferView },
}

impl View for Action {
    type V = ActionView;

    open spec fn view(&self) -> ActionView {
        match self {
            Action::CreateDirectories(path) => ActionView::CreateDirectories(path@),
            Action::RemoveDirectory(path) => ActionView::RemoveDirectory(path@),
            Action::WriteEmptyFile(path) => ActionView::WriteEmptyFile(path@),
            Action::RemoveFile(path) => ActionView::RemoveFile(path@),
            Action::MeasureFile(path) => ActionView::MeasureFile(path@),
            Action::ListDirectory(path) => ActionView::ListDirectory(path@),
            Action::AppendToFile { path, bytes } => ActionView::AppendToFile {
                path: path@,
                bytes: bytes@,
            },
            Action::OpenFile(path) => ActionView::OpenFile(path@),
        }
    }
}

impl ActionView {
    /// The path that the action is about.
    pub open spec fn path(self) -> PathView {
        match self {
            ActionView::CreateDirectories(path) => path,
            ActionView::RemoveDirectory(path) => path,
            ActionView::WriteEmptyFile(path) => path,
            ActionView::RemoveFile(path) => path,
            ActionView::MeasureFile(path) => path,
            ActionView::ListDirectory(path) => path,
            ActionView::AppendToFile { path, bytes } => path,
            ActionView::OpenFile(path) => path,
        }
    }
}

impl View for DirectoryEntry {
    type V = EntryView;

    open spec fn view(&self) -> EntryView {
        EntryView { name: self.name@, byte_size: self.byte_size }
    }
}

/// What an entry of a listing stands for.
pub open spec fn listed_entry(entry: Option<DirectoryEntry>) -> Option<EntryView> {
    match entry {
        Some(e) => Some(e@),
        None => None,
    }
}

impl View for Event {
    type V = EventView;

    open spec fn view(&self) -> EventView {
        match self {
            Event::Done => EventView::Done,
            Event::Measured(size) => EventView::Measured(*size),
            Event::Listed(entries) => EventView::Listed(
                entries@.map_values(|entry: Option<DirectoryEntry>| listed_entry(entry)),
            ),
            Event::Appended(count) => EventView::Appended(*count),
            Event::Opened { byte_size, default_chunk_size } => EventView::Opened {
                byte_size: *byte_size,
                default_chunk_size: *default_chunk_size,
            },
        }
    }
}

impl View for Task {
    type V = TaskView;

    open spec fn view(&self) -> TaskView {
        match self {
            Task::Acknowledge => TaskView::Acknowledge,
            Task::ReportContainer(container) => TaskView::ReportContainer(container@),
            Task::ReportBlob(blob) => TaskView::ReportBlob(blob@),
            Task::ReportBlobs(container) => TaskView::ReportBlobs(container@),
            Task::ContinueUpload { key, total_chunk_count } => TaskView::ContinueUpload {
                key: key@,
                total_chunk_count: *total_chunk_count,
            },
            Task::StreamBlob { actor, request } => TaskView::StreamBlob {
                actor: actor@,
                request: request@,
            },
        }
    }
}

impl View for Step {
    type V = StepView;

    open spec fn view(&self) -> StepView {
        match self {
            Step::Reply(bytes) => StepView::Reply(bytes@),
            Step::Perform { action, task } => StepView::Perform { action: action@, task: task@ },
            Step::Stream { actor, transfer } => StepView::Stream {
                actor: actor@,
                transfer: transfer@,
            },
        }
    }
}

/// What an action stands for tells what kind of action it is, which path it is about, and which
/// bytes it appends.
pub proof fn actions_are_told_apart(action: Action)
    ensures
        action@ is CreateDirectories <==> action is CreateDirectories,
        action@ is RemoveDirectory <==> action is RemoveDirectory,
        action@ is WriteEmptyFile <==> action is WriteEmptyFile,
        action@ is RemoveFile <==> action is RemoveFile,
        action@ is MeasureFile <==> action is MeasureFile,
        action@ is ListDirectory <==> action is ListDirectory,
        action@ is OpenFile <==> action is OpenFile,
        action@ matches ActionView::AppendToFile { path, bytes } ==> (
        action matches Action::AppendToFile { path: p, bytes: b } && path == p@ && bytes == b@),
        action matches Action::AppendToFile { path: p, bytes: b } ==> action@.path() == p@,
        action matches Action::CreateDirectories(p) ==> action@.path() == p@,
        action matches Action::RemoveDirectory(p) ==> action@.path() == p@,
        action matches Action::WriteEmptyFile(p) ==> action@.path() == p@,
        action matches Action::RemoveFile(p) ==> action@.path() == p@,
        action matches Action::MeasureFile(p) ==> action@.path() == p@,
        action matches Action::ListDirectory(p) ==> action@.path() == p@,
        action matches Action::OpenFile(p) ==> action@.path() == p@,
{
}

/// What an event stands for tells what came of the action; of a listing, each entry at its place.
pub proof fn events_are_told_apart(event: Event)
    ensures
        event@ is Done <==> event is Done,
        event@ matches EventView::Measured(size) ==> event == Event::Measured(size),
        event@ matches EventView::Appended(count) ==> event == Event::Appended(count),
        event@ matches EventView::Opened { byte_size, default_chunk_size } ==> event
            == (Event::Opened { byte_size, default_chunk_size }),
        event@ matches EventView::Listed(listed) ==> (event matches Event::Listed(entries) && {
            &&& listed.len() == entries@.len()
            &&& forall|i: int|
                0 <= i < listed.len() ==> match entries@[i] {
                    Some(entry) => #[trigger] listed[i] == Some(
                        EntryView { name: entry.name@, byte_size: entry.byte_size },
                    ),
                    None => listed[i] is None,
                }
        }),
{
}

} // verus!
