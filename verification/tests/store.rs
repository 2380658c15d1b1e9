use fs_provider::calls;
use fs_provider::calls::{decode_call, CallError, Request};
use fs_provider::downloads::{dispatch_chunk, plan_transfer};
use fs_provider::names::{sanitize_blob, sanitize_container, sanitize_id};
use fs_provider::steps::{Action, DirectoryEntry, Event, Step, Task};
use fs_provider::types::{
    Blob, CapabilityConfiguration, Container, FileChunk, StreamRequest, Transfer,
};
use fs_provider::FileSystemProvider;
use std::collections::HashMap;
use wascc_codec::blobstore;

/// The files of a store, by their paths.
type Disk = HashMap<Vec<String>, Vec<u8>>;

fn configured(root: &str) -> FileSystemProvider {
    let mut fs = FileSystemProvider::new();
    let step = fs.configure(CapabilityConfiguration {
        module: "test-module".to_string(),
        values: vec![("ROOT".to_string(), root.to_string())],
    });
    assert_eq!(step, Step::Reply(vec![]));
    fs
}

fn place(root: &str, names: &[&str]) -> Vec<String> {
    let mut path = vec![root.to_string()];
    path.extend(names.iter().map(|n| n.to_string()));
    path
}

fn chunk(sequence_no: u64, total_bytes: u64, chunk_size: u64, chunk_bytes: &[u8]) -> FileChunk {
    FileChunk {
        sequence_no,
        container: "container".to_string(),
        id: "blob".to_string(),
        total_bytes,
        chunk_size,
        chunk_bytes: chunk_bytes.to_vec(),
    }
}

/// Carries the upload of a chunk out on a disk that takes all bytes at once.
fn upload(
    fs: &mut FileSystemProvider,
    disk: &mut Disk,
    actor: &str,
    chunk: FileChunk,
) -> Result<Vec<u8>, String> {
    let mut step = fs.upload_chunk(actor, chunk);
    loop {
        match step {
            Step::Reply(bytes) => return Ok(bytes),
            Step::Perform { action: Action::AppendToFile { path, bytes }, task } => {
                let mut names = vec![path.root];
                names.extend(path.names);
                let file = disk.get_mut(&names).ok_or("no such file".to_string())?;
                file.extend_from_slice(&bytes);
                let event = Event::Appended(bytes.len());
                assert!(fs.accepts(&task, &event));
                step = fs.resume(task, event).map_err(|e| e.message())?;
            }
            other => panic!("unexpected step {:?}", other),
        }
    }
}

fn disk_with_blob() -> (Disk, Vec<String>) {
    let bpath = place("/data", &["container", "blob"]);
    let mut disk = Disk::new();
    disk.insert(bpath.clone(), vec![]);
    (disk, bpath)
}

#[test]
fn no_hacky_hacky() {
    let container = Container {
        id: "/etc/h4x0rd".to_string(),
    };
    let blob = Blob {
        byte_size: 0,
        id: "../passwd".to_string(),
        container: "/etc/h4x0rd".to_string(),
    };
    let c = sanitize_container(&container);
    let b = sanitize_blob(&blob);

    // the resulting tricksy blob should end up in ${ROOT}/etc_h4x0rd/passwd and
    // thereby not expose anything sensitive
    assert_eq!(c.id, "etc_h4x0rd");
    assert_eq!(b.id, "passwd");
    assert_eq!(b.container, "etc_h4x0rd");
}

#[test]
fn test_start_upload() {
    let actor = "actor1";
    let mut fs = configured("/data");
    let (mut disk, bpath) = disk_with_blob();

    let total_bytes = 5;
    let chunk_size = 2;
    let chunk1 = chunk(1, total_bytes, chunk_size, &[1, 1]);
    let chunk2 = chunk(2, total_bytes, chunk_size, &[2, 2]);
    let chunk3 = chunk(3, total_bytes, chunk_size, &[3]);
    let chunk3_dup = chunk(3, total_bytes, chunk_size, &[3]);

    assert!(upload(&mut fs, &mut disk, actor, chunk3).is_ok());
    assert!(upload(&mut fs, &mut disk, actor, chunk2).is_ok());
    assert!(upload(&mut fs, &mut disk, actor, chunk1).is_ok());
    assert!(upload(&mut fs, &mut disk, actor, chunk3_dup).is_ok());

    // check file contents
    assert_eq!(vec![1, 1, 2, 2, 3], disk[&bpath]);
    // the last duplicate is not cleaned up because it can't tell the
    // difference between a late duplicate chunk and an early out of order chunk
    assert_eq!(1, fs.pending_uploads());
}

#[test]
fn names_at_the_edges() {
    assert_eq!(sanitize_id(""), "");
    assert_eq!(sanitize_id("..."), "");
    assert_eq!(sanitize_id("/./"), "");
    assert_eq!(sanitize_id("plain"), "plain");
    assert_eq!(sanitize_id("a.b"), "a.b");
    assert_eq!(sanitize_id("a..b"), "ab");
    assert_eq!(sanitize_id("a...b"), "a.b");
    assert_eq!(sanitize_id("a....b"), "ab");
    assert_eq!(sanitize_id("a/../b"), "a__b");
    assert_eq!(sanitize_id("a./.b"), "a._.b");
    assert_eq!(sanitize_id("/.hidden/"), "hidden_");
    assert_eq!(sanitize_id("gr\u{fc}n/\u{1f600}"), "gr\u{fc}n_\u{1f600}");
}

#[test]
fn sanitizing_twice_changes_nothing() {
    for id in ["../../etc/passwd", "a...b/..", "....", "x", "a./../.b"] {
        let once = sanitize_id(id);
        assert_eq!(sanitize_id(&once), once);
        assert!(!once.contains('/') && !once.contains("..") && !once.starts_with('.'));
    }
}

#[test]
fn full_chunks_in_any_order_end_the_upload() {
    for order in [[1, 2, 3], [1, 3, 2], [2, 1, 3], [2, 3, 1], [3, 1, 2], [3, 2, 1]] {
        let mut fs = configured("/data");
        let (mut disk, bpath) = disk_with_blob();
        for no in order {
            let bytes = [no as u8, no as u8];
            assert_eq!(
                upload(&mut fs, &mut disk, "actor1", chunk(no, 6, 2, &bytes)),
                Ok(vec![])
            );
        }
        assert_eq!(disk[&bpath], [1, 1, 2, 2, 3, 3]);
        assert_eq!(fs.pending_uploads(), 0);
    }
}

#[test]
fn shorter_chunk_is_written_unless_it_comes_last() {
    let mut fs = configured("/data");
    let (mut disk, bpath) = disk_with_blob();
    for (no, bytes) in [(1, vec![1, 1]), (3, vec![3]), (2, vec![2, 2])] {
        upload(&mut fs, &mut disk, "actor1", chunk(no, 5, 2, &bytes)).unwrap();
    }
    assert_eq!(disk[&bpath], [1, 1, 2, 2, 3]);
    assert_eq!(fs.pending_uploads(), 1);

    let mut fs = configured("/data");
    let (mut disk, bpath) = disk_with_blob();
    for (no, bytes) in [(1, vec![1, 1]), (2, vec![2, 2]), (3, vec![3])] {
        upload(&mut fs, &mut disk, "actor1", chunk(no, 5, 2, &bytes)).unwrap();
    }
    assert_eq!(disk[&bpath], [1, 1, 2, 2]);
    assert_eq!(fs.pending_uploads(), 1);
}

#[test]
fn announced_upload_fills_its_file() {
    let mut fs = configured("/data");
    let mut disk = Disk::new();
    let old = place("/data", &["container", "other"]);
    disk.insert(old.clone(), vec![5]);
    disk.insert(place("/data", &["container", "blob"]), vec![9, 9]);
    let step = fs.start_upload("actor1", chunk(0, 4, 2, &[]));
    assert!(matches!(step, Step::Perform { action: Action::WriteEmptyFile(_), .. }));
    disk.insert(action_path(&step), vec![]);
    for (no, bytes) in [(2, [3, 4]), (1, [1, 2])] {
        upload(&mut fs, &mut disk, "actor1", chunk(no, 4, 2, &bytes)).unwrap();
    }
    assert_eq!(disk[&place("/data", &["container", "blob"])], [1, 2, 3, 4]);
    assert_eq!(disk[&old], [5]);
}

#[test]
fn chunk_out_of_turn_waits() {
    let mut fs = configured("/data");
    assert_eq!(fs.upload_chunk("actor1", chunk(0, 4, 2, &[9])), Step::Reply(vec![]));
    assert_eq!(fs.upload_chunk("actor1", chunk(2, 4, 2, &[2])), Step::Reply(vec![]));
    assert_eq!(fs.pending_uploads(), 1);
}

#[test]
fn failed_write_is_tried_again() {
    let mut fs = configured("/data");
    let mut disk = Disk::new();
    assert!(upload(&mut fs, &mut disk, "actor1", chunk(1, 4, 2, &[1, 1])).is_err());
    assert_eq!(fs.pending_uploads(), 1);
    let (mut disk, bpath) = disk_with_blob();
    assert!(upload(&mut fs, &mut disk, "actor1", chunk(2, 4, 2, &[2, 2])).is_ok());
    assert_eq!(disk[&bpath], [1, 1, 2, 2]);
    assert_eq!(fs.pending_uploads(), 0);
}

#[test]
fn short_write_is_an_error() {
    let mut fs = configured("/data");
    let bytes = vec![7; 120];
    match fs.upload_chunk("actor1", chunk(1, 120, 120, &bytes)) {
        Step::Perform { task, .. } => {
            assert!(fs.accepts(&task, &Event::Appended(10)));
            assert!(!fs.accepts(&task, &Event::Done));
            let error = fs.resume(task, Event::Appended(10)).unwrap_err();
            assert_eq!(error, CallError::ShortWrite { written: 10, expected: 120 });
            assert_eq!(error.message(), "Failed to fully write chunk: 10 of 120 bytes");
        }
        step => panic!("unexpected step {:?}", step),
    }
    assert_eq!(fs.pending_uploads(), 1);
}

#[test]
fn uploads_of_two_actors_are_kept_apart() {
    let mut fs = configured("/data");
    fs.upload_chunk("actor1", chunk(2, 4, 2, &[2]));
    fs.upload_chunk("actor2", chunk(2, 4, 2, &[2]));
    assert_eq!(fs.pending_uploads(), 2);
    let (mut disk, bpath) = disk_with_blob();
    upload(&mut fs, &mut disk, "actor2", chunk(1, 4, 2, &[1])).unwrap();
    assert_eq!(disk[&bpath], [1, 2]);
    assert_eq!(fs.pending_uploads(), 1);
}

fn begin(fs: &mut FileSystemProvider, actor: &str, op: &str, msg: &[u8]) -> Step {
    fs.handle_call(actor, op, msg).unwrap().unwrap()
}

fn action_path(step: &Step) -> Vec<String> {
    match step {
        Step::Perform { action, .. } => {
            let path = match action {
                Action::CreateDirectories(p)
                | Action::RemoveDirectory(p)
                | Action::WriteEmptyFile(p)
                | Action::RemoveFile(p)
                | Action::MeasureFile(p)
                | Action::ListDirectory(p)
                | Action::OpenFile(p)
                | Action::AppendToFile { path: p, .. } => p,
            };
            let mut names = vec![path.root.clone()];
            names.extend(path.names.iter().cloned());
            names
        }
        other => panic!("no action in {:?}", other),
    }
}

#[test]
fn host_sets_the_root() {
    let mut values = HashMap::new();
    values.insert("ROOT".to_string(), "/srv/blobs".to_string());
    values.insert("OTHER".to_string(), "x".to_string());
    let config = wascc_codec::core::CapabilityConfiguration {
        module: "M".to_string(),
        values,
    };
    let msg = wascc_codec::serialize(&config).unwrap();
    let mut fs = FileSystemProvider::new();
    assert_eq!(begin(&mut fs, "system", "BindActor", &msg), Step::Reply(vec![]));
    assert_eq!(begin(&mut fs, "system", "RemoveActor", &[]), Step::Reply(vec![]));
    let path = fs.container_to_path(&Container { id: "c".to_string() });
    assert_eq!(path.root, "/srv/blobs");
    assert_eq!(path.names, ["c"]);

    let refused = fs.handle_call("actor1", "BindActor", &msg);
    assert_eq!(refused, Some(Err(CallError::BadDispatch)));
    let refused = fs.handle_call("actor1", "RemoveActor", &[]);
    assert_eq!(refused, Some(Err(CallError::BadDispatch)));
}

#[test]
fn unknown_operation_is_refused() {
    let mut fs = FileSystemProvider::default();
    let error = fs.handle_call("actor1", "ReceiveChunk", &[]).unwrap().unwrap_err();
    assert_eq!(error, CallError::BadDispatch);
    assert_eq!(error.message(), "bad dispatch");
}

#[test]
fn unreadable_message_is_refused() {
    let mut fs = FileSystemProvider::new();
    for op in [
        "CreateContainer",
        "RemoveContainer",
        "RemoveObject",
        "ListObjects",
        "UploadChunk",
        "StartDownload",
        "StartUpload",
        "GetObjectInfo",
    ] {
        let error = fs.handle_call("actor1", op, &[0xc1]).unwrap().unwrap_err();
        assert_eq!(
            error,
            CallError::Codec("Failed to de-serialize: wrong msgpack marker Reserved".to_string())
        );
        assert_eq!(
            error.message(),
            "Failed to de-serialize: wrong msgpack marker Reserved"
        );
    }
    assert!(fs.handle_call("system", "BindActor", &[0xc1]).unwrap().is_err());
}

#[test]
fn what_cannot_be_carried_out_changes_nothing() {
    let mut fs = configured("/data");
    let config = wascc_codec::core::CapabilityConfiguration {
        module: "M".to_string(),
        values: HashMap::new(),
    };
    let msg = wascc_codec::serialize(&config).unwrap();
    assert_eq!(fs.handle_call("system", "BindActor", &msg), None);
    let msg = wascc_codec::serialize(&blobstore::FileChunk {
        sequence_no: 1,
        container: "c".to_string(),
        id: "b".to_string(),
        total_bytes: 1,
        chunk_size: 0,
        chunk_bytes: vec![1],
    })
    .unwrap();
    assert_eq!(fs.handle_call("actor1", "UploadChunk", &msg), None);
    assert_eq!(fs.pending_uploads(), 0);
    let blob = Blob { id: "b".to_string(), container: "c".to_string(), byte_size: 0 };
    assert_eq!(fs.blob_to_path(&blob).root, "/data");
}

#[test]
fn created_container_is_reported_and_found_again() {
    let mut fs = configured("/data");
    let msg = wascc_codec::serialize(&blobstore::Container { id: "../a/b".to_string() }).unwrap();
    let step = begin(&mut fs, "actor1", "CreateContainer", &msg);
    assert_eq!(action_path(&step), place("/data", &["a_b"]));
    let reply = match step {
        Step::Perform { action: Action::CreateDirectories(_), task } => {
            match fs.resume(task, Event::Done) {
                Ok(Step::Reply(bytes)) => bytes,
                other => panic!("unexpected {:?}", other),
            }
        }
        other => panic!("unexpected step {:?}", other),
    };
    let answer: blobstore::Container = wascc_codec::deserialize(&reply).unwrap();
    assert_eq!(answer.id, "a_b");

    let step = begin(&mut fs, "actor1", "RemoveContainer", &reply);
    assert_eq!(action_path(&step), place("/data", &["a_b"]));
    match step {
        Step::Perform { action: Action::RemoveDirectory(_), task } => {
            assert_eq!(fs.resume(task, Event::Done), Ok(Step::Reply(vec![])));
        }
        other => panic!("unexpected step {:?}", other),
    }
}

#[test]
fn one_blob_has_one_file() {
    let mut fs = configured("/data");
    let path = place("/data", &["etc", "passwd"]);
    let blob = wascc_codec::serialize(&blobstore::Blob {
        id: "../passwd".to_string(),
        container: "/etc".to_string(),
        byte_size: 3,
    })
    .unwrap();
    let piece = wascc_codec::serialize(&blobstore::FileChunk {
        sequence_no: 1,
        container: "/etc".to_string(),
        id: "../passwd".to_string(),
        total_bytes: 3,
        chunk_size: 3,
        chunk_bytes: vec![1, 2, 3],
    })
    .unwrap();
    let request = wascc_codec::serialize(&blobstore::StreamRequest {
        id: "../passwd".to_string(),
        container: "/etc".to_string(),
        chunk_size: 3,
    })
    .unwrap();

    let step = begin(&mut fs, "actor1", "StartUpload", &piece);
    assert_eq!(action_path(&step), path);
    assert!(matches!(
        step,
        Step::Perform { action: Action::WriteEmptyFile(_), task: Task::Acknowledge }
    ));
    let step = begin(&mut fs, "actor1", "UploadChunk", &piece);
    assert_eq!(action_path(&step), path);
    match step {
        Step::Perform { action: Action::AppendToFile { bytes, .. }, .. } => {
            assert_eq!(bytes, [1, 2, 3])
        }
        other => panic!("unexpected step {:?}", other),
    }
    let step = begin(&mut fs, "actor1", "RemoveObject", &blob);
    assert_eq!(action_path(&step), path);
    assert!(matches!(
        step,
        Step::Perform { action: Action::RemoveFile(_), task: Task::Acknowledge }
    ));
    let step = begin(&mut fs, "actor1", "GetObjectInfo", &blob);
    assert_eq!(action_path(&step), path);
    assert!(matches!(step, Step::Perform { action: Action::MeasureFile(_), .. }));
    let step = begin(&mut fs, "actor1", "StartDownload", &request);
    assert_eq!(action_path(&step), path);
    assert!(matches!(step, Step::Perform { action: Action::OpenFile(_), .. }));
}

fn report(fs: &mut FileSystemProvider, step: Step, event: Event) -> Vec<u8> {
    match step {
        Step::Perform { task, .. } => {
            assert!(fs.accepts(&task, &event));
            match fs.resume(task, event) {
                Ok(Step::Reply(bytes)) => bytes,
                other => panic!("unexpected {:?}", other),
            }
        }
        other => panic!("unexpected step {:?}", other),
    }
}

#[test]
fn object_info_tells_the_size_or_none() {
    let mut fs = configured("/data");
    let blob = || Blob { id: "/b".to_string(), container: "c".to_string(), byte_size: 0 };
    let step = fs.get_object_info("actor1", blob());
    let reply = report(&mut fs, step, Event::Measured(Some(70_000)));
    let info: blobstore::Blob = wascc_codec::deserialize(&reply).unwrap();
    assert_eq!(info.id, "b");
    assert_eq!(info.container, "c");
    assert_eq!(info.byte_size, 70_000);

    let step = fs.get_object_info("actor1", blob());
    let reply = report(&mut fs, step, Event::Measured(None));
    let info: blobstore::Blob = wascc_codec::deserialize(&reply).unwrap();
    assert_eq!(info.id, "none");
    assert_eq!(info.container, "none");
    assert_eq!(info.byte_size, 0);
}

#[test]
fn listing_leaves_unreadable_entries_out() {
    let mut fs = configured("/data");
    let msg = wascc_codec::serialize(&blobstore::Container { id: "./c".to_string() }).unwrap();
    let step = begin(&mut fs, "actor1", "ListObjects", &msg);
    assert_eq!(action_path(&step), place("/data", &["c"]));
    let entry = |name: &str, byte_size: u64| {
        Some(DirectoryEntry { name: name.to_string(), byte_size })
    };
    let entries = vec![entry("x", 1), None, entry("y", 300)];
    let reply = report(&mut fs, step, Event::Listed(entries));
    let list: blobstore::BlobList = wascc_codec::deserialize(&reply).unwrap();
    let found: Vec<(String, String, u64)> = list
        .blobs
        .into_iter()
        .map(|b| (b.id, b.container, b.byte_size))
        .collect();
    assert_eq!(
        found,
        [
            ("x".to_string(), "c".to_string(), 1),
            ("y".to_string(), "c".to_string(), 300)
        ]
    );
}

#[test]
fn download_is_planned_and_sent() {
    let mut fs = configured("/data");
    let request = |chunk_size: u64| StreamRequest {
        id: "/blob".to_string(),
        container: "c".to_string(),
        chunk_size,
    };
    let step = fs.start_download("actor1", request(4));
    let event = || Event::Opened { byte_size: 10, default_chunk_size: 8 };
    let transfer = match step {
        Step::Perform { task, .. } => {
            assert!(fs.accepts(&task, &event()));
            match fs.resume(task, event()) {
                Ok(Step::Stream { actor, transfer }) => {
                    assert_eq!(actor, "actor1");
                    transfer
                }
                other => panic!("unexpected {:?}", other),
            }
        }
        other => panic!("unexpected step {:?}", other),
    };
    assert_eq!(
        transfer,
        Transfer {
            blob_id: "blob".to_string(),
            container: "c".to_string(),
            chunk_size: 4,
            total_size: 10,
            total_chunks: 2,
        }
    );
    let planned = plan_transfer(&request(0), 10, 8);
    assert_eq!((planned.chunk_size, planned.total_chunks), (8, 1));

    let message = dispatch_chunk(&transfer, "actor1", 2, Some(vec![9, 8])).unwrap();
    assert_eq!(message.actor, "actor1");
    assert_eq!(message.op, blobstore::OP_RECEIVE_CHUNK);
    let sent: blobstore::FileChunk = wascc_codec::deserialize(&message.payload).unwrap();
    assert_eq!(
        sent,
        blobstore::FileChunk {
            sequence_no: 2,
            container: "c".to_string(),
            id: "blob".to_string(),
            total_bytes: 10,
            chunk_size: 4,
            chunk_bytes: vec![9, 8],
        }
    );
    assert_eq!(dispatch_chunk(&transfer, "actor1", 3, None), None);
}

#[test]
fn download_without_a_chunk_size_is_not_accepted() {
    let fs = configured("/data");
    let step = fs.start_download(
        "actor1",
        StreamRequest { id: "b".to_string(), container: "c".to_string(), chunk_size: 0 },
    );
    match step {
        Step::Perform { task, .. } => {
            assert!(!fs.accepts(&task, &Event::Opened { byte_size: 1, default_chunk_size: 0 }));
        }
        other => panic!("unexpected step {:?}", other),
    }
}

#[test]
fn decoded_calls_hold_what_was_sent() {
    let msg = wascc_codec::serialize(&blobstore::FileChunk {
        sequence_no: 3,
        container: "c".to_string(),
        id: "b".to_string(),
        total_bytes: 70_000,
        chunk_size: 200,
        chunk_bytes: vec![1, 2],
    })
    .unwrap();
    let expected = FileChunk {
        sequence_no: 3,
        container: "c".to_string(),
        id: "b".to_string(),
        total_bytes: 70_000,
        chunk_size: 200,
        chunk_bytes: vec![1, 2],
    };
    assert_eq!(decode_call("a", "UploadChunk", &msg), Ok(Request::UploadChunk(expected)));
    let msg = wascc_codec::serialize(&blobstore::StreamRequest {
        id: "b".to_string(),
        container: "c".to_string(),
        chunk_size: 5,
    })
    .unwrap();
    let expected =
        StreamRequest { id: "b".to_string(), container: "c".to_string(), chunk_size: 5 };
    assert_eq!(decode_call("a", "StartDownload", &msg), Ok(Request::StartDownload(expected)));
}

#[test]
fn later_value_counts() {
    let pair = |k: &str, v: &str| (k.to_string(), v.to_string());
    let config = CapabilityConfiguration {
        module: "M".to_string(),
        values: vec![pair("ROOT", "/a"), pair("X", "1"), pair("ROOT", "/b")],
    };
    assert_eq!(config.value("ROOT"), Some("/b".to_string()));
    assert_eq!(config.value("X"), Some("1".to_string()));
    assert_eq!(config.value("Y"), None);
}

#[test]
fn operations_go_by_the_names_of_the_codec() {
    assert_eq!(calls::OP_BIND_ACTOR, wascc_codec::core::OP_BIND_ACTOR);
    assert_eq!(calls::OP_REMOVE_ACTOR, wascc_codec::core::OP_REMOVE_ACTOR);
    assert_eq!(calls::OP_CREATE_CONTAINER, blobstore::OP_CREATE_CONTAINER);
    assert_eq!(calls::OP_REMOVE_CONTAINER, blobstore::OP_REMOVE_CONTAINER);
    assert_eq!(calls::OP_REMOVE_OBJECT, blobstore::OP_REMOVE_OBJECT);
    assert_eq!(calls::OP_LIST_OBJECTS, blobstore::OP_LIST_OBJECTS);
    assert_eq!(calls::OP_UPLOAD_CHUNK, blobstore::OP_UPLOAD_CHUNK);
    assert_eq!(calls::OP_START_DOWNLOAD, blobstore::OP_START_DOWNLOAD);
    assert_eq!(calls::OP_START_UPLOAD, blobstore::OP_START_UPLOAD);
    assert_eq!(calls::OP_RECEIVE_CHUNK, blobstore::OP_RECEIVE_CHUNK);
    assert_eq!(calls::OP_GET_OBJECT_INFO, blobstore::OP_GET_OBJECT_INFO);
}

#[test]
fn store_says_what_it_is() {
    let fs = FileSystemProvider::new();
    assert_eq!(fs.capability_id(), "wascc:blobstore");
    assert_eq!(fs.name(), "waSCC Blob Store Provider (File System)");
}
