//! Where the store keeps things: a root directory and the names below it.

use vstd::prelude::*;

verus! {

/// The place of a directory or a file: the root directory, and the names that lead there from it,
/// outermost first.
#[derive(Debug, PartialEq, Eq)]
pub struct StorePath {
    pub root: String,
    pub names: Vec<String>,
}

/// What a [`StorePath`] stands for.
#[verifier::ext_equal]
pub struct PathView {
    pub root: Seq<char>,
    pub names: Seq<Seq<char>>,
}

impl View for StorePath {
    type V = PathView;

    open spec fn view(&self) -> PathView {
        PathView { root: self.root@, names: self.names@.map_values(|name: String| name@) }
    }
}

impl PathView {
    /// Whether the path leads below `root` or to it, whatever the names hold: none of them can
    /// lead up or start over at another root.
    pub open spec fn is_confined_to(self, root: Seq<char>) -> bool {
        &&& self.root == root
        &&& forall|i: int|
            0 <= i < self.names.len() ==> crate::names::is_safe_name(#[trigger] self.names[i])
    }
}

/// The path of the container that is stored under the name `container`.
pub open spec fn container_path(root: Seq<char>, container: Seq<char>) -> PathView {
    PathView { root, names: seq![container] }
}

/// The path of the blob that is stored under the name `id` in the container `container`.
pub open spec fn blob_path(root: Seq<char>, container: Seq<char>, id: Seq<char>) -> PathView {
    PathView { root, names: seq![container, id] }
}

impl StorePath {
    /// The path of the container that is stored under the name `container`.
    pub fn of_container(root: &str, container: &str) -> (path: StorePath)
        ensures
            path@ == container_path(root@, container@),
            path.root@ == root@,
            path.names@.len() == 1,
            path.names@[0]@ == container@,
    {
        let mut names: Vec<String> = Vec::new();
        names.push(container.to_owned());
        let path = StorePath { root: root.to_owned(), names };
        assert(path@.names == seq![container@]);
        path
    }

    /// The path of the blob that is stored under the name `id` in the container `container`.
    pub fn of_blob(root: &str, container: &str, id: &str) -> (path: StorePath)
        ensures
            path@ == blob_path(root@, container@, id@),
            path.root@ == root@,
            path.names@.len() == 2,
            path.names@[0]@ == container@,
            path.names@[1]@ == id@,
    {
        let mut names: Vec<String> = Vec::new();
        names.push(container.to_owned());
        names.push(id.to_owned());
        let path = StorePath { root: root.to_owned(), names };
        assert(path@.names == seq![container@, id@]);
        path
    }
}

/// A blob is kept right in the directory of its container, which is right below the root directory;
/// two of them are kept at one place only where all the names are the same.
pub proof fn places_go_by_names(
    root: Seq<char>,
    container: Seq<char>,
    id: Seq<char>,
    other_root: Seq<char>,
    other_container: Seq<char>,
    other_id: Seq<char>,
)
    ensures
        container_path(root, container).root == root,
        container_path(root, container).names.len() == 1,
        container_path(root, container).names.last() == container,
        blob_path(root, container, id).root == root,
        blob_path(root, container, id).names.drop_last() == container_path(root, container).names,
        blob_path(root, container, id).names.last() == id,
        blob_path(root, container, id).names.len() == 2,
        container_path(root, container) == container_path(other_root, other_container) <==> root
            == other_root && container == other_container,
        blob_path(root, container, id) == blob_path(other_root, other_container, other_id) <==> root
            == other_root && container == other_container && id == other_id,
{
    let directory = container_path(root, container);
    let file = blob_path(root, container, id);
    let other_directory = container_path(other_root, other_container);
    let other_file = blob_path(other_root, other_container, other_id);
    assert(file.names.drop_last() == directory.names);
    assert(directory.names[0] == container);
    assert(other_directory.names[0] == other_container);
    assert(file.names[0] == container && file.names[1] == id);
    assert(other_file.names[0] == other_container && other_file.names[1] == other_id);
}

/// Paths stand for the same place exactly where they start at the same root directory and go by the
/// same names, one by one.
pub proof fn paths_go_name_by_name(path: StorePath, other: StorePath)
    ensures
        path@ == other@ <==> {
            &&& path.root@ == other.root@
            &&& path.names@.len() == other.names@.len()
            &&& forall|i: int|
                0 <= i < path.names@.len() ==> (#[trigger] path.names@[i])@ == other.names@[i]@
        },
{
    if path@ == other@ {
        assert(path@.names.len() == path.names@.len() && other@.names.len() == other.names@.len());
        assert forall|i: int| 0 <= i < path.names@.len() implies (#[trigger] path.names@[i])@
            == other.names@[i]@ by {
            assert(path@.names[i] == path.names@[i]@);
            assert(other@.names[i] == other.names@[i]@);
        }
    }
    if path.root@ == other.root@ && path.names@.len() == other.names@.len() && (forall|i: int|
        0 <= i < path.names@.len() ==> (#[trigger] path.names@[i])@ == other.names@[i]@) {
        assert(path@.names == other@.names);
    }
}

} // verus!
