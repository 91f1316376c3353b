//! The master's file namespace: a flat map from paths to file metadata.
use vstd::prelude::*;
use vstd::string::*;
use crate::clock::unix_millis_now;
use crate::path::{GfsPath, PathView, ComponentView, PathComponent, same_path, starts_with, is_direct_child};

verus! {

/// Errors of namespace operations; each carries the path's text.
#[derive(Debug, Clone, PartialEq, Eq)]
pub enum NamespaceError {
    AlreadyExists(String),
    NotFound(String),
    NotADirectory(String),
    InvalidPath(String),
}

impl NamespaceError {
    /// The message of this error, as its `Display` text reads.
    pub open spec fn message_spec(&self) -> Seq<char> {
        match self {
            NamespaceError::AlreadyExists(p) => "File already exists: "@ + p@,
            NamespaceError::NotFound(p) => "File not found: "@ + p@,
            NamespaceError::NotADirectory(p) => "Not a directory: "@ + p@,
            NamespaceError::InvalidPath(p) => "Invalid path: "@ + p@,
        }
    }

    /// The message of this error.
    pub fn message(&self) -> (m: String)
        ensures
            m@ == self.message_spec(),
    {
        match self {
            NamespaceError::AlreadyExists(p) => "File already exists: ".to_owned().concat(p.as_str()),
            NamespaceError::NotFound(p) => "File not found: ".to_owned().concat(p.as_str()),
            NamespaceError::NotADirectory(p) => "Not a directory: ".to_owned().concat(p.as_str()),
            NamespaceError::InvalidPath(p) => "Invalid path: ".to_owned().concat(p.as_str()),
        }
    }
}

/// Metadata the master keeps per file or directory. Times are milliseconds
/// since the Unix epoch.
#[derive(Debug)]
pub struct FileMetadata {
    pub chunks: Vec<u64>,
    pub size: u64,
    pub mtime: u64,
    pub ctime: u64,
    pub is_directory: bool,
}

/// What file metadata stands for.
pub struct FileMetadataView {
    pub chunks: Seq<u64>,
    pub size: u64,
    pub mtime: u64,
    pub ctime: u64,
    pub is_directory: bool,
}

impl View for FileMetadata {
    type V = FileMetadataView;

    open spec fn view(&self) -> FileMetadataView {
        FileMetadataView {
            chunks: self.chunks@,
            size: self.size,
            mtime: self.mtime,
            ctime: self.ctime,
            is_directory: self.is_directory,
        }
    }
}

impl Clone for FileMetadata {
    fn clone(&self) -> (r: Self)
        ensures
            r@ == self@,
    {
        let chunks = self.chunks.clone();
        proof {
            assert(chunks@ =~= self.chunks@);
        }
        FileMetadata {
            chunks,
            size: self.size,
            mtime: self.mtime,
            ctime: self.ctime,
            is_directory: self.is_directory,
        }
    }
}

/// Metadata of a freshly created, empty file or directory at time `now`.
pub open spec fn fresh_metadata(now: u64, is_directory: bool) -> FileMetadataView {
    FileMetadataView { chunks: Seq::empty(), size: 0, mtime: now, ctime: now, is_directory }
}

/// The namespace after a file is created at `path` at time `now`.
pub open spec fn with_new_file(
    view: Map<Seq<ComponentView>, (PathView, FileMetadataView)>,
    path: PathView,
    now: u64,
) -> Map<Seq<ComponentView>, (PathView, FileMetadataView)> {
    view.insert(path.components, (path, fresh_metadata(now, false)))
}

/// The namespace after chunk `handle` is appended to the file with components
/// `k` at time `now`.
pub open spec fn with_chunk(
    view: Map<Seq<ComponentView>, (PathView, FileMetadataView)>,
    k: Seq<ComponentView>,
    handle: u64,
    now: u64,
) -> Map<Seq<ComponentView>, (PathView, FileMetadataView)> {
    view.insert(k, (view[k].0, FileMetadataView { chunks: view[k].1.chunks.push(handle), mtime: now, ..view[k].1 }))
}

/// A namespace holding only the root directory, created at time `now`.
pub open spec fn root_only(now: u64) -> Map<Seq<ComponentView>, (PathView, FileMetadataView)> {
    map![seq![ComponentView::RootDir] => (
        PathView { text: seq!['/'], components: seq![ComponentView::RootDir] },
        fresh_metadata(now, true),
    )]
}

/// An entry of the namespace: a path and its metadata.
pub type Entry = (GfsPath, FileMetadata);

/// The components of entry `i`.
pub open spec fn key_at(s: Seq<Entry>, i: int) -> Seq<ComponentView> {
    s[i].0@.components
}

/// No two entries share their components.
pub open spec fn keys_unique(s: Seq<Entry>) -> bool {
    forall|i: int, j: int| 0 <= i < s.len() && 0 <= j < s.len() && i != j ==> key_at(s, i) != key_at(s, j)
}

/// Some entry has components `k`.
pub open spec fn has_key(s: Seq<Entry>, k: Seq<ComponentView>) -> bool {
    exists|i: int| 0 <= i < s.len() && key_at(s, i) == k
}

/// The index of an entry with components `k`.
pub open spec fn index_of(s: Seq<Entry>, k: Seq<ComponentView>) -> int {
    choose|i: int| 0 <= i < s.len() && key_at(s, i) == k
}

/// The map from components to (stored path, metadata) that the entries stand for.
pub open spec fn entries_view(s: Seq<Entry>) -> Map<Seq<ComponentView>, (PathView, FileMetadataView)> {
    Map::new(|k: Seq<ComponentView>| has_key(s, k), |k: Seq<ComponentView>| (s[index_of(s, k)].0@, s[index_of(s, k)].1@))
}

/// With unique keys, the view holds entry `i` under its key.
pub proof fn lemma_view_at(s: Seq<Entry>, i: int)
    requires
        keys_unique(s),
        0 <= i < s.len(),
    ensures
        entries_view(s).contains_key(key_at(s, i)),
        entries_view(s)[key_at(s, i)] == (s[i].0@, s[i].1@),
{
    assert(has_key(s, key_at(s, i)));
    let j = index_of(s, key_at(s, i));
    assert(j == i);
}

/// Appending an entry with a new key inserts it into the view.
pub proof fn lemma_view_push(s: Seq<Entry>, e: Entry)
    requires
        keys_unique(s),
        !has_key(s, e.0@.components),
    ensures
        keys_unique(s.push(e)),
        entries_view(s.push(e)) == entries_view(s).insert(e.0@.components, (e.0@, e.1@)),
{
    let t = s.push(e);
    assert(keys_unique(t)) by {
        assert forall|i: int, j: int| 0 <= i < t.len() && 0 <= j < t.len() && i != j implies key_at(t, i) != key_at(t, j) by {
            if i == s.len() {
                assert(key_at(t, j) == key_at(s, j));
            } else if j == s.len() {
                assert(key_at(t, i) == key_at(s, i));
            } else {
                assert(key_at(t, i) == key_at(s, i));
                assert(key_at(t, j) == key_at(s, j));
            }
        }
    }
    let k = e.0@.components;
    assert forall|k2: Seq<ComponentView>| #[trigger] has_key(t, k2) == (has_key(s, k2) || k2 == k) by {
        if has_key(s, k2) {
            let i = choose|i: int| 0 <= i < s.len() && key_at(s, i) == k2;
            assert(key_at(t, i) == k2);
        }
        if k2 == k {
            assert(key_at(t, s.len() as int) == k2);
        }
        if has_key(t, k2) {
            let i = choose|i: int| 0 <= i < t.len() && key_at(t, i) == k2;
            if i < s.len() {
                assert(key_at(s, i) == k2);
            }
        }
    }
    assert forall|k2: Seq<ComponentView>| has_key(t, k2) implies #[trigger] entries_view(t)[k2] == entries_view(s).insert(k, (e.0@, e.1@))[k2] by {
        let it = index_of(t, k2);
        if k2 == k {
            lemma_view_at(t, s.len() as int);
        } else {
            let is = index_of(s, k2);
            lemma_view_at(t, is);
            assert(t[is] == s[is]);
        }
    }
    assert(entries_view(t) =~= entries_view(s).insert(k, (e.0@, e.1@)));
}

/// Removing entry `i` removes its key from the view.
pub proof fn lemma_view_remove(s: Seq<Entry>, i: int)
    requires
        keys_unique(s),
        0 <= i < s.len(),
    ensures
        keys_unique(s.remove(i)),
        entries_view(s.remove(i)) == entries_view(s).remove(key_at(s, i)),
{
    let t = s.remove(i);
    let k = key_at(s, i);
    assert forall|a: int| 0 <= a < t.len() implies #[trigger] key_at(t, a) == key_at(s, if a < i { a } else { a + 1 }) by {
    }
    assert(keys_unique(t)) by {
        assert forall|a: int, b: int| 0 <= a < t.len() && 0 <= b < t.len() && a != b implies key_at(t, a) != key_at(t, b) by {
            assert(key_at(t, a) == key_at(s, if a < i { a } else { a + 1 }));
            assert(key_at(t, b) == key_at(s, if b < i { b } else { b + 1 }));
        }
    }
    assert forall|k2: Seq<ComponentView>| #[trigger] has_key(t, k2) == (has_key(s, k2) && k2 != k) by {
        if has_key(t, k2) {
            let a = choose|a: int| 0 <= a < t.len() && key_at(t, a) == k2;
            let b = if a < i { a } else { a + 1 };
            assert(key_at(s, b) == k2);
            assert(b != i);
        }
        if has_key(s, k2) && k2 != k {
            let b = choose|b: int| 0 <= b < s.len() && key_at(s, b) == k2;
            assert(b != i);
            let a = if b < i { b } else { b - 1 };
            assert(key_at(t, a) == k2);
        }
    }
    assert forall|k2: Seq<ComponentView>| has_key(t, k2) implies #[trigger] entries_view(t)[k2] == entries_view(s)[k2] by {
        let a = index_of(t, k2);
        lemma_view_at(t, a);
        let b = if a < i { a } else { a + 1 };
        assert(t[a] == s[b]);
        lemma_view_at(s, b);
    }
    assert(entries_view(t) =~= entries_view(s).remove(k));
}

/// Replacing entry `i` by one with the same key updates the view there.
pub proof fn lemma_view_update(s: Seq<Entry>, i: int, e: Entry)
    requires
        keys_unique(s),
        0 <= i < s.len(),
        e.0@.components == key_at(s, i),
    ensures
        keys_unique(s.update(i, e)),
        entries_view(s.update(i, e)) == entries_view(s).insert(key_at(s, i), (e.0@, e.1@)),
{
    let t = s.update(i, e);
    let k = key_at(s, i);
    assert forall|a: int| 0 <= a < t.len() implies #[trigger] key_at(t, a) == key_at(s, a) by {}
    assert(keys_unique(t)) by {
        assert forall|a: int, b: int| 0 <= a < t.len() && 0 <= b < t.len() && a != b implies key_at(t, a) != key_at(t, b) by {
            assert(key_at(t, a) == key_at(s, a));
            assert(key_at(t, b) == key_at(s, b));
        }
    }
    assert forall|k2: Seq<ComponentView>| #[trigger] has_key(t, k2) == has_key(s, k2) by {
        if has_key(t, k2) {
            let a = choose|a: int| 0 <= a < t.len() && key_at(t, a) == k2;
            assert(key_at(s, a) == k2);
        }
        if has_key(s, k2) {
            let a = choose|a: int| 0 <= a < s.len() && key_at(s, a) == k2;
            assert(key_at(t, a) == k2);
        }
    }
    assert forall|k2: Seq<ComponentView>| has_key(t, k2) implies #[trigger] entries_view(t)[k2] == entries_view(s).insert(k, (e.0@, e.1@))[k2] by {
        let a = index_of(t, k2);
        lemma_view_at(t, a);
        if a != i {
            lemma_view_at(s, a);
        }
    }
    assert(entries_view(t) =~= entries_view(s).insert(k, (e.0@, e.1@)));
}

/// The flat namespace of the master. Each path (by components) occurs at most once.
pub struct Namespace {
    entries: Vec<Entry>,
}

impl Default for Namespace {
    /// A namespace with no entries at all, not even the root.
    fn default() -> (ns: Self)
        ensures
            ns.wf(),
            ns.view() == Map::<Seq<ComponentView>, (PathView, FileMetadataView)>::empty(),
    {
        let ns = Namespace { entries: Vec::new() };
        proof {
            assert(ns.view() =~= Map::<Seq<ComponentView>, (PathView, FileMetadataView)>::empty());
        }
        ns
    }
}

impl Namespace {
    /// Well-formed: no path occurs twice.
    pub closed spec fn wf(&self) -> bool {
        keys_unique(self.entries@)
    }

    /// The map from path components to (stored path, metadata).
    pub closed spec fn view(&self) -> Map<Seq<ComponentView>, (PathView, FileMetadataView)> {
        entries_view(self.entries@)
    }

    /// A namespace holding only the root directory `/`, created at the current time.
    pub fn new() -> (ns: Self)
        ensures
            ns.wf(),
            exists|now: u64| ns.view() == #[trigger] root_only(now),
    {
        let now = unix_millis_now();
        let ns = Self::new_at(now);
        proof {
            assert(ns.view() == root_only(now));
        }
        ns
    }

    /// A namespace holding only the root directory `/`, created at time `now`.
    pub fn new_at(now: u64) -> (ns: Self)
        ensures
            ns.wf(),
            ns.view() == map![seq![ComponentView::RootDir] => (
                PathView { text: seq!['/'], components: seq![ComponentView::RootDir] },
                fresh_metadata(now, true),
            )],
    {
        let mut components: Vec<PathComponent> = Vec::new();
        components.push(PathComponent::RootDir);
        let root = GfsPath { text: root_text(), components };
        let meta = FileMetadata { chunks: Vec::new(), size: 0, mtime: now, ctime: now, is_directory: true };
        let mut entries: Vec<Entry> = Vec::new();
        proof {
            assert(components_view_root(root.components@));
            lemma_view_push(entries@, (root, meta));
            assert(entries_view(Seq::<Entry>::empty()) =~= Map::empty());
        }
        entries.push((root, meta));
        let ns = Namespace { entries };
        proof {
            assert(ns.view() =~= map![seq![ComponentView::RootDir] => (
                PathView { text: seq!['/'], components: seq![ComponentView::RootDir] },
                fresh_metadata(now, true),
            )]);
        }
        ns
    }

    /// The index of the entry for `path`, if any.
    fn find(&self, path: &GfsPath) -> (r: Option<usize>)
        requires
            self.wf(),
        ensures
            r is None <==> !self.view().contains_key(path@.components),
            r matches Some(i) ==> i < self.entries@.len() && key_at(self.entries@, i as int) == path@.components,
    {
        let n = self.entries.len();
        let mut i: usize = 0;
        while i < n
            invariant
                n == self.entries@.len(),
                i <= n,
                forall|j: int| 0 <= j < i ==> key_at(self.entries@, j) != path@.components,
            decreases n - i,
        {
            if same_path(&self.entries[i].0, path) {
                proof {
                    assert(self.entries@[i as int].0.key() == path.key());
                    assert(key_at(self.entries@, i as int) == path@.components);
                    assert(has_key(self.entries@, path@.components));
                }
                return Some(i);
            }
            i = i + 1;
        }
        None
    }

    /// Creates an empty regular file at `path`, stamped with the current time.
    pub fn create_file(&mut self, path: &GfsPath) -> (r: Result<(), NamespaceError>)
        requires
            old(self).wf(),
        ensures
            final(self).wf(),
            old(self).view().contains_key(path@.components) ==> {
                &&& r matches Err(NamespaceError::AlreadyExists(t)) && t@ == path@.text
                &&& final(self).view() == old(self).view()
            },
            !old(self).view().contains_key(path@.components) ==> {
                &&& r is Ok
                &&& exists|now: u64| final(self).view() == #[trigger] with_new_file(old(self).view(), path@, now)
            },
    {
        let now = unix_millis_now();
        let r = self.create_file_at(path, now);
        proof {
            if !old(self).view().contains_key(path@.components) {
                assert(final(self).view() == with_new_file(old(self).view(), path@, now));
            }
        }
        r
    }

    /// Creates an empty regular file at `path`, stamped with time `now`.
    pub fn create_file_at(&mut self, path: &GfsPath, now: u64) -> (r: Result<(), NamespaceError>)
        requires
            old(self).wf(),
        ensures
            final(self).wf(),
            old(self).view().contains_key(path@.components) ==> {
                &&& r matches Err(NamespaceError::AlreadyExists(t)) && t@ == path@.text
                &&& final(self).view() == old(self).view()
            },
            !old(self).view().contains_key(path@.components) ==> {
                &&& r is Ok
                &&& final(self).view() == with_new_file(old(self).view(), path@, now)
            },
    {
        match self.find(path) {
            Some(_) => Err(NamespaceError::AlreadyExists(path.text.clone())),
            None => {
                let meta = FileMetadata { chunks: Vec::new(), size: 0, mtime: now, ctime: now, is_directory: false };
                let p = path.clone();
                proof {
                    assert(meta@ == fresh_metadata(now, false));
                    lemma_view_push(self.entries@, (p, meta));
                }
                self.entries.push((p, meta));
                Ok(())
            },
        }
    }

    /// The metadata of `path`.
    pub fn get_file_info(&self, path: &GfsPath) -> (r: Result<FileMetadata, NamespaceError>)
        requires
            self.wf(),
        ensures
            self.view().contains_key(path@.components) ==> (r matches Ok(m) && m@ == self.view()[path@.components].1),
            !self.view().contains_key(path@.components) ==> (r matches Err(NamespaceError::NotFound(t)) && t@ == path@.text),
    {
        match self.find(path) {
            Some(i) => {
                proof {
                    lemma_view_at(self.entries@, i as int);
                }
                Ok(self.entries[i].1.clone())
            },
            None => Err(NamespaceError::NotFound(path.text.clone())),
        }
    }

    /// Removes `path` and returns its metadata.
    pub fn delete_file(&mut self, path: &GfsPath) -> (r: Result<FileMetadata, NamespaceError>)
        requires
            old(self).wf(),
        ensures
            final(self).wf(),
            old(self).view().contains_key(path@.components) ==> {
                &&& r matches Ok(m) && m@ == old(self).view()[path@.components].1
                &&& final(self).view() == old(self).view().remove(path@.components)
            },
            !old(self).view().contains_key(path@.components) ==> {
                &&& r matches Err(NamespaceError::NotFound(t)) && t@ == path@.text
                &&& final(self).view() == old(self).view()
            },
    {
        match self.find(path) {
            Some(i) => {
                proof {
                    lemma_view_at(self.entries@, i as int);
                    lemma_view_remove(self.entries@, i as int);
                }
                let (_p, meta) = self.entries.remove(i);
                Ok(meta)
            },
            None => Err(NamespaceError::NotFound(path.text.clone())),
        }
    }

    /// The direct children of directory `path`, with their metadata.
    pub fn list_directory(&self, path: &GfsPath) -> (r: Result<Vec<Entry>, NamespaceError>)
        requires
            self.wf(),
        ensures
            !self.view().contains_key(path@.components) ==> (r matches Err(NamespaceError::NotFound(t)) && t@ == path@.text),
            self.view().contains_key(path@.components) && !self.view()[path@.components].1.is_directory
                ==> (r matches Err(NamespaceError::NotADirectory(t)) && t@ == path@.text),
            self.view().contains_key(path@.components) && self.view()[path@.components].1.is_directory ==> (r matches Ok(v) && {
                &&& keys_unique(v@)
                &&& forall|i: int| 0 <= i < v@.len() ==> {
                    &&& is_direct_child(path@.components, #[trigger] key_at(v@, i))
                    &&& self.view().contains_key(key_at(v@, i))
                    &&& self.view()[key_at(v@, i)] == (v@[i].0@, v@[i].1@)
                }
                &&& forall|k: Seq<ComponentView>| #[trigger] self.view().contains_key(k) && is_direct_child(path@.components, k) ==> has_key(v@, k)
            }),
    {
        let idx = match self.find(path) {
            Some(i) => i,
            None => {
                return Err(NamespaceError::NotFound(path.text.clone()));
            },
        };
        proof {
            lemma_view_at(self.entries@, idx as int);
        }
        if !self.entries[idx].1.is_directory {
            return Err(NamespaceError::NotADirectory(path.text.clone()));
        }
        let mut results: Vec<Entry> = Vec::new();
        let n = self.entries.len();
        let mut i: usize = 0;
        let ghost mut src: Seq<int> = Seq::empty();
        while i < n
            invariant
                self.wf(),
                n == self.entries@.len(),
                i <= n,
                src.len() == results@.len(),
                forall|a: int| 0 <= a < src.len() ==> 0 <= #[trigger] src[a] < i,
                forall|a: int, b: int| 0 <= a < b < src.len() ==> src[a] < src[b],
                forall|a: int| 0 <= a < src.len() ==> {
                    &&& key_at(results@, a) == key_at(self.entries@, #[trigger] src[a])
                    &&& results@[a].0@ == self.entries@[src[a]].0@
                    &&& results@[a].1@ == self.entries@[src[a]].1@
                    &&& is_direct_child(path@.components, key_at(self.entries@, src[a]))
                },
                forall|j: int| 0 <= j < i && is_direct_child(path@.components, #[trigger] key_at(self.entries@, j))
                    ==> exists|a: int| 0 <= a < src.len() && src[a] == j,
            decreases n - i,
        {
            let ghost old_src = src;
            let k = &self.entries[i].0;
            if !same_path(k, path) && starts_with(k, path) && k.components.len() > path.components.len()
                && k.components.len() - 1 == path.components.len() {
                let p = k.clone();
                let m = self.entries[i].1.clone();
                results.push((p, m));
                proof {
                    src = src.push(i as int);
                    assert(key_at(results@, src.len() - 1) == key_at(self.entries@, i as int));
                }
            }
            proof {
                assert forall|j: int| 0 <= j < i + 1 && is_direct_child(path@.components, #[trigger] key_at(self.entries@, j))
                    implies exists|a: int| 0 <= a < src.len() && src[a] == j by {
                    if j == i {
                        assert(src[src.len() - 1] == j);
                    } else {
                        let a = choose|a: int| 0 <= a < old_src.len() && old_src[a] == j;
                        assert(src[a] == j);
                    }
                }
            }
            i = i + 1;
        }
        proof {
            assert(keys_unique(results@)) by {
                assert forall|a: int, b: int| 0 <= a < results@.len() && 0 <= b < results@.len() && a != b
                    implies key_at(results@, a) != key_at(results@, b) by {
                    assert(src[a] != src[b]);
                }
            }
            assert forall|a: int| 0 <= a < results@.len() implies {
                &&& is_direct_child(path@.components, #[trigger] key_at(results@, a))
                &&& self.view().contains_key(key_at(results@, a))
                &&& self.view()[key_at(results@, a)] == (results@[a].0@, results@[a].1@)
            } by {
                lemma_view_at(self.entries@, src[a]);
            }
            assert forall|k: Seq<ComponentView>| #[trigger] self.view().contains_key(k) && is_direct_child(path@.components, k)
                implies has_key(results@, k) by {
                let j = index_of(self.entries@, k);
                let a = choose|a: int| 0 <= a < src.len() && src[a] == j;
                assert(key_at(results@, a) == k);
            }
        }
        Ok(results)
    }

    /// Appends chunk `handle` to the file at `path` and stamps it with the current time.
    pub fn append_chunk(&mut self, path: &GfsPath, handle: u64) -> (r: Result<(), NamespaceError>)
        requires
            old(self).wf(),
        ensures
            final(self).wf(),
            !old(self).view().contains_key(path@.components) ==> {
                &&& r matches Err(NamespaceError::NotFound(t)) && t@ == path@.text
                &&& final(self).view() == old(self).view()
            },
            old(self).view().contains_key(path@.components) ==> {
                &&& r is Ok
                &&& exists|now: u64| final(self).view() == #[trigger] with_chunk(old(self).view(), path@.components, handle, now)
            },
    {
        let now = unix_millis_now();
        let r = self.append_chunk_at(path, handle, now);
        proof {
            if old(self).view().contains_key(path@.components) {
                assert(final(self).view() == with_chunk(old(self).view(), path@.components, handle, now));
            }
        }
        r
    }

    /// Appends chunk `handle` to the file at `path` and stamps it with time `now`.
    pub fn append_chunk_at(&mut self, path: &GfsPath, handle: u64, now: u64) -> (r: Result<(), NamespaceError>)
        requires
            old(self).wf(),
        ensures
            final(self).wf(),
            !old(self).view().contains_key(path@.components) ==> {
                &&& r matches Err(NamespaceError::NotFound(t)) && t@ == path@.text
                &&& final(self).view() == old(self).view()
            },
            old(self).view().contains_key(path@.components) ==> {
                &&& r is Ok
                &&& final(self).view() == with_chunk(old(self).view(), path@.components, handle, now)
            },
    {
        match self.find(path) {
            Some(i) => {
                proof {
                    lemma_view_at(self.entries@, i as int);
                }
                let (p, mut meta) = self.entries.remove(i);
                meta.chunks.push(handle);
                meta.mtime = now;
                let ghost e = (p, meta);
                proof {
                    let s = old(self).entries@;
                    assert(self.entries@ == s.remove(i as int));
                    lemma_view_update(s, i as int, e);
                    assert(s.update(i as int, e) =~= s.remove(i as int).insert(i as int, e));
                }
                self.entries.insert(i, (p, meta));
                Ok(())
            },
            None => Err(NamespaceError::NotFound(path.text.clone())),
        }
    }
}

/// The text `/`.
fn root_text() -> (s: String)
    ensures
        s@ == seq!['/'],
{
    let s = "/";
    proof {
        reveal_strlit("/");
    }
    s.to_owned()
}

spec fn components_view_root(c: Seq<PathComponent>) -> bool {
    crate::path::components_view(c) =~= seq![ComponentView::RootDir]
}

/// A file created at a free path is then found there as an empty regular
/// file stamped with the creation time, and every other path is unchanged.
pub proof fn lemma_create_then_get(
    view: Map<Seq<ComponentView>, (PathView, FileMetadataView)>,
    path: PathView,
    now: u64,
    other: Seq<ComponentView>,
)
    requires
        !view.contains_key(path.components),
    ensures
        with_new_file(view, path, now).contains_key(path.components),
        with_new_file(view, path, now)[path.components] == (path, fresh_metadata(now, false)),
        other != path.components ==> with_new_file(view, path, now).contains_key(other) == view.contains_key(other),
        other != path.components && view.contains_key(other) ==> with_new_file(view, path, now)[other] == view[other],
{
}

/// Chunks appended to a file are listed in append order, after the chunks it
/// had; the file keeps its path, creation time and kind.
pub proof fn lemma_append_then_get(
    view: Map<Seq<ComponentView>, (PathView, FileMetadataView)>,
    k: Seq<ComponentView>,
    first: u64,
    second: u64,
    t1: u64,
    t2: u64,
)
    requires
        view.contains_key(k),
    ensures
        ({
            let after = with_chunk(with_chunk(view, k, first, t1), k, second, t2);
            &&& after[k].1.chunks == view[k].1.chunks.push(first).push(second)
            &&& after[k].1.mtime == t2
            &&& after[k].1.ctime == view[k].1.ctime
            &&& after[k].1.is_directory == view[k].1.is_directory
            &&& after[k].0 == view[k].0
            &&& after.dom() == view.dom()
        }),
{
    let after = with_chunk(with_chunk(view, k, first, t1), k, second, t2);
    assert(after.dom() =~= view.dom());
}

/// A deleted path is no longer found, and creating it again starts afresh.
pub proof fn lemma_delete_then_create(
    view: Map<Seq<ComponentView>, (PathView, FileMetadataView)>,
    path: PathView,
    now: u64,
)
    requires
        view.contains_key(path.components),
    ensures
        !view.remove(path.components).contains_key(path.components),
        with_new_file(view.remove(path.components), path, now)[path.components].1.chunks.len() == 0,
{
}

} // verus!
