//! The decisions of the FUSE mount: which inode a name resolves to, the
//! attributes reported for an inode, and the entries of the root directory.
use vstd::prelude::*;
use crate::inode::{InodeModel, InodeTable, assign, forget, model_wf};
use crate::path::{ComponentView, GfsPath, PathComponent, PathView, std_path_components};
use crate::proto::{FileInfo, ListDirectoryResponse, RpcCode, RpcStatus};

verus! {

/// The root directory's inode number.
pub const ROOT_INO: u64 = 1;

/// Why a file-system request failed; the mount answers each with its errno.
#[derive(Debug, Clone, Copy, PartialEq, Eq)]
pub enum FsError {
    /// The inode is unknown (`ENOENT`).
    NoEntry,
    /// The name is not valid text (`EINVAL`).
    InvalidName,
    /// The inode is not a directory (`ENOTDIR`).
    NotDirectory,
    /// The request to the file system failed (`EIO`).
    Io,
}

/// The kind of a file-system object.
#[derive(Debug, Clone, Copy, PartialEq, Eq)]
pub enum FileKind {
    Directory,
    RegularFile,
}

/// The attributes reported for an inode; all four times are the Unix epoch.
#[derive(Debug, Clone, Copy, PartialEq, Eq)]
pub struct Attr {
    pub ino: u64,
    pub size: u64,
    pub blocks: u64,
    pub kind: FileKind,
    pub perm: u16,
    pub nlink: u32,
    pub uid: u32,
    pub gid: u32,
    pub rdev: u32,
    pub flags: u32,
    pub blksize: u32,
}

/// The attributes of a regular file: empty, mode 0644, one link, owned by 1000:1000.
pub open spec fn file_attr(ino: u64) -> Attr {
    Attr {
        ino,
        size: 0,
        blocks: 0,
        kind: FileKind::RegularFile,
        perm: 0o644,
        nlink: 1,
        uid: 1000,
        gid: 1000,
        rdev: 0,
        flags: 0,
        blksize: 4096,
    }
}

/// The attributes `getattr` reports: the root is a directory with mode 0755
/// and two links, every other inode a regular file.
pub open spec fn getattr_spec(ino: u64) -> Attr {
    if ino == ROOT_INO {
        Attr { kind: FileKind::Directory, perm: 0o755, nlink: 2, ..file_attr(ino) }
    } else {
        file_attr(ino)
    }
}

/// The attributes of a regular file.
pub fn regular_file_attr(ino: u64) -> (a: Attr)
    ensures
        a == file_attr(ino),
{
    Attr {
        ino,
        size: 0,
        blocks: 0,
        kind: FileKind::RegularFile,
        perm: 0o644,
        nlink: 1,
        uid: 1000,
        gid: 1000,
        rdev: 0,
        flags: 0,
        blksize: 4096,
    }
}

/// The attributes reported for `ino`, whether or not the inode is known.
pub fn getattr(ino: u64) -> (a: Attr)
    ensures
        a == getattr_spec(ino),
{
    let is_root = ino == ROOT_INO;
    let file = regular_file_attr(ino);
    if is_root {
        Attr { kind: FileKind::Directory, perm: 0o755, nlink: 2, ..file }
    } else {
        file
    }
}

/// A directory entry as the mount adds it: the entry's inode, the offset of
/// the entry after it, its kind and its name.
#[derive(Debug, Clone, PartialEq, Eq)]
pub struct DirEntry {
    pub ino: u64,
    pub next_offset: i64,
    pub kind: FileKind,
    pub name: String,
}

/// What a directory entry stands for.
pub struct DirEntryView {
    pub ino: u64,
    pub next_offset: i64,
    pub kind: FileKind,
    pub name: Seq<char>,
}

impl View for DirEntry {
    type V = DirEntryView;

    open spec fn view(&self) -> DirEntryView {
        DirEntryView { ino: self.ino, next_offset: self.next_offset, kind: self.kind, name: self.name@ }
    }
}

/// Copies a directory entry.
fn clone_entry(e: &DirEntry) -> (r: DirEntry)
    ensures
        r@ == e@,
{
    DirEntry { ino: e.ino, next_offset: e.next_offset, kind: e.kind, name: e.name.clone() }
}

/// A `.` or `..` entry for the directory `ino`.
pub open spec fn dot_entry(ino: u64, next_offset: i64, name: Seq<char>) -> DirEntryView {
    DirEntryView { ino, next_offset, kind: FileKind::Directory, name }
}

/// The name a path is listed under: its last component when that is a name,
/// its whole text otherwise.
pub open spec fn entry_name(p: PathView) -> Seq<char> {
    if p.components.len() > 0 && p.components.last() is Normal {
        p.components.last()->Normal_0
    } else {
        p.text
    }
}

/// The path a listed file stands for.
pub open spec fn path_of_text(text: Seq<char>) -> PathView {
    PathView { text, components: std_path_components(text) }
}

/// The paths of a master listing, in order.
pub open spec fn listed_paths(entries: Seq<FileInfo>) -> Seq<PathView> {
    entries.map_values(|e: FileInfo| path_of_text(e.path@))
}

/// The entry for the `j`-th listed file, with inode `ino`.
pub open spec fn child_entry(e: FileInfo, j: int, ino: u64) -> DirEntryView {
    DirEntryView {
        ino,
        next_offset: (j + 3) as i64,
        kind: if e.is_directory { FileKind::Directory } else { FileKind::RegularFile },
        name: entry_name(path_of_text(e.path@)),
    }
}

/// A directory's full listing: `.`, `..`, then the listed files.
pub open spec fn directory_listing(ino: u64, entries: Seq<FileInfo>, inos: Seq<u64>) -> Seq<DirEntryView> {
    seq![dot_entry(ino, 1, "."@), dot_entry(ino, 2, ".."@)]
        + Seq::new(entries.len(), |j: int| child_entry(entries[j], j, inos[j]))
}

/// The part of a listing handed out from `offset` on (the offset read as a
/// count of entries to skip, as `offset as usize` reads it).
pub open spec fn listing_from(listing: Seq<DirEntryView>, offset: i64) -> Seq<DirEntryView> {
    let skip = offset as usize;
    if skip >= listing.len() { Seq::empty() } else { listing.skip(skip as int) }
}

/// Looking up each path in turn: the table afterwards and the inodes given.
pub open spec fn assign_all(m: InodeModel, paths: Seq<PathView>) -> (InodeModel, Seq<u64>)
    decreases paths.len(),
{
    if paths.len() == 0 {
        (m, Seq::empty())
    } else {
        let (m1, inos) = assign_all(m, paths.drop_last());
        let (m2, i) = assign(m1, paths.last());
        (m2, inos.push(i))
    }
}

/// The attributes of a file the master described: a directory (mode 0755,
/// two links) or a regular file (mode 0644, one link), with its size.
pub open spec fn entry_attr(ino: u64, size: u64, is_directory: bool) -> Attr {
    if is_directory {
        Attr { kind: FileKind::Directory, perm: 0o755, nlink: 2, size, ..file_attr(ino) }
    } else {
        Attr { size, ..file_attr(ino) }
    }
}

/// The attributes of a file the master described.
pub fn attr_of_entry(ino: u64, size: u64, is_directory: bool) -> (a: Attr)
    ensures
        a == entry_attr(ino, size, is_directory),
{
    let file = regular_file_attr(ino);
    if is_directory {
        Attr { kind: FileKind::Directory, perm: 0o755, nlink: 2, size, ..file }
    } else {
        Attr { size, ..file }
    }
}

/// The attributes of inode `ino` given the master's answer about its path:
/// the root is always the directory; a file the master does not know is
/// `ENOENT`; any other refusal is an I/O error; a known file has its size
/// and kind.
pub fn getattr_with(ino: u64, info: &Result<FileInfo, RpcStatus>) -> (r: Result<Attr, FsError>)
    ensures
        ino == ROOT_INO ==> r == Ok::<Attr, FsError>(getattr_spec(ROOT_INO)),
        ino != ROOT_INO ==> (info matches Err(st) ==> r == Err::<Attr, FsError>(
            if st.code == RpcCode::NotFound { FsError::NoEntry } else { FsError::Io },
        )),
        ino != ROOT_INO ==> (info matches Ok(fi) ==> r == Ok::<Attr, FsError>(entry_attr(ino, fi.size, fi.is_directory))),
{
    if ino == ROOT_INO {
        return Ok(getattr(ino));
    }
    match info {
        Err(st) => match st.code {
            RpcCode::NotFound => Err(FsError::NoEntry),
            _ => Err(FsError::Io),
        },
        Ok(fi) => Ok(attr_of_entry(ino, fi.size, fi.is_directory)),
    }
}

/// The name a path is listed under.
fn last_name(p: &GfsPath) -> (name: String)
    ensures
        name@ == entry_name(p@),
{
    let n = p.components.len();
    if n > 0 {
        match &p.components[n - 1] {
            PathComponent::Normal(s) => {
                return s.clone();
            },
            _ => {},
        }
    }
    p.text.clone()
}

/// The text of `base` joined with `name` by `std::path::Path::join`.
pub uninterp spec fn std_path_join(base: Seq<char>, name: Seq<char>) -> Seq<char>;

/// `std::path::Path::join` on text, converted back to text (losslessly: both
/// parts are valid text). The result is named `std_path_join(base, name)`;
/// as the documentation says, a name that starts at the root replaces the base.
#[verifier::external_body]
fn path_join_text(base: &str, name: &str) -> (r: String)
    ensures
        r@ == std_path_join(base@, name@),
        name@.len() > 0 && name@[0] == '/' ==> r@ == name@,
{
    std::path::Path::new(base).join(name).to_string_lossy().into_owned()
}

/// The path of `name` inside the directory `parent`.
pub open spec fn joined(parent: PathView, name: Seq<char>) -> PathView {
    let text = std_path_join(parent.text, name);
    PathView { text, components: std_path_components(text) }
}

/// The path of `name` inside the directory at `parent`.
pub fn join_child(parent: &GfsPath, name: &str) -> (p: GfsPath)
    ensures
        p@ == joined(parent@, name@),
{
    let text = path_join_text(parent.text.as_str(), name);
    GfsPath::from_text(text)
}

/// The mount's state: its inode table.
pub struct FsState {
    inodes: InodeTable,
}

impl FsState {
    /// The inode table's state.
    pub closed spec fn model(&self) -> InodeModel {
        self.inodes.model()
    }

    /// A fresh mount that knows only the root directory, as inode 1.
    pub fn new() -> (s: Self)
        ensures
            model_wf(s.model()),
            s.model().next == 2,
            s.model().inodes.dom() == set![ROOT_INO],
            s.model().inodes[ROOT_INO].text == "/"@,
            s.model().inodes[ROOT_INO].components == std_path_components("/"@),
            s.model().paths.dom() == set![std_path_components("/"@)],
    {
        FsState { inodes: InodeTable::new() }
    }

    /// The next inode number to be handed out.
    pub fn next_inode(&self) -> (r: u64)
        ensures
            r == self.model().next,
    {
        self.inodes.next_inode()
    }

    /// Answers a lookup of the path `target` with the master's answer about
    /// it: a file the master does not know is `ENOENT` and gets no inode; any
    /// other refusal is an I/O error; a known file gets an inode (a new one
    /// for a path not seen before) and its size and kind.
    pub fn lookup(&mut self, target: &GfsPath, info: &Result<FileInfo, RpcStatus>) -> (r: Result<Attr, FsError>)
        requires
            model_wf(old(self).model()),
            old(self).model().next < u64::MAX,
        ensures
            model_wf(final(self).model()),
            info matches Err(st) ==> final(self).model() == old(self).model() && r == Err::<Attr, FsError>(
                if st.code == RpcCode::NotFound { FsError::NoEntry } else { FsError::Io },
            ),
            info matches Ok(fi) ==> ({
                let (m, ino) = assign(old(self).model(), target@);
                r == Ok::<Attr, FsError>(entry_attr(ino, fi.size, fi.is_directory)) && final(self).model() == m
            }),
    {
        match info {
            Err(st) => {
                match st.code {
                    RpcCode::NotFound => Err(FsError::NoEntry),
                    _ => Err(FsError::Io),
                }
            },
            Ok(fi) => {
                let ino = self.inodes.get_or_insert(target);
                Ok(attr_of_entry(ino, fi.size, fi.is_directory))
            },
        }
    }

    /// The entries of the directory at inode `ino` from `offset` on, given
    /// the master's listing of it: `.` and `..` (both reported with the
    /// directory's own inode), then one entry per listed file, named by the
    /// last component of its path and given an inode. The mount adds them
    /// until its reply buffer is full.
    pub fn readdir(&mut self, ino: u64, offset: i64, listing: &ListDirectoryResponse) -> (r: Vec<DirEntry>)
        requires
            model_wf(old(self).model()),
            old(self).model().next + listing.entries@.len() < u64::MAX,
        ensures
            model_wf(final(self).model()),
            ({
                let (m, inos) = assign_all(old(self).model(), listed_paths(listing.entries@));
                &&& final(self).model() == m
                &&& r@.map_values(|e: DirEntry| e@) == listing_from(directory_listing(ino, listing.entries@, inos), offset)
            }),
    {
        let ghost m0 = self.model();
        let ghost paths = listed_paths(listing.entries@);
        let mut full: Vec<DirEntry> = Vec::new();
        full.push(DirEntry { ino, next_offset: 1, kind: FileKind::Directory, name: ".".to_owned() });
        full.push(DirEntry { ino, next_offset: 2, kind: FileKind::Directory, name: "..".to_owned() });
        let n = listing.entries.len();
        let mut i: usize = 0;
        let ghost mut inos: Seq<u64> = Seq::empty();
        proof {
            assert(paths.take(0) =~= Seq::<PathView>::empty());
        }
        while i < n
            invariant
                n == listing.entries@.len(),
                i <= n,
                paths == listed_paths(listing.entries@),
                m0.next + n < u64::MAX,
                model_wf(self.model()),
                (self.model(), inos) == assign_all(m0, paths.take(i as int)),
                inos.len() == i,
                self.model().next <= m0.next + i,
                full@.len() == i + 2,
                full@[0]@ == dot_entry(ino, 1, "."@),
                full@[1]@ == dot_entry(ino, 2, ".."@),
                forall|j: int| 0 <= j < i ==> (#[trigger] full@[j + 2])@ == child_entry(listing.entries@[j], j, inos[j]),
            decreases n - i,
        {
            let child = GfsPath::from_text(listing.entries[i].path.clone());
            let child_ino = self.inodes.get_or_insert(&child);
            let name = last_name(&child);
            let kind = if listing.entries[i].is_directory { FileKind::Directory } else { FileKind::RegularFile };
            proof {
                assert(paths.take(i + 1).drop_last() =~= paths.take(i as int));
                assert(paths.take(i + 1).last() == child@);
                inos = inos.push(child_ino);
            }
            let next_offset: i64 = #[verifier::truncate] ((i as u128 + 3) as i64);
            full.push(DirEntry { ino: child_ino, next_offset, kind, name });
            i = i + 1;
        }
        proof {
            assert(paths.take(n as int) =~= paths);
            let listing_v = directory_listing(ino, listing.entries@, inos);
            assert forall|j: int| 0 <= j < full@.len() implies (#[trigger] full@[j])@ == listing_v[j] by {
                if j >= 2 {
                    assert(full@[(j - 2) + 2]@ == child_entry(listing.entries@[j - 2], j - 2, inos[j - 2]));
                }
            }
            assert(full@.map_values(|e: DirEntry| e@) =~= listing_v);
        }
        let skip: usize = #[verifier::truncate] (offset as usize);
        let mut r: Vec<DirEntry> = Vec::new();
        let total = full.len();
        let mut k: usize = skip;
        while k < total
            invariant
                total == full@.len(),
                skip <= k <= total || (skip > total && k == skip),
                r@.len() == k - skip,
                forall|j: int| 0 <= j < r@.len() ==> r@[j]@ == full@[skip + j]@,
            decreases total - k,
        {
            r.push(clone_entry(&full[k]));
            k = k + 1;
        }
        proof {
            let listing_v = directory_listing(ino, listing.entries@, inos);
            assert(full@.map_values(|e: DirEntry| e@) == listing_v);
            if skip < total {
                assert(r@.map_values(|e: DirEntry| e@) =~= listing_v.skip(skip as int));
            } else {
                assert(r@.map_values(|e: DirEntry| e@) =~= Seq::<DirEntryView>::empty());
            }
        }
        r
    }

    /// The path of inode `ino`, for a read or a write.
    pub fn path_of(&self, ino: u64) -> (r: Result<GfsPath, FsError>)
        ensures
            !self.model().inodes.contains_key(ino) ==> r matches Err(FsError::NoEntry),
            self.model().inodes.contains_key(ino) ==> (r matches Ok(p) && p@ == self.model().inodes[ino]),
    {
        match self.inodes.get_path(ino) {
            Some(p) => Ok(p),
            None => Err(FsError::NoEntry),
        }
    }

    /// The path of `name` inside the directory at inode `parent`: what a
    /// lookup asks the master about, and what an unlink deletes.
    pub fn child_path(&self, parent: u64, name: &str) -> (r: Result<GfsPath, FsError>)
        ensures
            !self.model().inodes.contains_key(parent) ==> r matches Err(FsError::NoEntry),
            self.model().inodes.contains_key(parent) ==> (r matches Ok(p)
                && p@ == joined(self.model().inodes[parent], name@)),
    {
        match self.inodes.get_path(parent) {
            Some(p) => Ok(join_child(&p, name)),
            None => Err(FsError::NoEntry),
        }
    }

    /// Forgets a path once the file system has deleted it.
    pub fn unlinked(&mut self, path: &GfsPath)
        requires
            model_wf(old(self).model()),
        ensures
            model_wf(final(self).model()),
            final(self).model() == forget(old(self).model(), path@.components),
    {
        self.inodes.remove_by_path(path);
    }
}

/// A name just looked up resolves to the same inode when looked up again.
pub proof fn lemma_lookup_stable(m: InodeModel, parent: u64, name: Seq<char>)
    requires
        model_wf(m),
        m.next < u64::MAX,
        m.inodes.contains_key(parent),
    ensures
        ({
            let (m1, ino) = assign(m, joined(m.inodes[parent], name));
            &&& m1.inodes.contains_key(parent)
            &&& m1.inodes[parent] == m.inodes[parent]
            &&& assign(m1, joined(m1.inodes[parent], name)) == (m1, ino)
        }),
{
    let (m1, ino) = assign(m, joined(m.inodes[parent], name));
    if !m.paths.contains_key(joined(m.inodes[parent], name).components) {
        assert(parent < m.next);
    }
}

} // verus!
