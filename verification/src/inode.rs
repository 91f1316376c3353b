//! The mount's inode table: a two-way map between inode numbers and paths,
//! held in two `DashMap`s. Inode 1 is the root directory.
use vstd::prelude::*;
use dashmap::DashMap;
use crate::path::{ComponentView, GfsPath, PathComponent, PathView, clone_components, components_view, std_path_components};

verus! {

/// What the map from inode numbers holds: each inode's path.
pub uninterp spec fn ino_map_entries(m: DashMap<u64, GfsPath>) -> Map<u64, PathView>;

/// What the map from paths holds: each path's inode number, the path taken by
/// its components.
pub uninterp spec fn path_map_entries(m: DashMap<Vec<PathComponent>, u64>) -> Map<Seq<ComponentView>, u64>;

/// `DashMap::new`: an empty map.
#[verifier::external_body]
fn ino_map_new() -> (m: DashMap<u64, GfsPath>)
    ensures
        ino_map_entries(m) =~= Map::empty(),
{
    DashMap::new()
}

/// `DashMap::insert`: maps `ino` to `path`, replacing any earlier value.
#[verifier::external_body]
fn ino_map_insert(m: &mut DashMap<u64, GfsPath>, ino: u64, path: GfsPath)
    ensures
        ino_map_entries(*final(m)) == ino_map_entries(*old(m)).insert(ino, path@),
{
    m.insert(ino, path);
}

/// `DashMap::get`, the value cloned out: the path of `ino`, if any.
#[verifier::external_body]
fn ino_map_get(m: &DashMap<u64, GfsPath>, ino: u64) -> (r: Option<GfsPath>)
    ensures
        r is Some <==> ino_map_entries(*m).contains_key(ino),
        r matches Some(p) ==> p@ == ino_map_entries(*m)[ino],
{
    m.get(&ino).map(|e| e.value().clone())
}

/// `DashMap::remove`: drops the entry of `ino`, if any.
#[verifier::external_body]
fn ino_map_remove(m: &mut DashMap<u64, GfsPath>, ino: u64)
    ensures
        ino_map_entries(*final(m)) == ino_map_entries(*old(m)).remove(ino),
{
    m.remove(&ino);
}

/// `DashMap::new`: an empty map.
#[verifier::external_body]
fn path_map_new() -> (m: DashMap<Vec<PathComponent>, u64>)
    ensures
        path_map_entries(m) =~= Map::empty(),
{
    DashMap::new()
}

/// `DashMap::insert`: maps the path `key` to `ino`, replacing any earlier value.
#[verifier::external_body]
fn path_map_insert(m: &mut DashMap<Vec<PathComponent>, u64>, key: Vec<PathComponent>, ino: u64)
    ensures
        path_map_entries(*final(m)) == path_map_entries(*old(m)).insert(components_view(key@), ino),
{
    m.insert(key, ino);
}

/// `DashMap::get`, the value copied out: the inode of the path `key`, if any.
#[verifier::external_body]
fn path_map_get(m: &DashMap<Vec<PathComponent>, u64>, key: &Vec<PathComponent>) -> (r: Option<u64>)
    ensures
        r is Some <==> path_map_entries(*m).contains_key(components_view(key@)),
        r matches Some(ino) ==> ino == path_map_entries(*m)[components_view(key@)],
{
    m.get(key).map(|e| *e.value())
}

/// `DashMap::remove`: drops the entry of the path `key` and returns its inode, if any.
#[verifier::external_body]
fn path_map_remove(m: &mut DashMap<Vec<PathComponent>, u64>, key: &Vec<PathComponent>) -> (r: Option<u64>)
    ensures
        path_map_entries(*final(m)) == path_map_entries(*old(m)).remove(components_view(key@)),
        r is Some <==> path_map_entries(*old(m)).contains_key(components_view(key@)),
        r matches Some(ino) ==> ino == path_map_entries(*old(m))[components_view(key@)],
{
    m.remove(key).map(|(_, ino)| ino)
}

/// The state of an inode table: both maps and the next inode number.
pub struct InodeModel {
    pub inodes: Map<u64, PathView>,
    pub paths: Map<Seq<ComponentView>, u64>,
    pub next: u64,
}

/// The two maps are inverse to each other, and every inode handed out is
/// below the next one.
pub open spec fn model_wf(m: InodeModel) -> bool {
    &&& m.next >= 2
    &&& forall|ino: u64| #[trigger] m.inodes.contains_key(ino) ==> {
        &&& ino < m.next
        &&& m.paths.contains_key(m.inodes[ino].components)
        &&& m.paths[m.inodes[ino].components] == ino
    }
    &&& forall|k: Seq<ComponentView>| #[trigger] m.paths.contains_key(k) ==> {
        &&& m.inodes.contains_key(m.paths[k])
        &&& m.inodes[m.paths[k]].components == k
    }
}

/// `get_or_insert` on the model: the path's inode if it has one, else the next
/// inode number, recorded both ways.
pub open spec fn assign(m: InodeModel, path: PathView) -> (InodeModel, u64) {
    if m.paths.contains_key(path.components) {
        (m, m.paths[path.components])
    } else {
        (
            InodeModel {
                inodes: m.inodes.insert(m.next, path),
                paths: m.paths.insert(path.components, m.next),
                next: (m.next + 1) as u64,
            },
            m.next,
        )
    }
}

/// `remove_by_path` on the model: the path and its inode are forgotten.
pub open spec fn forget(m: InodeModel, key: Seq<ComponentView>) -> InodeModel {
    if m.paths.contains_key(key) {
        InodeModel { inodes: m.inodes.remove(m.paths[key]), paths: m.paths.remove(key), next: m.next }
    } else {
        m
    }
}

/// Inode numbers for the paths of a mounted file system.
pub struct InodeTable {
    next_ino: u64,
    ino_to_path: DashMap<u64, GfsPath>,
    path_to_ino: DashMap<Vec<PathComponent>, u64>,
}

impl InodeTable {
    /// The table's state.
    pub closed spec fn model(&self) -> InodeModel {
        InodeModel {
            inodes: ino_map_entries(self.ino_to_path),
            paths: path_map_entries(self.path_to_ino),
            next: self.next_ino,
        }
    }

    /// A table that knows only the root directory `/`, as inode 1; the next
    /// inode is 2.
    pub fn new() -> (t: Self)
        ensures
            model_wf(t.model()),
            t.model().next == 2,
            t.model().inodes.dom() == set![1u64],
            t.model().inodes[1].text == "/"@,
            t.model().inodes[1].components == std_path_components("/"@),
            t.model().paths.dom() == set![std_path_components("/"@)],
    {
        let root = GfsPath::from_text("/".to_owned());
        let root_key = clone_components(&root.components);
        let mut ino_to_path = ino_map_new();
        let mut path_to_ino = path_map_new();
        ino_map_insert(&mut ino_to_path, 1, root);
        path_map_insert(&mut path_to_ino, root_key, 1);
        let t = InodeTable { next_ino: 2, ino_to_path, path_to_ino };
        proof {
            assert(t.model().inodes.dom() =~= set![1u64]);
            assert(t.model().paths.dom() =~= set![t.model().inodes[1].components]);
        }
        t
    }

    /// The next inode number to be handed out.
    pub fn next_inode(&self) -> (r: u64)
        ensures
            r == self.model().next,
    {
        self.next_ino
    }

    /// The inode of `path`, handing out the next number for a path not seen
    /// before. Paths are told apart by their components.
    pub fn get_or_insert(&mut self, path: &GfsPath) -> (ino: u64)
        requires
            model_wf(old(self).model()),
            old(self).model().next < u64::MAX,
        ensures
            model_wf(final(self).model()),
            (final(self).model(), ino) == assign(old(self).model(), path@),
    {
        if let Some(ino) = path_map_get(&self.path_to_ino, &path.components) {
            return ino;
        }
        let ino = self.next_ino;
        self.next_ino = ino + 1;
        ino_map_insert(&mut self.ino_to_path, ino, path.clone());
        let key = clone_components(&path.components);
        path_map_insert(&mut self.path_to_ino, key, ino);
        proof {
            let m0 = old(self).model();
            let m1 = self.model();
            assert(m1.inodes == m0.inodes.insert(ino, path@));
            assert(m1.paths == m0.paths.insert(path@.components, ino));
            assert forall|i: u64| #[trigger] m1.inodes.contains_key(i) implies {
                &&& i < m1.next
                &&& m1.paths.contains_key(m1.inodes[i].components)
                &&& m1.paths[m1.inodes[i].components] == i
            } by {
                if i != ino {
                    assert(m0.inodes.contains_key(i));
                    assert(m0.inodes[i].components != path@.components);
                }
            }
            assert forall|k: Seq<ComponentView>| #[trigger] m1.paths.contains_key(k) implies {
                &&& m1.inodes.contains_key(m1.paths[k])
                &&& m1.inodes[m1.paths[k]].components == k
            } by {
                if k != path@.components {
                    assert(m0.paths.contains_key(k));
                    assert(m0.paths[k] < m0.next);
                }
            }
        }
        ino
    }

    /// The path of inode `ino`, if it has one.
    pub fn get_path(&self, ino: u64) -> (r: Option<GfsPath>)
        ensures
            r is Some <==> self.model().inodes.contains_key(ino),
            r matches Some(p) ==> p@ == self.model().inodes[ino],
    {
        ino_map_get(&self.ino_to_path, ino)
    }

    /// Forgets `path` and its inode, if the table has them.
    pub fn remove_by_path(&mut self, path: &GfsPath)
        requires
            model_wf(old(self).model()),
        ensures
            model_wf(final(self).model()),
            final(self).model() == forget(old(self).model(), path@.components),
    {
        if let Some(ino) = path_map_remove(&mut self.path_to_ino, &path.components) {
            ino_map_remove(&mut self.ino_to_path, ino);
            proof {
                let m0 = old(self).model();
                let m1 = self.model();
                let key = path@.components;
                assert forall|i: u64| #[trigger] m1.inodes.contains_key(i) implies {
                    &&& i < m1.next
                    &&& m1.paths.contains_key(m1.inodes[i].components)
                    &&& m1.paths[m1.inodes[i].components] == i
                } by {
                    assert(m0.inodes.contains_key(i));
                    assert(m0.inodes[i].components != key);
                }
                assert forall|k: Seq<ComponentView>| #[trigger] m1.paths.contains_key(k) implies {
                    &&& m1.inodes.contains_key(m1.paths[k])
                    &&& m1.inodes[m1.paths[k]].components == k
                } by {
                    assert(m0.paths.contains_key(k));
                    assert(m0.paths[k] != ino);
                }
                assert(m1 == forget(m0, key));
            }
        } else {
            proof {
                assert(self.model().paths =~= old(self).model().paths);
            }
        }
    }
}

impl Default for InodeTable {
    fn default() -> (t: Self)
        ensures
            model_wf(t.model()),
            t.model().next == 2,
            t.model().inodes.dom() == set![1u64],
            t.model().inodes[1].text == "/"@,
            t.model().inodes[1].components == std_path_components("/"@),
            t.model().paths.dom() == set![std_path_components("/"@)],
    {
        InodeTable::new()
    }
}

/// Asking again for a path gives the inode handed out the first time, and
/// changes nothing.
pub proof fn lemma_assign_idempotent(m: InodeModel, path: PathView)
    requires
        model_wf(m),
        m.next < u64::MAX,
    ensures
        assign(assign(m, path).0, path) == assign(m, path),
{
}

/// The inode handed out for a path leads back to that path (by components).
pub proof fn lemma_assign_then_lookup(m: InodeModel, path: PathView)
    requires
        model_wf(m),
        m.next < u64::MAX,
    ensures
        assign(m, path).0.inodes.contains_key(assign(m, path).1),
        assign(m, path).0.inodes[assign(m, path).1].components == path.components,
{
}

/// Two paths with different components never share an inode.
pub proof fn lemma_distinct_paths_distinct_inodes(m: InodeModel, k1: Seq<ComponentView>, k2: Seq<ComponentView>)
    requires
        model_wf(m),
        m.paths.contains_key(k1),
        m.paths.contains_key(k2),
        k1 != k2,
    ensures
        m.paths[k1] != m.paths[k2],
{
}

/// After a path is removed, neither it nor its former inode can be looked up,
/// and a later request for it gets a fresh inode.
pub proof fn lemma_forget_then_lookup(m: InodeModel, path: PathView)
    requires
        model_wf(m),
        m.paths.contains_key(path.components),
        m.next < u64::MAX,
    ensures
        !forget(m, path.components).paths.contains_key(path.components),
        !forget(m, path.components).inodes.contains_key(m.paths[path.components]),
        assign(forget(m, path.components), path).1 == m.next,
{
}

} // verus!
