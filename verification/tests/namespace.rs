use gfs::namespace::{Namespace, NamespaceError};
use gfs::chunk_table::{ChunkTable, NodeRegistry};
use gfs::path::GfsPath;

fn path(text: &str) -> GfsPath {
    GfsPath::from_text(text.to_string())
}

#[test]
fn root_exists_as_a_directory() {
    let ns = Namespace::new_at(5);
    let root = ns.get_file_info(&path("/")).unwrap();
    assert!(root.is_directory);
    assert_eq!(root.ctime, 5);
    assert!(root.chunks.is_empty());
}

#[test]
fn create_append_delete() {
    let mut ns = Namespace::new_at(0);
    ns.create_file_at(&path("/f"), 10).unwrap();
    assert_eq!(ns.create_file_at(&path("/f"), 11), Err(NamespaceError::AlreadyExists("/f".to_string())));
    ns.append_chunk_at(&path("/f"), 4, 20).unwrap();
    ns.append_chunk_at(&path("/f"), 8, 30).unwrap();
    let meta = ns.get_file_info(&path("/f")).unwrap();
    assert_eq!(meta.chunks, vec![4, 8]);
    assert_eq!(meta.mtime, 30);
    assert_eq!(meta.ctime, 10);
    let removed = ns.delete_file(&path("/f")).unwrap();
    assert_eq!(removed.chunks, vec![4, 8]);
    assert_eq!(ns.get_file_info(&path("/f")).err(), Some(NamespaceError::NotFound("/f".to_string())));
    assert_eq!(ns.append_chunk_at(&path("/f"), 1, 40), Err(NamespaceError::NotFound("/f".to_string())));
}

#[test]
fn listing_children_only() {
    let mut ns = Namespace::new_at(0);
    ns.create_file_at(&path("/a"), 1).unwrap();
    ns.create_file_at(&path("/a/b"), 1).unwrap();
    ns.create_file_at(&path("/c"), 1).unwrap();
    let mut names: Vec<String> = ns.list_directory(&path("/")).unwrap().into_iter().map(|(p, _)| p.text).collect();
    names.sort();
    assert_eq!(names, vec!["/a".to_string(), "/c".to_string()]);
    assert_eq!(ns.list_directory(&path("/a")).err(), Some(NamespaceError::NotADirectory("/a".to_string())));
    assert_eq!(ns.list_directory(&path("/zz")).err(), Some(NamespaceError::NotFound("/zz".to_string())));
}

#[test]
fn error_messages() {
    assert_eq!(NamespaceError::AlreadyExists("/x".to_string()).message(), "File already exists: /x");
    assert_eq!(NamespaceError::NotFound("/x".to_string()).message(), "File not found: /x");
    assert_eq!(NamespaceError::NotADirectory("/x".to_string()).message(), "Not a directory: /x");
    assert_eq!(NamespaceError::InvalidPath("/x".to_string()).message(), "Invalid path: /x");
}

#[test]
fn paths_compare_by_components() {
    let mut ns = Namespace::new_at(0);
    ns.create_file_at(&path("/d/e"), 1).unwrap();
    assert!(ns.get_file_info(&path("/d//e/")).is_ok());
}

#[test]
fn default_namespace_is_empty() {
    let ns = Namespace::default();
    assert_eq!(ns.get_file_info(&path("/")).err(), Some(NamespaceError::NotFound("/".to_string())));
}

#[test]
fn default_tables_are_empty() {
    let mut t = ChunkTable::default();
    assert!(t.is_empty());
    assert_eq!(t.allocate_handle(), 0);
    assert_eq!(t.allocate_handle(), 1);
    let fresh = ChunkTable::new();
    assert_eq!(fresh.len(), 0);
    let r = NodeRegistry::default();
    assert!(r.get(&"n1".to_string()).is_none());
}
