use std::collections::HashMap;
use studipfs::api::{FileRef, Folder, StudIPClient, Subfolder};
use studipfs::entry::{FSEntry, FSEntryType};
use studipfs::fs::{slice_range, FileKind, FsError, ReadStep, StudIPFS, CACHE_CAPACITY, CONTENT_TTL_MS};
use studipfs::materialize::{Materializer, MountError};
use studipfs::store::ROOT_HANDLE;

fn sub(id: &str, parent: &str, name: &str) -> Subfolder {
    Subfolder {
        id: id.to_string(),
        user_id: "u".to_string(),
        parent_id: parent.to_string(),
        range_id: "r".to_string(),
        range_type: "course".to_string(),
        folder_type: "StandardFolder".to_string(),
        name: name.to_string(),
        description: String::new(),
        mkdate: 0,
        chdate: 0,
        is_visible: true,
        is_readable: true,
        is_writable: false,
    }
}

fn file(id: &str, folder: &str, name: &str, size: u32) -> FileRef {
    FileRef {
        id: id.to_string(),
        file_id: format!("f-{}", id),
        folder_id: folder.to_string(),
        downloads: 0,
        description: String::new(),
        content_terms_of_use_id: "t".to_string(),
        user_id: "u".to_string(),
        name: name.to_string(),
        mkdate: 0,
        chdate: 0,
        size,
        mime_type: "text/plain".to_string(),
        storage: "disk".to_string(),
        is_readable: true,
        is_downloadable: true,
        is_editable: false,
        is_writable: false,
    }
}

fn listing(own: Subfolder, subfolders: Vec<Subfolder>, file_refs: Vec<FileRef>) -> Folder {
    Folder { subfolders, file_refs, folder: own }
}

/// root: subfolders A (holding a.txt), B (empty); files X ("hello world"), Y.
fn remote() -> HashMap<String, Folder> {
    let mut m = HashMap::new();
    m.insert(
        "root".to_string(),
        listing(
            sub("root", "course", "Root"),
            vec![sub("A", "root", "A"), sub("B", "root", "B")],
            vec![file("X", "root", "X", 11), file("Y", "root", "Y", 3)],
        ),
    );
    m.insert(
        "A".to_string(),
        listing(sub("A", "root", "A"), vec![], vec![file("a1", "A", "a.txt", 5)]),
    );
    m.insert("B".to_string(), listing(sub("B", "root", "B"), vec![], vec![]));
    m
}

fn mount(capacity: usize, ttl_ms: u64) -> StudIPFS {
    let remote = remote();
    let mut m = Materializer::new("root".to_string());
    while let Some(id) = m.next_folder() {
        let folder = remote.get(id).unwrap().clone();
        m = m.add_folder(&folder).unwrap();
    }
    m.finish(capacity, ttl_ms).unwrap()
}

fn content_of(id: &str) -> Vec<u8> {
    match id {
        "X" => b"hello world".to_vec(),
        "Y" => b"abc".to_vec(),
        "a1" => b"aaaaa".to_vec(),
        _ => panic!("unknown file"),
    }
}

/// Reads through the cache, fetching on a miss; counts the fetches.
fn read_counting(fs: &mut StudIPFS, ino: u64, offset: u64, size: u32, fetches: &mut u32) -> Vec<u8> {
    match fs.read(ino, offset, size).unwrap() {
        ReadStep::Data(d) => d,
        ReadStep::Fetch(id) => {
            *fetches += 1;
            fs.read_fetched(ino, offset, size, content_of(&id)).unwrap()
        }
    }
}

fn handle_of(fs: &StudIPFS, id: &str) -> u64 {
    fs.resolve_handle(&id.to_string()).unwrap()
}

#[test]
fn request_urls() {
    let c = StudIPClient { api_url: "https://host/api".to_string(), auth: "Basic SECRET-REDACTED".to_string() };
    let r = c.read_file(&"abc".to_string());
    assert_eq!(r.url, "https://host/api/file/abc/download");
    assert_eq!(r.authorization, "Basic SECRET-REDACTED");
    let g = c.get_folder(&"xyz".to_string());
    assert_eq!(g.url, "https://host/api/folder/xyz");
    assert_eq!(g.authorization, "Basic SECRET-REDACTED");
}

#[test]
fn entry_from_listing_keeps_remote_order() {
    let f = remote().get("root").unwrap().clone();
    let e = FSEntry::from_folder(&f, 1);
    assert_eq!(e.id, "root");
    assert_eq!(e.name, "Root");
    assert_eq!(e.size, 0);
    assert_eq!(e.parent, 1);
    match e.kind {
        FSEntryType::Folder { children } => assert_eq!(children, vec!["A", "B", "X", "Y"]),
        FSEntryType::File => panic!("expected a directory"),
    }
    let x = FSEntry::from_file(&f.file_refs[0], 1);
    assert_eq!(x.id, "X");
    assert_eq!(x.size, 11);
    assert!(matches!(x.kind, FSEntryType::File));
}

#[test]
fn root_gets_root_handle_and_dots() {
    let fs = mount(CACHE_CAPACITY, CONTENT_TTL_MS);
    assert_eq!(ROOT_HANDLE, 1);
    assert_eq!(handle_of(&fs, "root"), ROOT_HANDLE);
    let items = fs.readdir(ROOT_HANDLE, 0).unwrap();
    assert_eq!(items[0].name, ".");
    assert_eq!(items[0].ino, ROOT_HANDLE);
    assert_eq!(items[1].name, "..");
    assert_eq!(items[1].ino, ROOT_HANDLE);
    assert_eq!(items[0].kind, FileKind::Directory);
    assert_eq!(items[1].kind, FileKind::Directory);
}

#[test]
fn listing_follows_remote_order() {
    let fs = mount(CACHE_CAPACITY, CONTENT_TTL_MS);
    let items = fs.readdir(ROOT_HANDLE, 0).unwrap();
    let names: Vec<&str> = items.iter().map(|i| i.name.as_str()).collect();
    assert_eq!(names, vec![".", "..", "A", "B", "X", "Y"]);
    let cursors: Vec<u64> = items.iter().map(|i| i.cursor).collect();
    assert_eq!(cursors, vec![1, 2, 3, 4, 5, 6]);
    assert_eq!(items[2].ino, handle_of(&fs, "A"));
    assert_eq!(items[5].ino, handle_of(&fs, "Y"));
    // files were registered before subfolder A, yet are listed after it
    assert!(items[2].ino > items[4].ino);
    assert_eq!(items[2].kind, FileKind::Directory);
    assert_eq!(items[4].kind, FileKind::RegularFile);
}

#[test]
fn listing_resumes_at_cursor() {
    let fs = mount(CACHE_CAPACITY, CONTENT_TTL_MS);
    let items = fs.readdir(ROOT_HANDLE, 3).unwrap();
    let names: Vec<&str> = items.iter().map(|i| i.name.as_str()).collect();
    assert_eq!(names, vec!["B", "X", "Y"]);
    assert_eq!(items[0].cursor, 4);
    assert!(fs.readdir(ROOT_HANDLE, 6).unwrap().is_empty());
    assert!(fs.readdir(ROOT_HANDLE, 100).unwrap().is_empty());
}

#[test]
fn subfolder_dotdot_is_parent() {
    let fs = mount(CACHE_CAPACITY, CONTENT_TTL_MS);
    let a = handle_of(&fs, "A");
    let items = fs.readdir(a, 0).unwrap();
    assert_eq!(items.len(), 3);
    assert_eq!(items[0].ino, a);
    assert_eq!(items[1].ino, ROOT_HANDLE);
    assert_eq!(items[2].name, "a.txt");
    assert_eq!(items[2].ino, handle_of(&fs, "a1"));
}

#[test]
fn resolve_is_stable() {
    let fs = mount(CACHE_CAPACITY, CONTENT_TTL_MS);
    assert_eq!(fs.len(), 6);
    let mut seen = Vec::new();
    for id in ["root", "A", "B", "X", "Y", "a1"] {
        let h = handle_of(&fs, id);
        assert_eq!(handle_of(&fs, id), h);
        assert!(!seen.contains(&h));
        seen.push(h);
    }
    assert_eq!(fs.resolve_handle(&"nope".to_string()), Err(FsError::NotFound));
}

#[test]
fn read_clamps_to_content() {
    let mut fs = mount(CACHE_CAPACITY, CONTENT_TTL_MS);
    let x = handle_of(&fs, "X");
    let mut n = 0;
    assert_eq!(read_counting(&mut fs, x, 6, 100, &mut n), b"world".to_vec());
    assert_eq!(read_counting(&mut fs, x, 0, 5, &mut n), b"hello".to_vec());
    assert_eq!(read_counting(&mut fs, x, 6, 100, &mut n), b"world".to_vec());
}

#[test]
fn read_past_end_is_empty() {
    let mut fs = mount(CACHE_CAPACITY, CONTENT_TTL_MS);
    let x = handle_of(&fs, "X");
    let mut n = 0;
    assert!(read_counting(&mut fs, x, 11, 100, &mut n).is_empty());
    assert!(read_counting(&mut fs, x, 500, 7, &mut n).is_empty());
    assert!(read_counting(&mut fs, x, u64::MAX, u32::MAX, &mut n).is_empty());
}

#[test]
fn slice_range_values() {
    let d = b"hello world".to_vec();
    assert_eq!(slice_range(&d, 6, 100), b"world".to_vec());
    assert_eq!(slice_range(&d, 0, 0), Vec::<u8>::new());
    assert_eq!(slice_range(&d, 2, 3), b"llo".to_vec());
    assert_eq!(slice_range(&d, 11, 1), Vec::<u8>::new());
}

#[test]
fn lookup_missing_is_not_found() {
    let fs = mount(CACHE_CAPACITY, CONTENT_TTL_MS);
    assert_eq!(fs.lookup(ROOT_HANDLE, &"missing.txt".to_string()), Err(FsError::NotFound));
    assert_eq!(fs.lookup(999, &"X".to_string()), Err(FsError::NotFound));
    let x = handle_of(&fs, "X");
    assert_eq!(fs.lookup(x, &"X".to_string()), Err(FsError::InvalidOperation));
}

#[test]
fn lookup_finds_child_attributes() {
    let fs = mount(CACHE_CAPACITY, CONTENT_TTL_MS);
    let a = fs.lookup(ROOT_HANDLE, &"X".to_string()).unwrap();
    assert_eq!(a.ino, handle_of(&fs, "X"));
    assert_eq!(a.size, 11);
    assert_eq!(a.kind, FileKind::RegularFile);
    assert_eq!(a.perm, 0o555);
    assert_eq!(a.uid, 1000);
    assert_eq!(a.gid, 1000);
    assert_eq!(a.time_secs, 0);
    let d = fs.lookup(ROOT_HANDLE, &"A".to_string()).unwrap();
    assert_eq!(d.kind, FileKind::Directory);
    assert_eq!(d.size, 0);
}

#[test]
fn lookup_first_match_wins() {
    let mut m = Materializer::new("r".to_string());
    let f = listing(
        sub("r", "c", "R"),
        vec![],
        vec![file("p", "r", "same", 1), file("q", "r", "same", 2)],
    );
    m = m.add_folder(&f).unwrap();
    let fs = m.finish(2, 1000).unwrap();
    let a = fs.lookup(ROOT_HANDLE, &"same".to_string()).unwrap();
    assert_eq!(a.size, 1);
    assert_eq!(a.ino, fs.resolve_handle(&"p".to_string()).unwrap());
}

#[test]
fn getattr_values_and_errors() {
    let fs = mount(CACHE_CAPACITY, CONTENT_TTL_MS);
    let r = fs.getattr(ROOT_HANDLE).unwrap();
    assert_eq!(r.ino, ROOT_HANDLE);
    assert_eq!(r.kind, FileKind::Directory);
    assert_eq!(r.blksize, 512);
    assert_eq!(fs.getattr(0), Err(FsError::NotFound));
    assert_eq!(fs.getattr(7), Err(FsError::NotFound));
}

#[test]
fn wrong_kind_operations() {
    let mut fs = mount(CACHE_CAPACITY, CONTENT_TTL_MS);
    assert!(matches!(fs.read(ROOT_HANDLE, 0, 10), Err(FsError::InvalidOperation)));
    assert!(matches!(fs.read(77, 0, 10), Err(FsError::NotFound)));
    assert_eq!(fs.read_fetched(ROOT_HANDLE, 0, 1, vec![1]), Err(FsError::InvalidOperation));
    let x = handle_of(&fs, "X");
    assert!(matches!(fs.readdir(x, 0), Err(FsError::InvalidOperation)));
    assert!(matches!(fs.readdir(77, 0), Err(FsError::NotFound)));
}

#[test]
fn two_reads_fetch_once() {
    let mut fs = mount(CACHE_CAPACITY, CONTENT_TTL_MS);
    let x = handle_of(&fs, "X");
    let mut n = 0;
    read_counting(&mut fs, x, 0, 4, &mut n);
    read_counting(&mut fs, x, 4, 4, &mut n);
    assert_eq!(n, 1);
}

#[test]
fn read_after_expiry_fetches_again() {
    let mut fs = mount(CACHE_CAPACITY, 50);
    let x = handle_of(&fs, "X");
    let mut n = 0;
    read_counting(&mut fs, x, 0, 4, &mut n);
    read_counting(&mut fs, x, 0, 4, &mut n);
    assert_eq!(n, 1);
    let start = std::time::Instant::now();
    while start.elapsed() < std::time::Duration::from_millis(120) {}
    assert_eq!(read_counting(&mut fs, x, 0, 4, &mut n), b"hell".to_vec());
    assert_eq!(n, 2);
}

#[test]
fn eviction_beyond_capacity_refetches() {
    let mut fs = mount(2, CONTENT_TTL_MS);
    let x = handle_of(&fs, "X");
    let y = handle_of(&fs, "Y");
    let a1 = handle_of(&fs, "a1");
    let mut n = 0;
    read_counting(&mut fs, x, 0, 1, &mut n);
    read_counting(&mut fs, y, 0, 1, &mut n);
    assert_eq!(n, 2);
    read_counting(&mut fs, a1, 0, 1, &mut n);
    assert_eq!(n, 3);
    read_counting(&mut fs, y, 0, 1, &mut n);
    assert_eq!(n, 3);
    assert_eq!(read_counting(&mut fs, x, 0, 5, &mut n), b"hello".to_vec());
    assert_eq!(n, 4);
}

#[test]
fn materialize_depth_first() {
    let remote = remote();
    let mut m = Materializer::new("root".to_string());
    let mut order = Vec::new();
    while let Some(id) = m.next_folder() {
        order.push(id.clone());
        let folder = remote.get(id).unwrap().clone();
        m = m.add_folder(&folder).unwrap();
    }
    assert_eq!(order, vec!["root", "A", "B"]);
    assert_eq!(m.len(), 6);
}

#[test]
fn materialize_errors() {
    let remote = remote();
    let m = Materializer::new("root".to_string());
    let wrong = remote.get("A").unwrap().clone();
    assert_eq!(m.add_folder(&wrong).err(), Some(MountError::MismatchedFolder));

    let m = Materializer::new("root".to_string());
    assert_eq!(m.finish(2, 10).err(), Some(MountError::Incomplete));

    let m = Materializer::new("r".to_string());
    let only = listing(sub("r", "c", "R"), vec![], vec![]);
    let m = m.add_folder(&only).unwrap();
    assert_eq!(m.add_folder(&only).err(), Some(MountError::NothingPending));

    let m = Materializer::new("r".to_string());
    let dup = listing(sub("r", "c", "R"), vec![], vec![file("f", "r", "a", 1), file("f", "r", "b", 1)]);
    assert_eq!(m.add_folder(&dup).err(), Some(MountError::DuplicateId));

    let m = Materializer::new("r".to_string());
    let selfref = listing(sub("r", "c", "R"), vec![], vec![file("r", "r", "a", 1)]);
    assert_eq!(m.add_folder(&selfref).err(), Some(MountError::DuplicateId));

    let m = Materializer::new("r".to_string());
    let cyc = listing(sub("r", "c", "R"), vec![sub("r", "r", "again")], vec![]);
    let m = m.add_folder(&cyc).unwrap();
    assert_eq!(m.add_folder(&cyc).err(), Some(MountError::DuplicateId));
}
