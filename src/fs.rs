use vstd::prelude::*;
use vstd::string::StringExecFns;
use ttl_cache::TtlCache;
use crate::cache::{cache_capacity, cache_get, cache_held, cache_insert, cache_new};
use crate::entry::{FSEntry, FSEntryType};
use crate::store::{
    find_index, handle_of_index, ids, index_of_handle, index_of_id, lemma_index_of_id, registered,
    store_ok, valid_handle, ROOT_HANDLE,
};

verus! {

/// How long the kernel may keep attributes and name lookups, in seconds.
pub const ATTR_TTL_SECS: u64 = 60;

/// How long fetched file content stays valid, in milliseconds.
pub const CONTENT_TTL_MS: u64 = 60000;

/// How many files' contents are cached at once.
pub const CACHE_CAPACITY: usize = 50;

/// Permission bits of every entry: read and execute for all.
pub const PERMISSIONS: u16 = 0o555;

/// Owner and group of every entry.
pub const OWNER_ID: u32 = 1000;

/// Block size reported for every entry.
pub const BLOCK_SIZE: u32 = 512;

/// A call-scoped failure of a filesystem operation.
#[derive(Debug, Clone, Copy, PartialEq, Eq, Structural)]
pub enum FsError {
    /// No entry has this handle, or no child has this name.
    NotFound,
    /// The entry is of the wrong kind for the operation.
    InvalidOperation,
}

#[derive(Debug, Clone, Copy, PartialEq, Eq, Structural)]
pub enum FileKind {
    Directory,
    RegularFile,
}

/// Synthesized attributes of an entry. All four timestamps are
/// `time_secs` seconds after the Unix epoch.
#[derive(Debug, Clone, Copy, PartialEq, Eq, Structural)]
pub struct Attr {
    pub ino: u64,
    pub size: u64,
    pub blocks: u64,
    pub time_secs: u64,
    pub kind: FileKind,
    pub perm: u16,
    pub nlink: u32,
    pub uid: u32,
    pub gid: u32,
    pub rdev: u32,
    pub blksize: u32,
    pub flags: u32,
}

/// One record of a directory listing; `cursor` is where the listing resumes
/// after this record.
#[derive(Debug, Clone)]
pub struct DirItem {
    pub ino: u64,
    pub kind: FileKind,
    pub name: String,
    pub cursor: u64,
}

/// What a ranged read needs next: the bytes, or the file's content fetched
/// from the remote store under the given remote ID.
#[derive(Debug, Clone)]
pub enum ReadStep {
    Data(Vec<u8>),
    Fetch(String),
}

pub open spec fn kind_of(e: FSEntry) -> FileKind {
    match e.kind {
        FSEntryType::Folder { .. } => FileKind::Directory,
        FSEntryType::File => FileKind::RegularFile,
    }
}

pub open spec fn attr_spec(ino: u64, e: FSEntry) -> Attr {
    Attr {
        ino,
        size: e.size,
        blocks: 0,
        time_secs: 0,
        kind: kind_of(e),
        perm: PERMISSIONS,
        nlink: 0,
        uid: OWNER_ID,
        gid: OWNER_ID,
        rdev: 0,
        blksize: BLOCK_SIZE,
        flags: 0,
    }
}

/// Attributes of the entry `e` registered under handle `ino`.
pub fn get_attr(ino: u64, e: &FSEntry) -> (r: Attr)
    ensures
        r == attr_spec(ino, *e),
{
    let kind = match e.kind {
        FSEntryType::Folder { .. } => FileKind::Directory,
        FSEntryType::File => FileKind::RegularFile,
    };
    Attr {
        ino,
        size: e.size,
        blocks: 0,
        time_secs: 0,
        kind,
        perm: PERMISSIONS,
        nlink: 0,
        uid: OWNER_ID,
        gid: OWNER_ID,
        rdev: 0,
        blksize: BLOCK_SIZE,
        flags: 0,
    }
}

/// The bytes of `data` in `[offset, offset + size)`, clamped to its length.
pub open spec fn clamp_range(data: Seq<u8>, offset: int, size: int) -> Seq<u8> {
    if offset >= data.len() {
        Seq::empty()
    } else if offset + size >= data.len() {
        data.subrange(offset, data.len() as int)
    } else {
        data.subrange(offset, offset + size)
    }
}

/// The part of `data` that a read of `size` bytes at `offset` returns.
pub fn slice_range(data: &Vec<u8>, offset: u64, size: u32) -> (r: Vec<u8>)
    ensures
        r@ == clamp_range(data@, offset as int, size as int),
{
    let len = data.len();
    let mut out: Vec<u8> = Vec::new();
    if offset as u128 >= len as u128 {
        return out;
    }
    let start = offset as usize;
    let end: usize = if (offset as u128) + (size as u128) >= len as u128 {
        len
    } else {
        start + size as usize
    };
    let mut i: usize = start;
    while i < end
        invariant
            start <= i <= end <= len == data@.len(),
            out@ == data@.subrange(start as int, i as int),
        decreases end - i,
    {
        out.push(data[i]);
        i = i + 1;
        assert(out@ =~= data@.subrange(start as int, i as int));
    }
    out
}


/// Record `i` of the virtual listing of directory `h`: `.`, `..`, then the
/// children in the order their directory stores them.
pub open spec fn listing_item(es: Seq<FSEntry>, h: u64, i: int) -> (u64, FileKind, Seq<char>) {
    let e = es[index_of_handle(h)];
    if i == 0 {
        (h, FileKind::Directory, "."@)
    } else if i == 1 {
        (e.parent, FileKind::Directory, ".."@)
    } else {
        let j = index_of_id(es, e.children_ids()[i - 2]);
        (handle_of_index(j) as u64, kind_of(es[j]), es[j].name@)
    }
}

pub open spec fn listing_len(es: Seq<FSEntry>, h: u64) -> int {
    es[index_of_handle(h)].children_ids().len() + 2int
}

/// The index of the first child of directory entry `e` named `name`.
pub open spec fn first_named(es: Seq<FSEntry>, e: FSEntry, name: Seq<char>, c: int) -> bool {
    &&& 0 <= c < e.children_ids().len()
    &&& es[index_of_id(es, e.children_ids()[c])].name@ == name
    &&& forall|d: int|
        0 <= d < c ==> es[index_of_id(es, #[trigger] e.children_ids()[d])].name@ != name
}

pub open spec fn has_named(es: Seq<FSEntry>, e: FSEntry, name: Seq<char>) -> bool {
    exists|c: int|
        0 <= c < e.children_ids().len() && es[index_of_id(es, #[trigger] e.children_ids()[c])].name@
            == name
}

/// The mounted filesystem: the entry store built by materialization, and a
/// cache of file contents keyed by handle.
pub struct StudIPFS {
    entries: Vec<FSEntry>,
    cache: TtlCache<u64, Vec<u8>>,
    content_ttl_ms: u64,
}

impl StudIPFS {
    /// The entries, in handle order.
    pub closed spec fn entries(&self) -> Seq<FSEntry> {
        self.entries@
    }

    /// What the content cache holds, by handle.
    pub closed spec fn cached(&self) -> Map<u64, Seq<u8>> {
        cache_held(self.cache)
    }

    pub closed spec fn cache_size(&self) -> nat {
        cache_capacity(self.cache)
    }

    pub closed spec fn content_ttl(&self) -> u64 {
        self.content_ttl_ms
    }

    pub closed spec fn wf(&self) -> bool {
        store_ok(self.entries@)
    }

    /// A filesystem over a complete entry store, with an empty content cache.
    pub fn from_entries(entries: Vec<FSEntry>, capacity: usize, content_ttl_ms: u64) -> (r: Self)
        requires
            store_ok(entries@),
        ensures
            r.wf(),
            r.entries() == entries@,
            r.cached() =~= Map::<u64, Seq<u8>>::empty(),
            r.cache_size() == capacity,
            r.content_ttl() == content_ttl_ms,
    {
        StudIPFS { entries, cache: cache_new(capacity), content_ttl_ms }
    }

    /// The number of registered entries.
    pub fn len(&self) -> (r: usize)
        ensures
            r == self.entries().len(),
    {
        self.entries.len()
    }

    /// The entry registered under handle `ino`.
    pub fn get_entry(&self, ino: u64) -> (r: Result<&FSEntry, FsError>)
        ensures
            r is Ok <==> valid_handle(self.entries(), ino),
            r matches Ok(e) ==> *e == self.entries()[index_of_handle(ino)],
            r matches Err(err) ==> err == FsError::NotFound,
    {
        if ino < ROOT_HANDLE || (ino - ROOT_HANDLE) as u128 >= self.entries.len() as u128 {
            return Err(FsError::NotFound);
        }
        Ok(&self.entries[(ino - ROOT_HANDLE) as usize])
    }

    /// The handle registered under the remote ID `id`.
    pub fn resolve_handle(&self, id: &String) -> (r: Result<u64, FsError>)
        requires
            self.wf(),
        ensures
            r is Ok <==> registered(self.entries(), id@),
            r matches Ok(h) ==> valid_handle(self.entries(), h) && self.entries()[index_of_handle(
                h,
            )].id@ == id@ && index_of_handle(h) == index_of_id(self.entries(), id@),
            r matches Err(err) ==> err == FsError::NotFound,
    {
        match find_index(&self.entries, id) {
            Some(j) => {
                proof {
                    lemma_index_of_id(self.entries@, id@);
                }
                Ok(j as u64 + ROOT_HANDLE)
            },
            None => Err(FsError::NotFound),
        }
    }

    /// The attributes of the entry with handle `ino`.
    pub fn getattr(&self, ino: u64) -> (r: Result<Attr, FsError>)
        ensures
            r is Ok <==> valid_handle(self.entries(), ino),
            r matches Ok(a) ==> a == attr_spec(ino, self.entries()[index_of_handle(ino)]),
            r matches Err(err) ==> err == FsError::NotFound,
    {
        let e = self.get_entry(ino)?;
        Ok(get_attr(ino, e))
    }

    /// Attributes of the first child of directory `parent` named exactly
    /// `name`.
    pub fn lookup(&self, parent: u64, name: &String) -> (r: Result<Attr, FsError>)
        requires
            self.wf(),
        ensures
            !valid_handle(self.entries(), parent) ==> r == Err::<Attr, FsError>(FsError::NotFound),
            valid_handle(self.entries(), parent) ==> ({
                let e = self.entries()[index_of_handle(parent)];
                &&& e.kind is File ==> r == Err::<Attr, FsError>(FsError::InvalidOperation)
                &&& e.kind is Folder && !has_named(self.entries(), e, name@) ==> r == Err::<
                    Attr,
                    FsError,
                >(FsError::NotFound)
                &&& e.kind is Folder && has_named(self.entries(), e, name@) ==> r is Ok
                &&& r matches Ok(a) ==> exists|c: int|
                    #![trigger e.children_ids()[c]]
                    first_named(self.entries(), e, name@, c) && a == attr_spec(
                        handle_of_index(index_of_id(self.entries(), e.children_ids()[c])) as u64,
                        self.entries()[index_of_id(self.entries(), e.children_ids()[c])],
                    )
            }),
    {
        let e = self.get_entry(parent)?;
        match &e.kind {
            FSEntryType::File => Err(FsError::InvalidOperation),
            FSEntryType::Folder { children } => {
                let ghost es = self.entries@;
                let mut c: usize = 0;
                while c < children.len()
                    invariant
                        self.wf(),
                        es == self.entries@,
                        valid_handle(es, parent),
                        *e == es[index_of_handle(parent)],
                        e.kind is Folder,
                        e.kind->children == *children,
                        c <= children@.len(),
                        forall|d: int|
                            0 <= d < c ==> es[index_of_id(es, #[trigger] e.children_ids()[d])].name@
                                != name@,
                    decreases children@.len() - c,
                {
                    proof {
                        let i = index_of_handle(parent);
                        assert(registered(es, es[i].children_ids()[c as int]));
                    }
                    let h = self.resolve_handle(&children[c])?;
                    let child = &self.entries[(h - ROOT_HANDLE) as usize];
                    if child.name == *name {
                        let a = get_attr(h, child);
                        assert(first_named(es, *e, name@, c as int));
                        return Ok(a);
                    }
                    c = c + 1;
                }
                Err(FsError::NotFound)
            },
        }
    }

    /// The next step of reading `size` bytes at `offset` from file `ino`:
    /// the bytes when the cache holds an unexpired copy of the content, else
    /// the remote ID whose content must be fetched.
    pub fn read(&self, ino: u64, offset: u64, size: u32) -> (r: Result<ReadStep, FsError>)
        ensures
            !valid_handle(self.entries(), ino) ==> r matches Err(FsError::NotFound),
            valid_handle(self.entries(), ino) && self.entries()[index_of_handle(ino)].kind is Folder
                ==> r matches Err(FsError::InvalidOperation),
            valid_handle(self.entries(), ino) && self.entries()[index_of_handle(ino)].kind is File
                ==> r is Ok,
            r matches Ok(ReadStep::Data(d)) ==> self.cached().contains_key(ino) && d@
                == clamp_range(self.cached()[ino], offset as int, size as int),
            r matches Ok(ReadStep::Fetch(id)) ==> id@ == self.entries()[index_of_handle(ino)].id@,
    {
        let e = self.get_entry(ino)?;
        match &e.kind {
            FSEntryType::Folder { .. } => Err(FsError::InvalidOperation),
            FSEntryType::File => {
                match cache_get(&self.cache, ino) {
                    Some(data) => Ok(ReadStep::Data(slice_range(data, offset, size))),
                    None => Ok(ReadStep::Fetch(e.id.clone())),
                }
            },
        }
    }

    /// Completes a read of file `ino` with its freshly fetched `content`:
    /// caches the content and returns the requested range of it.
    pub fn read_fetched(&mut self, ino: u64, offset: u64, size: u32, content: Vec<u8>) -> (r:
        Result<Vec<u8>, FsError>)
        requires
            old(self).wf(),
        ensures
            final(self).wf(),
            final(self).entries() == old(self).entries(),
            final(self).cache_size() == old(self).cache_size(),
            final(self).content_ttl() == old(self).content_ttl(),
            !valid_handle(old(self).entries(), ino) ==> r == Err::<Vec<u8>, FsError>(
                FsError::NotFound,
            ),
            valid_handle(old(self).entries(), ino) && old(self).entries()[index_of_handle(
                ino,
            )].kind is Folder ==> r == Err::<Vec<u8>, FsError>(FsError::InvalidOperation),
            r is Err ==> final(self).cached() == old(self).cached(),
            valid_handle(old(self).entries(), ino) && old(self).entries()[index_of_handle(
                ino,
            )].kind is File ==> r is Ok,
            r matches Ok(d) ==> d@ == clamp_range(content@, offset as int, size as int),
            r is Ok && old(self).cache_size() > 0 ==> final(self).cached().contains_key(ino)
                && final(self).cached()[ino] == content@,
            forall|k: u64|
                k != ino && #[trigger] final(self).cached().contains_key(k) ==> old(
                    self,
                ).cached().contains_key(k) && final(self).cached()[k] == old(self).cached()[k],
    {
        let e = self.get_entry(ino)?;
        match &e.kind {
            FSEntryType::Folder { .. } => Err(FsError::InvalidOperation),
            FSEntryType::File => {
                let d = slice_range(&content, offset, size);
                let ttl = self.content_ttl_ms;
                cache_insert(&mut self.cache, ino, content, ttl);
                Ok(d)
            },
        }
    }

    /// Record `i` of the listing of directory `ino`.
    fn listing_entry(&self, ino: u64, e: &FSEntry, children: &Vec<String>, i: usize) -> (r: DirItem)
        requires
            self.wf(),
            valid_handle(self.entries(), ino),
            *e == self.entries()[index_of_handle(ino)],
            e.kind is Folder,
            e.kind->children == *children,
            i < children@.len() + 2,
        ensures
            r.ino == listing_item(self.entries(), ino, i as int).0,
            r.kind == listing_item(self.entries(), ino, i as int).1,
            r.name@ == listing_item(self.entries(), ino, i as int).2,
            r.cursor == i + 1,
    {
        let ghost es = self.entries@;
        proof {
            assert(es[index_of_handle(ino)].kind is Folder);
        }
        if i == 0 {
            DirItem { ino, kind: FileKind::Directory, name: String::from_str("."), cursor: 1 }
        } else if i == 1 {
            DirItem { ino: e.parent, kind: FileKind::Directory, name: String::from_str(".."), cursor: 2 }
        } else {
            let c = i - 2;
            proof {
                let k = index_of_handle(ino);
                assert(registered(es, es[k].children_ids()[c as int]));
            }
            let h = match self.resolve_handle(&children[c]) {
                Ok(h) => h,
                Err(_) => {
                    return DirItem { ino, kind: FileKind::Directory, name: String::new(), cursor: 0 };
                },
            };
            let child = &self.entries[(h - ROOT_HANDLE) as usize];
            let a = get_attr(h, child);
            DirItem { ino: h, kind: a.kind, name: child.name.clone(), cursor: (i + 1) as u64 }
        }
    }

    /// The records of the listing of directory `ino` from index `offset` on,
    /// each with the index at which the listing resumes after it.
    pub fn readdir(&self, ino: u64, offset: u64) -> (r: Result<Vec<DirItem>, FsError>)
        requires
            self.wf(),
        ensures
            !valid_handle(self.entries(), ino) ==> r matches Err(FsError::NotFound),
            valid_handle(self.entries(), ino) && self.entries()[index_of_handle(ino)].kind is File
                ==> r matches Err(FsError::InvalidOperation),
            valid_handle(self.entries(), ino) && self.entries()[index_of_handle(ino)].kind is Folder
                ==> r is Ok,
            r matches Ok(items) ==> {
                &&& items@.len() == if offset < listing_len(self.entries(), ino) {
                    listing_len(self.entries(), ino) - offset
                } else {
                    0
                }
                &&& forall|k: int|
                    0 <= k < items@.len() ==> {
                        let it = listing_item(self.entries(), ino, offset + k);
                        &&& (#[trigger] items@[k]).ino == it.0
                        &&& items@[k].kind == it.1
                        &&& items@[k].name@ == it.2
                        &&& items@[k].cursor == offset + k + 1
                    }
            },
    {
        let e = self.get_entry(ino)?;
        match &e.kind {
            FSEntryType::File => Err(FsError::InvalidOperation),
            FSEntryType::Folder { children } => {
                let ghost es = self.entries@;
                proof {
                    assert(es[index_of_handle(ino)].kind is Folder);
                }
                let total = children.len() + 2;
                let mut items: Vec<DirItem> = Vec::new();
                if offset as u128 >= total as u128 {
                    return Ok(items);
                }
                let start = offset as usize;
                let mut i: usize = start;
                while i < total
                    invariant
                        self.wf(),
                        es == self.entries@,
                        valid_handle(es, ino),
                        *e == es[index_of_handle(ino)],
                        e.kind is Folder,
                        e.kind->children == *children,
                        total == children@.len() + 2 == listing_len(es, ino),
                        start == offset,
                        start <= i <= total,
                        items@.len() == i - start,
                        forall|k: int|
                            0 <= k < items@.len() ==> {
                                let it = listing_item(es, ino, offset + k);
                                &&& (#[trigger] items@[k]).ino == it.0
                                &&& items@[k].kind == it.1
                                &&& items@[k].name@ == it.2
                                &&& items@[k].cursor == offset + k + 1
                            },
                    decreases total - i,
                {
                    let it = self.listing_entry(ino, e, children, i);
                    items.push(it);
                    i = i + 1;
                }
                Ok(items)
            },
        }
    }
}

/// A remote ID resolves to one handle only: any two handles whose entries
/// carry the same remote ID are the same handle. The entries never change
/// after the mount is built, so resolving is stable for its lifetime.
pub proof fn lemma_resolve_stable(fs: StudIPFS, id: Seq<char>, h1: u64, h2: u64)
    requires
        fs.wf(),
        valid_handle(fs.entries(), h1),
        valid_handle(fs.entries(), h2),
        fs.entries()[index_of_handle(h1)].id@ == id,
        fs.entries()[index_of_handle(h2)].id@ == id,
    ensures
        h1 == h2,
{
    let es = fs.entries();
    assert(ids(es)[index_of_handle(h1)] == ids(es)[index_of_handle(h2)]);
}

/// The root entry has the reserved root handle and is a directory, and the
/// first two records of its listing, `.` and `..`, both lead to it.
pub proof fn lemma_root_listing(fs: StudIPFS)
    requires
        fs.wf(),
    ensures
        valid_handle(fs.entries(), ROOT_HANDLE),
        fs.entries()[index_of_handle(ROOT_HANDLE)].kind is Folder,
        listing_item(fs.entries(), ROOT_HANDLE, 0) == (ROOT_HANDLE, FileKind::Directory, "."@),
        listing_item(fs.entries(), ROOT_HANDLE, 1) == (ROOT_HANDLE, FileKind::Directory, ".."@),
{
    let es = fs.entries();
    assert(ROOT_HANDLE <= es[0].parent <= handle_of_index(0));
}

/// After `.` and `..`, a directory's listing holds exactly its children, in
/// the order the directory stores them, each under its own handle, kind and
/// name.
pub proof fn lemma_listing_children(fs: StudIPFS, h: u64)
    requires
        fs.wf(),
        valid_handle(fs.entries(), h),
        fs.entries()[index_of_handle(h)].kind is Folder,
    ensures
        listing_len(fs.entries(), h) == fs.entries()[index_of_handle(h)].children_ids().len() + 2,
        forall|c: int|
            0 <= c < fs.entries()[index_of_handle(h)].children_ids().len() ==> {
                let it = #[trigger] listing_item(fs.entries(), h, c + 2);
                let e = fs.entries()[index_of_handle(it.0)];
                &&& valid_handle(fs.entries(), it.0)
                &&& e.id@ == fs.entries()[index_of_handle(h)].children_ids()[c]
                &&& it.1 == kind_of(e)
                &&& it.2 == e.name@
            },
{
    let es = fs.entries();
    let i = index_of_handle(h);
    assert forall|c: int| 0 <= c < es[i].children_ids().len() implies {
        let it = #[trigger] listing_item(es, h, c + 2);
        let e = es[index_of_handle(it.0)];
        &&& valid_handle(es, it.0)
        &&& e.id@ == es[i].children_ids()[c]
        &&& it.1 == kind_of(e)
        &&& it.2 == e.name@
    } by {
        assert(registered(es, es[i].children_ids()[c]));
        lemma_index_of_id(es, es[i].children_ids()[c]);
    }
}

/// A read that starts at or past the end of the content returns no bytes.
pub proof fn lemma_read_past_end(data: Seq<u8>, offset: int, size: int)
    requires
        offset >= data.len(),
    ensures
        clamp_range(data, offset, size) == Seq::<u8>::empty(),
{
}

/// A read returns at most `size` bytes, and exactly the content's bytes from
/// `offset` on.
pub proof fn lemma_read_within(data: Seq<u8>, offset: int, size: int)
    requires
        0 <= offset,
        0 <= size,
    ensures
        clamp_range(data, offset, size).len() <= size,
        forall|k: int|
            0 <= k < clamp_range(data, offset, size).len() ==> #[trigger] clamp_range(
                data,
                offset,
                size,
            )[k] == data[offset + k],
{
}

} // verus!
