use vstd::prelude::*;
use crate::api::{FileRef, Folder};
use crate::entry::{child_ids, FSEntry};
use crate::fs::StudIPFS;
use crate::store::{find_index, ids, identity_ok, parents_first, registered, ROOT_HANDLE};

verus! {

/// The walk's rules hold again once a listing has been registered.
proof fn lemma_walk_step(
    es0: Seq<FSEntry>,
    ps0: Seq<(Seq<char>, u64)>,
    folder: Folder,
    es: Seq<FSEntry>,
    p: Seq<(Seq<char>, u64)>,
)
    requires
        walk_ok(es0, ps0),
        ps0.len() > 0,
        folder.folder.id@ == ps0.last().0,
        fits(es0.len() as int, folder),
        ids(es).no_duplicates(),
        es.len() == es0.len() + 1 + folder.file_refs@.len(),
        forall|j: int| 0 <= j < es0.len() ==> es[j] == es0[j],
        es[es0.len() as int].id@ == folder.folder.id@,
        es[es0.len() as int].parent == ps0.last().1,
        es[es0.len() as int].kind is Folder,
        es[es0.len() as int].children_ids() == child_ids(folder),
        forall|q: int|
            0 <= q < folder.file_refs@.len() ==> {
                let e = #[trigger] es[es0.len() + 1 + q];
                &&& e.id@ == folder.file_refs@[q].id@
                &&& e.parent == es0.len() + 1
                &&& e.kind is File
            },
        p == ps0.drop_last() + Seq::new(
            folder.subfolders@.len(),
            |q: int| (folder.subfolders@[folder.subfolders@.len() - 1 - q].id@, (es0.len() + 1) as u64),
        ),
    ensures
        walk_ok(es, p),
{
    let n = es0.len() as int;
    let ns = folder.subfolders@.len() as int;
    let nf = folder.file_refs@.len() as int;
    assert forall|i: int|
        0 <= i < es.len() implies ROOT_HANDLE <= (#[trigger] es[i]).parent && (es[i].parent
            <= i + ROOT_HANDLE) && (i > 0 ==> es[i].parent < i + ROOT_HANDLE) by {
        if i < n {
            assert(es[i] == es0[i]);
        } else if i == n {
            if n > 0 {
                assert(ps0[ps0.len() - 1].1 <= n);
            }
        } else {
            assert(es[n + 1 + (i - n - 1)] == es[i]);
        }
    }
    assert(parents_first(es));
    assert forall|k: int|
        0 <= k < p.len() && es.len() > 0 implies ROOT_HANDLE <= (#[trigger] p[k]).1 <= es.len() by {
        if k < ps0.len() - 1 {
            assert(p[k] == ps0[k]);
            if es0.len() == 0 {
                assert(false);
            }
        }
    }
    assert forall|i: int|
        0 <= i < es.len() && (#[trigger] es[i]).kind is Folder implies es[i].children_ids().len()
            + 3 < usize::MAX by {
        if i < n {
            assert(es[i] == es0[i]);
        } else if i > n {
            assert(es[n + 1 + (i - n - 1)] == es[i]);
        }
    }
    assert forall|j: int| 0 <= j < es0.len() && registered(es0, ids(es0)[j]) implies registered(
        es,
        ids(es0)[j],
    ) by {
        assert(ids(es)[j] == ids(es0)[j]);
    }
    assert forall|i: int, c: int|
        0 <= i < es.len() && es[i].kind is Folder && 0 <= c < es[i].children_ids().len()
            implies registered(es, #[trigger] es[i].children_ids()[c]) || pending_ids(p).contains(
            es[i].children_ids()[c],
        ) by {
        let x = es[i].children_ids()[c];
        if i < n {
            assert(es[i] == es0[i]);
            assert(registered(es0, es0[i].children_ids()[c]) || pending_ids(ps0).contains(
                es0[i].children_ids()[c],
            ));
            if registered(es0, x) {
                let j = choose|j: int| 0 <= j < ids(es0).len() && ids(es0)[j] == x;
                assert(ids(es)[j] == x);
            } else {
                let k = choose|k: int| 0 <= k < pending_ids(ps0).len() && pending_ids(ps0)[k] == x;
                if k == ps0.len() - 1 {
                    assert(ids(es)[n] == x);
                } else {
                    assert(pending_ids(p)[k] == x);
                }
            }
        } else if i == n {
            if c < ns {
                let q = ns - 1 - c;
                assert(pending_ids(p)[ps0.len() - 1 + q] == x);
            } else {
                assert(ids(es)[n + 1 + (c - ns)] == x);
            }
        } else {
            assert(es[n + 1 + (i - n - 1)] == es[i]);
        }
    }
}

/// Why a mount attempt was abandoned.
#[derive(Debug, Clone, Copy, PartialEq, Eq, Structural)]
pub enum MountError {
    /// A listing arrived while no folder was waiting to be fetched.
    NothingPending,
    /// The listing describes another folder than the one that was requested.
    MismatchedFolder,
    /// The tree has more entries than handles can be given to.
    TooManyEntries,
    /// A remote ID was met twice.
    DuplicateId,
    /// Folders remain to be fetched.
    Incomplete,
}

/// The remote IDs a listing registers: the folder's own, then its files'.
pub open spec fn new_ids(folder: Folder) -> Seq<Seq<char>> {
    seq![folder.folder.id@] + folder.file_refs@.map_values(|f: FileRef| f.id@)
}

/// Whether a listing fits next to `n` registered entries.
pub open spec fn fits(n: int, folder: Folder) -> bool {
    &&& n + 1 + folder.file_refs@.len() < usize::MAX
    &&& folder.subfolders@.len() + folder.file_refs@.len() + 3 < usize::MAX
}

/// The folders still to fetch, each with the handle of the directory it was
/// listed in; the last one is fetched next.
pub open spec fn pending_view(p: Seq<(String, u64)>) -> Seq<(Seq<char>, u64)> {
    p.map_values(|x: (String, u64)| (x.0@, x.1))
}

pub open spec fn pending_ids(p: Seq<(Seq<char>, u64)>) -> Seq<Seq<char>> {
    p.map_values(|x: (Seq<char>, u64)| x.0)
}

/// Every child of a registered directory is registered or still to fetch.
pub open spec fn children_known(es: Seq<FSEntry>, p: Seq<(Seq<char>, u64)>) -> bool {
    forall|i: int, c: int|
        0 <= i < es.len() && es[i].kind is Folder && 0 <= c < es[i].children_ids().len()
            ==> registered(es, #[trigger] es[i].children_ids()[c]) || pending_ids(p).contains(
            es[i].children_ids()[c],
        )
}

pub open spec fn walk_ok(es: Seq<FSEntry>, p: Seq<(Seq<char>, u64)>) -> bool {
    &&& identity_ok(es)
    &&& es.len() == 0 ==> p.len() == 1 && p[0].1 == ROOT_HANDLE
    &&& es.len() > 0 ==> es[0].kind is Folder
    &&& forall|k: int|
        0 <= k < p.len() && es.len() > 0 ==> ROOT_HANDLE <= (#[trigger] p[k]).1 <= es.len()
    &&& forall|i: int|
        0 <= i < es.len() && (#[trigger] es[i]).kind is Folder ==> es[i].children_ids().len() + 3
            < usize::MAX
    &&& children_known(es, p)
}

/// The walk that discovers the remote tree: a stack of folders still to
/// fetch and the entries registered so far. Folders are registered depth
/// first, in the order the remote store lists them.
pub struct Materializer {
    entries: Vec<FSEntry>,
    pending: Vec<(String, u64)>,
}

impl Materializer {
    pub closed spec fn entries(&self) -> Seq<FSEntry> {
        self.entries@
    }

    pub closed spec fn pending(&self) -> Seq<(Seq<char>, u64)> {
        pending_view(self.pending@)
    }

    pub open spec fn wf(&self) -> bool {
        walk_ok(self.entries(), self.pending())
    }

    /// A walk that starts at the remote folder `root`.
    pub fn new(root: String) -> (r: Materializer)
        ensures
            r.wf(),
            r.entries().len() == 0,
            r.pending() == seq![(root@, ROOT_HANDLE)],
    {
        let mut pending: Vec<(String, u64)> = Vec::new();
        pending.push((root, ROOT_HANDLE));
        let r = Materializer { entries: Vec::new(), pending };
        assert(r.pending() =~= seq![(root@, ROOT_HANDLE)]);
        r
    }

    /// The remote ID of the folder to fetch next, if any remains.
    pub fn next_folder(&self) -> (r: Option<&String>)
        ensures
            r is None <==> self.pending().len() == 0,
            r matches Some(id) ==> id@ == self.pending().last().0,
    {
        let n = self.pending.len();
        if n == 0 {
            None
        } else {
            Some(&self.pending[n - 1].0)
        }
    }

    /// The number of entries registered so far.
    pub fn len(&self) -> (r: usize)
        ensures
            r == self.entries().len(),
    {
        self.entries.len()
    }

    /// The filesystem over the discovered tree, once no folder remains to
    /// fetch.
    pub fn finish(self, capacity: usize, content_ttl_ms: u64) -> (r: Result<StudIPFS, MountError>)
        requires
            self.wf(),
        ensures
            r is Err <==> self.pending().len() > 0,
            r matches Err(e) ==> e == MountError::Incomplete,
            r matches Ok(fs) ==> fs.wf() && fs.entries() == self.entries() && fs.cached()
                =~= Map::<u64, Seq<u8>>::empty() && fs.cache_size() == capacity
                && fs.content_ttl() == content_ttl_ms,
    {
        if self.pending.len() > 0 {
            return Err(MountError::Incomplete);
        }
        proof {
            let es = self.entries@;
            assert forall|i: int, c: int|
                0 <= i < es.len() && es[i].kind is Folder && 0 <= c < es[i].children_ids().len()
                    implies registered(es, #[trigger] es[i].children_ids()[c]) by {
                if pending_ids(self.pending()).contains(es[i].children_ids()[c]) {
                    let k = choose|k: int|
                        0 <= k < pending_ids(self.pending()).len() && pending_ids(
                            self.pending(),
                        )[k] == es[i].children_ids()[c];
                    assert(self.pending().len() == 0);
                }
            }
        }
        Ok(StudIPFS::from_entries(self.entries, capacity, content_ttl_ms))
    }

    /// Registers the listing of the folder fetched next: the folder itself,
    /// then its files, and schedules its subfolders so that the first one is
    /// fetched first. A listing that breaks the tree's identity rules ends the
    /// walk.
    pub fn add_folder(self, folder: &Folder) -> (r: Result<Materializer, MountError>)
        requires
            self.wf(),
        ensures
            r matches Err(MountError::NothingPending) <==> self.pending().len() == 0,
            r matches Err(MountError::MismatchedFolder) <==> self.pending().len() > 0
                && folder.folder.id@ != self.pending().last().0,
            r matches Err(MountError::TooManyEntries) <==> self.pending().len() > 0
                && folder.folder.id@ == self.pending().last().0 && !fits(
                self.entries().len() as int,
                *folder,
            ),
            r matches Err(MountError::DuplicateId) <==> self.pending().len() > 0
                && folder.folder.id@ == self.pending().last().0 && fits(
                self.entries().len() as int,
                *folder,
            ) && !(ids(self.entries()) + new_ids(*folder)).no_duplicates(),
            !(r matches Err(MountError::Incomplete)),
            r matches Ok(m) ==> {
                let n = self.entries().len() as int;
                let h = (n + 1) as u64;
                let files = folder.file_refs@;
                let subs = folder.subfolders@;
                &&& m.wf()
                &&& m.entries().len() == n + 1 + files.len()
                &&& m.entries().subrange(0, n) == self.entries()
                &&& m.entries()[n].id@ == folder.folder.id@
                &&& m.entries()[n].name@ == folder.folder.name@
                &&& m.entries()[n].parent == self.pending().last().1
                &&& m.entries()[n].size == 0
                &&& m.entries()[n].kind is Folder
                &&& m.entries()[n].children_ids() == child_ids(*folder)
                &&& forall|k: int|
                    0 <= k < files.len() ==> {
                        let e = #[trigger] m.entries()[n + 1 + k];
                        &&& e.id@ == files[k].id@
                        &&& e.name@ == files[k].name@
                        &&& e.size == files[k].size as u64
                        &&& e.parent == h
                        &&& e.kind is File
                    }
                &&& m.pending() == self.pending().drop_last() + Seq::new(
                    subs.len(),
                    |k: int| (subs[subs.len() - 1 - k].id@, h),
                )
            },
    {
        let ghost es0 = self.entries@;
        let ghost ps0 = self.pending();
        let ghost all = ids(es0) + new_ids(*folder);
        let mut m = self;
        let top = m.pending.pop();
        let (id, parent) = match top {
            None => {
                return Err(MountError::NothingPending);
            },
            Some(t) => t,
        };
        proof {
            assert(pending_view(m.pending@) =~= ps0.drop_last());
        }
        if !(folder.folder.id == id) {
            return Err(MountError::MismatchedFolder);
        }
        let n = m.entries.len();
        let nf = folder.file_refs.len();
        let ns = folder.subfolders.len();
        if nf >= usize::MAX - 3 || ns >= usize::MAX - 3 - nf || nf >= usize::MAX - 1 - n {
            return Err(MountError::TooManyEntries);
        }
        if find_index(&m.entries, &folder.folder.id).is_some() {
            proof {
                let j = choose|j: int| 0 <= j < ids(es0).len() && ids(es0)[j] == folder.folder.id@;
                assert(all[j] == all[n as int]);
            }
            return Err(MountError::DuplicateId);
        }
        let h: u64 = n as u64 + 1;
        let fe = FSEntry::from_folder(folder, parent);
        m.entries.push(fe);
        proof {
            assert(ids(m.entries@) =~= all.subrange(0, n + 1));
        }
        let mut k: usize = 0;
        while k < nf
            invariant
                nf == folder.file_refs@.len(),
                ns == folder.subfolders@.len(),
                n == es0.len(),
                h == n + 1,
                all == ids(es0) + new_ids(*folder),
                ids(es0).no_duplicates(),
                ps0.len() > 0,
                ps0 == self.pending(),
                es0 == self.entries(),
                folder.folder.id@ == ps0.last().0,
                fits(n as int, *folder),
                m.pending() == ps0.drop_last(),
                k <= nf,
                m.entries@.len() == n + 1 + k,
                ids(m.entries@) == all.subrange(0, n + 1 + k),
                ids(m.entries@).no_duplicates(),
                forall|j: int| 0 <= j < n ==> m.entries@[j] == es0[j],
                m.entries@[n as int] == fe,
                forall|q: int|
                    0 <= q < k ==> {
                        let e = #[trigger] m.entries@[n + 1 + q];
                        &&& e.id@ == folder.file_refs@[q].id@
                        &&& e.name@ == folder.file_refs@[q].name@
                        &&& e.size == folder.file_refs@[q].size as u64
                        &&& e.parent == h
                        &&& e.kind is File
                    },
            decreases nf - k,
        {
            let file = &folder.file_refs[k];
            if find_index(&m.entries, &file.id).is_some() {
                proof {
                    let cur = ids(m.entries@);
                    let j = choose|j: int| 0 <= j < cur.len() && cur[j] == file.id@;
                    assert(all[j] == cur[j]);
                    assert(all[n + 1 + k] == file.id@);
                }
                return Err(MountError::DuplicateId);
            }
            let ghost before = m.entries@;
            m.entries.push(FSEntry::from_file(file, h));
            proof {
                assert(all[n + 1 + k] == file.id@);
                assert(ids(m.entries@) =~= ids(before).push(file.id@));
                assert(ids(m.entries@) =~= all.subrange(0, n + 1 + k + 1));
                let cur = ids(m.entries@);
                assert forall|a: int, b: int|
                    0 <= a < cur.len() && 0 <= b < cur.len() && a != b implies cur[a] != cur[b] by {
                    if a < cur.len() - 1 && b < cur.len() - 1 {
                        assert(cur[a] == ids(before)[a]);
                        assert(cur[b] == ids(before)[b]);
                    } else if a < cur.len() - 1 {
                        assert(cur[a] == ids(before)[a]);
                    } else {
                        assert(cur[b] == ids(before)[b]);
                    }
                }
            }
            k = k + 1;
        }
        proof {
            assert(all =~= all.subrange(0, n + 1 + nf));
        }
        let ghost es1 = m.entries@;
        proof {
            assert(ps0.drop_last() + Seq::new(0, |q: int| (folder.subfolders@[ns - 1 - q].id@, h))
                =~= ps0.drop_last());
        }
        let mut t: usize = ns;
        while t > 0
            invariant
                m.entries@ == es1,
                ns == folder.subfolders@.len(),
                t <= ns,
                h == es0.len() + 1,
                ps0.len() > 0,
                m.pending() == ps0.drop_last() + Seq::new(
                    (ns - t) as nat,
                    |q: int| (folder.subfolders@[ns - 1 - q].id@, h),
                ),
            decreases t,
        {
            t = t - 1;
            let ghost before = m.pending();
            m.pending.push((folder.subfolders[t].id.clone(), h));
            proof {
                assert(m.pending() =~= before.push((folder.subfolders@[t as int].id@, h)));
                assert(m.pending() =~= ps0.drop_last() + Seq::new(
                    (ns - t) as nat,
                    |q: int| (folder.subfolders@[ns - 1 - q].id@, h),
                ));
            }
        }
        proof {
            assert(m.entries@.subrange(0, n as int) =~= es0);
            assert(ps0.drop_last() + Seq::new(0, |q: int| (folder.subfolders@[ns - 1 - q].id@, h))
                =~= ps0.drop_last());
            assert(m.pending() =~= ps0.drop_last() + Seq::new(
                folder.subfolders@.len(),
                |q: int| (folder.subfolders@[folder.subfolders@.len() - 1 - q].id@, h),
            ));
            lemma_walk_step(es0, ps0, *folder, m.entries@, m.pending());
        }
        Ok(m)
    }
}

} // verus!
