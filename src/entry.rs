use vstd::prelude::*;
use crate::api::{FileRef, Folder, Subfolder};

verus! {

/// What an entry is: a directory with its children's remote IDs in listing
/// order, or a regular file.
#[derive(Debug, Clone)]
pub enum FSEntryType {
    Folder { children: Vec<String> },
    File,
}

/// The local metadata record of one filesystem object.
#[derive(Debug, Clone)]
pub struct FSEntry {
    pub id: String,
    /// Handle of the directory this entry was discovered in (the root's own
    /// handle for the root).
    pub parent: u64,
    pub name: String,
    pub size: u64,
    pub kind: FSEntryType,
}

/// The remote IDs of a listing's children: all subfolders, then all files,
/// each group in the order the remote store returned it.
pub open spec fn child_ids(folder: Folder) -> Seq<Seq<char>> {
    folder.subfolders@.map_values(|s: Subfolder| s.id@) + folder.file_refs@.map_values(
        |f: FileRef| f.id@,
    )
}

pub open spec fn ids_of(v: Seq<String>) -> Seq<Seq<char>> {
    v.map_values(|s: String| s@)
}

impl FSEntry {
    pub open spec fn children_ids(self) -> Seq<Seq<char>> {
        ids_of(self.kind->children@)
    }

    /// The directory entry for a fetched folder listing.
    pub fn from_folder(folder: &Folder, parent: u64) -> (r: FSEntry)
        ensures
            r.id@ == folder.folder.id@,
            r.parent == parent,
            r.name@ == folder.folder.name@,
            r.size == 0,
            r.kind is Folder,
            r.children_ids() == child_ids(*folder),
    {
        let mut children: Vec<String> = Vec::new();
        let ns = folder.subfolders.len();
        let mut i: usize = 0;
        while i < ns
            invariant
                ns == folder.subfolders@.len(),
                i <= ns,
                children@.len() == i,
                forall|j: int| 0 <= j < i ==> (#[trigger] children@[j])@ == folder.subfolders@[j].id@,
            decreases ns - i,
        {
            children.push(folder.subfolders[i].id.clone());
            i = i + 1;
        }
        let mut k: usize = 0;
        while k < folder.file_refs.len()
            invariant
                ns == folder.subfolders@.len(),
                k <= folder.file_refs@.len(),
                children@.len() == ns + k,
                forall|j: int| 0 <= j < ns ==> (#[trigger] children@[j])@ == folder.subfolders@[j].id@,
                forall|j: int|
                    ns <= j < ns + k ==> (#[trigger] children@[j])@ == folder.file_refs@[j - ns].id@,
            decreases folder.file_refs@.len() - k,
        {
            children.push(folder.file_refs[k].id.clone());
            k = k + 1;
        }
        assert(ids_of(children@) =~= child_ids(*folder));
        FSEntry {
            id: folder.folder.id.clone(),
            parent,
            name: folder.folder.name.clone(),
            size: 0,
            kind: FSEntryType::Folder { children },
        }
    }

    /// The regular-file entry for a file reference.
    pub fn from_file(file: &FileRef, parent: u64) -> (r: FSEntry)
        ensures
            r.id@ == file.id@,
            r.parent == parent,
            r.name@ == file.name@,
            r.size == file.size as u64,
            r.kind is File,
    {
        FSEntry {
            id: file.id.clone(),
            parent,
            name: file.name.clone(),
            size: file.size as u64,
            kind: FSEntryType::File,
        }
    }
}

} // verus!
