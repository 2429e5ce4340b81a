use vstd::prelude::*;
use crate::entry::FSEntry;

verus! {

/// The handle the kernel protocol reserves for the mount's root.
pub const ROOT_HANDLE: u64 = 1;

/// The entry at index `i` of the store carries handle `i + 1`: handles are
/// dense and start at the root handle.
pub open spec fn index_of_handle(h: u64) -> int {
    h - ROOT_HANDLE
}

pub open spec fn handle_of_index(i: int) -> int {
    i + ROOT_HANDLE
}

pub open spec fn valid_handle(es: Seq<FSEntry>, h: u64) -> bool {
    ROOT_HANDLE <= h && index_of_handle(h) < es.len()
}

/// The remote IDs of the store, in handle order.
pub open spec fn ids(es: Seq<FSEntry>) -> Seq<Seq<char>> {
    es.map_values(|e: FSEntry| e.id@)
}

pub open spec fn registered(es: Seq<FSEntry>, id: Seq<char>) -> bool {
    ids(es).contains(id)
}

/// The index of the entry registered under `id`.
pub open spec fn index_of_id(es: Seq<FSEntry>, id: Seq<char>) -> int {
    choose|j: int| 0 <= j < es.len() && es[j].id@ == id
}

/// Every entry's parent was registered before it; the root is its own parent.
pub open spec fn parents_first(es: Seq<FSEntry>) -> bool {
    forall|i: int|
        0 <= i < es.len() ==> ROOT_HANDLE <= (#[trigger] es[i]).parent && (es[i].parent
            <= handle_of_index(i)) && (i > 0 ==> es[i].parent < handle_of_index(i))
}

/// No two entries share a remote ID, and every handle fits.
pub open spec fn identity_ok(es: Seq<FSEntry>) -> bool {
    &&& ids(es).no_duplicates()
    &&& es.len() < usize::MAX
    &&& parents_first(es)
}

/// Every child of every directory is itself registered.
pub open spec fn children_registered(es: Seq<FSEntry>) -> bool {
    forall|i: int, c: int|
        0 <= i < es.len() && es[i].kind is Folder && 0 <= c < es[i].children_ids().len()
            ==> registered(es, #[trigger] es[i].children_ids()[c])
}

/// A complete, well-formed entry store: the root is a directory at the root
/// handle, identities are unique and every child can be resolved.
pub open spec fn store_ok(es: Seq<FSEntry>) -> bool {
    &&& es.len() > 0
    &&& es[0].kind is Folder
    &&& identity_ok(es)
    &&& children_registered(es)
    &&& forall|i: int|
        0 <= i < es.len() && (#[trigger] es[i]).kind is Folder ==> es[i].children_ids().len() + 3
            < usize::MAX
}

pub proof fn lemma_index_of_id(es: Seq<FSEntry>, id: Seq<char>)
    requires
        ids(es).no_duplicates(),
        registered(es, id),
    ensures
        0 <= index_of_id(es, id) < es.len(),
        es[index_of_id(es, id)].id@ == id,
        forall|j: int| 0 <= j < es.len() && es[j].id@ == id ==> j == index_of_id(es, id),
{
    let k = choose|k: int| 0 <= k < ids(es).len() && ids(es)[k] == id;
    assert(es[k].id@ == id);
    let j = index_of_id(es, id);
    assert forall|m: int| 0 <= m < es.len() && es[m].id@ == id implies m == j by {
        assert(ids(es)[m] == ids(es)[j]);
    }
}

/// The position of the entry registered under `id`, if any.
pub fn find_index(es: &Vec<FSEntry>, id: &String) -> (r: Option<usize>)
    ensures
        r is None <==> !registered(es@, id@),
        r matches Some(j) ==> j < es@.len() && es@[j as int].id@ == id@,
{
    let mut i: usize = 0;
    while i < es.len()
        invariant
            i <= es@.len(),
            forall|j: int| 0 <= j < i ==> (#[trigger] es@[j]).id@ != id@,
        decreases es@.len() - i,
    {
        if es[i].id == *id {
            proof {
                assert(ids(es@)[i as int] == id@);
            }
            return Some(i);
        }
        i = i + 1;
    }
    proof {
        if registered(es@, id@) {
            let k = choose|k: int| 0 <= k < ids(es@).len() && ids(es@)[k] == id@;
            assert(es@[k].id@ == id@);
        }
    }
    None
}

} // verus!
