//! The ownership index: for each identity, the identifiers of the files it
//! owns, in the order in which they were uploaded.

use crate::assoc::AssocList;
use crate::identity::Identity;
use vstd::prelude::*;

verus! {

/// Which files each identity owns.
pub struct OwnershipIndex {
    lists: AssocList<Identity, Vec<u64>>,
}

impl View for OwnershipIndex {
    type V = Map<Seq<u8>, Seq<u64>>;

    closed spec fn view(&self) -> Map<Seq<u8>, Seq<u64>> {
        self.lists@
    }
}

/// The files that `owner` owns according to `owners`: none, if it has no
/// entry.
pub open spec fn owned_by(owners: Map<Seq<u8>, Seq<u64>>, owner: Seq<u8>) -> Seq<u64> {
    if owners.contains_key(owner) {
        owners[owner]
    } else {
        Seq::empty()
    }
}

/// `ids` without every occurrence of `id`, the rest in the same order.
pub open spec fn without(ids: Seq<u64>, id: u64) -> Seq<u64>
    decreases ids.len(),
{
    if ids.len() == 0 {
        Seq::empty()
    } else if ids.last() == id {
        without(ids.drop_last(), id)
    } else {
        without(ids.drop_last(), id).push(ids.last())
    }
}

/// `without(ids, id)` holds what `ids` holds, but for `id`; it holds nothing
/// twice that `ids` holds once, and it is `ids` where `ids` does not hold `id`.
pub proof fn lemma_without(ids: Seq<u64>, id: u64)
    ensures
        forall|x: u64|
            #![trigger without(ids, id).contains(x)]
            #![trigger ids.contains(x)]
            without(ids, id).contains(x) <==> ids.contains(x) && x != id,
        ids.no_duplicates() ==> without(ids, id).no_duplicates(),
        !ids.contains(id) ==> without(ids, id) == ids,
    decreases ids.len(),
{
    if ids.len() > 0 {
        let front = ids.drop_last();
        let last = ids.last();
        let kept = without(front, id);
        let all = without(ids, id);
        lemma_without(front, id);
        assert(ids =~= front.push(last));
        assert forall|x: u64| all.contains(x) implies ids.contains(x) && x != id by {
            let i = choose|i: int| 0 <= i < all.len() && all[i] == x;
            if last != id && i == kept.len() {
                assert(ids[ids.len() - 1] == x);
            } else {
                assert(kept[i] == x);
                assert(kept.contains(x));
                let j = choose|j: int| 0 <= j < front.len() && front[j] == x;
                assert(ids[j] == x);
            }
        }
        assert forall|x: u64| ids.contains(x) && x != id implies all.contains(x) by {
            let j = choose|j: int| 0 <= j < ids.len() && ids[j] == x;
            if j == ids.len() - 1 {
                assert(all[kept.len() as int] == x);
            } else {
                assert(front[j] == x);
                assert(front.contains(x));
                let i = choose|i: int| 0 <= i < kept.len() && kept[i] == x;
                assert(all[i] == x);
            }
        }
        if ids.no_duplicates() {
            assert(front.no_duplicates());
            if last != id {
                assert(!front.contains(last)) by {
                    if front.contains(last) {
                        let j = choose|j: int| 0 <= j < front.len() && front[j] == last;
                        assert(ids[j] == ids[ids.len() - 1]);
                    }
                }
                assert(!kept.contains(last));
                assert forall|i: int, j: int| 0 <= i < all.len() && 0 <= j < all.len() && i != j implies all[i]
                    != all[j] by {
                    if i == kept.len() {
                        assert(kept[j] == all[j]);
                        assert(kept.contains(kept[j]));
                    } else if j == kept.len() {
                        assert(kept[i] == all[i]);
                        assert(kept.contains(kept[i]));
                    }
                }
            }
        }
        if !ids.contains(id) {
            assert(ids[ids.len() - 1] == last);
            assert(!front.contains(id)) by {
                if front.contains(id) {
                    let j = choose|j: int| 0 <= j < front.len() && front[j] == id;
                    assert(ids[j] == id);
                }
            }
            assert(all =~= ids);
        }
    }
}

impl OwnershipIndex {
    /// An index in which nobody owns a file.
    pub fn new() -> (index: OwnershipIndex)
        ensures
            index@ == Map::<Seq<u8>, Seq<u64>>::empty(),
    {
        OwnershipIndex { lists: AssocList::new() }
    }

    /// The files that `owner` owns, if the index has an entry for it.
    pub fn get(&self, owner: &Identity) -> (found: Option<&Vec<u64>>)
        ensures
            found is Some <==> self@.contains_key(owner@),
            found matches Some(files) ==> files@ == self@[owner@],
    {
        self.lists.get(owner)
    }

    /// Records `files` as all that `owner` owns, and returns what was
    /// recorded for it before.
    pub fn insert(&mut self, owner: Identity, files: Vec<u64>) -> (previous: Option<Vec<u64>>)
        ensures
            final(self)@ == old(self)@.insert(owner@, files@),
            previous is Some <==> old(self)@.contains_key(owner@),
            previous matches Some(p) ==> p@ == old(self)@[owner@],
    {
        self.lists.insert(owner, files)
    }

    /// Adds `file_id` at the end of what `owner` owns.
    pub fn add_file(&mut self, owner: Identity, file_id: u64)
        ensures
            final(self)@ == old(self)@.insert(
                owner@,
                owned_by(old(self)@, owner@).push(file_id),
            ),
    {
        let mut files: Vec<u64> = match self.lists.remove(&owner) {
            Some(files) => files,
            None => Vec::new(),
        };
        files.push(file_id);
        self.lists.insert(owner, files);
        assert(self@ =~= old(self)@.insert(owner@, owned_by(old(self)@, owner@).push(file_id)));
    }

    /// Takes `file_id` out of what `owner` owns. An index without an entry
    /// for `owner` stays as it is.
    pub fn remove_file(&mut self, owner: &Identity, file_id: u64)
        ensures
            final(self)@ == pruned(old(self)@, owner@, file_id),
    {
        match self.lists.remove(owner) {
            Some(files) => {
                let kept = without_id(&files, file_id);
                self.lists.insert(*owner, kept);
            },
            None => {},
        }
        assert(self@ =~= pruned(old(self)@, owner@, file_id));
    }
}

/// `owners` once `file_id` is taken out of what `owner` owns.
pub open spec fn pruned(owners: Map<Seq<u8>, Seq<u64>>, owner: Seq<u8>, file_id: u64) -> Map<
    Seq<u8>,
    Seq<u64>,
> {
    if owners.contains_key(owner) {
        owners.insert(owner, without(owners[owner], file_id))
    } else {
        owners
    }
}

/// `ids` without every occurrence of `id`.
fn without_id(ids: &Vec<u64>, id: u64) -> (kept: Vec<u64>)
    ensures
        kept@ == without(ids@, id),
{
    let mut kept: Vec<u64> = Vec::new();
    let mut i: usize = 0;
    while i < ids.len()
        invariant
            i <= ids@.len(),
            kept@ == without(ids@.subrange(0, i as int), id),
        decreases ids@.len() - i,
    {
        assert(ids@.subrange(0, i + 1).drop_last() =~= ids@.subrange(0, i as int));
        if ids[i] != id {
            kept.push(ids[i]);
        }
        i += 1;
    }
    assert(ids@.subrange(0, i as int) =~= ids@);
    kept
}

} // verus!
