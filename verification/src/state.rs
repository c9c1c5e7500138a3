//! The registry's state: the file records, the ownership index, the chunk
//! store and the counter that names new files; and the users' profiles with
//! their usernames.
//!
//! The operations take any state. [`StateView::wf`] says which states are
//! consistent in their files; a new state is, and every operation keeps a
//! consistent state consistent.

use crate::assoc::AssocList;
use crate::chunk_store::{all_chunks_present, empty_chunks, no_chunk_of, ChunkStore};
use crate::file::{File, FileContentView, FileView};
use crate::identity::{anonymous_bytes, Identity};
use crate::owners::{owned_by, OwnershipIndex};
use crate::users::{UserDirectory, UserProfileView};
use std::collections::BTreeMap;
use vstd::prelude::*;

verus! {

/// All that the registry keeps.
pub struct State {
    /// How many files have been given an identifier so far. It is the
    /// identifier of the next one.
    pub file_count: u64,
    /// The record of each file, by its identifier.
    pub file_data: BTreeMap<u64, File>,
    /// The files that each identity owns.
    pub file_owners: OwnershipIndex,
    /// The chunks of all files.
    pub file_contents: ChunkStore,
    /// The profile of each user.
    pub user_profiles: UserDirectory,
    /// Who has each username.
    pub username_to_principal: AssocList<String, Identity>,
    /// How many users have a profile.
    pub user_count: u64,
}

/// A [`State`] as the contracts see it: maps, sequences and numbers.
pub struct StateView {
    pub file_count: u64,
    pub files: Map<u64, FileView>,
    pub owners: Map<Seq<u8>, Seq<u64>>,
    pub chunks: Map<(u64, u64), Seq<u8>>,
    pub users: Map<Seq<u8>, UserProfileView>,
    pub usernames: Map<Seq<char>, Seq<u8>>,
    pub user_count: u64,
}

/// The file records by their views.
pub open spec fn files_view(files: Map<u64, File>) -> Map<u64, FileView> {
    Map::new(|id: u64| files.contains_key(id), |id: u64| files[id]@)
}

impl View for State {
    type V = StateView;

    open spec fn view(&self) -> StateView {
        StateView {
            file_count: self.file_count,
            files: files_view(self.file_data@),
            owners: self.file_owners@,
            chunks: self.file_contents@,
            users: self.user_profiles@,
            usernames: self.username_to_principal@,
            user_count: self.user_count,
        }
    }
}

/// Every stored chunk of file `file_id` has an index below `num_chunks`.
pub open spec fn chunks_below(chunks: Map<(u64, u64), Seq<u8>>, file_id: u64, num_chunks: u64) -> bool {
    forall|c: u64| #[trigger] chunks.contains_key((file_id, c)) ==> c < num_chunks
}

/// The stored chunks of file `file_id` are what a file with this content
/// has: none while it is pending; of a file announced with `n >= 1` chunks,
/// only chunks below `n`, and all of them exactly when it is uploaded.
pub open spec fn content_matches_chunks(
    content: FileContentView,
    chunks: Map<(u64, u64), Seq<u8>>,
    file_id: u64,
) -> bool {
    match content {
        FileContentView::Pending { .. } => no_chunk_of(chunks, file_id),
        FileContentView::PartiallyUploaded { num_chunks, .. } => {
            &&& num_chunks >= 1
            &&& chunks_below(chunks, file_id, num_chunks)
            &&& !all_chunks_present(chunks, file_id, num_chunks)
        },
        FileContentView::Uploaded { num_chunks, .. } => {
            &&& num_chunks >= 1
            &&& chunks_below(chunks, file_id, num_chunks)
            &&& all_chunks_present(chunks, file_id, num_chunks)
        },
    }
}

impl StateView {
    /// Every file's identifier is below the counter.
    pub open spec fn ids_below_count(self) -> bool {
        forall|id: u64| #[trigger] self.files.contains_key(id) ==> id < self.file_count
    }

    /// Every stored chunk belongs to a file that has a record.
    pub open spec fn chunks_have_files(self) -> bool {
        forall|k: (u64, u64)| #[trigger]
            self.chunks.contains_key(k) ==> self.files.contains_key(k.0)
    }

    /// Every file's stored chunks are what its content state says.
    pub open spec fn contents_match_chunks(self) -> bool {
        forall|id: u64| #[trigger]
            self.files.contains_key(id) ==> content_matches_chunks(
                self.files[id].content,
                self.chunks,
                id,
            )
    }

    /// Nobody's list of files names a file twice.
    pub open spec fn owners_list_once(self) -> bool {
        forall|owner: Seq<u8>| #[trigger]
            self.owners.contains_key(owner) ==> self.owners[owner].no_duplicates()
    }

    /// Each file in somebody's list has a record, which names that identity
    /// as the file's owner.
    pub open spec fn owners_list_own_files(self) -> bool {
        forall|owner: Seq<u8>, id: u64|
            self.owners.contains_key(owner) && #[trigger] self.owners[owner].contains(id) ==> {
                &&& self.files.contains_key(id)
                &&& self.files[id].metadata.requester_principal == owner
            }
    }

    /// Each file whose owner has authenticated is in its owner's list.
    pub open spec fn owned_files_are_listed(self) -> bool {
        forall|id: u64| #[trigger]
            self.files.contains_key(id) && self.files[id].metadata.requester_principal
                != anonymous_bytes() ==> owned_by(
                self.owners,
                self.files[id].metadata.requester_principal,
            ).contains(id)
    }

    /// The state is consistent: the chunk store holds finitely many chunks,
    /// identifiers below the counter are the only ones in use, the chunk
    /// store holds for each file what its content state says and nothing
    /// else, and the ownership index lists, once each, exactly the files
    /// whose owner has authenticated.
    pub open spec fn wf(self) -> bool {
        &&& self.chunks.dom().finite()
        &&& self.ids_below_count()
        &&& self.chunks_have_files()
        &&& self.contents_match_chunks()
        &&& self.owners_list_once()
        &&& self.owners_list_own_files()
        &&& self.owned_files_are_listed()
    }
}

/// The state in which nothing has been registered.
pub open spec fn initial_state() -> StateView {
    StateView {
        file_count: 0,
        files: Map::empty(),
        owners: Map::empty(),
        chunks: empty_chunks(),
        users: Map::empty(),
        usernames: Map::empty(),
        user_count: 0,
    }
}

impl State {
    /// A state without files. The seed is not used.
    pub fn new(_rand_seed: &[u8]) -> (state: State)
        ensures
            state@ == initial_state(),
            state@.wf(),
    {
        let state = State {
            file_count: 0,
            file_data: BTreeMap::new(),
            file_owners: OwnershipIndex::new(),
            file_contents: ChunkStore::new(),
            user_profiles: UserDirectory::new(),
            username_to_principal: AssocList::new(),
            user_count: 0,
        };
        assert(state@.files =~= Map::empty());
        state
    }

    /// Hands out the next file identifier.
    pub(crate) fn generate_file_id(&mut self) -> (file_id: u64)
        requires
            old(self).file_count < u64::MAX,
        ensures
            file_id == old(self).file_count,
            final(self).file_count == old(self).file_count + 1,
            final(self).file_data == old(self).file_data,
            final(self).file_owners == old(self).file_owners,
            final(self).file_contents == old(self).file_contents,
            final(self).user_profiles == old(self).user_profiles,
            final(self).username_to_principal == old(self).username_to_principal,
            final(self).user_count == old(self).user_count,
    {
        let file_id = self.file_count;
        self.file_count += 1;
        file_id
    }
}

impl Default for State {
    fn default() -> (state: State)
        ensures
            state@ == initial_state(),
            state@.wf(),
    {
        let seed: [u8; 32] = [0u8; 32];
        State::new(seed.as_slice())
    }
}

} // verus!
