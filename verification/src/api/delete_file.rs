//! Deleting a file: its record, all its chunks and its place in its owner's
//! list go together.

use crate::chunk_store::{file_keys, no_chunk_of};
use crate::identity::{anonymous_bytes, Identity};
use crate::owners::{lemma_without, owned_by, pruned, without};
use crate::state::{content_matches_chunks, State, StateView};
use vstd::prelude::*;

verus! {

/// The answer to a request to delete a file.
#[derive(Clone, Copy, Debug, PartialEq, Eq)]
pub enum DeleteFileResult {
    /// The file is deleted.
    Success,
    /// No file has the identifier.
    NotFound,
    /// The caller has not authenticated, or does not own the file.
    PermissionError,
}

/// Whether `caller` may delete file `file_id`, and if not, why not. A caller
/// who has not authenticated is refused; then a file without a record is not
/// found; then a caller who is not the file's owner is refused.
pub open spec fn delete_check(s: StateView, caller: Seq<u8>, file_id: u64) -> DeleteFileResult {
    if caller == anonymous_bytes() {
        DeleteFileResult::PermissionError
    } else if !s.files.contains_key(file_id) {
        DeleteFileResult::NotFound
    } else if s.files[file_id].metadata.requester_principal != caller {
        DeleteFileResult::PermissionError
    } else {
        DeleteFileResult::Success
    }
}

/// The state after `caller` deleted file `file_id`: the record is gone, and
/// so are the chunks below the number that the file was announced with, and
/// the file is out of `caller`'s list.
pub open spec fn delete_state(s: StateView, caller: Seq<u8>, file_id: u64) -> StateView {
    StateView {
        files: s.files.remove(file_id),
        chunks: s.chunks.remove_keys(
            file_keys(file_id, s.files[file_id].content.num_chunks() as nat),
        ),
        owners: pruned(s.owners, caller, file_id),
        ..s
    }
}

/// The state after `caller` asked to delete file `file_id`: the file is
/// deleted if that may be, and nothing changes if not.
pub open spec fn delete_step(s: StateView, caller: Seq<u8>, file_id: u64) -> StateView {
    if delete_check(s, caller, file_id) is Success {
        delete_state(s, caller, file_id)
    } else {
        s
    }
}

/// After its owner deleted a file in a consistent state, the file has no
/// record, no chunk of it is stored, and it is in nobody's list.
pub proof fn lemma_deleted_file_is_gone(s: StateView, caller: Seq<u8>, file_id: u64)
    requires
        s.wf(),
        delete_check(s, caller, file_id) is Success,
    ensures
        !delete_state(s, caller, file_id).files.contains_key(file_id),
        no_chunk_of(delete_state(s, caller, file_id).chunks, file_id),
        forall|owner: Seq<u8>|
            !(#[trigger] owned_by(delete_state(s, caller, file_id).owners, owner)).contains(file_id),
{
    let t = delete_state(s, caller, file_id);
    let num_chunks = s.files[file_id].content.num_chunks();
    assert(content_matches_chunks(s.files[file_id].content, s.chunks, file_id));
    assert forall|c: u64| !#[trigger] t.chunks.contains_key((file_id, c)) by {
        if s.chunks.contains_key((file_id, c)) {
            assert(c < num_chunks);
            assert(file_keys(file_id, num_chunks as nat).contains((file_id, c)));
        }
    }
    assert forall|owner: Seq<u8>| !(#[trigger] owned_by(t.owners, owner)).contains(file_id) by {
        if owner == caller {
            if s.owners.contains_key(caller) {
                lemma_without(s.owners[caller], file_id);
            }
        } else if s.owners.contains_key(owner) && s.owners[owner].contains(file_id) {
            assert(s.files[file_id].metadata.requester_principal == owner);
        }
    }
}

/// Deleting a file keeps a consistent state consistent.
pub proof fn lemma_delete_keeps_wf(s: StateView, caller: Seq<u8>, file_id: u64)
    requires
        s.wf(),
        delete_check(s, caller, file_id) is Success,
    ensures
        delete_state(s, caller, file_id).wf(),
{
    let t = delete_state(s, caller, file_id);
    let num_chunks = s.files[file_id].content.num_chunks();
    lemma_deleted_file_is_gone(s, caller, file_id);
    if s.owners.contains_key(caller) {
        lemma_without(s.owners[caller], file_id);
    }
    assert(t.chunks.dom() =~= s.chunks.dom().difference(file_keys(file_id, num_chunks as nat)));
    assert(t.ids_below_count());
    assert(t.chunks_have_files()) by {
        assert forall|k: (u64, u64)| #[trigger] t.chunks.contains_key(k) implies t.files.contains_key(
            k.0,
        ) by {
            assert(s.chunks.contains_key(k));
            if k.0 == file_id {
                assert(t.chunks.contains_key((file_id, k.1)));
            }
        }
    }
    assert(t.contents_match_chunks()) by {
        assert forall|id: u64| #[trigger] t.files.contains_key(id) implies content_matches_chunks(
            t.files[id].content,
            t.chunks,
            id,
        ) by {
            assert(content_matches_chunks(s.files[id].content, s.chunks, id));
            assert(forall|c: u64| t.chunks.contains_key((id, c)) == s.chunks.contains_key((id, c)));
        }
    }
    assert(t.owners_list_once());
    assert(t.owners_list_own_files()) by {
        assert forall|owner: Seq<u8>, id: u64|
            t.owners.contains_key(owner) && #[trigger] t.owners[owner].contains(id) implies {
            &&& t.files.contains_key(id)
            &&& t.files[id].metadata.requester_principal == owner
        } by {
            assert(owned_by(t.owners, owner).contains(id));
            assert(s.owners.contains_key(owner) && s.owners[owner].contains(id));
        }
    }
    assert(t.owned_files_are_listed()) by {
        assert forall|id: u64| #[trigger]
            t.files.contains_key(id) && t.files[id].metadata.requester_principal
                != anonymous_bytes() implies owned_by(
            t.owners,
            t.files[id].metadata.requester_principal,
        ).contains(id) by {
            let owner = t.files[id].metadata.requester_principal;
            assert(s.files.contains_key(id));
            assert(owned_by(s.owners, owner).contains(id));
        }
    }
}

/// Deletes file `file_id` for its owner: the record, the chunks and the
/// entry in the owner's list. A request that is refused changes nothing.
pub fn delete_file(state: &mut State, caller: Identity, file_id: u64) -> (result: DeleteFileResult)
    ensures
        result == delete_check(old(state)@, caller@, file_id),
        final(state)@ == delete_step(old(state)@, caller@, file_id),
        old(state)@.wf() ==> final(state)@.wf(),
        old(state)@.wf() && result is Success ==> {
            &&& !final(state)@.files.contains_key(file_id)
            &&& no_chunk_of(final(state)@.chunks, file_id)
            &&& !owned_by(final(state)@.owners, caller@).contains(file_id)
        },
{
    if caller.is_anonymous() {
        return DeleteFileResult::PermissionError;
    }
    let num_chunks = match state.file_data.get(&file_id) {
        None => {
            return DeleteFileResult::NotFound;
        },
        Some(file) => {
            if !file.metadata.requester_principal.same_as(&caller) {
                return DeleteFileResult::PermissionError;
            }
            file.content.num_chunks()
        },
    };
    let ghost before = state@;
    state.file_data.remove(&file_id);
    assert(state@.files =~= before.files.remove(file_id));
    let mut chunk_id: u64 = 0;
    while chunk_id < num_chunks
        invariant
            chunk_id <= num_chunks,
            state@.file_count == before.file_count,
            state@.files == before.files.remove(file_id),
            state@.owners == before.owners,
            state@.users == before.users,
            state@.usernames == before.usernames,
            state@.user_count == before.user_count,
            state@.chunks == before.chunks.remove_keys(file_keys(file_id, chunk_id as nat)),
        decreases num_chunks - chunk_id,
    {
        state.file_contents.remove(&(file_id, chunk_id));
        assert(state@.chunks =~= before.chunks.remove_keys(
            file_keys(file_id, (chunk_id + 1) as nat),
        ));
        chunk_id += 1;
    }
    state.file_owners.remove_file(&caller, file_id);
    proof {
        if before.wf() {
            lemma_delete_keeps_wf(before, caller@, file_id);
            lemma_deleted_file_is_gone(before, caller@, file_id);
        }
    }
    DeleteFileResult::Success
}

} // verus!
