//! What holds of the registry as a whole: of every state that the
//! operations can reach, and of what one operation answers after another.

use crate::api::delete_file::{delete_check, delete_step, lemma_delete_keeps_wf, DeleteFileResult};
use crate::api::download_file::download_result;
use crate::api::register_file::{lemma_register_keeps_wf, register_state, RegisterFileRequestView};
use crate::api::upload_file_atomic::{
    atomic_upload_result, atomic_upload_step, lemma_atomic_upload_keeps_wf,
    UploadFileAtomicRequestView,
};
use crate::api::upload_file_continue::{continue_check, continue_step, lemma_continue_keeps_wf};
use crate::api::user_management::{
    create_user_step, delete_user_step, lemma_create_user_keeps_consistent,
    lemma_delete_user_keeps_consistent, lemma_update_user_keeps_consistent, update_user_step,
    users_consistent,
};
use crate::chunk_store::{
    all_chunks_present, key_le, keys_between, lemma_count_reaches_total, no_chunk_of, stored_count,
};
use crate::file::{FileContentView, FileDownloadResponseView, UploadFileError};
use crate::identity::anonymous_bytes;
use crate::owners::owned_by;
use crate::state::{content_matches_chunks, initial_state, StateView};
use crate::users::CreateUserRequestView;
use vstd::prelude::*;

verus! {

/// A request that can change the state.
pub enum Operation {
    Register { registration: RegisterFileRequestView },
    UploadAtomic { caller: Seq<u8>, upload: UploadFileAtomicRequestView, now: u64 },
    UploadContinue { caller: Seq<u8>, file_id: u64, chunk_id: u64, bytes: Seq<u8> },
    Delete { caller: Seq<u8>, file_id: u64 },
    CreateUser {
        caller: Seq<u8>,
        profile: CreateUserRequestView,
        blank: bool,
        username: Seq<char>,
        now: u64,
    },
    UpdateUser {
        caller: Seq<u8>,
        new_username: Option<Seq<char>>,
        display_name: Option<Seq<char>>,
        email: Option<Seq<char>>,
    },
    DeleteUser { caller: Seq<u8> },
}

impl Operation {
    /// The state after the operation, as the contract of the function that
    /// carries it out gives it.
    pub open spec fn apply(self, s: StateView) -> StateView {
        match self {
            Operation::Register { registration } => register_state(s, registration),
            Operation::UploadAtomic { caller, upload, now } => atomic_upload_step(
                s,
                caller,
                upload,
                now,
            ),
            Operation::UploadContinue { caller, file_id, chunk_id, bytes } => continue_step(
                s,
                caller,
                file_id,
                chunk_id,
                bytes,
            ),
            Operation::Delete { caller, file_id } => delete_step(s, caller, file_id),
            Operation::CreateUser { caller, profile, blank, username, now } => create_user_step(
                s,
                caller,
                profile,
                blank,
                username,
                now,
            ),
            Operation::UpdateUser {
                caller,
                new_username,
                display_name,
                email,
            } => update_user_step(s, caller, new_username, display_name, email),
            Operation::DeleteUser { caller } => delete_user_step(s, caller),
        }
    }

    /// Whether the operation hands out a file identifier: a registration
    /// does, and so does an upload of a new file that is not refused.
    pub open spec fn issues_identifier(self) -> bool {
        match self {
            Operation::Register { .. } => true,
            Operation::UploadAtomic { caller, upload, .. } => caller != anonymous_bytes()
                && upload.num_chunks >= 1,
            _ => false,
        }
    }
}

/// The state after the operations `ops`, one after the other, on a new state.
pub open spec fn run(ops: Seq<Operation>) -> StateView
    decreases ops.len(),
{
    if ops.len() == 0 {
        initial_state()
    } else {
        ops.last().apply(run(ops.drop_last()))
    }
}

/// The file identifiers that the operations `ops` hand out, in that order.
pub open spec fn issued(ops: Seq<Operation>) -> Seq<u64>
    decreases ops.len(),
{
    if ops.len() == 0 {
        Seq::empty()
    } else if ops.last().issues_identifier() {
        issued(ops.drop_last()).push(run(ops.drop_last()).file_count)
    } else {
        issued(ops.drop_last())
    }
}

/// File identifiers are handed out in order and never twice: the first is
/// 0, the next 1, and so on, whatever was deleted in between. The counter is
/// the number of identifiers handed out.
pub proof fn lemma_identifiers_are_consecutive(ops: Seq<Operation>)
    requires
        ops.len() <= u64::MAX,
    ensures
        run(ops).file_count == issued(ops).len(),
        issued(ops).len() <= ops.len(),
        run(ops).user_count <= ops.len(),
        forall|i: int| 0 <= i < issued(ops).len() ==> #[trigger] issued(ops)[i] == i,
    decreases ops.len(),
{
    if ops.len() > 0 {
        lemma_identifiers_are_consecutive(ops.drop_last());
    }
}

/// Every state that the operations reach from a new state is consistent, in
/// its files and in its users.
pub proof fn lemma_every_state_is_consistent(ops: Seq<Operation>)
    requires
        ops.len() <= u64::MAX,
    ensures
        run(ops).wf(),
        users_consistent(run(ops)),
    decreases ops.len(),
{
    if ops.len() > 0 {
        let before = run(ops.drop_last());
        lemma_every_state_is_consistent(ops.drop_last());
        lemma_identifiers_are_consecutive(ops.drop_last());
        match ops.last() {
            Operation::Register { registration } => {
                lemma_register_keeps_wf(before, registration);
            },
            Operation::UploadAtomic { caller, upload, now } => {
                if atomic_upload_result(before, caller, upload) is Ok {
                    lemma_atomic_upload_keeps_wf(before, caller, upload, now);
                }
            },
            Operation::UploadContinue { caller, file_id, chunk_id, bytes } => {
                if continue_check(before, caller, file_id, chunk_id) is Ok {
                    lemma_continue_keeps_wf(before, caller, file_id, chunk_id, bytes);
                }
            },
            Operation::Delete { caller, file_id } => {
                if delete_check(before, caller, file_id) is Success {
                    lemma_delete_keeps_wf(before, caller, file_id);
                }
            },
            Operation::CreateUser { caller, profile, blank, username, now } => {
                lemma_create_user_keeps_consistent(before, caller, profile, blank, username, now);
            },
            Operation::UpdateUser { caller, new_username, display_name, email } => {
                lemma_update_user_keeps_consistent(
                    before,
                    caller,
                    new_username,
                    display_name,
                    email,
                );
            },
            Operation::DeleteUser { caller } => {
                lemma_delete_user_keeps_consistent(before, caller);
            },
        }
    }
}

/// The indices of the chunks that are stored for file `file_id`.
pub open spec fn chunk_indices(chunks: Map<(u64, u64), Seq<u8>>, file_id: u64) -> Set<u64> {
    Set::new(|c: u64| chunks.contains_key((file_id, c)))
}

/// The indices below `num_chunks`.
pub open spec fn indices_below(num_chunks: nat) -> Set<u64> {
    Set::new(|c: u64| c < num_chunks)
}

/// There are `num_chunks` indices below `num_chunks`.
pub proof fn lemma_indices_below_len(num_chunks: nat)
    requires
        num_chunks <= u64::MAX + 1,
    ensures
        indices_below(num_chunks).finite(),
        indices_below(num_chunks).len() == num_chunks,
    decreases num_chunks,
{
    if num_chunks == 0 {
        assert(indices_below(num_chunks) =~= Set::empty());
    } else {
        let last = (num_chunks - 1) as nat;
        lemma_indices_below_len(last);
        assert(indices_below(last).insert(last as u64) =~= indices_below(num_chunks));
    }
}

/// In a consistent state, a file is uploaded exactly when the chunks stored
/// for it are those with the indices below the number of chunks it was
/// announced with, which is then how many are stored. For a file that is
/// not uploaded, every stored chunk has an index below that number, and at
/// least one index below it has no chunk; for a pending file none is stored.
pub proof fn lemma_uploaded_iff_all_chunks_stored(s: StateView, file_id: u64)
    requires
        s.wf(),
        s.files.contains_key(file_id),
    ensures
        s.files[file_id].content is Uploaded <==> {
            &&& s.files[file_id].content.num_chunks() >= 1
            &&& chunk_indices(s.chunks, file_id) == indices_below(
                s.files[file_id].content.num_chunks() as nat,
            )
        },
        s.files[file_id].content is Uploaded ==> {
            &&& chunk_indices(s.chunks, file_id).finite()
            &&& chunk_indices(s.chunks, file_id).len() == s.files[file_id].content.num_chunks()
        },
        chunk_indices(s.chunks, file_id).subset_of(
            indices_below(s.files[file_id].content.num_chunks() as nat),
        ),
{
    let content = s.files[file_id].content;
    let n = content.num_chunks();
    let stored = chunk_indices(s.chunks, file_id);
    let below = indices_below(n as nat);
    assert(content_matches_chunks(content, s.chunks, file_id));
    lemma_indices_below_len(n as nat);
    if content is Uploaded {
        assert forall|c: u64| stored.contains(c) <==> below.contains(c) by {
            if c < n {
                assert(s.chunks.contains_key((file_id, c)));
            }
        }
        assert(stored =~= below);
    }
    if content is PartiallyUploaded {
        let missing = choose|c: u64| c < n && !s.chunks.contains_key((file_id, c));
        assert(below.contains(missing) && !stored.contains(missing));
    }
    assert forall|c: u64| stored.contains(c) implies below.contains(c) by {
        assert(s.chunks.contains_key((file_id, c)));
    }
}

/// In a consistent state, the chunks of a file that are stored are those
/// that are counted: the ones with an index below the number of chunks that
/// the file was announced with. The file is uploaded exactly when the count
/// has reached that number.
pub proof fn lemma_count_decides_uploaded(s: StateView, file_id: u64)
    requires
        s.wf(),
        s.files.contains_key(file_id),
        !(s.files[file_id].content is Pending),
    ensures
        chunk_indices(s.chunks, file_id).finite(),
        chunk_indices(s.chunks, file_id).len() == stored_count(
            s.chunks,
            file_id,
            s.files[file_id].content.num_chunks(),
        ),
        s.files[file_id].content is Uploaded <==> stored_count(
            s.chunks,
            file_id,
            s.files[file_id].content.num_chunks(),
        ) == s.files[file_id].content.num_chunks(),
{
    let n = s.files[file_id].content.num_chunks();
    let keys = keys_between(s.chunks, (file_id, 0), (file_id, (n - 1) as u64));
    let index_of = |k: (u64, u64)| k.1;
    assert(content_matches_chunks(s.files[file_id].content, s.chunks, file_id));
    lemma_count_reaches_total(s.chunks, file_id, n);
    s.chunks.dom().lemma_len_filter(
        |k: (u64, u64)| key_le((file_id, 0), k) && key_le(k, (file_id, (n - 1) as u64)),
    );
    assert(keys.map(index_of) =~= chunk_indices(s.chunks, file_id)) by {
        assert forall|c: u64| chunk_indices(s.chunks, file_id).contains(c) implies keys.map(
            index_of,
        ).contains(c) by {
            assert(keys.contains((file_id, c)));
            assert(index_of((file_id, c)) == c);
        }
    }
    assert(vstd::relations::injective_on(index_of, keys));
    vstd::set_lib::lemma_map_size(keys, chunk_indices(s.chunks, file_id), index_of);
}

/// What an operation does to a file that has a record in a consistent
/// state. Its metadata stay as they are. Its content stays as it is, unless
/// the operation is its owner's upload of a chunk, which can turn a
/// partially uploaded file into an uploaded one with the same number of
/// chunks and the same type; so an uploaded file stays uploaded. The record
/// goes only when the file's owner deletes the file.
pub proof fn lemma_file_changes_only_by_completion(s: StateView, op: Operation, file_id: u64)
    requires
        s.wf(),
        s.file_count < u64::MAX,
        s.files.contains_key(file_id),
    ensures
        ({
            let before = s.files[file_id];
            let after = op.apply(s).files[file_id];
            if op.apply(s).files.contains_key(file_id) {
                &&& after.metadata == before.metadata
                &&& after.content != before.content ==> {
                    &&& op matches Operation::UploadContinue { caller, file_id: continued, .. }
                    &&& continued == file_id
                    &&& caller == before.metadata.requester_principal
                    &&& before.content matches FileContentView::PartiallyUploaded {
                        num_chunks,
                        file_type,
                    }
                    &&& after.content == (FileContentView::Uploaded { num_chunks, file_type })
                }
            } else {
                &&& op matches Operation::Delete { caller, file_id: deleted }
                &&& deleted == file_id
                &&& caller == before.metadata.requester_principal
                &&& caller != anonymous_bytes()
            }
        }),
{
}

/// In a consistent state, an identity that has authenticated owns a file
/// exactly when the file is in its list.
pub proof fn lemma_owner_has_the_file_listed(s: StateView, caller: Seq<u8>, file_id: u64)
    requires
        s.wf(),
        caller != anonymous_bytes(),
        s.files.contains_key(file_id),
    ensures
        owned_by(s.owners, caller).contains(file_id) <==> s.files[file_id].metadata.requester_principal
            == caller,
{
    if owned_by(s.owners, caller).contains(file_id) {
        assert(s.owners.contains_key(caller) && s.owners[caller].contains(file_id));
    }
}

/// A stored chunk keeps its bytes. In a consistent state, an operation leaves
/// a stored chunk as it is, unless the operation is the deletion of the
/// chunk's file by the file's owner, which takes the chunk away.
pub proof fn lemma_stored_chunk_stays(s: StateView, op: Operation, key: (u64, u64))
    requires
        s.wf(),
        s.chunks.contains_key(key),
    ensures
        ({
            let after = op.apply(s).chunks;
            if after.contains_key(key) {
                after[key] == s.chunks[key]
            } else {
                &&& op matches Operation::Delete { caller, file_id }
                &&& file_id == key.0
                &&& delete_check(s, caller, file_id) is Success
            }
        }),
{
    assert(s.files.contains_key(key.0));
}

/// A chunk is written once. A request to store a chunk that is stored
/// already is refused, whoever makes it and whatever bytes it brings: the
/// state stays as it is, and so the chunk keeps its bytes and the file its
/// record. Where the request comes from the owner of a partially uploaded
/// file and names one of the file's chunks, the answer is
/// `ChunkAlreadyUploaded`.
pub proof fn lemma_stored_chunk_is_not_written_again(
    s: StateView,
    caller: Seq<u8>,
    file_id: u64,
    chunk_id: u64,
    bytes: Seq<u8>,
)
    requires
        s.chunks.contains_key((file_id, chunk_id)),
    ensures
        continue_check(s, caller, file_id, chunk_id) is Err,
        continue_step(s, caller, file_id, chunk_id, bytes) == s,
        caller != anonymous_bytes() && s.files.contains_key(file_id)
            && s.files[file_id].metadata.requester_principal == caller
            && s.files[file_id].content is PartiallyUploaded && chunk_id
            < s.files[file_id].content.num_chunks() ==> continue_check(s, caller, file_id, chunk_id)
            == Err::<(), UploadFileError>(UploadFileError::ChunkAlreadyUploaded),
{
}

/// After a chunk was stored, a request to store a chunk with the same index
/// of the same file is refused, whoever makes it and whatever bytes it
/// brings; the state stays as it is, and the chunk keeps the bytes it was
/// stored with.
pub proof fn lemma_second_write_is_refused(
    s: StateView,
    caller: Seq<u8>,
    file_id: u64,
    chunk_id: u64,
    bytes: Seq<u8>,
    again_caller: Seq<u8>,
    again_bytes: Seq<u8>,
)
    requires
        continue_check(s, caller, file_id, chunk_id) is Ok,
    ensures
        ({
            let stored = continue_step(s, caller, file_id, chunk_id, bytes);
            &&& continue_check(stored, again_caller, file_id, chunk_id) is Err
            &&& continue_step(stored, again_caller, file_id, chunk_id, again_bytes) == stored
            &&& stored.chunks[(file_id, chunk_id)] == bytes
        }),
{
}

/// What storing a chunk does to the file. A request of the owner of a
/// partially uploaded file to store one of the file's chunks that is not
/// stored yet is granted. After it the file is uploaded exactly when all its
/// chunks are stored, and partially uploaded when not, with the number of
/// chunks and the type that it had; the chunk has the bytes of the request;
/// every other chunk and every other file is as it was.
pub proof fn lemma_chunk_completes_the_file_or_not(
    s: StateView,
    caller: Seq<u8>,
    file_id: u64,
    chunk_id: u64,
    bytes: Seq<u8>,
)
    requires
        caller != anonymous_bytes(),
        s.files.contains_key(file_id),
        s.files[file_id].metadata.requester_principal == caller,
        s.files[file_id].content is PartiallyUploaded,
        chunk_id < s.files[file_id].content.num_chunks(),
        !s.chunks.contains_key((file_id, chunk_id)),
    ensures
        ({
            let t = continue_step(s, caller, file_id, chunk_id, bytes);
            let num_chunks = s.files[file_id].content->PartiallyUploaded_num_chunks;
            let file_type = s.files[file_id].content->PartiallyUploaded_file_type;
            &&& continue_check(s, caller, file_id, chunk_id) is Ok
            &&& t.chunks == s.chunks.insert((file_id, chunk_id), bytes)
            &&& t.files.dom() == s.files.dom()
            &&& forall|other: u64|
                other != file_id && #[trigger] s.files.contains_key(other) ==> t.files[other]
                    == s.files[other]
            &&& t.files[file_id].metadata == s.files[file_id].metadata
            &&& t.files[file_id].content == (if all_chunks_present(t.chunks, file_id, num_chunks) {
                FileContentView::Uploaded { num_chunks, file_type }
            } else {
                FileContentView::PartiallyUploaded { num_chunks, file_type }
            })
            &&& t.owners == s.owners
            &&& t.file_count == s.file_count
        }),
{
    let t = continue_step(s, caller, file_id, chunk_id, bytes);
    assert(t.files.dom() =~= s.files.dom());
}

/// The identifier that the next file gets is not in use: in a consistent
/// state no file has it and no chunk is stored under it, and it is greater
/// than the identifier of every file that has a record. A registration and
/// an upload of a new file that is granted answer with it and set the
/// counter to one more; a refused upload leaves the counter as it is.
pub proof fn lemma_new_identifier_is_unused(
    s: StateView,
    caller: Seq<u8>,
    registration: RegisterFileRequestView,
    upload: UploadFileAtomicRequestView,
    now: u64,
)
    requires
        s.wf(),
        s.file_count < u64::MAX,
    ensures
        !s.files.contains_key(s.file_count),
        no_chunk_of(s.chunks, s.file_count),
        forall|file_id: u64| #[trigger] s.files.contains_key(file_id) ==> file_id < s.file_count,
        forall|key: (u64, u64)| #[trigger] s.chunks.contains_key(key) ==> key.0 < s.file_count,
        register_state(s, registration).file_count == s.file_count + 1,
        atomic_upload_result(s, caller, upload) is Ok ==> atomic_upload_result(s, caller, upload)
            == Ok::<u64, UploadFileError>(s.file_count) && atomic_upload_step(
            s,
            caller,
            upload,
            now,
        ).file_count == s.file_count + 1,
        atomic_upload_result(s, caller, upload) is Err ==> atomic_upload_step(s, caller, upload, now)
            == s,
{
    assert forall|key: (u64, u64)| #[trigger] s.chunks.contains_key(key) implies key.0
        < s.file_count by {
        assert(s.files.contains_key(key.0));
    }
    assert forall|c: u64| !#[trigger] s.chunks.contains_key((s.file_count, c)) by {
        if s.chunks.contains_key((s.file_count, c)) {
            assert(s.files.contains_key((s.file_count, c).0));
        }
    }
}

/// Who is refused. A caller who has not authenticated gets a permission
/// error from a download and from a deletion, and `NotAuthenticated` from an
/// upload of a chunk, of whatever file, and from an upload of a new file. So
/// does, of a file that has a record, every caller who is not its owner.
/// Nothing changes.
pub proof fn lemma_strangers_are_refused(
    s: StateView,
    caller: Seq<u8>,
    file_id: u64,
    chunk_id: u64,
    bytes: Seq<u8>,
    upload: UploadFileAtomicRequestView,
    now: u64,
)
    requires
        caller == anonymous_bytes() || (s.files.contains_key(file_id)
            && s.files[file_id].metadata.requester_principal != caller),
    ensures
        download_result(s, caller, file_id, chunk_id) == FileDownloadResponseView::PermissionError,
        continue_check(s, caller, file_id, chunk_id) == Err::<(), UploadFileError>(
            UploadFileError::NotAuthenticated,
        ),
        continue_step(s, caller, file_id, chunk_id, bytes) == s,
        delete_check(s, caller, file_id) == DeleteFileResult::PermissionError,
        delete_step(s, caller, file_id) == s,
        atomic_upload_result(s, anonymous_bytes(), upload) == Err::<u64, UploadFileError>(
            UploadFileError::NotAuthenticated,
        ),
        atomic_upload_step(s, anonymous_bytes(), upload, now) == s,
{
}

/// A file has at least one chunk. An upload of a new file that is announced
/// with no chunk is refused, and nothing is written; so in a consistent
/// state every file that is not pending has at least one chunk.
pub proof fn lemma_no_file_without_chunks(
    s: StateView,
    caller: Seq<u8>,
    upload: UploadFileAtomicRequestView,
    now: u64,
    file_id: u64,
)
    ensures
        upload.num_chunks == 0 ==> atomic_upload_result(s, caller, upload) is Err
            && atomic_upload_step(s, caller, upload, now) == s,
        s.wf() && s.files.contains_key(file_id) && !(s.files[file_id].content is Pending)
            ==> s.files[file_id].content.num_chunks() >= 1,
{
    if s.wf() && s.files.contains_key(file_id) {
        assert(content_matches_chunks(s.files[file_id].content, s.chunks, file_id));
    }
}

} // verus!
