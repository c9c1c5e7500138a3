//! Uploading a new file: its record, its first chunk and its owner in one
//! step.

use crate::chunk_store::{all_chunks_present, no_chunk_of, MAX_CHUNK_BYTES};
use crate::file::{
    File, FileContent, FileContentView, FileMetadata, FileMetadataView, FileView, UploadFileError,
};
use crate::identity::{anonymous_bytes, Identity};
use crate::owners::owned_by;
use crate::state::{content_matches_chunks, State, StateView};
use vstd::prelude::*;

verus! {

/// A request to upload a new file. `content` is the file's first chunk, and
/// all of it where `num_chunks` is 1. A file has at least one chunk.
#[derive(Clone, Debug, PartialEq, Eq)]
pub struct UploadFileAtomicRequest {
    pub name: String,
    pub content: Vec<u8>,
    pub file_type: String,
    pub num_chunks: u64,
}

/// A [`UploadFileAtomicRequest`] as the contracts see it.
pub struct UploadFileAtomicRequestView {
    pub name: Seq<char>,
    pub content: Seq<u8>,
    pub file_type: Seq<char>,
    pub num_chunks: u64,
}

impl View for UploadFileAtomicRequest {
    type V = UploadFileAtomicRequestView;

    open spec fn view(&self) -> UploadFileAtomicRequestView {
        UploadFileAtomicRequestView {
            name: self.name@,
            content: self.content@,
            file_type: self.file_type@,
            num_chunks: self.num_chunks,
        }
    }
}

/// The name of the storage provider of the files that are uploaded here.
pub open spec fn local_provider() -> Seq<char> {
    "icp"@
}

/// The record of a file that `caller` uploads at time `now`: uploaded if it
/// has one chunk, partially uploaded if it has more.
pub open spec fn uploaded_file(caller: Seq<u8>, request: UploadFileAtomicRequestView, now: u64) -> FileView {
    FileView {
        metadata: FileMetadataView {
            file_name: request.name,
            requester_principal: caller,
            requested_at: now,
            uploaded_at: Some(now),
            storage_provider: local_provider(),
            blob_id: None,
        },
        content: if request.num_chunks == 1 {
            FileContentView::Uploaded {
                num_chunks: request.num_chunks,
                file_type: request.file_type,
            }
        } else {
            FileContentView::PartiallyUploaded {
                num_chunks: request.num_chunks,
                file_type: request.file_type,
            }
        },
    }
}

/// The state after `caller` uploaded a new file at time `now`. The file gets
/// the counter's value as its identifier; its first chunk is stored; it is
/// added to what `caller` owns.
pub open spec fn atomic_upload_state(
    s: StateView,
    caller: Seq<u8>,
    request: UploadFileAtomicRequestView,
    now: u64,
) -> StateView {
    let file_id = s.file_count;
    StateView {
        file_count: (s.file_count + 1) as u64,
        files: s.files.insert(file_id, uploaded_file(caller, request, now)),
        owners: s.owners.insert(caller, owned_by(s.owners, caller).push(file_id)),
        chunks: s.chunks.insert((file_id, 0), request.content),
        ..s
    }
}

/// The answer to `caller` uploading a new file: the file's identifier, which
/// is the counter's value. A caller who has not authenticated is refused;
/// then a file that is announced with no chunk is, since the chunk that
/// comes with it, chunk 0, is not one of the file's.
pub open spec fn atomic_upload_result(
    s: StateView,
    caller: Seq<u8>,
    request: UploadFileAtomicRequestView,
) -> Result<u64, UploadFileError> {
    if caller == anonymous_bytes() {
        Err(UploadFileError::NotAuthenticated)
    } else if request.num_chunks == 0 {
        Err(UploadFileError::InvalidChunkIndex)
    } else {
        Ok(s.file_count)
    }
}

/// The state after `caller` asked to upload a new file at time `now`: the
/// file is there if the request was granted, and nothing changes if not.
pub open spec fn atomic_upload_step(
    s: StateView,
    caller: Seq<u8>,
    request: UploadFileAtomicRequestView,
    now: u64,
) -> StateView {
    if atomic_upload_result(s, caller, request) is Ok {
        atomic_upload_state(s, caller, request, now)
    } else {
        s
    }
}

/// Of a new file in a state in which no chunk was stored under the
/// identifier that it gets, exactly chunk 0 is stored, with the bytes that
/// came with the request; and the file is uploaded exactly when that is all
/// its chunks, which is when it has one.
pub proof fn lemma_new_file_has_its_first_chunk(
    s: StateView,
    caller: Seq<u8>,
    request: UploadFileAtomicRequestView,
    now: u64,
)
    requires
        atomic_upload_result(s, caller, request) is Ok,
        no_chunk_of(s.chunks, s.file_count),
    ensures
        ({
            let file_id = s.file_count;
            let t = atomic_upload_step(s, caller, request, now);
            &&& forall|c: u64| #[trigger] t.chunks.contains_key((file_id, c)) <==> c == 0
            &&& t.chunks[(file_id, 0)] == request.content
            &&& t.files.contains_key(file_id)
            &&& t.files[file_id].content.num_chunks() == request.num_chunks
            &&& t.files[file_id].content is Uploaded <==> request.num_chunks == 1
            &&& t.files[file_id].content is Uploaded <==> all_chunks_present(
                t.chunks,
                file_id,
                request.num_chunks,
            )
            &&& !(t.files[file_id].content is Uploaded) ==> t.files[file_id].content
                == (FileContentView::PartiallyUploaded {
                num_chunks: request.num_chunks,
                file_type: request.file_type,
            })
        }),
{
    let file_id = s.file_count;
    let t = atomic_upload_step(s, caller, request, now);
    assert(t.chunks.contains_key((file_id, 0u64)));
    assert forall|c: u64| #[trigger] t.chunks.contains_key((file_id, c)) implies c == 0 by {
        if c != 0 {
            assert(!s.chunks.contains_key((file_id, c)));
        }
    }
    if request.num_chunks != 1 {
        assert(!t.chunks.contains_key((file_id, 1u64)));
    }
}

/// Uploading a new file keeps a consistent state consistent.
pub proof fn lemma_atomic_upload_keeps_wf(
    s: StateView,
    caller: Seq<u8>,
    request: UploadFileAtomicRequestView,
    now: u64,
)
    requires
        s.wf(),
        s.file_count < u64::MAX,
        atomic_upload_result(s, caller, request) is Ok,
    ensures
        atomic_upload_state(s, caller, request, now).wf(),
{
    let t = atomic_upload_state(s, caller, request, now);
    let file_id = s.file_count;
    let listed = owned_by(s.owners, caller);
    assert(!s.files.contains_key(file_id));
    assert forall|c: u64| !#[trigger] s.chunks.contains_key((file_id, c)) by {
        if s.chunks.contains_key((file_id, c)) {
            assert(s.files.contains_key((file_id, c).0));
        }
    }
    assert(!listed.contains(file_id)) by {
        if listed.contains(file_id) {
            assert(s.owners.contains_key(caller) && s.owners[caller].contains(file_id));
        }
    }
    assert forall|x: u64| #[trigger] listed.push(file_id).contains(x) <==> listed.contains(x) || x
        == file_id by {
        if listed.contains(x) {
            let i = choose|i: int| 0 <= i < listed.len() && listed[i] == x;
            assert(listed.push(file_id)[i] == x);
        }
        assert(listed.push(file_id)[listed.len() as int] == file_id);
    }
    assert(t.ids_below_count());
    assert(t.chunks_have_files());
    assert(t.contents_match_chunks()) by {
        assert forall|id: u64| #[trigger] t.files.contains_key(id) implies content_matches_chunks(
            t.files[id].content,
            t.chunks,
            id,
        ) by {
            if id == file_id {
                assert(t.chunks.contains_key((file_id, 0u64)));
                if request.num_chunks != 1 {
                    assert(!t.chunks.contains_key((file_id, 1u64)));
                }
            } else {
                assert(content_matches_chunks(s.files[id].content, s.chunks, id));
                assert(forall|c: u64|
                    t.chunks.contains_key((id, c)) == s.chunks.contains_key((id, c)));
            }
        }
    }
    assert(t.owners_list_once()) by {
        assert(listed.no_duplicates());
        assert(listed.push(file_id).no_duplicates());
    }
    assert(t.owners_list_own_files()) by {
        assert forall|owner: Seq<u8>, id: u64|
            t.owners.contains_key(owner) && #[trigger] t.owners[owner].contains(id) implies {
            &&& t.files.contains_key(id)
            &&& t.files[id].metadata.requester_principal == owner
        } by {
            if owner == caller {
                if id != file_id {
                    assert(listed.contains(id));
                    assert(s.owners.contains_key(caller) && s.owners[caller].contains(id));
                }
            } else {
                assert(s.owners.contains_key(owner) && s.owners[owner].contains(id));
            }
        }
    }
    assert(t.owned_files_are_listed()) by {
        assert forall|id: u64| #[trigger]
            t.files.contains_key(id) && t.files[id].metadata.requester_principal
                != anonymous_bytes() implies owned_by(
            t.owners,
            t.files[id].metadata.requester_principal,
        ).contains(id) by {
            let owner = t.files[id].metadata.requester_principal;
            if id != file_id {
                assert(s.files.contains_key(id));
                assert(owned_by(s.owners, owner).contains(id));
            }
        }
    }
}

/// Uploads a new file for `caller` at time `now` and returns its identifier:
/// the record is made, the first chunk stored and the file added to what
/// `caller` owns. A caller who has not authenticated is refused, and so is a
/// file that is announced with no chunk; then nothing changes.
pub fn upload_file_atomic(
    caller: Identity,
    request: UploadFileAtomicRequest,
    now: u64,
    state: &mut State,
) -> (result: Result<u64, UploadFileError>)
    requires
        request.content@.len() <= MAX_CHUNK_BYTES,
        old(state).file_count < u64::MAX,
    ensures
        result == atomic_upload_result(old(state)@, caller@, request@),
        final(state)@ == atomic_upload_step(old(state)@, caller@, request@, now),
        old(state)@.wf() ==> final(state)@.wf(),
{
    if caller.is_anonymous() {
        return Err(UploadFileError::NotAuthenticated);
    }
    if request.num_chunks == 0 {
        return Err(UploadFileError::InvalidChunkIndex);
    }
    let ghost before = state@;
    let ghost asked = request@;
    let file_id = state.generate_file_id();
    let UploadFileAtomicRequest { name, content, file_type, num_chunks } = request;
    let file_content = if num_chunks == 1 {
        FileContent::Uploaded { num_chunks, file_type }
    } else {
        FileContent::PartiallyUploaded { num_chunks, file_type }
    };
    state.file_contents.insert((file_id, 0), content);
    state.file_data.insert(
        file_id,
        File {
            metadata: FileMetadata {
                file_name: name,
                requester_principal: caller,
                requested_at: now,
                uploaded_at: Some(now),
                storage_provider: "icp".to_owned(),
                blob_id: None,
            },
            content: file_content,
        },
    );
    state.file_owners.add_file(caller, file_id);
    proof {
        assert(state@.files =~= atomic_upload_state(before, caller@, asked, now).files);
        if before.wf() {
            lemma_atomic_upload_keeps_wf(before, caller@, asked, now);
        }
    }
    Ok(file_id)
}

} // verus!
