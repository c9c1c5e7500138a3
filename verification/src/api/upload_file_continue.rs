//! Uploading one more chunk of a partially uploaded file.

use crate::chunk_store::{all_chunks_present, MAX_CHUNK_BYTES};
use crate::file::{
    File, FileContent, FileContentView, FileView, UploadFileContinueRequest, UploadFileError,
};
use crate::identity::{anonymous_bytes, Identity};
use crate::state::{content_matches_chunks, State, StateView};
use vstd::prelude::*;

verus! {

/// Whether `caller` may store chunk `chunk_id` of file `file_id`, and if not,
/// why not. The conditions are tried in this order: the caller has
/// authenticated; the file exists; the caller owns it; it is partially
/// uploaded; the chunk index is below its number of chunks; the chunk is not
/// stored yet.
pub open spec fn continue_check(s: StateView, caller: Seq<u8>, file_id: u64, chunk_id: u64) -> Result<
    (),
    UploadFileError,
> {
    if caller == anonymous_bytes() {
        Err(UploadFileError::NotAuthenticated)
    } else if !s.files.contains_key(file_id) {
        Err(UploadFileError::FileNotFound)
    } else if s.files[file_id].metadata.requester_principal != caller {
        Err(UploadFileError::NotAuthenticated)
    } else {
        match s.files[file_id].content {
            FileContentView::PartiallyUploaded { num_chunks, .. } => {
                if chunk_id >= num_chunks {
                    Err(UploadFileError::InvalidChunkIndex)
                } else if s.chunks.contains_key((file_id, chunk_id)) {
                    Err(UploadFileError::ChunkAlreadyUploaded)
                } else {
                    Ok(())
                }
            },
            _ => Err(UploadFileError::WrongState),
        }
    }
}

/// The content state of a file that was partially uploaded, once `chunks`
/// are what is stored: uploaded if all its chunks are there, partially
/// uploaded if not.
pub open spec fn content_after(
    content: FileContentView,
    chunks: Map<(u64, u64), Seq<u8>>,
    file_id: u64,
) -> FileContentView {
    match content {
        FileContentView::PartiallyUploaded { num_chunks, file_type } => {
            if all_chunks_present(chunks, file_id, num_chunks) {
                FileContentView::Uploaded { num_chunks, file_type }
            } else {
                FileContentView::PartiallyUploaded { num_chunks, file_type }
            }
        },
        other => other,
    }
}

/// The state after chunk `chunk_id` of file `file_id` was stored with the
/// given bytes.
pub open spec fn continue_state(s: StateView, file_id: u64, chunk_id: u64, bytes: Seq<u8>) -> StateView {
    let chunks = s.chunks.insert((file_id, chunk_id), bytes);
    let file = FileView {
        metadata: s.files[file_id].metadata,
        content: content_after(s.files[file_id].content, chunks, file_id),
    };
    StateView { chunks, files: s.files.insert(file_id, file), ..s }
}

/// The state after `caller` asked to store chunk `chunk_id` of file
/// `file_id`: the chunk is stored if that may be, and nothing changes if not.
pub open spec fn continue_step(
    s: StateView,
    caller: Seq<u8>,
    file_id: u64,
    chunk_id: u64,
    bytes: Seq<u8>,
) -> StateView {
    if continue_check(s, caller, file_id, chunk_id) is Ok {
        continue_state(s, file_id, chunk_id, bytes)
    } else {
        s
    }
}

/// Storing a chunk that may be stored keeps a consistent state consistent.
pub proof fn lemma_continue_keeps_wf(
    s: StateView,
    caller: Seq<u8>,
    file_id: u64,
    chunk_id: u64,
    bytes: Seq<u8>,
)
    requires
        s.wf(),
        continue_check(s, caller, file_id, chunk_id) is Ok,
    ensures
        continue_state(s, file_id, chunk_id, bytes).wf(),
{
    let t = continue_state(s, file_id, chunk_id, bytes);
    assert(s.files.contains_key(file_id));
    assert(t.ids_below_count());
    assert(t.chunks_have_files());
    assert(t.contents_match_chunks()) by {
        assert forall|id: u64| #[trigger] t.files.contains_key(id) implies content_matches_chunks(
            t.files[id].content,
            t.chunks,
            id,
        ) by {
            assert(s.files.contains_key(id));
            assert(content_matches_chunks(s.files[id].content, s.chunks, id));
            if id != file_id {
                assert(forall|c: u64|
                    t.chunks.contains_key((id, c)) == s.chunks.contains_key((id, c)));
            }
        }
    }
    assert(t.owners_list_once());
    assert(t.owners_list_own_files());
    assert(t.owned_files_are_listed());
}

/// Stores one more chunk of a partially uploaded file for its owner. The
/// file becomes uploaded when this was the last chunk that was missing. A
/// request that is refused changes nothing.
pub fn upload_file_continue(
    caller: Identity,
    request: UploadFileContinueRequest,
    state: &mut State,
) -> (result: Result<(), UploadFileError>)
    requires
        request.contents@.len() <= MAX_CHUNK_BYTES,
    ensures
        result == continue_check(old(state)@, caller@, request.file_id, request.chunk_id),
        final(state)@ == continue_step(
            old(state)@,
            caller@,
            request.file_id,
            request.chunk_id,
            request.contents@,
        ),
        old(state)@.wf() ==> final(state)@.wf(),
{
    if caller.is_anonymous() {
        return Err(UploadFileError::NotAuthenticated);
    }
    let file_id = request.file_id;
    let chunk_id = request.chunk_id;
    let num_chunks = match state.file_data.get(&file_id) {
        None => {
            return Err(UploadFileError::FileNotFound);
        },
        Some(file) => {
            if !file.metadata.requester_principal.same_as(&caller) {
                return Err(UploadFileError::NotAuthenticated);
            }
            match &file.content {
                FileContent::PartiallyUploaded { num_chunks, .. } => *num_chunks,
                _ => {
                    return Err(UploadFileError::WrongState);
                },
            }
        },
    };
    if chunk_id >= num_chunks {
        return Err(UploadFileError::InvalidChunkIndex);
    }
    if state.file_contents.contains_key(&(file_id, chunk_id)) {
        return Err(UploadFileError::ChunkAlreadyUploaded);
    }
    let ghost before = state@;
    let ghost bytes = request.contents@;
    state.file_contents.insert((file_id, chunk_id), request.contents);
    let complete = state.file_contents.count_chunks(file_id, num_chunks) == num_chunks;
    if let Some(file) = state.file_data.remove(&file_id) {
        let File { metadata, content } = file;
        let content = match content {
            FileContent::PartiallyUploaded { num_chunks, file_type } => {
                if complete {
                    FileContent::Uploaded { num_chunks, file_type }
                } else {
                    FileContent::PartiallyUploaded { num_chunks, file_type }
                }
            },
            other => other,
        };
        state.file_data.insert(file_id, File { metadata, content });
    }
    proof {
        assert(state@.files =~= continue_state(before, file_id, chunk_id, bytes).files);
        if before.wf() {
            lemma_continue_keeps_wf(before, caller@, file_id, chunk_id, bytes);
        }
    }
    Ok(())
}

} // verus!
