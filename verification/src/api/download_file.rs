//! Downloading one chunk of an uploaded file.

use crate::file::{
    FileContent, FileContentView, FileData, FileDataView, FileDownloadResponse,
    FileDownloadResponseView,
};
use crate::identity::{anonymous_bytes, Identity};
use crate::state::{content_matches_chunks, State, StateView};
use vstd::prelude::*;

verus! {

/// The answer to `caller` asking for chunk `chunk_id` of file `file_id`. A
/// caller who has not authenticated is refused; then a file without a record
/// is not found; then a caller who is not the file's owner is refused. The
/// owner gets the chunk if the file is uploaded and the chunk is stored.
pub open spec fn download_result(
    s: StateView,
    caller: Seq<u8>,
    file_id: u64,
    chunk_id: u64,
) -> FileDownloadResponseView {
    if caller == anonymous_bytes() {
        FileDownloadResponseView::PermissionError
    } else if !s.files.contains_key(file_id) {
        FileDownloadResponseView::NotFoundFile
    } else if s.files[file_id].metadata.requester_principal != caller {
        FileDownloadResponseView::PermissionError
    } else {
        match s.files[file_id].content {
            FileContentView::Uploaded { num_chunks, file_type } => {
                if s.chunks.contains_key((file_id, chunk_id)) {
                    FileDownloadResponseView::FoundFile(
                        FileDataView {
                            contents: s.chunks[(file_id, chunk_id)],
                            file_type,
                            num_chunks,
                        },
                    )
                } else {
                    FileDownloadResponseView::NotUploadedFile
                }
            },
            _ => FileDownloadResponseView::NotUploadedFile,
        }
    }
}

/// In a consistent state, the owner of an uploaded file gets each chunk
/// whose index is below the file's number of chunks, and no other.
pub proof fn lemma_download_of_uploaded_file(s: StateView, file_id: u64, chunk_id: u64)
    requires
        s.wf(),
        s.files.contains_key(file_id),
        s.files[file_id].content is Uploaded,
        s.files[file_id].metadata.requester_principal != anonymous_bytes(),
    ensures
        download_result(
            s,
            s.files[file_id].metadata.requester_principal,
            file_id,
            chunk_id,
        ) is FoundFile <==> chunk_id < s.files[file_id].content.num_chunks(),
{
    assert(content_matches_chunks(s.files[file_id].content, s.chunks, file_id));
}

/// Answers `caller`'s request for chunk `chunk_id` of file `file_id`.
pub fn download_file(s: &State, caller: Identity, file_id: u64, chunk_id: u64) -> (response:
    FileDownloadResponse)
    ensures
        response@ == download_result(s@, caller@, file_id, chunk_id),
{
    if caller.is_anonymous() {
        return FileDownloadResponse::PermissionError;
    }
    match s.file_data.get(&file_id) {
        None => FileDownloadResponse::NotFoundFile,
        Some(file) => {
            if !file.metadata.requester_principal.same_as(&caller) {
                return FileDownloadResponse::PermissionError;
            }
            match &file.content {
                FileContent::Uploaded { num_chunks, file_type } => {
                    match s.file_contents.get(&(file_id, chunk_id)) {
                        Some(contents) => FileDownloadResponse::FoundFile(
                            FileData {
                                contents,
                                file_type: file_type.clone(),
                                num_chunks: *num_chunks,
                            },
                        ),
                        None => FileDownloadResponse::NotUploadedFile,
                    }
                },
                _ => FileDownloadResponse::NotUploadedFile,
            }
        },
    }
}

} // verus!
