//! Registering a file whose content is kept or will arrive elsewhere.

use crate::file::{
    text_view, File, FileContent, FileContentView, FileMetadata, FileMetadataView, FileView,
};
use crate::identity::{anonymous_bytes, Identity};
use crate::state::{content_matches_chunks, State, StateView};
use vstd::prelude::*;

verus! {

/// A request to register a file.
#[derive(Clone, Debug)]
pub struct RegisterFileRequest {
    pub file_name: String,
    /// "icp" or "walrus".
    pub storage_provider: String,
    /// The blob's name at the storage provider, for files kept elsewhere.
    pub blob_id: Option<String>,
    pub requested_at: u64,
    pub uploaded_at: Option<u64>,
}

/// A [`RegisterFileRequest`] as the contracts see it.
pub struct RegisterFileRequestView {
    pub file_name: Seq<char>,
    pub storage_provider: Seq<char>,
    pub blob_id: Option<Seq<char>>,
    pub requested_at: u64,
    pub uploaded_at: Option<u64>,
}

impl View for RegisterFileRequest {
    type V = RegisterFileRequestView;

    open spec fn view(&self) -> RegisterFileRequestView {
        RegisterFileRequestView {
            file_name: self.file_name@,
            storage_provider: self.storage_provider@,
            blob_id: text_view(self.blob_id),
            requested_at: self.requested_at,
            uploaded_at: self.uploaded_at,
        }
    }
}

/// The answer to a registration: the new file's identifier.
#[derive(Clone, Copy, Debug)]
pub struct RegisterFileResponse {
    pub file_id: u64,
}

/// The record of a file as it is registered: pending, without an alias, and
/// owned by nobody who has authenticated.
pub open spec fn registered_file(request: RegisterFileRequestView) -> FileView {
    FileView {
        metadata: FileMetadataView {
            file_name: request.file_name,
            requester_principal: anonymous_bytes(),
            requested_at: request.requested_at,
            uploaded_at: request.uploaded_at,
            storage_provider: request.storage_provider,
            blob_id: request.blob_id,
        },
        content: FileContentView::Pending { alias: Seq::empty() },
    }
}

/// The state after a file was registered: it has the counter's value as its
/// identifier, and the counter is one more.
pub open spec fn register_state(s: StateView, request: RegisterFileRequestView) -> StateView {
    StateView {
        file_count: (s.file_count + 1) as u64,
        files: s.files.insert(s.file_count, registered_file(request)),
        ..s
    }
}

/// Registering a file keeps a consistent state consistent.
pub proof fn lemma_register_keeps_wf(s: StateView, request: RegisterFileRequestView)
    requires
        s.wf(),
        s.file_count < u64::MAX,
    ensures
        register_state(s, request).wf(),
{
    let t = register_state(s, request);
    let file_id = s.file_count;
    assert(!s.files.contains_key(file_id));
    assert forall|c: u64| !#[trigger] s.chunks.contains_key((file_id, c)) by {
        if s.chunks.contains_key((file_id, c)) {
            assert(s.files.contains_key((file_id, c).0));
        }
    }
    assert(t.ids_below_count());
    assert(t.chunks_have_files());
    assert(t.contents_match_chunks()) by {
        assert forall|id: u64| #[trigger] t.files.contains_key(id) implies content_matches_chunks(
            t.files[id].content,
            t.chunks,
            id,
        ) by {
            if id != file_id {
                assert(content_matches_chunks(s.files[id].content, s.chunks, id));
            }
        }
    }
    assert(t.owners_list_once());
    assert(t.owners_list_own_files()) by {
        assert forall|owner: Seq<u8>, id: u64|
            t.owners.contains_key(owner) && #[trigger] t.owners[owner].contains(id) implies {
            &&& t.files.contains_key(id)
            &&& t.files[id].metadata.requester_principal == owner
        } by {
            assert(s.owners.contains_key(owner) && s.owners[owner].contains(id));
        }
    }
    assert(t.owned_files_are_listed()) by {
        assert forall|id: u64| #[trigger]
            t.files.contains_key(id) && t.files[id].metadata.requester_principal
                != anonymous_bytes() implies crate::owners::owned_by(
            t.owners,
            t.files[id].metadata.requester_principal,
        ).contains(id) by {
            assert(s.files.contains_key(id));
        }
    }
}

/// Registers a file and returns its identifier. The file is pending; no
/// chunk is stored for it, and nobody is recorded as its owner.
pub fn register_file(state: &mut State, req: RegisterFileRequest) -> (response:
    RegisterFileResponse)
    requires
        old(state).file_count < u64::MAX,
    ensures
        response.file_id == old(state).file_count,
        final(state)@ == register_state(old(state)@, req@),
        old(state)@.wf() ==> final(state)@.wf(),
{
    let ghost before = state@;
    let ghost asked = req@;
    let file_id = state.generate_file_id();
    let metadata = FileMetadata {
        file_name: req.file_name,
        requester_principal: Identity::anonymous(),
        requested_at: req.requested_at,
        uploaded_at: req.uploaded_at,
        storage_provider: req.storage_provider,
        blob_id: req.blob_id,
    };
    state.file_data.insert(
        file_id,
        File { metadata, content: FileContent::Pending { alias: String::new() } },
    );
    proof {
        assert(state@.files =~= register_state(before, asked).files);
        if before.wf() {
            lemma_register_keeps_wf(before, asked);
        }
    }
    RegisterFileResponse { file_id }
}

} // verus!
