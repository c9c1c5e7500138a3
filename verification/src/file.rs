//! The data model: what is recorded of a file, the states its content goes
//! through, and the values that requests carry and answers return.
//!
//! Each type that holds text or bytes has a view, in which a `String` is a
//! `Seq<char>`, a `Vec<u8>` a `Seq<u8>` and an [`Identity`] its bytes. The
//! contracts of the operations are stated over these views.

use crate::identity::Identity;
use vstd::prelude::*;

verus! {

/// The view of optional text.
pub open spec fn text_view(text: Option<String>) -> Option<Seq<char>> {
    match text {
        Some(t) => Some(t@),
        None => None,
    }
}

/// What is recorded of a file besides its content.
#[derive(Clone, Debug, PartialEq, Eq)]
pub struct FileMetadata {
    pub file_name: String,
    /// The owner: who uploaded the file.
    pub requester_principal: Identity,
    pub requested_at: u64,
    pub uploaded_at: Option<u64>,
    /// Where the content is kept: "icp" or "walrus".
    pub storage_provider: String,
    /// The blob's name at the storage provider, for files kept elsewhere.
    pub blob_id: Option<String>,
}

/// A [`FileMetadata`] as the contracts see it.
pub struct FileMetadataView {
    pub file_name: Seq<char>,
    pub requester_principal: Seq<u8>,
    pub requested_at: u64,
    pub uploaded_at: Option<u64>,
    pub storage_provider: Seq<char>,
    pub blob_id: Option<Seq<char>>,
}

impl View for FileMetadata {
    type V = FileMetadataView;

    open spec fn view(&self) -> FileMetadataView {
        FileMetadataView {
            file_name: self.file_name@,
            requester_principal: self.requester_principal@,
            requested_at: self.requested_at,
            uploaded_at: self.uploaded_at,
            storage_provider: self.storage_provider@,
            blob_id: text_view(self.blob_id),
        }
    }
}

/// The state of a file's content.
#[derive(Debug, PartialEq, Eq)]
pub enum FileContent {
    /// Registered; no bytes received.
    Pending { alias: String },
    /// All `num_chunks` chunks are stored.
    Uploaded { num_chunks: u64, file_type: String },
    /// Some of the `num_chunks` chunks are stored, not all.
    PartiallyUploaded { num_chunks: u64, file_type: String },
}

/// A [`FileContent`] as the contracts see it.
pub enum FileContentView {
    Pending { alias: Seq<char> },
    Uploaded { num_chunks: u64, file_type: Seq<char> },
    PartiallyUploaded { num_chunks: u64, file_type: Seq<char> },
}

impl View for FileContent {
    type V = FileContentView;

    open spec fn view(&self) -> FileContentView {
        match self {
            FileContent::Pending { alias } => FileContentView::Pending { alias: alias@ },
            FileContent::Uploaded { num_chunks, file_type } => FileContentView::Uploaded {
                num_chunks: *num_chunks,
                file_type: file_type@,
            },
            FileContent::PartiallyUploaded {
                num_chunks,
                file_type,
            } => FileContentView::PartiallyUploaded {
                num_chunks: *num_chunks,
                file_type: file_type@,
            },
        }
    }
}

impl FileContentView {
    /// How many chunks the file was announced with: none while it is
    /// pending.
    pub open spec fn num_chunks(self) -> u64 {
        match self {
            FileContentView::Pending { .. } => 0,
            FileContentView::Uploaded { num_chunks, .. } => num_chunks,
            FileContentView::PartiallyUploaded { num_chunks, .. } => num_chunks,
        }
    }
}

impl FileContent {
    /// How many chunks the file was announced with: none while it is
    /// pending.
    pub fn num_chunks(&self) -> (n: u64)
        ensures
            n == self@.num_chunks(),
    {
        match self {
            FileContent::Pending { .. } => 0,
            FileContent::Uploaded { num_chunks, .. } => *num_chunks,
            FileContent::PartiallyUploaded { num_chunks, .. } => *num_chunks,
        }
    }
}

/// A file: its metadata and the state of its content.
#[derive(Debug, PartialEq, Eq)]
pub struct File {
    pub metadata: FileMetadata,
    pub content: FileContent,
}

/// A [`File`] as the contracts see it.
pub struct FileView {
    pub metadata: FileMetadataView,
    pub content: FileContentView,
}

impl View for File {
    type V = FileView;

    open spec fn view(&self) -> FileView {
        FileView { metadata: self.metadata@, content: self.content@ }
    }
}

/// A file as it is named to someone who knows its alias and not yet its
/// identifier.
#[derive(Clone, Debug, PartialEq, Eq)]
pub struct FileInfo {
    pub file_id: u64,
    pub file_name: String,
    pub alias: String,
}

/// What a listing says of the state of a file's content.
#[derive(Clone, Debug, PartialEq, Eq)]
pub enum FileStatus {
    Pending { alias: String, requested_at: u64 },
    PartiallyUploaded,
    Uploaded { uploaded_at: u64 },
}

/// A [`FileStatus`] as the contracts see it.
pub enum FileStatusView {
    Pending { alias: Seq<char>, requested_at: u64 },
    PartiallyUploaded,
    Uploaded { uploaded_at: u64 },
}

impl View for FileStatus {
    type V = FileStatusView;

    open spec fn view(&self) -> FileStatusView {
        match self {
            FileStatus::Pending { alias, requested_at } => FileStatusView::Pending {
                alias: alias@,
                requested_at: *requested_at,
            },
            FileStatus::PartiallyUploaded => FileStatusView::PartiallyUploaded,
            FileStatus::Uploaded { uploaded_at } => FileStatusView::Uploaded {
                uploaded_at: *uploaded_at,
            },
        }
    }
}

/// One entry of a listing of files.
#[derive(Clone, Debug, PartialEq, Eq)]
pub struct PublicFileMetadata {
    pub file_id: u64,
    pub file_name: String,
    pub group_name: String,
    pub group_alias: Option<String>,
    pub file_status: FileStatus,
}

/// A [`PublicFileMetadata`] as the contracts see it.
pub struct PublicFileMetadataView {
    pub file_id: u64,
    pub file_name: Seq<char>,
    pub group_name: Seq<char>,
    pub group_alias: Option<Seq<char>>,
    pub file_status: FileStatusView,
}

impl View for PublicFileMetadata {
    type V = PublicFileMetadataView;

    open spec fn view(&self) -> PublicFileMetadataView {
        PublicFileMetadataView {
            file_id: self.file_id,
            file_name: self.file_name@,
            group_name: self.group_name@,
            group_alias: text_view(self.group_alias),
            file_status: self.file_status@,
        }
    }
}

/// One chunk of a file, as a download returns it.
#[derive(Debug, PartialEq)]
pub struct FileData {
    pub contents: Vec<u8>,
    pub file_type: String,
    pub num_chunks: u64,
}

/// A [`FileData`] as the contracts see it.
pub struct FileDataView {
    pub contents: Seq<u8>,
    pub file_type: Seq<char>,
    pub num_chunks: u64,
}

impl View for FileData {
    type V = FileDataView;

    open spec fn view(&self) -> FileDataView {
        FileDataView {
            contents: self.contents@,
            file_type: self.file_type@,
            num_chunks: self.num_chunks,
        }
    }
}

/// The answer to a download.
#[derive(Debug, PartialEq)]
pub enum FileDownloadResponse {
    NotFoundFile,
    NotUploadedFile,
    PermissionError,
    FoundFile(FileData),
}

/// A [`FileDownloadResponse`] as the contracts see it.
pub enum FileDownloadResponseView {
    NotFoundFile,
    NotUploadedFile,
    PermissionError,
    FoundFile(FileDataView),
}

impl View for FileDownloadResponse {
    type V = FileDownloadResponseView;

    open spec fn view(&self) -> FileDownloadResponseView {
        match self {
            FileDownloadResponse::NotFoundFile => FileDownloadResponseView::NotFoundFile,
            FileDownloadResponse::NotUploadedFile => FileDownloadResponseView::NotUploadedFile,
            FileDownloadResponse::PermissionError => FileDownloadResponseView::PermissionError,
            FileDownloadResponse::FoundFile(data) => FileDownloadResponseView::FoundFile(data@),
        }
    }
}

/// Why an upload was refused.
#[derive(Clone, Copy, Debug, PartialEq, Eq)]
pub enum UploadFileError {
    /// The caller has not authenticated, or does not own the file.
    NotAuthenticated,
    /// No file has the identifier.
    FileNotFound,
    /// The file is not partially uploaded.
    WrongState,
    /// The chunk index is not below the file's number of chunks.
    InvalidChunkIndex,
    /// The chunk is stored already.
    ChunkAlreadyUploaded,
}

/// The answer to a request to share a file.
#[derive(Clone, Copy, Debug, PartialEq, Eq)]
pub enum FileSharingResponse {
    PendingError,
    PermissionError,
    Success,
}

/// A request to upload the first chunk of a file that has an identifier
/// already.
#[derive(Clone, Debug, PartialEq)]
pub struct UploadFileRequest {
    pub file_id: u64,
    pub file_content: Vec<u8>,
    pub file_type: String,
    pub num_chunks: u64,
}

/// A request to upload one more chunk of a file.
#[derive(Clone, Debug, PartialEq)]
pub struct UploadFileContinueRequest {
    pub file_id: u64,
    pub chunk_id: u64,
    pub contents: Vec<u8>,
}

/// A [`UploadFileContinueRequest`] as the contracts see it.
pub struct UploadFileContinueRequestView {
    pub file_id: u64,
    pub chunk_id: u64,
    pub contents: Seq<u8>,
}

impl View for UploadFileContinueRequest {
    type V = UploadFileContinueRequestView;

    open spec fn view(&self) -> UploadFileContinueRequestView {
        UploadFileContinueRequestView {
            file_id: self.file_id,
            chunk_id: self.chunk_id,
            contents: self.contents@,
        }
    }
}

} // verus!
