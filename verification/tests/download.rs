use vtk_backend::api::download_file;
use vtk_backend::{
    File, FileContent, FileData, FileDownloadResponse, FileMetadata, Identity, State,
};

/// The identity that a test names by `text`: the bytes of the text.
fn identity(text: &str) -> Identity {
    Identity::from_slice(text.as_bytes()).unwrap()
}

#[test]
fn download_existing_uploaded_file() {
    let mut state = State::default();
    let test_principal = identity("2vxsx-fae");

    state.file_data.insert(
        0,
        File {
            metadata: FileMetadata {
                file_name: "test_file.txt".to_string(),
                requester_principal: test_principal,
                requested_at: 12345,
                uploaded_at: Some(12345),
                storage_provider: "icp".to_string(),
                blob_id: None,
            },
            content: FileContent::Uploaded {
                num_chunks: 1,
                file_type: "txt".to_string(),
            },
        },
    );
    state.file_contents.insert((0, 0), vec![1, 2, 3]);

    // Add file to user's owned files
    state.file_owners.insert(test_principal, vec![0]);

    let result = download_file(&state, test_principal, 0, 0);
    assert_eq!(
        result,
        FileDownloadResponse::FoundFile(FileData {
            contents: vec![1, 2, 3],
            file_type: "txt".to_string(),
            num_chunks: 1,
        })
    );
}

#[test]
fn download_nonexistent_file() {
    let state = State::default();
    let test_principal = identity("2vxsx-fae");
    let result = download_file(&state, test_principal, 42, 0);
    assert_eq!(result, FileDownloadResponse::NotFoundFile);
}

#[test]
fn download_not_uploaded_file() {
    let mut state = State::default();
    let test_principal = identity("2vxsx-fae");

    state.file_data.insert(
        0,
        File {
            metadata: FileMetadata {
                file_name: "test_file.txt".to_string(),
                requester_principal: test_principal,
                requested_at: 12345,
                uploaded_at: None,
                storage_provider: "icp".to_string(),
                blob_id: None,
            },
            content: FileContent::Pending { alias: "abc".to_string() },
        },
    );

    // Add file to user's owned files
    state.file_owners.insert(test_principal, vec![0]);

    let result = download_file(&state, test_principal, 0, 0);
    assert_eq!(result, FileDownloadResponse::NotUploadedFile);
}

#[test]
fn anonymous_user_cannot_download() {
    let state = State::default();
    let result = download_file(&state, Identity::anonymous(), 0, 0);
    assert_eq!(result, FileDownloadResponse::PermissionError);
}

#[test]
fn wrong_user_cannot_download() {
    let mut state = State::default();
    let test_principal1 = identity("2vxsx-fae");
    let test_principal2 = identity("3vxsx-fae");

    state.file_data.insert(
        0,
        File {
            metadata: FileMetadata {
                file_name: "test_file.txt".to_string(),
                requester_principal: test_principal1,
                requested_at: 12345,
                uploaded_at: Some(12345),
                storage_provider: "icp".to_string(),
                blob_id: None,
            },
            content: FileContent::Uploaded {
                num_chunks: 1,
                file_type: "txt".to_string(),
            },
        },
    );
    state.file_contents.insert((0, 0), vec![1, 2, 3]);

    // Add file to principal1's owned files
    state.file_owners.insert(test_principal1, vec![0]);

    // Try to download as principal2
    let result = download_file(&state, test_principal2, 0, 0);
    assert_eq!(result, FileDownloadResponse::PermissionError);
}
