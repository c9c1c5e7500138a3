use vtk_backend::api::{delete_file, DeleteFileResult};
use vtk_backend::{File, FileContent, FileMetadata, Identity, State};

/// The identity that a test names by `text`: the bytes of the text.
fn identity(text: &str) -> Identity {
    Identity::from_slice(text.as_bytes()).unwrap()
}

#[test]
fn delete_existing_file() {
    let mut state = State::default();
    let owner = identity("owner");

    // Insert a file manually
    state.file_data.insert(
        0,
        File {
            metadata: FileMetadata {
                file_name: "test_file.txt".to_string(),
                requester_principal: owner,
                requested_at: 12345,
                uploaded_at: Some(12345),
                storage_provider: "icp".to_string(),
                blob_id: None,
            },
            content: FileContent::Uploaded {
                num_chunks: 1,
                file_type: "txt".to_string(),
            },
        },
    );
    // Insert a chunk
    state.file_contents.insert((0, 0), vec![1, 2, 3]);

    // Delete the file
    let result = delete_file(&mut state, owner, 0);

    // Check result and that file is gone
    assert_eq!(result, DeleteFileResult::Success);
    assert!(!state.file_data.contains_key(&0));
    assert!(state.file_contents.get(&(0, 0)).is_none());
}

#[test]
fn delete_nonexistent_file() {
    let mut state = State::default();

    // Try to delete a file that doesn't exist
    let result = delete_file(&mut state, identity("owner"), 42);

    // Should return NotFound
    assert_eq!(result, DeleteFileResult::NotFound);
}
