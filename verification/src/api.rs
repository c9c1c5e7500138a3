//! The operations of the registry. Each takes the caller's identity where it
//! asks for one, and the state it works on.

pub mod delete_file;
pub mod download_file;
pub mod list_files;
pub mod register_file;
pub mod upload_file_atomic;
pub mod upload_file_continue;
pub mod user_management;

pub use delete_file::{delete_file, DeleteFileResult};
pub use download_file::download_file;
pub use list_files::list_files;
pub use register_file::{register_file, RegisterFileRequest, RegisterFileResponse};
pub use upload_file_atomic::{upload_file_atomic, UploadFileAtomicRequest};
pub use upload_file_continue::upload_file_continue;
pub use user_management::{
    create_user_profile, create_user_with_username, delete_user_profile, get_user_profile,
    get_user_stats, list_users, update_user_profile, update_user_with_username,
};
