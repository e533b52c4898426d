//! File transfer.

pub mod encryption;
pub mod names;
pub mod transfer;

pub use encryption::EncryptedFileMeta;
pub use names::{guess_mime, is_valid_file_id, pick_non_colliding, sanitize_filename};
pub use transfer::{
    CompletedFile, FileManager, OutgoingPlan, CHUNK_SIZE, MAX_CONCURRENT_INCOMING, MAX_FILE_SIZE,
};
