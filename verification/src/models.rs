//! The data that requests carry in and responses carry out.
use vstd::prelude::*;

verus! {

/// The authenticated cipher that protects a file.
#[derive(Debug, Clone, Copy, PartialEq, Eq, Structural)]
pub enum Algorithm {
    AES256,
    ChaCha20,
}

/// A request to encrypt, as a client may describe it.
#[derive(Debug)]
pub struct EncryptRequest {
    pub algorithm: Algorithm,
    pub password: String,
}

/// A request to decrypt, as a client may describe it.
#[derive(Debug)]
pub struct DecryptRequest {
    pub algorithm: Algorithm,
    pub password: String,
}

/// The answer to an encryption request.
#[derive(Debug)]
pub struct EncryptResponse {
    pub success: bool,
    pub message: String,
    pub result: Vec<(String, String)>,
}

/// The answer to a decryption request.
#[derive(Debug)]
pub struct DecryptResponse {
    pub success: bool,
    pub message: String,
    pub decrypted_data: Vec<String>,
    pub filename: Option<String>,
}

/// The answer to a batch encryption request.
#[derive(Debug)]
pub struct BatchResponse {
    pub success: bool,
    pub message: String,
    pub processed_files: Vec<FileResult>,
    pub total_files: usize,
    pub successful_files: usize,
    pub failed_files: usize,
    pub file_id: Option<String>,
    pub encrypted_data: Option<String>,
}

/// The outcome for one file of a batch.
#[derive(Debug)]
pub struct FileResult {
    pub filename: String,
    pub success: bool,
    pub message: String,
    pub file_id: Option<String>,
}

/// The answer to a batch decryption request.
#[derive(Debug)]
pub struct BatchDecryptResponse {
    pub success: bool,
    pub message: String,
    pub files: Vec<String>,
}

} // verus!
