//! What a caller asks for: one of four commands, each on a file.
use std::path::PathBuf;
use vstd::prelude::*;

verus! {

/// `std::path::PathBuf`, which this library carries and never looks into.
#[verifier::external_type_specification]
#[verifier::external_body]
pub struct ExPathBuf(PathBuf);

/// A request as a whole.
pub struct Cli {
    pub command: Commands,
}

/// The four commands.
pub enum Commands {
    /// Add a message chunk to a file.
    Encode(EncodeArgs),
    /// Read the message of a chunk.
    Decode(DecodeArgs),
    /// Take a chunk out of a file.
    Remove(RemoveArgs),
    /// List the types of a file's chunks.
    Print(PrintArgs),
}

/// Add a chunk of type `chunk_type` that holds `message` to the file at
/// `file_path`, and write the result to `output_file` or, without one, back
/// to `file_path`.
pub struct EncodeArgs {
    pub file_path: PathBuf,
    pub chunk_type: String,
    pub message: String,
    pub output_file: Option<PathBuf>,
}

/// Read the message of the first chunk of type `chunk_type` in the file at
/// `file_path`.
pub struct DecodeArgs {
    pub file_path: PathBuf,
    pub chunk_type: String,
}

/// Take the first chunk of type `chunk_type` out of the file at `file_path`.
pub struct RemoveArgs {
    pub file_path: PathBuf,
    pub chunk_type: String,
}

/// List the chunk types of the file at `file_path`.
pub struct PrintArgs {
    pub file_path: PathBuf,
}

impl EncodeArgs {
    /// Where the result goes: `output_file` if one was given, else `file_path`.
    pub fn output_path(&self) -> (r: &PathBuf)
        ensures
            *r == (match self.output_file {
                Some(p) => p,
                None => self.file_path,
            }),
    {
        match &self.output_file {
            Some(p) => p,
            None => &self.file_path,
        }
    }
}

} // verus!
