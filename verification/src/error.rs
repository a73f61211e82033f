//! Error values for the chunk engine. Every variant names the offending
//! chunk, file or URL, and [`MergesError::message`] renders the same wording
//! the command-line surface shows. No error is produced after a mutation has
//! been decided: validation always comes first.

use vstd::prelude::*;
use vstd::string::StringExecFns;

use crate::text;

verus! {

/// A validation failure, reported before any repository action is emitted.
#[derive(Debug)]
pub enum MergesError {
    /// The plan named no chunks at all.
    EmptyPlan,
    /// A request named no files at all.
    NoFiles,
    /// No chunk with this name exists in the state; `available` lists the
    /// names that do.
    UnknownChunk { name: String, available: Vec<String> },
    /// The file is not part of the diff between the base branch and the
    /// source branch tip.
    FileNotInDiff { file: String },
    /// The file is named twice in one plan, or is already owned by a chunk.
    DuplicateFile { file: String },
    /// The file is not a member of the chunk it was to be taken from;
    /// `members` lists what that chunk does own.
    FileNotInChunk { file: String, chunk: String, members: Vec<String> },
    /// A move named the same chunk as both source and destination.
    SameChunk { chunk: String },
    /// The remote URL is not a recognisable GitHub SSH or HTTPS URL.
    UnparsableRemote { url: String },
}

/// Mathematical image of a [`MergesError`].
pub enum ErrorV {
    EmptyPlan,
    NoFiles,
    UnknownChunk { name: Seq<char>, available: Seq<Seq<char>> },
    FileNotInDiff { file: Seq<char> },
    DuplicateFile { file: Seq<char> },
    FileNotInChunk { file: Seq<char>, chunk: Seq<char>, members: Seq<Seq<char>> },
    SameChunk { chunk: Seq<char> },
    UnparsableRemote { url: Seq<char> },
}

impl View for MergesError {
    type V = ErrorV;

    open spec fn view(&self) -> ErrorV {
        match self {
            MergesError::EmptyPlan => ErrorV::EmptyPlan,
            MergesError::NoFiles => ErrorV::NoFiles,
            MergesError::UnknownChunk { name, available } => ErrorV::UnknownChunk {
                name: name@,
                available: available.deep_view(),
            },
            MergesError::FileNotInDiff { file } => ErrorV::FileNotInDiff { file: file@ },
            MergesError::DuplicateFile { file } => ErrorV::DuplicateFile { file: file@ },
            MergesError::FileNotInChunk { file, chunk, members } => ErrorV::FileNotInChunk {
                file: file@,
                chunk: chunk@,
                members: members.deep_view(),
            },
            MergesError::SameChunk { chunk } => ErrorV::SameChunk { chunk: chunk@ },
            MergesError::UnparsableRemote { url } => ErrorV::UnparsableRemote { url: url@ },
        }
    }
}

/// The wording of each error, as a function of its view.
pub open spec fn message_of(e: ErrorV) -> Seq<char> {
    match e {
        ErrorV::EmptyPlan => "Chunk plan is empty - provide at least one chunk with files."@,
        ErrorV::NoFiles => "No files provided."@,
        ErrorV::UnknownChunk { name, available } => "No chunk named '"@ + name
            + "'. Available chunks: "@ + text::join_comma(available),
        ErrorV::FileNotInDiff { file } => "File '"@ + file
            + "' is not in the diff against the base branch."@,
        ErrorV::DuplicateFile { file } => "File '"@ + file + "' is assigned more than once."@,
        ErrorV::FileNotInChunk { file, chunk, members } => "File '"@ + file
            + "' is not in chunk '"@ + chunk + "'. Files in chunk: "@ + text::join_comma(members),
        ErrorV::SameChunk { chunk } => "Source and destination chunk are both '"@ + chunk + "'."@,
        ErrorV::UnparsableRemote { url } => "Cannot parse GitHub owner/repo from remote URL: "@
            + url,
    }
}

impl MergesError {
    /// Human-readable description; names the offending chunk/file/URL.
    pub fn message(&self) -> (r: String)
        ensures
            r@ == message_of(self@),
    {
        match self {
            MergesError::EmptyPlan => String::from_str(
                "Chunk plan is empty - provide at least one chunk with files.",
            ),
            MergesError::NoFiles => String::from_str("No files provided."),
            MergesError::UnknownChunk { name, available } => {
                let mut r = String::from_str("No chunk named '");
                r.append(name.as_str());
                r.append("'. Available chunks: ");
                let listed = text::join_commas(available);
                r.append(listed.as_str());
                r
            },
            MergesError::FileNotInDiff { file } => {
                let mut r = String::from_str("File '");
                r.append(file.as_str());
                r.append("' is not in the diff against the base branch.");
                r
            },
            MergesError::DuplicateFile { file } => {
                let mut r = String::from_str("File '");
                r.append(file.as_str());
                r.append("' is assigned more than once.");
                r
            },
            MergesError::FileNotInChunk { file, chunk, members } => {
                let mut r = String::from_str("File '");
                r.append(file.as_str());
                r.append("' is not in chunk '");
                r.append(chunk.as_str());
                r.append("'. Files in chunk: ");
                let listed = text::join_commas(members);
                r.append(listed.as_str());
                r
            },
            MergesError::SameChunk { chunk } => {
                let mut r = String::from_str("Source and destination chunk are both '");
                r.append(chunk.as_str());
                r.append("'.");
                r
            },
            MergesError::UnparsableRemote { url } => {
                let mut r = String::from_str("Cannot parse GitHub owner/repo from remote URL: ");
                r.append(url.as_str());
                r
            },
        }
    }
}

} // verus!
