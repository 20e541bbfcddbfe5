//! What the backend on the host's disk decides for itself. Reading the disk
//! is the caller's part: it reports what it read, and the functions here say
//! what that makes of a listing.

use crate::source::fs::{DirEntry, Entry, Failure, FsError};
use vstd::prelude::*;

verus! {

/// One entry of a directory as the host reports it: its name, if the name
/// is valid text, and what the host says it is. A symbolic link is neither
/// a folder nor a file.
#[derive(Debug)]
pub struct HostEntry {
    pub name: Option<String>,
    pub is_dir: bool,
    pub is_file: bool,
}

/// What the host says went wrong, as far as the library tells its failures
/// apart.
#[derive(Debug, Clone, Copy, PartialEq, Eq)]
pub enum HostFailure {
    /// Nothing is there under that path.
    NotFound,
    /// A name on the way is not that of a directory.
    NotADirectory,
    /// The path leads to a directory where a file was asked for.
    IsADirectory,
    /// Anything else: permissions, the device, and the like.
    Other,
}

/// The library's error for a failure of the host at `path`; `message` is
/// what the host said, kept where the library has no error of its own.
pub open spec fn failure_of_host(
    failure: HostFailure,
    path: Seq<char>,
    message: Seq<char>,
) -> Failure {
    match failure {
        HostFailure::NotFound => Failure::NotFound { path },
        HostFailure::NotADirectory => Failure::NotADirectory { path },
        HostFailure::IsADirectory => Failure::NotAFile { path },
        HostFailure::Other => Failure::IoFailure { message },
    }
}

/// The library's error for a failure of the host.
pub fn host_error(failure: HostFailure, path: &str, message: String) -> (e: FsError)
    ensures
        e@ == failure_of_host(failure, path@, message@),
{
    match failure {
        HostFailure::NotFound => FsError::NotFound { path: path.to_owned() },
        HostFailure::NotADirectory => FsError::NotADirectory { path: path.to_owned() },
        HostFailure::IsADirectory => FsError::NotAFile { path: path.to_owned() },
        HostFailure::Other => FsError::IoFailure { message },
    }
}

/// What becomes of an entry of the directory at `dir_path`: a line of the
/// listing, or the reason why there is no listing.
pub open spec fn line_of(dir_path: Seq<char>, entry: HostEntry) -> Result<Entry, Failure> {
    match entry.name {
        None => Err(Failure::EncodingError { path: dir_path }),
        Some(name) => if entry.is_dir {
            Ok(Entry::Folder { name: name@ })
        } else if entry.is_file {
            Ok(Entry::File { name: name@ })
        } else {
            Err(Failure::UnsupportedEntryKind { path: dir_path })
        },
    }
}

/// What becomes of an attempt to read an entry: the failure of the attempt,
/// or what becomes of the entry.
pub open spec fn outcome_of(dir_path: Seq<char>, read: Result<HostEntry, FsError>) -> Result<
    Entry,
    Failure,
> {
    match read {
        Err(e) => Err(e@),
        Ok(entry) => line_of(dir_path, entry),
    }
}

/// The line of the listing for one entry of the directory at `dir_path`.
/// An entry whose name is not valid text is refused, and so is one that is
/// neither a folder nor a file.
pub fn classify_entry(dir_path: &str, entry: &HostEntry) -> (line: Result<DirEntry, FsError>)
    ensures
        match line_of(dir_path@, *entry) {
            Ok(expected) => line matches Ok(made) && made@ == expected,
            Err(failure) => line matches Err(e) && e@ == failure,
        },
{
    match &entry.name {
        None => Err(FsError::EncodingError { path: dir_path.to_owned() }),
        Some(name) => if entry.is_dir {
            Ok(DirEntry::Folder { name: name.clone() })
        } else if entry.is_file {
            Ok(DirEntry::File { name: name.clone() })
        } else {
            Err(FsError::UnsupportedEntryKind { path: dir_path.to_owned() })
        },
    }
}

/// The listing of the directory at `dir_path` from what was read of it, in
/// the order in which it was read. The first entry that could not be read,
/// or that is refused, decides: its failure is the failure of the listing.
pub fn list_entries(dir_path: &str, reads: &Vec<Result<HostEntry, FsError>>) -> (listed: Result<
    Vec<DirEntry>,
    FsError,
>)
    ensures
        match listed {
            Ok(lines) => lines@.len() == reads@.len() && forall|i: int|
                0 <= i < reads@.len() ==> outcome_of(dir_path@, #[trigger] reads@[i]) == Ok::<
                    Entry,
                    Failure,
                >(lines@[i]@),
            Err(e) => exists|k: int|
                0 <= k < reads@.len() && outcome_of(dir_path@, #[trigger] reads@[k]) == Err::<
                    Entry,
                    Failure,
                >(e@) && forall|j: int|
                    0 <= j < k ==> outcome_of(dir_path@, #[trigger] reads@[j]) is Ok,
        },
{
    let mut lines: Vec<DirEntry> = Vec::new();
    let mut i: usize = 0;
    while i < reads.len()
        invariant
            i <= reads.len(),
            lines@.len() == i,
            forall|j: int|
                0 <= j < i ==> outcome_of(dir_path@, #[trigger] reads@[j]) == Ok::<Entry, Failure>(
                    lines@[j]@,
                ),
        decreases reads.len() - i,
    {
        match &reads[i] {
            Err(e) => {
                return Err(e.clone());
            },
            Ok(entry) => match classify_entry(dir_path, entry) {
                Err(e) => {
                    return Err(e);
                },
                Ok(line) => {
                    lines.push(line);
                },
            },
        }
        i = i + 1;
    }
    Ok(lines)
}

} // verus!
