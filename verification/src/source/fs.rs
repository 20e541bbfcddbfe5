//! The capability interface that every backend offers, and the values that
//! cross it.

use vstd::prelude::*;

verus! {

/// A file as a backend hands it out: its name and its whole content.
#[derive(Debug, PartialEq, Eq)]
pub struct File {
    pub name: String,
    pub data: Vec<u8>,
}

impl File {
    pub fn new(name: String, data: Vec<u8>) -> (file: Self)
        ensures
            file.name == name,
            file.data == data,
    {
        File { name, data }
    }
}

impl Clone for File {
    fn clone(&self) -> (copy: Self)
        ensures
            copy.name@ == self.name@,
            copy.data@ == self.data@,
    {
        let copy = File { name: self.name.clone(), data: self.data.clone() };
        assert(copy.data@ == self.data@);
        copy
    }
}

/// One line of a directory listing: what kind of child it is, and its name.
/// The content of a file is not part of a listing.
#[derive(Debug, PartialEq, Eq)]
pub enum DirEntry {
    File { name: String },
    Folder { name: String },
}

/// What a [`DirEntry`] is in contracts.
pub enum Entry {
    File { name: Seq<char> },
    Folder { name: Seq<char> },
}

impl Entry {
    pub open spec fn name(self) -> Seq<char> {
        match self {
            Entry::File { name } => name,
            Entry::Folder { name } => name,
        }
    }
}

impl View for DirEntry {
    type V = Entry;

    open spec fn view(&self) -> Entry {
        match self {
            DirEntry::File { name } => Entry::File { name: name@ },
            DirEntry::Folder { name } => Entry::Folder { name: name@ },
        }
    }
}

impl Clone for DirEntry {
    fn clone(&self) -> (copy: Self)
        ensures
            copy@ == self@,
    {
        match self {
            DirEntry::File { name } => DirEntry::File { name: name.clone() },
            DirEntry::Folder { name } => DirEntry::Folder { name: name.clone() },
        }
    }
}

/// Why an operation failed. Every variant but the last carries the path, or
/// the part of it, that the failure is about.
#[derive(Debug, PartialEq, Eq)]
pub enum FsError {
    /// A segment of the path, intermediate or last, does not exist.
    NotFound { path: String },
    /// A file stands where the path needs a folder.
    NotADirectory { path: String },
    /// The path leads to a folder where a file was asked for.
    NotAFile { path: String },
    /// A directory entry is neither a file nor a folder.
    UnsupportedEntryKind { path: String },
    /// The name of a directory entry is not valid text.
    EncodingError { path: String },
    /// The host refused or failed the operation.
    IoFailure { message: String },
}

/// What an [`FsError`] is in contracts.
pub enum Failure {
    NotFound { path: Seq<char> },
    NotADirectory { path: Seq<char> },
    NotAFile { path: Seq<char> },
    UnsupportedEntryKind { path: Seq<char> },
    EncodingError { path: Seq<char> },
    IoFailure { message: Seq<char> },
}

impl View for FsError {
    type V = Failure;

    open spec fn view(&self) -> Failure {
        match self {
            FsError::NotFound { path } => Failure::NotFound { path: path@ },
            FsError::NotADirectory { path } => Failure::NotADirectory { path: path@ },
            FsError::NotAFile { path } => Failure::NotAFile { path: path@ },
            FsError::UnsupportedEntryKind { path } => Failure::UnsupportedEntryKind { path: path@ },
            FsError::EncodingError { path } => Failure::EncodingError { path: path@ },
            FsError::IoFailure { message } => Failure::IoFailure { message: message@ },
        }
    }
}

impl Clone for FsError {
    fn clone(&self) -> (copy: Self)
        ensures
            copy@ == self@,
    {
        match self {
            FsError::NotFound { path } => FsError::NotFound { path: path.clone() },
            FsError::NotADirectory { path } => FsError::NotADirectory { path: path.clone() },
            FsError::NotAFile { path } => FsError::NotAFile { path: path.clone() },
            FsError::UnsupportedEntryKind { path } => FsError::UnsupportedEntryKind {
                path: path.clone(),
            },
            FsError::EncodingError { path } => FsError::EncodingError { path: path.clone() },
            FsError::IoFailure { message } => FsError::IoFailure { message: message.clone() },
        }
    }
}

/// The six operations of a filesystem. Paths are relative and their names
/// are separated by `/`. An operation either succeeds or fails with one
/// error; none panics on a path that leads nowhere or to the wrong kind of
/// thing. Each backend states in its own impl what its operations do.
pub trait FileSystem {
    /// The name and the whole content of the file at the path. Fails with
    /// `NotAFile` where the path leads to a folder, with `NotFound` where a
    /// name of the path does not exist.
    fn read_file(&self, relative_file_path: &str) -> Result<File, FsError>;

    /// Creates the file at the path, or replaces its whole content, in a
    /// folder that exists already. Fails with `NotFound` or `NotADirectory`
    /// where the names before the last do not lead to a folder.
    fn write_file(&mut self, relative_file_path: &str, file_data: Vec<u8>) -> Result<
        (),
        FsError,
    >;

    /// Makes sure that every name of the path is a folder, and creates
    /// those that are missing. Fails where one of the names is a file.
    fn create_dir(&mut self, relative_dir_path: &str) -> Result<(), FsError>;

    /// One entry for each child of the folder at the path. Fails with
    /// `NotADirectory` where the path leads to a file.
    fn read_dir(&self, relative_dir_path: &str) -> Result<Vec<DirEntry>, FsError>;

    /// Removes the folder at the path with all that it holds. Fails with
    /// `NotFound` where the path leads nowhere.
    fn remove_dir(&mut self, relative_dir_path: &str) -> Result<(), FsError>;

    /// Removes the file at the path. Fails with `NotFound` where the path
    /// leads nowhere.
    fn remove_file(&mut self, relative_file_path: &str) -> Result<(), FsError>;
}

} // verus!
