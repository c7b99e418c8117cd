//! The failures of a storage.

use vstd::prelude::*;
use crate::entry::{segments, PathComponent, Segment};

verus! {

/// Everything that can go wrong in a storage. Names and paths are the bytes
/// the filesystem knows them by; the cause of an I/O failure is carried as
/// the text its reporter gave.
#[derive(Debug)]
pub enum Error {
    /// A spawned task did not run to its end.
    JoinError(String),
    /// The storage root could not be prepared or listed.
    Preparing(String),
    /// The named entry is not in the directory.
    EntryNotFound(Vec<u8>),
    /// The named entry is a file where a directory was to be entered.
    EntryNotDirectory(Vec<u8>),
    /// The path holds a platform prefix.
    UnexpectedPrefix(Vec<PathComponent>),
    /// The path holds a reference to a parent directory.
    UnexpectedParent(Vec<PathComponent>),
    /// The path holds the root directory.
    UnexpectedRootDir(Vec<PathComponent>),
    /// The index of that name is larger than an index may be.
    IndexTooLarge(Vec<u8>, u64),
    /// The text of an index could not be read as a directory tree.
    ParsingIndex(String),
    /// A directory tree could not be written as text.
    SerialisingIndex(String),
    /// The index file at that path could not be written.
    WritingIndex(Vec<u8>, String),
    /// File data arrived with no file announced before it.
    UnexpectedFileData,
    /// A file was to be inserted where a directory stands.
    FileEntryExistsAsDirectory(Vec<u8>),
    /// A file was to be inserted where a different file stands.
    FileEntryExistsAsFile(Vec<u8>),
    /// A directory was to be made where a file stands.
    DirectoryEntryExistsAsFile(Vec<u8>),
    /// The provider can never admit a file of that size.
    ImpossibleFileClaim(Vec<PathComponent>, usize),
    /// The producer ended between a file and its data.
    UnexpectedEndOfContent,
    /// Something other than file data followed a file.
    ExpectedFileDataEvent,
    /// The blob at that path could not be stored.
    IOErrorAddingToStorage(Vec<u8>, String),
    /// The producer reported a failure of its own.
    ImportStreamError(String),
}

/// An error as a value: names and paths by their bytes, texts by their
/// characters.
pub enum Failure {
    JoinError(Seq<char>),
    Preparing(Seq<char>),
    EntryNotFound(Seq<u8>),
    EntryNotDirectory(Seq<u8>),
    UnexpectedPrefix(Seq<Segment>),
    UnexpectedParent(Seq<Segment>),
    UnexpectedRootDir(Seq<Segment>),
    IndexTooLarge(Seq<u8>, u64),
    ParsingIndex(Seq<char>),
    SerialisingIndex(Seq<char>),
    WritingIndex(Seq<u8>, Seq<char>),
    UnexpectedFileData,
    FileEntryExistsAsDirectory(Seq<u8>),
    FileEntryExistsAsFile(Seq<u8>),
    DirectoryEntryExistsAsFile(Seq<u8>),
    ImpossibleFileClaim(Seq<Segment>, usize),
    UnexpectedEndOfContent,
    ExpectedFileDataEvent,
    IOErrorAddingToStorage(Seq<u8>, Seq<char>),
    ImportStreamError(Seq<char>),
}

impl View for Error {
    type V = Failure;

    open spec fn view(&self) -> Failure {
        match self {
            Error::JoinError(s) => Failure::JoinError(s@),
            Error::Preparing(s) => Failure::Preparing(s@),
            Error::EntryNotFound(n) => Failure::EntryNotFound(n@),
            Error::EntryNotDirectory(n) => Failure::EntryNotDirectory(n@),
            Error::UnexpectedPrefix(p) => Failure::UnexpectedPrefix(segments(p@)),
            Error::UnexpectedParent(p) => Failure::UnexpectedParent(segments(p@)),
            Error::UnexpectedRootDir(p) => Failure::UnexpectedRootDir(segments(p@)),
            Error::IndexTooLarge(n, len) => Failure::IndexTooLarge(n@, *len),
            Error::ParsingIndex(s) => Failure::ParsingIndex(s@),
            Error::SerialisingIndex(s) => Failure::SerialisingIndex(s@),
            Error::WritingIndex(p, s) => Failure::WritingIndex(p@, s@),
            Error::UnexpectedFileData => Failure::UnexpectedFileData,
            Error::FileEntryExistsAsDirectory(n) => Failure::FileEntryExistsAsDirectory(n@),
            Error::FileEntryExistsAsFile(n) => Failure::FileEntryExistsAsFile(n@),
            Error::DirectoryEntryExistsAsFile(n) => Failure::DirectoryEntryExistsAsFile(n@),
            Error::ImpossibleFileClaim(p, size) => Failure::ImpossibleFileClaim(
                segments(p@),
                *size,
            ),
            Error::UnexpectedEndOfContent => Failure::UnexpectedEndOfContent,
            Error::ExpectedFileDataEvent => Failure::ExpectedFileDataEvent,
            Error::IOErrorAddingToStorage(p, s) => Failure::IOErrorAddingToStorage(p@, s@),
            Error::ImportStreamError(s) => Failure::ImportStreamError(s@),
        }
    }
}

} // verus!
