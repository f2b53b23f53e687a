//! What is known of a file on a server.
use crate::iri::same_place;
use crate::text::{optional_text, texts};
use vstd::prelude::*;

verus! {

/// The kind of a file.
#[derive(Debug, PartialEq, Eq)]
pub enum FileType {
    /// An ordinary file.
    Regular,
    /// A directory, with the identifiers of the files in it.
    Directory { children: Vec<String> },
    /// A symbolic link, with what it leads to.
    Symlink { target: String },
}

/// The kind of a file, as text.
pub enum FileTypeView {
    Regular,
    Directory { children: Seq<Seq<char>> },
    Symlink { target: Seq<char> },
}

impl View for FileType {
    type V = FileTypeView;

    open spec fn view(&self) -> FileTypeView {
        match *self {
            FileType::Regular => FileTypeView::Regular,
            FileType::Directory { children } => FileTypeView::Directory {
                children: texts(children@),
            },
            FileType::Symlink { target } => FileTypeView::Symlink { target: target@ },
        }
    }
}

/// What a server says of a file, besides its name and kind.
pub struct Attributes {
    /// The time of the last change, in seconds since the start of 1970 (UTC).
    pub modification_date: Option<i64>,
    /// The size in bytes.
    pub size: Option<usize>,
    pub owner: Option<String>,
    pub group: Option<String>,
}

/// Attributes of a file, as text.
pub struct AttributesView {
    pub modification_date: Option<i64>,
    pub size: Option<usize>,
    pub owner: Option<Seq<char>>,
    pub group: Option<Seq<char>>,
}

impl View for Attributes {
    type V = AttributesView;

    open spec fn view(&self) -> AttributesView {
        AttributesView {
            modification_date: self.modification_date,
            size: self.size,
            owner: optional_text(self.owner),
            group: optional_text(self.group),
        }
    }
}

/// A file on a server.
#[derive(Debug, PartialEq, Eq)]
pub struct FileMetadata {
    /// The identifier of the file: its IRI.
    pub id: Option<String>,
    /// The time of the last change, in seconds since the start of 1970 (UTC).
    pub modification_date: Option<i64>,
    /// The size in bytes.
    pub size: Option<usize>,
    pub owner: Option<String>,
    pub group: Option<String>,
    pub filetype: FileType,
}

/// A file on a server, as text.
pub struct FileMetadataView {
    pub id: Option<Seq<char>>,
    pub about: AttributesView,
    pub filetype: FileTypeView,
}

impl View for FileMetadata {
    type V = FileMetadataView;

    open spec fn view(&self) -> FileMetadataView {
        FileMetadataView {
            id: optional_text(self.id),
            about: AttributesView {
                modification_date: self.modification_date,
                size: self.size,
                owner: optional_text(self.owner),
                group: optional_text(self.group),
            },
            filetype: self.filetype@,
        }
    }
}

/// Files on a server, as text.
pub open spec fn entry_views(entries: Seq<FileMetadata>) -> Seq<FileMetadataView> {
    entries.map_values(|entry: FileMetadata| entry@)
}

/// Whether each of some files is identified as one of the place that `host` names.
pub open spec fn all_in_place(entries: Seq<FileMetadataView>, host: Seq<char>) -> bool {
    forall|i: int|
        0 <= i < entries.len() ==> (#[trigger] entries[i]).id is Some && same_place(
            entries[i].id->Some_0,
            host,
        )
}

/// The file with an identifier, attributes and a kind.
pub open spec fn file_entry(
    id: Seq<char>,
    about: AttributesView,
    filetype: FileTypeView,
) -> FileMetadataView {
    FileMetadataView { id: Some(id), about, filetype }
}

impl FileMetadata {
    /// The file with an identifier, attributes and a kind.
    pub fn new(id: String, about: Attributes, filetype: FileType) -> (r: FileMetadata)
        ensures
            r@ == file_entry(id@, about@, filetype@),
    {
        FileMetadata {
            id: Some(id),
            modification_date: about.modification_date,
            size: about.size,
            owner: about.owner,
            group: about.group,
            filetype,
        }
    }
}

/// What is known of attributes is what they hold.
pub proof fn law_attributes(about: Attributes)
    ensures
        about@.modification_date == about.modification_date,
        about@.size == about.size,
        about@.owner is Some <==> about.owner is Some,
        about.owner matches Some(owner) ==> about@.owner == Some(owner@),
        about@.group is Some <==> about.group is Some,
        about.group matches Some(group) ==> about@.group == Some(group@),
{
}

/// What is known of a file is what its metadata holds.
pub proof fn law_file_metadata(entry: FileMetadata)
    ensures
        entry@.id is Some <==> entry.id is Some,
        entry.id matches Some(id) ==> entry@.id == Some(id@),
        entry@.about.modification_date == entry.modification_date,
        entry@.about.size == entry.size,
        entry@.about.owner is Some <==> entry.owner is Some,
        entry.owner matches Some(owner) ==> entry@.about.owner == Some(owner@),
        entry@.about.group is Some <==> entry.group is Some,
        entry.group matches Some(group) ==> entry@.about.group == Some(group@),
        entry@.filetype is Regular <==> entry.filetype is Regular,
        entry.filetype matches FileType::Symlink { target } ==> entry@.filetype == (
        FileTypeView::Symlink { target: target@ }),
        entry.filetype matches FileType::Directory { children } ==> (
        entry@.filetype matches FileTypeView::Directory { children: ids } && ids.len()
            == children@.len() && forall|i: int|
            0 <= i < children@.len() ==> ids[i] == (#[trigger] children@[i])@),
{
}

/// Files as text hold what is known of each file, at its place.
pub proof fn law_entry_views(entries: Seq<FileMetadata>)
    ensures
        entry_views(entries).len() == entries.len(),
        forall|i: int| 0 <= i < entries.len() ==> entry_views(entries)[i] == (#[trigger] entries[i])@,
{
}

/// A file is made of the identifier, the attributes and the kind that it is given.
pub proof fn law_file_entry(id: Seq<char>, about: AttributesView, filetype: FileTypeView)
    ensures
        file_entry(id, about, filetype).id == Some(id),
        file_entry(id, about, filetype).about.modification_date == about.modification_date,
        file_entry(id, about, filetype).about.size == about.size,
        file_entry(id, about, filetype).about.owner == about.owner,
        file_entry(id, about, filetype).about.group == about.group,
        file_entry(id, about, filetype).filetype == filetype,
{
}

} // verus!
