//! The data of the store: prompts, index entries, the index and files.

use vstd::prelude::*;

verus! {

/// A prompt as callers see it. `id` identifies it; the title may change.
#[derive(Debug, Clone)]
pub struct PromptRecord {
    pub id: String,
    pub title: String,
    pub content: String,
    pub copied: u32,
    pub searched: u32,
}

/// What a `PromptRecord` holds, as plain values.
pub struct PromptView {
    pub id: Seq<char>,
    pub title: Seq<char>,
    pub content: Seq<char>,
    pub copied: u32,
    pub searched: u32,
}

impl View for PromptRecord {
    type V = PromptView;

    open spec fn view(&self) -> PromptView {
        PromptView {
            id: self.id@,
            title: self.title@,
            content: self.content@,
            copied: self.copied,
            searched: self.searched,
        }
    }
}

/// One line of the index: where a prompt's body lies, and its metadata.
#[derive(Debug, Clone)]
pub struct PromptIndexEntry {
    pub id: String,
    pub file: String,
    pub title: String,
    pub copied: u32,
    pub searched: u32,
    pub updated_at: u64,
}

/// What a `PromptIndexEntry` holds, as plain values.
pub struct EntryView {
    pub id: Seq<char>,
    pub file: Seq<char>,
    pub title: Seq<char>,
    pub copied: u32,
    pub searched: u32,
    pub updated_at: u64,
}

impl View for PromptIndexEntry {
    type V = EntryView;

    open spec fn view(&self) -> EntryView {
        EntryView {
            id: self.id@,
            file: self.file@,
            title: self.title@,
            copied: self.copied,
            searched: self.searched,
            updated_at: self.updated_at,
        }
    }
}

/// The index file: a format tag and the entries in display order.
#[derive(Debug, Clone)]
pub struct PromptIndex {
    pub version: u8,
    pub prompts: Vec<PromptIndexEntry>,
}

/// The entries of a list of index entries, as plain values.
pub open spec fn entry_views(entries: Seq<PromptIndexEntry>) -> Seq<EntryView> {
    Seq::new(entries.len(), |i: int| entries[i]@)
}

/// The records of a list, as plain values.
pub open spec fn prompt_views(prompts: Seq<PromptRecord>) -> Seq<PromptView> {
    Seq::new(prompts.len(), |i: int| prompts[i]@)
}

impl PromptIndex {
    /// The entries, as plain values.
    pub open spec fn entries(&self) -> Seq<EntryView> {
        entry_views(self.prompts@)
    }

    /// The index that stands in for a missing or unreadable one.
    pub fn empty() -> (index: PromptIndex)
        ensures
            index.version == 1,
            index.entries() == Seq::<EntryView>::empty(),
    {
        let index = PromptIndex { version: 1, prompts: Vec::new() };
        proof {
            assert(index.entries() =~= Seq::<EntryView>::empty());
        }
        index
    }
}

/// A file of the storage directory: its name there and its text.
#[derive(Debug, Clone)]
pub struct PromptFile {
    pub name: String,
    pub content: String,
}

/// What a `PromptFile` holds, as plain values.
pub struct FileView {
    pub name: Seq<char>,
    pub content: Seq<char>,
}

impl View for PromptFile {
    type V = FileView;

    open spec fn view(&self) -> FileView {
        FileView { name: self.name@, content: self.content@ }
    }
}

/// The files of a list, as plain values.
pub open spec fn file_views(files: Seq<PromptFile>) -> Seq<FileView> {
    Seq::new(files.len(), |i: int| files[i]@)
}

/// The index to work with, given what reading and parsing the index file
/// gave: a missing or malformed index counts as an empty one.
pub fn read_index(parsed: Option<PromptIndex>) -> (index: PromptIndex)
    ensures
        parsed is Some ==> index == parsed->0,
        parsed is None ==> index.version == 1 && index.entries() == Seq::<EntryView>::empty(),
{
    match parsed {
        Some(index) => index,
        None => PromptIndex::empty(),
    }
}

} // verus!
