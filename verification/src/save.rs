//! Saving: from the full list of prompts and the directory's listing to
//! the files to write, the files to delete and the new index.

use vstd::prelude::*;
use crate::clock::now_unix_secs;
use crate::names::{
    handed_out, is_markdown_name, is_prompt_file_name, lemma_handed_out_distinct, unique_filename,
};
use crate::record::{
    entry_views, file_views, prompt_views, EntryView, FileView, PromptFile, PromptIndex,
    PromptIndexEntry, PromptRecord, PromptView,
};
use crate::select::selected;
use crate::slug::{slug, slugify};
use crate::text::{holds_text, texts};

verus! {

/// The slugs of a list of titles.
pub open spec fn slugs_of(titles: Seq<Seq<char>>) -> Seq<Seq<char>> {
    Seq::new(titles.len(), |i: int| slug(titles[i]))
}

/// The file names given to prompts with these titles, in order: each gets
/// the first candidate of its slug that no earlier prompt of the list got.
pub open spec fn assigned_names(titles: Seq<Seq<char>>) -> Seq<Seq<char>> {
    handed_out(Seq::empty(), slugs_of(titles))
}

/// Every title gets one name; the names differ from each other and end
/// in `.md`.
pub proof fn lemma_assigned_names_distinct(titles: Seq<Seq<char>>)
    ensures
        assigned_names(titles).len() == titles.len(),
        assigned_names(titles).no_duplicates(),
        forall|i: int|
            0 <= i < titles.len() ==> is_markdown_name(#[trigger] assigned_names(titles)[i]),
{
    lemma_handed_out_distinct(Seq::empty(), slugs_of(titles));
}

/// The titles of a list of prompts.
pub open spec fn titles_of(prompts: Seq<PromptView>) -> Seq<Seq<char>> {
    Seq::new(prompts.len(), |i: int| prompts[i].title)
}

/// The file names that a save gives to `prompts`.
pub open spec fn saved_names(prompts: Seq<PromptView>) -> Seq<Seq<char>> {
    assigned_names(titles_of(prompts))
}

/// The files that a save of `prompts` writes: for each prompt its name and
/// its content.
pub open spec fn saved_files(prompts: Seq<PromptView>) -> Seq<FileView> {
    Seq::new(
        prompts.len(),
        |i: int| FileView { name: saved_names(prompts)[i], content: prompts[i].content },
    )
}

/// The index entry of a prompt saved under `file` at time `now`.
pub open spec fn entry_for(prompt: PromptView, file: Seq<char>, now: u64) -> EntryView {
    EntryView {
        id: prompt.id,
        file: file,
        title: prompt.title,
        copied: prompt.copied,
        searched: prompt.searched,
        updated_at: now,
    }
}

/// Whether `entries` is the index of a save of `prompts`: entry by entry
/// the prompt's metadata and its file name, whatever the timestamps.
pub open spec fn indexes(entries: Seq<EntryView>, prompts: Seq<PromptView>) -> bool {
    &&& entries.len() == prompts.len()
    &&& forall|i: int|
        0 <= i < entries.len() ==> #[trigger] entries[i] == entry_for(
            prompts[i],
            saved_names(prompts)[i],
            entries[i].updated_at,
        )
}

/// The Markdown files of `listing` that are not among `kept`, in the
/// listing's order.
pub open spec fn orphans(listing: Seq<Seq<char>>, kept: Seq<Seq<char>>) -> Seq<Seq<char>> {
    selected(listing, |name: Seq<char>| is_markdown_name(name) && !kept.contains(name))
}

/// What a save does to the directory: the files to write, in order, the
/// files to delete after that, and the index to write last.
#[derive(Debug, Clone)]
pub struct SavePlan {
    pub files: Vec<PromptFile>,
    pub remove: Vec<String>,
    pub index: PromptIndex,
}

/// Builds the index entry of `prompt`, saved under `file` at time `now`.
pub fn index_entry(prompt: &PromptRecord, file: &String, now: u64) -> (entry: PromptIndexEntry)
    ensures
        entry@ == entry_for(prompt@, file@, now),
{
    PromptIndexEntry {
        id: prompt.id.clone(),
        file: file.clone(),
        title: prompt.title.clone(),
        copied: prompt.copied,
        searched: prompt.searched,
        updated_at: now,
    }
}

/// The Markdown files of `listing` that a save keeping `kept` deletes.
pub fn orphan_files(listing: &Vec<String>, kept: &Vec<String>) -> (remove: Vec<String>)
    ensures
        texts(remove@) == orphans(texts(listing@), texts(kept@)),
{
    let mut remove: Vec<String> = Vec::new();
    let mut i: usize = 0;
    proof {
        assert(texts(listing@).take(0) =~= Seq::<Seq<char>>::empty());
        assert(texts(remove@) =~= Seq::<Seq<char>>::empty());
    }
    while i < listing.len()
        invariant
            i <= listing.len(),
            texts(remove@) == orphans(texts(listing@).take(i as int), texts(kept@)),
        decreases listing.len() - i,
    {
        let ghost before = texts(remove@);
        let name = &listing[i];
        proof {
            assert(texts(listing@).take(i + 1).drop_last() == texts(listing@).take(i as int));
            assert(texts(listing@).take(i + 1).last() == name@);
        }
        if is_prompt_file_name(name.as_str()) && !holds_text(kept, name.as_str()) {
            remove.push(name.clone());
            proof {
                assert(texts(remove@) =~= before.push(name@));
            }
        }
        i += 1;
    }
    proof {
        assert(texts(listing@).take(listing.len() as int) == texts(listing@));
    }
    remove
}

/// Plans the save of `prompts`, the complete new state, into a directory
/// that lists `listing`: each prompt's content goes to a file named after
/// its title, the Markdown files that no prompt was given are deleted, and
/// the index lists the prompts in their order.
pub fn save_prompts(prompts: Vec<PromptRecord>, listing: &Vec<String>) -> (plan: SavePlan)
    ensures
        file_views(plan.files@) == saved_files(prompt_views(prompts@)),
        texts(plan.remove@) == orphans(texts(listing@), saved_names(prompt_views(prompts@))),
        plan.index.version == 1,
        indexes(plan.index.entries(), prompt_views(prompts@)),
{
    let ghost all = prompt_views(prompts@);
    let mut used: Vec<String> = Vec::new();
    let mut files: Vec<PromptFile> = Vec::new();
    let mut entries: Vec<PromptIndexEntry> = Vec::new();
    let mut i: usize = 0;
    proof {
        assert(all.take(0) =~= Seq::<PromptView>::empty());
        assert(slugs_of(titles_of(all.take(0))) =~= Seq::<Seq<char>>::empty());
        assert(texts(used@) =~= Seq::<Seq<char>>::empty());
        assert(file_views(files@) =~= saved_files(all.take(0)));
    }
    while i < prompts.len()
        invariant
            i <= prompts.len(),
            all == prompt_views(prompts@),
            texts(used@) == saved_names(all.take(i as int)),
            file_views(files@) == saved_files(all.take(i as int)),
            indexes(entry_views(entries@), all.take(i as int)),
        decreases prompts.len() - i,
    {
        let prompt = &prompts[i];
        let ghost done = all.take(i as int);
        let ghost next = all.take(i + 1);
        let ghost old_files = files@;
        let ghost old_entries = entries@;
        proof {
            assert(slugs_of(titles_of(next)).drop_last() =~= slugs_of(titles_of(done)));
            assert(slugs_of(titles_of(next)).last() == slug(prompt@.title));
        }
        let stem = slugify(prompt.title.as_str());
        let name = unique_filename(stem.as_str(), &mut used);
        let entry = index_entry(prompt, &name, now_unix_secs());
        files.push(PromptFile { name: name, content: prompt.content.clone() });
        entries.push(entry);
        proof {
            let names = saved_names(next);
            lemma_assigned_names_distinct(titles_of(done));
            assert(names == saved_names(done).push(name@));
            assert(file_views(old_files).len() == done.len());
            assert(entry_views(old_entries).len() == done.len());
            assert(files@ == old_files.push(files@[i as int]));
            assert(entries@ == old_entries.push(entries@[i as int]));
            assert(file_views(files@) =~= saved_files(next)) by {
                assert forall|j: int| 0 <= j < next.len() implies file_views(files@)[j]
                    == saved_files(next)[j] by {
                    if j < i {
                        assert(file_views(files@)[j] == file_views(old_files)[j]);
                        assert(saved_names(done)[j] == names[j]);
                        assert(done[j] == next[j]);
                    }
                }
            }
            assert(indexes(entry_views(entries@), next)) by {
                assert forall|j: int| 0 <= j < next.len() implies #[trigger] entry_views(
                    entries@,
                )[j] == entry_for(next[j], names[j], entry_views(entries@)[j].updated_at) by {
                    if j < i {
                        assert(entry_views(entries@)[j] == entry_views(old_entries)[j]);
                        assert(saved_names(done)[j] == names[j]);
                        assert(done[j] == next[j]);
                    }
                }
            }
        }
        i += 1;
    }
    proof {
        assert(all.take(prompts.len() as int) == all);
    }
    let remove = orphan_files(listing, &used);
    SavePlan { files: files, remove: remove, index: PromptIndex { version: 1, prompts: entries } }
}

} // verus!
