//! Finding the file of a prompt: by its index entry, else by its title.

use vstd::prelude::*;
use crate::names::{candidate_name, file_name};
use crate::paths::{child_path, joined_path};
use crate::record::{EntryView, PromptIndex, PromptView};
use crate::save::{indexes, saved_names};
use crate::slug::{slug, slugify};
use crate::text::{holds_text, same_text, texts};

verus! {

/// The position of the first entry with this id, if there is one.
pub open spec fn first_entry_with_id(entries: Seq<EntryView>, id: Seq<char>) -> Option<int>
    decreases entries.len(),
{
    if entries.len() == 0 {
        None
    } else {
        match first_entry_with_id(entries.drop_last(), id) {
            Some(i) => Some(i),
            None => if entries.last().id == id {
                Some(entries.len() - 1)
            } else {
                None
            },
        }
    }
}

/// What `first_entry_with_id` finds is the first entry with that id, and
/// it finds one wherever an entry has it.
pub proof fn lemma_first_entry_with_id(entries: Seq<EntryView>, id: Seq<char>)
    ensures
        match first_entry_with_id(entries, id) {
            Some(i) => 0 <= i < entries.len() && entries[i].id == id && forall|j: int|
                0 <= j < i ==> (#[trigger] entries[j]).id != id,
            None => forall|j: int| 0 <= j < entries.len() ==> (#[trigger] entries[j]).id != id,
        },
    decreases entries.len(),
{
    if entries.len() > 0 {
        lemma_first_entry_with_id(entries.drop_last(), id);
        assert forall|j: int| 0 <= j < entries.len() - 1 implies entries[j]
            == entries.drop_last()[j] by {}
    }
}

/// The path that the index gives for the prompt `id`, if it knows it.
pub open spec fn indexed_path(base: Seq<char>, entries: Seq<EntryView>, id: Seq<char>) -> Option<
    Seq<char>,
> {
    match first_entry_with_id(entries, id) {
        Some(i) => Some(joined_path(base, entries[i].file)),
        None => None,
    }
}

/// The path that the title alone implies: the first candidate name of
/// its slug.
pub open spec fn fallback_path(base: Seq<char>, title: Seq<char>) -> Seq<char> {
    joined_path(base, file_name(slug(title), 1))
}

/// The paths at which the prompt's file may lie, the likelier first.
pub open spec fn candidate_paths(
    base: Seq<char>,
    entries: Seq<EntryView>,
    id: Seq<char>,
    title: Seq<char>,
) -> Seq<Seq<char>> {
    match indexed_path(base, entries, id) {
        Some(path) => seq![path, fallback_path(base, title)],
        None => seq![fallback_path(base, title)],
    }
}

/// The file of the prompt, where `present` holds the paths at which a
/// file exists: the indexed path if it is present, else the path implied
/// by the title if that is present, else none.
pub open spec fn resolved_path(
    base: Seq<char>,
    entries: Seq<EntryView>,
    id: Seq<char>,
    title: Seq<char>,
    present: Seq<Seq<char>>,
) -> Option<Seq<char>> {
    let fallback = fallback_path(base, title);
    match indexed_path(base, entries, id) {
        Some(path) if present.contains(path) => Some(path),
        _ => if present.contains(fallback) {
            Some(fallback)
        } else {
            None
        },
    }
}

/// What `get_prompt_path` answers for a prompt without a file.
pub open spec fn not_found_yet() -> Seq<char> {
    "Prompt file not found yet. Try again after autosave."@
}

/// Finds the first entry of the index with this id.
pub fn find_by_id(index: &PromptIndex, prompt_id: &str) -> (found: Option<usize>)
    ensures
        match found {
            Some(i) => i < index.prompts.len() && first_entry_with_id(index.entries(), prompt_id@)
                == Some(i as int),
            None => first_entry_with_id(index.entries(), prompt_id@) is None,
        },
{
    let mut i: usize = 0;
    proof {
        assert(index.entries().take(0) =~= Seq::<EntryView>::empty());
    }
    while i < index.prompts.len()
        invariant
            i <= index.prompts.len(),
            first_entry_with_id(index.entries().take(i as int), prompt_id@) is None,
        decreases index.prompts.len() - i,
    {
        proof {
            assert(index.entries().take(i + 1).drop_last() == index.entries().take(i as int));
            assert(index.entries().take(i + 1).last() == index.prompts@[i as int]@);
        }
        if same_text(index.prompts[i].id.as_str(), prompt_id) {
            proof {
                lemma_first_found_stays(index.entries(), prompt_id@, i + 1);
            }
            return Some(i);
        }
        i += 1;
    }
    proof {
        assert(index.entries().take(index.prompts.len() as int) == index.entries());
    }
    None
}

/// An entry found among the first `n` entries is the one found among all.
pub proof fn lemma_first_found_stays(entries: Seq<EntryView>, id: Seq<char>, n: int)
    requires
        0 <= n <= entries.len(),
        first_entry_with_id(entries.take(n), id) is Some,
    ensures
        first_entry_with_id(entries, id) == first_entry_with_id(entries.take(n), id),
    decreases entries.len(),
{
    if n < entries.len() {
        assert(entries.drop_last().take(n) == entries.take(n));
        lemma_first_found_stays(entries.drop_last(), id, n);
    } else {
        assert(entries.take(n) == entries);
    }
}

/// The paths to probe for the prompt's file, the likelier first.
pub fn lookup_candidates(
    base: &str,
    index: &PromptIndex,
    prompt_id: &str,
    title: &str,
) -> (paths: Vec<String>)
    ensures
        texts(paths@) == candidate_paths(base@, index.entries(), prompt_id@, title@),
{
    let mut paths: Vec<String> = Vec::new();
    match find_by_id(index, prompt_id) {
        Some(i) => {
            assert(index.entries()[i as int] == index.prompts@[i as int]@);
            paths.push(child_path(base, index.prompts[i].file.as_str()));
        },
        None => {},
    }
    let stem = slugify(title);
    let name = candidate_name(stem.as_str(), 1);
    paths.push(child_path(base, name.as_str()));
    proof {
        assert(texts(paths@) =~= candidate_paths(base@, index.entries(), prompt_id@, title@));
    }
    paths
}

/// The file of a prompt under the directory `base`, where `present` holds
/// the paths, among those to probe, at which a file exists.
pub fn prompt_file_for(
    base: &str,
    index: &PromptIndex,
    prompt_id: &str,
    title: &str,
    present: &Vec<String>,
) -> (found: Option<String>)
    ensures
        match found {
            Some(path) => resolved_path(
                base@,
                index.entries(),
                prompt_id@,
                title@,
                texts(present@),
            ) == Some(path@),
            None => resolved_path(base@, index.entries(), prompt_id@, title@, texts(present@))
                is None,
        },
{
    match find_by_id(index, prompt_id) {
        Some(i) => {
            assert(index.entries()[i as int] == index.prompts@[i as int]@);
            let path = child_path(base, index.prompts[i].file.as_str());
            if holds_text(present, path.as_str()) {
                return Some(path);
            }
        },
        None => {},
    }
    let stem = slugify(title);
    let name = candidate_name(stem.as_str(), 1);
    let fallback = child_path(base, name.as_str());
    if holds_text(present, fallback.as_str()) {
        Some(fallback)
    } else {
        None
    }
}

/// The path of a prompt's file, or the message that it has none yet: the
/// caller may ask again once the prompt has been saved.
pub fn get_prompt_path(
    base: &str,
    index: &PromptIndex,
    prompt_id: &str,
    title: &str,
    present: &Vec<String>,
) -> (answer: Result<String, String>)
    ensures
        match answer {
            Ok(path) => resolved_path(
                base@,
                index.entries(),
                prompt_id@,
                title@,
                texts(present@),
            ) == Some(path@),
            Err(message) => resolved_path(
                base@,
                index.entries(),
                prompt_id@,
                title@,
                texts(present@),
            ) is None && message@ == not_found_yet(),
        },
{
    match prompt_file_for(base, index, prompt_id, title, present) {
        Some(path) => Ok(path),
        None => Err("Prompt file not found yet. Try again after autosave.".to_owned()),
    }
}

/// After a save, a prompt is found by its id at the file it was saved
/// to, whatever title is asked for, as long as that file is present and no
/// earlier prompt of the list has the same id.
pub proof fn lemma_saved_prompt_resolves(
    base: Seq<char>,
    prompts: Seq<PromptView>,
    entries: Seq<EntryView>,
    i: int,
    title: Seq<char>,
    present: Seq<Seq<char>>,
)
    requires
        indexes(entries, prompts),
        0 <= i < prompts.len(),
        forall|j: int| 0 <= j < i ==> (#[trigger] prompts[j]).id != prompts[i].id,
        present.contains(joined_path(base, saved_names(prompts)[i])),
    ensures
        resolved_path(base, entries, prompts[i].id, title, present) == Some(
            joined_path(base, saved_names(prompts)[i]),
        ),
{
    lemma_first_entry_with_id(entries, prompts[i].id);
    assert(entries[i].id == prompts[i].id);
    match first_entry_with_id(entries, prompts[i].id) {
        Some(k) => {
            assert(entries[k].id == prompts[k].id);
        },
        None => {},
    }
}

/// A prompt whose id the index does not know is found by its title alone:
/// at the first candidate name of the title's slug, if a file is there.
pub proof fn lemma_unknown_id_resolves_by_title(
    base: Seq<char>,
    entries: Seq<EntryView>,
    id: Seq<char>,
    title: Seq<char>,
    present: Seq<Seq<char>>,
)
    requires
        forall|j: int| 0 <= j < entries.len() ==> (#[trigger] entries[j]).id != id,
    ensures
        resolved_path(base, entries, id, title, present) == if present.contains(
            fallback_path(base, title),
        ) {
            Some(fallback_path(base, title))
        } else {
            None
        },
{
    lemma_first_entry_with_id(entries, id);
}

} // verus!
