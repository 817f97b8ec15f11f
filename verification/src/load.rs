//! Loading: the index and the directory's prompt files merged into the
//! list of prompts, in display order.

use vstd::prelude::*;
use crate::names::{file_stem, is_markdown_name, is_prompt_file_name, stem_of};
use crate::record::{
    file_views, prompt_views, EntryView, FileView, PromptFile, PromptIndex, PromptRecord,
    PromptView,
};
use crate::select::selected;
use crate::slug::{unslug, unslug_text};
use crate::text::{lemma_lex_le_total, lemma_lex_le_transitive, lex_le, same_text, text_le};

verus! {

/// The position of the last entry that names `file`, if there is one.
pub open spec fn last_entry_for(entries: Seq<EntryView>, file: Seq<char>) -> Option<int>
    decreases entries.len(),
{
    if entries.len() == 0 {
        None
    } else if entries.last().file == file {
        Some(entries.len() - 1)
    } else {
        last_entry_for(entries.drop_last(), file)
    }
}

/// What `last_entry_for` finds is the last entry with that file name, and
/// it finds one wherever an entry has it.
pub proof fn lemma_last_entry_for(entries: Seq<EntryView>, file: Seq<char>)
    ensures
        match last_entry_for(entries, file) {
            Some(i) => 0 <= i < entries.len() && entries[i].file == file && forall|j: int|
                i < j < entries.len() ==> (#[trigger] entries[j]).file != file,
            None => forall|j: int| 0 <= j < entries.len() ==> (#[trigger] entries[j]).file != file,
        },
    decreases entries.len(),
{
    if entries.len() > 0 && entries.last().file != file {
        lemma_last_entry_for(entries.drop_last(), file);
        assert forall|j: int| 0 <= j < entries.len() - 1 implies entries[j]
            == entries.drop_last()[j] by {}
    }
}

/// The rank of a file in display order: the position of its index entry,
/// or the number of entries for a file that the index does not name.
pub open spec fn rank(entries: Seq<EntryView>, file: Seq<char>) -> int {
    match last_entry_for(entries, file) {
        Some(i) => i,
        None => entries.len() as int,
    }
}

/// Whether a file named `a` may stand before one named `b`: by rank, and
/// among files of one rank by name.
pub open spec fn in_order(entries: Seq<EntryView>, a: Seq<char>, b: Seq<char>) -> bool {
    rank(entries, a) < rank(entries, b) || (rank(entries, a) == rank(entries, b) && lex_le(a, b))
}

/// Where `file` enters the ordered list `sorted`: behind the last file
/// that may stand before it.
pub open spec fn insert_point(entries: Seq<EntryView>, sorted: Seq<FileView>, file: FileView) -> int
    decreases sorted.len(),
{
    if sorted.len() == 0 {
        0
    } else if in_order(entries, sorted.last().name, file.name) {
        sorted.len() as int
    } else {
        insert_point(entries, sorted.drop_last(), file)
    }
}

/// The prompt files among `files` in display order: indexed files in the
/// order of the index, the others behind them by name. Files that take
/// the same place stay in the order in which `files` has them.
pub open spec fn load_order(entries: Seq<EntryView>, files: Seq<FileView>) -> Seq<FileView>
    decreases files.len(),
{
    if files.len() == 0 {
        Seq::empty()
    } else {
        let earlier = load_order(entries, files.drop_last());
        let file = files.last();
        if is_markdown_name(file.name) {
            earlier.insert(insert_point(entries, earlier, file), file)
        } else {
            earlier
        }
    }
}

/// The prompt that a file stands for: with the metadata of its index
/// entry and the file's content; without an entry, named after the file.
pub open spec fn record_for(entries: Seq<EntryView>, file: FileView) -> PromptView {
    match last_entry_for(entries, file.name) {
        Some(i) => PromptView {
            id: entries[i].id,
            title: entries[i].title,
            content: file.content,
            copied: entries[i].copied,
            searched: entries[i].searched,
        },
        None => PromptView {
            id: stem_of(file.name),
            title: unslug_text(stem_of(file.name)),
            content: file.content,
            copied: 0,
            searched: 0,
        },
    }
}

/// The prompts that a directory holding `files` shows under an index with
/// `entries`.
pub open spec fn loaded(entries: Seq<EntryView>, files: Seq<FileView>) -> Seq<PromptView> {
    Seq::new(
        load_order(entries, files).len(),
        |k: int| record_for(entries, load_order(entries, files)[k]),
    )
}

/// Finds the last entry of the index that names `file`.
pub fn find_entry(index: &PromptIndex, file: &str) -> (found: Option<usize>)
    ensures
        match found {
            Some(i) => i < index.prompts.len() && last_entry_for(index.entries(), file@) == Some(
                i as int,
            ),
            None => last_entry_for(index.entries(), file@) is None,
        },
{
    let mut i: usize = index.prompts.len();
    proof {
        assert(index.entries().take(i as int) == index.entries());
    }
    while i > 0
        invariant
            i <= index.prompts.len(),
            last_entry_for(index.entries(), file@) == last_entry_for(
                index.entries().take(i as int),
                file@,
            ),
        decreases i,
    {
        proof {
            assert(index.entries().take(i as int).drop_last() == index.entries().take(i - 1));
            assert(index.entries().take(i as int).last() == index.prompts@[i - 1]@);
        }
        if same_text(index.prompts[i - 1].file.as_str(), file) {
            return Some(i - 1);
        }
        i -= 1;
    }
    None
}

/// The rank of a file in display order.
pub fn file_rank(index: &PromptIndex, file: &str) -> (r: usize)
    ensures
        r == rank(index.entries(), file@),
{
    match find_entry(index, file) {
        Some(i) => i,
        None => index.prompts.len(),
    }
}

/// The prompt that `file` stands for under `index`.
pub fn record_of(index: &PromptIndex, file: &PromptFile) -> (prompt: PromptRecord)
    ensures
        prompt@ == record_for(index.entries(), file@),
{
    match find_entry(index, file.name.as_str()) {
        Some(i) => {
            let entry = &index.prompts[i];
            assert(index.entries()[i as int] == entry@);
            PromptRecord {
                id: entry.id.clone(),
                title: entry.title.clone(),
                content: file.content.clone(),
                copied: entry.copied,
                searched: entry.searched,
            }
        },
        None => {
            let stem = file_stem(file.name.as_str());
            let title = unslug(stem.as_str());
            PromptRecord { id: stem, title: title, content: file.content.clone(), copied: 0, searched: 0 }
        },
    }
}

/// The files that `order` picks out of `files`, in its order.
pub open spec fn picked(files: Seq<FileView>, order: Seq<usize>) -> Seq<FileView> {
    Seq::new(order.len(), |k: int| files[order[k] as int])
}

/// The positions in `files` of its prompt files, in display order.
pub fn display_order(index: &PromptIndex, files: &Vec<PromptFile>) -> (order: Vec<usize>)
    ensures
        forall|k: int| 0 <= k < order.len() ==> (#[trigger] order[k]) < files.len(),
        picked(file_views(files@), order@) == load_order(index.entries(), file_views(files@)),
{
    let ghost entries = index.entries();
    let ghost all = file_views(files@);
    let mut order: Vec<usize> = Vec::new();
    let mut ranks: Vec<usize> = Vec::new();
    let mut i: usize = 0;
    proof {
        assert(all.take(0) =~= Seq::<FileView>::empty());
        assert(picked(all, order@) =~= load_order(entries, all.take(0)));
    }
    while i < files.len()
        invariant
            i <= files.len(),
            entries == index.entries(),
            all == file_views(files@),
            order.len() == ranks.len(),
            forall|k: int| 0 <= k < order.len() ==> (#[trigger] order[k]) < i,
            forall|k: int|
                0 <= k < order.len() ==> (#[trigger] ranks[k]) == rank(
                    entries,
                    all[order[k] as int].name,
                ),
            picked(all, order@) == load_order(entries, all.take(i as int)),
        decreases files.len() - i,
    {
        let file = &files[i];
        proof {
            assert(all.take(i + 1).drop_last() == all.take(i as int));
            assert(all.take(i + 1).last() == file@);
        }
        if is_prompt_file_name(file.name.as_str()) {
            let r = file_rank(index, file.name.as_str());
            let ghost sorted = picked(all, order@);
            let mut p: usize = order.len();
            proof {
                assert(sorted.take(p as int) == sorted);
            }
            while p > 0 && !(ranks[p - 1] < r || (ranks[p - 1] == r && text_le(
                files[order[p - 1]].name.as_str(),
                file.name.as_str(),
            )))
                invariant
                    p <= order.len(),
                    order.len() == ranks.len(),
                    i < files.len(),
                    all == file_views(files@),
                    file@ == all[i as int],
                    r == rank(entries, file@.name),
                    sorted == picked(all, order@),
                    forall|k: int| 0 <= k < order.len() ==> (#[trigger] order[k]) < i,
                    forall|k: int|
                        0 <= k < order.len() ==> (#[trigger] ranks[k]) == rank(
                            entries,
                            all[order[k] as int].name,
                        ),
                    insert_point(entries, sorted, file@) == insert_point(
                        entries,
                        sorted.take(p as int),
                        file@,
                    ),
                decreases p,
            {
                proof {
                    assert(sorted.take(p as int).drop_last() == sorted.take(p - 1));
                    assert(sorted.take(p as int).last() == all[order[p - 1] as int]);
                }
                p -= 1;
            }
            proof {
                if p > 0 {
                    assert(sorted.take(p as int).last() == all[order[p - 1] as int]);
                }
                assert(insert_point(entries, sorted, file@) == p);
            }
            order.insert(p, i);
            ranks.insert(p, r);
            proof {
                assert(picked(all, order@) =~= sorted.insert(p as int, file@));
            }
        }
        i += 1;
    }
    proof {
        assert(all.take(files.len() as int) == all);
    }
    order
}

/// Merges the index with the directory's files into the list of prompts:
/// the prompt files among `files`, in display order, each with the
/// metadata of its index entry or, where it has none, named after the
/// file.
pub fn load_prompts(index: &PromptIndex, files: &Vec<PromptFile>) -> (prompts: Vec<PromptRecord>)
    ensures
        prompt_views(prompts@) == loaded(index.entries(), file_views(files@)),
{
    let order = display_order(index, files);
    let ghost shown = load_order(index.entries(), file_views(files@));
    let mut prompts: Vec<PromptRecord> = Vec::new();
    let mut k: usize = 0;
    while k < order.len()
        invariant
            k <= order.len(),
            prompts.len() == k,
            forall|j: int| 0 <= j < order.len() ==> (#[trigger] order[j]) < files.len(),
            shown == picked(file_views(files@), order@),
            forall|j: int|
                0 <= j < k ==> (#[trigger] prompts[j])@ == record_for(index.entries(), shown[j]),
        decreases order.len() - k,
    {
        let file = &files[order[k]];
        proof {
            assert(shown[k as int] == file@);
        }
        let prompt = record_of(index, file);
        prompts.push(prompt);
        k += 1;
    }
    proof {
        assert(prompt_views(prompts@) =~= loaded(index.entries(), file_views(files@)));
    }
    prompts
}

/// Of two files one may stand before the other.
pub proof fn lemma_in_order_total(entries: Seq<EntryView>, a: Seq<char>, b: Seq<char>)
    ensures
        in_order(entries, a, b) || in_order(entries, b, a),
{
    lemma_lex_le_total(a, b);
}

/// What may stand before a file may stand before all that the file may
/// stand before.
pub proof fn lemma_in_order_transitive(
    entries: Seq<EntryView>,
    a: Seq<char>,
    b: Seq<char>,
    c: Seq<char>,
)
    requires
        in_order(entries, a, b),
        in_order(entries, b, c),
    ensures
        in_order(entries, a, c),
{
    if rank(entries, a) == rank(entries, b) && rank(entries, b) == rank(entries, c) {
        lemma_lex_le_transitive(a, b, c);
    }
}

/// Every file of `files` may stand before all that follow it.
pub open spec fn ordered(entries: Seq<EntryView>, files: Seq<FileView>) -> bool {
    forall|i: int, j: int|
        0 <= i < j < files.len() ==> in_order(entries, #[trigger] files[i].name, #[trigger] files[j].name)
}

/// The insert point lies in the list; the file behind which it lies may
/// stand before the new file, and none of those behind it may.
pub proof fn lemma_insert_point(entries: Seq<EntryView>, sorted: Seq<FileView>, file: FileView)
    ensures
        0 <= insert_point(entries, sorted, file) <= sorted.len(),
        insert_point(entries, sorted, file) > 0 ==> in_order(
            entries,
            sorted[insert_point(entries, sorted, file) - 1].name,
            file.name,
        ),
        forall|j: int|
            insert_point(entries, sorted, file) <= j < sorted.len() ==> !in_order(
                entries,
                (#[trigger] sorted[j]).name,
                file.name,
            ),
    decreases sorted.len(),
{
    if sorted.len() > 0 && !in_order(entries, sorted.last().name, file.name) {
        lemma_insert_point(entries, sorted.drop_last(), file);
        let p = insert_point(entries, sorted.drop_last(), file);
        assert forall|j: int| p <= j < sorted.len() implies !in_order(
            entries,
            (#[trigger] sorted[j]).name,
            file.name,
        ) by {
            if j < sorted.len() - 1 {
                assert(sorted[j] == sorted.drop_last()[j]);
            }
        }
        if p > 0 {
            assert(sorted[p - 1] == sorted.drop_last()[p - 1]);
        }
    }
}

/// The prompt files among `files`, in the order of `files`.
pub open spec fn markdown_files(files: Seq<FileView>) -> Seq<FileView> {
    selected(files, |file: FileView| is_markdown_name(file.name))
}

/// Display order is an order: every file shown may stand before all that
/// are shown behind it.
pub proof fn lemma_load_order_sorted(entries: Seq<EntryView>, files: Seq<FileView>)
    ensures
        ordered(entries, load_order(entries, files)),
    decreases files.len(),
{
    if files.len() > 0 {
        lemma_load_order_sorted(entries, files.drop_last());
        let earlier = load_order(entries, files.drop_last());
        let file = files.last();
        if is_markdown_name(file.name) {
            lemma_insert_point(entries, earlier, file);
            let p = insert_point(entries, earlier, file);
            let shown = earlier.insert(p, file);
            assert forall|i: int, j: int| 0 <= i < j < shown.len() implies in_order(
                entries,
                #[trigger] shown[i].name,
                #[trigger] shown[j].name,
            ) by {
                if j < p {
                    assert(shown[i] == earlier[i] && shown[j] == earlier[j]);
                } else if j == p {
                    assert(shown[i] == earlier[i]);
                    if i < p - 1 {
                        lemma_in_order_transitive(
                            entries,
                            earlier[i].name,
                            earlier[p - 1].name,
                            file.name,
                        );
                    }
                } else if i < p {
                    assert(shown[i] == earlier[i] && shown[j] == earlier[j - 1]);
                } else if i == p {
                    assert(shown[j] == earlier[j - 1]);
                    lemma_in_order_total(entries, earlier[j - 1].name, file.name);
                } else {
                    assert(shown[i] == earlier[i - 1] && shown[j] == earlier[j - 1]);
                }
            }
        }
    }
}

/// Display order shows each prompt file of the directory as often as the
/// directory has it, and nothing else.
pub proof fn lemma_load_order_permutes(entries: Seq<EntryView>, files: Seq<FileView>)
    ensures
        load_order(entries, files).to_multiset() == markdown_files(files).to_multiset(),
        load_order(entries, files).len() == markdown_files(files).len(),
    decreases files.len(),
{
    if files.len() > 0 {
        lemma_load_order_permutes(entries, files.drop_last());
        let earlier = load_order(entries, files.drop_last());
        let file = files.last();
        if is_markdown_name(file.name) {
            lemma_insert_point(entries, earlier, file);
            vstd::seq_lib::to_multiset_insert(earlier, insert_point(entries, earlier, file), file);
            vstd::seq_lib::to_multiset_build(markdown_files(files.drop_last()), file);
        }
    }
}

/// Under an index without entries, as a missing or unreadable index file
/// gives it, the directory shows one prompt for each of its prompt files,
/// in the order of their names: named after the file's stem, with the
/// file's content and both counters at 0.
pub proof fn lemma_loaded_without_index(files: Seq<FileView>)
    ensures
        ({
            let shown = load_order(Seq::empty(), files);
            let prompts = loaded(Seq::empty(), files);
            &&& prompts.len() == markdown_files(files).len()
            &&& shown.to_multiset() == markdown_files(files).to_multiset()
            &&& forall|i: int, j: int|
                0 <= i < j < shown.len() ==> lex_le(
                    (#[trigger] shown[i]).name,
                    (#[trigger] shown[j]).name,
                )
            &&& forall|k: int|
                0 <= k < prompts.len() ==> #[trigger] prompts[k] == (PromptView {
                    id: stem_of(shown[k].name),
                    title: unslug_text(stem_of(shown[k].name)),
                    content: shown[k].content,
                    copied: 0,
                    searched: 0,
                })
        }),
{
    let none = Seq::<EntryView>::empty();
    let shown = load_order(none, files);
    lemma_load_order_sorted(none, files);
    lemma_load_order_permutes(none, files);
    assert forall|i: int, j: int| 0 <= i < j < shown.len() implies lex_le(
        (#[trigger] shown[i]).name,
        (#[trigger] shown[j]).name,
    ) by {
        assert(in_order(none, shown[i].name, shown[j].name));
    }
}

} // verus!
