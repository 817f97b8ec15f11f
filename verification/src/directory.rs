//! The storage directory as a map from file names to contents, and what a
//! save and a following load do to it.

use vstd::prelude::*;
use crate::load::{
    in_order, last_entry_for, lemma_last_entry_for, lemma_load_order_permutes,
    lemma_load_order_sorted, load_order, loaded, markdown_files, rank, record_for,
};
use crate::names::is_markdown_name;
use crate::record::{EntryView, FileView, PromptView};
use crate::save::{
    indexes, lemma_assigned_names_distinct, orphans, saved_files, saved_names, titles_of,
};
use crate::select::lemma_selected;

verus! {

/// The directory after `files` were written into `dir`, one after the
/// other: a file written later replaces one of the same name.
pub open spec fn written(dir: Map<Seq<char>, Seq<char>>, files: Seq<FileView>) -> Map<
    Seq<char>,
    Seq<char>,
>
    decreases files.len(),
{
    if files.len() == 0 {
        dir
    } else {
        written(dir, files.drop_last()).insert(files.last().name, files.last().content)
    }
}

/// The directory after a save: the files written, then the orphans
/// deleted.
pub open spec fn after_save(
    dir: Map<Seq<char>, Seq<char>>,
    files: Seq<FileView>,
    remove: Seq<Seq<char>>,
) -> Map<Seq<char>, Seq<char>> {
    written(dir, files).remove_keys(remove.to_set())
}

/// Whether `listing` names the files of `dir`, all of them and no others.
pub open spec fn lists(listing: Seq<Seq<char>>, dir: Map<Seq<char>, Seq<char>>) -> bool {
    forall|name: Seq<char>| listing.contains(name) <==> dir.dom().contains(name)
}

/// Whether `files` are the files of `dir`: each once, with its content.
pub open spec fn shows(files: Seq<FileView>, dir: Map<Seq<char>, Seq<char>>) -> bool {
    &&& forall|i: int, j: int|
        0 <= i < j < files.len() ==> (#[trigger] files[i]).name != (#[trigger] files[j]).name
    &&& forall|i: int|
        0 <= i < files.len() ==> dir.dom().contains((#[trigger] files[i]).name)
            && dir[files[i].name] == files[i].content
    &&& forall|name: Seq<char>|
        dir.dom().contains(name) ==> exists|i: int|
            0 <= i < files.len() && (#[trigger] files[i]).name == name
}

/// Writing files of different names leaves each of them with its content,
/// and every other file as it was.
pub proof fn lemma_written(dir: Map<Seq<char>, Seq<char>>, files: Seq<FileView>)
    requires
        forall|i: int, j: int|
            0 <= i < j < files.len() ==> (#[trigger] files[i]).name != (#[trigger] files[j]).name,
    ensures
        forall|i: int|
            0 <= i < files.len() ==> written(dir, files).dom().contains((#[trigger] files[i]).name)
                && written(dir, files)[files[i].name] == files[i].content,
        forall|name: Seq<char>|
            (forall|i: int| 0 <= i < files.len() ==> (#[trigger] files[i]).name != name) ==> (
            #[trigger] written(dir, files).dom().contains(name) <==> dir.dom().contains(name)) && (
            dir.dom().contains(name) ==> written(dir, files)[name] == dir[name]),
    decreases files.len(),
{
    if files.len() > 0 {
        let before = files.drop_last();
        assert forall|i: int, j: int| 0 <= i < j < before.len() implies (#[trigger] before[i]).name
            != (#[trigger] before[j]).name by {
            assert(before[i] == files[i] && before[j] == files[j]);
        }
        lemma_written(dir, before);
        assert forall|i: int| 0 <= i < files.len() implies written(dir, files).dom().contains(
            (#[trigger] files[i]).name,
        ) && written(dir, files)[files[i].name] == files[i].content by {
            if i < files.len() - 1 {
                assert(before[i] == files[i]);
                assert(files[i].name != files[files.len() - 1].name);
            }
        }
        assert forall|name: Seq<char>|
            (forall|i: int| 0 <= i < files.len() ==> (#[trigger] files[i]).name != name) implies (
        #[trigger] written(dir, files).dom().contains(name) <==> dir.dom().contains(name)) && (
        dir.dom().contains(name) ==> written(dir, files)[name] == dir[name]) by {
            assert(files[files.len() - 1].name != name);
            assert forall|i: int| 0 <= i < before.len() implies (#[trigger] before[i]).name
                != name by {
                assert(before[i] == files[i]);
            }
            assert(written(dir, before).dom().contains(name) <==> dir.dom().contains(name));
        }
    }
}

/// After a save the Markdown files of the directory are exactly the files
/// of the prompts saved, each with its prompt's content: the files of
/// prompts that are no longer in the list are gone. What is no Markdown
/// file is as it was.
pub proof fn lemma_saved_directory(
    dir: Map<Seq<char>, Seq<char>>,
    listing: Seq<Seq<char>>,
    prompts: Seq<PromptView>,
)
    requires
        lists(listing, dir),
    ensures
        ({
            let names = saved_names(prompts);
            let after = after_save(dir, saved_files(prompts), orphans(listing, names));
            &&& names.len() == prompts.len()
            &&& forall|i: int|
                0 <= i < prompts.len() ==> after.dom().contains(#[trigger] names[i])
                    && after[names[i]] == prompts[i].content
            &&& forall|name: Seq<char>|
                is_markdown_name(name) ==> (after.dom().contains(name) <==> names.contains(name))
            &&& forall|name: Seq<char>|
                !is_markdown_name(name) ==> (#[trigger] after.dom().contains(name)
                    <==> dir.dom().contains(name)) && (dir.dom().contains(name) ==> after[name]
                    == dir[name])
        }),
{
    let names = saved_names(prompts);
    let files = saved_files(prompts);
    let remove = orphans(listing, names);
    let mid = written(dir, files);
    let after = after_save(dir, files, remove);
    lemma_assigned_names_distinct(titles_of(prompts));
    lemma_written(dir, files);
    lemma_selected(listing, |name: Seq<char>| is_markdown_name(name) && !names.contains(name));
    assert forall|i: int| 0 <= i < prompts.len() implies after.dom().contains(#[trigger] names[i])
        && after[names[i]] == prompts[i].content by {
        assert(files[i].name == names[i]);
        assert(names.contains(names[i]));
        assert(!remove.contains(names[i]));
    }
    assert forall|name: Seq<char>| is_markdown_name(name) implies (after.dom().contains(name)
        <==> names.contains(name)) by {
        if names.contains(name) {
            let i = choose|i: int| 0 <= i < names.len() && names[i] == name;
            assert(after.dom().contains(names[i]));
        } else {
            assert forall|i: int| 0 <= i < files.len() implies (#[trigger] files[i]).name
                != name by {
                assert(files[i].name == names[i]);
                assert(names.contains(names[i]));
            }
            assert(mid.dom().contains(name) <==> dir.dom().contains(name));
            if dir.dom().contains(name) {
                assert(listing.contains(name));
                assert(remove.contains(name));
                assert(remove.to_set().contains(name));
            }
        }
    }
    assert forall|name: Seq<char>| !is_markdown_name(name) implies (#[trigger] after.dom().contains(
        name,
    ) <==> dir.dom().contains(name)) && (dir.dom().contains(name) ==> after[name] == dir[name]) by {
        assert forall|i: int| 0 <= i < files.len() implies (#[trigger] files[i]).name != name by {
            assert(files[i].name == names[i]);
        }
        assert(mid.dom().contains(name) <==> dir.dom().contains(name));
        assert(!remove.contains(name));
    }
}

/// Under the index of a save, the file of each prompt has the prompt's
/// place as its rank and stands for the prompt itself.
pub proof fn lemma_saved_file_found(entries: Seq<EntryView>, prompts: Seq<PromptView>, i: int)
    requires
        indexes(entries, prompts),
        0 <= i < prompts.len(),
    ensures
        last_entry_for(entries, saved_names(prompts)[i]) == Some(i),
        rank(entries, saved_names(prompts)[i]) == i,
        record_for(entries, saved_files(prompts)[i]) == prompts[i],
{
    let names = saved_names(prompts);
    lemma_assigned_names_distinct(titles_of(prompts));
    lemma_last_entry_for(entries, names[i]);
    assert(entries[i].file == names[i]);
    match last_entry_for(entries, names[i]) {
        Some(k) => {
            assert(entries[k].file == names[k]);
        },
        None => {},
    }
}

/// Every file of `files` has a lower rank than all that follow it.
pub open spec fn strictly_ranked(entries: Seq<EntryView>, files: Seq<FileView>) -> bool {
    forall|i: int, j: int|
        0 <= i < j < files.len() ==> rank(entries, (#[trigger] files[i]).name) < rank(
            entries,
            (#[trigger] files[j]).name,
        )
}

/// Two lists of the same files, both in the order of strictly rising
/// ranks, are the same list.
pub proof fn lemma_same_files_same_order(entries: Seq<EntryView>, a: Seq<FileView>, b: Seq<FileView>)
    requires
        strictly_ranked(entries, a),
        strictly_ranked(entries, b),
        forall|file: FileView| a.contains(file) <==> b.contains(file),
    ensures
        a == b,
    decreases a.len(),
{
    if a.len() == 0 {
        if b.len() > 0 {
            assert(b.contains(b[0]));
        }
        assert(a =~= b);
    } else {
        let x = a.last();
        assert(a.contains(x));
        assert(b.contains(x));
        let k = choose|k: int| 0 <= k < b.len() && b[k] == x;
        let y = b.last();
        assert(b.contains(y));
        assert(a.contains(y));
        let m = choose|m: int| 0 <= m < a.len() && a[m] == y;
        assert(k == b.len() - 1) by {
            if k < b.len() - 1 {
                assert(rank(entries, b[k].name) < rank(entries, b[b.len() - 1].name));
                if m < a.len() - 1 {
                    assert(rank(entries, a[m].name) < rank(entries, a[a.len() - 1].name));
                }
            }
        }
        let a0 = a.drop_last();
        let b0 = b.drop_last();
        assert forall|file: FileView| a0.contains(file) <==> b0.contains(file) by {
            if a0.contains(file) {
                let i = choose|i: int| 0 <= i < a0.len() && a0[i] == file;
                assert(a[i] == file);
                assert(rank(entries, a[i].name) < rank(entries, a[a.len() - 1].name));
                assert(a.contains(file));
                let j = choose|j: int| 0 <= j < b.len() && b[j] == file;
                assert(j < b.len() - 1);
                assert(b0[j] == file);
            }
            if b0.contains(file) {
                let j = choose|j: int| 0 <= j < b0.len() && b0[j] == file;
                assert(b[j] == file);
                assert(rank(entries, b[j].name) < rank(entries, b[b.len() - 1].name));
                assert(b.contains(file));
                let i = choose|i: int| 0 <= i < a.len() && a[i] == file;
                assert(i < a.len() - 1);
                assert(a0[i] == file);
            }
        }
        assert(strictly_ranked(entries, a0)) by {
            assert forall|i: int, j: int| 0 <= i < j < a0.len() implies rank(
                entries,
                (#[trigger] a0[i]).name,
            ) < rank(entries, (#[trigger] a0[j]).name) by {
                assert(a0[i] == a[i] && a0[j] == a[j]);
            }
        }
        assert(strictly_ranked(entries, b0)) by {
            assert forall|i: int, j: int| 0 <= i < j < b0.len() implies rank(
                entries,
                (#[trigger] b0[i]).name,
            ) < rank(entries, (#[trigger] b0[j]).name) by {
                assert(b0[i] == b[i] && b0[j] == b[j]);
            }
        }
        lemma_same_files_same_order(entries, a0, b0);
        assert(a =~= a0.push(x));
        assert(b =~= b0.push(y));
    }
}

/// Whether `files` are what a directory holds after a save of `prompts`:
/// no name twice, the file of every prompt, and no other Markdown file.
pub open spec fn holds_saved(files: Seq<FileView>, prompts: Seq<PromptView>) -> bool {
    &&& forall|i: int, j: int|
        0 <= i < j < files.len() ==> (#[trigger] files[i]).name != (#[trigger] files[j]).name
    &&& forall|i: int|
        0 <= i < prompts.len() ==> files.contains(#[trigger] saved_files(prompts)[i])
    &&& forall|j: int|
        0 <= j < files.len() && is_markdown_name((#[trigger] files[j]).name) ==> saved_files(
            prompts,
        ).contains(files[j])
}

/// Loading what a save left gives back the prompts saved, in their order,
/// with their ids, titles, contents and counters, in whatever order the
/// directory lists its files.
pub proof fn lemma_save_then_load(
    prompts: Seq<PromptView>,
    entries: Seq<EntryView>,
    files: Seq<FileView>,
)
    requires
        indexes(entries, prompts),
        holds_saved(files, prompts),
    ensures
        loaded(entries, files) == prompts,
{
    let names = saved_names(prompts);
    let saved = saved_files(prompts);
    let shown = load_order(entries, files);
    let found = markdown_files(files);
    lemma_assigned_names_distinct(titles_of(prompts));
    lemma_load_order_sorted(entries, files);
    lemma_load_order_permutes(entries, files);
    lemma_selected(files, |file: FileView| is_markdown_name(file.name));
    assert(files.no_duplicates()) by {
        assert forall|i: int, j: int|
            0 <= i < files.len() && 0 <= j < files.len() && i != j implies files[i] != files[j] by {
            if i < j {
                assert(files[i].name != files[j].name);
            } else {
                assert(files[j].name != files[i].name);
            }
        }
    }
    found.lemma_multiset_has_no_duplicates();
    shown.lemma_multiset_has_no_duplicates_conv();
    assert forall|file: FileView| shown.contains(file) <==> saved.contains(file) by {
        vstd::seq_lib::to_multiset_contains(shown, file);
        vstd::seq_lib::to_multiset_contains(found, file);
        assert(found.contains(file) <==> files.contains(file) && is_markdown_name(file.name));
        if saved.contains(file) {
            let i = choose|i: int| 0 <= i < saved.len() && saved[i] == file;
            assert(files.contains(saved[i]));
            assert(is_markdown_name(names[i]));
        }
        if files.contains(file) && is_markdown_name(file.name) {
            let j = choose|j: int| 0 <= j < files.len() && files[j] == file;
            assert(saved.contains(files[j]));
        }
    }
    assert(strictly_ranked(entries, saved)) by {
        assert forall|i: int, j: int| 0 <= i < j < saved.len() implies rank(
            entries,
            (#[trigger] saved[i]).name,
        ) < rank(entries, (#[trigger] saved[j]).name) by {
            lemma_saved_file_found(entries, prompts, i);
            lemma_saved_file_found(entries, prompts, j);
        }
    }
    assert(strictly_ranked(entries, shown)) by {
        assert forall|i: int, j: int| 0 <= i < j < shown.len() implies rank(
            entries,
            (#[trigger] shown[i]).name,
        ) < rank(entries, (#[trigger] shown[j]).name) by {
            assert(in_order(entries, shown[i].name, shown[j].name));
            assert(shown.contains(shown[i]));
            assert(shown.contains(shown[j]));
            let m = choose|m: int| 0 <= m < saved.len() && saved[m] == shown[i];
            let n = choose|n: int| 0 <= n < saved.len() && saved[n] == shown[j];
            lemma_saved_file_found(entries, prompts, m);
            lemma_saved_file_found(entries, prompts, n);
            assert(shown[i] != shown[j]);
        }
    }
    lemma_same_files_same_order(entries, shown, saved);
    assert(loaded(entries, files) =~= prompts) by {
        assert forall|k: int| 0 <= k < prompts.len() implies loaded(entries, files)[k]
            == prompts[k] by {
            lemma_saved_file_found(entries, prompts, k);
        }
    }
}

/// A save into any directory, followed by a load of what the directory
/// then holds, gives back the prompts saved.
pub proof fn lemma_round_trip(
    dir: Map<Seq<char>, Seq<char>>,
    listing: Seq<Seq<char>>,
    prompts: Seq<PromptView>,
    entries: Seq<EntryView>,
    files: Seq<FileView>,
)
    requires
        lists(listing, dir),
        indexes(entries, prompts),
        shows(
            files,
            after_save(dir, saved_files(prompts), orphans(listing, saved_names(prompts))),
        ),
    ensures
        loaded(entries, files) == prompts,
{
    let names = saved_names(prompts);
    let saved = saved_files(prompts);
    let after = after_save(dir, saved, orphans(listing, names));
    lemma_saved_directory(dir, listing, prompts);
    assert forall|i: int| 0 <= i < prompts.len() implies files.contains(#[trigger] saved[i]) by {
        assert(after.dom().contains(names[i]));
        let j = choose|j: int| 0 <= j < files.len() && (#[trigger] files[j]).name == names[i];
        assert(files[j] == saved[i]);
    }
    assert forall|j: int|
        0 <= j < files.len() && is_markdown_name((#[trigger] files[j]).name) implies saved.contains(
        files[j],
    ) by {
        assert(after.dom().contains(files[j].name));
        assert(names.contains(files[j].name));
        let i = choose|i: int| 0 <= i < names.len() && names[i] == files[j].name;
        assert(after[names[i]] == prompts[i].content);
        assert(saved[i] == files[j]);
    }
    lemma_save_then_load(prompts, entries, files);
}

} // verus!
