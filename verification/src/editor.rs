//! Handing a prompt to an editor: the scratch file it is written to and
//! the application that opens it.

use vstd::prelude::*;
use crate::names::{decimal, decimal_text, md_suffix};
use crate::paths::{child_path, joined_path, storage_path};
use crate::slug::{lowered, slug_text, slugify_title};
use crate::text::{chars_of, same_text, string_of};

verus! {

/// The application that opens files for an editor's short name, for the
/// editors that are known.
pub open spec fn editor_app(editor: Seq<char>) -> Option<Seq<char>> {
    if editor == "cursor"@ {
        Some("Cursor"@)
    } else if editor == "vscode"@ {
        Some("Visual Studio Code"@)
    } else if editor == "zed"@ {
        Some("Zed"@)
    } else {
        None
    }
}

/// The name of a prompt's scratch file: the slug of its title, cut to 72
/// characters, a dash, the time in seconds, and `.md`.
pub open spec fn scratch_name(title: Seq<char>, secs: u64) -> Seq<char> {
    slug_text(lowered(title), 72) + seq!['-'] + decimal(secs as nat) + md_suffix()
}

/// The directory of the scratch files under the home directory `home`:
/// `.tmp` in the store's directory.
pub open spec fn scratch_path(home: Seq<char>) -> Seq<char> {
    joined_path(storage_path(home), seq!['.', 't', 'm', 'p'])
}

/// Looks up the application for an editor's short name.
pub fn editor_app_name(editor: &str) -> (app: Option<String>)
    ensures
        match app {
            Some(name) => editor_app(editor@) == Some(name@),
            None => editor_app(editor@) is None,
        },
{
    if same_text(editor, "cursor") {
        Some("Cursor".to_owned())
    } else if same_text(editor, "vscode") {
        Some("Visual Studio Code".to_owned())
    } else if same_text(editor, "zed") {
        Some("Zed".to_owned())
    } else {
        None
    }
}

/// Names the scratch file for a prompt handed to an editor at time
/// `secs`.
pub fn scratch_file_name(title: &str, secs: u64) -> (name: String)
    ensures
        name@ == scratch_name(title@, secs),
{
    let stem = slugify_title(title);
    let mut name = chars_of(stem.as_str());
    name.push('-');
    let mut digits = decimal_text(secs as u128);
    name.append(&mut digits);
    name.push('.');
    name.push('m');
    name.push('d');
    proof {
        assert(name@ =~= scratch_name(title@, secs));
    }
    string_of(&name)
}

/// The directory of the scratch files under the home directory `home`.
pub fn scratch_dir(home: &str) -> (dir: String)
    ensures
        dir@ == scratch_path(home@),
{
    proof {
        reveal_strlit(".config");
        reveal_strlit("promptbook");
        reveal_strlit(".tmp");
        assert(".config"@ =~= seq!['.', 'c', 'o', 'n', 'f', 'i', 'g']);
        assert("promptbook"@ =~= seq!['p', 'r', 'o', 'm', 'p', 't', 'b', 'o', 'o', 'k']);
        assert(".tmp"@ =~= seq!['.', 't', 'm', 'p']);
    }
    let config = child_path(home, ".config");
    let store = child_path(config.as_str(), "promptbook");
    child_path(store.as_str(), ".tmp")
}

} // verus!
