//! Paths as text: directories and file names joined with `/`.

use vstd::prelude::*;
use crate::names::index_name;
use crate::text::{chars_of, string_of};

verus! {

/// The path of `name` under the directory `base`. A name that begins
/// with `/` stands for itself; otherwise the two are joined by one `/`,
/// which is left out where `base` is empty or already ends in one.
pub open spec fn joined_path(base: Seq<char>, name: Seq<char>) -> Seq<char> {
    if name.len() > 0 && name[0] == '/' {
        name
    } else if base.len() == 0 || base.last() == '/' {
        base + name
    } else {
        base + seq!['/'] + name
    }
}

/// The directory of the store under the home directory `home`:
/// `.config/promptbook` in it.
pub open spec fn storage_path(home: Seq<char>) -> Seq<char> {
    joined_path(
        joined_path(home, seq!['.', 'c', 'o', 'n', 'f', 'i', 'g']),
        seq!['p', 'r', 'o', 'm', 'p', 't', 'b', 'o', 'o', 'k'],
    )
}

/// What `storage_dir` answers where no home directory is known.
pub open spec fn home_not_set() -> Seq<char> {
    "HOME is not set"@
}

/// Joins a directory and a name into a path.
pub fn child_path(base: &str, name: &str) -> (path: String)
    ensures
        path@ == joined_path(base@, name@),
{
    let mut tail = chars_of(name);
    if tail.len() > 0 && tail[0] == '/' {
        return string_of(&tail);
    }
    let mut path = chars_of(base);
    if path.len() > 0 && path[path.len() - 1] != '/' {
        path.push('/');
    }
    path.append(&mut tail);
    proof {
        assert(path@ =~= joined_path(base@, name@));
    }
    string_of(&path)
}

/// The path of the index file in the directory `base`.
pub fn index_path(base: &str) -> (path: String)
    ensures
        path@ == joined_path(base@, index_name()),
{
    proof {
        reveal_strlit("index.json");
        assert("index.json"@ =~= index_name());
    }
    child_path(base, "index.json")
}

/// The directory of the store, given the home directory if one is known;
/// without one there is no store, and the answer says so.
pub fn storage_dir(home: Option<&str>) -> (dir: Result<String, String>)
    ensures
        match dir {
            Ok(path) => home is Some && path@ == storage_path(home->0@),
            Err(message) => home is None && message@ == home_not_set(),
        },
{
    match home {
        Some(h) => {
            proof {
                reveal_strlit(".config");
                reveal_strlit("promptbook");
                assert(".config"@ =~= seq!['.', 'c', 'o', 'n', 'f', 'i', 'g']);
                assert("promptbook"@ =~= seq!['p', 'r', 'o', 'm', 'p', 't', 'b', 'o', 'o', 'k']);
            }
            let config = child_path(h, ".config");
            Ok(child_path(config.as_str(), "promptbook"))
        },
        None => Err("HOME is not set".to_owned()),
    }
}

} // verus!
