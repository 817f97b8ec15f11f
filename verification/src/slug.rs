//! Slugs: the file-name stems derived from titles.

use vstd::prelude::*;
use crate::text::{chars_of, string_of};

verus! {

/// The lowercase mapping that std's `char::to_lowercase` yields for `c`:
/// one or more characters, fixed by the Unicode tables.
pub uninterp spec fn char_lower(c: char) -> Seq<char>;

/// Calls `char::to_lowercase` of std and collects what it yields. The
/// contract gives that sequence its name and states nothing else of it.
#[verifier::external_body]
fn lowercase_of(c: char) -> (out: Vec<char>)
    ensures
        out@ == char_lower(c),
{
    c.to_lowercase().collect()
}

/// `s` with every character replaced by its lowercase mapping.
pub open spec fn lowered(s: Seq<char>) -> Seq<char>
    decreases s.len(),
{
    if s.len() == 0 {
        Seq::empty()
    } else {
        lowered(s.drop_last()) + char_lower(s.last())
    }
}

/// The ASCII capitals.
pub open spec fn is_upper(c: char) -> bool {
    'A' <= c <= 'Z'
}

/// The ASCII small letters.
pub open spec fn is_lower(c: char) -> bool {
    'a' <= c <= 'z'
}

/// The ASCII digits.
pub open spec fn is_digit(c: char) -> bool {
    '0' <= c <= '9'
}

/// ASCII letters and digits: the characters a slug keeps.
pub open spec fn is_alnum(c: char) -> bool {
    is_upper(c) || is_lower(c) || is_digit(c)
}

/// `c` with an ASCII capital turned into its small letter.
pub open spec fn fold_lower(c: char) -> char {
    if is_upper(c) {
        ((c as u8) + 32u8) as char
    } else {
        c
    }
}

/// `c` with an ASCII small letter turned into its capital.
pub open spec fn fold_upper(c: char) -> char {
    if is_lower(c) {
        ((c as u8) - 32u8) as char
    } else {
        c
    }
}

/// Whether a slug keeps `c`.
pub fn is_alnum_char(c: char) -> (b: bool)
    ensures
        b == is_alnum(c),
{
    ('A' <= c && c <= 'Z') || ('a' <= c && c <= 'z') || ('0' <= c && c <= '9')
}

/// Turns an ASCII capital into its small letter.
pub fn to_lower_char(c: char) -> (out: char)
    ensures
        out == fold_lower(c),
{
    if 'A' <= c && c <= 'Z' {
        ((c as u8) + 32u8) as char
    } else {
        c
    }
}

/// Turns an ASCII small letter into its capital.
pub fn to_upper_char(c: char) -> (out: char)
    ensures
        out == fold_upper(c),
{
    if 'a' <= c && c <= 'z' {
        ((c as u8) - 32u8) as char
    } else {
        c
    }
}

/// The ASCII letters and digits of `s`, letters made small, with one `-`
/// wherever other characters stood between two of them.
pub open spec fn words_joined(s: Seq<char>) -> Seq<char>
    decreases s.len(),
{
    if s.len() == 0 {
        Seq::empty()
    } else {
        let head = words_joined(s.drop_last());
        let c = s.last();
        if !is_alnum(c) {
            head
        } else if head.len() > 0 && !is_alnum(s[s.len() - 2]) {
            head.push('-').push(fold_lower(c))
        } else {
            head.push(fold_lower(c))
        }
    }
}

/// The slug of an already lowercased text: its joined words cut to `limit`
/// characters, or `untitled` where it has no word.
pub open spec fn slug_text(lowered: Seq<char>, limit: nat) -> Seq<char> {
    let words = words_joined(lowered);
    if words.len() == 0 {
        "untitled"@
    } else if words.len() <= limit {
        words
    } else {
        words.take(limit as int)
    }
}

/// The slug of a title, cut to 80 characters.
pub open spec fn slug(title: Seq<char>) -> Seq<char> {
    slug_text(lowered(title), 80)
}

/// Every character of `title` replaced by its lowercase mapping.
pub fn lowercase_chars(title: &str) -> (out: Vec<char>)
    ensures
        out@ == lowered(title@),
{
    let chars = chars_of(title);
    let mut out: Vec<char> = Vec::new();
    let mut i: usize = 0;
    while i < chars.len()
        invariant
            i <= chars.len(),
            chars@ == title@,
            out@ == lowered(chars@.take(i as int)),
        decreases chars.len() - i,
    {
        let mut low = lowercase_of(chars[i]);
        out.append(&mut low);
        proof {
            assert(chars@.take(i + 1).drop_last() == chars@.take(i as int));
        }
        i += 1;
    }
    proof {
        assert(chars@.take(chars.len() as int) == chars@);
    }
    out
}

/// Builds the slug of a text that has been lowercased already.
pub fn slug_from_lowered(lowered: &Vec<char>, limit: usize) -> (out: String)
    ensures
        out@ == slug_text(lowered@, limit as nat),
{
    let mut words: Vec<char> = Vec::new();
    let mut gap = false;
    let mut i: usize = 0;
    while i < lowered.len()
        invariant
            i <= lowered.len(),
            words@ == words_joined(lowered@.take(i as int)),
            gap == (i > 0 && !is_alnum(lowered@[i - 1])),
        decreases lowered.len() - i,
    {
        let c = lowered[i];
        if is_alnum_char(c) {
            if gap && words.len() > 0 {
                words.push('-');
            }
            words.push(to_lower_char(c));
            gap = false;
        } else {
            gap = true;
        }
        proof {
            assert(lowered@.take(i + 1).drop_last() == lowered@.take(i as int));
        }
        i += 1;
    }
    proof {
        assert(lowered@.take(lowered.len() as int) == lowered@);
    }
    if words.len() == 0 {
        "untitled".to_owned()
    } else {
        words.truncate(limit);
        string_of(&words)
    }
}

/// The file-name stem for `title`: at most 80 characters.
pub fn slugify(title: &str) -> (out: String)
    ensures
        out@ == slug(title@),
{
    let lowered = lowercase_chars(title);
    slug_from_lowered(&lowered, 80)
}

/// The stem used for scratch files handed to an editor: at most 72
/// characters.
pub fn slugify_title(title: &str) -> (out: String)
    ensures
        out@ == slug_text(lowered(title@), 72),
{
    let lowered = lowercase_chars(title);
    slug_from_lowered(&lowered, 72)
}

/// A readable title for a stem: spaces for dashes, and a capital in front
/// where the stem starts with an ASCII small letter.
pub open spec fn unslug_text(stem: Seq<char>) -> Seq<char> {
    Seq::new(
        stem.len(),
        |i: int|
            if stem[i] == '-' {
                ' '
            } else if i == 0 {
                fold_upper(stem[i])
            } else {
                stem[i]
            },
    )
}

/// The title shown for a file that the index does not know.
pub fn unslug(stem: &str) -> (out: String)
    ensures
        out@ == unslug_text(stem@),
{
    let chars = chars_of(stem);
    let mut title: Vec<char> = Vec::new();
    let mut i: usize = 0;
    while i < chars.len()
        invariant
            i <= chars.len(),
            chars@ == stem@,
            title@ == unslug_text(stem@).take(i as int),
        decreases chars.len() - i,
    {
        let c = chars[i];
        if c == '-' {
            title.push(' ');
        } else if i == 0 {
            title.push(to_upper_char(c));
        } else {
            title.push(c);
        }
        proof {
            assert(title@ =~= unslug_text(stem@).take(i + 1));
        }
        i += 1;
    }
    proof {
        assert(title@ =~= unslug_text(stem@));
    }
    string_of(&title)
}

/// The characters a slug is made of.
pub open spec fn is_slug_char(c: char) -> bool {
    is_lower(c) || is_digit(c) || c == '-'
}

/// No two dashes stand side by side in `w`.
pub open spec fn dashes_single(w: Seq<char>) -> bool {
    forall|i: int| 0 <= i < w.len() - 1 && #[trigger] w[i] == '-' ==> w[i + 1] != '-'
}

/// Joined words hold slug characters only, begin and end with a letter or
/// digit, and never hold two dashes in a row.
pub proof fn lemma_words_joined_shape(s: Seq<char>)
    ensures
        forall|i: int| 0 <= i < words_joined(s).len() ==> is_slug_char(#[trigger] words_joined(s)[i]),
        words_joined(s).len() > 0 ==> words_joined(s)[0] != '-' && words_joined(s).last() != '-',
        dashes_single(words_joined(s)),
    decreases s.len(),
{
    if s.len() > 0 {
        lemma_words_joined_shape(s.drop_last());
        let head = words_joined(s.drop_last());
        let c = s.last();
        if is_alnum(c) {
            assert(is_slug_char(fold_lower(c)));
            assert(fold_lower(c) != '-');
        }
    }
}

/// Whatever the text and the limit (of 8 or more), the slug is not empty
/// and not longer than the limit, is made of small ASCII letters, digits
/// and dashes, does not begin with a dash and holds no two dashes in a row.
/// It ends with a dash in one case only: the joined words were longer than
/// the limit and the cut fell right behind a dash.
pub proof fn lemma_slug_text_shape(lowered: Seq<char>, limit: nat)
    requires
        limit >= 8,
    ensures
        1 <= slug_text(lowered, limit).len() <= limit,
        forall|i: int|
            0 <= i < slug_text(lowered, limit).len() ==> is_slug_char(
                #[trigger] slug_text(lowered, limit)[i],
            ),
        slug_text(lowered, limit)[0] != '-',
        dashes_single(slug_text(lowered, limit)),
        slug_text(lowered, limit).last() == '-' <==> words_joined(lowered).len() > limit
            && words_joined(lowered)[limit - 1] == '-',
{
    lemma_words_joined_shape(lowered);
    reveal_strlit("untitled");
    let words = words_joined(lowered);
    let s = slug_text(lowered, limit);
    if words.len() == 0 {
        assert(s.len() == 8);
        assert(s[0] == 'u');
        assert(s[1] == 'n');
        assert(s[2] == 't');
        assert(s[3] == 'i');
        assert(s[4] == 't');
        assert(s[5] == 'l');
        assert(s[6] == 'e');
        assert(s[7] == 'd');
    } else if words.len() > limit {
        assert(forall|i: int| 0 <= i < s.len() ==> s[i] == words[i]);
    }
}

/// The shape of every slug, for all titles: see `lemma_slug_text_shape`.
pub proof fn lemma_slug_shape(title: Seq<char>)
    ensures
        1 <= slug(title).len() <= 80,
        forall|i: int| 0 <= i < slug(title).len() ==> is_slug_char(#[trigger] slug(title)[i]),
        slug(title)[0] != '-',
        dashes_single(slug(title)),
        slug(title).last() == '-' <==> words_joined(lowered(title)).len() > 80
            && words_joined(lowered(title))[79] == '-',
{
    lemma_slug_text_shape(lowered(title), 80);
}

/// The empty title has the slug `untitled`.
pub proof fn lemma_slug_of_empty()
    ensures
        slug(Seq::empty()) == "untitled"@,
{
}

} // verus!
