//! File names of the storage directory: the Markdown suffix, stems, and
//! the numbering that keeps the names of one save apart.

use vstd::prelude::*;
use crate::text::{chars_of, holds_text, string_of, texts};

verus! {

/// The suffix of every prompt file: `.md`.
pub open spec fn md_suffix() -> Seq<char> {
    seq!['.', 'm', 'd']
}

/// The character of the decimal digit `d`.
pub open spec fn digit_char(d: nat) -> char
    recommends
        d < 10,
{
    (48 + d) as u8 as char
}

/// `n` written in decimal, without leading zeros.
pub open spec fn decimal(n: nat) -> Seq<char>
    decreases n,
{
    if n < 10 {
        seq![digit_char(n)]
    } else {
        decimal(n / 10).push(digit_char(n % 10))
    }
}

/// The number that a sequence of decimal digits stands for.
pub open spec fn decimal_value(digits: Seq<char>) -> nat
    decreases digits.len(),
{
    if digits.len() == 0 {
        0
    } else {
        (decimal_value(digits.drop_last()) * 10 + (digits.last() as u8 - 48)) as nat
    }
}

/// Reading back what `decimal` wrote gives the number again.
pub proof fn lemma_decimal_value(n: nat)
    ensures
        decimal_value(decimal(n)) == n,
        decimal(n).len() >= 1,
    decreases n,
{
    if n < 10 {
        assert(decimal(n).drop_last() =~= Seq::<char>::empty());
        assert(decimal_value(decimal(n).drop_last()) == 0);
    } else {
        lemma_decimal_value(n / 10);
        assert(decimal(n).drop_last() =~= decimal(n / 10));
    }
}

/// Different numbers are written differently.
pub proof fn lemma_decimal_injective(a: nat, b: nat)
    requires
        decimal(a) == decimal(b),
    ensures
        a == b,
{
    lemma_decimal_value(a);
    lemma_decimal_value(b);
}

/// The `k`-th candidate name for a slug: `slug.md` for the first, then
/// `slug-2.md`, `slug-3.md` and so on.
pub open spec fn file_name(slug: Seq<char>, k: nat) -> Seq<char> {
    if k <= 1 {
        slug + md_suffix()
    } else {
        slug + seq!['-'] + decimal(k) + md_suffix()
    }
}

/// The length of a candidate name.
pub proof fn lemma_file_name_len(slug: Seq<char>, k: nat)
    ensures
        k <= 1 ==> file_name(slug, k).len() == slug.len() + 3,
        k >= 2 ==> file_name(slug, k).len() == slug.len() + 4 + decimal(k).len(),
        k >= 2 ==> decimal(k).len() >= 1,
{
    lemma_decimal_value(k);
}

/// The candidates of one slug differ from each other.
pub proof fn lemma_file_name_injective(slug: Seq<char>, j: nat, k: nat)
    requires
        j >= 1,
        k >= 1,
        file_name(slug, j) == file_name(slug, k),
    ensures
        j == k,
{
    lemma_decimal_value(j);
    lemma_decimal_value(k);
    lemma_file_name_len(slug, j);
    lemma_file_name_len(slug, k);
    let a = file_name(slug, j);
    let b = file_name(slug, k);
    assert(a.len() == b.len());
    if j >= 2 && k >= 2 {
        let from: int = slug.len() as int + 1;
        assert(a.subrange(from, a.len() - 3) =~= decimal(j));
        assert(b.subrange(from, b.len() - 3) =~= decimal(k));
        lemma_decimal_injective(j, k);
    }
}

/// `k` is the first candidate number whose name `used` does not hold.
pub open spec fn is_first_free(slug: Seq<char>, used: Seq<Seq<char>>, k: nat) -> bool {
    &&& k >= 1
    &&& !used.contains(file_name(slug, k))
    &&& forall|j: nat| 1 <= j < k ==> used.contains(#[trigger] file_name(slug, j))
}

/// The number of the first candidate for `slug` that `used` does not hold.
pub open spec fn free_rank(slug: Seq<char>, used: Seq<Seq<char>>) -> nat {
    choose|k: nat| is_first_free(slug, used, k)
}

/// The first candidate name for `slug` that `used` does not hold.
pub open spec fn unique_name(slug: Seq<char>, used: Seq<Seq<char>>) -> Seq<char> {
    file_name(slug, free_rank(slug, used))
}

/// A first free candidate is the one that `free_rank` names.
pub proof fn lemma_first_free_is_rank(slug: Seq<char>, used: Seq<Seq<char>>, k: nat)
    requires
        is_first_free(slug, used, k),
    ensures
        free_rank(slug, used) == k,
{
    let r = free_rank(slug, used);
    assert(is_first_free(slug, used, r));
    if r < k {
        assert(used.contains(file_name(slug, r)));
    }
    if k < r {
        assert(used.contains(file_name(slug, k)));
    }
}

/// While the candidates below `k` are all taken, there are at most as many
/// of them as `used` has entries.
pub proof fn lemma_taken_bound(slug: Seq<char>, used: Seq<Seq<char>>, k: nat)
    requires
        k >= 1,
        forall|j: nat| 1 <= j < k ==> used.contains(#[trigger] file_name(slug, j)),
    ensures
        k - 1 <= used.len(),
{
    let numbers = vstd::set_lib::set_int_range(1, k as int);
    let name_of = |j: int| file_name(slug, j as nat);
    let taken = numbers.map(name_of);
    vstd::set_lib::lemma_int_range(1, k as int);
    assert(vstd::relations::injective_on(name_of, numbers)) by {
        assert forall|x: int, y: int|
            numbers.contains(x) && numbers.contains(y) && #[trigger] name_of(x) == #[trigger] name_of(y)
            implies x == y by {
            lemma_file_name_injective(slug, x as nat, y as nat);
        }
    }
    vstd::set_lib::lemma_map_size(numbers, taken, name_of);
    assert(taken.subset_of(used.to_set())) by {
        assert forall|n: Seq<char>| taken.contains(n) implies used.to_set().contains(n) by {
            let j = choose|j: int| numbers.contains(j) && name_of(j) == n;
            assert(used.contains(file_name(slug, j as nat)));
        }
    }
    used.lemma_cardinality_of_set();
    vstd::set_lib::lemma_len_subset(taken, used.to_set());
}

/// Writes `n` in decimal.
pub fn decimal_text(n: u128) -> (out: Vec<char>)
    ensures
        out@ == decimal(n as nat),
    decreases n,
{
    if n < 10 {
        let mut out: Vec<char> = Vec::new();
        out.push((48 + n as u8) as char);
        out
    } else {
        let mut out = decimal_text(n / 10);
        out.push((48 + (n % 10) as u8) as char);
        out
    }
}

/// Builds the `k`-th candidate name for `slug`.
pub fn candidate_name(slug: &str, k: u128) -> (out: String)
    ensures
        out@ == file_name(slug@, k as nat),
{
    let mut name = chars_of(slug);
    if k > 1 {
        name.push('-');
        let mut digits = decimal_text(k);
        name.append(&mut digits);
    }
    name.push('.');
    name.push('m');
    name.push('d');
    proof {
        assert(name@ =~= file_name(slug@, k as nat));
    }
    string_of(&name)
}

/// Picks the first candidate name for `base_slug` that is not in `used`,
/// and enters it there.
pub fn unique_filename(base_slug: &str, used: &mut Vec<String>) -> (name: String)
    ensures
        name@ == unique_name(base_slug@, texts(old(used)@)),
        !texts(old(used)@).contains(name@),
        texts(final(used)@) == texts(old(used)@).push(name@),
        texts(old(used)@).no_duplicates() ==> texts(final(used)@).no_duplicates(),
{
    let mut k: u128 = 1;
    let mut candidate = candidate_name(base_slug, k);
    while holds_text(used, candidate.as_str())
        invariant
            used@ == old(used)@,
            k >= 1,
            k <= used.len() + 1,
            candidate@ == file_name(base_slug@, k as nat),
            forall|j: nat| 1 <= j < k ==> texts(used@).contains(#[trigger] file_name(base_slug@, j)),
        decreases used.len() + 1 - k,
    {
        proof {
            lemma_taken_bound(base_slug@, texts(used@), (k + 1) as nat);
        }
        k += 1;
        candidate = candidate_name(base_slug, k);
    }
    proof {
        lemma_first_free_is_rank(base_slug@, texts(used@), k as nat);
    }
    let name = candidate.clone();
    used.push(candidate);
    proof {
        let before = texts(old(used)@);
        let after = texts(used@);
        assert(after =~= before.push(name@));
        if before.no_duplicates() {
            assert forall|i: int, j: int|
                0 <= i < after.len() && 0 <= j < after.len() && i != j implies after[i]
                != after[j] by {
                if i < before.len() {
                    assert(before.contains(after[i]));
                }
                if j < before.len() {
                    assert(before.contains(after[j]));
                }
            }
        }
    }
    name
}

/// Whether `name` ends in `.md`.
pub open spec fn is_markdown_name(name: Seq<char>) -> bool {
    name.len() >= 3 && name.subrange(name.len() - 3, name.len() as int) == md_suffix()
}

/// The stem of a file name: the name without its final `.md`, or the whole
/// name where it does not end in `.md`.
pub open spec fn stem_of(name: Seq<char>) -> Seq<char> {
    if is_markdown_name(name) {
        name.take(name.len() - 3)
    } else {
        name
    }
}

/// The name of the index file.
pub open spec fn index_name() -> Seq<char> {
    seq!['i', 'n', 'd', 'e', 'x', '.', 'j', 's', 'o', 'n']
}

/// The index file is never taken for a prompt file.
pub proof fn lemma_index_name_not_markdown()
    ensures
        !is_markdown_name(index_name()),
{
    let tail = index_name().subrange(index_name().len() - 3, index_name().len() as int);
    assert(tail[2] == 'n');
}

/// Every candidate name ends in `.md`.
pub proof fn lemma_file_name_is_markdown(slug: Seq<char>, k: nat)
    ensures
        is_markdown_name(file_name(slug, k)),
{
    let name = file_name(slug, k);
    assert(name.subrange(name.len() - 3, name.len() as int) =~= md_suffix());
}

fn ends_in_md(chars: &Vec<char>, end: usize) -> (yes: bool)
    requires
        end <= chars.len(),
    ensures
        yes == is_markdown_name(chars@.take(end as int)),
{
    proof {
        let name = chars@.take(end as int);
        if end >= 3 {
            let tail = name.subrange(name.len() - 3, name.len() as int);
            assert(tail[0] == chars@[end - 3]);
            assert(tail[1] == chars@[end - 2]);
            assert(tail[2] == chars@[end - 1]);
            if chars@[end - 3] == '.' && chars@[end - 2] == 'm' && chars@[end - 1] == 'd' {
                assert(tail =~= md_suffix());
            }
        }
    }
    end >= 3 && chars[end - 3] == '.' && chars[end - 2] == 'm' && chars[end - 1] == 'd'
}

/// Whether a directory entry of this name is a prompt file.
pub fn is_prompt_file_name(name: &str) -> (yes: bool)
    ensures
        yes == is_markdown_name(name@),
{
    let chars = chars_of(name);
    proof {
        assert(chars@.take(chars.len() as int) == chars@);
    }
    ends_in_md(&chars, chars.len())
}

/// The stem of a prompt file's name: the name without its final `.md`.
pub fn file_stem(name: &str) -> (stem: String)
    ensures
        stem@ == stem_of(name@),
{
    let mut chars = chars_of(name);
    let end: usize = chars.len();
    proof {
        assert(chars@.take(end as int) == chars@);
    }
    if ends_in_md(&chars, end) {
        chars.truncate(end - 3);
        proof {
            assert(chars@ =~= name@.take(name@.len() - 3));
        }
    }
    string_of(&chars)
}

/// Some candidate at or behind `k` is free, since `used` is finite.
proof fn lemma_some_candidate_free(slug: Seq<char>, used: Seq<Seq<char>>, k: nat)
    requires
        k >= 1,
        forall|j: nat| 1 <= j < k ==> used.contains(#[trigger] file_name(slug, j)),
    ensures
        exists|n: nat| is_first_free(slug, used, n),
    decreases used.len() + 1 - k,
{
    if used.contains(file_name(slug, k)) {
        lemma_taken_bound(slug, used, k + 1);
        lemma_some_candidate_free(slug, used, k + 1);
    } else {
        assert(is_first_free(slug, used, k));
    }
}

/// Whatever `used` holds, the unique name exists, is not in `used`, and
/// is a Markdown file's name.
pub proof fn lemma_unique_name_fresh(slug: Seq<char>, used: Seq<Seq<char>>)
    ensures
        is_first_free(slug, used, free_rank(slug, used)),
        !used.contains(unique_name(slug, used)),
        is_markdown_name(unique_name(slug, used)),
{
    lemma_some_candidate_free(slug, used, 1);
    lemma_file_name_is_markdown(slug, free_rank(slug, used));
}

/// The list of used names after `unique_filename` was called once for
/// each of `slugs`, in order, starting from `used`.
pub open spec fn handed_out(used: Seq<Seq<char>>, slugs: Seq<Seq<char>>) -> Seq<Seq<char>>
    decreases slugs.len(),
{
    if slugs.len() == 0 {
        used
    } else {
        let before = handed_out(used, slugs.drop_last());
        before.push(unique_name(slugs.last(), before))
    }
}

/// A run of calls never hands out a name twice, nor one that was used
/// before the run: the list starts with `used`, grows by one name for each
/// call, and holds no name twice if `used` held none twice.
pub proof fn lemma_handed_out_distinct(used: Seq<Seq<char>>, slugs: Seq<Seq<char>>)
    requires
        used.no_duplicates(),
    ensures
        handed_out(used, slugs).len() == used.len() + slugs.len(),
        handed_out(used, slugs).take(used.len() as int) == used,
        handed_out(used, slugs).no_duplicates(),
        forall|i: int|
            used.len() <= i < handed_out(used, slugs).len() ==> is_markdown_name(
                #[trigger] handed_out(used, slugs)[i],
            ),
    decreases slugs.len(),
{
    if slugs.len() == 0 {
        assert(used.take(used.len() as int) == used);
    } else {
        let before = handed_out(used, slugs.drop_last());
        lemma_handed_out_distinct(used, slugs.drop_last());
        lemma_unique_name_fresh(slugs.last(), before);
        let after = handed_out(used, slugs);
        assert(after.take(used.len() as int) =~= before.take(used.len() as int));
        assert forall|i: int, j: int| 0 <= i < after.len() && 0 <= j < after.len() && i != j implies after[i]
            != after[j] by {
            if i < before.len() {
                assert(before.contains(after[i]));
            }
            if j < before.len() {
                assert(before.contains(after[j]));
            }
        }
    }
}

} // verus!
