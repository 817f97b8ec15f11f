use promptbook::clock::{now_unix_secs, secs_or_zero};
use promptbook::editor::{editor_app_name, scratch_dir, scratch_file_name};
use promptbook::load::{display_order, file_rank, find_entry, load_prompts, record_of};
use promptbook::lookup::{find_by_id, get_prompt_path, lookup_candidates, prompt_file_for};
use promptbook::names::{
    candidate_name, decimal_text, file_stem, is_prompt_file_name, unique_filename,
};
use promptbook::paths::{child_path, index_path, storage_dir};
use promptbook::record::{read_index, PromptFile, PromptIndex, PromptIndexEntry, PromptRecord};
use promptbook::save::{index_entry, orphan_files, save_prompts};
use promptbook::slug::{
    is_alnum_char, lowercase_chars, slug_from_lowered, slugify, slugify_title, to_lower_char,
    to_upper_char, unslug,
};
use promptbook::text::{chars_of, holds_text, same_text, string_of, text_le};

fn prompt(id: &str, title: &str, content: &str, copied: u32, searched: u32) -> PromptRecord {
    PromptRecord {
        id: id.to_string(),
        title: title.to_string(),
        content: content.to_string(),
        copied,
        searched,
    }
}

fn entry(id: &str, file: &str, title: &str, copied: u32, searched: u32) -> PromptIndexEntry {
    PromptIndexEntry {
        id: id.to_string(),
        file: file.to_string(),
        title: title.to_string(),
        copied,
        searched,
        updated_at: 7,
    }
}

fn file(name: &str, content: &str) -> PromptFile {
    PromptFile { name: name.to_string(), content: content.to_string() }
}

fn strings(items: &[&str]) -> Vec<String> {
    items.iter().map(|s| s.to_string()).collect()
}

fn ids(prompts: &[PromptRecord]) -> Vec<String> {
    prompts.iter().map(|p| p.id.clone()).collect()
}

fn has_slug_shape(slug: &str, limit: usize) -> bool {
    let chars: Vec<char> = slug.chars().collect();
    !chars.is_empty()
        && chars.len() <= limit
        && chars.iter().all(|c| c.is_ascii_lowercase() || c.is_ascii_digit() || *c == '-')
        && chars[0] != '-'
        && !slug.contains("--")
}

#[test]
fn slug_of_empty_title_is_untitled() {
    assert_eq!(slugify(""), "untitled");
    assert_eq!(slugify_title(""), "untitled");
}

#[test]
fn slugs_have_the_slug_shape() {
    let long = "x ".repeat(200);
    let titles = [
        "",
        "Bug Triage",
        "  !!!  ",
        "---",
        "a",
        "A",
        "0",
        "Title___With---Noise",
        "Ünïcödé Title",
        "\u{212A}elvin",
        "İstanbul",
        "tab\tand\nnewline",
        "trailing!!!",
        "!!!leading",
        long.as_str(),
    ];
    for title in titles {
        let slug = slugify(title);
        assert!(has_slug_shape(&slug, 80), "{:?} -> {:?}", title, slug);
        let short = slugify_title(title);
        assert!(has_slug_shape(&short, 72), "{:?} -> {:?}", title, short);
        if slug.chars().count() < 80 {
            assert!(!slug.ends_with('-'), "{:?} -> {:?}", title, slug);
        }
    }
}

#[test]
fn slug_joins_words_with_single_dashes() {
    assert_eq!(slugify("Hello,   World!"), "hello-world");
    assert_eq!(slugify("!!!leading"), "leading");
    assert_eq!(slugify("trailing!!!"), "trailing");
    assert_eq!(slugify("a--b__c  d"), "a-b-c-d");
    assert_eq!(slugify("MiXeD 123 Case"), "mixed-123-case");
    assert_eq!(slugify("tab\tand\nnewline"), "tab-and-newline");
}

#[test]
fn slug_treats_other_alphabets_as_separators() {
    assert_eq!(slugify("Ünïcödé Title"), "n-c-d-title");
    assert_eq!(slugify("日本語"), "untitled");
    assert_eq!(slugify("café au lait"), "caf-au-lait");
}

#[test]
fn slug_uses_the_full_lowercase_mapping() {
    // The Kelvin sign has the small letter k as its lowercase.
    assert_eq!(slugify("\u{212A}elvin"), "kelvin");
    // The dotted capital I lowers to an i and a combining dot.
    assert_eq!(slugify("\u{130}x"), "i-x");
    assert_eq!(lowercase_chars("\u{130}"), vec!['i', '\u{307}']);
    assert_eq!(lowercase_chars("AbC"), vec!['a', 'b', 'c']);
    assert_eq!(lowercase_chars("ÀÉ"), vec!['à', 'é']);
    assert_eq!(lowercase_chars(""), Vec::<char>::new());
}

#[test]
fn slug_cut_may_end_in_a_dash() {
    let title = format!("{} b", "a".repeat(79));
    let slug = slugify(&title);
    assert_eq!(slug, format!("{}-", "a".repeat(79)));
    assert_eq!(slug.len(), 80);

    let fits = format!("{} b", "a".repeat(78));
    assert_eq!(slugify(&fits), format!("{}-b", "a".repeat(78)));
}

#[test]
fn slugify_title_truncates_to_seventy_two_chars() {
    let long_title = "a".repeat(120);
    let slug = slugify_title(&long_title);
    assert_eq!(slug.len(), 72);
    assert!(slug.chars().all(|c| c == 'a'));
    assert_eq!(slugify_title("Bug Triage"), "bug-triage");
    assert_eq!(slugify_title("  !!!  "), "untitled");
}

#[test]
fn slug_from_lowered_respects_the_limit() {
    let chars: Vec<char> = "one two three".chars().collect();
    assert_eq!(slug_from_lowered(&chars, 80), "one-two-three");
    assert_eq!(slug_from_lowered(&chars, 7), "one-two");
    assert_eq!(slug_from_lowered(&chars, 4), "one-");
    assert_eq!(slug_from_lowered(&chars, 13), "one-two-three");
    assert_eq!(slug_from_lowered(&Vec::new(), 3), "untitled");
    let upper: Vec<char> = "ABC".chars().collect();
    assert_eq!(slug_from_lowered(&upper, 80), "abc");
}

#[test]
fn character_classes_are_ascii_only() {
    assert!(is_alnum_char('a') && is_alnum_char('z') && is_alnum_char('A') && is_alnum_char('Z'));
    assert!(is_alnum_char('0') && is_alnum_char('9'));
    assert!(!is_alnum_char('-') && !is_alnum_char(' ') && !is_alnum_char('é'));
    assert!(!is_alnum_char('@') && !is_alnum_char('[') && !is_alnum_char('`'));
    assert!(!is_alnum_char('{') && !is_alnum_char('/') && !is_alnum_char(':'));
    assert_eq!(to_lower_char('A'), 'a');
    assert_eq!(to_lower_char('Z'), 'z');
    assert_eq!(to_lower_char('a'), 'a');
    assert_eq!(to_lower_char('É'), 'É');
    assert_eq!(to_upper_char('a'), 'A');
    assert_eq!(to_upper_char('z'), 'Z');
    assert_eq!(to_upper_char('A'), 'A');
    assert_eq!(to_upper_char('é'), 'é');
    assert_eq!(to_upper_char('1'), '1');
}

#[test]
fn unslug_handles_edges() {
    assert_eq!(unslug(""), "");
    assert_eq!(unslug("a"), "A");
    assert_eq!(unslug("-a"), " a");
    assert_eq!(unslug("a-b-c"), "A b c");
    assert_eq!(unslug("Already"), "Already");
    assert_eq!(unslug("1-2"), "1 2");
    assert_eq!(unslug("éa-b"), "éa b");
    assert_eq!(unslug("a--b"), "A  b");
}

#[test]
fn text_helpers_keep_the_characters() {
    assert_eq!(chars_of("aé日"), vec!['a', 'é', '日']);
    assert_eq!(chars_of(""), Vec::<char>::new());
    assert_eq!(string_of(&vec!['a', 'é', '日']), "aé日");
    assert_eq!(string_of(&Vec::new()), "");
    assert!(same_text("abc", "abc"));
    assert!(same_text("", ""));
    assert!(!same_text("abc", "abd"));
    assert!(!same_text("abc", "ab"));
    assert!(!same_text("ab", "abc"));
    let names = strings(&["a.md", "b.md"]);
    assert!(holds_text(&names, "a.md"));
    assert!(holds_text(&names, "b.md"));
    assert!(!holds_text(&names, "c.md"));
    assert!(!holds_text(&Vec::new(), "a.md"));
}

#[test]
fn text_order_is_dictionary_order() {
    let samples = ["", "a", "ab", "abc", "b", "B", "a-2", "a.md", "é", "z", "日本", "aé", "a\u{10FFFF}"];
    for a in samples {
        for b in samples {
            assert_eq!(text_le(a, b), a <= b, "{:?} <= {:?}", a, b);
        }
    }
}

#[test]
fn decimal_text_writes_numbers() {
    assert_eq!(string_of(&decimal_text(0)), "0");
    assert_eq!(string_of(&decimal_text(7)), "7");
    assert_eq!(string_of(&decimal_text(10)), "10");
    assert_eq!(string_of(&decimal_text(12345)), "12345");
    assert_eq!(string_of(&decimal_text(u128::MAX)), u128::MAX.to_string());
}

#[test]
fn candidate_names_are_numbered_from_two() {
    assert_eq!(candidate_name("a", 0), "a.md");
    assert_eq!(candidate_name("a", 1), "a.md");
    assert_eq!(candidate_name("a", 2), "a-2.md");
    assert_eq!(candidate_name("bug-triage", 10), "bug-triage-10.md");
    assert_eq!(candidate_name("", 3), "-3.md");
}

#[test]
fn unique_filename_skips_what_is_used() {
    let mut used = strings(&["x.md", "x-2.md", "y.md"]);
    assert_eq!(unique_filename("x", &mut used), "x-3.md");
    assert_eq!(used, strings(&["x.md", "x-2.md", "y.md", "x-3.md"]));
    assert_eq!(unique_filename("z", &mut used), "z.md");
    assert_eq!(unique_filename("y", &mut used), "y-2.md");
    assert_eq!(used, strings(&["x.md", "x-2.md", "y.md", "x-3.md", "z.md", "y-2.md"]));
}

#[test]
fn unique_filename_fills_the_first_gap() {
    let mut used = strings(&["x.md", "x-3.md"]);
    assert_eq!(unique_filename("x", &mut used), "x-2.md");
    assert_eq!(unique_filename("x", &mut used), "x-4.md");
}

#[test]
fn unique_filename_never_repeats_a_name() {
    let mut used = Vec::new();
    let mut seen = Vec::new();
    for i in 0..25 {
        let base = if i % 3 == 0 { "a" } else { "a-2" };
        let name = unique_filename(base, &mut used);
        assert!(!seen.contains(&name), "{} handed out twice", name);
        seen.push(name);
    }
    assert_eq!(used, seen);
    assert!(seen.contains(&"a-10.md".to_string()));
}

#[test]
fn prompt_file_names_end_in_md() {
    assert!(is_prompt_file_name("a.md"));
    assert!(is_prompt_file_name(".md"));
    assert!(is_prompt_file_name("a.md.md"));
    assert!(!is_prompt_file_name("index.json"));
    assert!(!is_prompt_file_name("a.MD"));
    assert!(!is_prompt_file_name("md"));
    assert!(!is_prompt_file_name(""));
    assert!(!is_prompt_file_name("a.md.tmp"));
    assert!(!is_prompt_file_name("a.mdx"));
}

#[test]
fn file_stem_strips_the_final_md_ending() {
    assert_eq!(file_stem("a.md"), "a");
    assert_eq!(file_stem("release-notes.md"), "release-notes");
    assert_eq!(file_stem("a.md.md"), "a.md");
    assert_eq!(file_stem(".md.md"), ".md");
    assert_eq!(file_stem(".md"), "");
    assert_eq!(file_stem("a.txt"), "a.txt");
    assert_eq!(file_stem(""), "");
    assert_eq!(file_stem("a.md.txt"), "a.md.txt");
}

#[test]
fn child_path_joins_like_the_system() {
    let bases = ["", "/", "/home/u", "/home/u/", "rel", "rel/"];
    let names = ["a.md", "index.json", "", "/abs/a.md", "sub/a.md", ".config"];
    for base in bases {
        for name in names {
            let expected = std::path::Path::new(base).join(name);
            assert_eq!(
                child_path(base, name),
                expected.to_string_lossy(),
                "{:?} + {:?}",
                base,
                name
            );
        }
    }
}

#[test]
fn child_path_exact_values() {
    assert_eq!(child_path("/home/u", "a.md"), "/home/u/a.md");
    assert_eq!(child_path("/home/u/", "a.md"), "/home/u/a.md");
    assert_eq!(child_path("", "a.md"), "a.md");
    assert_eq!(child_path("/home/u", "/etc/a.md"), "/etc/a.md");
    assert_eq!(index_path("/home/u/.config/promptbook"), "/home/u/.config/promptbook/index.json");
}

#[test]
fn storage_dir_lies_under_the_home_directory() {
    assert_eq!(storage_dir(Some("/home/u")), Ok("/home/u/.config/promptbook".to_string()));
    assert_eq!(storage_dir(Some("/")), Ok("/.config/promptbook".to_string()));
    assert_eq!(storage_dir(Some("")), Ok(".config/promptbook".to_string()));
    assert_eq!(storage_dir(None), Err("HOME is not set".to_string()));
}

#[test]
fn read_index_keeps_a_parsed_index() {
    let parsed = PromptIndex { version: 3, prompts: vec![entry("a", "a.md", "A", 1, 2)] };
    let index = read_index(Some(parsed));
    assert_eq!(index.version, 3);
    assert_eq!(index.prompts.len(), 1);
    assert_eq!(index.prompts[0].id, "a");
    assert_eq!(index.prompts[0].file, "a.md");
    assert_eq!(index.prompts[0].updated_at, 7);

    let empty = PromptIndex::empty();
    assert_eq!(empty.version, 1);
    assert!(empty.prompts.is_empty());
}

#[test]
fn load_orders_indexed_files_first_then_by_name() {
    let index = PromptIndex {
        version: 1,
        prompts: vec![
            entry("second", "zeta.md", "Zeta", 3, 4),
            entry("first", "alpha.md", "Alpha", 1, 2),
            entry("gone", "missing.md", "Missing", 0, 0),
        ],
    };
    let files = vec![
        file("loose-b.md", "B"),
        file("alpha.md", "alpha body"),
        file("notes.txt", "ignored"),
        file("loose-a.md", "A"),
        file("zeta.md", "zeta body"),
        file("index.json", "{}"),
    ];
    let loaded = load_prompts(&index, &files);
    assert_eq!(ids(&loaded), strings(&["second", "first", "loose-a", "loose-b"]));
    assert_eq!(loaded[0].title, "Zeta");
    assert_eq!(loaded[0].content, "zeta body");
    assert_eq!(loaded[0].copied, 3);
    assert_eq!(loaded[0].searched, 4);
    assert_eq!(loaded[1].title, "Alpha");
    assert_eq!(loaded[1].content, "alpha body");
    assert_eq!(loaded[1].copied, 1);
    assert_eq!(loaded[1].searched, 2);
    assert_eq!(loaded[2].title, "Loose a");
    assert_eq!(loaded[2].content, "A");
    assert_eq!(loaded[2].copied, 0);
    assert_eq!(loaded[3].title, "Loose b");
    assert_eq!(loaded[3].content, "B");
}

#[test]
fn load_does_not_depend_on_the_listing_order() {
    let index = PromptIndex {
        version: 1,
        prompts: vec![entry("x", "x.md", "X", 0, 0), entry("y", "y.md", "Y", 0, 0)],
    };
    let names = ["b.md", "y.md", "a.md", "x.md", "c.md"];
    let orders: [[usize; 5]; 4] =
        [[0, 1, 2, 3, 4], [4, 3, 2, 1, 0], [2, 0, 4, 1, 3], [3, 1, 0, 2, 4]];
    for order in orders {
        let files: Vec<PromptFile> = order.iter().map(|i| file(names[*i], names[*i])).collect();
        let loaded = load_prompts(&index, &files);
        assert_eq!(ids(&loaded), strings(&["x", "y", "a", "b", "c"]));
    }
}

#[test]
fn load_takes_the_last_entry_of_a_file() {
    let index = PromptIndex {
        version: 1,
        prompts: vec![
            entry("old", "a.md", "Old", 1, 1),
            entry("b", "b.md", "B", 0, 0),
            entry("new", "a.md", "New", 2, 2),
        ],
    };
    let files = vec![file("a.md", "body a"), file("b.md", "body b")];
    let loaded = load_prompts(&index, &files);
    assert_eq!(ids(&loaded), strings(&["b", "new"]));
    assert_eq!(loaded[1].title, "New");
    assert_eq!(loaded[1].copied, 2);
    assert_eq!(find_entry(&index, "a.md"), Some(2));
    assert_eq!(find_entry(&index, "b.md"), Some(1));
    assert_eq!(find_entry(&index, "c.md"), None);
    assert_eq!(file_rank(&index, "a.md"), 2);
    assert_eq!(file_rank(&index, "c.md"), 3);
    assert_eq!(find_by_id(&index, "old"), Some(0));
    assert_eq!(find_by_id(&index, "nobody"), None);
}

#[test]
fn load_of_nothing_is_empty() {
    let index = PromptIndex::empty();
    assert!(load_prompts(&index, &Vec::new()).is_empty());
    assert!(load_prompts(&index, &vec![file("index.json", "{}"), file("a.txt", "")]).is_empty());
    assert!(display_order(&index, &vec![file("a.txt", "")]).is_empty());
}

#[test]
fn display_order_gives_positions() {
    let index = PromptIndex { version: 1, prompts: vec![entry("c", "c.md", "C", 0, 0)] };
    let files = vec![file("b.md", ""), file("skip.txt", ""), file("c.md", ""), file("a.md", "")];
    assert_eq!(display_order(&index, &files), vec![2, 3, 0]);
}

#[test]
fn record_of_prefers_the_index() {
    let index = PromptIndex { version: 1, prompts: vec![entry("id-1", "a.md", "Shown", 5, 6)] };
    let known = record_of(&index, &file("a.md", "disk"));
    assert_eq!(known.id, "id-1");
    assert_eq!(known.title, "Shown");
    assert_eq!(known.content, "disk");
    assert_eq!(known.copied, 5);
    assert_eq!(known.searched, 6);
    let loose = record_of(&index, &file("my-notes.md", "text"));
    assert_eq!(loose.id, "my-notes");
    assert_eq!(loose.title, "My notes");
    assert_eq!(loose.content, "text");
    assert_eq!(loose.copied, 0);
    assert_eq!(loose.searched, 0);
}

#[test]
fn load_names_a_loose_file_after_its_stem() {
    let index = PromptIndex::empty();
    let loaded = load_prompts(&index, &vec![file("a.md.md", "x")]);
    assert_eq!(loaded.len(), 1);
    assert_eq!(loaded[0].id, "a.md");
    assert_eq!(loaded[0].title, "A.md");
    assert_eq!(loaded[0].content, "x");

    let both = load_prompts(&index, &vec![file("a.md.md", "long"), file("a.md", "short")]);
    assert_eq!(ids(&both), strings(&["a", "a.md"]));
    assert_eq!(both[0].content, "short");
    assert_eq!(both[1].content, "long");

    let bare = load_prompts(&index, &vec![file(".md", "")]);
    assert_eq!(ids(&bare), strings(&[""]));
    assert_eq!(bare[0].title, "");
}

#[test]
fn load_with_unreadable_index_reads_the_files_alone() {
    let index = read_index(None);
    let files = vec![file("pr-review.md", "Second"), file("bug-triage.md", "First")];
    let loaded = load_prompts(&index, &files);
    assert_eq!(ids(&loaded), strings(&["bug-triage", "pr-review"]));
    assert_eq!(loaded[0].title, "Bug triage");
    assert_eq!(loaded[0].content, "First");
    assert_eq!(loaded[1].title, "Pr review");
    assert_eq!(loaded[1].content, "Second");
}

#[test]
fn save_plans_files_index_and_removals() {
    let before = now_unix_secs();
    let listing = strings(&["old.md", "bug-triage.md", "notes.txt", "index.json", "dir.md"]);
    let plan = save_prompts(
        vec![
            prompt("a", "Bug Triage", "First", 1, 2),
            prompt("b", "Bug Triage", "Second", 3, 4),
            prompt("c", "", "Third", 0, 0),
        ],
        &listing,
    );
    let after = now_unix_secs();

    let written: Vec<(String, String)> =
        plan.files.iter().map(|f| (f.name.clone(), f.content.clone())).collect();
    assert_eq!(
        written,
        vec![
            ("bug-triage.md".to_string(), "First".to_string()),
            ("bug-triage-2.md".to_string(), "Second".to_string()),
            ("untitled.md".to_string(), "Third".to_string()),
        ]
    );
    assert_eq!(plan.remove, strings(&["old.md", "dir.md"]));
    assert_eq!(plan.index.version, 1);
    assert_eq!(plan.index.prompts.len(), 3);
    let second = &plan.index.prompts[1];
    assert_eq!(second.id, "b");
    assert_eq!(second.file, "bug-triage-2.md");
    assert_eq!(second.title, "Bug Triage");
    assert_eq!(second.copied, 3);
    assert_eq!(second.searched, 4);
    for e in &plan.index.prompts {
        assert!(before <= e.updated_at && e.updated_at <= after);
    }
}

#[test]
fn save_of_nothing_removes_every_prompt_file() {
    let plan = save_prompts(Vec::new(), &strings(&["a.md", "b.md", "keep.txt"]));
    assert!(plan.files.is_empty());
    assert!(plan.index.prompts.is_empty());
    assert_eq!(plan.index.version, 1);
    assert_eq!(plan.remove, strings(&["a.md", "b.md"]));
}

#[test]
fn saving_the_same_set_again_removes_nothing() {
    let prompts =
        vec![prompt("a", "Bug Triage", "First", 0, 0), prompt("b", "PR Review", "Second", 0, 0)];
    let first = save_prompts(prompts.clone(), &Vec::new());
    let listing: Vec<String> = first.files.iter().map(|f| f.name.clone()).collect();
    let second = save_prompts(prompts, &listing);
    assert!(second.remove.is_empty());
    let again: Vec<String> = second.files.iter().map(|f| f.name.clone()).collect();
    assert_eq!(again, listing);
}

#[test]
fn orphan_files_are_the_unkept_markdown_files() {
    let listing = strings(&["a.md", "b.md", "c.txt", "d.md"]);
    assert_eq!(orphan_files(&listing, &strings(&["b.md"])), strings(&["a.md", "d.md"]));
    assert_eq!(orphan_files(&listing, &listing), Vec::<String>::new());
    assert_eq!(orphan_files(&Vec::new(), &strings(&["b.md"])), Vec::<String>::new());
}

#[test]
fn index_entry_copies_the_metadata() {
    let e = index_entry(&prompt("id", "Title", "Body", 8, 9), &"title.md".to_string(), 1234);
    assert_eq!(e.id, "id");
    assert_eq!(e.file, "title.md");
    assert_eq!(e.title, "Title");
    assert_eq!(e.copied, 8);
    assert_eq!(e.searched, 9);
    assert_eq!(e.updated_at, 1234);
}

#[test]
fn round_trip_keeps_counters_and_order_for_any_listing_order() {
    let prompts = vec![
        prompt("3", "Same", "c", 5, 6),
        prompt("1", "Same", "a", 1, 2),
        prompt("2", "Other", "b", 3, 4),
        prompt("4", "same", "d", 7, 8),
    ];
    let plan = save_prompts(prompts.clone(), &strings(&["stale.md"]));
    let mut files: Vec<PromptFile> = plan.files.clone();
    files.reverse();
    files.push(file("notes.txt", "not a prompt"));
    let loaded = load_prompts(&plan.index, &files);
    assert_eq!(loaded.len(), prompts.len());
    for (got, want) in loaded.iter().zip(prompts.iter()) {
        assert_eq!(got.id, want.id);
        assert_eq!(got.title, want.title);
        assert_eq!(got.content, want.content);
        assert_eq!(got.copied, want.copied);
        assert_eq!(got.searched, want.searched);
    }
}

#[test]
fn lookup_prefers_the_indexed_file() {
    let base = "/store";
    let index = PromptIndex {
        version: 1,
        prompts: vec![
            entry("a", "custom.md", "Bug Triage", 0, 0),
            entry("a", "shadowed.md", "Bug Triage", 0, 0),
        ],
    };
    assert_eq!(
        lookup_candidates(base, &index, "a", "Bug Triage"),
        strings(&["/store/custom.md", "/store/bug-triage.md"])
    );
    assert_eq!(
        lookup_candidates(base, &index, "zzz", "Bug Triage"),
        strings(&["/store/bug-triage.md"])
    );

    let both = strings(&["/store/bug-triage.md", "/store/custom.md"]);
    assert_eq!(
        prompt_file_for(base, &index, "a", "Bug Triage", &both),
        Some("/store/custom.md".to_string())
    );
    let only_slug = strings(&["/store/bug-triage.md"]);
    assert_eq!(
        prompt_file_for(base, &index, "a", "Bug Triage", &only_slug),
        Some("/store/bug-triage.md".to_string())
    );
    assert_eq!(
        prompt_file_for(base, &index, "other", "Bug Triage", &both),
        Some("/store/bug-triage.md".to_string())
    );
    assert_eq!(prompt_file_for(base, &index, "a", "Bug Triage", &Vec::new()), None);
    assert_eq!(
        prompt_file_for(base, &index, "a", "Bug Triage", &strings(&["/store/shadowed.md"])),
        None
    );
}

#[test]
fn get_prompt_path_answers_path_or_message() {
    let base = "/store";
    let index = PromptIndex { version: 1, prompts: vec![entry("a", "a.md", "A", 0, 0)] };
    assert_eq!(
        get_prompt_path(base, &index, "a", "A", &strings(&["/store/a.md"])),
        Ok("/store/a.md".to_string())
    );
    assert_eq!(
        get_prompt_path(base, &index, "a", "A", &Vec::new()),
        Err("Prompt file not found yet. Try again after autosave.".to_string())
    );
}

#[test]
fn editor_names_are_known_or_not() {
    assert_eq!(editor_app_name("cursor"), Some("Cursor".to_string()));
    assert_eq!(editor_app_name("vscode"), Some("Visual Studio Code".to_string()));
    assert_eq!(editor_app_name("zed"), Some("Zed".to_string()));
    assert_eq!(editor_app_name("vim"), None);
    assert_eq!(editor_app_name("Cursor"), None);
    assert_eq!(editor_app_name(""), None);
}

#[test]
fn scratch_files_carry_slug_and_time() {
    assert_eq!(scratch_file_name("Bug Triage", 1700000000), "bug-triage-1700000000.md");
    assert_eq!(scratch_file_name("", 0), "untitled-0.md");
    let long = "a".repeat(100);
    assert_eq!(scratch_file_name(&long, 5), format!("{}-5.md", "a".repeat(72)));
    assert_eq!(scratch_dir("/home/u"), "/home/u/.config/promptbook/.tmp");
}

#[test]
fn clock_reads_seconds_since_the_epoch() {
    assert_eq!(secs_or_zero(None), 0);
    assert_eq!(secs_or_zero(Some(5)), 5);
    assert_eq!(secs_or_zero(Some(u64::MAX)), u64::MAX);
    let now = now_unix_secs();
    assert!(now > 1_600_000_000);
    assert!(now_unix_secs() >= now);
}
