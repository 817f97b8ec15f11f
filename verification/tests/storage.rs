use promptbook::load::load_prompts;
use promptbook::lookup::{get_prompt_path, lookup_candidates};
use promptbook::names::unique_filename;
use promptbook::paths::{child_path, storage_dir};
use promptbook::record::{read_index, PromptFile, PromptIndex, PromptIndexEntry, PromptRecord};
use promptbook::save::{save_prompts, SavePlan};
use promptbook::slug::{slugify, unslug};

/// A directory held in memory: its files by name, and the index last written.
struct Directory {
    base: String,
    files: Vec<PromptFile>,
    index: Option<PromptIndex>,
}

impl Directory {
    fn new() -> Self {
        Directory { base: "/home/test/.config/promptbook".to_string(), files: vec![], index: None }
    }

    fn listing(&self) -> Vec<String> {
        self.files.iter().map(|f| f.name.clone()).collect()
    }

    fn has_file(&self, name: &str) -> bool {
        self.files.iter().any(|f| f.name == name)
    }

    fn content(&self, name: &str) -> Option<String> {
        self.files.iter().find(|f| f.name == name).map(|f| f.content.clone())
    }

    fn write(&mut self, name: &str, content: &str) {
        self.files.retain(|f| f.name != name);
        self.files.push(PromptFile { name: name.to_string(), content: content.to_string() });
    }

    fn apply(&mut self, plan: SavePlan) {
        for file in &plan.files {
            self.write(&file.name, &file.content);
        }
        for name in &plan.remove {
            self.files.retain(|f| &f.name != name);
        }
        self.index = Some(plan.index);
    }

    fn save(&mut self, prompts: Vec<PromptRecord>) {
        let plan = save_prompts(prompts, &self.listing());
        self.apply(plan);
    }

    fn load(&self) -> Vec<PromptRecord> {
        let index = read_index(self.index.clone());
        load_prompts(&index, &self.files)
    }

    fn path_of(&self, id: &str, title: &str) -> Result<String, String> {
        let index = read_index(self.index.clone());
        let present: Vec<String> = lookup_candidates(&self.base, &index, id, title)
            .into_iter()
            .filter(|path| self.files.iter().any(|f| child_path(&self.base, &f.name) == *path))
            .collect();
        get_prompt_path(&self.base, &index, id, title, &present)
    }
}

fn sample_prompt(id: &str, title: &str, content: &str) -> PromptRecord {
    PromptRecord {
        id: id.to_string(),
        title: title.to_string(),
        content: content.to_string(),
        copied: 0,
        searched: 0,
    }
}

#[test]
fn slugify_handles_basic_and_empty_titles() {
    assert_eq!(slugify("Bug Triage"), "bug-triage");
    assert_eq!(slugify("  !!!  "), "untitled");
    assert_eq!(slugify("Title___With---Noise"), "title-with-noise");
}

#[test]
fn slugify_truncates_to_eighty_chars() {
    let long_title = "a".repeat(120);
    let slug = slugify(&long_title);
    assert_eq!(slug.len(), 80);
    assert!(slug.chars().all(|c| c == 'a'));
}

#[test]
fn unslug_restores_readable_title() {
    assert_eq!(unslug("release-notes"), "Release notes");
}

#[test]
fn unique_filename_adds_numeric_suffixes() {
    let mut used = Vec::new();
    assert_eq!(unique_filename("bug-triage", &mut used), "bug-triage.md");
    assert_eq!(unique_filename("bug-triage", &mut used), "bug-triage-2.md");
    assert_eq!(unique_filename("bug-triage", &mut used), "bug-triage-3.md");
}

#[test]
fn read_index_defaults_when_missing_or_invalid() {
    let missing = read_index(None);
    assert_eq!(missing.version, 1);
    assert!(missing.prompts.is_empty());

    let parsed = serde_json::from_str::<serde_json::Value>("{not-json").ok();
    let invalid = read_index(parsed.map(|_| PromptIndex {
        version: 9,
        prompts: vec![PromptIndexEntry {
            id: "parsed".to_string(),
            file: "parsed.md".to_string(),
            title: "Parsed".to_string(),
            copied: 0,
            searched: 0,
            updated_at: 0,
        }],
    }));
    assert_eq!(invalid.version, 1);
    assert!(invalid.prompts.is_empty());
}

#[test]
fn save_and_load_roundtrip_preserves_order_and_content() {
    let mut dir = Directory::new();
    let prompts = vec![
        sample_prompt("a", "Bug Triage", "First"),
        sample_prompt("b", "PR Review", "Second"),
    ];

    dir.save(prompts.clone());
    let loaded = dir.load();

    assert_eq!(loaded.len(), 2);
    assert_eq!(loaded[0].id, "a");
    assert_eq!(loaded[0].title, "Bug Triage");
    assert_eq!(loaded[0].content, "First");
    assert_eq!(loaded[1].id, "b");
    assert_eq!(loaded[1].title, "PR Review");
    assert_eq!(loaded[1].content, "Second");

    assert!(dir.has_file("bug-triage.md"));
    assert!(dir.has_file("pr-review.md"));
}

#[test]
fn save_prompts_creates_unique_files_for_duplicate_titles() {
    let mut dir = Directory::new();
    let prompts = vec![
        sample_prompt("a", "Bug Triage", "First"),
        sample_prompt("b", "Bug Triage", "Second"),
    ];

    dir.save(prompts);

    assert!(dir.has_file("bug-triage.md"));
    assert!(dir.has_file("bug-triage-2.md"));
}

#[test]
fn save_prompts_removes_deleted_files() {
    let mut dir = Directory::new();
    dir.save(vec![
        sample_prompt("a", "Bug Triage", "First"),
        sample_prompt("b", "PR Review", "Second"),
    ]);

    assert!(dir.has_file("bug-triage.md"));
    assert!(dir.has_file("pr-review.md"));

    dir.save(vec![sample_prompt("b", "PR Review", "Second")]);
    assert!(!dir.has_file("bug-triage.md"));
    assert!(dir.has_file("pr-review.md"));
    assert_eq!(dir.content("pr-review.md"), Some("Second".to_string()));
}

#[test]
fn load_prompts_reads_markdown_without_index_metadata() {
    let mut dir = Directory::new();
    dir.write("release-notes.md", "Hello");

    let loaded = dir.load();
    assert_eq!(loaded.len(), 1);
    assert_eq!(loaded[0].id, "release-notes");
    assert_eq!(loaded[0].title, "Release notes");
    assert_eq!(loaded[0].content, "Hello");
    assert_eq!(loaded[0].copied, 0);
    assert_eq!(loaded[0].searched, 0);
}

#[test]
fn get_prompt_path_prefers_index_mapping_and_falls_back_to_slug() {
    let mut dir = Directory::new();
    dir.save(vec![sample_prompt("a", "Bug Triage", "First")]);

    let by_id = dir.path_of("a", "Ignored").expect("path by id");
    assert!(by_id.ends_with("bug-triage.md"));

    let by_slug = dir.path_of("missing-id", "Bug Triage").expect("path by slug");
    assert!(by_slug.ends_with("bug-triage.md"));
}

#[test]
fn get_prompt_path_errors_when_prompt_does_not_exist() {
    let dir = Directory::new();
    let err = dir.path_of("missing", "Unknown Title").expect_err("expected error");
    assert!(err.contains("Prompt file not found yet"));
}

#[test]
fn load_prompts_errors_when_home_is_unset() {
    let result = storage_dir(None);
    assert!(result.is_err());
    assert_eq!(result.expect_err("expected error"), "HOME is not set");
}
