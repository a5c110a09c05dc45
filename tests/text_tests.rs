use hugo_translator::drafts::draft_files;
use hugo_translator::front_matter::{extract_front_matter, FrontMatterError};
use hugo_translator::names::{is_markdown, path_file_stem};
use hugo_translator::paths::{join_path, relative_path};
use hugo_translator::session::{concat_texts, poll_decision, PollAction};
use hugo_translator::text::{chars_of, is_whitespace};
use hugo_translator::translator::{
    content_translate_prompt, path_translate_prompt, select_backend, setting_or, BackendKind,
    DEFAULT_ASSISTANT_DESCRIPTION,
};

#[test]
fn front_matter_between_first_two_fences() {
    let s = "---\ntranslationKey: alpha\ntitle: A\n---\nbody\n---\n";
    assert_eq!(extract_front_matter(s).unwrap(), "translationKey: alpha\ntitle: A");
}

#[test]
fn front_matter_fences_may_carry_whitespace() {
    let s = "intro\r\n  ---  \r\ntranslationKey: x\r\n---\r\n";
    assert_eq!(extract_front_matter(s).unwrap(), "translationKey: x\r");
}

#[test]
fn front_matter_adjacent_fences_are_empty() {
    assert_eq!(extract_front_matter("---\n---").unwrap(), "");
}

#[test]
fn front_matter_needs_two_fences() {
    assert_eq!(extract_front_matter("---\nkey: v\n").unwrap_err(), FrontMatterError::NoFrontMatter);
    assert_eq!(extract_front_matter("").unwrap_err(), FrontMatterError::NoFrontMatter);
    assert_eq!(extract_front_matter("----\nx\n----\n").unwrap_err(), FrontMatterError::NoFrontMatter);
}

#[test]
fn whitespace_set() {
    assert!(is_whitespace(' ') && is_whitespace('\t') && is_whitespace('\u{3000}'));
    assert!(!is_whitespace('-') && !is_whitespace('a'));
    assert_eq!(chars_of("aé"), vec!['a', 'é']);
}

#[test]
fn drafts_from_listing() {
    let listing = "path,slug,title,date\ncontent/en/a.md,a,A,2020\r\ncontent/fr/b.md,b,B,2021\n";
    assert_eq!(
        draft_files("/site", listing),
        vec!["/site/content/en/a.md".to_string(), "/site/content/fr/b.md".to_string()]
    );
    assert!(draft_files("/site", "path,slug\n").is_empty());
    assert!(draft_files("/site", "").is_empty());
    assert_eq!(draft_files("r", "h\nonly"), vec!["r/only".to_string()]);
}

#[test]
fn paths_join_and_strip() {
    assert_eq!(join_path("content/fr", "a/b.md"), "content/fr/a/b.md");
    assert_eq!(join_path("content/fr/", "a.md"), "content/fr/a.md");
    assert_eq!(join_path("content/fr", "/dev/null"), "/dev/null");
    assert_eq!(join_path("", "a.md"), "a.md");
    assert_eq!(relative_path("content/en/x/a.md", "content/en").unwrap(), "x/a.md");
    assert_eq!(relative_path("content/en/a.md", "content/en/").unwrap(), "a.md");
    assert!(relative_path("content/english/a.md", "content/en").is_none());
    assert!(relative_path("other/a.md", "content/en").is_none());
}

#[test]
fn names_of_files() {
    assert!(is_markdown("content/en/a.md"));
    assert!(!is_markdown("content/en/a.mdx"));
    assert!(!is_markdown("content/en/.md"));
    assert!(!is_markdown("content/en.md/a"));
    assert_eq!(path_file_stem("a/b.tar.gz").unwrap(), "b.tar");
    assert_eq!(path_file_stem("a/.hidden").unwrap(), ".hidden");
    assert!(path_file_stem("a/").is_none());
}

#[test]
fn prompts_are_exact() {
    assert_eq!(
        path_translate_prompt("posts/hello.md", "en", "fr"),
        "Translate the file path \"posts/hello.md\" from en to fr"
    );
    let p = content_translate_prompt("GPT-4", "BODY", "en", "fr", "hash");
    assert_eq!(
        p,
        "Translate the following Hugo SSG markdown content file from en to fr. Do not translate YAML items in `read_allowed` and `translationKey`. Add YAML front matter keys `translator: \"GPT-4\"` and `sourceHash: \"hash\"` before all other keys and `# GENERATED BY GPT-4` at the very start of the front matter. Remove italics from words in fr and add italics to words in en. Do not translate \"TODO\" and \"FIXME\".\n\n```md\nBODY\n```"
    );
}

#[test]
fn backend_selection() {
    assert_eq!(select_backend(true, true), BackendKind::DryRun);
    assert_eq!(select_backend(false, true), BackendKind::Automatic);
    assert_eq!(select_backend(false, false), BackendKind::Manual);
    assert_eq!(setting_or(None, DEFAULT_ASSISTANT_DESCRIPTION), "Test assistant");
    assert_eq!(setting_or(Some("x".to_string()), DEFAULT_ASSISTANT_DESCRIPTION), "x");
}

#[test]
fn polling_decisions() {
    assert_eq!(poll_decision(&"completed".to_string(), 0, 10), PollAction::Finish);
    assert_eq!(poll_decision(&"in_progress".to_string(), 0, 10), PollAction::Wait);
    assert_eq!(poll_decision(&"in_progress".to_string(), 9, 10), PollAction::TimedOut);
    assert_eq!(concat_texts(&vec!["ab".to_string(), "".to_string(), "c".to_string()]), "abc");
}
