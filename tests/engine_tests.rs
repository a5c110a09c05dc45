use hugo_translator::config::{
    ConfigError, HugoConfig, HugoConfigDTO, HugoModuleDTO, HugoMountDTO, LanguageConfig,
    LanguageEntry,
};
use hugo_translator::drafts::draft_files;
use hugo_translator::engine::{
    front_matter_of, plan_translations, DocumentError, FileMetadata, TranslationIndex,
    TranslationTask,
};
use hugo_translator::translator::{DryRunTranslator, Translator};

fn mount(lang: Option<&str>, source: &str) -> HugoMountDTO {
    HugoMountDTO { lang: lang.map(|l| l.to_string()), source: source.to_string() }
}

fn entry(id: &str, name: &str) -> LanguageEntry {
    LanguageEntry { identifier: id.to_string(), language_name: name.to_string() }
}

fn dto(languages: Vec<LanguageEntry>, mounts: Vec<HugoMountDTO>) -> HugoConfigDTO {
    HugoConfigDTO {
        default_content_language: "en".to_string(),
        content_dir: None,
        languages,
        module: HugoModuleDTO { mounts },
    }
}

fn en_fr() -> HugoConfig {
    let c = dto(
        vec![entry("en", "English"), entry("fr", "Français")],
        vec![mount(Some("en"), "content/en"), mount(Some("fr"), "content/fr"), mount(None, "static")],
    );
    HugoConfig::new(&c, "site").unwrap()
}

fn doc(path: &str, lang: &str, key: &str) -> FileMetadata {
    FileMetadata::try_from(path.to_string(), lang.to_string(), key.to_string()).unwrap()
}

/// A backend whose path call returns `a.md` and whose body call returns `BODY`.
struct Fixed;

impl Translator for Fixed {
    fn generator(&self) -> &str {
        "fixed"
    }
    fn translate_path(&self, _p: &String, _f: &String, _t: &String) -> Result<String, String> {
        Ok("a.md".to_string())
    }
    fn translate_content(&self, _x: &String, _f: &String, _t: &String, _h: String) -> Result<String, String> {
        Ok("BODY".to_string())
    }
}

/// What a run writes: (destination, body) for each task.
fn writes(tasks: &[TranslationTask], backend: &dyn Translator) -> Vec<(String, String)> {
    tasks
        .iter()
        .map(|t| {
            let from = t.source.language_identifier.clone();
            let p = backend.translate_path(&t.relative_path, &from, &t.target_language).unwrap();
            let body = backend
                .translate_content(&"text".to_string(), &from, &t.target_language, "hash".to_string())
                .unwrap();
            (t.destination(&p), body)
        })
        .collect()
}

#[test]
fn config_lists_mounted_languages_in_order() {
    let c = en_fr();
    assert_eq!(c.len(), 2);
    let l: &LanguageConfig = &c.language_configs[0];
    assert_eq!(l.identifier, "en");
    assert_eq!(l.language_name, "English");
    assert_eq!(l.content_dir, "site/content/en");
    assert_eq!(c.language_configs[1].content_dir, "site/content/fr");
    assert!(c.get(&"fr".to_string()).is_some());
    assert!(c.get(&"de".to_string()).is_none());
}

#[test]
fn config_later_mount_replaces_directory() {
    let c = dto(
        vec![entry("en", "English"), entry("fr", "Français")],
        vec![mount(Some("en"), "a"), mount(Some("fr"), "b"), mount(Some("en"), "c")],
    );
    let c = HugoConfig::new(&c, "/r/").unwrap();
    assert_eq!(c.language_configs[0].identifier, "en");
    assert_eq!(c.language_configs[0].content_dir, "/r/c");
    assert_eq!(c.language_configs[1].content_dir, "/r/b");
}

#[test]
fn single_language_error() {
    let c = dto(vec![entry("en", "English")], vec![mount(Some("en"), "content/en")]);
    assert_eq!(HugoConfig::new(&c, "site").unwrap_err(), ConfigError::NoTranslationPossible);
}

#[test]
fn config_unknown_language() {
    let c = dto(
        vec![entry("en", "English")],
        vec![mount(Some("en"), "content/en"), mount(Some("de"), "content/de")],
    );
    assert_eq!(HugoConfig::new(&c, "site").unwrap_err(), ConfigError::UnknownLanguage("de".to_string()));
}

#[test]
fn config_language_without_mount() {
    let c = dto(
        vec![entry("en", "English"), entry("fr", "Français"), entry("it", "Italiano")],
        vec![mount(Some("en"), "content/en"), mount(Some("fr"), "content/fr")],
    );
    assert_eq!(HugoConfig::new(&c, "site").unwrap_err(), ConfigError::MissingContentDir("it".to_string()));
}

#[test]
fn single_missing_target() {
    let c = en_fr();
    let docs = vec![doc("site/content/en/a.md", "en", "alpha")];
    let tasks = plan_translations(&c, &docs, &vec![]);
    assert_eq!(tasks.len(), 1);
    assert_eq!(tasks[0].target_language, "fr");
    assert_eq!(tasks[0].relative_path, "a.md");
    assert_eq!(writes(&tasks, &Fixed), vec![("site/content/fr/a.md".to_string(), "BODY".to_string())]);
}

#[test]
fn no_work() {
    let c = en_fr();
    let docs = vec![doc("site/content/en/a.md", "en", "alpha"), doc("site/content/fr/a.md", "fr", "alpha")];
    assert!(plan_translations(&c, &docs, &vec![]).is_empty());
}

#[test]
fn draft_skip() {
    let c = en_fr();
    let docs = vec![doc("site/content/en/a.md", "en", "alpha")];
    let drafts = draft_files("site", "path,slug,title\ncontent/en/a.md,a,A\n");
    assert_eq!(drafts, vec!["site/content/en/a.md".to_string()]);
    assert!(plan_translations(&c, &docs, &drafts).is_empty());
    let tasks = plan_translations(&c, &docs, &vec![]);
    assert_eq!(writes(&tasks, &Fixed), vec![("site/content/fr/a.md".to_string(), "BODY".to_string())]);
}

#[test]
fn draft_still_counts_as_present() {
    let c = en_fr();
    let docs = vec![doc("site/content/en/a.md", "en", "alpha"), doc("site/content/fr/a.md", "fr", "alpha")];
    let drafts = vec!["site/content/fr/a.md".to_string()];
    assert!(plan_translations(&c, &docs, &drafts).is_empty());
}

#[test]
fn missing_key_ignored() {
    let content = "---\ntitle: B\n---\nbody\n";
    let yaml = front_matter_of(&"site/content/en/b.md".to_string(), content).unwrap();
    assert_eq!(yaml, "title: B");
    assert!(!yaml.contains("translationKey"));
    let c = en_fr();
    assert!(plan_translations(&c, &vec![], &vec![]).is_empty());
}

#[test]
fn dry_run_writes_to_null_sink() {
    let c = en_fr();
    let docs = vec![doc("site/content/en/a.md", "en", "alpha")];
    let tasks = plan_translations(&c, &docs, &vec![]);
    let w = writes(&tasks, &DryRunTranslator);
    assert_eq!(w, vec![("/dev/null".to_string(), "DRY_RUN".to_string())]);
    assert!(!w[0].0.starts_with("site/content"));
    assert_eq!(DryRunTranslator.generator(), "DRY_RUN");
}

#[test]
fn trait_prompts_name_the_generator() {
    let p = Fixed.content_translate_prompt(&"B".to_string(), &"en".to_string(), &"fr".to_string(), "h".to_string());
    assert!(p.contains("`translator: \"fixed\"`"));
    assert!(p.contains("`# GENERATED BY fixed`"));
    assert!(p.ends_with("```md\nB\n```"));
    assert_eq!(
        Fixed.path_translate_prompt(&"a.md".to_string(), &"en".to_string(), &"fr".to_string()),
        "Translate the file path \"a.md\" from en to fr"
    );
}

#[test]
fn order_of_languages_does_not_change_tasks() {
    let three = |order: [&str; 3]| {
        let ms = order.iter().map(|l| mount(Some(l), &format!("content/{}", l))).collect();
        let c = dto(vec![entry("en", "E"), entry("fr", "F"), entry("de", "D")], ms);
        HugoConfig::new(&c, "s").unwrap()
    };
    let docs = vec![doc("s/content/en/a.md", "en", "alpha"), doc("s/content/de/b.md", "de", "beta")];
    let key = |t: &TranslationTask| (t.source.path.clone(), t.target_language.clone(), t.target_content_dir.clone());
    let mut a: Vec<_> = plan_translations(&three(["en", "fr", "de"]), &docs, &vec![]).iter().map(key).collect();
    let mut b: Vec<_> = plan_translations(&three(["de", "en", "fr"]), &docs, &vec![]).iter().map(key).collect();
    a.sort();
    b.sort();
    assert_eq!(a.len(), 4);
    assert_eq!(a, b);
}

#[test]
fn every_key_reaches_every_language() {
    let c = en_fr();
    let docs = vec![
        doc("site/content/en/a.md", "en", "alpha"),
        doc("site/content/fr/b.md", "fr", "beta"),
        doc("site/content/en/c.md", "en", "gamma"),
        doc("site/content/fr/c.md", "fr", "gamma"),
    ];
    let tasks = plan_translations(&c, &docs, &vec![]);
    let mut cells: Vec<(String, String)> =
        docs.iter().map(|d| (d.translation_key.clone(), d.language_identifier.clone())).collect();
    for t in &tasks {
        let cell = (t.source.translation_key.clone(), t.target_language.clone());
        assert!(!cells.contains(&cell));
        cells.push(cell);
    }
    for k in ["alpha", "beta", "gamma"] {
        for l in ["en", "fr"] {
            assert!(cells.contains(&(k.to_string(), l.to_string())));
        }
    }
}

#[test]
fn duplicate_cell_keeps_first() {
    let mut index = TranslationIndex::new();
    assert!(index.insert(doc("x/en/a.md", "en", "alpha")));
    assert!(!index.insert(doc("x/en/b.md", "en", "alpha")));
    assert!(index.contains(&"alpha".to_string(), &"en".to_string()));
    assert!(!index.contains(&"alpha".to_string(), &"fr".to_string()));
    let c = en_fr();
    let docs = vec![doc("site/content/en/a.md", "en", "alpha"), doc("site/content/en/b.md", "en", "alpha")];
    let tasks = plan_translations(&c, &docs, &vec![]);
    assert_eq!(tasks.len(), 1);
    assert_eq!(tasks[0].source.path, "site/content/en/a.md");
}

#[test]
fn metadata_base_name() {
    let m = doc("site/content/en/post.draft.md", "en", "k");
    assert_eq!(m.base_name, "post.draft");
    assert_eq!(
        FileMetadata::try_from("site/..".to_string(), "en".to_string(), "k".to_string()).unwrap_err(),
        DocumentError::FileHasNoName
    );
}

#[test]
fn front_matter_missing_is_an_error() {
    let p = "site/content/en/c.md".to_string();
    assert_eq!(front_matter_of(&p, "no fences\n---\n").unwrap_err(), DocumentError::NoFrontMatterFound(p.clone()));
}

#[test]
fn dry_run_trait_methods() {
    let d = DryRunTranslator;
    let en = "en".to_string();
    let fr = "fr".to_string();
    assert_eq!(d.translate_path(&"a.md".to_string(), &en, &fr), Ok("/dev/null".to_string()));
    assert_eq!(d.translate_content(&"BODY".to_string(), &en, &fr, "hash".to_string()), Ok("DRY_RUN".to_string()));
    let p = d.content_translate_prompt(&"BODY".to_string(), &en, &fr, "hash".to_string());
    assert!(p.starts_with("Translate the following Hugo SSG markdown content file from en to fr. "));
    assert!(p.contains("`translator: \"DRY_RUN\"` and `sourceHash: \"hash\"`"));
    assert!(p.contains("`# GENERATED BY DRY_RUN`"));
    assert!(p.contains("Remove italics from words in fr and add italics to words in en."));
    assert!(p.ends_with("\n\n```md\nBODY\n```"));
}
