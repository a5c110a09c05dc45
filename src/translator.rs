use vstd::prelude::*;

verus! {

/// `Translate the file path "<path>" from <from> to <to>`.
pub open spec fn path_prompt(path: Seq<char>, from_lang: Seq<char>, to_lang: Seq<char>) -> Seq<char> {
    "Translate the file path \""@ + path + "\" from "@ + from_lang + " to "@ + to_lang
}

/// The instruction sent to translate a document body written in `from_lang`
/// into `to_lang`, with the body embedded in a fenced Markdown block.
pub open spec fn content_prompt(
    generator: Seq<char>,
    text: Seq<char>,
    from_lang: Seq<char>,
    to_lang: Seq<char>,
    source_hash: Seq<char>,
) -> Seq<char> {
    "Translate the following Hugo SSG markdown content file from "@ + from_lang + " to "@ + to_lang
        + ". Do not translate YAML items in `read_allowed` and `translationKey`. Add YAML front matter keys `translator: \""@
        + generator + "\"` and `sourceHash: \""@ + source_hash
        + "\"` before all other keys and `# GENERATED BY "@ + generator
        + "` at the very start of the front matter. Remove italics from words in "@ + to_lang
        + " and add italics to words in "@ + from_lang
        + ". Do not translate \"TODO\" and \"FIXME\".\n\n```md\n"@ + text + "\n```"@
}

/// The prompt that asks for the translation of a file path.
pub fn path_translate_prompt(path: &str, from_lang: &str, to_lang: &str) -> (r: String)
    ensures
        r@ == path_prompt(path@, from_lang@, to_lang@),
{
    let mut r = String::new();
    r.append("Translate the file path \"");
    r.append(path);
    r.append("\" from ");
    r.append(from_lang);
    r.append(" to ");
    r.append(to_lang);
    assert(r@ =~= path_prompt(path@, from_lang@, to_lang@));
    r
}

/// The prompt that asks for the translation of a document body.
pub fn content_translate_prompt(
    generator: &str,
    text: &str,
    from_lang: &str,
    to_lang: &str,
    source_hash: &str,
) -> (r: String)
    ensures
        r@ == content_prompt(generator@, text@, from_lang@, to_lang@, source_hash@),
{
    let mut r = String::new();
    r.append("Translate the following Hugo SSG markdown content file from ");
    r.append(from_lang);
    r.append(" to ");
    r.append(to_lang);
    r.append(
        ". Do not translate YAML items in `read_allowed` and `translationKey`. Add YAML front matter keys `translator: \"",
    );
    r.append(generator);
    r.append("\"` and `sourceHash: \"");
    r.append(source_hash);
    r.append("\"` before all other keys and `# GENERATED BY ");
    r.append(generator);
    r.append("` at the very start of the front matter. Remove italics from words in ");
    r.append(to_lang);
    r.append(" and add italics to words in ");
    r.append(from_lang);
    r.append(". Do not translate \"TODO\" and \"FIXME\".\n\n```md\n");
    r.append(text);
    r.append("\n```");
    assert(r@ =~= content_prompt(generator@, text@, from_lang@, to_lang@, source_hash@));
    r
}

/// A translation backend.
pub trait Translator {
    /// Name of the generator (eg. "gpt-3.5-turbo-1106", "GPT-4", "DeepL"…).
    fn generator(&self) -> &str;

    /// Translates a file path.
    fn translate_path(&self, path: &String, from_lang: &String, to_lang: &String) -> Result<String, String>;

    /// Translates a document body.
    fn translate_content(
        &self,
        text: &String,
        from_lang: &String,
        to_lang: &String,
        source_hash: String,
    ) -> Result<String, String>;

    /// The prompt that asks this backend for the translation of a file path.
    fn path_translate_prompt(&self, path: &String, from_lang: &String, to_lang: &String) -> (r: String)
        ensures
            r@ == path_prompt(path@, from_lang@, to_lang@),
    {
        path_translate_prompt(path.as_str(), from_lang.as_str(), to_lang.as_str())
    }

    /// The prompt that asks this backend for the translation of a document
    /// body, naming the backend's generator.
    fn content_translate_prompt(
        &self,
        text: &String,
        from_lang: &String,
        to_lang: &String,
        source_hash: String,
    ) -> (r: String)
        ensures
            exists|g: Seq<char>| r@ == content_prompt(g, text@, from_lang@, to_lang@, source_hash@),
    {
        content_translate_prompt(self.generator(), text.as_str(), from_lang.as_str(), to_lang.as_str(), source_hash.as_str())
    }
}

/// The sentinel path that the dry-run backend translates every path to.
pub const DRY_RUN_PATH: &'static str = "/dev/null";

/// The body that the dry-run backend translates every document to.
pub const DRY_RUN: &'static str = "DRY_RUN";

/// A backend that translates nothing: every path becomes the null sink and
/// every body `DRY_RUN`.
#[derive(Debug, Clone, Copy)]
pub struct DryRunTranslator;

impl DryRunTranslator {
    pub fn generator_name(&self) -> (r: &'static str)
        ensures
            r@ == DRY_RUN@,
    {
        DRY_RUN
    }

    pub fn path_of(&self) -> (r: String)
        ensures
            r@ == DRY_RUN_PATH@,
    {
        DRY_RUN_PATH.to_owned()
    }

    pub fn content_of(&self) -> (r: String)
        ensures
            r@ == DRY_RUN@,
    {
        DRY_RUN.to_owned()
    }
}

impl Translator for DryRunTranslator {
    fn generator(&self) -> (r: &str)
        ensures
            r@ == DRY_RUN@,
    {
        self.generator_name()
    }

    fn translate_path(&self, _path: &String, _from_lang: &String, _to_lang: &String) -> (r: Result<
        String,
        String,
    >)
        ensures
            r matches Ok(p) && p@ == DRY_RUN_PATH@,
    {
        Ok(self.path_of())
    }

    fn translate_content(
        &self,
        _text: &String,
        _from_lang: &String,
        _to_lang: &String,
        _source_hash: String,
    ) -> (r: Result<String, String>)
        ensures
            r matches Ok(b) && b@ == DRY_RUN@,
    {
        Ok(self.content_of())
    }

    fn content_translate_prompt(
        &self,
        text: &String,
        from_lang: &String,
        to_lang: &String,
        source_hash: String,
    ) -> (r: String)
        ensures
            r@ == content_prompt(DRY_RUN@, text@, from_lang@, to_lang@, source_hash@),
    {
        content_translate_prompt(self.generator_name(), text.as_str(), from_lang.as_str(), to_lang.as_str(), source_hash.as_str())
    }
}

/// The kinds of backend.
#[derive(Debug, Clone, Copy, PartialEq, Eq)]
pub enum BackendKind {
    DryRun,
    Automatic,
    Manual,
}

/// Dry run when asked for, else automatic when asked for, else manual.
pub fn select_backend(dry_run: bool, auto: bool) -> (r: BackendKind)
    ensures
        r == (if dry_run {
            BackendKind::DryRun
        } else if auto {
            BackendKind::Automatic
        } else {
            BackendKind::Manual
        }),
{
    if dry_run {
        BackendKind::DryRun
    } else if auto {
        BackendKind::Automatic
    } else {
        BackendKind::Manual
    }
}

/// The assistant description used when none is configured.
pub const DEFAULT_ASSISTANT_DESCRIPTION: &'static str = "Test assistant";

/// `configured` if given, else `default`.
pub fn setting_or(configured: Option<String>, default: &str) -> (r: String)
    ensures
        r@ == match configured {
            Some(v) => v@,
            None => default@,
        },
{
    match configured {
        Some(v) => v,
        None => default.to_owned(),
    }
}

} // verus!
