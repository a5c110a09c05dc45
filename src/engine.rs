use vstd::prelude::*;
use crate::config::{HugoConfig, LanguageView, language_index, unique_identifiers};
use crate::front_matter::{extract_front_matter, has_front_matter, is_front_matter_of};
use crate::names::{file_stem, path_file_stem};
use crate::paths::{join_path, joined, relative_path, relative_to};

verus! {

/// What is known of one translatable document.
#[derive(Debug)]
pub struct FileMetadata {
    pub path: String,
    pub language_identifier: String,
    pub base_name: String,
    pub translation_key: String,
}

/// Why a file gives no document metadata.
#[derive(Debug, Clone, PartialEq, Eq)]
pub enum DocumentError {
    /// The path has no file name.
    FileHasNoName,
    /// The file at this path has no front matter between two `---` lines.
    NoFrontMatterFound(String),
}

impl FileMetadata {
    /// The metadata of the file at `path`, of the language
    /// `language_identifier`, whose front matter gives `translation_key`.
    pub fn try_from(path: String, language_identifier: String, translation_key: String) -> (r: Result<
        FileMetadata,
        DocumentError,
    >)
        ensures
            match file_stem(path@) {
                Some(b) => r matches Ok(m) && m@ == (DocumentView {
                    path: path@,
                    language_identifier: language_identifier@,
                    base_name: b,
                    translation_key: translation_key@,
                }),
                None => r matches Err(DocumentError::FileHasNoName),
            },
    {
        match path_file_stem(path.as_str()) {
            Some(base_name) => Ok(FileMetadata { path, language_identifier, base_name, translation_key }),
            None => Err(DocumentError::FileHasNoName),
        }
    }
}

/// The front matter of the file at `path`, whose text is `content`.
pub fn front_matter_of(path: &String, content: &str) -> (r: Result<String, DocumentError>)
    ensures
        r is Ok <==> has_front_matter(content@),
        r matches Ok(y) ==> is_front_matter_of(content@, y@),
        r matches Err(e) ==> e matches DocumentError::NoFrontMatterFound(p) && p@ == path@,
{
    match extract_front_matter(content) {
        Ok(y) => Ok(y),
        Err(_) => Err(DocumentError::NoFrontMatterFound(path.clone())),
    }
}

pub ghost struct DocumentView {
    pub path: Seq<char>,
    pub language_identifier: Seq<char>,
    pub base_name: Seq<char>,
    pub translation_key: Seq<char>,
}

impl View for FileMetadata {
    type V = DocumentView;

    open spec fn view(&self) -> DocumentView {
        DocumentView {
            path: self.path@,
            language_identifier: self.language_identifier@,
            base_name: self.base_name@,
            translation_key: self.translation_key@,
        }
    }
}

impl Clone for FileMetadata {
    fn clone(&self) -> (r: Self)
        ensures
            r@ == self@,
    {
        FileMetadata {
            path: self.path.clone(),
            language_identifier: self.language_identifier.clone(),
            base_name: self.base_name.clone(),
            translation_key: self.translation_key.clone(),
        }
    }
}

pub open spec fn docs_view(docs: Seq<FileMetadata>) -> Seq<DocumentView> {
    docs.map_values(|d: FileMetadata| d@)
}

pub open spec fn strings_view(v: Seq<String>) -> Seq<Seq<char>> {
    v.map_values(|s: String| s@)
}

/// Some document of `docs` fills the cell (`key`, `lang`).
pub open spec fn cell_present(docs: Seq<DocumentView>, key: Seq<char>, lang: Seq<char>) -> bool {
    exists|i: int|
        0 <= i < docs.len() && (#[trigger] docs[i]).translation_key == key
            && docs[i].language_identifier == lang
}

/// `docs[i]` is the first document of its cell: the one that the index keeps.
pub open spec fn first_of_cell(docs: Seq<DocumentView>, i: int) -> bool {
    forall|j: int|
        0 <= j < i ==> !((#[trigger] docs[j]).translation_key == docs[i].translation_key
            && docs[j].language_identifier == docs[i].language_identifier)
}

/// `docs[i]` serves as a source: it is the one kept for its cell and it is not a draft.
pub open spec fn is_source(docs: Seq<DocumentView>, drafts: Seq<Seq<char>>, i: int) -> bool {
    0 <= i < docs.len() && first_of_cell(docs, i) && !drafts.contains(docs[i].path)
}

/// The path of `d` relative to the content directory of its language.
pub open spec fn source_relative(langs: Seq<LanguageView>, d: DocumentView) -> Option<Seq<char>> {
    match language_index(langs, d.language_identifier) {
        Some(k) => relative_to(d.path, langs[k].content_dir),
        None => None,
    }
}

/// One document to write: `source` translated into `target_language`, under
/// `target_content_dir`.
#[derive(Debug)]
pub struct TranslationTask {
    pub source: FileMetadata,
    pub target_language: String,
    pub target_content_dir: String,
    /// The source's path relative to its own content directory.
    pub relative_path: String,
}

impl TranslationTask {
    /// Where the translation goes: the translated relative path under the
    /// target language's content directory.
    pub fn destination(&self, translated_path: &str) -> (r: String)
        ensures
            r@ == joined(self.target_content_dir@, translated_path@),
    {
        join_path(self.target_content_dir.as_str(), translated_path)
    }
}

pub ghost struct TaskView {
    pub source: DocumentView,
    pub target_language: Seq<char>,
    pub target_content_dir: Seq<char>,
    pub relative_path: Seq<char>,
}

impl View for TranslationTask {
    type V = TaskView;

    open spec fn view(&self) -> TaskView {
        TaskView {
            source: self.source@,
            target_language: self.target_language@,
            target_content_dir: self.target_content_dir@,
            relative_path: self.relative_path@,
        }
    }
}

pub open spec fn tasks_view(tasks: Seq<TranslationTask>) -> Seq<TaskView> {
    tasks.map_values(|t: TranslationTask| t@)
}

/// `t` translates the source `docs[i]` into the language `langs[j]`, which
/// has no document of that key yet.
pub open spec fn is_task_for(
    langs: Seq<LanguageView>,
    docs: Seq<DocumentView>,
    drafts: Seq<Seq<char>>,
    t: TaskView,
    i: int,
    j: int,
) -> bool {
    &&& is_source(docs, drafts, i)
    &&& 0 <= j < langs.len()
    &&& t.source == docs[i]
    &&& t.target_language == langs[j].identifier
    &&& t.target_content_dir == langs[j].content_dir
    &&& !cell_present(docs, docs[i].translation_key, langs[j].identifier)
    &&& source_relative(langs, docs[i]) == Some(t.relative_path)
}

/// A pair that needs a task: a source that lies under its content directory,
/// and a configured language where its key is missing.
pub open spec fn is_gap(
    langs: Seq<LanguageView>,
    docs: Seq<DocumentView>,
    drafts: Seq<Seq<char>>,
    i: int,
    j: int,
) -> bool {
    &&& is_source(docs, drafts, i)
    &&& 0 <= j < langs.len()
    &&& !cell_present(docs, docs[i].translation_key, langs[j].identifier)
    &&& source_relative(langs, docs[i]) is Some
}

/// Every task translates a source into a language that lacks its key.
pub open spec fn plan_sound(
    langs: Seq<LanguageView>,
    docs: Seq<DocumentView>,
    drafts: Seq<Seq<char>>,
    tasks: Seq<TaskView>,
) -> bool {
    forall|t: int|
        0 <= t < tasks.len() ==> #[trigger] task_has_origin(langs, docs, drafts, tasks[t])
}

/// `t` is the task of some gap.
pub open spec fn task_has_origin(
    langs: Seq<LanguageView>,
    docs: Seq<DocumentView>,
    drafts: Seq<Seq<char>>,
    t: TaskView,
) -> bool {
    exists|i: int, j: int| #[trigger] is_task_for(langs, docs, drafts, t, i, j)
}

proof fn lemma_plan_sound(
    langs: Seq<LanguageView>,
    docs: Seq<DocumentView>,
    drafts: Seq<Seq<char>>,
    tasks: Seq<TaskView>,
    wi: Seq<int>,
    wj: Seq<int>,
)
    requires
        wi.len() == tasks.len(),
        wj.len() == tasks.len(),
        forall|t: int|
            #![trigger wi[t]]
            0 <= t < tasks.len() ==> is_task_for(langs, docs, drafts, tasks[t], wi[t], wj[t]),
    ensures
        plan_sound(langs, docs, drafts, tasks),
{
    assert forall|t: int|
        0 <= t < tasks.len() implies #[trigger] task_has_origin(langs, docs, drafts, tasks[t]) by {
        assert(is_task_for(langs, docs, drafts, tasks[t], wi[t], wj[t]));
    }
}

/// Every gap has a task.
pub open spec fn plan_complete(
    langs: Seq<LanguageView>,
    docs: Seq<DocumentView>,
    drafts: Seq<Seq<char>>,
    tasks: Seq<TaskView>,
) -> bool {
    forall|i: int, j: int|
        #[trigger] is_gap(langs, docs, drafts, i, j) ==> exists|t: int|
            0 <= t < tasks.len() && #[trigger] is_task_for(langs, docs, drafts, tasks[t], i, j)
}

/// No (source, target language) pair comes twice.
pub open spec fn plan_distinct(tasks: Seq<TaskView>) -> bool {
    forall|a: int, b: int|
        0 <= a < tasks.len() && 0 <= b < tasks.len() && a != b ==> !(
        #[trigger] tasks[a].source == #[trigger] tasks[b].source && tasks[a].target_language
            == tasks[b].target_language)
}

/// `tasks` holds exactly one task for each gap, and nothing else.
pub open spec fn is_plan(
    langs: Seq<LanguageView>,
    docs: Seq<DocumentView>,
    drafts: Seq<Seq<char>>,
    tasks: Seq<TaskView>,
) -> bool {
    &&& plan_sound(langs, docs, drafts, tasks)
    &&& plan_complete(langs, docs, drafts, tasks)
    &&& plan_distinct(tasks)
}

/// Documents grouped by (translation key, language): at most one per cell,
/// the first one inserted.
#[derive(Debug)]
pub struct TranslationIndex {
    cells: Vec<FileMetadata>,
}

impl View for TranslationIndex {
    type V = Seq<DocumentView>;

    closed spec fn view(&self) -> Seq<DocumentView> {
        docs_view(self.cells@)
    }
}

impl TranslationIndex {
    /// No two documents share a cell.
    pub open spec fn wf(&self) -> bool {
        forall|i: int, j: int|
            0 <= i < self@.len() && 0 <= j < self@.len() && i != j ==> !(
            (#[trigger] self@[i]).translation_key == (#[trigger] self@[j]).translation_key
                && self@[i].language_identifier == self@[j].language_identifier)
    }

    pub fn new() -> (r: Self)
        ensures
            r.wf(),
            r@ == Seq::<DocumentView>::empty(),
    {
        TranslationIndex { cells: Vec::new() }
    }

    /// Whether some document fills the cell (`key`, `lang`).
    pub fn contains(&self, key: &String, lang: &String) -> (r: bool)
        ensures
            r == cell_present(self@, key@, lang@),
    {
        let mut i: usize = 0;
        while i < self.cells.len()
            invariant
                i <= self.cells.len(),
                forall|k: int|
                    0 <= k < i ==> !((#[trigger] self@[k]).translation_key == key@
                        && self@[k].language_identifier == lang@),
            decreases self.cells.len() - i,
        {
            if self.cells[i].translation_key == *key && self.cells[i].language_identifier
                == *lang {
                assert(self@[i as int].translation_key == key@);
                return true;
            }
            i = i + 1;
        }
        false
    }

    /// Puts `doc` in its cell unless that cell is filled already, in which
    /// case the first document stays. Returns whether `doc` was put.
    pub fn insert(&mut self, doc: FileMetadata) -> (r: bool)
        requires
            old(self).wf(),
        ensures
            final(self).wf(),
            r == !cell_present(old(self)@, doc@.translation_key, doc@.language_identifier),
            r ==> final(self)@ == old(self)@.push(doc@),
            !r ==> final(self)@ == old(self)@,
    {
        if self.contains(&doc.translation_key, &doc.language_identifier) {
            return false;
        }
        let ghost before = self@;
        self.cells.push(doc);
        assert(self@ =~= before.push(doc@));
        proof {
            assert forall|i: int, j: int|
                0 <= i < self@.len() && 0 <= j < self@.len() && i != j implies !(
                (#[trigger] self@[i]).translation_key == (#[trigger] self@[j]).translation_key
                    && self@[i].language_identifier == self@[j].language_identifier) by {
                if i < before.len() && j < before.len() {
                    assert(before[i] == self@[i] && before[j] == self@[j]);
                } else if i < before.len() {
                    assert(before[i] == self@[i]);
                } else {
                    assert(before[j] == self@[j]);
                }
            }
        }
        true
    }
}

/// A document sequence with one more document fills exactly the cells it
/// filled before and the new document's.
proof fn lemma_cell_present_push(docs: Seq<DocumentView>, d: DocumentView, key: Seq<char>, lang: Seq<char>)
    ensures
        cell_present(docs.push(d), key, lang) == (cell_present(docs, key, lang) || (
        d.translation_key == key && d.language_identifier == lang)),
{
    let p = docs.push(d);
    if cell_present(p, key, lang) {
        let i = choose|i: int|
            0 <= i < p.len() && (#[trigger] p[i]).translation_key == key
                && p[i].language_identifier == lang;
        if i < docs.len() {
            assert(docs[i] == p[i]);
        }
    }
    if cell_present(docs, key, lang) {
        let i = choose|i: int|
            0 <= i < docs.len() && (#[trigger] docs[i]).translation_key == key
                && docs[i].language_identifier == lang;
        assert(p[i] == docs[i]);
    }
    if d.translation_key == key && d.language_identifier == lang {
        assert(p[docs.len() as int] == d);
    }
}

/// The first document of a cell is the one whose cell no earlier document fills.
proof fn lemma_first_of_cell(docs: Seq<DocumentView>, i: int)
    requires
        0 <= i < docs.len(),
    ensures
        first_of_cell(docs, i) == !cell_present(
            docs.take(i),
            docs[i].translation_key,
            docs[i].language_identifier,
        ),
{
    let t = docs.take(i);
    if cell_present(t, docs[i].translation_key, docs[i].language_identifier) {
        let j = choose|j: int|
            0 <= j < t.len() && (#[trigger] t[j]).translation_key == docs[i].translation_key
                && t[j].language_identifier == docs[i].language_identifier;
        assert(t[j] == docs[j]);
    }
    if !first_of_cell(docs, i) {
        let j = choose|j: int|
            0 <= j < i && ((#[trigger] docs[j]).translation_key == docs[i].translation_key
                && docs[j].language_identifier == docs[i].language_identifier);
        assert(t[j] == docs[j]);
    }
}

impl TranslationIndex {
    /// The index of `docs`, each cell holding the first document of it, and
    /// for each document whether it is the one kept.
    pub fn from_documents(docs: &Vec<FileMetadata>) -> (r: (TranslationIndex, Vec<bool>))
        ensures
            r.0.wf(),
            forall|key: Seq<char>, lang: Seq<char>|
                #[trigger] cell_present(r.0@, key, lang) == cell_present(
                    docs_view(docs@),
                    key,
                    lang,
                ),
            r.1.len() == docs.len(),
            forall|i: int| 0 <= i < docs.len() ==> r.1[i] == first_of_cell(docs_view(docs@), i),
    {
        let ghost dv = docs_view(docs@);
        let mut index = TranslationIndex::new();
        let mut kept: Vec<bool> = Vec::new();
        let mut k: usize = 0;
        while k < docs.len()
            invariant
                dv == docs_view(docs@),
                k <= docs.len(),
                index.wf(),
                kept.len() == k,
                forall|key: Seq<char>, lang: Seq<char>|
                    #[trigger] cell_present(index@, key, lang) == cell_present(
                        dv.take(k as int),
                        key,
                        lang,
                    ),
                forall|i: int| 0 <= i < k ==> kept[i] == first_of_cell(dv, i),
            decreases docs.len() - k,
        {
            let ghost before = index@;
            let d = docs[k].clone();
            assert(d@ == dv[k as int]);
            let put = index.insert(d);
            proof {
                lemma_first_of_cell(dv, k as int);
                assert(dv.take(k as int + 1) =~= dv.take(k as int).push(dv[k as int]));
                assert forall|key: Seq<char>, lang: Seq<char>|
                    #[trigger] cell_present(index@, key, lang) == cell_present(
                        dv.take(k as int + 1),
                        key,
                        lang,
                    ) by {
                    lemma_cell_present_push(dv.take(k as int), dv[k as int], key, lang);
                    if put {
                        lemma_cell_present_push(before, dv[k as int], key, lang);
                    }
                }
            }
            kept.push(put);
            k = k + 1;
        }
        assert(dv.take(docs.len() as int) =~= dv);
        (index, kept)
    }
}

/// Whether `v` holds a string equal to `s`.
pub fn contains_string(v: &Vec<String>, s: &String) -> (r: bool)
    ensures
        r == strings_view(v@).contains(s@),
{
    let mut i: usize = 0;
    while i < v.len()
        invariant
            i <= v.len(),
            forall|k: int| 0 <= k < i ==> (#[trigger] v@[k])@ != s@,
        decreases v.len() - i,
    {
        if v[i] == *s {
            assert(strings_view(v@)[i as int] == s@);
            return true;
        }
        i = i + 1;
    }
    proof {
        if strings_view(v@).contains(s@) {
            let k = choose|k: int| 0 <= k < v@.len() && strings_view(v@)[k] == s@;
            assert(v@[k]@ == s@);
        }
    }
    false
}

/// The translations that a run makes: one task for each source document and
/// each configured language that has no document of the source's key yet.
/// Sources are the documents kept by the index that are not drafts; drafts
/// still count as present in their own language.
pub fn plan_translations(
    config: &HugoConfig,
    documents: &Vec<FileMetadata>,
    drafts: &Vec<String>,
) -> (tasks: Vec<TranslationTask>)
    requires
        config.wf(),
    ensures
        is_plan(config@, docs_view(documents@), strings_view(drafts@), tasks_view(tasks@)),
{
    let ghost langs = config@;
    let ghost dv = docs_view(documents@);
    let ghost dr = strings_view(drafts@);
    let (index, kept) = TranslationIndex::from_documents(documents);
    let mut tasks: Vec<TranslationTask> = Vec::new();
    let ghost mut wi: Seq<int> = Seq::empty();
    let ghost mut wj: Seq<int> = Seq::empty();
    let mut i: usize = 0;
    while i < documents.len()
        invariant
            config.wf(),
            langs == config@,
            dv == docs_view(documents@),
            dr == strings_view(drafts@),
            i <= documents.len(),
            kept.len() == documents.len(),
            forall|k: int| 0 <= k < documents.len() ==> kept[k] == first_of_cell(dv, k),
            forall|key: Seq<char>, lang: Seq<char>|
                #[trigger] cell_present(index@, key, lang) == cell_present(dv, key, lang),
            wi.len() == tasks.len(),
            wj.len() == tasks.len(),
            forall|t: int|
                #![trigger wi[t]]
                0 <= t < tasks.len() ==> wi[t] < i && is_task_for(
                    langs,
                    dv,
                    dr,
                    tasks_view(tasks@)[t],
                    wi[t],
                    wj[t],
                ),
            forall|a: int, b: int|
                0 <= a < b < tasks.len() ==> #[trigger] wi[a] < #[trigger] wi[b] || (wi[a]
                    == wi[b] && wj[a] < wj[b]),
            forall|x: int, j: int|
                0 <= x < i && #[trigger] is_gap(langs, dv, dr, x, j) ==> exists|t: int|
                    0 <= t < tasks.len() && #[trigger] is_task_for(
                        langs,
                        dv,
                        dr,
                        tasks_view(tasks@)[t],
                        x,
                        j,
                    ),
        decreases documents.len() - i,
    {
        let doc = &documents[i];
        assert(doc@ == dv[i as int]);
        if kept[i] && !contains_string(drafts, &doc.path) {
            if let Some(own) = config.get(&doc.language_identifier) {
                if let Some(rel) = relative_path(&doc.path, &own.content_dir) {
                    assert(source_relative(langs, dv[i as int]) == Some(rel@));
                    proof {
                        assert forall|t: int| #![trigger wi[t]] 0 <= t < tasks.len() implies wi[t] <= i && (wi[t]
                            == i ==> wj[t] < 0) && is_task_for(
                            langs,
                            dv,
                            dr,
                            tasks_view(tasks@)[t],
                            wi[t],
                            wj[t],
                        ) by {
                            assert(wi[t] < i);
                        }
                    }
                    let mut j: usize = 0;
                    while j < config.language_configs.len()
                        invariant
                            config.wf(),
                            langs == config@,
                            dv == docs_view(documents@),
                            dr == strings_view(drafts@),
                            i < documents.len(),
                            doc@ == dv[i as int],
                            is_source(dv, dr, i as int),
                            source_relative(langs, dv[i as int]) == Some(rel@),
                            j <= config.language_configs.len(),
                            forall|key: Seq<char>, lang: Seq<char>|
                                #[trigger] cell_present(index@, key, lang) == cell_present(
                                    dv,
                                    key,
                                    lang,
                                ),
                            wi.len() == tasks.len(),
                            wj.len() == tasks.len(),
                            forall|t: int|
                                #![trigger wi[t]]
                                0 <= t < tasks.len() ==> wi[t] <= i && (wi[t] == i ==> wj[t]
                                    < j) && is_task_for(
                                    langs,
                                    dv,
                                    dr,
                                    tasks_view(tasks@)[t],
                                    wi[t],
                                    wj[t],
                                ),
                            forall|a: int, b: int|
                                0 <= a < b < tasks.len() ==> #[trigger] wi[a] < #[trigger] wi[b]
                                    || (wi[a] == wi[b] && wj[a] < wj[b]),
                            forall|x: int, y: int|
                                ((0 <= x < i) || (x == i && y < j)) && #[trigger] is_gap(
                                    langs,
                                    dv,
                                    dr,
                                    x,
                                    y,
                                ) ==> exists|t: int|
                                    0 <= t < tasks.len() && #[trigger] is_task_for(
                                        langs,
                                        dv,
                                        dr,
                                        tasks_view(tasks@)[t],
                                        x,
                                        y,
                                    ),
                        decreases config.language_configs.len() - j,
                    {
                        let target = &config.language_configs[j];
                        assert(target@ == langs[j as int]);
                        if !index.contains(&doc.translation_key, &target.identifier) {
                            let ghost old_tasks = tasks_view(tasks@);
                            tasks.push(
                                TranslationTask {
                                    source: doc.clone(),
                                    target_language: target.identifier.clone(),
                                    target_content_dir: target.content_dir.clone(),
                                    relative_path: rel.clone(),
                                },
                            );
                            proof {
                                let tv = tasks_view(tasks@);
                                assert(tv =~= old_tasks.push(tv[tv.len() - 1]));
                                assert(is_task_for(langs, dv, dr, tv[tv.len() - 1], i as int, j as int));
                                let ghost owi = wi;
                                let ghost owj = wj;
                                assert forall|t: int| 0 <= t < old_tasks.len() implies owi[t] <= i && (owi[t]
                                    == i ==> owj[t] < j) by {
                                    assert(is_task_for(langs, dv, dr, old_tasks[t], owi[t], owj[t]));
                                }
                                wi = wi.push(i as int);
                                wj = wj.push(j as int);
                                assert forall|a: int, b: int|
                                    0 <= a < b < tasks.len() implies #[trigger] wi[a] < #[trigger] wi[b]
                                        || (wi[a] == wi[b] && wj[a] < wj[b]) by {
                                    if b < old_tasks.len() {
                                        assert(owi[a] < owi[b] || (owi[a] == owi[b] && owj[a] < owj[b]));
                                    } else {
                                        assert(owi[a] <= i && (owi[a] == i ==> owj[a] < j));
                                    }
                                }
                                assert forall|t: int| #![trigger wi[t]] 0 <= t < tasks.len() implies wi[t] <= i && (
                                wi[t] == i ==> wj[t] < j + 1) && is_task_for(
                                    langs,
                                    dv,
                                    dr,
                                    tasks_view(tasks@)[t],
                                    wi[t],
                                    wj[t],
                                ) by {
                                    if t < old_tasks.len() {
                                        assert(tv[t] == old_tasks[t]);
                                    }
                                }
                                assert forall|x: int, y: int|
                                    ((0 <= x < i) || (x == i && y < j + 1)) && #[trigger] is_gap(
                                        langs,
                                        dv,
                                        dr,
                                        x,
                                        y,
                                    ) implies exists|t: int|
                                    0 <= t < tasks.len() && #[trigger] is_task_for(
                                        langs,
                                        dv,
                                        dr,
                                        tasks_view(tasks@)[t],
                                        x,
                                        y,
                                    ) by {
                                    if x == i && y == j {
                                        assert(is_task_for(langs, dv, dr, tv[tv.len() - 1], x, y));
                                    } else {
                                        let t = choose|t: int|
                                            0 <= t < old_tasks.len() && #[trigger] is_task_for(
                                                langs,
                                                dv,
                                                dr,
                                                old_tasks[t],
                                                x,
                                                y,
                                            );
                                        assert(tv[t] == old_tasks[t]);
                                    }
                                }
                            }
                        } else {
                            proof {
                                assert forall|x: int, y: int|
                                    ((0 <= x < i) || (x == i && y < j + 1)) && #[trigger] is_gap(
                                        langs,
                                        dv,
                                        dr,
                                        x,
                                        y,
                                    ) implies exists|t: int|
                                    0 <= t < tasks.len() && #[trigger] is_task_for(
                                        langs,
                                        dv,
                                        dr,
                                        tasks_view(tasks@)[t],
                                        x,
                                        y,
                                    ) by {
                                    if x == i && y == j {
                                        assert(cell_present(index@, doc@.translation_key, langs[y].identifier));
                                    }
                                }
                            }
                        }
                        j = j + 1;
                    }
                }
            }
        }
        proof {
            assert forall|x: int, y: int|
                0 <= x < i + 1 && #[trigger] is_gap(langs, dv, dr, x, y) implies exists|t: int|
                0 <= t < tasks.len() && #[trigger] is_task_for(
                    langs,
                    dv,
                    dr,
                    tasks_view(tasks@)[t],
                    x,
                    y,
                ) by {
                if x == i {
                    assert(is_source(dv, dr, x));
                }
            }
        }
        i = i + 1;
    }
    proof {
        let tv = tasks_view(tasks@);
        lemma_plan_sound(langs, dv, dr, tv, wi, wj);
        assert forall|a: int, b: int|
            0 <= a < tv.len() && 0 <= b < tv.len() && a != b implies !(
            #[trigger] tv[a].source == #[trigger] tv[b].source && tv[a].target_language
                == tv[b].target_language) by {
            assert(is_task_for(langs, dv, dr, tv[a], wi[a], wj[a]));
            assert(is_task_for(langs, dv, dr, tv[b], wi[b], wj[b]));
            if tv[a].source == tv[b].source && tv[a].target_language == tv[b].target_language {
                if wi[a] < wi[b] {
                    assert(first_of_cell(dv, wi[b]));
                    assert(dv[wi[a]] == dv[wi[b]]);
                } else if wi[b] < wi[a] {
                    assert(first_of_cell(dv, wi[a]));
                    assert(dv[wi[a]] == dv[wi[b]]);
                } else {
                    assert(langs[wj[a]].identifier == langs[wj[b]].identifier);
                    if a < b {
                        assert(wi[a] < wi[b] || (wi[a] == wi[b] && wj[a] < wj[b]));
                    } else {
                        assert(wi[b] < wi[a] || (wi[b] == wi[a] && wj[b] < wj[a]));
                    }
                }
            }
        }
        assert forall|x: int, y: int|
            #[trigger] is_gap(langs, dv, dr, x, y) implies exists|t: int|
                0 <= t < tv.len() && #[trigger] is_task_for(langs, dv, dr, tv[t], x, y) by {
            assert(0 <= x < i);
        }
        assert(langs == config@);
        assert(tv == tasks_view(tasks@));
        assert(plan_sound(langs, dv, dr, tv));
        assert(plan_complete(langs, dv, dr, tv));
        assert(plan_distinct(tv));
    }
    tasks
}

/// Gap correctness: once every planned task has been written, each key that
/// has a source document exists in every configured language. A key whose
/// documents are all drafts has no source, so drafts take part only when they
/// are not listed as such.
pub proof fn lemma_gaps_filled(
    langs: Seq<LanguageView>,
    docs: Seq<DocumentView>,
    drafts: Seq<Seq<char>>,
    tasks: Seq<TaskView>,
    i: int,
    j: int,
)
    requires
        is_plan(langs, docs, drafts, tasks),
        is_source(docs, drafts, i),
        source_relative(langs, docs[i]) is Some,
        0 <= j < langs.len(),
    ensures
        cell_present(docs, docs[i].translation_key, langs[j].identifier) || exists|t: int|
            0 <= t < tasks.len() && (#[trigger] tasks[t]).source.translation_key
                == docs[i].translation_key && tasks[t].target_language == langs[j].identifier,
{
    if !cell_present(docs, docs[i].translation_key, langs[j].identifier) {
        assert(is_gap(langs, docs, drafts, i, j));
        let t = choose|t: int|
            0 <= t < tasks.len() && #[trigger] is_task_for(langs, docs, drafts, tasks[t], i, j);
        assert(tasks[t].source.translation_key == docs[i].translation_key);
    }
}

/// Non-destruction and draft exclusion: no task targets a cell that some
/// document, draft or not, already fills, and no task has a draft as its source.
pub proof fn lemma_tasks_only_fill_empty_cells(
    langs: Seq<LanguageView>,
    docs: Seq<DocumentView>,
    drafts: Seq<Seq<char>>,
    tasks: Seq<TaskView>,
    t: int,
)
    requires
        is_plan(langs, docs, drafts, tasks),
        0 <= t < tasks.len(),
    ensures
        !cell_present(docs, tasks[t].source.translation_key, tasks[t].target_language),
        !drafts.contains(tasks[t].source.path),
        forall|d: int|
            0 <= d < docs.len() ==> !((#[trigger] docs[d]).translation_key
                == tasks[t].source.translation_key && docs[d].language_identifier
                == tasks[t].target_language),
{
    assert(task_has_origin(langs, docs, drafts, tasks[t]));
    let (i, j) = choose|i: int, j: int| #[trigger] is_task_for(langs, docs, drafts, tasks[t], i, j);
    assert forall|d: int|
        0 <= d < docs.len() implies !((#[trigger] docs[d]).translation_key
            == tasks[t].source.translation_key && docs[d].language_identifier
            == tasks[t].target_language) by {
        if docs[d].translation_key == tasks[t].source.translation_key
            && docs[d].language_identifier == tasks[t].target_language {
            assert(cell_present(docs, docs[i].translation_key, langs[j].identifier));
        }
    }
}

/// Two language lists that hold the same languages find the same content
/// directory for a document.
proof fn lemma_same_languages_same_relative(
    l1: Seq<LanguageView>,
    l2: Seq<LanguageView>,
    d: DocumentView,
)
    requires
        unique_identifiers(l1),
        unique_identifiers(l2),
        l1.to_set() == l2.to_set(),
    ensures
        source_relative(l1, d) == source_relative(l2, d),
{
    let id = d.language_identifier;
    match language_index(l1, id) {
        Some(k1) => {
            assert(l2.to_set().contains(l1[k1]));
            let m = choose|m: int| 0 <= m < l2.len() && l2[m] == l1[k1];
            assert(l2[m].identifier == id);
            let k2 = language_index(l2, id)->0;
            assert(l2[k2].identifier == l2[m].identifier);
        },
        None => {
            if language_index(l2, id) is Some {
                let k2 = language_index(l2, id)->0;
                assert(l1.to_set().contains(l2[k2]));
                let m = choose|m: int| 0 <= m < l1.len() && l1[m] == l2[k2];
                assert(l1[m].identifier == id);
            }
        },
    }
}

/// A task of a plan over `l1` is in every plan over a list `l2` of the same
/// languages.
proof fn lemma_task_in_other_order(
    l1: Seq<LanguageView>,
    l2: Seq<LanguageView>,
    docs: Seq<DocumentView>,
    drafts: Seq<Seq<char>>,
    t1: Seq<TaskView>,
    t2: Seq<TaskView>,
    t: int,
)
    requires
        unique_identifiers(l1),
        unique_identifiers(l2),
        l1.to_set() == l2.to_set(),
        is_plan(l1, docs, drafts, t1),
        is_plan(l2, docs, drafts, t2),
        0 <= t < t1.len(),
    ensures
        t2.contains(t1[t]),
{
    assert(task_has_origin(l1, docs, drafts, t1[t]));
    let (i, j) = choose|i: int, j: int| #[trigger] is_task_for(l1, docs, drafts, t1[t], i, j);
    lemma_same_languages_same_relative(l1, l2, docs[i]);
    assert(l2.to_set().contains(l1[j]));
    let j2 = choose|j2: int| 0 <= j2 < l2.len() && l2[j2] == l1[j];
    assert(is_gap(l2, docs, drafts, i, j2));
    let u = choose|u: int| 0 <= u < t2.len() && #[trigger] is_task_for(l2, docs, drafts, t2[u], i, j2);
    assert(t2[u] == t1[t]);
}

/// Order neutrality of targets: plans over two orderings of the same
/// languages hold the same tasks.
pub proof fn lemma_plan_order_neutral(
    l1: Seq<LanguageView>,
    l2: Seq<LanguageView>,
    docs: Seq<DocumentView>,
    drafts: Seq<Seq<char>>,
    t1: Seq<TaskView>,
    t2: Seq<TaskView>,
)
    requires
        unique_identifiers(l1),
        unique_identifiers(l2),
        l1.to_set() == l2.to_set(),
        is_plan(l1, docs, drafts, t1),
        is_plan(l2, docs, drafts, t2),
    ensures
        t1.to_set() == t2.to_set(),
{
    assert forall|x: TaskView| t1.to_set().contains(x) implies t2.to_set().contains(x) by {
        let t = choose|t: int| 0 <= t < t1.len() && t1[t] == x;
        lemma_task_in_other_order(l1, l2, docs, drafts, t1, t2, t);
    }
    assert forall|x: TaskView| t2.to_set().contains(x) implies t1.to_set().contains(x) by {
        let t = choose|t: int| 0 <= t < t2.len() && t2[t] == x;
        lemma_task_in_other_order(l2, l1, docs, drafts, t2, t1, t);
    }
    assert(t1.to_set() =~= t2.to_set());
}

} // verus!
