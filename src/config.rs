use vstd::prelude::*;
use indexmap::IndexMap;
use crate::paths::{join_path, joined};

verus! {

/// One configured language: its identifier (`en`), its name and the
/// directory that holds its content.
#[derive(Debug)]
pub struct LanguageConfig {
    pub identifier: String,
    pub language_name: String,
    pub content_dir: String,
}

pub ghost struct LanguageView {
    pub identifier: Seq<char>,
    pub language_name: Seq<char>,
    pub content_dir: Seq<char>,
}

impl View for LanguageConfig {
    type V = LanguageView;

    open spec fn view(&self) -> LanguageView {
        LanguageView {
            identifier: self.identifier@,
            language_name: self.language_name@,
            content_dir: self.content_dir@,
        }
    }
}

impl Clone for LanguageConfig {
    fn clone(&self) -> (r: Self)
        ensures
            r@ == self@,
    {
        LanguageConfig {
            identifier: self.identifier.clone(),
            language_name: self.language_name.clone(),
            content_dir: self.content_dir.clone(),
        }
    }
}

/// No identifier occurs twice.
pub open spec fn unique_identifiers(langs: Seq<LanguageView>) -> bool {
    forall|i: int, j: int|
        0 <= i < langs.len() && 0 <= j < langs.len() && #[trigger] langs[i].identifier
            == #[trigger] langs[j].identifier ==> i == j
}

/// Position of the language `id` in `langs`, if configured.
pub open spec fn language_index(langs: Seq<LanguageView>, id: Seq<char>) -> Option<int> {
    if exists|i: int| 0 <= i < langs.len() && #[trigger] langs[i].identifier == id {
        Some(choose|i: int| 0 <= i < langs.len() && #[trigger] langs[i].identifier == id)
    } else {
        None
    }
}

/// The configured languages of a site, in the generator's order.
#[derive(Debug)]
pub struct HugoConfig {
    pub language_configs: Vec<LanguageConfig>,
}

impl View for HugoConfig {
    type V = Seq<LanguageView>;

    open spec fn view(&self) -> Seq<LanguageView> {
        self.language_configs@.map_values(|l: LanguageConfig| l@)
    }
}

impl HugoConfig {
    pub open spec fn wf(&self) -> bool {
        unique_identifiers(self@)
    }

    pub fn len(&self) -> (r: usize)
        ensures
            r == self@.len(),
    {
        self.language_configs.len()
    }

    /// The language whose identifier is `id`.
    pub fn get(&self, id: &String) -> (r: Option<&LanguageConfig>)
        requires
            self.wf(),
        ensures
            match language_index(self@, id@) {
                Some(i) => r matches Some(l) && l@ == self@[i],
                None => r is None,
            },
    {
        let mut i: usize = 0;
        while i < self.language_configs.len()
            invariant
                self.wf(),
                i <= self.language_configs.len(),
                forall|k: int| 0 <= k < i ==> #[trigger] self@[k].identifier != id@,
            decreases self.language_configs.len() - i,
        {
            if self.language_configs[i].identifier == *id {
                proof {
                    assert(self@[i as int].identifier == id@);
                    let c = choose|c: int| 0 <= c < self@.len() && #[trigger] self@[c].identifier == id@;
                    assert(self@[c].identifier == self@[i as int].identifier);
                }
                return Some(&self.language_configs[i]);
            }
            i = i + 1;
        }
        None
    }
}

#[verifier::external_type_specification]
#[verifier::external_body]
#[verifier::reject_recursive_types(K)]
#[verifier::reject_recursive_types(V)]
#[verifier::reject_recursive_types(S)]
pub struct ExIndexMap<K, V, S>(IndexMap<K, V, S>);

/// The entries of an insertion-ordered map from language identifier to
/// content directory, in order.
pub uninterp spec fn dir_entries(m: IndexMap<String, String>) -> Seq<(Seq<char>, Seq<char>)>;

/// No key occurs twice.
pub open spec fn unique_keys(e: Seq<(Seq<char>, Seq<char>)>) -> bool {
    forall|i: int, j: int|
        0 <= i < e.len() && 0 <= j < e.len() && #[trigger] e[i].0 == #[trigger] e[j].0 ==> i == j
}

/// `e` after inserting `k -> v`: an existing key keeps its place and takes
/// the new value, a new key goes last.
pub open spec fn entries_insert(
    e: Seq<(Seq<char>, Seq<char>)>,
    k: Seq<char>,
    v: Seq<char>,
) -> Seq<(Seq<char>, Seq<char>)> {
    if exists|i: int| 0 <= i < e.len() && #[trigger] e[i].0 == k {
        let i = choose|i: int| 0 <= i < e.len() && #[trigger] e[i].0 == k;
        e.update(i, (k, v))
    } else {
        e.push((k, v))
    }
}

/// Relies on `IndexMap::new`: the new map is empty.
#[verifier::external_body]
fn dirs_new() -> (r: IndexMap<String, String>)
    ensures
        dir_entries(r) == Seq::<(Seq<char>, Seq<char>)>::empty(),
{
    IndexMap::new()
}

/// Relies on `IndexMap::insert`: an existing key keeps its position and gets
/// the new value; a new key is appended last.
#[verifier::external_body]
fn dirs_insert(m: &mut IndexMap<String, String>, k: String, v: String)
    ensures
        dir_entries(*final(m)) == entries_insert(dir_entries(*old(m)), k@, v@),
{
    m.insert(k, v);
}

/// Relies on `IndexMap::len`: the number of entries.
#[verifier::external_body]
fn dirs_len(m: &IndexMap<String, String>) -> (r: usize)
    ensures
        r == dir_entries(*m).len(),
{
    m.len()
}

/// Relies on `IndexMap::get_index`: the entry at position `i`, if any.
#[verifier::external_body]
fn dirs_get_index(m: &IndexMap<String, String>, i: usize) -> (r: Option<(&String, &String)>)
    ensures
        i < dir_entries(*m).len() ==> r is Some && (r->0).0@ == dir_entries(*m)[i as int].0
            && (r->0).1@ == dir_entries(*m)[i as int].1,
        i >= dir_entries(*m).len() ==> r is None,
{
    m.get_index(i)
}

/// A mount point of the site: the content under `source` belongs to the
/// language `lang`, if one is given.
#[derive(Debug)]
pub struct HugoMountDTO {
    pub lang: Option<String>,
    pub source: String,
}

#[derive(Debug)]
pub struct HugoModuleDTO {
    pub mounts: Vec<HugoMountDTO>,
}

/// A language declared by the site.
#[derive(Debug)]
pub struct LanguageEntry {
    pub identifier: String,
    pub language_name: String,
}

/// The parts of the generator's configuration dump that are read.
#[derive(Debug)]
pub struct HugoConfigDTO {
    pub default_content_language: String,
    pub content_dir: Option<String>,
    pub languages: Vec<LanguageEntry>,
    pub module: HugoModuleDTO,
}

pub ghost struct MountView {
    pub lang: Option<Seq<char>>,
    pub source: Seq<char>,
}

pub open spec fn mounts_view(ms: Seq<HugoMountDTO>) -> Seq<MountView> {
    ms.map_values(|m: HugoMountDTO| MountView {
        lang: match m.lang { Some(l) => Some(l@), None => None },
        source: m.source@,
    })
}

pub open spec fn entries_view(ls: Seq<LanguageEntry>) -> Seq<(Seq<char>, Seq<char>)> {
    ls.map_values(|l: LanguageEntry| (l.identifier@, l.language_name@))
}

/// The content directory of each mounted language, in order of first
/// mount; a later mount of the same language replaces the directory.
pub open spec fn mount_dirs(ms: Seq<MountView>, root: Seq<char>) -> Seq<(Seq<char>, Seq<char>)>
    decreases ms.len(),
{
    if ms.len() == 0 {
        Seq::empty()
    } else {
        let prev = mount_dirs(ms.drop_last(), root);
        match ms.last().lang {
            Some(l) => entries_insert(prev, l, joined(root, ms.last().source)),
            None => prev,
        }
    }
}

/// The name that the first declaration of `id` gives it.
pub open spec fn name_of(ls: Seq<(Seq<char>, Seq<char>)>, id: Seq<char>) -> Option<Seq<char>>
    decreases ls.len(),
{
    if ls.len() == 0 {
        None
    } else if ls[0].0 == id {
        Some(ls[0].1)
    } else {
        name_of(ls.drop_first(), id)
    }
}

/// Every mounted language is declared.
pub open spec fn all_declared(dirs: Seq<(Seq<char>, Seq<char>)>, ls: Seq<(Seq<char>, Seq<char>)>) -> bool {
    forall|k: int| 0 <= k < dirs.len() ==> name_of(ls, #[trigger] dirs[k].0) is Some
}

/// Every declared language is mounted.
pub open spec fn all_mounted(dirs: Seq<(Seq<char>, Seq<char>)>, ls: Seq<(Seq<char>, Seq<char>)>) -> bool {
    forall|k: int| 0 <= k < ls.len() ==> exists|m: int| 0 <= m < dirs.len() && #[trigger] dirs[m].0 == (#[trigger] ls[k]).0
}

/// Why no language configuration could be derived.
#[derive(Debug, Clone, PartialEq, Eq)]
pub enum ConfigError {
    /// A mount names a language that the site does not declare.
    UnknownLanguage(String),
    /// A declared language has no mount, hence no content directory.
    MissingContentDir(String),
    /// Fewer than two languages: nothing to translate between.
    NoTranslationPossible,
}

/// Content directories of the mounted languages of `config`.
pub open spec fn site_dirs(config: HugoConfigDTO, root: Seq<char>) -> Seq<(Seq<char>, Seq<char>)> {
    mount_dirs(mounts_view(config.module.mounts@), root)
}

/// The languages that `dirs` and the declarations `ls` describe, in the order of `dirs`.
pub open spec fn expected_languages(
    dirs: Seq<(Seq<char>, Seq<char>)>,
    ls: Seq<(Seq<char>, Seq<char>)>,
) -> Seq<LanguageView> {
    Seq::new(
        dirs.len(),
        |k: int|
            LanguageView {
                identifier: dirs[k].0,
                language_name: match name_of(ls, dirs[k].0) {
                    Some(n) => n,
                    None => Seq::empty(),
                },
                content_dir: dirs[k].1,
            },
    )
}

proof fn lemma_insert_unique(e: Seq<(Seq<char>, Seq<char>)>, k: Seq<char>, v: Seq<char>)
    requires
        unique_keys(e),
    ensures
        unique_keys(entries_insert(e, k, v)),
        forall|m: int|
            0 <= m < e.len() ==> (#[trigger] entries_insert(e, k, v)[m]).0 == e[m].0,
{
    let r = entries_insert(e, k, v);
    if exists|i: int| 0 <= i < e.len() && #[trigger] e[i].0 == k {
        let i = choose|i: int| 0 <= i < e.len() && #[trigger] e[i].0 == k;
        assert forall|a: int, b: int|
            0 <= a < r.len() && 0 <= b < r.len() && #[trigger] r[a].0 == #[trigger] r[b].0 implies a
                == b by {
            assert(r[a].0 == e[a].0);
            assert(r[b].0 == e[b].0);
        }
    } else {
        assert forall|a: int, b: int|
            0 <= a < r.len() && 0 <= b < r.len() && #[trigger] r[a].0 == #[trigger] r[b].0 implies a
                == b by {
            if a < e.len() && b < e.len() {
                assert(r[a] == e[a] && r[b] == e[b]);
            } else if a < e.len() {
                assert(r[a] == e[a]);
            } else if b < e.len() {
                assert(r[b] == e[b]);
            }
        }
    }
}

/// The name that the first declaration of `id` in `ls` gives it.
fn lookup_name(ls: &Vec<LanguageEntry>, id: &String) -> (r: Option<String>)
    ensures
        match name_of(entries_view(ls@), id@) {
            Some(n) => r matches Some(x) && x@ == n,
            None => r is None,
        },
{
    let ghost e = entries_view(ls@);
    assert(e.subrange(0, e.len() as int) =~= e);
    let mut i: usize = 0;
    while i < ls.len()
        invariant
            e == entries_view(ls@),
            i <= ls.len(),
            name_of(e, id@) == name_of(e.subrange(i as int, e.len() as int), id@),
        decreases ls.len() - i,
    {
        let ghost rest = e.subrange(i as int, e.len() as int);
        assert(rest[0] == e[i as int]);
        if ls[i].identifier == *id {
            return Some(ls[i].language_name.clone());
        }
        assert(rest.drop_first() =~= e.subrange(i as int + 1, e.len() as int));
        i = i + 1;
    }
    None
}

/// Whether some entry of `m` has the key `id`.
fn dirs_contain(m: &IndexMap<String, String>, id: &String) -> (r: bool)
    ensures
        r == exists|k: int| 0 <= k < dir_entries(*m).len() && #[trigger] dir_entries(*m)[k].0 == id@,
{
    let n = dirs_len(m);
    let mut i: usize = 0;
    while i < n
        invariant
            n == dir_entries(*m).len(),
            i <= n,
            forall|k: int| 0 <= k < i ==> #[trigger] dir_entries(*m)[k].0 != id@,
        decreases n - i,
    {
        if let Some(p) = dirs_get_index(m, i) {
            if *p.0 == *id {
                return true;
            }
        }
        i = i + 1;
    }
    false
}

impl HugoConfig {
    /// The languages of a site, each with the directory of its mount under
    /// `root`, in the order in which the mounts first name them.
    pub fn new(config: &HugoConfigDTO, root: &str) -> (r: Result<HugoConfig, ConfigError>)
        ensures
            r is Ok <==> all_declared(site_dirs(*config, root@), entries_view(config.languages@))
                && all_mounted(site_dirs(*config, root@), entries_view(config.languages@))
                && site_dirs(*config, root@).len() >= 2,
            r matches Ok(c) ==> c.wf() && c@ == expected_languages(
                site_dirs(*config, root@),
                entries_view(config.languages@),
            ),
            r matches Err(ConfigError::UnknownLanguage(l)) ==> name_of(
                entries_view(config.languages@),
                l@,
            ) is None && exists|k: int|
                0 <= k < site_dirs(*config, root@).len() && #[trigger] site_dirs(
                    *config,
                    root@,
                )[k].0 == l@,
            r matches Err(ConfigError::MissingContentDir(l)) ==> all_declared(
                site_dirs(*config, root@),
                entries_view(config.languages@),
            ) && name_of(entries_view(config.languages@), l@) is Some && !exists|k: int|
                0 <= k < site_dirs(*config, root@).len() && #[trigger] site_dirs(
                    *config,
                    root@,
                )[k].0 == l@,
            r matches Err(ConfigError::NoTranslationPossible) ==> all_declared(
                site_dirs(*config, root@),
                entries_view(config.languages@),
            ) && all_mounted(site_dirs(*config, root@), entries_view(config.languages@))
                && site_dirs(*config, root@).len() < 2,
    {
        let ghost ms = mounts_view(config.module.mounts@);
        let ghost ls = entries_view(config.languages@);
        let ghost dirs = site_dirs(*config, root@);
        let mounts = &config.module.mounts;
        let mut content_dirs = dirs_new();
        let mut k: usize = 0;
        while k < mounts.len()
            invariant
                ms == mounts_view(mounts@),
                k <= mounts.len(),
                dir_entries(content_dirs) == mount_dirs(ms.take(k as int), root@),
                unique_keys(dir_entries(content_dirs)),
            decreases mounts.len() - k,
        {
            let ghost before = dir_entries(content_dirs);
            assert(ms.take(k as int + 1).drop_last() =~= ms.take(k as int));
            assert(ms.take(k as int + 1).last() == ms[k as int]);
            let mount = &mounts[k];
            if let Some(lang) = &mount.lang {
                let dir = join_path(root, mount.source.as_str());
                dirs_insert(&mut content_dirs, lang.clone(), dir);
                proof {
                    lemma_insert_unique(before, lang@, dir@);
                }
            }
            k = k + 1;
        }
        assert(ms.take(mounts.len() as int) =~= ms);
        let n = dirs_len(&content_dirs);
        let mut language_configs: Vec<LanguageConfig> = Vec::new();
        let mut i: usize = 0;
        while i < n
            invariant
                dirs == dir_entries(content_dirs),
                dirs == site_dirs(*config, root@),
                ls == entries_view(config.languages@),
                unique_keys(dirs),
                n == dirs.len(),
                i <= n,
                language_configs@.len() == i,
                forall|m: int|
                    0 <= m < i ==> (#[trigger] language_configs@[m])@ == expected_languages(dirs, ls)[m],
                forall|m: int| 0 <= m < i ==> name_of(ls, #[trigger] dirs[m].0) is Some,
            decreases n - i,
        {
            if let Some(p) = dirs_get_index(&content_dirs, i) {
                let (id, dir) = p;
                match lookup_name(&config.languages, id) {
                    Some(name) => {
                        language_configs.push(
                            LanguageConfig {
                                identifier: id.clone(),
                                language_name: name,
                                content_dir: dir.clone(),
                            },
                        );
                    },
                    None => {
                        assert(dirs[i as int].0 == id@);
                        assert(!all_declared(dirs, ls));
                        return Err(ConfigError::UnknownLanguage(id.clone()));
                    },
                }
            }
            i = i + 1;
        }
        let mut j: usize = 0;
        while j < config.languages.len()
            invariant
                dirs == dir_entries(content_dirs),
                dirs == site_dirs(*config, root@),
                ls == entries_view(config.languages@),
                j <= config.languages.len(),
                all_declared(dirs, ls),
                forall|m: int|
                    0 <= m < j ==> exists|q: int| 0 <= q < dirs.len() && #[trigger] dirs[q].0 == (#[trigger] ls[m]).0,
            decreases config.languages.len() - j,
        {
            let entry = &config.languages[j];
            assert(ls[j as int].0 == entry.identifier@);
            if !dirs_contain(&content_dirs, &entry.identifier) {
                proof {
                    lemma_name_of_declared(ls, j as int);
                    if all_mounted(dirs, ls) {
                        assert(exists|q: int| 0 <= q < dirs.len() && #[trigger] dirs[q].0 == ls[j as int].0);
                    }
                }
                return Err(ConfigError::MissingContentDir(entry.identifier.clone()));
            }
            j = j + 1;
        }
        if n < 2 {
            return Err(ConfigError::NoTranslationPossible);
        }
        let c = HugoConfig { language_configs };
        assert(c@ =~= expected_languages(dirs, ls));
        Ok(c)
    }
}

/// A declared identifier has a name.
proof fn lemma_name_of_declared(ls: Seq<(Seq<char>, Seq<char>)>, j: int)
    requires
        0 <= j < ls.len(),
    ensures
        name_of(ls, ls[j].0) is Some,
    decreases j,
{
    if ls[0].0 != ls[j].0 {
        assert(ls.drop_first()[j - 1] == ls[j]);
        lemma_name_of_declared(ls.drop_first(), j - 1);
    }
}

} // verus!
