//! Adding an extension found on disk to the index: what the scan of its
//! directory found (languages, theme files, a compiled library) goes into
//! the index tables and into its manifest.
use vstd::prelude::*;
use crate::text::{opt_view, owned, strings_contain, strings_view, texts_contain};
use crate::extension_index::{
    strictly_sorted, table_keys, ExtensionIndex, ExtensionIndexEntry, ExtensionIndexIconThemeEntry, ExtensionIndexLanguageEntry,
    ExtensionIndexThemeEntry, ExtensionLibraryKind, ExtensionManifest, ExtensionManifestView,
};
use crate::sorted_table::{table_insert, table_view};

verus! {

/// A language directory of an extension: its path within the extension and
/// what its configuration says.
pub struct ScannedLanguage {
    pub path: String,
    pub name: String,
    pub hidden: bool,
    pub grammar: Option<String>,
}

impl View for ScannedLanguage {
    type V = (Seq<char>, Seq<char>, bool, Option<Seq<char>>);

    open spec fn view(&self) -> (Seq<char>, Seq<char>, bool, Option<Seq<char>>) {
        (self.path@, self.name@, self.hidden, opt_view(self.grammar))
    }
}

/// A theme file of an extension (its path within the extension) and the
/// names of the themes it defines.
pub struct ScannedThemeFile {
    pub path: String,
    pub names: Vec<String>,
}

impl View for ScannedThemeFile {
    type V = (Seq<char>, Seq<Seq<char>>);

    open spec fn view(&self) -> (Seq<char>, Seq<Seq<char>>) {
        (self.path@, strings_view(self.names@))
    }
}

/// `list` with each of `paths` appended, in order, unless it is there already.
pub open spec fn with_paths(list: Seq<Seq<char>>, paths: Seq<Seq<char>>) -> Seq<Seq<char>>
    decreases paths.len(),
{
    if paths.len() == 0 {
        list
    } else {
        let l = with_paths(list, paths.drop_last());
        if l.contains(paths.last()) {
            l
        } else {
            l.push(paths.last())
        }
    }
}

/// The language table after entering each scanned language of extension
/// `id` under its name, in order.
pub open spec fn languages_added(
    m: Map<Seq<char>, (Seq<char>, Seq<char>, bool, Option<Seq<char>>)>,
    id: Seq<char>,
    langs: Seq<(Seq<char>, Seq<char>, bool, Option<Seq<char>>)>,
) -> Map<Seq<char>, (Seq<char>, Seq<char>, bool, Option<Seq<char>>)>
    decreases langs.len(),
{
    if langs.len() == 0 {
        m
    } else {
        let l = langs.last();
        languages_added(m, id, langs.drop_last()).insert(l.1, (id, l.0, l.2, l.3))
    }
}

/// A theme table after entering each of `names` for the file at `path` of
/// extension `id`, in order.
pub open spec fn names_added(
    m: Map<Seq<char>, (Seq<char>, Seq<char>)>,
    id: Seq<char>,
    path: Seq<char>,
    names: Seq<Seq<char>>,
) -> Map<Seq<char>, (Seq<char>, Seq<char>)>
    decreases names.len(),
{
    if names.len() == 0 {
        m
    } else {
        names_added(m, id, path, names.drop_last()).insert(names.last(), (id, path))
    }
}

/// A theme table after entering the themes of each scanned file, in order.
pub open spec fn themes_added(
    m: Map<Seq<char>, (Seq<char>, Seq<char>)>,
    id: Seq<char>,
    files: Seq<(Seq<char>, Seq<Seq<char>>)>,
) -> Map<Seq<char>, (Seq<char>, Seq<char>)>
    decreases files.len(),
{
    if files.len() == 0 {
        m
    } else {
        names_added(themes_added(m, id, files.drop_last()), id, files.last().0, files.last().1)
    }
}

/// The directories of scanned languages.
pub open spec fn language_paths(langs: Seq<(Seq<char>, Seq<char>, bool, Option<Seq<char>>)>) -> Seq<Seq<char>> {
    langs.map_values(|l: (Seq<char>, Seq<char>, bool, Option<Seq<char>>)| l.0)
}

/// The paths of scanned theme files.
pub open spec fn file_paths(files: Seq<(Seq<char>, Seq<Seq<char>>)>) -> Seq<Seq<char>> {
    files.map_values(|t: (Seq<char>, Seq<Seq<char>>)| t.0)
}

/// The views of scanned languages.
pub open spec fn languages_view(v: Seq<ScannedLanguage>) -> Seq<(Seq<char>, Seq<char>, bool, Option<Seq<char>>)> {
    v.map_values(|l: ScannedLanguage| l@)
}

/// The views of scanned theme files.
pub open spec fn files_view(v: Seq<ScannedThemeFile>) -> Seq<(Seq<char>, Seq<Seq<char>>)> {
    v.map_values(|t: ScannedThemeFile| t@)
}

/// The manifest as the index records it: the scanned language directories
/// and theme files are listed in it, and an extension with a compiled
/// library that names no library kind gets the Rust kind.
pub open spec fn scanned_manifest(
    m: ExtensionManifestView,
    langs: Seq<(Seq<char>, Seq<char>, bool, Option<Seq<char>>)>,
    themes: Seq<(Seq<char>, Seq<Seq<char>>)>,
    icon_themes: Seq<(Seq<char>, Seq<Seq<char>>)>,
    has_library: bool,
) -> ExtensionManifestView {
    ExtensionManifestView {
        languages: with_paths(m.languages, language_paths(langs)),
        themes: with_paths(m.themes, file_paths(themes)),
        icon_themes: with_paths(m.icon_themes, file_paths(icon_themes)),
        lib_kind: if has_library && m.lib_kind is None {
            Some(ExtensionLibraryKind::Rust)
        } else {
            m.lib_kind
        },
        ..m
    }
}

/// After adding an extension, each of its scanned languages is in the
/// language table under its name and belongs to the extension, and each
/// theme name of its scanned files is in the theme table and belongs to it.
pub proof fn lemma_scanned_items_belong_to_extension(
    langs_before: Map<Seq<char>, (Seq<char>, Seq<char>, bool, Option<Seq<char>>)>,
    themes_before: Map<Seq<char>, (Seq<char>, Seq<char>)>,
    id: Seq<char>,
    langs: Seq<(Seq<char>, Seq<char>, bool, Option<Seq<char>>)>,
    files: Seq<(Seq<char>, Seq<Seq<char>>)>,
)
    ensures
        forall|i: int|
            0 <= i < langs.len() ==> languages_added(langs_before, id, langs).contains_key(#[trigger] langs[i].1)
                && languages_added(langs_before, id, langs)[langs[i].1].0 == id,
        forall|i: int, j: int|
            0 <= i < files.len() && 0 <= j < files[i].1.len() ==> themes_added(themes_before, id, files).contains_key(
                #[trigger] files[i].1[j],
            ) && themes_added(themes_before, id, files)[files[i].1[j]].0 == id,
    decreases langs.len() + files.len(),
{
    if langs.len() > 0 {
        lemma_scanned_items_belong_to_extension(langs_before, themes_before, id, langs.drop_last(), files);
        assert forall|i: int| 0 <= i < langs.len() implies languages_added(langs_before, id, langs).contains_key(
            #[trigger] langs[i].1,
        ) && languages_added(langs_before, id, langs)[langs[i].1].0 == id by {
            if i < langs.len() - 1 {
                assert(langs.drop_last()[i] == langs[i]);
            }
        }
    }
    if files.len() > 0 {
        lemma_scanned_items_belong_to_extension(langs_before, themes_before, id, Seq::empty(), files.drop_last());
        let d = files.drop_last();
        let last = files.last();
        assert forall|i: int, j: int| 0 <= i < files.len() && 0 <= j < files[i].1.len() implies themes_added(
            themes_before,
            id,
            files,
        ).contains_key(#[trigger] files[i].1[j]) && themes_added(themes_before, id, files)[files[i].1[j]].0 == id by {
            let m = themes_added(themes_before, id, d);
            if i < files.len() - 1 {
                assert(d[i] == files[i]);
                lemma_names_added_keeps(m, id, last.0, last.1, files[i].1[j]);
            } else {
                lemma_names_added_has(m, id, last.0, last.1, j);
            }
        }
    }
}

proof fn lemma_names_added_keeps(
    m: Map<Seq<char>, (Seq<char>, Seq<char>)>,
    id: Seq<char>,
    path: Seq<char>,
    names: Seq<Seq<char>>,
    k: Seq<char>,
)
    requires
        m.contains_key(k),
        m[k].0 == id,
    ensures
        names_added(m, id, path, names).contains_key(k),
        names_added(m, id, path, names)[k].0 == id,
    decreases names.len(),
{
    if names.len() > 0 {
        lemma_names_added_keeps(m, id, path, names.drop_last(), k);
    }
}

proof fn lemma_names_added_has(
    m: Map<Seq<char>, (Seq<char>, Seq<char>)>,
    id: Seq<char>,
    path: Seq<char>,
    names: Seq<Seq<char>>,
    j: int,
)
    requires
        0 <= j < names.len(),
    ensures
        names_added(m, id, path, names).contains_key(names[j]),
        names_added(m, id, path, names)[names[j]].0 == id,
    decreases names.len(),
{
    if j < names.len() - 1 {
        lemma_names_added_has(m, id, path, names.drop_last(), j);
        assert(names.drop_last()[j] == names[j]);
    }
}

/// Appends `path` to `list` unless it is there already.
fn push_missing(list: &mut Vec<String>, path: &str)
    ensures
        strings_view(final(list)@) == (if strings_view(old(list)@).contains(path@) {
            strings_view(old(list)@)
        } else {
            strings_view(old(list)@).push(path@)
        }),
{
    let found = strings_contain(list, path);
    proof {
        if found {
            let i = choose|i: int| 0 <= i < list@.len() && (#[trigger] list@[i])@ == path@;
            assert(strings_view(list@)[i] == path@);
        } else {
            assert forall|i: int| 0 <= i < strings_view(list@).len() implies strings_view(list@)[i] != path@ by {
                assert(list@[i]@ == strings_view(list@)[i]);
                assert(!texts_contain(list@, path@));
            }
        }
    }
    if !found {
        list.push(owned(path));
        proof {
            assert(strings_view(list@) =~= strings_view(old(list)@).push(path@));
        }
    }
}

/// A copy of an optional text.
fn copy_opt(o: &Option<String>) -> (r: Option<String>)
    ensures
        opt_view(r) == opt_view(*o),
{
    match o {
        Some(s) => Some(owned(s.as_str())),
        None => None,
    }
}

/// Enters each scanned language of extension `id` into the language table
/// under its name, and lists its directory in `paths`.
fn add_languages(
    table: &mut Vec<(String, ExtensionIndexLanguageEntry)>,
    paths: &mut Vec<String>,
    id: &str,
    langs: &Vec<ScannedLanguage>,
)
    requires
        strictly_sorted(table_keys(old(table)@)),
    ensures
        strictly_sorted(table_keys(final(table)@)),
        table_view(final(table)@) == languages_added(table_view(old(table)@), id@, languages_view(langs@)),
        strings_view(final(paths)@) == with_paths(strings_view(old(paths)@), language_paths(languages_view(langs@))),
{
    let ghost t0 = table_view(table@);
    let ghost p0 = strings_view(paths@);
    let ghost lv = languages_view(langs@);
    let mut i: usize = 0;
    while i < langs.len()
        invariant
            i <= langs@.len(),
            lv == languages_view(langs@),
            strictly_sorted(table_keys(table@)),
            table_view(table@) == languages_added(t0, id@, lv.take(i as int)),
            strings_view(paths@) == with_paths(p0, language_paths(lv.take(i as int))),
        decreases langs@.len() - i,
    {
        let l = &langs[i];
        proof {
            assert(lv.take(i + 1).drop_last() =~= lv.take(i as int));
            assert(language_paths(lv.take(i + 1)).drop_last() =~= language_paths(lv.take(i as int)));
            assert(lv[i as int] == l@);
        }
        push_missing(paths, l.path.as_str());
        let entry = ExtensionIndexLanguageEntry {
            extension: owned(id),
            path: owned(l.path.as_str()),
            hidden: l.hidden,
            grammar: copy_opt(&l.grammar),
        };
        table_insert(table, owned(l.name.as_str()), entry);
        i = i + 1;
    }
    proof {
        assert(lv.take(langs@.len() as int) =~= lv);
    }
}

/// Enters each theme name of the file at `path` of extension `id` into the
/// theme table.
fn add_theme_names(table: &mut Vec<(String, ExtensionIndexThemeEntry)>, id: &str, path: &str, names: &Vec<String>)
    requires
        strictly_sorted(table_keys(old(table)@)),
    ensures
        strictly_sorted(table_keys(final(table)@)),
        table_view(final(table)@) == names_added(table_view(old(table)@), id@, path@, strings_view(names@)),
{
    let ghost t0 = table_view(table@);
    let ghost nv = strings_view(names@);
    let mut i: usize = 0;
    while i < names.len()
        invariant
            i <= names@.len(),
            nv == strings_view(names@),
            strictly_sorted(table_keys(table@)),
            table_view(table@) == names_added(t0, id@, path@, nv.take(i as int)),
        decreases names@.len() - i,
    {
        proof {
            assert(nv.take(i + 1).drop_last() =~= nv.take(i as int));
            assert(nv[i as int] == names@[i as int]@);
        }
        let entry = ExtensionIndexThemeEntry { extension: owned(id), path: owned(path) };
        table_insert(table, owned(names[i].as_str()), entry);
        i = i + 1;
    }
    proof {
        assert(nv.take(names@.len() as int) =~= nv);
    }
}

/// Enters the themes of each scanned file of extension `id` into the
/// theme table, and lists each file in `paths`.
fn add_theme_files(
    table: &mut Vec<(String, ExtensionIndexThemeEntry)>,
    paths: &mut Vec<String>,
    id: &str,
    files: &Vec<ScannedThemeFile>,
)
    requires
        strictly_sorted(table_keys(old(table)@)),
    ensures
        strictly_sorted(table_keys(final(table)@)),
        table_view(final(table)@) == themes_added(table_view(old(table)@), id@, files_view(files@)),
        strings_view(final(paths)@) == with_paths(strings_view(old(paths)@), file_paths(files_view(files@))),
{
    let ghost t0 = table_view(table@);
    let ghost p0 = strings_view(paths@);
    let ghost fv = files_view(files@);
    let mut i: usize = 0;
    while i < files.len()
        invariant
            i <= files@.len(),
            fv == files_view(files@),
            strictly_sorted(table_keys(table@)),
            table_view(table@) == themes_added(t0, id@, fv.take(i as int)),
            strings_view(paths@) == with_paths(p0, file_paths(fv.take(i as int))),
        decreases files@.len() - i,
    {
        let f = &files[i];
        proof {
            assert(fv.take(i + 1).drop_last() =~= fv.take(i as int));
            assert(file_paths(fv.take(i + 1)).drop_last() =~= file_paths(fv.take(i as int)));
            assert(fv[i as int] == f@);
        }
        push_missing(paths, f.path.as_str());
        add_theme_names(table, id, f.path.as_str(), &f.names);
        i = i + 1;
    }
    proof {
        assert(fv.take(files@.len() as int) =~= fv);
    }
}

/// Enters each theme name of the file at `path` of extension `id` into the
/// icon theme table.
fn add_icon_theme_names(table: &mut Vec<(String, ExtensionIndexIconThemeEntry)>, id: &str, path: &str, names: &Vec<String>)
    requires
        strictly_sorted(table_keys(old(table)@)),
    ensures
        strictly_sorted(table_keys(final(table)@)),
        table_view(final(table)@) == names_added(table_view(old(table)@), id@, path@, strings_view(names@)),
{
    let ghost t0 = table_view(table@);
    let ghost nv = strings_view(names@);
    let mut i: usize = 0;
    while i < names.len()
        invariant
            i <= names@.len(),
            nv == strings_view(names@),
            strictly_sorted(table_keys(table@)),
            table_view(table@) == names_added(t0, id@, path@, nv.take(i as int)),
        decreases names@.len() - i,
    {
        proof {
            assert(nv.take(i + 1).drop_last() =~= nv.take(i as int));
            assert(nv[i as int] == names@[i as int]@);
        }
        let entry = ExtensionIndexIconThemeEntry { extension: owned(id), path: owned(path) };
        table_insert(table, owned(names[i].as_str()), entry);
        i = i + 1;
    }
    proof {
        assert(nv.take(names@.len() as int) =~= nv);
    }
}

/// Enters the themes of each scanned file of extension `id` into the
/// icon theme table, and lists each file in `paths`.
fn add_icon_theme_files(
    table: &mut Vec<(String, ExtensionIndexIconThemeEntry)>,
    paths: &mut Vec<String>,
    id: &str,
    files: &Vec<ScannedThemeFile>,
)
    requires
        strictly_sorted(table_keys(old(table)@)),
    ensures
        strictly_sorted(table_keys(final(table)@)),
        table_view(final(table)@) == themes_added(table_view(old(table)@), id@, files_view(files@)),
        strings_view(final(paths)@) == with_paths(strings_view(old(paths)@), file_paths(files_view(files@))),
{
    let ghost t0 = table_view(table@);
    let ghost p0 = strings_view(paths@);
    let ghost fv = files_view(files@);
    let mut i: usize = 0;
    while i < files.len()
        invariant
            i <= files@.len(),
            fv == files_view(files@),
            strictly_sorted(table_keys(table@)),
            table_view(table@) == themes_added(t0, id@, fv.take(i as int)),
            strings_view(paths@) == with_paths(p0, file_paths(fv.take(i as int))),
        decreases files@.len() - i,
    {
        let f = &files[i];
        proof {
            assert(fv.take(i + 1).drop_last() =~= fv.take(i as int));
            assert(file_paths(fv.take(i + 1)).drop_last() =~= file_paths(fv.take(i as int)));
            assert(fv[i as int] == f@);
        }
        push_missing(paths, f.path.as_str());
        add_icon_theme_names(table, id, f.path.as_str(), &f.names);
        i = i + 1;
    }
    proof {
        assert(fv.take(files@.len() as int) =~= fv);
    }
}

/// Adds an extension to the index from what the scan of its directory
/// found: each language goes into the language table under its name and
/// each theme name into the theme tables (a later one under a taken name
/// replaces the earlier), the language directories and theme files are
/// listed in the manifest, and the extension's entry, with `is_dev`, is set
/// under its id.
pub fn add_extension_to_index(
    index: &mut ExtensionIndex,
    manifest: ExtensionManifest,
    is_dev: bool,
    languages: &Vec<ScannedLanguage>,
    themes: &Vec<ScannedThemeFile>,
    icon_themes: &Vec<ScannedThemeFile>,
    has_library: bool,
)
    requires
        old(index).well_formed(),
    ensures
        final(index).well_formed(),
        table_view(final(index).languages@) == languages_added(
            table_view(old(index).languages@),
            manifest.id@,
            languages_view(languages@),
        ),
        table_view(final(index).themes@) == themes_added(table_view(old(index).themes@), manifest.id@, files_view(themes@)),
        table_view(final(index).icon_themes@) == themes_added(
            table_view(old(index).icon_themes@),
            manifest.id@,
            files_view(icon_themes@),
        ),
        table_view(final(index).extensions@) == table_view(old(index).extensions@).insert(
            manifest.id@,
            (
                scanned_manifest(manifest@, languages_view(languages@), files_view(themes@), files_view(icon_themes@), has_library),
                is_dev,
            ),
        ),
{
    let ghost m0 = manifest@;
    let mut manifest = manifest;
    let id = owned(manifest.id.as_str());
    add_languages(&mut index.languages, &mut manifest.languages, id.as_str(), languages);
    add_theme_files(&mut index.themes, &mut manifest.themes, id.as_str(), themes);
    add_icon_theme_files(&mut index.icon_themes, &mut manifest.icon_themes, id.as_str(), icon_themes);
    if has_library && manifest.lib_kind.is_none() {
        manifest.lib_kind = Some(ExtensionLibraryKind::Rust);
    }
    proof {
        assert(manifest@ == scanned_manifest(m0, languages_view(languages@), files_view(themes@), files_view(icon_themes@), has_library));
    }
    table_insert(&mut index.extensions, id, ExtensionIndexEntry { manifest, dev: is_dev });
}

} // verus!
