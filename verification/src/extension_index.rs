//! The index of installed extensions and the plan that a change of index
//! produces: which extensions to unload and load, and which themes,
//! languages and grammars go away with them.
use vstd::prelude::*;
use crate::extension_catalog::{join_path, path_joined};
use crate::text::{
    chars_compare, chars_of, lemma_seq_less_irreflexive, lemma_seq_less_ne, lemma_seq_less_transitive,
    opt_strings_equal, opt_view, seq_less, lemma_strings_view_push, lemma_strings_view_prefix, str_eq, strings_contain, strings_equal, strings_view,
    texts_contain, TextOrder,
};

verus! {

/// What kind of compiled library an extension ships.
#[derive(PartialEq, Eq, Structural, Clone, Copy, Debug)]
pub enum ExtensionLibraryKind {
    Rust,
}

/// A language server that an extension declares, with the languages it serves.
pub struct LanguageServerEntry {
    pub name: String,
    pub languages: Vec<String>,
}

/// A slash command that an extension declares.
pub struct SlashCommandEntry {
    pub name: String,
    pub description: String,
    pub requires_argument: bool,
}

/// The manifest of an extension, as far as the index logic reads it.
pub struct ExtensionManifest {
    pub id: String,
    pub name: String,
    pub version: String,
    pub description: Option<String>,
    pub repository: Option<String>,
    pub authors: Vec<String>,
    pub schema_version: i32,
    pub lib_kind: Option<ExtensionLibraryKind>,
    pub lib_version: Option<String>,
    pub themes: Vec<String>,
    pub icon_themes: Vec<String>,
    pub languages: Vec<String>,
    pub grammars: Vec<String>,
    pub language_servers: Vec<LanguageServerEntry>,
    pub context_servers: Vec<String>,
    pub slash_commands: Vec<SlashCommandEntry>,
    pub agent_servers: Vec<String>,
    pub snippets: Option<String>,
    pub debug_adapters: Vec<String>,
    pub debug_locators: Vec<String>,
}

/// The mathematical value of a manifest.
pub struct ExtensionManifestView {
    pub id: Seq<char>,
    pub name: Seq<char>,
    pub version: Seq<char>,
    pub description: Option<Seq<char>>,
    pub repository: Option<Seq<char>>,
    pub authors: Seq<Seq<char>>,
    pub schema_version: i32,
    pub lib_kind: Option<ExtensionLibraryKind>,
    pub lib_version: Option<Seq<char>>,
    pub themes: Seq<Seq<char>>,
    pub icon_themes: Seq<Seq<char>>,
    pub languages: Seq<Seq<char>>,
    pub grammars: Seq<Seq<char>>,
    pub language_servers: Seq<(Seq<char>, Seq<Seq<char>>)>,
    pub context_servers: Seq<Seq<char>>,
    pub slash_commands: Seq<(Seq<char>, Seq<char>, bool)>,
    pub agent_servers: Seq<Seq<char>>,
    pub snippets: Option<Seq<char>>,
    pub debug_adapters: Seq<Seq<char>>,
    pub debug_locators: Seq<Seq<char>>,
}

impl View for LanguageServerEntry {
    type V = (Seq<char>, Seq<Seq<char>>);

    open spec fn view(&self) -> (Seq<char>, Seq<Seq<char>>) {
        (self.name@, strings_view(self.languages@))
    }
}

impl View for SlashCommandEntry {
    type V = (Seq<char>, Seq<char>, bool);

    open spec fn view(&self) -> (Seq<char>, Seq<char>, bool) {
        (self.name@, self.description@, self.requires_argument)
    }
}

impl View for ExtensionManifest {
    type V = ExtensionManifestView;

    open spec fn view(&self) -> ExtensionManifestView {
        ExtensionManifestView {
            id: self.id@,
            name: self.name@,
            version: self.version@,
            description: opt_view(self.description),
            repository: opt_view(self.repository),
            authors: strings_view(self.authors@),
            schema_version: self.schema_version,
            lib_kind: self.lib_kind,
            lib_version: opt_view(self.lib_version),
            themes: strings_view(self.themes@),
            icon_themes: strings_view(self.icon_themes@),
            languages: strings_view(self.languages@),
            grammars: strings_view(self.grammars@),
            language_servers: self.language_servers@.map_values(|e: LanguageServerEntry| e@),
            context_servers: strings_view(self.context_servers@),
            slash_commands: self.slash_commands@.map_values(|e: SlashCommandEntry| e@),
            agent_servers: strings_view(self.agent_servers@),
            snippets: opt_view(self.snippets),
            debug_adapters: strings_view(self.debug_adapters@),
            debug_locators: strings_view(self.debug_locators@),
        }
    }
}

/// An installed extension in the index: its manifest and whether it is a dev
/// extension (installed from a local directory).
pub struct ExtensionIndexEntry {
    pub manifest: ExtensionManifest,
    pub dev: bool,
}

impl View for ExtensionIndexEntry {
    type V = (ExtensionManifestView, bool);

    open spec fn view(&self) -> (ExtensionManifestView, bool) {
        (self.manifest@, self.dev)
    }
}

/// A theme that an extension provides, and its path within the extension.
pub struct ExtensionIndexThemeEntry {
    pub extension: String,
    pub path: String,
}

/// An icon theme that an extension provides, and its path within the extension.
pub struct ExtensionIndexIconThemeEntry {
    pub extension: String,
    pub path: String,
}

/// A language that an extension provides.
pub struct ExtensionIndexLanguageEntry {
    pub extension: String,
    pub path: String,
    pub hidden: bool,
    pub grammar: Option<String>,
}

impl View for ExtensionIndexThemeEntry {
    type V = (Seq<char>, Seq<char>);

    open spec fn view(&self) -> (Seq<char>, Seq<char>) {
        (self.extension@, self.path@)
    }
}

impl View for ExtensionIndexIconThemeEntry {
    type V = (Seq<char>, Seq<char>);

    open spec fn view(&self) -> (Seq<char>, Seq<char>) {
        (self.extension@, self.path@)
    }
}

impl View for ExtensionIndexLanguageEntry {
    type V = (Seq<char>, Seq<char>, bool, Option<Seq<char>>);

    open spec fn view(&self) -> (Seq<char>, Seq<char>, bool, Option<Seq<char>>) {
        (self.extension@, self.path@, self.hidden, opt_view(self.grammar))
    }
}

/// The index of installed extensions.  Each table is kept sorted by its key,
/// with no key twice, as the ordered maps of the index file are.
pub struct ExtensionIndex {
    pub extensions: Vec<(String, ExtensionIndexEntry)>,
    pub themes: Vec<(String, ExtensionIndexThemeEntry)>,
    pub icon_themes: Vec<(String, ExtensionIndexIconThemeEntry)>,
    pub languages: Vec<(String, ExtensionIndexLanguageEntry)>,
}

/// The keys of a table, as texts.
pub open spec fn table_keys<V>(t: Seq<(String, V)>) -> Seq<Seq<char>> {
    t.map_values(|e: (String, V)| e.0@)
}

/// Whether the keys are in strictly increasing order.
pub open spec fn strictly_sorted(keys: Seq<Seq<char>>) -> bool {
    forall|p: int, q: int| 0 <= p < q < keys.len() ==> seq_less(keys[p], keys[q])
}

impl ExtensionIndex {
    /// Every table of the index is sorted by key, with no key twice.
    pub open spec fn well_formed(&self) -> bool {
        &&& strictly_sorted(table_keys(self.extensions@))
        &&& strictly_sorted(table_keys(self.themes@))
        &&& strictly_sorted(table_keys(self.icon_themes@))
        &&& strictly_sorted(table_keys(self.languages@))
    }

    /// Whether every table is sorted by key with no key twice, as
    /// `well_formed` says; an index read from disk is checked so.
    pub fn is_well_formed(&self) -> (r: bool)
        ensures
            r == self.well_formed(),
    {
        crate::sorted_table::table_sorted(&self.extensions) && crate::sorted_table::table_sorted(&self.themes)
            && crate::sorted_table::table_sorted(&self.icon_themes) && crate::sorted_table::table_sorted(&self.languages)
    }

    /// The extension entries, as key and value.
    pub open spec fn extension_entries(&self) -> Seq<(Seq<char>, (ExtensionManifestView, bool))> {
        self.extensions@.map_values(|e: (String, ExtensionIndexEntry)| (e.0@, e.1@))
    }

    /// The empty index.
    pub fn new() -> (r: Self)
        ensures
            r.well_formed(),
            r.extensions@.len() == 0,
            r.themes@.len() == 0,
            r.icon_themes@.len() == 0,
            r.languages@.len() == 0,
    {
        ExtensionIndex {
            extensions: Vec::new(),
            themes: Vec::new(),
            icon_themes: Vec::new(),
            languages: Vec::new(),
        }
    }
}

/// Whether the table has an entry under `k`.
pub open spec fn has_key(entries: Seq<(Seq<char>, (ExtensionManifestView, bool))>, k: Seq<char>) -> bool {
    exists|p: int| 0 <= p < entries.len() && (#[trigger] entries[p]).0 == k
}

/// Whether both tables hold `k` with equal entries.
pub open spec fn unchanged_in_both(
    old: Seq<(Seq<char>, (ExtensionManifestView, bool))>,
    new: Seq<(Seq<char>, (ExtensionManifestView, bool))>,
    k: Seq<char>,
) -> bool {
    exists|p: int, q: int|
        0 <= p < old.len() && 0 <= q < new.len() && (#[trigger] old[p]).0 == k && (
        #[trigger] new[q]).0 == k && old[p].1 == new[q].1
}

/// Whether the extension `k` of the old index must be unloaded when the index
/// changes to `new`: it is gone, its entry changed, or it was modified on disk.
pub open spec fn must_unload(
    old: Seq<(Seq<char>, (ExtensionManifestView, bool))>,
    new: Seq<(Seq<char>, (ExtensionManifestView, bool))>,
    modified: Seq<String>,
    k: Seq<char>,
) -> bool {
    has_key(old, k) && (!unchanged_in_both(old, new, k) || texts_contain(modified, k))
}

/// Whether the extension `k` of the new index must be loaded: it is new, its
/// entry changed, or it was modified on disk.
pub open spec fn must_load(
    old: Seq<(Seq<char>, (ExtensionManifestView, bool))>,
    new: Seq<(Seq<char>, (ExtensionManifestView, bool))>,
    modified: Seq<String>,
    k: Seq<char>,
) -> bool {
    has_key(new, k) && (!unchanged_in_both(old, new, k) || texts_contain(modified, k))
}

/// An index changing to itself, with nothing modified on disk, unloads and
/// loads no extension.
pub proof fn lemma_same_index_changes_nothing(entries: Seq<(Seq<char>, (ExtensionManifestView, bool))>, k: Seq<char>)
    ensures
        !must_unload(entries, entries, Seq::empty(), k),
        !must_load(entries, entries, Seq::empty(), k),
{
    if has_key(entries, k) {
        let p = choose|p: int| 0 <= p < entries.len() && (#[trigger] entries[p]).0 == k;
        assert(unchanged_in_both(entries, entries, k));
    }
}

/// Whether two extension entries are equal.
pub fn entries_equal(a: &ExtensionIndexEntry, b: &ExtensionIndexEntry) -> (r: bool)
    ensures
        r == (a@ == b@),
{
    a.dev == b.dev && manifests_equal(&a.manifest, &b.manifest)
}

fn language_servers_equal(a: &Vec<LanguageServerEntry>, b: &Vec<LanguageServerEntry>) -> (r: bool)
    ensures
        r == (a@.map_values(|e: LanguageServerEntry| e@) == b@.map_values(
            |e: LanguageServerEntry| e@,
        )),
{
    let ghost va = a@.map_values(|e: LanguageServerEntry| e@);
    let ghost vb = b@.map_values(|e: LanguageServerEntry| e@);
    if a.len() != b.len() {
        assert(va.len() != vb.len());
        return false;
    }
    let mut i: usize = 0;
    while i < a.len()
        invariant
            va == a@.map_values(|e: LanguageServerEntry| e@),
            vb == b@.map_values(|e: LanguageServerEntry| e@),
            a@.len() == b@.len(),
            i <= a@.len(),
            forall|k: int| 0 <= k < i ==> va[k] == vb[k],
        decreases a@.len() - i,
    {
        if !str_eq(a[i].name.as_str(), b[i].name.as_str()) || !strings_equal(
            &a[i].languages,
            &b[i].languages,
        ) {
            assert(va[i as int] != vb[i as int]);
            return false;
        }
        i = i + 1;
    }
    assert(va =~= vb);
    true
}

fn slash_commands_equal(a: &Vec<SlashCommandEntry>, b: &Vec<SlashCommandEntry>) -> (r: bool)
    ensures
        r == (a@.map_values(|e: SlashCommandEntry| e@) == b@.map_values(
            |e: SlashCommandEntry| e@,
        )),
{
    let ghost va = a@.map_values(|e: SlashCommandEntry| e@);
    let ghost vb = b@.map_values(|e: SlashCommandEntry| e@);
    if a.len() != b.len() {
        assert(va.len() != vb.len());
        return false;
    }
    let mut i: usize = 0;
    while i < a.len()
        invariant
            va == a@.map_values(|e: SlashCommandEntry| e@),
            vb == b@.map_values(|e: SlashCommandEntry| e@),
            a@.len() == b@.len(),
            i <= a@.len(),
            forall|k: int| 0 <= k < i ==> va[k] == vb[k],
        decreases a@.len() - i,
    {
        if !str_eq(a[i].name.as_str(), b[i].name.as_str()) || !str_eq(
            a[i].description.as_str(),
            b[i].description.as_str(),
        ) || a[i].requires_argument != b[i].requires_argument {
            assert(va[i as int] != vb[i as int]);
            return false;
        }
        i = i + 1;
    }
    assert(va =~= vb);
    true
}

/// Whether two manifests are equal.
pub fn manifests_equal(a: &ExtensionManifest, b: &ExtensionManifest) -> (r: bool)
    ensures
        r == (a@ == b@),
{
    let same_kind = match (a.lib_kind, b.lib_kind) {
        (Some(x), Some(y)) => x == y,
        (None, None) => true,
        _ => false,
    };
    let r = str_eq(a.id.as_str(), b.id.as_str()) && str_eq(a.name.as_str(), b.name.as_str())
        && str_eq(a.version.as_str(), b.version.as_str()) && opt_strings_equal(
        &a.description,
        &b.description,
    ) && opt_strings_equal(&a.repository, &b.repository) && strings_equal(
        &a.authors,
        &b.authors,
    ) && a.schema_version == b.schema_version && same_kind && opt_strings_equal(
        &a.lib_version,
        &b.lib_version,
    ) && strings_equal(&a.themes, &b.themes) && strings_equal(&a.icon_themes, &b.icon_themes)
        && strings_equal(&a.languages, &b.languages) && strings_equal(&a.grammars, &b.grammars)
        && language_servers_equal(&a.language_servers, &b.language_servers) && strings_equal(
        &a.context_servers,
        &b.context_servers,
    ) && slash_commands_equal(&a.slash_commands, &b.slash_commands) && strings_equal(
        &a.agent_servers,
        &b.agent_servers,
    ) && opt_strings_equal(&a.snippets, &b.snippets) && strings_equal(
        &a.debug_adapters,
        &b.debug_adapters,
    ) && strings_equal(&a.debug_locators, &b.debug_locators);
    r
}

/// The extensions to unload and to load when the index changes from `old` to
/// `new`, each list in key order, walking both sorted tables side by side.
/// An extension in both indexes is reloaded (unloaded and loaded) when its
/// entry changed or it is among `modified`.
pub fn index_changes(old: &ExtensionIndex, new: &ExtensionIndex, modified: &Vec<String>) -> (r: (
    Vec<String>,
    Vec<String>,
))
    requires
        old.well_formed(),
        new.well_formed(),
    ensures
        strictly_sorted(strings_view(r.0@)),
        strictly_sorted(strings_view(r.1@)),
        forall|k: Seq<char>|
            strings_view(r.0@).contains(k) <==> must_unload(
                old.extension_entries(),
                new.extension_entries(),
                modified@,
                k,
            ),
        forall|k: Seq<char>|
            strings_view(r.1@).contains(k) <==> must_load(
                old.extension_entries(),
                new.extension_entries(),
                modified@,
                k,
            ),
{
    let ghost oe = old.extension_entries();
    let ghost ne = new.extension_entries();
    let ghost ok = table_keys(old.extensions@);
    let ghost nk = table_keys(new.extensions@);
    let mut unload: Vec<String> = Vec::new();
    let mut load: Vec<String> = Vec::new();
    let n_old = old.extensions.len();
    let n_new = new.extensions.len();
    let mut i: usize = 0;
    let mut j: usize = 0;
    proof {
        assert forall|p: int| 0 <= p < ok.len() implies #[trigger] ok[p] == oe[p].0 by {}
        assert forall|q: int| 0 <= q < nk.len() implies #[trigger] nk[q] == ne[q].0 by {}
    }
    while i < n_old || j < n_new
        invariant
            oe == old.extension_entries(),
            ne == new.extension_entries(),
            ok == table_keys(old.extensions@),
            nk == table_keys(new.extensions@),
            n_old == ok.len(),
            n_new == nk.len(),
            oe.len() == ok.len(),
            ne.len() == nk.len(),
            forall|p: int| 0 <= p < ok.len() ==> #[trigger] ok[p] == oe[p].0,
            forall|q: int| 0 <= q < nk.len() ==> #[trigger] nk[q] == ne[q].0,
            strictly_sorted(ok),
            strictly_sorted(nk),
            i <= n_old,
            j <= n_new,
            forall|p: int, q: int| 0 <= p < i && j <= q < n_new ==> seq_less(ok[p], nk[q]),
            forall|p: int, q: int| 0 <= q < j && i <= p < n_old ==> seq_less(nk[q], ok[p]),
            strictly_sorted(strings_view(unload@)),
            strictly_sorted(strings_view(load@)),
            forall|k: Seq<char>|
                strings_view(unload@).contains(k) <==> (exists|p: int|
                    0 <= p < i && #[trigger] ok[p] == k && must_unload(oe, ne, modified@, k)),
            forall|k: Seq<char>|
                strings_view(load@).contains(k) <==> (exists|q: int|
                    0 <= q < j && #[trigger] nk[q] == k && must_load(oe, ne, modified@, k)),
        decreases (n_old - i) + (n_new - j),
    {
        let ghost u0 = strings_view(unload@);
        let ghost l0 = strings_view(load@);
        if i == n_old {
            let ghost k = nk[j as int];
            proof {
                assert(!has_key(oe, k)) by {
                    if has_key(oe, k) {
                        let p = choose|p: int| 0 <= p < oe.len() && (#[trigger] oe[p]).0 == k;
                        assert(ok[p] == k);
                        assert(seq_less(ok[p], nk[j as int]));
                        lemma_seq_less_ne(ok[p], nk[j as int]);
                    }
                }
                assert(must_load(oe, ne, modified@, k)) by {
                    assert(ne[j as int].0 == k);
                    if unchanged_in_both(oe, ne, k) {
                        let (p, q) = choose|p: int, q: int|
                            0 <= p < oe.len() && 0 <= q < ne.len() && (#[trigger] oe[p]).0 == k
                                && (#[trigger] ne[q]).0 == k && oe[p].1 == ne[q].1;
                        assert(has_key(oe, k));
                    }
                }
            }
            push_key(&mut load, &new.extensions[j].0, Ghost(nk), Ghost(j as int));
            proof { lemma_scan_step(l0, strings_view(load@), nk, j as int, |k: Seq<char>| must_load(oe, ne, modified@, k)); }
            j = j + 1;
        } else if j == n_new {
            let ghost k = ok[i as int];
            proof {
                assert(!has_key(ne, k)) by {
                    if has_key(ne, k) {
                        let q = choose|q: int| 0 <= q < ne.len() && (#[trigger] ne[q]).0 == k;
                        assert(nk[q] == k);
                        assert(seq_less(nk[q], ok[i as int]));
                        lemma_seq_less_ne(nk[q], ok[i as int]);
                    }
                }
                assert(must_unload(oe, ne, modified@, k)) by {
                    assert(oe[i as int].0 == k);
                    if unchanged_in_both(oe, ne, k) {
                        let (p, q) = choose|p: int, q: int|
                            0 <= p < oe.len() && 0 <= q < ne.len() && (#[trigger] oe[p]).0 == k
                                && (#[trigger] ne[q]).0 == k && oe[p].1 == ne[q].1;
                        assert(has_key(ne, k));
                    }
                }
            }
            push_key(&mut unload, &old.extensions[i].0, Ghost(ok), Ghost(i as int));
            proof { lemma_scan_step(u0, strings_view(unload@), ok, i as int, |k: Seq<char>| must_unload(oe, ne, modified@, k)); }
            i = i + 1;
        } else {
            let a = chars_of(old.extensions[i].0.as_str());
            let b = chars_of(new.extensions[j].0.as_str());
            let order = chars_compare(&a, &b);
            match order {
                TextOrder::Equal => {
                    let ghost k = ok[i as int];
                    let same = entries_equal(&old.extensions[i].1, &new.extensions[j].1);
                    let is_modified = strings_contain(modified, old.extensions[i].0.as_str());
                    proof {
                        assert(nk[j as int] == k);
                        lemma_unique_position(ok, i as int);
                        lemma_unique_position(nk, j as int);
                        assert(oe[i as int].1 == old.extensions@[i as int].1@);
                        assert(ne[j as int].1 == new.extensions@[j as int].1@);
                        assert(unchanged_in_both(oe, ne, k) == same) by {
                            if unchanged_in_both(oe, ne, k) {
                                let (p, q) = choose|p: int, q: int|
                                    0 <= p < oe.len() && 0 <= q < ne.len() && (#[trigger] oe[p]).0
                                        == k && (#[trigger] ne[q]).0 == k && oe[p].1 == ne[q].1;
                                assert(ok[p] == k);
                                assert(nk[q] == k);
                            }
                            if same {
                                assert(oe[i as int].0 == k && ne[j as int].0 == k);
                            }
                        }
                        assert(has_key(oe, k)) by {
                            assert(oe[i as int].0 == k);
                        }
                        assert(has_key(ne, k)) by {
                            assert(ne[j as int].0 == k);
                        }
                    }
                    if !same || is_modified {
                        push_key(&mut unload, &old.extensions[i].0, Ghost(ok), Ghost(i as int));
                        push_key(&mut load, &new.extensions[j].0, Ghost(nk), Ghost(j as int));
                    }
                    proof {
                        assert forall|p: int, q: int|
                            0 <= p < i + 1 && j + 1 <= q < n_new implies seq_less(
                            ok[p],
                            nk[q],
                        ) by {
                            if p == i {
                                assert(seq_less(nk[j as int], nk[q]));
                            }
                        }
                        assert forall|p: int, q: int|
                            0 <= q < j + 1 && i + 1 <= p < n_old implies seq_less(
                            nk[q],
                            ok[p],
                        ) by {
                            if q == j {
                                assert(seq_less(ok[i as int], ok[p]));
                            }
                        }
                    }
                    proof { lemma_scan_step(u0, strings_view(unload@), ok, i as int, |k: Seq<char>| must_unload(oe, ne, modified@, k)); }
                    proof { lemma_scan_step(l0, strings_view(load@), nk, j as int, |k: Seq<char>| must_load(oe, ne, modified@, k)); }
                    i = i + 1;
                    j = j + 1;
                },
                TextOrder::Less => {
                    let ghost k = ok[i as int];
                    proof {
                        assert(!has_key(ne, k)) by {
                            if has_key(ne, k) {
                                let q = choose|q: int| 0 <= q < ne.len() && (#[trigger] ne[q]).0 == k;
                                assert(nk[q] == k);
                                if q < j {
                                    assert(seq_less(nk[q], ok[i as int]));
                                    lemma_seq_less_ne(nk[q], ok[i as int]);
                                } else if q == j {
                                    lemma_seq_less_ne(ok[i as int], nk[j as int]);
                                } else {
                                    assert(seq_less(nk[j as int], nk[q]));
                                    lemma_seq_less_transitive(ok[i as int], nk[j as int], nk[q]);
                                    lemma_seq_less_ne(ok[i as int], nk[q]);
                                }
                            }
                        }
                        assert(must_unload(oe, ne, modified@, k)) by {
                            assert(oe[i as int].0 == k);
                            if unchanged_in_both(oe, ne, k) {
                                let (p, q) = choose|p: int, q: int|
                                    0 <= p < oe.len() && 0 <= q < ne.len() && (#[trigger] oe[p]).0
                                        == k && (#[trigger] ne[q]).0 == k && oe[p].1 == ne[q].1;
                                assert(has_key(ne, k));
                            }
                        }
                        assert forall|p: int, q: int|
                            0 <= p < i + 1 && j <= q < n_new implies seq_less(ok[p], nk[q]) by {
                            if p == i && q > j {
                                assert(seq_less(nk[j as int], nk[q]));
                                lemma_seq_less_transitive(ok[i as int], nk[j as int], nk[q]);
                            }
                        }
                    }
                    push_key(&mut unload, &old.extensions[i].0, Ghost(ok), Ghost(i as int));
                    proof { lemma_scan_step(u0, strings_view(unload@), ok, i as int, |k: Seq<char>| must_unload(oe, ne, modified@, k)); }
                    i = i + 1;
                },
                TextOrder::Greater => {
                    let ghost k = nk[j as int];
                    proof {
                        assert(!has_key(oe, k)) by {
                            if has_key(oe, k) {
                                let p = choose|p: int| 0 <= p < oe.len() && (#[trigger] oe[p]).0 == k;
                                assert(ok[p] == k);
                                if p < i {
                                    assert(seq_less(ok[p], nk[j as int]));
                                    lemma_seq_less_ne(ok[p], nk[j as int]);
                                } else if p == i {
                                    lemma_seq_less_ne(nk[j as int], ok[i as int]);
                                } else {
                                    assert(seq_less(ok[i as int], ok[p]));
                                    lemma_seq_less_transitive(nk[j as int], ok[i as int], ok[p]);
                                    lemma_seq_less_ne(nk[j as int], ok[p]);
                                }
                            }
                        }
                        assert(must_load(oe, ne, modified@, k)) by {
                            assert(ne[j as int].0 == k);
                            if unchanged_in_both(oe, ne, k) {
                                let (p, q) = choose|p: int, q: int|
                                    0 <= p < oe.len() && 0 <= q < ne.len() && (#[trigger] oe[p]).0
                                        == k && (#[trigger] ne[q]).0 == k && oe[p].1 == ne[q].1;
                                assert(has_key(oe, k));
                            }
                        }
                        assert forall|p: int, q: int|
                            0 <= q < j + 1 && i <= p < n_old implies seq_less(nk[q], ok[p]) by {
                            if q == j && p > i {
                                assert(seq_less(ok[i as int], ok[p]));
                                lemma_seq_less_transitive(nk[j as int], ok[i as int], ok[p]);
                            }
                        }
                    }
                    push_key(&mut load, &new.extensions[j].0, Ghost(nk), Ghost(j as int));
                    proof { lemma_scan_step(l0, strings_view(load@), nk, j as int, |k: Seq<char>| must_load(oe, ne, modified@, k)); }
                    j = j + 1;
                },
            }
        }
    }
    proof {
        assert forall|k: Seq<char>|
            must_unload(oe, ne, modified@, k) implies strings_view(unload@).contains(k) by {
            let p = choose|p: int| 0 <= p < oe.len() && (#[trigger] oe[p]).0 == k;
            assert(ok[p] == k);
        }
        assert forall|k: Seq<char>|
            must_load(oe, ne, modified@, k) implies strings_view(load@).contains(k) by {
            let q = choose|q: int| 0 <= q < ne.len() && (#[trigger] ne[q]).0 == k;
            assert(nk[q] == k);
        }
    }
    (unload, load)
}

/// Extending the scanned prefix by one position keeps the membership
/// characterisation of an output list.
proof fn lemma_scan_step(
    before: Seq<Seq<char>>,
    after: Seq<Seq<char>>,
    keys: Seq<Seq<char>>,
    i: int,
    pred: spec_fn(Seq<char>) -> bool,
)
    requires
        0 <= i < keys.len(),
        forall|k: Seq<char>|
            before.contains(k) <==> (exists|p: int| 0 <= p < i && #[trigger] keys[p] == k && pred(k)),
        pred(keys[i]) ==> after == before.push(keys[i]),
        !pred(keys[i]) ==> after == before,
    ensures
        forall|k: Seq<char>|
            after.contains(k) <==> (exists|p: int| 0 <= p < i + 1 && #[trigger] keys[p] == k && pred(k)),
{
    assert forall|k: Seq<char>|
        after.contains(k) <==> (exists|p: int| 0 <= p < i + 1 && #[trigger] keys[p] == k && pred(k)) by {
        if after.contains(k) {
            if pred(keys[i]) && k == keys[i] {
                assert(keys[i] == k);
            } else {
                let m = choose|m: int| 0 <= m < after.len() && after[m] == k;
                if pred(keys[i]) {
                    if m < before.len() {
                        assert(before[m] == k);
                        assert(before.contains(k));
                    } else {
                        assert(after[m] == keys[i]);
                    }
                } else {
                    assert(before.contains(k));
                }
            }
        }
        if exists|p: int| 0 <= p < i + 1 && #[trigger] keys[p] == k && pred(k) {
            let p = choose|p: int| 0 <= p < i + 1 && #[trigger] keys[p] == k && pred(k);
            if p == i {
                assert(after[after.len() - 1] == k);
            } else {
                assert(before.contains(k));
                let m = choose|m: int| 0 <= m < before.len() && before[m] == k;
                if pred(keys[i]) {
                    assert(after[m] == k);
                }
            }
        }
    }
}

/// In a strictly sorted list, a key occurs only at its own position.
proof fn lemma_unique_position(keys: Seq<Seq<char>>, i: int)
    requires
        strictly_sorted(keys),
        0 <= i < keys.len(),
    ensures
        forall|p: int| 0 <= p < keys.len() && keys[p] == keys[i] ==> p == i,
{
    assert forall|p: int| 0 <= p < keys.len() && keys[p] == keys[i] implies p == i by {
        if p < i {
            assert(seq_less(keys[p], keys[i]));
            lemma_seq_less_irreflexive(keys[i]);
        } else if p > i {
            assert(seq_less(keys[i], keys[p]));
            lemma_seq_less_irreflexive(keys[i]);
        }
    }
}

/// Appends a copy of the key at position `at` of a strictly sorted list to a
/// strictly sorted output whose keys all come before it.
fn push_key(out: &mut Vec<String>, key: &String, Ghost(keys): Ghost<Seq<Seq<char>>>, Ghost(at): Ghost<int>)
    requires
        0 <= at < keys.len(),
        keys[at] == key@,
        strictly_sorted(keys),
        strictly_sorted(strings_view(old(out)@)),
        forall|k: Seq<char>| #[trigger] strings_view(old(out)@).contains(k) ==> exists|p: int| 0 <= p < at && keys[p] == k,
    ensures
        strings_view(final(out)@) == strings_view(old(out)@).push(key@),
        strictly_sorted(strings_view(final(out)@)),
{
    let ghost before = strings_view(out@);
    out.push(key.clone());
    proof {
        let after = strings_view(out@);
        assert(after =~= before.push(key@));
        assert forall|p: int, q: int| 0 <= p < q < after.len() implies seq_less(after[p], after[q]) by {
            if q == after.len() - 1 {
                assert(before.contains(after[p]));
                let m = choose|m: int| 0 <= m < at && keys[m] == after[p];
                assert(seq_less(keys[m], keys[at]));
            } else {
                assert(after[p] == before[p]);
                assert(after[q] == before[q]);
            }
        }
    }
}

} // verus!

verus! {

/// A table entry that some extension provides.
pub trait ProvidedByExtension {
    /// The id of the providing extension.
    spec fn provider(&self) -> Seq<char>;

    /// The id of the providing extension.
    fn provider_id(&self) -> (r: &String)
        ensures
            r@ == self.provider(),
    ;
}

impl ProvidedByExtension for ExtensionIndexThemeEntry {
    open spec fn provider(&self) -> Seq<char> {
        self.extension@
    }

    fn provider_id(&self) -> (r: &String) {
        &self.extension
    }
}

impl ProvidedByExtension for ExtensionIndexIconThemeEntry {
    open spec fn provider(&self) -> Seq<char> {
        self.extension@
    }

    fn provider_id(&self) -> (r: &String) {
        &self.extension
    }
}

impl ProvidedByExtension for ExtensionIndexLanguageEntry {
    open spec fn provider(&self) -> Seq<char> {
        self.extension@
    }

    fn provider_id(&self) -> (r: &String) {
        &self.extension
    }
}

/// A table as pairs of key and providing extension.
pub open spec fn provider_table<T: ProvidedByExtension>(t: Seq<(String, T)>) -> Seq<(Seq<char>, Seq<char>)> {
    t.map_values(|e: (String, T)| (e.0@, e.1.provider()))
}

/// The keys of the table, in table order, whose providing extension is
/// among `exts`.
pub open spec fn provided_keys(t: Seq<(Seq<char>, Seq<char>)>, exts: Seq<Seq<char>>) -> Seq<Seq<char>>
    decreases t.len(),
{
    if t.len() == 0 {
        Seq::empty()
    } else {
        let r = provided_keys(t.drop_last(), exts);
        if exts.contains(t.last().1) {
            r.push(t.last().0)
        } else {
            r
        }
    }
}

/// The keys of `table` provided by one of `exts`, in table order.
pub fn keys_provided_by<T: ProvidedByExtension>(table: &Vec<(String, T)>, exts: &Vec<String>) -> (r: Vec<String>)
    ensures
        strings_view(r@) == provided_keys(provider_table(table@), strings_view(exts@)),
{
    let ghost t = provider_table(table@);
    let mut r: Vec<String> = Vec::new();
    let mut i: usize = 0;
    while i < table.len()
        invariant
            t == provider_table(table@),
            i <= table@.len(),
            strings_view(r@) == provided_keys(t.subrange(0, i as int), strings_view(exts@)),
        decreases table@.len() - i,
    {
        let ghost before = strings_view(r@);
        assert(t.subrange(0, i + 1).drop_last() =~= t.subrange(0, i as int));
        let provider = table[i].1.provider_id();
        let hit = strings_contain(exts, provider.as_str());
        proof {
            assert(t.subrange(0, i + 1).last() == t[i as int]);
            assert(t[i as int].1 == provider@);
            if hit {
                let m = choose|m: int| 0 <= m < exts@.len() && (#[trigger] exts@[m])@ == provider@;
                assert(strings_view(exts@)[m] == provider@);
            }
            if strings_view(exts@).contains(provider@) {
                let m = choose|m: int| 0 <= m < strings_view(exts@).len() && strings_view(exts@)[m] == provider@;
                assert(exts@[m]@ == provider@);
            }
        }
        if hit {
            r.push(table[i].0.clone());
            assert(strings_view(r@) =~= before.push(table@[i as int].0@));
        }
        i = i + 1;
    }
    assert(t.subrange(0, table@.len() as int) =~= t);
    r
}

/// The entry of the table under `k`, if any.
pub open spec fn find_entry(
    entries: Seq<(Seq<char>, (ExtensionManifestView, bool))>,
    k: Seq<char>,
) -> Option<(ExtensionManifestView, bool)>
    decreases entries.len(),
{
    if entries.len() == 0 {
        None
    } else if entries.last().0 == k {
        Some(entries.last().1)
    } else {
        find_entry(entries.drop_last(), k)
    }
}

/// The position of the entry under `key` in the extension table, if any.
pub fn position_of_extension(index: &ExtensionIndex, key: &str) -> (r: Option<usize>)
    ensures
        match r {
            Some(p) => p < index.extensions@.len() && find_entry(index.extension_entries(), key@)
                == Some(index.extension_entries()[p as int].1),
            None => find_entry(index.extension_entries(), key@) is None,
        },
{
    let ghost e = index.extension_entries();
    let mut found: Option<usize> = None;
    let mut i: usize = 0;
    while i < index.extensions.len()
        invariant
            e == index.extension_entries(),
            i <= index.extensions@.len(),
            match found {
                Some(p) => p < i && find_entry(e.subrange(0, i as int), key@) == Some(e[p as int].1),
                None => find_entry(e.subrange(0, i as int), key@) is None,
            },
        decreases index.extensions@.len() - i,
    {
        assert(e.subrange(0, i + 1).drop_last() =~= e.subrange(0, i as int));
        assert(e.subrange(0, i + 1).last() == e[i as int]);
        if str_eq(index.extensions[i].0.as_str(), key) {
            found = Some(i);
        }
        i = i + 1;
    }
    assert(e.subrange(0, index.extensions@.len() as int) =~= e);
    found
}

/// A list of names that a manifest declares.
#[derive(PartialEq, Eq, Structural, Clone, Copy, Debug)]
pub enum ManifestList {
    Grammars,
    Themes,
    IconThemes,
    Snippets,
    LanguageServers,
    ContextServers,
    DebugAdapters,
    DebugLocators,
}

/// The names of the given list in a manifest (the snippets file, where there
/// is one, as a list of one).
pub open spec fn manifest_list(m: ExtensionManifestView, which: ManifestList) -> Seq<Seq<char>> {
    match which {
        ManifestList::Grammars => m.grammars,
        ManifestList::Themes => m.themes,
        ManifestList::IconThemes => m.icon_themes,
        ManifestList::Snippets => match m.snippets {
            Some(s) => seq![s],
            None => Seq::empty(),
        },
        ManifestList::LanguageServers => m.language_servers.map_values(
            |e: (Seq<char>, Seq<Seq<char>>)| e.0,
        ),
        ManifestList::ContextServers => m.context_servers,
        ManifestList::DebugAdapters => m.debug_adapters,
        ManifestList::DebugLocators => m.debug_locators,
    }
}

fn copy_manifest_list(m: &ExtensionManifest, which: ManifestList) -> (r: Vec<String>)
    ensures
        strings_view(r@) == manifest_list(m@, which),
{
    match which {
        ManifestList::Grammars => copy_strings(&m.grammars),
        ManifestList::Themes => copy_strings(&m.themes),
        ManifestList::IconThemes => copy_strings(&m.icon_themes),
        ManifestList::Snippets => {
            let mut r: Vec<String> = Vec::new();
            if let Some(s) = &m.snippets {
                r.push(s.clone());
            }
            assert(strings_view(r@) =~= manifest_list(m@, which));
            r
        },
        ManifestList::LanguageServers => {
            let mut r: Vec<String> = Vec::new();
            let mut i: usize = 0;
            while i < m.language_servers.len()
                invariant
                    i <= m.language_servers@.len(),
                    strings_view(r@) == m.language_servers@.subrange(0, i as int).map_values(
                        |e: LanguageServerEntry| e.name@,
                    ),
                decreases m.language_servers@.len() - i,
            {
                let ghost before = r@;
                let c = m.language_servers[i].name.clone();
                r.push(c);
                assert(r@ == before.push(c));
                proof {
                    lemma_strings_view_push(before, c);
                    assert(m.language_servers@.subrange(0, i + 1) =~= m.language_servers@.subrange(0, i as int).push(m.language_servers@[i as int]));
                    assert(m.language_servers@.subrange(0, i + 1).map_values(|e: LanguageServerEntry| e.name@) =~= m.language_servers@.subrange(0, i as int).map_values(|e: LanguageServerEntry| e.name@).push(c@));
                }
                i = i + 1;
            }
            assert(strings_view(r@) =~= manifest_list(m@, which));
            r
        },
        ManifestList::ContextServers => copy_strings(&m.context_servers),
        ManifestList::DebugAdapters => copy_strings(&m.debug_adapters),
        ManifestList::DebugLocators => copy_strings(&m.debug_locators),
    }
}

/// A copy of a list of strings.
pub fn copy_strings(v: &Vec<String>) -> (r: Vec<String>)
    ensures
        strings_view(r@) == strings_view(v@),
{
    let mut r: Vec<String> = Vec::new();
    let mut i: usize = 0;
    while i < v.len()
        invariant
            i <= v@.len(),
            strings_view(r@) == strings_view(v@.subrange(0, i as int)),
        decreases v@.len() - i,
    {
        let ghost before = r@;
        let c = v[i].clone();
        r.push(c);
        assert(r@ == before.push(c));
        proof {
            lemma_strings_view_push(before, c);
            lemma_strings_view_prefix(v@, i as int);
        }
        i = i + 1;
    }
    assert(v@.subrange(0, v@.len() as int) =~= v@);
    r
}

/// For each id of `ids` in order that has an entry, the names of the given
/// list of its manifest, each paired with the id.
pub open spec fn declared_items(
    entries: Seq<(Seq<char>, (ExtensionManifestView, bool))>,
    ids: Seq<Seq<char>>,
    which: ManifestList,
) -> Seq<(Seq<char>, Seq<char>)>
    decreases ids.len(),
{
    if ids.len() == 0 {
        Seq::empty()
    } else {
        let before = declared_items(entries, ids.drop_last(), which);
        match find_entry(entries, ids.last()) {
            Some(e) => before + manifest_list(e.0, which).map_values(
                |x: Seq<char>| (ids.last(), x),
            ),
            None => before,
        }
    }
}

/// The view of a list of id and name pairs.
pub open spec fn pairs_view(v: Seq<(String, String)>) -> Seq<(Seq<char>, Seq<char>)> {
    v.map_values(|p: (String, String)| (p.0@, p.1@))
}

/// The items of the given list that the extensions `ids` of `index` declare,
/// each with the id of its extension.
pub fn items_declared_by(index: &ExtensionIndex, ids: &Vec<String>, which: ManifestList) -> (r: Vec<(String, String)>)
    ensures
        pairs_view(r@) == declared_items(index.extension_entries(), strings_view(ids@), which),
{
    let ghost e = index.extension_entries();
    let ghost idv = strings_view(ids@);
    let mut r: Vec<(String, String)> = Vec::new();
    let mut i: usize = 0;
    while i < ids.len()
        invariant
            e == index.extension_entries(),
            idv == strings_view(ids@),
            i <= ids@.len(),
            pairs_view(r@) == declared_items(e, idv.subrange(0, i as int), which),
        decreases ids@.len() - i,
    {
        assert(idv.subrange(0, i + 1).drop_last() =~= idv.subrange(0, i as int));
        assert(idv.subrange(0, i + 1).last() == ids@[i as int]@);
        let pos = position_of_extension(index, ids[i].as_str());
        match pos {
            Some(p) => {
                let items = copy_manifest_list(&index.extensions[p].1.manifest, which);
                let ghost before = pairs_view(r@);
                let ghost mv = manifest_list(e[p as int].1.0, which);
                let mut k: usize = 0;
                while k < items.len()
                    invariant
                        i < ids@.len(),
                        k <= items@.len(),
                        strings_view(items@) == mv,
                        pairs_view(r@) == before + mv.subrange(0, k as int).map_values(
                            |x: Seq<char>| (ids@[i as int]@, x),
                        ),
                    decreases items@.len() - k,
                {
                    let ghost r0 = r@;
                    let a = ids[i].clone();
                    let b = items[k].clone();
                    r.push((a, b));
                    assert(r@ == r0.push((a, b)));
                    assert(b@ == mv[k as int]);
                    proof {
                        assert(pairs_view(r0.push((a, b))) =~= pairs_view(r0).push((a@, b@)));
                        assert(mv.subrange(0, k + 1).map_values(|x: Seq<char>| (ids@[i as int]@, x)) =~= mv.subrange(0, k as int).map_values(|x: Seq<char>| (ids@[i as int]@, x)).push((a@, b@)));
                    }
                    k = k + 1;
                }
                assert(mv.subrange(0, items@.len() as int) =~= mv);
            },
            None => {},
        }
        i = i + 1;
    }
    assert(idv.subrange(0, ids@.len() as int) =~= idv);
    r
}

/// How many of the unloaded extensions are loaded again.
pub open spec fn reload_count_of(unload: Seq<Seq<char>>, load: Seq<Seq<char>>) -> nat
    decreases unload.len(),
{
    if unload.len() == 0 {
        0
    } else {
        reload_count_of(unload.drop_last(), load) + if load.contains(unload.last()) {
            1nat
        } else {
            0nat
        }
    }
}

/// Executable `reload_count_of`.
pub fn count_reloads(unload: &Vec<String>, load: &Vec<String>) -> (r: usize)
    ensures
        r == reload_count_of(strings_view(unload@), strings_view(load@)),
{
    let ghost u = strings_view(unload@);
    let mut n: usize = 0;
    let mut i: usize = 0;
    while i < unload.len()
        invariant
            u == strings_view(unload@),
            i <= unload@.len(),
            n == reload_count_of(u.subrange(0, i as int), strings_view(load@)),
            n <= i,
        decreases unload@.len() - i,
    {
        assert(u.subrange(0, i + 1).drop_last() =~= u.subrange(0, i as int));
        let hit = strings_contain(load, unload[i].as_str());
        proof {
            assert(u.subrange(0, i + 1).last() == unload@[i as int]@);
            if hit {
                let m = choose|m: int| 0 <= m < load@.len() && (#[trigger] load@[m])@ == unload@[i as int]@;
                assert(strings_view(load@)[m] == unload@[i as int]@);
            }
            if strings_view(load@).contains(unload@[i as int]@) {
                let m = choose|m: int| 0 <= m < strings_view(load@).len() && strings_view(load@)[m] == unload@[i as int]@;
                assert(load@[m]@ == unload@[i as int]@);
            }
        }
        if hit {
            n = n + 1;
        }
        i = i + 1;
    }
    assert(u.subrange(0, unload@.len() as int) =~= u);
    n
}

} // verus!

verus! {

/// An operation under way on an extension.
#[derive(PartialEq, Eq, Structural, Clone, Copy, Debug)]
pub enum ExtensionOperation {
    Upgrade,
    Install,
    Remove,
}

/// What the extension store announces to its observers.
pub enum Event {
    ExtensionsUpdated,
    StartedReloading,
    ExtensionInstalled(String),
    ExtensionFailedToLoad(String),
}

/// What to do when the index of installed extensions changes: the extensions
/// to unload and to load, and the resources that go and come with them.
/// Items that come with a loaded extension carry its id.
pub struct ExtensionsUpdatePlan {
    pub extensions_to_unload: Vec<String>,
    pub extensions_to_load: Vec<String>,
    pub reload_count: usize,
    pub themes_to_remove: Vec<String>,
    pub icon_themes_to_remove: Vec<String>,
    pub languages_to_remove: Vec<String>,
    pub grammars_to_remove: Vec<(String, String)>,
    pub language_servers_to_remove: Vec<(String, String)>,
    pub context_servers_to_remove: Vec<(String, String)>,
    pub debug_adapters_to_remove: Vec<(String, String)>,
    pub debug_locators_to_remove: Vec<(String, String)>,
    pub grammars_to_add: Vec<(String, String)>,
    pub themes_to_add: Vec<(String, String)>,
    pub icon_themes_to_add: Vec<(String, String)>,
    pub snippets_to_add: Vec<(String, String)>,
    pub languages_to_add: Vec<String>,
    pub extensions_with_library: Vec<String>,
}

/// The ids among `ids` whose entry in the table declares a library.
pub open spec fn ids_with_library(
    entries: Seq<(Seq<char>, (ExtensionManifestView, bool))>,
    ids: Seq<Seq<char>>,
) -> Seq<Seq<char>>
    decreases ids.len(),
{
    if ids.len() == 0 {
        Seq::empty()
    } else {
        let before = ids_with_library(entries, ids.drop_last());
        match find_entry(entries, ids.last()) {
            Some(e) => if e.0.lib_kind is Some {
                before.push(ids.last())
            } else {
                before
            },
            None => before,
        }
    }
}

/// Whether the table's entry under `k` declares a library.
pub open spec fn declares_library(entries: Seq<(Seq<char>, (ExtensionManifestView, bool))>, k: Seq<char>) -> bool {
    find_entry(entries, k) matches Some(e) && e.0.lib_kind is Some
}

/// An id is among those with a library exactly when it is among the given
/// ids and its entry in the table declares a library; and they keep the
/// order of the given ids.
pub proof fn lemma_ids_with_library_are_those_declaring_one(
    entries: Seq<(Seq<char>, (ExtensionManifestView, bool))>,
    ids: Seq<Seq<char>>,
)
    ensures
        forall|k: Seq<char>| ids_with_library(entries, ids).contains(k) <==> (ids.contains(k) && declares_library(entries, k)),
        ids_with_library(entries, ids) == ids.filter(|k: Seq<char>| declares_library(entries, k)),
    decreases ids.len(),
{
    reveal(Seq::filter);
    if ids.len() > 0 {
        let d = ids.drop_last();
        lemma_ids_with_library_are_those_declaring_one(entries, d);
        let r = ids_with_library(entries, ids);
        let rd = ids_with_library(entries, d);
        let last = ids.last();
        if declares_library(entries, last) {
            assert(r == rd.push(last));
        } else {
            assert(r == rd);
        }
        assert forall|k: Seq<char>| r.contains(k) <==> (ids.contains(k) && declares_library(entries, k)) by {
            if ids.contains(k) {
                let i = choose|i: int| 0 <= i < ids.len() && ids[i] == k;
                if i < d.len() {
                    assert(d[i] == k);
                    assert(d.contains(k));
                } else {
                    assert(k == last);
                }
            }
            if d.contains(k) {
                let i = choose|i: int| 0 <= i < d.len() && d[i] == k;
                assert(ids[i] == k);
            }
            if r.contains(k) && declares_library(entries, last) {
                let i = choose|i: int| 0 <= i < r.len() && r[i] == k;
                if i < rd.len() {
                    assert(rd[i] == k);
                }
            }
            if declares_library(entries, last) && k == last {
                assert(r[r.len() - 1] == last);
            }
            if rd.contains(k) && declares_library(entries, last) {
                let i = choose|i: int| 0 <= i < rd.len() && rd[i] == k;
                assert(r[i] == k);
            }
        }
    } else {
        assert(ids_with_library(entries, ids) =~= Seq::<Seq<char>>::empty());
    }
}

/// The ids among `ids` whose entry in `index` declares a library, in order.
pub fn extensions_with_library(index: &ExtensionIndex, ids: &Vec<String>) -> (r: Vec<String>)
    ensures
        strings_view(r@) == ids_with_library(index.extension_entries(), strings_view(ids@)),
{
    let ghost e = index.extension_entries();
    let ghost idv = strings_view(ids@);
    let mut r: Vec<String> = Vec::new();
    let mut i: usize = 0;
    while i < ids.len()
        invariant
            e == index.extension_entries(),
            idv == strings_view(ids@),
            i <= ids@.len(),
            strings_view(r@) == ids_with_library(e, idv.subrange(0, i as int)),
        decreases ids@.len() - i,
    {
        assert(idv.subrange(0, i + 1).drop_last() =~= idv.subrange(0, i as int));
        assert(idv.subrange(0, i + 1).last() == ids@[i as int]@);
        let pos = position_of_extension(index, ids[i].as_str());
        if let Some(p) = pos {
            if index.extensions[p].1.manifest.lib_kind.is_some() {
                let ghost before = r@;
                let c = ids[i].clone();
                r.push(c);
                proof {
                    lemma_strings_view_push(before, c);
                }
            }
        }
        i = i + 1;
    }
    assert(idv.subrange(0, ids@.len() as int) =~= idv);
    r
}

/// Whether the index read at startup has to be rebuilt: unless it was read
/// and is newer than the directory of installed extensions (both times
/// known), it has.
pub fn index_needs_rebuild(index_read: bool, index_mtime: Option<u128>, installed_mtime: Option<u128>) -> (r: bool)
    ensures
        r == !(index_read && index_mtime is Some && installed_mtime is Some && index_mtime->0 > installed_mtime->0),
{
    if index_read {
        if let (Some(a), Some(b)) = (index_mtime, installed_mtime) {
            if a > b {
                return false;
            }
        }
    }
    true
}

/// What installing a dev extension does where the extensions directory
/// may already hold an entry under its id (`existing_is_symlink` says
/// whether one is there and whether it is a link): a link is replaced
/// (`Ok(true)`: remove it first), nothing there is fine (`Ok(false)`), and
/// anything else means the extension is installed already.
pub fn dev_extension_link_action(existing_is_symlink: Option<bool>, extension_id: &str) -> (r: Result<bool, String>)
    ensures
        match existing_is_symlink {
            None => r == Ok::<bool, String>(false),
            Some(true) => r == Ok::<bool, String>(true),
            Some(false) => r matches Err(m) && m@ == "extension "@ + extension_id@ + " is already installed"@,
        },
{
    match existing_is_symlink {
        None => Ok(false),
        Some(true) => Ok(true),
        Some(false) => {
            let t = crate::text::chars_concat(chars_of("extension ").as_slice(), chars_of(extension_id).as_slice());
            let t = crate::text::chars_concat(t.as_slice(), chars_of(" is already installed").as_slice());
            Err(crate::text::string_of(t.as_slice()))
        },
    }
}

/// Whether reload requests arrived since the index was last rebuilt.
pub struct ReloadDebouncer {
    pub index_changed: bool,
}

impl ReloadDebouncer {
    /// Nothing asked for yet.
    pub fn new() -> (r: Self)
        ensures
            !r.index_changed,
    {
        ReloadDebouncer { index_changed: false }
    }

    /// The debounce timer ran out: whether to rebuild the index now, which
    /// it is where a reload was asked for since the last rebuild.
    pub fn timer_fired(&mut self) -> (rebuild: bool)
        ensures
            rebuild == old(self).index_changed,
            !final(self).index_changed,
    {
        let rebuild = self.index_changed;
        self.index_changed = false;
        rebuild
    }
}

/// The extension store's directories below its root: installed extensions
/// in `installed`, the WebAssembly host's work in `work`, the index in
/// `index.json`, and builds in the given build directory, else in `build`.
pub struct ExtensionDirs {
    pub installed_dir: String,
    pub work_dir: String,
    pub index_path: String,
    pub build_dir: String,
}

/// The store's directories for the root `extensions_dir` and an optional
/// build directory of its own.
pub fn extension_dirs(extensions_dir: &str, build_dir: Option<String>) -> (r: ExtensionDirs)
    ensures
        r.installed_dir@ == path_joined(extensions_dir@, "installed"@),
        r.work_dir@ == path_joined(extensions_dir@, "work"@),
        r.index_path@ == path_joined(extensions_dir@, "index.json"@),
        r.build_dir@ == match build_dir {
            Some(b) => b@,
            None => path_joined(extensions_dir@, "build"@),
        },
{
    let work_dir = join_path(extensions_dir, "work");
    let build_dir = match build_dir {
        Some(b) => b,
        None => join_path(extensions_dir, "build"),
    };
    let installed_dir = join_path(extensions_dir, "installed");
    let index_path = join_path(extensions_dir, "index.json");
    ExtensionDirs { installed_dir, work_dir, index_path, build_dir }
}

/// The extension store's bookkeeping: the current index, the operations
/// under way, and the extensions modified on disk since the last update.
pub struct ExtensionStore {
    pub extension_index: ExtensionIndex,
    pub outstanding_operations: Vec<(String, ExtensionOperation)>,
    pub modified_extensions: Vec<String>,
}

/// The operations under way, as a map from extension id.
pub open spec fn operations_map(ops: Seq<(String, ExtensionOperation)>) -> Map<Seq<char>, ExtensionOperation>
    decreases ops.len(),
{
    if ops.len() == 0 {
        Map::empty()
    } else {
        operations_map(ops.drop_last()).insert(ops.last().0@, ops.last().1)
    }
}

/// No extension id has two operations.
pub open spec fn operations_distinct(ops: Seq<(String, ExtensionOperation)>) -> bool {
    forall|p: int, q: int| 0 <= p < q < ops.len() ==> ops[p].0@ != ops[q].0@
}

impl ExtensionStore {
    /// The store's invariant: a well-formed index and at most one operation
    /// per extension.
    pub open spec fn well_formed(&self) -> bool {
        self.extension_index.well_formed() && operations_distinct(self.outstanding_operations@)
    }

    /// The operations under way.
    pub open spec fn operations(&self) -> Map<Seq<char>, ExtensionOperation> {
        operations_map(self.outstanding_operations@)
    }

    /// A store with the given index and nothing under way.
    pub fn new(extension_index: ExtensionIndex) -> (r: Self)
        requires
            extension_index.well_formed(),
        ensures
            r.well_formed(),
            r.extension_index == extension_index,
            r.operations() == Map::<Seq<char>, ExtensionOperation>::empty(),
            r.modified_extensions@.len() == 0,
    {
        ExtensionStore {
            extension_index,
            outstanding_operations: Vec::new(),
            modified_extensions: Vec::new(),
        }
    }

    /// A reload was asked for, for one extension or for all: the extension
    /// is noted as modified, and an index rebuild is due once the requests
    /// settle.
    pub fn reload_requested(&mut self, debouncer: &mut ReloadDebouncer, extension_id: Option<String>)
        ensures
            final(self).modified_extensions@ == match extension_id {
                Some(id) => old(self).modified_extensions@.push(id),
                None => old(self).modified_extensions@,
            },
            final(self).extension_index == old(self).extension_index,
            final(self).outstanding_operations == old(self).outstanding_operations,
            final(debouncer).index_changed,
    {
        if let Some(id) = extension_id {
            self.modified_extensions.push(id);
        }
        debouncer.index_changed = true;
    }

    /// Records that an extension's files changed on disk.
    pub fn mark_modified(&mut self, extension_id: String)
        ensures
            final(self).modified_extensions@ == old(self).modified_extensions@.push(extension_id),
            final(self).extension_index == old(self).extension_index,
            final(self).outstanding_operations == old(self).outstanding_operations,
    {
        self.modified_extensions.push(extension_id);
    }

    /// Starts `operation` on `extension_id` unless an operation is already
    /// under way on it; returns whether it started.
    pub fn begin_operation(&mut self, extension_id: &String, operation: ExtensionOperation) -> (started: bool)
        requires
            old(self).well_formed(),
        ensures
            final(self).well_formed(),
            started == !old(self).operations().contains_key(extension_id@),
            started ==> final(self).operations() == old(self).operations().insert(extension_id@, operation),
            !started ==> final(self).operations() == old(self).operations(),
            final(self).extension_index == old(self).extension_index,
            final(self).modified_extensions == old(self).modified_extensions,
    {
        let present = self.operation_position(extension_id.as_str());
        match present {
            Some(_) => false,
            None => {
                let ghost before = self.outstanding_operations@;
                self.outstanding_operations.push((extension_id.clone(), operation));
                proof {
                    assert(self.outstanding_operations@.drop_last() =~= before);
                    assert forall|p: int, q: int|
                        0 <= p < q < self.outstanding_operations@.len() implies self.outstanding_operations@[p].0@
                        != self.outstanding_operations@[q].0@ by {
                        if q == before.len() {
                            lemma_operations_map_keys(before, p);
                        }
                    }
                }
                true
            },
        }
    }

    /// Starts uninstalling an extension: a removal, unless an operation is
    /// already under way on it; returns whether it started.
    pub fn uninstall_extension(&mut self, extension_id: &String) -> (started: bool)
        requires
            old(self).well_formed(),
        ensures
            final(self).well_formed(),
            started == !old(self).operations().contains_key(extension_id@),
            started ==> final(self).operations() == old(self).operations().insert(extension_id@, ExtensionOperation::Remove),
            !started ==> final(self).operations() == old(self).operations(),
            final(self).extension_index == old(self).extension_index,
            final(self).modified_extensions == old(self).modified_extensions,
    {
        self.begin_operation(extension_id, ExtensionOperation::Remove)
    }

    /// Starts installing a dev extension, which is marked as a removal while
    /// under way, unless an operation is already under way on it; returns
    /// whether it started.
    pub fn install_dev_extension(&mut self, extension_id: &String) -> (started: bool)
        requires
            old(self).well_formed(),
        ensures
            final(self).well_formed(),
            started == !old(self).operations().contains_key(extension_id@),
            started ==> final(self).operations() == old(self).operations().insert(extension_id@, ExtensionOperation::Remove),
            !started ==> final(self).operations() == old(self).operations(),
            final(self).extension_index == old(self).extension_index,
            final(self).modified_extensions == old(self).modified_extensions,
    {
        self.begin_operation(extension_id, ExtensionOperation::Remove)
    }

    /// Starts rebuilding a dev extension: an upgrade, unless an operation is
    /// already under way on it; returns whether it started.
    pub fn rebuild_dev_extension(&mut self, extension_id: &String) -> (started: bool)
        requires
            old(self).well_formed(),
        ensures
            final(self).well_formed(),
            started == !old(self).operations().contains_key(extension_id@),
            started ==> final(self).operations() == old(self).operations().insert(extension_id@, ExtensionOperation::Upgrade),
            !started ==> final(self).operations() == old(self).operations(),
            final(self).extension_index == old(self).extension_index,
            final(self).modified_extensions == old(self).modified_extensions,
    {
        self.begin_operation(extension_id, ExtensionOperation::Upgrade)
    }

    /// Ends the operation on `extension_id`, if there is one.
    pub fn finish_operation(&mut self, extension_id: &str)
        requires
            old(self).well_formed(),
        ensures
            final(self).well_formed(),
            final(self).operations() == old(self).operations().remove(extension_id@),
            final(self).extension_index == old(self).extension_index,
            final(self).modified_extensions == old(self).modified_extensions,
    {
        let ghost ops = self.outstanding_operations@;
        let present = self.operation_position(extension_id);
        match present {
            Some(p) => {
                self.outstanding_operations.remove(p);
                proof {
                    lemma_operations_map_remove(ops, p as int);
                    assert(self.outstanding_operations@ =~= ops.subrange(0, p as int) + ops.subrange(p + 1, ops.len() as int));
                }
            },
            None => {
                proof {
                    assert(!old(self).operations().contains_key(extension_id@));
                    assert(old(self).operations().remove(extension_id@) =~= old(self).operations());
                }
            },
        }
    }

    /// The operation under way on `extension_id`, if any.
    pub fn operation_for(&self, extension_id: &str) -> (r: Option<ExtensionOperation>)
        requires
            self.well_formed(),
        ensures
            r == (if self.operations().contains_key(extension_id@) {
                Some(self.operations()[extension_id@])
            } else {
                None
            }),
    {
        match self.operation_position(extension_id) {
            Some(p) => Some(self.outstanding_operations[p].1),
            None => None,
        }
    }

    fn operation_position(&self, extension_id: &str) -> (r: Option<usize>)
        requires
            self.well_formed(),
        ensures
            match r {
                Some(p) => p < self.outstanding_operations@.len() && self.outstanding_operations@[p as int].0@ == extension_id@
                    && self.operations().contains_key(extension_id@)
                    && self.operations()[extension_id@] == self.outstanding_operations@[p as int].1,
                None => !self.operations().contains_key(extension_id@),
            },
    {
        let ghost ops = self.outstanding_operations@;
        let mut i: usize = 0;
        while i < self.outstanding_operations.len()
            invariant
                ops == self.outstanding_operations@,
                operations_distinct(ops),
                i <= ops.len(),
                forall|k: int| 0 <= k < i ==> ops[k].0@ != extension_id@,
            decreases ops.len() - i,
        {
            if str_eq(self.outstanding_operations[i].0.as_str(), extension_id) {
                proof {
                    lemma_operations_map_lookup(ops, i as int);
                }
                return Some(i);
            }
            i = i + 1;
        }
        proof {
            lemma_operations_map_absent(ops, extension_id@);
        }
        None
    }

    /// Applies a new index: works out which extensions to unload and load,
    /// forgets the modified set, and adopts the new index unless nothing is
    /// to be unloaded or loaded, in which case the old one stays.
    pub fn extensions_updated(&mut self, new_index: ExtensionIndex) -> (plan: ExtensionsUpdatePlan)
        requires
            old(self).well_formed(),
            new_index.well_formed(),
        ensures
            final(self).well_formed(),
            final(self).modified_extensions@.len() == 0,
            final(self).outstanding_operations == old(self).outstanding_operations,
            ({
                let oe = old(self).extension_index.extension_entries();
                let ne = new_index.extension_entries();
                let m = old(self).modified_extensions@;
                let unload = strings_view(plan.extensions_to_unload@);
                let load = strings_view(plan.extensions_to_load@);
                &&& strictly_sorted(unload)
                &&& strictly_sorted(load)
                &&& forall|k: Seq<char>| unload.contains(k) <==> must_unload(oe, ne, m, k)
                &&& forall|k: Seq<char>| load.contains(k) <==> must_load(oe, ne, m, k)
                &&& if unload.len() == 0 && load.len() == 0 {
                    &&& final(self).extension_index == old(self).extension_index
                    &&& plan.reload_count == 0
                    &&& plan.themes_to_remove@.len() == 0
                    &&& plan.icon_themes_to_remove@.len() == 0
                    &&& plan.languages_to_remove@.len() == 0
                    &&& plan.grammars_to_remove@.len() == 0
                    &&& plan.language_servers_to_remove@.len() == 0
                    &&& plan.context_servers_to_remove@.len() == 0
                    &&& plan.debug_adapters_to_remove@.len() == 0
                    &&& plan.debug_locators_to_remove@.len() == 0
                    &&& plan.grammars_to_add@.len() == 0
                    &&& plan.themes_to_add@.len() == 0
                    &&& plan.icon_themes_to_add@.len() == 0
                    &&& plan.snippets_to_add@.len() == 0
                    &&& plan.languages_to_add@.len() == 0
                    &&& plan.extensions_with_library@.len() == 0
                } else {
                    &&& final(self).extension_index == new_index
                    &&& plan.reload_count == reload_count_of(unload, load)
                    &&& strings_view(plan.themes_to_remove@) == provided_keys(
                        provider_table(old(self).extension_index.themes@),
                        unload,
                    )
                    &&& strings_view(plan.icon_themes_to_remove@) == provided_keys(
                        provider_table(old(self).extension_index.icon_themes@),
                        unload,
                    )
                    &&& strings_view(plan.languages_to_remove@) == provided_keys(
                        provider_table(old(self).extension_index.languages@),
                        unload,
                    )
                    &&& pairs_view(plan.grammars_to_remove@) == declared_items(oe, unload, ManifestList::Grammars)
                    &&& pairs_view(plan.language_servers_to_remove@) == declared_items(oe, unload, ManifestList::LanguageServers)
                    &&& pairs_view(plan.context_servers_to_remove@) == declared_items(oe, unload, ManifestList::ContextServers)
                    &&& pairs_view(plan.debug_adapters_to_remove@) == declared_items(oe, unload, ManifestList::DebugAdapters)
                    &&& pairs_view(plan.debug_locators_to_remove@) == declared_items(oe, unload, ManifestList::DebugLocators)
                    &&& pairs_view(plan.grammars_to_add@) == declared_items(ne, load, ManifestList::Grammars)
                    &&& pairs_view(plan.themes_to_add@) == declared_items(ne, load, ManifestList::Themes)
                    &&& pairs_view(plan.icon_themes_to_add@) == declared_items(ne, load, ManifestList::IconThemes)
                    &&& pairs_view(plan.snippets_to_add@) == declared_items(ne, load, ManifestList::Snippets)
                    &&& strings_view(plan.languages_to_add@) == provided_keys(provider_table(new_index.languages@), load)
                    &&& strings_view(plan.extensions_with_library@) == ids_with_library(ne, load)
                    &&& forall|k: Seq<char>| strings_view(plan.extensions_with_library@).contains(k) <==> (load.contains(k)
                        && declares_library(ne, k))
                }
            }),
    {
        let (unload, load) = index_changes(&self.extension_index, &new_index, &self.modified_extensions);
        self.modified_extensions = Vec::new();
        if unload.len() == 0 && load.len() == 0 {
            return ExtensionsUpdatePlan {
                extensions_to_unload: unload,
                extensions_to_load: load,
                reload_count: 0,
                themes_to_remove: Vec::new(),
                icon_themes_to_remove: Vec::new(),
                languages_to_remove: Vec::new(),
                grammars_to_remove: Vec::new(),
                language_servers_to_remove: Vec::new(),
                context_servers_to_remove: Vec::new(),
                debug_adapters_to_remove: Vec::new(),
                debug_locators_to_remove: Vec::new(),
                grammars_to_add: Vec::new(),
                themes_to_add: Vec::new(),
                icon_themes_to_add: Vec::new(),
                snippets_to_add: Vec::new(),
                languages_to_add: Vec::new(),
                extensions_with_library: Vec::new(),
            };
        }
        let reload_count = count_reloads(&unload, &load);
        let old_index = &self.extension_index;
        let themes_to_remove = keys_provided_by(&old_index.themes, &unload);
        let icon_themes_to_remove = keys_provided_by(&old_index.icon_themes, &unload);
        let languages_to_remove = keys_provided_by(&old_index.languages, &unload);
        let grammars_to_remove = items_declared_by(old_index, &unload, ManifestList::Grammars);
        let language_servers_to_remove = items_declared_by(old_index, &unload, ManifestList::LanguageServers);
        let context_servers_to_remove = items_declared_by(old_index, &unload, ManifestList::ContextServers);
        let debug_adapters_to_remove = items_declared_by(old_index, &unload, ManifestList::DebugAdapters);
        let debug_locators_to_remove = items_declared_by(old_index, &unload, ManifestList::DebugLocators);
        let grammars_to_add = items_declared_by(&new_index, &load, ManifestList::Grammars);
        let themes_to_add = items_declared_by(&new_index, &load, ManifestList::Themes);
        let icon_themes_to_add = items_declared_by(&new_index, &load, ManifestList::IconThemes);
        let snippets_to_add = items_declared_by(&new_index, &load, ManifestList::Snippets);
        let languages_to_add = keys_provided_by(&new_index.languages, &load);
        let with_library = extensions_with_library(&new_index, &load);
        proof {
            lemma_ids_with_library_are_those_declaring_one(new_index.extension_entries(), strings_view(load@));
        }
        self.extension_index = new_index;
        ExtensionsUpdatePlan {
            extensions_to_unload: unload,
            extensions_to_load: load,
            reload_count,
            themes_to_remove,
            icon_themes_to_remove,
            languages_to_remove,
            grammars_to_remove,
            language_servers_to_remove,
            context_servers_to_remove,
            debug_adapters_to_remove,
            debug_locators_to_remove,
            grammars_to_add,
            themes_to_add,
            icon_themes_to_add,
            snippets_to_add,
            languages_to_add,
            extensions_with_library: with_library,
        }
    }
}

proof fn lemma_operations_map_keys(ops: Seq<(String, ExtensionOperation)>, p: int)
    requires
        0 <= p < ops.len(),
    ensures
        operations_map(ops).contains_key(ops[p].0@),
    decreases ops.len(),
{
    if p < ops.len() - 1 {
        lemma_operations_map_keys(ops.drop_last(), p);
    }
}

proof fn lemma_operations_map_lookup(ops: Seq<(String, ExtensionOperation)>, p: int)
    requires
        0 <= p < ops.len(),
        operations_distinct(ops),
    ensures
        operations_map(ops).contains_key(ops[p].0@),
        operations_map(ops)[ops[p].0@] == ops[p].1,
    decreases ops.len(),
{
    if p < ops.len() - 1 {
        lemma_operations_map_lookup(ops.drop_last(), p);
        assert(ops.last().0@ != ops[p].0@);
    }
}

proof fn lemma_operations_map_absent(ops: Seq<(String, ExtensionOperation)>, k: Seq<char>)
    requires
        forall|m: int| 0 <= m < ops.len() ==> ops[m].0@ != k,
    ensures
        !operations_map(ops).contains_key(k),
    decreases ops.len(),
{
    if ops.len() > 0 {
        lemma_operations_map_absent(ops.drop_last(), k);
    }
}

proof fn lemma_operations_map_remove(ops: Seq<(String, ExtensionOperation)>, p: int)
    requires
        0 <= p < ops.len(),
        operations_distinct(ops),
    ensures
        operations_map(ops.subrange(0, p) + ops.subrange(p + 1, ops.len() as int))
            == operations_map(ops).remove(ops[p].0@),
        operations_distinct(ops.subrange(0, p) + ops.subrange(p + 1, ops.len() as int)),
    decreases ops.len(),
{
    let rest = ops.subrange(0, p) + ops.subrange(p + 1, ops.len() as int);
    if p == ops.len() - 1 {
        assert(rest =~= ops.drop_last());
        lemma_operations_map_absent(ops.drop_last(), ops[p].0@);
        assert(operations_map(ops).remove(ops[p].0@) =~= operations_map(ops.drop_last()));
    } else {
        let d = ops.drop_last();
        lemma_operations_map_remove(d, p);
        let drest = d.subrange(0, p) + d.subrange(p + 1, d.len() as int);
        assert(rest =~= drest.push(ops.last()));
        assert(rest.drop_last() =~= drest);
        assert(ops.last().0@ != ops[p].0@);
        assert(operations_map(rest) =~= operations_map(ops).remove(ops[p].0@));
    }
}

} // verus!
