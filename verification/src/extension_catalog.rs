//! What the extension store tells about its extensions: which schema
//! versions it takes, what each extension provides, the catalog of
//! installed extensions filtered and sorted for the extensions page, and
//! where the themes of extensions lie.
use vstd::prelude::*;
use crate::auto_update::{parse_semver, semver_parsed, SemanticVersion};
use crate::extension_index::{
    copy_strings, ExtensionIndex, ExtensionIndexEntry, ExtensionManifest, ExtensionManifestView,
    ExtensionStore, table_keys, strictly_sorted,
};
use crate::lsp_command::{contains_text, text_contains};
use crate::text::{
    chars_compare, chars_of, lemma_seq_less_asymmetric, lemma_seq_less_irreflexive,
    lemma_seq_less_total, lemma_seq_less_transitive, opt_view, seq_less, str_eq, string_of,
    strings_view, trim, trim_chars, TextOrder,
};

verus! {

/// A version of the extension manifest schema.
#[derive(Debug, Clone, Copy, PartialEq, Eq, Structural)]
pub struct SchemaVersion(pub i32);

/// The newest manifest schema this editor reads.
pub const CURRENT_SCHEMA_VERSION: i32 = 1;

/// The schema versions this editor reads: from zero to the current one.
pub fn schema_version_range() -> (r: (SchemaVersion, SchemaVersion))
    ensures
        r == (SchemaVersion(0), SchemaVersion(CURRENT_SCHEMA_VERSION)),
{
    (SchemaVersion(0), SchemaVersion(CURRENT_SCHEMA_VERSION))
}

/// Whether an extension version works with this editor: its schema version
/// (zero where it names none) is not newer than the current one, and where
/// it names a WebAssembly API version that reads as a semantic version, the
/// editor supports that version (`wasm_api_supported` is that answer).
pub fn is_version_compatible(schema_version: Option<i32>, wasm_api_version: Option<&str>, wasm_api_supported: bool) -> (r: bool)
    ensures
        r == ({
            let schema = match schema_version {
                Some(v) => v,
                None => 0,
            };
            &&& schema <= CURRENT_SCHEMA_VERSION
            &&& (wasm_api_version matches Some(w) && semver_parsed(w@) is Some) ==> wasm_api_supported
        }),
{
    let schema = match schema_version {
        Some(v) => v,
        None => 0,
    };
    if CURRENT_SCHEMA_VERSION < schema {
        return false;
    }
    if let Some(w) = wasm_api_version {
        if let Some(_version) = parse_semver(w) {
            if !wasm_api_supported {
                return false;
            }
        }
    }
    true
}

/// What an extension provides.
#[derive(Debug, Clone, Copy, PartialEq, Eq, Structural)]
pub enum ExtensionProvides {
    Themes,
    IconThemes,
    Languages,
    Grammars,
    LanguageServers,
    ContextServers,
    SlashCommands,
    AgentServers,
    Snippets,
    DebugAdapters,
}

/// One kind, where the condition holds.
pub open spec fn kind_if(b: bool, k: ExtensionProvides) -> Seq<ExtensionProvides> {
    if b {
        seq![k]
    } else {
        Seq::empty()
    }
}

/// What a manifest provides: each kind whose list is not empty (snippets
/// where a snippets file is named; debug adapters where it declares adapters
/// or locators), in this order.
pub open spec fn provides_of(m: ExtensionManifestView) -> Seq<ExtensionProvides> {
    kind_if(m.themes.len() > 0, ExtensionProvides::Themes)
        + kind_if(m.icon_themes.len() > 0, ExtensionProvides::IconThemes)
        + kind_if(m.languages.len() > 0, ExtensionProvides::Languages)
        + kind_if(m.grammars.len() > 0, ExtensionProvides::Grammars)
        + kind_if(m.language_servers.len() > 0, ExtensionProvides::LanguageServers)
        + kind_if(m.context_servers.len() > 0, ExtensionProvides::ContextServers)
        + kind_if(m.slash_commands.len() > 0, ExtensionProvides::SlashCommands)
        + kind_if(m.agent_servers.len() > 0, ExtensionProvides::AgentServers)
        + kind_if(m.snippets is Some, ExtensionProvides::Snippets)
        + kind_if(m.debug_adapters.len() > 0 || m.debug_locators.len() > 0, ExtensionProvides::DebugAdapters)
}

/// The manifest an extension's listing shows.
#[derive(Debug)]
pub struct ExtensionApiManifest {
    pub name: String,
    pub version: String,
    pub description: Option<String>,
    pub authors: Vec<String>,
    pub repository: String,
    pub schema_version: Option<i32>,
    pub wasm_api_version: Option<String>,
    pub provides: Vec<ExtensionProvides>,
}

/// An extension's listing.
#[derive(Debug)]
pub struct ExtensionMetadata {
    pub id: String,
    pub manifest: ExtensionApiManifest,
    pub download_count: u64,
}

/// A listing as plain values.
pub struct ExtensionMetadataView {
    pub id: Seq<char>,
    pub name: Seq<char>,
    pub version: Seq<char>,
    pub description: Option<Seq<char>>,
    pub authors: Seq<Seq<char>>,
    pub repository: Seq<char>,
    pub schema_version: Option<i32>,
    pub wasm_api_version: Option<Seq<char>>,
    pub provides: Seq<ExtensionProvides>,
    pub download_count: u64,
}

/// The plain values of a listing.
pub open spec fn metadata_view(m: ExtensionMetadata) -> ExtensionMetadataView {
    ExtensionMetadataView {
        id: m.id@,
        name: m.manifest.name@,
        version: m.manifest.version@,
        description: opt_view(m.manifest.description),
        authors: strings_view(m.manifest.authors@),
        repository: m.manifest.repository@,
        schema_version: m.manifest.schema_version,
        wasm_api_version: opt_view(m.manifest.wasm_api_version),
        provides: m.manifest.provides@,
        download_count: m.download_count,
    }
}

/// The listing of an installed extension: its manifest's details (an empty
/// repository where none is named), what it provides, and no downloads.
pub open spec fn listing_of(m: ExtensionManifestView) -> ExtensionMetadataView {
    ExtensionMetadataView {
        id: m.id,
        name: m.name,
        version: m.version,
        description: m.description,
        authors: m.authors,
        repository: match m.repository {
            Some(r) => r,
            None => Seq::empty(),
        },
        schema_version: Some(m.schema_version),
        wasm_api_version: m.lib_version,
        provides: provides_of(m),
        download_count: 0,
    }
}

/// What a manifest provides, as `provides_of` describes.
fn provides_for(m: &ExtensionManifest) -> (r: Vec<ExtensionProvides>)
    ensures
        r@ == provides_of(m@),
{
    let ghost v = m@;
    let mut r: Vec<ExtensionProvides> = Vec::new();
    push_if(&mut r, m.themes.len() > 0, ExtensionProvides::Themes);
    let ghost s1 = kind_if(v.themes.len() > 0, ExtensionProvides::Themes);
    assert(r@ =~= s1);
    push_if(&mut r, m.icon_themes.len() > 0, ExtensionProvides::IconThemes);
    let ghost s2 = s1 + kind_if(v.icon_themes.len() > 0, ExtensionProvides::IconThemes);
    push_if(&mut r, m.languages.len() > 0, ExtensionProvides::Languages);
    let ghost s3 = s2 + kind_if(v.languages.len() > 0, ExtensionProvides::Languages);
    push_if(&mut r, m.grammars.len() > 0, ExtensionProvides::Grammars);
    let ghost s4 = s3 + kind_if(v.grammars.len() > 0, ExtensionProvides::Grammars);
    push_if(&mut r, m.language_servers.len() > 0, ExtensionProvides::LanguageServers);
    let ghost s5 = s4 + kind_if(v.language_servers.len() > 0, ExtensionProvides::LanguageServers);
    push_if(&mut r, m.context_servers.len() > 0, ExtensionProvides::ContextServers);
    let ghost s6 = s5 + kind_if(v.context_servers.len() > 0, ExtensionProvides::ContextServers);
    push_if(&mut r, m.slash_commands.len() > 0, ExtensionProvides::SlashCommands);
    let ghost s7 = s6 + kind_if(v.slash_commands.len() > 0, ExtensionProvides::SlashCommands);
    push_if(&mut r, m.agent_servers.len() > 0, ExtensionProvides::AgentServers);
    let ghost s8 = s7 + kind_if(v.agent_servers.len() > 0, ExtensionProvides::AgentServers);
    push_if(&mut r, m.snippets.is_some(), ExtensionProvides::Snippets);
    let ghost s9 = s8 + kind_if(v.snippets is Some, ExtensionProvides::Snippets);
    push_if(&mut r, m.debug_adapters.len() > 0 || m.debug_locators.len() > 0, ExtensionProvides::DebugAdapters);
    assert(r@ == provides_of(v));
    r
}

/// Appends the kind where the condition holds.
fn push_if(r: &mut Vec<ExtensionProvides>, b: bool, k: ExtensionProvides)
    ensures
        final(r)@ == old(r)@ + kind_if(b, k),
{
    if b {
        r.push(k);
    }
    assert(r@ =~= old(r)@ + kind_if(b, k));
}

/// The listing of an installed extension, as `listing_of` describes.
pub fn extension_metadata_from_manifest(manifest: &ExtensionManifest) -> (r: ExtensionMetadata)
    ensures
        metadata_view(r) == listing_of(manifest@),
{
    let provides = provides_for(manifest);
    let repository = match &manifest.repository {
        Some(r) => r.clone(),
        None => String::new(),
    };
    ExtensionMetadata {
        id: manifest.id.clone(),
        manifest: ExtensionApiManifest {
            name: manifest.name.clone(),
            version: manifest.version.clone(),
            description: manifest.description.clone(),
            authors: copy_strings(&manifest.authors),
            repository,
            schema_version: Some(manifest.schema_version),
            wasm_api_version: manifest.lib_version.clone(),
            provides,
        },
        download_count: 0,
    }
}

/// What `str::to_lowercase` makes of a text: its Unicode lower case.
pub uninterp spec fn lowercase_of(s: Seq<char>) -> Seq<char>;

/// `str::to_lowercase`.
#[verifier::external_body]
fn to_lowercase(s: &str) -> (r: String)
    ensures
        r@ == lowercase_of(s@),
{
    s.to_lowercase()
}

/// Whether an extension provides one of the kinds asked for.
pub open spec fn provides_any(provides: Seq<ExtensionProvides>, filter: Seq<ExtensionProvides>) -> bool {
    exists|i: int| 0 <= i < filter.len() && provides.contains(#[trigger] filter[i])
}

/// Whether a listing is kept: it provides one of the kinds asked for (where
/// any are asked for), and its id or name, in lower case, holds the search
/// (where there is one).
pub open spec fn listing_kept(m: ExtensionMetadataView, filter: Option<Seq<ExtensionProvides>>, search: Option<Seq<char>>) -> bool {
    &&& (filter matches Some(f) && f.len() > 0) ==> provides_any(m.provides, filter->0)
    &&& search matches Some(s) ==> (contains_text(lowercase_of(m.id), s) || contains_text(lowercase_of(m.name), s))
}

/// The listings of the installed extensions that are not dev extensions,
/// among the first `k` entries, that are kept, in index order.
pub open spec fn kept_listings(
    entries: Seq<(ExtensionManifestView, bool)>,
    filter: Option<Seq<ExtensionProvides>>,
    search: Option<Seq<char>>,
    k: int,
) -> Seq<ExtensionMetadataView>
    decreases k,
{
    if k <= 0 {
        Seq::empty()
    } else {
        let prev = kept_listings(entries, filter, search, k - 1);
        let e = entries[k - 1];
        let l = listing_of(e.0);
        if !e.1 && listing_kept(l, filter, search) {
            prev.push(l)
        } else {
            prev
        }
    }
}

/// The sort key of a listing: its name in lower case.
pub open spec fn listing_key(m: ExtensionMetadataView) -> Seq<char> {
    lowercase_of(m.name)
}

/// Where a listing goes among sorted listings: before the first whose key
/// sorts after its own, so that listings with equal keys keep their order.
pub open spec fn insert_position(s: Seq<ExtensionMetadataView>, key: Seq<char>) -> int
    decreases s.len(),
{
    if s.len() == 0 {
        0
    } else if seq_less(key, listing_key(s.last())) {
        insert_position(s.drop_last(), key)
    } else {
        s.len() as int
    }
}

/// The listings sorted by key, stably.
pub open spec fn sorted_listings(s: Seq<ExtensionMetadataView>) -> Seq<ExtensionMetadataView>
    decreases s.len(),
{
    if s.len() == 0 {
        s
    } else {
        let rest = sorted_listings(s.drop_last());
        rest.insert(insert_position(rest, listing_key(s.last())), s.last())
    }
}

/// The search as the catalog uses it: trimmed, in lower case, and none
/// where it is blank.
pub open spec fn search_term(search: Option<Seq<char>>) -> Option<Seq<char>> {
    match search {
        Some(s) => if trim(s).len() > 0 {
            Some(lowercase_of(trim(s)))
        } else {
            None
        },
        None => None,
    }
}

/// The index entries as manifest views and dev flags.
pub open spec fn entry_views(entries: Seq<(String, ExtensionIndexEntry)>) -> Seq<(ExtensionManifestView, bool)> {
    entries.map_values(|e: (String, ExtensionIndexEntry)| (e.1.manifest@, e.1.dev))
}

proof fn lemma_insert_position_bounds(s: Seq<ExtensionMetadataView>, key: Seq<char>)
    ensures
        0 <= insert_position(s, key) <= s.len(),
    decreases s.len(),
{
    if s.len() > 0 && seq_less(key, listing_key(s.last())) {
        lemma_insert_position_bounds(s.drop_last(), key);
    }
}

/// Whether listings are in order of their keys.
pub open spec fn keys_ordered(s: Seq<ExtensionMetadataView>) -> bool {
    forall|i: int, j: int| 0 <= i < j < s.len() ==> !seq_less(listing_key(#[trigger] s[j]), listing_key(#[trigger] s[i]))
}

proof fn lemma_insert_keeps_order(s: Seq<ExtensionMetadataView>, x: ExtensionMetadataView)
    requires
        keys_ordered(s),
    ensures
        keys_ordered(s.insert(insert_position(s, listing_key(x)), x)),
    decreases s.len(),
{
    let k = listing_key(x);
    let p = insert_position(s, k);
    lemma_insert_position_bounds(s, k);
    let r = s.insert(p, x);
    // every key before p is not after k; every key from p on is after k
    assert forall|i: int| 0 <= i < p implies !seq_less(k, listing_key(#[trigger] s[i])) by {
        lemma_before_position(s, k, i);
    }
    assert forall|i: int| p <= i < s.len() implies seq_less(k, listing_key(#[trigger] s[i])) by {
        lemma_after_position(s, k, i);
    }
    assert forall|i: int, j: int| 0 <= i < j < r.len() implies !seq_less(listing_key(#[trigger] r[j]), listing_key(#[trigger] r[i])) by {
        if j < p {
            assert(r[i] == s[i] && r[j] == s[j]);
        } else if j == p {
            assert(r[i] == s[i]);
            assert(r[j] == x);
        } else if i == p {
            assert(r[j] == s[j - 1]);
            assert(r[i] == x);
            lemma_seq_less_asymmetric(k, listing_key(s[j - 1]));
        } else if i < p {
            assert(r[i] == s[i]);
            assert(r[j] == s[j - 1]);
        } else {
            assert(r[i] == s[i - 1]);
            assert(r[j] == s[j - 1]);
        }
    }
}

proof fn lemma_before_position(s: Seq<ExtensionMetadataView>, k: Seq<char>, i: int)
    requires
        keys_ordered(s),
        0 <= i < insert_position(s, k),
    ensures
        !seq_less(k, listing_key(s[i])),
    decreases s.len(),
{
    lemma_insert_position_bounds(s, k);
    if seq_less(k, listing_key(s.last())) {
        let d = s.drop_last();
        assert(keys_ordered(d)) by {
            assert forall|a: int, b: int| 0 <= a < b < d.len() implies !seq_less(listing_key(#[trigger] d[b]), listing_key(#[trigger] d[a])) by {
                assert(d[a] == s[a] && d[b] == s[b]);
            }
        }
        lemma_insert_position_bounds(d, k);
        lemma_before_position(d, k, i);
        assert(d[i] == s[i]);
    } else {
        // the position is the end: key(s[i]) is not after key(last), and k is
        // not before key(last)
        let ki = listing_key(s[i]);
        let kl = listing_key(s.last());
        if i < s.len() - 1 {
            assert(!seq_less(kl, ki));
            if seq_less(k, ki) {
                if ki != kl {
                    lemma_seq_less_total(ki, kl);
                    lemma_seq_less_transitive(k, ki, kl);
                }
            }
        }
    }
}

proof fn lemma_after_position(s: Seq<ExtensionMetadataView>, k: Seq<char>, i: int)
    requires
        keys_ordered(s),
        insert_position(s, k) <= i < s.len(),
    ensures
        seq_less(k, listing_key(s[i])),
    decreases s.len(),
{
    lemma_insert_position_bounds(s, k);
    let d = s.drop_last();
    assert(seq_less(k, listing_key(s.last())));
    if i < s.len() - 1 {
        assert(keys_ordered(d)) by {
            assert forall|a: int, b: int| 0 <= a < b < d.len() implies !seq_less(listing_key(#[trigger] d[b]), listing_key(#[trigger] d[a])) by {
                assert(d[a] == s[a] && d[b] == s[b]);
            }
        }
        lemma_after_position(d, k, i);
        assert(d[i] == s[i]);
    }
}

/// The catalog is in order of the lower-case names of its listings.
pub proof fn lemma_sorted_listings_ordered(s: Seq<ExtensionMetadataView>)
    ensures
        keys_ordered(sorted_listings(s)),
        sorted_listings(s).len() == s.len(),
    decreases s.len(),
{
    if s.len() > 0 {
        lemma_sorted_listings_ordered(s.drop_last());
        let rest = sorted_listings(s.drop_last());
        lemma_insert_keeps_order(rest, s.last());
        lemma_insert_position_bounds(rest, listing_key(s.last()));
    }
}

impl ExtensionStore {
    /// The installed extensions for the extensions page: the listings of
    /// those that are not dev extensions, kept as `listing_kept` describes
    /// for the search as `search_term` reads it, sorted stably by name in
    /// lower case.
    pub fn fetch_extensions(&self, search: Option<&str>, provides_filter: Option<&Vec<ExtensionProvides>>) -> (r: Vec<ExtensionMetadata>)
        ensures
            r@.map_values(|m: ExtensionMetadata| metadata_view(m)) == sorted_listings(
                kept_listings(
                    entry_views(self.extension_index.extensions@),
                    match provides_filter {
                        Some(f) => Some(f@),
                        None => None,
                    },
                    search_term(
                        match search {
                            Some(s) => Some(s@),
                            None => None,
                        },
                    ),
                    self.extension_index.extensions@.len() as int,
                ),
            ),
    {
        let ghost filter = match provides_filter {
            Some(f) => Some(f@),
            None => None,
        };
        let ghost term = search_term(
            match search {
                Some(s) => Some(s@),
                None => None,
            },
        );
        let search_lower: Option<String> = match search {
            Some(s) => {
                let c = chars_of(s);
                let t = trim_chars(c.as_slice());
                if t.len() > 0 {
                    let trimmed = string_of(t.as_slice());
                    Some(to_lowercase(trimmed.as_str()))
                } else {
                    None
                }
            },
            None => None,
        };
        assert(opt_view(search_lower) == term);
        let entries = &self.extension_index.extensions;
        let ghost ev = entry_views(entries@);
        // the kept listings, in index order
        let mut kept: Vec<ExtensionMetadata> = Vec::new();
        let mut i: usize = 0;
        while i < entries.len()
            invariant
                ev == entry_views(entries@),
                i <= entries@.len(),
                opt_view(search_lower) == term,
                filter == match provides_filter {
                    Some(f) => Some(f@),
                    None => None,
                },
                kept@.map_values(|m: ExtensionMetadata| metadata_view(m)) == kept_listings(ev, filter, term, i as int),
            decreases entries@.len() - i,
        {
            let entry = &entries[i].1;
            if !entry.dev {
                let m = extension_metadata_from_manifest(&entry.manifest);
                let mut keep = true;
                if let Some(f) = provides_filter {
                    if f.len() > 0 {
                        let mut any = false;
                        let mut q: usize = 0;
                        while q < f.len()
                            invariant
                                q <= f@.len(),
                                any <==> exists|z: int| 0 <= z < q && m.manifest.provides@.contains(#[trigger] f@[z]),
                            decreases f@.len() - q,
                        {
                            let kind = f[q];
                            let mut found = false;
                            let mut w: usize = 0;
                            while w < m.manifest.provides.len()
                                invariant
                                    w <= m.manifest.provides@.len(),
                                    found <==> exists|y: int| 0 <= y < w && m.manifest.provides@[y] == kind,
                                decreases m.manifest.provides@.len() - w,
                            {
                                if m.manifest.provides[w] == kind {
                                    found = true;
                                }
                                w = w + 1;
                            }
                            if found {
                                any = true;
                            }
                            assert(found <==> m.manifest.provides@.contains(f@[q as int]));
                            q = q + 1;
                        }
                        keep = any;
                    }
                }
                if keep {
                    if let Some(s) = &search_lower {
                        let id_lower = to_lowercase(m.id.as_str());
                        let name_lower = to_lowercase(m.manifest.name.as_str());
                        keep = text_contains(id_lower.as_str(), s.as_str()) || text_contains(name_lower.as_str(), s.as_str());
                    }
                }
                assert(keep == listing_kept(metadata_view(m), filter, term));
                if keep {
                    let ghost before = kept@.map_values(|x: ExtensionMetadata| metadata_view(x));
                    kept.push(m);
                    assert(kept@.map_values(|x: ExtensionMetadata| metadata_view(x)) =~= before.push(metadata_view(m)));
                }
            }
            i = i + 1;
        }
        // stable insertion by lower-case name
        let ghost kv = kept@.map_values(|m: ExtensionMetadata| metadata_view(m));
        let mut out: Vec<ExtensionMetadata> = Vec::new();
        let mut keys: Vec<Vec<char>> = Vec::new();
        let mut rest = kept;
        let mut pending: Vec<ExtensionMetadata> = Vec::new();
        // put the kept listings in reverse so that popping yields index order
        while rest.len() > 0
            invariant
                rest@.map_values(|m: ExtensionMetadata| metadata_view(m)) + pending@.map_values(|m: ExtensionMetadata| metadata_view(m)).reverse() == kv,
            decreases rest@.len(),
        {
            let ghost r0 = rest@.map_values(|m: ExtensionMetadata| metadata_view(m));
            let ghost p0 = pending@.map_values(|m: ExtensionMetadata| metadata_view(m));
            let m = rest.pop().unwrap();
            let ghost mv = metadata_view(m);
            pending.push(m);
            assert(rest@.map_values(|m: ExtensionMetadata| metadata_view(m)) =~= r0.drop_last());
            assert(pending@.map_values(|m: ExtensionMetadata| metadata_view(m)) =~= p0.push(mv));
            assert(p0.push(mv).reverse() =~= seq![mv] + p0.reverse());
            assert(r0 =~= r0.drop_last().push(mv));
            assert(r0.drop_last() + (seq![mv] + p0.reverse()) =~= r0 + p0.reverse());
        }
        assert(rest@.map_values(|m: ExtensionMetadata| metadata_view(m)) =~= Seq::<ExtensionMetadataView>::empty());
        let ghost pv = pending@.map_values(|m: ExtensionMetadata| metadata_view(m));
        assert(pv.reverse() =~= kv);
        let mut done: usize = 0;
        let total = pending.len();
        while pending.len() > 0
            invariant
                pv.reverse() == kv,
                total == pv.len(),
                done + pending@.len() == total,
                pending@.map_values(|m: ExtensionMetadata| metadata_view(m)) == pv.subrange(0, pending@.len() as int),
                out@.len() == keys@.len(),
                forall|z: int| 0 <= z < keys@.len() ==> (#[trigger] keys@[z])@ == listing_key(metadata_view(out@[z])),
                out@.map_values(|m: ExtensionMetadata| metadata_view(m)) == sorted_listings(kv.subrange(0, done as int)),
            decreases pending@.len(),
        {
            let ghost before_pending = pending@.map_values(|m: ExtensionMetadata| metadata_view(m));
            let m = pending.pop().unwrap();
            let ghost mv = metadata_view(m);
            assert(before_pending[pending@.len() as int] == mv);
            assert(mv == pv[pending@.len() as int]);
            assert(kv[done as int] == pv.reverse()[done as int]);
            assert(mv == kv[done as int]);
            assert(pending@.map_values(|m: ExtensionMetadata| metadata_view(m)) =~= pv.subrange(0, pending@.len() as int));
            let key = to_lowercase(m.manifest.name.as_str());
            let key_chars = chars_of(key.as_str());
            let ghost ov = out@.map_values(|m: ExtensionMetadata| metadata_view(m));
            assert(key_chars@ == listing_key(mv));
            assert(ov.subrange(0, ov.len() as int) =~= ov);
            // the position: before the first listing (from the back) not after the key
            let mut p: usize = out.len();
            while p > 0 && chars_compare(key_chars.as_slice(), keys[p - 1].as_slice()) == TextOrder::Less
                invariant
                    key_chars@ == listing_key(mv),
                    p <= out@.len(),
                    out@.len() == keys@.len(),
                    ov == out@.map_values(|m: ExtensionMetadata| metadata_view(m)),
                    forall|z: int| 0 <= z < keys@.len() ==> (#[trigger] keys@[z])@ == listing_key(metadata_view(out@[z])),
                    insert_position(ov, listing_key(mv)) == insert_position(ov.subrange(0, p as int), listing_key(mv)),
                decreases p,
            {
                let ghost sub = ov.subrange(0, p as int);
                assert(sub.drop_last() =~= ov.subrange(0, p - 1));
                assert(sub.last() == ov[p - 1]);
                assert(keys@[p - 1]@ == listing_key(ov[p - 1]));
                p = p - 1;
            }
            proof {
                let sub = ov.subrange(0, p as int);
                if p > 0 {
                    assert(keys@[p - 1]@ == listing_key(ov[p - 1]));
                    assert(sub.last() == ov[p - 1]);
                    assert(!seq_less(listing_key(mv), listing_key(sub.last())));
                }
                assert(insert_position(sub, listing_key(mv)) == p);
            }
            let ghost ok = keys@;
            let ghost oo = out@;
            out.insert(p, m);
            keys.insert(p, key_chars);
            proof {
                let sub_kv = kv.subrange(0, done + 1);
                assert(sub_kv.drop_last() =~= kv.subrange(0, done as int));
                assert(sub_kv.last() == mv);
                assert(out@.map_values(|m: ExtensionMetadata| metadata_view(m)) =~= ov.insert(p as int, mv));
                assert forall|z: int| 0 <= z < keys@.len() implies (#[trigger] keys@[z])@ == listing_key(metadata_view(out@[z])) by {
                    if z < p {
                        assert(keys@[z] == ok[z] && out@[z] == oo[z]);
                    } else if z == p {
                    } else {
                        assert(keys@[z] == ok[z - 1] && out@[z] == oo[z - 1]);
                    }
                }
            }
            done = done + 1;
        }
        assert(kv.subrange(0, kv.len() as int) =~= kv);
        out
    }
}

/// What `Path::join` makes of a base path and a further path: the further
/// path where it is absolute, else the two joined by a separator.
pub uninterp spec fn path_joined(base: Seq<char>, rest: Seq<char>) -> Seq<char>;

/// `Path::join`, as text.
#[verifier::external_body]
pub(crate) fn join_path(base: &str, rest: &str) -> (r: String)
    ensures
        r@ == path_joined(base@, rest@),
{
    std::path::Path::new(base).join(rest).to_string_lossy().into_owned()
}

/// The names of the themes, among `table`'s entries, that the extension
/// provides, in table order.
pub open spec fn names_provided_by(table: Seq<(Seq<char>, Seq<char>)>, extension_id: Seq<char>) -> Seq<Seq<char>>
    decreases table.len(),
{
    if table.len() == 0 {
        Seq::empty()
    } else {
        names_provided_by(table.drop_last(), extension_id) + if table.last().1 == extension_id {
            seq![table.last().0]
        } else {
            Seq::empty()
        }
    }
}

/// The theme table as names with providing extensions.
pub open spec fn theme_table(t: Seq<(String, crate::extension_index::ExtensionIndexThemeEntry)>) -> Seq<(Seq<char>, Seq<char>)> {
    t.map_values(|e: (String, crate::extension_index::ExtensionIndexThemeEntry)| (e.0@, e.1.extension@))
}

/// The icon-theme table as names with providing extensions.
pub open spec fn icon_theme_table(t: Seq<(String, crate::extension_index::ExtensionIndexIconThemeEntry)>) -> Seq<(Seq<char>, Seq<char>)> {
    t.map_values(|e: (String, crate::extension_index::ExtensionIndexIconThemeEntry)| (e.0@, e.1.extension@))
}

/// The names among the entries whose extension is the given one.
fn names_for(table: &Vec<(String, String)>, extension_id: &str) -> (r: Vec<String>)
    ensures
        strings_view(r@) == names_provided_by(table@.map_values(|e: (String, String)| (e.0@, e.1@)), extension_id@),
{
    let ghost tv = table@.map_values(|e: (String, String)| (e.0@, e.1@));
    let mut r: Vec<String> = Vec::new();
    let mut i: usize = 0;
    while i < table.len()
        invariant
            tv == table@.map_values(|e: (String, String)| (e.0@, e.1@)),
            i <= table@.len(),
            strings_view(r@) == names_provided_by(tv.subrange(0, i as int), extension_id@),
        decreases table@.len() - i,
    {
        assert(tv.subrange(0, i + 1).drop_last() =~= tv.subrange(0, i as int));
        let ghost before = strings_view(r@);
        if str_eq(table[i].1.as_str(), extension_id) {
            r.push(table[i].0.clone());
            assert(strings_view(r@) =~= before.push(table@[i as int].0@));
        }
        assert(strings_view(r@) =~= names_provided_by(tv.subrange(0, i + 1), extension_id@));
        i = i + 1;
    }
    assert(tv.subrange(0, tv.len() as int) =~= tv);
    r
}

/// The position of a key in a table.
fn position_of_key<V>(table: &Vec<(String, V)>, key: &str) -> (r: Option<usize>)
    ensures
        match r {
            Some(i) => i < table@.len() && table@[i as int].0@ == key@ && forall|j: int| 0 <= j < i ==> table@[j].0@ != key@,
            None => forall|j: int| 0 <= j < table@.len() ==> table@[j].0@ != key@,
        },
{
    let mut i: usize = 0;
    while i < table.len()
        invariant
            i <= table@.len(),
            forall|j: int| 0 <= j < i ==> table@[j].0@ != key@,
        decreases table@.len() - i,
    {
        if str_eq(table[i].0.as_str(), key) {
            return Some(i);
        }
        i = i + 1;
    }
    None
}

impl ExtensionStore {
    /// The manifests of the dev extensions, in index order.
    pub fn dev_extensions(&self) -> (r: Vec<&ExtensionManifest>)
        ensures
            r@.map_values(|m: &ExtensionManifest| m@) == dev_manifests(entry_views(self.extension_index.extensions@)),
    {
        let entries = &self.extension_index.extensions;
        let ghost ev = entry_views(entries@);
        let mut r: Vec<&ExtensionManifest> = Vec::new();
        let mut i: usize = 0;
        while i < entries.len()
            invariant
                ev == entry_views(entries@),
                i <= entries@.len(),
                r@.map_values(|m: &ExtensionManifest| m@) == dev_manifests(ev.subrange(0, i as int)),
            decreases entries@.len() - i,
        {
            assert(ev.subrange(0, i + 1).drop_last() =~= ev.subrange(0, i as int));
            let ghost before = r@.map_values(|m: &ExtensionManifest| m@);
            if entries[i].1.dev {
                r.push(&entries[i].1.manifest);
                assert(r@.map_values(|m: &ExtensionManifest| m@) =~= before.push(entries@[i as int].1.manifest@));
            }
            assert(r@.map_values(|m: &ExtensionManifest| m@) =~= dev_manifests(ev.subrange(0, i + 1)));
            i = i + 1;
        }
        assert(ev.subrange(0, ev.len() as int) =~= ev);
        r
    }

    /// The manifest of the installed extension with the id.
    pub fn extension_manifest_for_id(&self, extension_id: &str) -> (r: Option<&ExtensionManifest>)
        ensures
            match r {
                Some(m) => exists|i: int| 0 <= i < self.extension_index.extensions@.len()
                    && (#[trigger] self.extension_index.extensions@[i]).0@ == extension_id@
                    && self.extension_index.extensions@[i].1.manifest == *m,
                None => forall|i: int| 0 <= i < self.extension_index.extensions@.len()
                    ==> (#[trigger] self.extension_index.extensions@[i]).0@ != extension_id@,
            },
    {
        match position_of_key(&self.extension_index.extensions, extension_id) {
            Some(i) => Some(&self.extension_index.extensions[i].1.manifest),
            None => None,
        }
    }

    /// The names of the themes the extension provides, in index order.
    pub fn extension_themes(&self, extension_id: &str) -> (r: Vec<String>)
        ensures
            strings_view(r@) == names_provided_by(theme_table(self.extension_index.themes@), extension_id@),
    {
        let mut table: Vec<(String, String)> = Vec::new();
        let t = &self.extension_index.themes;
        let mut i: usize = 0;
        while i < t.len()
            invariant
                i <= t@.len(),
                table@.map_values(|e: (String, String)| (e.0@, e.1@)) == theme_table(t@).subrange(0, i as int),
            decreases t@.len() - i,
        {
            let ghost before = table@.map_values(|e: (String, String)| (e.0@, e.1@));
            table.push((t[i].0.clone(), t[i].1.extension.clone()));
            assert(table@.map_values(|e: (String, String)| (e.0@, e.1@)) =~= before.push((t@[i as int].0@, t@[i as int].1.extension@)));
            i = i + 1;
        }
        assert(theme_table(t@).subrange(0, t@.len() as int) =~= theme_table(t@));
        names_for(&table, extension_id)
    }

    /// The names of the icon themes the extension provides, in index order.
    pub fn extension_icon_themes(&self, extension_id: &str) -> (r: Vec<String>)
        ensures
            strings_view(r@) == names_provided_by(icon_theme_table(self.extension_index.icon_themes@), extension_id@),
    {
        let mut table: Vec<(String, String)> = Vec::new();
        let t = &self.extension_index.icon_themes;
        let mut i: usize = 0;
        while i < t.len()
            invariant
                i <= t@.len(),
                table@.map_values(|e: (String, String)| (e.0@, e.1@)) == icon_theme_table(t@).subrange(0, i as int),
            decreases t@.len() - i,
        {
            let ghost before = table@.map_values(|e: (String, String)| (e.0@, e.1@));
            table.push((t[i].0.clone(), t[i].1.extension.clone()));
            assert(table@.map_values(|e: (String, String)| (e.0@, e.1@)) =~= before.push((t@[i as int].0@, t@[i as int].1.extension@)));
            i = i + 1;
        }
        assert(icon_theme_table(t@).subrange(0, t@.len() as int) =~= icon_theme_table(t@));
        names_for(&table, extension_id)
    }

    /// The path of a theme's file: the providing extension's directory in
    /// the extensions directory, then the theme's path; `None` where no
    /// extension provides the theme.
    pub fn path_to_extension_theme(&self, extensions_dir: &str, theme_name: &str) -> (r: Option<String>)
        ensures
            match r {
                Some(p) => exists|i: int| 0 <= i < self.extension_index.themes@.len()
                    && (#[trigger] self.extension_index.themes@[i]).0@ == theme_name@
                    && p@ == path_joined(path_joined(extensions_dir@, self.extension_index.themes@[i].1.extension@), self.extension_index.themes@[i].1.path@),
                None => forall|i: int| 0 <= i < self.extension_index.themes@.len() ==> (#[trigger] self.extension_index.themes@[i]).0@ != theme_name@,
            },
    {
        let i = match position_of_key(&self.extension_index.themes, theme_name) {
            Some(i) => i,
            None => return None,
        };
        let entry = &self.extension_index.themes[i].1;
        let dir = join_path(extensions_dir, entry.extension.as_str());
        Some(join_path(dir.as_str(), entry.path.as_str()))
    }

    /// The paths of an icon theme's file and of its icons' root: the
    /// providing extension's directory, then the icon theme's path; and that
    /// directory itself.
    pub fn path_to_extension_icon_theme(&self, extensions_dir: &str, icon_theme_name: &str) -> (r: Option<(String, String)>)
        ensures
            match r {
                Some((p, root)) => exists|i: int| 0 <= i < self.extension_index.icon_themes@.len()
                    && (#[trigger] self.extension_index.icon_themes@[i]).0@ == icon_theme_name@
                    && root@ == path_joined(extensions_dir@, self.extension_index.icon_themes@[i].1.extension@)
                    && p@ == path_joined(root@, self.extension_index.icon_themes@[i].1.path@),
                None => forall|i: int| 0 <= i < self.extension_index.icon_themes@.len() ==> (#[trigger] self.extension_index.icon_themes@[i]).0@ != icon_theme_name@,
            },
    {
        let i = match position_of_key(&self.extension_index.icon_themes, icon_theme_name) {
            Some(i) => i,
            None => return None,
        };
        let entry = &self.extension_index.icon_themes[i].1;
        let root = join_path(extensions_dir, entry.extension.as_str());
        let path = join_path(root.as_str(), entry.path.as_str());
        Some((path, root))
    }
}

/// The manifests of the dev extensions among the entries, in order.
pub open spec fn dev_manifests(entries: Seq<(ExtensionManifestView, bool)>) -> Seq<ExtensionManifestView>
    decreases entries.len(),
{
    if entries.len() == 0 {
        Seq::empty()
    } else {
        dev_manifests(entries.drop_last()) + if entries.last().1 {
            seq![entries.last().0]
        } else {
            Seq::empty()
        }
    }
}

} // verus!
