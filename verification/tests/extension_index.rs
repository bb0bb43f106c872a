use vector_core::extension_index::{extension_dirs, index_needs_rebuild, ReloadDebouncer};
use vector_core::extension_index::dev_extension_link_action;
use vector_core::extension_catalog::{
    extension_metadata_from_manifest, is_version_compatible, schema_version_range, ExtensionProvides,
    CURRENT_SCHEMA_VERSION,
};
use vector_core::extension_index::{
    count_reloads, index_changes, ExtensionIndex, ExtensionIndexEntry, ExtensionIndexThemeEntry,
    ExtensionLibraryKind, ExtensionManifest, ExtensionOperation, ExtensionStore,
};
use vector_core::extension_scan::{add_extension_to_index, ScannedLanguage, ScannedThemeFile};
use vector_core::sorted_table::{table_get, table_insert};

fn s(x: &str) -> String {
    x.to_string()
}

fn manifest(id: &str, version: &str) -> ExtensionManifest {
    ExtensionManifest {
        id: s(id),
        name: id.to_uppercase(),
        version: s(version),
        description: None,
        repository: None,
        authors: vec![],
        schema_version: 1,
        lib_kind: None,
        lib_version: None,
        themes: vec![],
        icon_themes: vec![],
        languages: vec![],
        grammars: vec![],
        language_servers: vec![],
        context_servers: vec![],
        slash_commands: vec![],
        agent_servers: vec![],
        snippets: None,
        debug_adapters: vec![],
        debug_locators: vec![],
    }
}

fn index_with(entries: &[(&str, &str, bool)]) -> ExtensionIndex {
    let mut index = ExtensionIndex::new();
    for (id, version, dev) in entries {
        table_insert(&mut index.extensions, s(id), ExtensionIndexEntry { manifest: manifest(id, version), dev: *dev });
    }
    index
}

fn keys<V>(t: &Vec<(String, V)>) -> Vec<String> {
    t.iter().map(|(k, _)| k.clone()).collect()
}

#[test]
fn sorted_table_reads_back_writes() {
    let mut t: Vec<(String, u32)> = Vec::new();
    table_insert(&mut t, s("b"), 1);
    table_insert(&mut t, s("a"), 2);
    table_insert(&mut t, s("c"), 3);
    table_insert(&mut t, s("b"), 4);
    assert_eq!(keys(&t), vec![s("a"), s("b"), s("c")]);
    assert_eq!(table_get(&t, "b"), Some(&4));
    assert_eq!(table_get(&t, "a"), Some(&2));
    assert_eq!(table_get(&t, "d"), None);
}

#[test]
fn index_changes_between_indexes() {
    let old = index_with(&[("a", "1", false), ("b", "1", false), ("c", "1", false)]);
    let new = index_with(&[("b", "2", false), ("c", "1", false), ("d", "1", false)]);
    let (unload, load) = index_changes(&old, &new, &vec![]);
    assert_eq!(unload, vec![s("a"), s("b")]);
    assert_eq!(load, vec![s("b"), s("d")]);
    assert_eq!(count_reloads(&unload, &load), 1);
    let (unload, load) = index_changes(&old, &old, &vec![s("c")]);
    assert_eq!(unload, vec![s("c")]);
    assert_eq!(load, vec![s("c")]);
    let (unload, load) = index_changes(&old, &old, &vec![]);
    assert!(unload.is_empty() && load.is_empty());
}

#[test]
fn store_applies_new_index() {
    let mut store = ExtensionStore::new(index_with(&[("a", "1", false)]));
    store.mark_modified(s("a"));
    let plan = store.extensions_updated(index_with(&[("a", "1", false), ("b", "1", false)]));
    assert_eq!(plan.extensions_to_unload, vec![s("a")]);
    assert_eq!(plan.extensions_to_load, vec![s("a"), s("b")]);
    assert_eq!(plan.reload_count, 1);
    assert!(store.modified_extensions.is_empty());
    assert_eq!(keys(&store.extension_index.extensions), vec![s("a"), s("b")]);
    let plan = store.extensions_updated(index_with(&[("a", "1", false), ("b", "1", false)]));
    assert!(plan.extensions_to_unload.is_empty() && plan.extensions_to_load.is_empty());
}

#[test]
fn one_operation_per_extension() {
    let mut store = ExtensionStore::new(ExtensionIndex::new());
    assert!(store.begin_operation(&s("a"), ExtensionOperation::Install));
    assert!(!store.begin_operation(&s("a"), ExtensionOperation::Remove));
    assert_eq!(store.operation_for("a"), Some(ExtensionOperation::Install));
    store.finish_operation("a");
    assert_eq!(store.operation_for("a"), None);
    assert!(store.begin_operation(&s("a"), ExtensionOperation::Upgrade));
}

#[test]
fn scanned_extension_enters_index() {
    let mut index = ExtensionIndex::new();
    table_insert(&mut index.themes, s("Old"), ExtensionIndexThemeEntry { extension: s("x"), path: s("themes/o.json") });
    let mut m = manifest("gleam-ext", "0.1.0");
    m.languages = vec![s("languages/gleam")];
    let languages = vec![ScannedLanguage { path: s("languages/gleam"), name: s("Gleam"), hidden: false, grammar: Some(s("gleam")) }];
    let themes = vec![ScannedThemeFile { path: s("themes/g.json"), names: vec![s("Gleam Dark"), s("Gleam Light")] }];
    let icon_themes = vec![ScannedThemeFile { path: s("icon_themes/i.json"), names: vec![s("Icons")] }];
    add_extension_to_index(&mut index, m, true, &languages, &themes, &icon_themes, true);
    assert_eq!(keys(&index.languages), vec![s("Gleam")]);
    let lang = &table_get(&index.languages, "Gleam").unwrap();
    assert_eq!(lang.extension, "gleam-ext");
    assert_eq!(lang.grammar.as_deref(), Some("gleam"));
    assert_eq!(keys(&index.themes), vec![s("Gleam Dark"), s("Gleam Light"), s("Old")]);
    assert_eq!(table_get(&index.themes, "Gleam Light").unwrap().path, "themes/g.json");
    assert_eq!(keys(&index.icon_themes), vec![s("Icons")]);
    let entry = table_get(&index.extensions, "gleam-ext").unwrap();
    assert!(entry.dev);
    assert_eq!(entry.manifest.languages, vec![s("languages/gleam")]);
    assert_eq!(entry.manifest.themes, vec![s("themes/g.json")]);
    assert_eq!(entry.manifest.icon_themes, vec![s("icon_themes/i.json")]);
    assert_eq!(entry.manifest.lib_kind, Some(ExtensionLibraryKind::Rust));
}

#[test]
fn later_language_of_same_name_wins() {
    let mut index = ExtensionIndex::new();
    let languages = vec![
        ScannedLanguage { path: s("languages/a"), name: s("L"), hidden: false, grammar: None },
        ScannedLanguage { path: s("languages/b"), name: s("L"), hidden: true, grammar: None },
    ];
    add_extension_to_index(&mut index, manifest("e", "1"), false, &languages, &vec![], &vec![], false);
    let lang = table_get(&index.languages, "L").unwrap();
    assert_eq!(lang.path, "languages/b");
    assert!(lang.hidden);
    let entry = table_get(&index.extensions, "e").unwrap();
    assert_eq!(entry.manifest.languages, vec![s("languages/a"), s("languages/b")]);
    assert_eq!(entry.manifest.lib_kind, None);
}

#[test]
fn version_compatibility() {
    let (lo, hi) = schema_version_range();
    assert_eq!((lo.0, hi.0), (0, CURRENT_SCHEMA_VERSION));
    assert!(is_version_compatible(None, None, false));
    assert!(is_version_compatible(Some(1), Some("0.5.0"), true));
    assert!(!is_version_compatible(Some(1), Some("0.5.0"), false));
    assert!(is_version_compatible(Some(1), Some("not-semver"), false));
    assert!(!is_version_compatible(Some(2), None, true));
}

#[test]
fn listing_of_manifest() {
    let mut m = manifest("toml", "0.2.0");
    m.themes = vec![s("themes/t.json")];
    m.languages = vec![s("languages/toml")];
    m.snippets = Some(s("snippets.json"));
    let listing = extension_metadata_from_manifest(&m);
    assert_eq!(listing.id, "toml");
    assert_eq!(listing.manifest.version, "0.2.0");
    assert_eq!(listing.download_count, 0);
    assert!(listing.manifest.provides.contains(&ExtensionProvides::Themes));
    assert!(listing.manifest.provides.contains(&ExtensionProvides::Languages));
    assert!(listing.manifest.provides.contains(&ExtensionProvides::Snippets));
    assert!(!listing.manifest.provides.contains(&ExtensionProvides::Grammars));
}

#[test]
fn installed_listings_sorted_and_filtered() {
    let mut index = ExtensionIndex::new();
    for (id, name) in [("z", "alpha"), ("y", "Gamma"), ("x", "beta")] {
        let mut m = manifest(id, "1");
        m.name = s(name);
        table_insert(&mut index.extensions, s(id), ExtensionIndexEntry { manifest: m, dev: false });
    }
    let mut dev = manifest("w", "1");
    dev.name = s("aaa");
    table_insert(&mut index.extensions, s("w"), ExtensionIndexEntry { manifest: dev, dev: true });
    let store = ExtensionStore::new(index);
    let names: Vec<String> = store.fetch_extensions(None, None).into_iter().map(|l| l.manifest.name).collect();
    assert_eq!(names, vec![s("alpha"), s("beta"), s("Gamma")]);
    let found: Vec<String> = store.fetch_extensions(Some("  GAM "), None).into_iter().map(|l| l.id).collect();
    assert_eq!(found, vec![s("y")]);
    assert!(store.fetch_extensions(None, Some(&vec![ExtensionProvides::Themes])).is_empty());
    assert_eq!(store.dev_extensions().len(), 1);
    assert_eq!(store.extension_manifest_for_id("x").unwrap().name, "beta");
    assert!(store.extension_manifest_for_id("q").is_none());
}

#[test]
fn theme_paths() {
    let mut index = ExtensionIndex::new();
    table_insert(&mut index.themes, s("One Dark"), ExtensionIndexThemeEntry { extension: s("one"), path: s("themes/one.json") });
    let store = ExtensionStore::new(index);
    assert_eq!(store.path_to_extension_theme("/ext", "One Dark"), Some(s("/ext/one/themes/one.json")));
    assert_eq!(store.path_to_extension_theme("/ext", "Missing"), None);
    assert_eq!(store.extension_themes("one"), vec![s("One Dark")]);
    assert!(store.extension_icon_themes("one").is_empty());
}

#[test]
fn index_tables_checked_for_order() {
    let mut index = index_with(&[("a", "1", false), ("b", "1", false)]);
    assert!(index.is_well_formed());
    assert!(vector_core::sorted_table::table_sorted(&index.extensions));
    index.extensions.swap(0, 1);
    assert!(!index.is_well_formed());
    let dup: Vec<(String, u8)> = vec![(s("k"), 1), (s("k"), 2)];
    assert!(!vector_core::sorted_table::table_sorted(&dup));
}

#[test]
fn index_rebuild_decisions() {
    assert!(!index_needs_rebuild(true, Some(20), Some(10)));
    assert!(index_needs_rebuild(true, Some(10), Some(10)));
    assert!(index_needs_rebuild(true, None, Some(10)));
    assert!(index_needs_rebuild(false, Some(20), Some(10)));

    let mut store = ExtensionStore::new(ExtensionIndex::new());
    let mut debouncer = ReloadDebouncer::new();
    assert!(!debouncer.timer_fired());
    store.reload_requested(&mut debouncer, Some(s("a")));
    store.reload_requested(&mut debouncer, None);
    assert_eq!(store.modified_extensions, vec![s("a")]);
    assert!(debouncer.timer_fired());
    assert!(!debouncer.timer_fired());
}

#[test]
fn uninstall_and_dev_operations() {
    let mut store = ExtensionStore::new(ExtensionIndex::new());
    assert!(store.uninstall_extension(&s("a")));
    assert_eq!(store.operation_for("a"), Some(ExtensionOperation::Remove));
    assert!(!store.rebuild_dev_extension(&s("a")));
    assert!(store.rebuild_dev_extension(&s("b")));
    assert_eq!(store.operation_for("b"), Some(ExtensionOperation::Upgrade));
    assert!(store.install_dev_extension(&s("c")));
    assert_eq!(store.operation_for("c"), Some(ExtensionOperation::Remove));
    assert!(!store.install_dev_extension(&s("c")));
    assert_eq!(dev_extension_link_action(None, "x"), Ok(false));
    assert_eq!(dev_extension_link_action(Some(true), "x"), Ok(true));
    assert_eq!(dev_extension_link_action(Some(false), "x"), Err(s("extension x is already installed")));
}

#[test]
fn store_directories() {
    let dirs = extension_dirs("/data/extensions", None);
    assert_eq!(dirs.installed_dir, "/data/extensions/installed");
    assert_eq!(dirs.work_dir, "/data/extensions/work");
    assert_eq!(dirs.index_path, "/data/extensions/index.json");
    assert_eq!(dirs.build_dir, "/data/extensions/build");
    let dirs = extension_dirs("/data/extensions", Some("/tmp/build".to_string()));
    assert_eq!(dirs.build_dir, "/tmp/build");
    assert_eq!(dirs.installed_dir, "/data/extensions/installed");
}
