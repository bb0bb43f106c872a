use vector_core::plugin_queries::{load_plugin_queries, query_slot};

fn s(x: &str) -> String {
    x.to_string()
}

#[test]
fn files_go_to_their_query() {
    let names = vec![s("highlights"), s("injections"), s("outline")];
    assert_eq!(query_slot("highlights.scm", &names), Some(0));
    assert_eq!(query_slot("injections-extra.scm", &names), Some(1));
    assert_eq!(query_slot("highlights.txt", &names), None);
    assert_eq!(query_slot("folds.scm", &names), None);
    let files = vec![
        (s("outline.scm"), s("(a)")),
        (s("highlights.scm"), s("(h1)")),
        (s("README.md"), s("ignored")),
        (s("highlights-more.scm"), s("(h2)")),
    ];
    let queries = load_plugin_queries(&files, &names);
    assert_eq!(queries, vec![Some(s("(h1)(h2)")), None, Some(s("(a)"))]);
    assert_eq!(load_plugin_queries(&vec![], &names), vec![None, None, None]);
}
