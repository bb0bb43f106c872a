use vector_core::lsp_command::{GetCodeLens, inlay_hint_kind_from_lsp, inlay_hint_kind_to_lsp, inlay_hint_layout, tooltip_markup_kind, InlayHintKind, InlayHintLayout};
use vector_core::lsp_command::{
    completion_edit, completions_from_lsp, hover_blocks, LspCompletionItem, params_or_default, parse_completion_text_edit, unresolved_links,
    AdapterServerCapabilities, CodeActionEntry, CodeActionOptions, CodeActionProviderCapability, CompletionTextEdit,
    GetCodeActions, GetDefinition, GetReferences, GotoDefinitionResponse, HoverBlockKind, HoverContents,
    InlayHintProvider, InlayHints, LspLocation, LspLocationLink, LspParamsOrResponse, MarkedString, MarkupKind,
    OnTypeFormatting, OnTypeFormattingOptions, PointRange, PointUtf16, ProviderCapability, ServerCapabilities,
};

fn s(x: &str) -> String {
    x.to_string()
}

fn caps() -> ServerCapabilities {
    ServerCapabilities {
        definition_provider: None,
        declaration_provider: None,
        type_definition_provider: None,
        references_provider: None,
        document_highlight_provider: None,
        document_symbol_provider: None,
        signature_help_provider: false,
        hover_provider: None,
        code_action_provider: None,
        code_lens_provider: None,
        inlay_hint_provider: None,
        document_on_type_formatting_provider: None,
        linked_editing_range_provider: None,
        rename_provider: None,
        execute_commands: None,
    }
}

fn adapter(c: ServerCapabilities, kinds: Option<Vec<String>>) -> AdapterServerCapabilities {
    AdapterServerCapabilities { server_capabilities: c, code_action_kinds: kinds }
}

fn p(row: u32, column: u32) -> PointUtf16 {
    PointUtf16 { row, column }
}

fn range(a: (u32, u32), b: (u32, u32)) -> PointRange {
    PointRange { start: p(a.0, a.1), end: p(b.0, b.1) }
}

#[test]
fn params_or_default_response() {
    assert!(matches!(params_or_default(true, 1, "none"), LspParamsOrResponse::Params(1)));
    assert!(matches!(params_or_default(false, 1, "none"), LspParamsOrResponse::Response("none")));
}

#[test]
fn capability_checks() {
    let mut c = caps();
    c.definition_provider = Some(ProviderCapability::Simple(false));
    c.references_provider = Some(ProviderCapability::Simple(false));
    let a = adapter(c, None);
    assert!(GetDefinition { position: p(0, 0) }.check_capabilities(&a));
    assert!(!GetReferences { position: p(0, 0) }.check_capabilities(&a));
    let mut c = caps();
    c.references_provider = Some(ProviderCapability::Options);
    assert!(GetReferences { position: p(0, 0) }.check_capabilities(&adapter(c, None)));
}

#[test]
fn inlay_hint_capabilities() {
    let mut c = caps();
    c.inlay_hint_provider = Some(InlayHintProvider::RegistrationOptions { resolve_provider: Some(true) });
    assert!(InlayHints::can_resolve_inlays(&c));
    assert!(!InlayHints.check_capabilities(&adapter(c, None)));
    let mut c = caps();
    c.inlay_hint_provider = Some(InlayHintProvider::Options { resolve_provider: None });
    assert!(!InlayHints::can_resolve_inlays(&c));
    assert!(InlayHints.check_capabilities(&adapter(c, None)));
}

#[test]
fn on_type_formatting_triggers() {
    let mut c = caps();
    c.document_on_type_formatting_provider =
        Some(OnTypeFormattingOptions { first_trigger_character: s("}"), more_trigger_character: Some(vec![s(";"), s("\n")]) });
    let a = adapter(c, None);
    assert!(OnTypeFormatting { position: p(0, 0), trigger: s(";") }.check_capabilities(&a));
    assert!(OnTypeFormatting { position: p(0, 0), trigger: s("}") }.check_capabilities(&a));
    assert!(!OnTypeFormatting { position: p(0, 0), trigger: s("x") }.check_capabilities(&a));
}

#[test]
fn code_action_kinds() {
    let mut c = caps();
    c.code_action_provider = Some(CodeActionProviderCapability::Options(CodeActionOptions {
        code_action_kinds: Some(vec![s("quickfix"), s("refactor")]),
        resolve_provider: Some(true),
    }));
    c.execute_commands = Some(vec![s("apply")]);
    let a = adapter(c, Some(vec![s("source")]));
    assert_eq!(GetCodeActions::supported_code_action_kinds(&a), Some(vec![s("quickfix"), s("refactor")]));
    assert!(GetCodeActions::can_resolve_actions(&a.server_capabilities));
    let asking = GetCodeActions { kinds: Some(vec![s("refactor"), s("source")]) };
    assert!(asking.check_capabilities(&a));
    assert_eq!(asking.only_kinds(&a), Some(vec![s("refactor")]));
    assert!(!GetCodeActions { kinds: Some(vec![s("source")]) }.check_capabilities(&a));
    let actions = vec![
        CodeActionEntry::Action { kind: Some(s("refactor")), command: None },
        CodeActionEntry::Action { kind: Some(s("quickfix")), command: None },
        CodeActionEntry::Command { command: s("apply"), kind: None },
        CodeActionEntry::Command { command: s("other"), kind: None },
        CodeActionEntry::Action { kind: None, command: Some(s("missing")) },
    ];
    assert_eq!(asking.kept_code_actions(&actions, &a.server_capabilities), vec![(0, false), (2, true)]);
    let mut off = caps();
    off.code_action_provider = Some(CodeActionProviderCapability::Simple(false));
    assert!(!GetCodeActions { kinds: None }.check_capabilities(&adapter(off, None)));
}

#[test]
fn completion_edits() {
    let r = range((0, 2), (0, 5));
    let e = CompletionTextEdit::Edit { range: r, new_text: s("foo") };
    let parsed = parse_completion_text_edit(&e, r, r).unwrap();
    assert_eq!(parsed.replace_range, r);
    assert_eq!(parsed.new_text, "foo");
    assert!(parse_completion_text_edit(&e, range((0, 2), (0, 4)), r).is_none());
    let ir = CompletionTextEdit::InsertAndReplace { insert: range((0, 2), (0, 3)), replace: r, new_text: s("x") };
    let parsed = parse_completion_text_edit(&ir, r, range((0, 2), (0, 3))).unwrap();
    assert_eq!(parsed.insert_range, Some(range((0, 2), (0, 3))));
    assert!(parse_completion_text_edit(&ir, r, r).is_none());

    let token = range((1, 0), (1, 3));
    let inferred = completion_edit(None, r, r, p(1, 3), p(1, 3), token, None, "label").unwrap();
    assert_eq!(inferred.replace_range, token);
    assert_eq!(inferred.new_text, "label");
    let inferred = completion_edit(None, r, r, p(1, 3), p(1, 3), token, Some("insert"), "label").unwrap();
    assert_eq!(inferred.new_text, "insert");
    assert!(completion_edit(None, r, r, p(1, 9), p(1, 3), token, None, "label").is_none());
    assert_eq!(completion_edit(Some(&e), r, r, p(9, 9), p(0, 0), token, None, "l").unwrap().new_text, "foo");
}

#[test]
fn hover_contents_to_blocks() {
    let blocks = hover_blocks(&HoverContents::Array(vec![
        MarkedString::Text(s("docs")),
        MarkedString::Text(s("")),
        MarkedString::LanguageString { language: s("rust"), value: s("fn f()") },
        MarkedString::LanguageString { language: s("rust"), value: s("") },
    ]));
    assert_eq!(blocks.len(), 2);
    assert_eq!(blocks[0].text, "docs");
    assert!(matches!(blocks[0].kind, HoverBlockKind::Markdown));
    assert!(matches!(&blocks[1].kind, HoverBlockKind::Code { language } if language == "rust"));
    assert!(hover_blocks(&HoverContents::Scalar(MarkedString::Text(s("")))).is_empty());
    let markup = hover_blocks(&HoverContents::Markup { kind: MarkupKind::PlainText, value: s("") });
    assert_eq!(markup.len(), 1);
    assert!(matches!(markup[0].kind, HoverBlockKind::PlainText));
    let md = hover_blocks(&HoverContents::Markup { kind: MarkupKind::Markdown, value: s("*x*") });
    assert!(matches!(md[0].kind, HoverBlockKind::Markdown));
}

#[test]
fn definition_links() {
    assert!(unresolved_links(&None).is_empty());
    let r = range((1, 0), (1, 4));
    let links = unresolved_links(&Some(GotoDefinitionResponse::Scalar(LspLocation { uri: s("file:///a.rs"), range: r })));
    assert_eq!(links, vec![(None, s("file:///a.rs"), r)]);
    let o = range((0, 0), (0, 1));
    let links = unresolved_links(&Some(GotoDefinitionResponse::Link(vec![LspLocationLink {
        origin_selection_range: Some(o),
        target_uri: s("file:///b.rs"),
        target_selection_range: r,
    }])));
    assert_eq!(links, vec![(Some(o), s("file:///b.rs"), r)]);
    let links = unresolved_links(&Some(GotoDefinitionResponse::Array(vec![
        LspLocation { uri: s("u1"), range: r },
        LspLocation { uri: s("u2"), range: o },
    ])));
    assert_eq!(links.len(), 2);
    assert_eq!(links[1].1, "u2");
}

#[test]
fn inlay_hint_conversions() {
    assert_eq!(inlay_hint_kind_from_lsp(Some(1)), Some(InlayHintKind::Type));
    assert_eq!(inlay_hint_kind_from_lsp(Some(2)), Some(InlayHintKind::Parameter));
    assert_eq!(inlay_hint_kind_from_lsp(Some(3)), None);
    assert_eq!(inlay_hint_kind_from_lsp(None), None);
    for k in [None, Some(InlayHintKind::Type), Some(InlayHintKind::Parameter)] {
        assert_eq!(inlay_hint_kind_from_lsp(inlay_hint_kind_to_lsp(k)), k);
    }
    assert_eq!(
        inlay_hint_layout(Some(InlayHintKind::Type), Some(true), None, true),
        InlayHintLayout { anchor_before: false, padding_left: false, padding_right: false }
    );
    assert_eq!(
        inlay_hint_layout(Some(InlayHintKind::Parameter), Some(true), Some(true), true),
        InlayHintLayout { anchor_before: true, padding_left: true, padding_right: true }
    );
    assert_eq!(
        inlay_hint_layout(None, None, Some(false), false),
        InlayHintLayout { anchor_before: false, padding_left: false, padding_right: false }
    );
    assert_eq!(tooltip_markup_kind(&HoverBlockKind::Markdown), Some(MarkupKind::Markdown));
    assert_eq!(tooltip_markup_kind(&HoverBlockKind::Code { language: s("rust") }), None);
}

#[test]
fn code_lenses_need_known_commands() {
    let mut c = caps();
    c.execute_commands = Some(vec![s("run")]);
    let kept = GetCodeLens::kept_code_lenses(&vec![Some(s("run")), None, Some(s("debug"))], &c);
    assert_eq!(kept, vec![0, 1]);
    assert_eq!(GetCodeLens::kept_code_lenses(&vec![Some(s("run"))], &caps()), Vec::<usize>::new());
}

#[test]
fn completion_list_keeps_order_and_valid_items() {
    let r = range((0, 2), (0, 5));
    let bad = range((0, 2), (0, 4));
    let token = range((1, 0), (1, 3));
    let item = |label: &str, insert: Option<&str>, edit: Option<CompletionTextEdit>, clipped: PointRange| LspCompletionItem {
        label: s(label),
        insert_text: insert.map(s),
        text_edit: edit,
        clipped_replace: clipped,
        clipped_insert: clipped,
    };
    let items = vec![
        item("a", None, Some(CompletionTextEdit::Edit { range: r, new_text: s("x\r\ny\rz") }), r),
        item("b", None, Some(CompletionTextEdit::Edit { range: r, new_text: s("dropped") }), bad),
        item("c", Some("ins"), None, r),
    ];
    let out = completions_from_lsp(&items, p(1, 3), p(1, 3), token);
    assert_eq!(out.len(), 2);
    assert_eq!(out[0].item, 0);
    assert_eq!(out[0].new_text, "x\ny\nz");
    assert_eq!(out[0].replace_range, r);
    assert_eq!(out[1].item, 2);
    assert_eq!(out[1].new_text, "ins");
    assert_eq!(out[1].replace_range, token);
    assert!(out.iter().all(|c| !c.resolved && !c.new_text.contains('\r')));
    let off = completions_from_lsp(&items, p(1, 9), p(1, 3), token);
    assert_eq!(off.len(), 1);
    assert_eq!(off[0].item, 0);
}
