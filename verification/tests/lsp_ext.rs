use std::collections::HashMap;
use vector_core::lsp_ext::{
    CargoRunnableArgs, DocsUrls, ExpandedMacro, LspExtCancelFlycheck, LspExtClearFlycheck, LspExtExpandMacro,
    LspExtRunFlycheck, LspGoToParentModule, LspOpenDocs, LspSwitchSourceHeader, Runnable, RunnableArgs, RunnableKind,
    Runnables, ShellRunnableArgs, SwitchSourceHeaderResult, task_template_for_runnable,
};

fn strings(v: &[&str]) -> Vec<String> {
    v.iter().map(|s| s.to_string()).collect()
}

#[test]
fn method_names() {
    assert_eq!(LspExtExpandMacro::method(), "rust-analyzer/expandMacro");
    assert_eq!(LspOpenDocs::method(), "experimental/externalDocs");
    assert_eq!(LspSwitchSourceHeader::method(), "textDocument/switchSourceHeader");
    assert_eq!(LspGoToParentModule::method(), "experimental/parentModule");
    assert_eq!(Runnables::method(), "experimental/runnables");
    assert_eq!(LspExtCancelFlycheck::method(), "rust-analyzer/cancelFlycheck");
    assert_eq!(LspExtRunFlycheck::method(), "rust-analyzer/runFlycheck");
    assert_eq!(LspExtClearFlycheck::method(), "rust-analyzer/clearFlycheck");
}

#[test]
fn empty_responses() {
    assert!(ExpandedMacro::from_response(None).is_empty());
    let m = ExpandedMacro::from_response(Some(ExpandedMacro { name: "m".to_string(), expansion: "x".to_string() }));
    assert!(!m.is_empty());
    assert_eq!(m.expansion, "x");
    assert!(!ExpandedMacro { name: String::new(), expansion: "x".to_string() }.is_empty());
    assert!(DocsUrls::from_response(None).is_empty());
    assert!(!DocsUrls { web: Some("https://docs.rs".to_string()), local: None }.is_empty());
    assert_eq!(SwitchSourceHeaderResult::from_response(None).0, "");
    assert_eq!(SwitchSourceHeaderResult::from_response(Some(SwitchSourceHeaderResult("a.h".to_string()))).0, "a.h");
}

#[test]
fn cargo_runnable_task() {
    let mut env = HashMap::new();
    env.insert("RUST_LOG".to_string(), "info".to_string());
    let t = task_template_for_runnable(Runnable {
        label: "test X".to_string(),
        kind: RunnableKind::Cargo,
        args: RunnableArgs::Cargo(CargoRunnableArgs {
            environment: env,
            cwd: "/w/crate".to_string(),
            override_cargo: None,
            workspace_root: Some("/w".to_string()),
            cargo_args: strings(&["test", "--doc"]),
            executable_args: strings(&["X<T>::new", "--show-output"]),
        }),
    });
    assert_eq!(t.label, "test X");
    assert_eq!(t.command, "cargo");
    assert_eq!(t.args, strings(&["test", "--doc", "--", "'X<T>::new'", "--show-output"]));
    assert_eq!(t.cwd.as_deref(), Some("/w"));
    assert_eq!(t.env.get("RUST_LOG").map(|s| s.as_str()), Some("info"));
}

#[test]
fn cargo_override_splits_on_spaces() {
    let t = task_template_for_runnable(Runnable {
        label: "run".to_string(),
        kind: RunnableKind::Cargo,
        args: RunnableArgs::Cargo(CargoRunnableArgs {
            environment: HashMap::new(),
            cwd: "/w/crate".to_string(),
            override_cargo: Some("cross +nightly".to_string()),
            workspace_root: None,
            cargo_args: strings(&["run"]),
            executable_args: vec![],
        }),
    });
    assert_eq!(t.command, "cross");
    assert_eq!(t.args, strings(&["+nightly", "run"]));
    assert_eq!(t.cwd.as_deref(), Some("/w/crate"));
}

#[test]
fn shell_runnable_task() {
    let t = task_template_for_runnable(Runnable {
        label: "sh".to_string(),
        kind: RunnableKind::Shell,
        args: RunnableArgs::Shell(ShellRunnableArgs {
            environment: HashMap::new(),
            cwd: "/tmp".to_string(),
            program: "make".to_string(),
            args: strings(&["all"]),
        }),
    });
    assert_eq!(t.command, "make");
    assert_eq!(t.args, strings(&["all"]));
    assert_eq!(t.cwd.as_deref(), Some("/tmp"));
}
