use vector_core::debugger::SteppingGranularity;
use vector_core::debugger::{debug_session_label, DebugPanelDockPosition, DebuggerSettings, SteppingGranularitySetting};
use vector_core::edit_prediction::{
    assign_edit_prediction_provider, registers_for_predictions, EditPredictionProvider, ProviderAssignment,
    ProviderTracker,
};
use vector_core::task_store::{combine_task_variables, normalized_tasks_json, worktree_root, TaskStore, TaskVariables};
use vector_core::terminals::{
    toolchain_lookup_paths, clone_opens_new_shell, command_line, task_env, task_working_directory, task_working_directory_at_home, terminal_shell_for_task, TerminalShell, Terminals,
};
use vector_core::toolchain_store::{Toolchain, ToolchainStore, ToolchainStoreEvent};

fn s(x: &str) -> String {
    x.to_string()
}

#[test]
fn task_directory() {
    assert_eq!(task_working_directory(Some("/srv/app"), Some(s("/w"))), Some(s("/srv/app")));
    assert_eq!(task_working_directory(None, Some(s("/w"))), Some(s("/w")));
    assert_eq!(task_working_directory(None, None), None);
    let home_relative = task_working_directory(Some("~/proj"), None).unwrap();
    assert!(home_relative.ends_with("/proj"));
}

#[test]
fn shell_command_lines() {
    assert_eq!(
        command_line("bash", Some(Some(s("cargo"))), vec![Some(s("test")), None, Some(s("'a b'"))]),
        "cargo test 'a b'"
    );
    assert_eq!(command_line("zsh", Some(None), vec![Some(s("x"))]), "x");
    assert_eq!(command_line("zsh", None, vec![]), "exec zsh -l");
}

#[test]
fn task_shells() {
    match terminal_shell_for_task(s("bash"), Some(s("cargo")), vec![s("run")], vec![s("source a"), s("source b")], ";", false, s("cargo run")) {
        TerminalShell::ShellRunning { program, command_line } => {
            assert_eq!(program, "bash");
            assert_eq!(command_line, "source a; source b; cargo run");
        },
        other => panic!("unexpected {:?}", other),
    }
    match terminal_shell_for_task(s("cmd"), Some(s("x")), vec![], vec![s("act")], "&&", true, s("x")) {
        TerminalShell::ShellRunning { command_line, .. } => assert_eq!(command_line, "\"act&& x\""),
        other => panic!("unexpected {:?}", other),
    }
    match terminal_shell_for_task(s("bash"), Some(s("make")), vec![s("all")], vec![], ";", false, s("make all")) {
        TerminalShell::WithArguments { program, args } => {
            assert_eq!(program, "make");
            assert_eq!(args, vec![s("all")]);
        },
        other => panic!("unexpected {:?}", other),
    }
    assert!(matches!(terminal_shell_for_task(s("bash"), None, vec![], vec![], ";", false, s("")), TerminalShell::System));
}

#[test]
fn terminal_handles() {
    let mut t = Terminals::new();
    t.add(3);
    t.add(5);
    t.add(3);
    assert!(t.release(3));
    assert_eq!(t.local_handles, vec![5, 3]);
    assert!(!t.release(9));
    assert!(clone_opens_new_shell(true));
    assert!(!clone_opens_new_shell(false));
}

fn vars(entries: &[(&str, &str)]) -> TaskVariables {
    let mut v = TaskVariables::new();
    for (k, val) in entries {
        v.insert(s(k), s(val));
    }
    v
}

#[test]
fn task_variables_later_wins() {
    let mut v = vars(&[("A", "1"), ("B", "2")]);
    v.insert(s("A"), s("3"));
    assert_eq!(v.get("A"), Some(s("3")));
    assert_eq!(v.entries.len(), 2);
    v.extend(vars(&[("B", "4"), ("C", "5")]));
    assert_eq!(v.get("B"), Some(s("4")));
    assert_eq!(v.get("C"), Some(s("5")));
    assert_eq!(v.get("D"), None);
}

#[test]
fn task_variables_combined_in_order() {
    let combined = combine_task_variables(
        vars(&[("X", "captured"), ("Y", "captured")]),
        vars(&[("Y", "baseline"), ("Z", "baseline")]),
        Some(vars(&[("Z", "language")])),
    );
    assert_eq!(combined.get("X"), Some(s("captured")));
    assert_eq!(combined.get("Y"), Some(s("baseline")));
    assert_eq!(combined.get("Z"), Some(s("language")));
    let without_language = combine_task_variables(vars(&[("X", "c")]), vars(&[]), None);
    assert_eq!(without_language.get("X"), Some(s("c")));
}

#[test]
fn task_files() {
    assert_eq!(normalized_tasks_json(Some("  [] \n")), Some(s("[]")));
    assert_eq!(normalized_tasks_json(Some("   ")), None);
    assert_eq!(normalized_tasks_json(None), None);
    assert_eq!(TaskStore::Noop.update_user_tasks(Some("[]")), None);
    assert_eq!(TaskStore::Functional.update_user_tasks(Some(" [] ")), Some(Some(s("[]"))));
    assert_eq!(TaskStore::Functional.update_user_debug_scenarios(None), Some(None));
    assert_eq!(worktree_root(Some(s("/a")), Some(s("/b"))), Some(s("/a")));
    assert_eq!(worktree_root(None, Some(s("/b"))), Some(s("/b")));
    assert_eq!(worktree_root(None, None), None);
}

#[test]
fn debugger_defaults() {
    let d = DebuggerSettings::default();
    assert_eq!(d.stepping_granularity, SteppingGranularitySetting::Line);
    assert!(d.save_breakpoints);
    assert!(d.button);
    assert_eq!(d.timeout, 2000);
    assert!(d.log_dap_communications);
    assert!(d.format_dap_log_messages);
    assert_eq!(d.dock, DebugPanelDockPosition::Bottom);
    assert_eq!(DebuggerSettings::key(), "debugger");
    assert_eq!(SteppingGranularitySetting::default(), SteppingGranularitySetting::Line);
}

#[test]
fn session_labels() {
    let one = vec![s("main")];
    let two = vec![s("a"), s("b")];
    assert_eq!(debug_session_label(false, Some(s("Run")), &one), Some(s("Run")));
    assert_eq!(debug_session_label(true, Some(s("Run")), &one), Some(s("main")));
    assert_eq!(debug_session_label(true, Some(s("Run")), &two), Some(s("Run")));
    assert_eq!(debug_session_label(false, None, &one), Some(s("main")));
    assert_eq!(debug_session_label(false, None, &two), None);
}

fn tc(name: &str, lang: &str) -> Toolchain {
    Toolchain { name: s(name), path: format!("/envs/{name}"), language_name: s(lang) }
}

fn path(p: &[&str]) -> Vec<String> {
    p.iter().map(|x| s(x)).collect()
}

#[test]
fn toolchains_apply_to_nearest_ancestor() {
    let mut store = ToolchainStore::new();
    assert_eq!(store.activate_toolchain(1, path(&[]), tc("root", "Python")), ToolchainStoreEvent::ToolchainActivated);
    store.activate_toolchain(1, path(&["svc"]), tc("svc", "Python"));
    assert_eq!(store.active_toolchain(1, &path(&["svc", "api"]), "Python").unwrap().name, "svc");
    assert_eq!(store.active_toolchain(1, &path(&["web"]), "Python").unwrap().name, "root");
    assert!(store.active_toolchain(1, &path(&["svc"]), "Rust").is_none());
    assert!(store.active_toolchain(2, &path(&["svc"]), "Python").is_none());
    store.activate_toolchain(1, path(&["svc"]), tc("svc2", "Python"));
    assert_eq!(store.active_toolchain(1, &path(&["svc"]), "Python").unwrap().name, "svc2");
    assert_eq!(store.active_toolchains.len(), 2);
}

#[test]
fn edit_prediction_assignment() {
    assert_eq!(assign_edit_prediction_provider(EditPredictionProvider::NoProvider, true, true, true), ProviderAssignment::Clear);
    assert_eq!(
        assign_edit_prediction_provider(EditPredictionProvider::Copilot, true, false, true),
        ProviderAssignment::Copilot { register_buffer: true }
    );
    assert_eq!(assign_edit_prediction_provider(EditPredictionProvider::Copilot, false, true, true), ProviderAssignment::Unchanged);
    assert_eq!(assign_edit_prediction_provider(EditPredictionProvider::Supermaven, false, true, false), ProviderAssignment::Supermaven);
    let mut t = ProviderTracker::new(EditPredictionProvider::Copilot);
    assert!(!t.settings_changed(EditPredictionProvider::Copilot));
    assert!(t.settings_changed(EditPredictionProvider::Supermaven));
    assert_eq!(t.provider, EditPredictionProvider::Supermaven);
    assert!(registers_for_predictions(true, true));
    assert!(!registers_for_predictions(true, false));
    assert!(!registers_for_predictions(false, true));
}

#[test]
fn granularity_to_protocol() {
    assert_eq!(SteppingGranularitySetting::Statement.to_dap(), SteppingGranularity::Statement);
    assert_eq!(SteppingGranularitySetting::Line.to_dap(), SteppingGranularity::Line);
    assert_eq!(SteppingGranularitySetting::Instruction.to_dap(), SteppingGranularity::Instruction);
}

#[test]
fn toolchain_lookup_order() {
    assert!(toolchain_lookup_paths(false, Some((1, vec![s("a")])), &vec![1, 2]).is_empty());
    assert_eq!(
        toolchain_lookup_paths(true, Some((1, vec![s("a"), s("b")])), &vec![1, 2]),
        vec![(1, vec![s("a"), s("b")]), (1, vec![]), (2, vec![])]
    );
    assert_eq!(toolchain_lookup_paths(true, None, &vec![3]), vec![(3, vec![])]);
}

fn env(entries: &[(&str, &str)]) -> Vec<(String, String)> {
    entries.iter().map(|(k, v)| (s(k), s(v))).collect()
}

fn lookup(e: &[(String, String)], k: &str) -> Option<String> {
    e.iter().find(|(n, _)| n == k).map(|(_, v)| v.clone())
}

#[test]
fn task_env_later_writer_wins() {
    let merged = task_env(
        env(&[("PATH", "/bin"), ("A", "dir"), ("B", "dir")]),
        env(&[("A", "settings"), ("C", "settings"), ("C", "settings2")]),
        env(&[("B", "task"), ("C", "task")]),
    );
    assert_eq!(merged.len(), 4);
    assert_eq!(lookup(&merged, "PATH"), Some(s("/bin")));
    assert_eq!(lookup(&merged, "A"), Some(s("settings")));
    assert_eq!(lookup(&merged, "B"), Some(s("task")));
    assert_eq!(lookup(&merged, "C"), Some(s("task")));
    assert!(task_env(vec![], vec![], vec![]).is_empty());
}

#[test]
fn task_directory_with_home() {
    assert_eq!(task_working_directory_at_home(Some("~/src"), None, Some("/home/u")), Some(s("/home/u/src")));
    assert_eq!(task_working_directory_at_home(Some("~"), None, Some("/home/u")), Some(s("/home/u")));
    assert_eq!(task_working_directory_at_home(Some("~/src"), None, None), Some(s("~/src")));
    assert_eq!(task_working_directory_at_home(Some("~other/src"), None, Some("/home/u")), Some(s("~other/src")));
    assert_eq!(task_working_directory_at_home(Some("/abs"), Some(s("/p")), Some("/home/u")), Some(s("/abs")));
    assert_eq!(task_working_directory_at_home(None, Some(s("/p")), Some("/home/u")), Some(s("/p")));
    assert_eq!(task_working_directory_at_home(None, None, Some("/home/u")), None);
}
