//! Requests and notifications that rust-analyzer adds to the language server
//! protocol, and how its runnables become task templates.
use vstd::prelude::*;
use std::collections::HashMap;
use crate::text::{chars_of, chars_split, opt_view, owned, split_char, string_of, strings_view};

verus! {

/// The `rust-analyzer/expandMacro` request.
pub struct LspExtExpandMacro {}

impl LspExtExpandMacro {
    /// The request's method name.
    pub fn method() -> (r: &'static str)
        ensures
            r == "rust-analyzer/expandMacro",
    {
        "rust-analyzer/expandMacro"
    }
}

/// The expansion of a macro: its name and the code it expands to.
#[derive(Debug)]
pub struct ExpandedMacro {
    pub name: String,
    pub expansion: String,
}

impl ExpandedMacro {
    /// An expansion with no name and no code.
    pub fn default() -> (r: ExpandedMacro)
        ensures
            r.name@.len() == 0,
            r.expansion@.len() == 0,
    {
        ExpandedMacro { name: String::new(), expansion: String::new() }
    }

    /// Whether both the name and the expansion are empty.
    pub fn is_empty(&self) -> (r: bool)
        ensures
            r == (self.name@.len() == 0 && self.expansion@.len() == 0),
    {
        self.name.unicode_len() == 0 && self.expansion.unicode_len() == 0
    }

    /// The server's answer, or an empty expansion where it had none.
    pub fn from_response(message: Option<ExpandedMacro>) -> (r: ExpandedMacro)
        ensures
            match message {
                Some(m) => r.name@ == m.name@ && r.expansion@ == m.expansion@,
                None => r.name@.len() == 0 && r.expansion@.len() == 0,
            },
    {
        match message {
            Some(m) => ExpandedMacro { name: m.name, expansion: m.expansion },
            None => ExpandedMacro::default(),
        }
    }
}

/// The `experimental/externalDocs` request.
pub struct LspOpenDocs {}

impl LspOpenDocs {
    /// The request's method name.
    pub fn method() -> (r: &'static str)
        ensures
            r == "experimental/externalDocs",
    {
        "experimental/externalDocs"
    }
}

/// Where the documentation of a symbol is: on the web and on disk.
#[derive(Debug)]
pub struct DocsUrls {
    pub web: Option<String>,
    pub local: Option<String>,
}

impl DocsUrls {
    /// No documentation anywhere.
    pub fn default() -> (r: DocsUrls)
        ensures
            r.web is None,
            r.local is None,
    {
        DocsUrls { web: None, local: None }
    }

    /// Whether neither place is known.
    pub fn is_empty(&self) -> (r: bool)
        ensures
            r == (self.web is None && self.local is None),
    {
        self.web.is_none() && self.local.is_none()
    }

    /// The server's answer, or no documentation where it had none.
    pub fn from_response(message: Option<DocsUrls>) -> (r: DocsUrls)
        ensures
            match message {
                Some(m) => r == m,
                None => r.web is None && r.local is None,
            },
    {
        match message {
            Some(m) => DocsUrls { web: m.web, local: m.local },
            None => DocsUrls::default(),
        }
    }
}

/// The `textDocument/switchSourceHeader` request.
pub struct LspSwitchSourceHeader {}

impl LspSwitchSourceHeader {
    /// The request's method name.
    pub fn method() -> (r: &'static str)
        ensures
            r == "textDocument/switchSourceHeader",
    {
        "textDocument/switchSourceHeader"
    }
}

/// The URI of the file a source file and its header switch to.
#[derive(Debug)]
pub struct SwitchSourceHeaderResult(pub String);

impl SwitchSourceHeaderResult {
    /// The server's answer, or an empty URI where it had none.
    pub fn from_response(message: Option<SwitchSourceHeaderResult>) -> (r: SwitchSourceHeaderResult)
        ensures
            match message {
                Some(m) => r.0@ == m.0@,
                None => r.0@.len() == 0,
            },
    {
        match message {
            Some(m) => SwitchSourceHeaderResult(m.0),
            None => SwitchSourceHeaderResult(String::new()),
        }
    }
}

/// The command that switches between a source file and its header.
#[derive(Debug)]
pub struct SwitchSourceHeader;

/// The `experimental/parentModule` request.
pub struct LspGoToParentModule {}

impl LspGoToParentModule {
    /// The request's method name.
    pub fn method() -> (r: &'static str)
        ensures
            r == "experimental/parentModule",
    {
        "experimental/parentModule"
    }
}

/// The `experimental/runnables` request.
pub struct Runnables {}

impl Runnables {
    /// The request's method name.
    pub fn method() -> (r: &'static str)
        ensures
            r == "experimental/runnables",
    {
        "experimental/runnables"
    }
}

/// What runs a runnable: cargo or a shell program.
#[derive(Debug, Clone, Copy, PartialEq, Eq, Structural)]
pub enum RunnableKind {
    Cargo,
    Shell,
}

/// A runnable that cargo runs.
#[derive(Debug)]
pub struct CargoRunnableArgs {
    pub environment: HashMap<String, String>,
    pub cwd: String,
    /// A command to run in place of cargo.
    pub override_cargo: Option<String>,
    pub workspace_root: Option<String>,
    /// The cargo subcommand and its options.
    pub cargo_args: Vec<String>,
    /// The arguments after `--`, for the executable.
    pub executable_args: Vec<String>,
}

/// A runnable that a shell program runs.
#[derive(Debug)]
pub struct ShellRunnableArgs {
    pub environment: HashMap<String, String>,
    pub cwd: String,
    pub program: String,
    pub args: Vec<String>,
}

/// How a runnable runs.
#[derive(Debug)]
pub enum RunnableArgs {
    Cargo(CargoRunnableArgs),
    Shell(ShellRunnableArgs),
}

/// Something the server offers to run: a test, a binary, a bench.
#[derive(Debug)]
pub struct Runnable {
    pub label: String,
    pub kind: RunnableKind,
    pub args: RunnableArgs,
}

/// The task the editor runs for a runnable.
#[derive(Debug)]
pub struct TaskTemplate {
    pub label: String,
    pub command: String,
    pub args: Vec<String>,
    pub env: HashMap<String, String>,
    pub cwd: Option<String>,
}

/// Whether a text holds a NUL character.
pub open spec fn has_nul(s: Seq<char>) -> bool {
    s.contains(0u8 as char)
}

/// The quoted form of the empty word: two single quotes.
pub open spec fn empty_word_quoted() -> Seq<char> {
    seq![39u8 as char, 39u8 as char]
}

/// What `shlex::try_quote` makes of a word without a NUL character: the
/// word quoted for a POSIX shell.
pub uninterp spec fn shell_quoted(word: Seq<char>) -> Seq<char>;

/// `shlex::try_quote`: the word quoted for a shell; it fails exactly on a
/// non-empty word holding a NUL character, and an empty word becomes `''`.
#[verifier::external_body]
fn try_quote(word: &str) -> (r: Option<String>)
    ensures
        opt_view(r) == if word@.len() == 0 {
            Some(empty_word_quoted())
        } else if has_nul(word@) {
            None
        } else {
            Some(shell_quoted(word@))
        },
{
    match shlex::try_quote(word) {
        Ok(q) => Some(q.into_owned()),
        Err(_) => None,
    }
}

/// The executable arguments quoted for a shell; those that cannot be quoted
/// are left out.
pub open spec fn quoted_args(args: Seq<Seq<char>>) -> Seq<Seq<char>>
    decreases args.len(),
{
    if args.len() == 0 {
        Seq::empty()
    } else {
        let a = args.last();
        quoted_args(args.drop_last()) + if a.len() == 0 {
            seq![empty_word_quoted()]
        } else if has_nul(a) {
            Seq::empty()
        } else {
            seq![shell_quoted(a)]
        }
    }
}

/// The command of a cargo runnable: the first space-separated word of the
/// override, or `cargo`.
pub open spec fn cargo_command(override_cargo: Option<Seq<char>>) -> Seq<char> {
    match override_cargo {
        Some(o) => split_char(o, ' ')[0],
        None => "cargo"@,
    }
}

/// The arguments of a cargo runnable: the rest of the override's words, the
/// cargo arguments, then `--` and the quoted executable arguments where there
/// are any.
pub open spec fn cargo_task_args(
    override_cargo: Option<Seq<char>>,
    cargo_args: Seq<Seq<char>>,
    executable_args: Seq<Seq<char>>,
) -> Seq<Seq<char>> {
    let override_rest = match override_cargo {
        Some(o) => split_char(o, ' ').drop_first(),
        None => Seq::empty(),
    };
    override_rest + cargo_args + if executable_args.len() > 0 {
        seq![seq!['-', '-']] + quoted_args(executable_args)
    } else {
        Seq::empty()
    }
}

/// Appends strings, in order.
fn push_all(dst: &mut Vec<String>, src: Vec<String>)
    ensures
        strings_view(final(dst)@) == strings_view(old(dst)@) + strings_view(src@),
{
    let ghost start = dst@;
    let mut src = src;
    let ghost sv = src@;
    dst.append(&mut src);
    assert(strings_view(dst@) =~= strings_view(start) + strings_view(sv));
}

/// The task for a runnable. A cargo runnable runs cargo (or the first word
/// of its override), in the workspace root where there is one, else in its
/// directory, with the arguments `cargo_task_args` describes. A shell
/// runnable runs its program with its arguments in its directory.
pub fn task_template_for_runnable(runnable: Runnable) -> (r: TaskTemplate)
    ensures
        r.label@ == runnable.label@,
        match runnable.args {
            RunnableArgs::Cargo(cargo) => {
                &&& r.command@ == cargo_command(opt_view(cargo.override_cargo))
                &&& strings_view(r.args@) == cargo_task_args(
                    opt_view(cargo.override_cargo),
                    strings_view(cargo.cargo_args@),
                    strings_view(cargo.executable_args@),
                )
                &&& r.env == cargo.environment
                &&& r.cwd matches Some(c) && c@ == match cargo.workspace_root {
                    Some(root) => root@,
                    None => cargo.cwd@,
                }
            },
            RunnableArgs::Shell(shell) => {
                &&& r.command@ == shell.program@
                &&& strings_view(r.args@) == strings_view(shell.args@)
                &&& r.env == shell.environment
                &&& r.cwd matches Some(c) && c@ == shell.cwd@
            },
        },
{
    let label = runnable.label;
    match runnable.args {
        RunnableArgs::Cargo(cargo) => {
            let ghost ov = opt_view(cargo.override_cargo);
            let mut args: Vec<String> = Vec::new();
            let command = match &cargo.override_cargo {
                Some(o) => {
                    let chars = chars_of(o.as_str());
                    let parts = chars_split(chars.as_slice(), ' ');
                    let ghost pv = parts@.map_values(|p: Vec<char>| p@);
                    proof {
                        crate::text::lemma_split_nonempty(o@, ' ');
                    }
                    let mut k: usize = 1;
                    while k < parts.len()
                        invariant
                            pv == parts@.map_values(|p: Vec<char>| p@),
                            pv == split_char(o@, ' '),
                            1 <= k <= parts@.len(),
                            strings_view(args@) == pv.subrange(1, k as int),
                        decreases parts@.len() - k,
                    {
                        let s = string_of(parts[k].as_slice());
                        let ghost before = strings_view(args@);
                        args.push(s);
                        assert(strings_view(args@) =~= before.push(pv[k as int]));
                        assert(pv.subrange(1, k + 1) =~= pv.subrange(1, k as int).push(pv[k as int]));
                        k = k + 1;
                    }
                    assert(pv.subrange(1, pv.len() as int) =~= pv.drop_first());
                    string_of(parts[0].as_slice())
                },
                None => {
                    assert(strings_view(args@) =~= Seq::<Seq<char>>::empty());
                    owned("cargo")
                },
            };
            let ghost after_override = strings_view(args@);
            let cwd = match cargo.workspace_root {
                Some(root) => root,
                None => cargo.cwd,
            };
            let ghost exec_view = strings_view(cargo.executable_args@);
            let ghost cargo_view = strings_view(cargo.cargo_args@);
            push_all(&mut args, cargo.cargo_args);
            if cargo.executable_args.len() > 0 {
                let ghost before = strings_view(args@);
                let dashes = vec!['-', '-'];
                let separator = string_of(dashes.as_slice());
                assert(separator@ =~= seq!['-', '-']);
                args.push(separator);
                assert(strings_view(args@) =~= before.push(seq!['-', '-']));
                let exec_args = cargo.executable_args;
                let ghost base = strings_view(args@);
                let mut i: usize = 0;
                while i < exec_args.len()
                    invariant
                        exec_view == strings_view(exec_args@),
                        i <= exec_args@.len(),
                        strings_view(args@) == base + quoted_args(exec_view.subrange(0, i as int)),
                    decreases exec_args@.len() - i,
                {
                    let ghost before_i = strings_view(args@);
                    assert(exec_view.subrange(0, i + 1).drop_last() =~= exec_view.subrange(0, i as int));
                    assert(exec_view.subrange(0, i + 1).last() == exec_args@[i as int]@);
                    match try_quote(exec_args[i].as_str()) {
                        Some(q) => {
                            args.push(q);
                            assert(strings_view(args@) =~= before_i.push(q@));
                            assert(strings_view(args@) =~= base + quoted_args(exec_view.subrange(0, i + 1)));
                        },
                        None => {
                            assert(strings_view(args@) =~= base + quoted_args(exec_view.subrange(0, i + 1)));
                        },
                    }
                    i = i + 1;
                }
                assert(exec_view.subrange(0, exec_view.len() as int) =~= exec_view);
            }
            assert(strings_view(args@) =~= cargo_task_args(ov, cargo_view, exec_view));
            TaskTemplate { label, command, args, env: cargo.environment, cwd: Some(cwd) }
        },
        RunnableArgs::Shell(shell) => {
            TaskTemplate {
                label,
                command: shell.program,
                args: shell.args,
                env: shell.environment,
                cwd: Some(shell.cwd),
            }
        },
    }
}

/// The `rust-analyzer/cancelFlycheck` notification.
#[derive(Debug)]
pub struct LspExtCancelFlycheck {}

/// The `rust-analyzer/runFlycheck` notification.
#[derive(Debug)]
pub struct LspExtRunFlycheck {}

/// The `rust-analyzer/clearFlycheck` notification.
#[derive(Debug)]
pub struct LspExtClearFlycheck {}

impl LspExtCancelFlycheck {
    /// The notification's method name.
    pub fn method() -> (r: &'static str)
        ensures
            r == "rust-analyzer/cancelFlycheck",
    {
        "rust-analyzer/cancelFlycheck"
    }
}

impl LspExtRunFlycheck {
    /// The notification's method name.
    pub fn method() -> (r: &'static str)
        ensures
            r == "rust-analyzer/runFlycheck",
    {
        "rust-analyzer/runFlycheck"
    }
}

impl LspExtClearFlycheck {
    /// The notification's method name.
    pub fn method() -> (r: &'static str)
        ensures
            r == "rust-analyzer/clearFlycheck",
    {
        "rust-analyzer/clearFlycheck"
    }
}

} // verus!
