//! What a terminal for a task runs: its working directory, and the shell
//! invocation that runs the task's command after the toolchain's activation
//! script; and the list of terminals a project keeps.
use vstd::prelude::*;
use crate::text::{chars_concat, chars_join, chars_of, has_prefix, has_suffix, join, opt_view, owned, string_of, strings_view};
use crate::task_store::{entries_map, entries_view, names_distinct, TaskVariables};

verus! {

/// `shellexpand::tilde`: a path with a leading `~` (alone or before a path
/// separator) replaced by the home directory, where it is known. Which home
/// directory comes back depends on the environment, so only this is
/// claimed: a path without such a leading `~` is unchanged, and one with it
/// is unchanged or ends with the rest of the path after the `~`.
#[verifier::external_body]
fn tilde_expand(path: &str) -> (r: String)
    ensures
        !has_prefix(path@, seq!['~']) ==> r@ == path@,
        has_prefix(path@, seq!['~']) && path@.len() > 1 && path@[1] != '/' && path@[1] != '\\' ==> r@ == path@,
        has_prefix(path@, seq!['~']) ==> (r@ == path@ || has_suffix(r@, path@.subrange(1, path@.len() as int))),
{
    shellexpand::tilde(path).into_owned()
}

/// The directory a task's terminal starts in: the task's own directory with
/// `~` expanded, else the active project directory.
pub fn task_working_directory(task_cwd: Option<&str>, active_project_directory: Option<String>) -> (r: Option<String>)
    ensures
        match task_cwd {
            Some(c) => r matches Some(d) && (!has_prefix(c@, seq!['~']) ==> d@ == c@) && (d@ == c@ || has_suffix(
                d@,
                c@.subrange(1, c@.len() as int),
            )),
            None => opt_view(r) == opt_view(active_project_directory),
        },
{
    match task_cwd {
        Some(c) => Some(tilde_expand(c)),
        None => active_project_directory,
    }
}

/// The environment of a task's terminal: the directory's environment, then
/// the terminal settings' variables, then the task's own, a later value
/// winning over an earlier one for the same name (within one list too).
pub fn task_env(
    directory_env: Vec<(String, String)>,
    settings_env: Vec<(String, String)>,
    spawn_env: Vec<(String, String)>,
) -> (r: Vec<(String, String)>)
    ensures
        names_distinct(entries_view(r@)),
        entries_map(entries_view(r@)) == entries_map(entries_view(directory_env@)).union_prefer_right(
            entries_map(entries_view(settings_env@)),
        ).union_prefer_right(entries_map(entries_view(spawn_env@))),
{
    let mut env = TaskVariables::new();
    let ghost d = entries_map(entries_view(directory_env@));
    env.extend(TaskVariables { entries: directory_env });
    assert(env.as_map() =~= d);
    env.extend(TaskVariables { entries: settings_env });
    env.extend(TaskVariables { entries: spawn_env });
    env.entries
}

/// A path with a leading `~` (alone or before `/`) replaced by the home
/// directory where one is given; any other path as it is.
pub open spec fn tilde_expansion(path: Seq<char>, home: Option<Seq<char>>) -> Seq<char> {
    if has_prefix(path, seq!['~']) && (path.len() == 1 || path[1] == '/') {
        match home {
            Some(h) => h + path.subrange(1, path.len() as int),
            None => path,
        }
    } else {
        path
    }
}

/// `shellexpand::tilde_with_context` with the given home directory: a
/// leading `~`, alone or before `/`, becomes the home directory where one is
/// given; on Windows a `~` before `\` does too, elsewhere such a path stays
/// as it is; any other path stays as it is.
#[verifier::external_body]
fn tilde_with_home(path: &str, home: Option<&str>) -> (r: String)
    ensures
        !(path@.len() > 1 && path@[0] == '~' && path@[1] == '\\') ==> r@ == tilde_expansion(path@, match home {
            Some(h) => Some(h@),
            None => None,
        }),
        path@.len() > 1 && path@[0] == '~' && path@[1] == '\\' ==> (r@ == path@ || (home matches Some(h) && r@
            == h@ + path@.subrange(1, path@.len() as int))),
{
    shellexpand::tilde_with_context(path, move || home).into_owned()
}

/// The directory a task's terminal starts in, for a known home directory:
/// the task's own directory with a leading `~` expanded to `home`, else the
/// active project directory.
pub fn task_working_directory_at_home(
    task_cwd: Option<&str>,
    active_project_directory: Option<String>,
    home: Option<&str>,
) -> (r: Option<String>)
    ensures
        match task_cwd {
            Some(c) => r matches Some(d) && if c@.len() > 1 && c@[0] == '~' && c@[1] == '\\' {
                d@ == c@ || (home matches Some(h) && d@ == h@ + c@.subrange(1, c@.len() as int))
            } else {
                d@ == tilde_expansion(c@, match home {
                    Some(h) => Some(h@),
                    None => None,
                })
            },
            None => opt_view(r) == opt_view(active_project_directory),
        },
{
    match task_cwd {
        Some(c) => Some(tilde_with_home(c, home)),
        None => active_project_directory,
    }
}

/// What a terminal runs.
#[derive(Debug)]
pub enum TerminalShell {
    /// The user's shell, with the one argument that runs the activation
    /// script and then the task (which the shell kind turns into its
    /// argument list).
    ShellRunning { program: String, command_line: String },
    /// The task's program with its arguments.
    WithArguments { program: String, args: Vec<String> },
    /// The system shell.
    System,
}

/// The command line that runs a task in a shell: the quoted command and the
/// arguments that could be quoted, space-separated; without a command, a
/// login shell.
pub open spec fn command_line_text(
    shell: Seq<char>,
    quoted_command: Option<Option<Seq<char>>>,
    quoted_args: Seq<Option<Seq<char>>>,
) -> Seq<char> {
    match quoted_command {
        Some(c) => {
            let words = (match c {
                Some(q) => seq![q],
                None => Seq::empty(),
            }) + present(quoted_args);
            join(words, seq![' '])
        },
        None => "exec "@ + shell + " -l"@,
    }
}

/// The values present among optional values, in order.
pub open spec fn present(v: Seq<Option<Seq<char>>>) -> Seq<Seq<char>>
    decreases v.len(),
{
    if v.len() == 0 {
        Seq::empty()
    } else {
        present(v.drop_last()) + match v.last() {
            Some(x) => seq![x],
            None => Seq::empty(),
        }
    }
}

/// The views of optional strings.
pub open spec fn opt_strings_view(v: Seq<Option<String>>) -> Seq<Option<Seq<char>>> {
    v.map_values(|o: Option<String>| opt_view(o))
}

/// The argument a shell gets to run the activation script and then the
/// task: the script's commands joined by the separator and a space, the
/// separator, a space and the task's command line; for `cmd`, all of it in
/// double quotes.
pub open spec fn activated_command_text(
    activation_script: Seq<Seq<char>>,
    separator: Seq<char>,
    command_line: Seq<char>,
    is_cmd: bool,
) -> Seq<char> {
    let arg = join(activation_script, separator + seq![' ']) + separator + seq![' '] + command_line;
    if is_cmd {
        seq!['"'] + arg + seq!['"']
    } else {
        arg
    }
}

/// The command line that runs a task in the shell, as `command_line_text`
/// describes; `quoted_command` is the command with the shell's prefix, as
/// the shell quotes it (`None` where it cannot), and `quoted_args` the
/// arguments as it quotes them.
pub fn command_line(shell: &str, quoted_command: Option<Option<String>>, quoted_args: Vec<Option<String>>) -> (r: String)
    ensures
        r@ == command_line_text(
            shell@,
            match quoted_command {
                Some(c) => Some(opt_view(c)),
                None => None,
            },
            opt_strings_view(quoted_args@),
        ),
{
    match quoted_command {
        Some(c) => {
            let mut words: Vec<Vec<char>> = Vec::new();
            if let Some(q) = &c {
                words.push(chars_of(q.as_str()));
            }
            let ghost start = words@.map_values(|w: Vec<char>| w@);
            assert(start =~= match opt_view(c) {
                Some(q) => seq![q],
                None => Seq::<Seq<char>>::empty(),
            });
            let ghost qv = opt_strings_view(quoted_args@);
            let mut i: usize = 0;
            while i < quoted_args.len()
                invariant
                    qv == opt_strings_view(quoted_args@),
                    i <= quoted_args@.len(),
                    words@.map_values(|w: Vec<char>| w@) == start + present(qv.subrange(0, i as int)),
                decreases quoted_args@.len() - i,
            {
                assert(qv.subrange(0, i + 1).drop_last() =~= qv.subrange(0, i as int));
                let ghost before = words@.map_values(|w: Vec<char>| w@);
                if let Some(a) = &quoted_args[i] {
                    words.push(chars_of(a.as_str()));
                    assert(words@.map_values(|w: Vec<char>| w@) =~= before.push(a@));
                } else {
                    assert(words@.map_values(|w: Vec<char>| w@) =~= before);
                }
                assert(start + present(qv.subrange(0, i + 1)) =~= words@.map_values(|w: Vec<char>| w@));
                i = i + 1;
            }
            assert(qv.subrange(0, qv.len() as int) =~= qv);
            let space = vec![' '];
            assert(space@ =~= seq![' ']);
            let line = chars_join(&words, space.as_slice());
            string_of(line.as_slice())
        },
        None => {
            let t = chars_concat(chars_of("exec ").as_slice(), chars_of(shell).as_slice());
            let t = chars_concat(t.as_slice(), chars_of(" -l").as_slice());
            string_of(t.as_slice())
        },
    }
}

/// What a task's terminal runs: with an activation script, the user's
/// shell running the script and then the task, as
/// `activated_command_text` describes; without one, the task's command with
/// its arguments, or the system shell where the task has no command.
pub fn terminal_shell_for_task(
    shell: String,
    command: Option<String>,
    args: Vec<String>,
    activation_script: Vec<String>,
    separator: &str,
    is_cmd: bool,
    command_line: String,
) -> (r: TerminalShell)
    ensures
        if activation_script@.len() > 0 {
            r matches TerminalShell::ShellRunning { program, command_line: arg } && program@ == shell@ && arg@
                == activated_command_text(strings_view(activation_script@), separator@, command_line@, is_cmd)
        } else {
            match command {
                Some(c) => r matches TerminalShell::WithArguments { program, args: a } && program@ == c@ && a == args,
                None => r is System,
            }
        },
{
    if activation_script.len() > 0 {
        let mut parts: Vec<Vec<char>> = Vec::new();
        let mut i: usize = 0;
        while i < activation_script.len()
            invariant
                i <= activation_script@.len(),
                parts@.map_values(|p: Vec<char>| p@) == strings_view(activation_script@).subrange(0, i as int),
            decreases activation_script@.len() - i,
        {
            let ghost before = parts@.map_values(|p: Vec<char>| p@);
            parts.push(chars_of(activation_script[i].as_str()));
            assert(parts@.map_values(|p: Vec<char>| p@) =~= before.push(activation_script@[i as int]@));
            i = i + 1;
        }
        assert(strings_view(activation_script@).subrange(0, activation_script@.len() as int) =~= strings_view(activation_script@));
        let sep = chars_of(separator);
        let space = vec![' '];
        assert(space@ =~= seq![' ']);
        let sep_space = chars_concat(sep.as_slice(), space.as_slice());
        let script = chars_join(&parts, sep_space.as_slice());
        let mut arg = chars_concat(script.as_slice(), sep_space.as_slice());
        arg = chars_concat(arg.as_slice(), chars_of(command_line.as_str()).as_slice());
        if is_cmd {
            let quote = vec!['"'];
            arg = chars_concat(quote.as_slice(), arg.as_slice());
            arg = chars_concat(arg.as_slice(), quote.as_slice());
            assert(quote@ =~= seq!['"']);
        }
        TerminalShell::ShellRunning { program: shell, command_line: string_of(arg.as_slice()) }
    } else {
        match command {
            Some(program) => TerminalShell::WithArguments { program, args },
            None => TerminalShell::System,
        }
    }
}

/// The terminals a project keeps, by entity id, in the order they opened.
pub struct Terminals {
    pub local_handles: Vec<u64>,
}

impl Terminals {
    /// No terminals.
    pub fn new() -> (r: Terminals)
        ensures
            r.local_handles@.len() == 0,
    {
        Terminals { local_handles: Vec::new() }
    }

    /// Records a new terminal.
    pub fn add(&mut self, id: u64)
        ensures
            final(self).local_handles@ == old(self).local_handles@.push(id),
    {
        self.local_handles.push(id);
    }

    /// Forgets a released terminal: its first handle goes. Returns whether
    /// there was one.
    pub fn release(&mut self, id: u64) -> (removed: bool)
        ensures
            removed == old(self).local_handles@.contains(id),
            removed ==> exists|i: int| {
                &&& 0 <= i < old(self).local_handles@.len()
                &&& old(self).local_handles@[i] == id
                &&& forall|j: int| 0 <= j < i ==> old(self).local_handles@[j] != id
                &&& final(self).local_handles@ == old(self).local_handles@.remove(i)
            },
            !removed ==> final(self).local_handles@ == old(self).local_handles@,
    {
        let ghost orig = self.local_handles@;
        let mut i: usize = 0;
        while i < self.local_handles.len()
            invariant
                self.local_handles@ == orig,
                orig == old(self).local_handles@,
                i <= self.local_handles@.len(),
                forall|j: int| 0 <= j < i ==> self.local_handles@[j] != id,
            decreases self.local_handles@.len() - i,
        {
            if self.local_handles[i] == id {
                self.local_handles.remove(i);
                assert(orig[i as int] == id);
                assert(orig.contains(id));
                return true;
            }
            i = i + 1;
        }
        assert(!orig.contains(id));
        false
    }
}

/// Cloning a terminal that runs a task opens a plain shell instead, since a
/// clone would run the task again.
pub fn clone_opens_new_shell(terminal_runs_task: bool) -> (r: bool)
    ensures
        r == terminal_runs_task,
{
    terminal_runs_task
}

/// Where a new shell looks for a Python toolchain to activate, in order:
/// the active entry's path, then the root of each visible worktree (a
/// worktree id with no path components); nowhere unless virtual
/// environments are detected.
pub open spec fn toolchain_lookup_paths_of(
    detect_venv: bool,
    active_entry: Option<(usize, Seq<Seq<char>>)>,
    visible_worktrees: Seq<usize>,
) -> Seq<(usize, Seq<Seq<char>>)> {
    if !detect_venv {
        Seq::empty()
    } else {
        (match active_entry {
            Some(e) => seq![e],
            None => Seq::empty(),
        }) + visible_worktrees.map_values(|w: usize| (w, Seq::<Seq<char>>::empty()))
    }
}

/// An optional path of a worktree as plain values.
pub open spec fn active_entry_view(e: Option<(usize, Vec<String>)>) -> Option<(usize, Seq<Seq<char>>)> {
    match e {
        Some(e) => Some((e.0, strings_view(e.1@))),
        None => None,
    }
}

/// An optional path of a worktree as a list of none or one.
pub open spec fn active_entry_seq(e: Option<(usize, Vec<String>)>) -> Seq<(usize, Seq<Seq<char>>)> {
    match active_entry_view(e) {
        Some(v) => seq![v],
        None => Seq::empty(),
    }
}

/// The places a new shell looks for a toolchain, as
/// `toolchain_lookup_paths_of` describes.
pub fn toolchain_lookup_paths(
    detect_venv: bool,
    active_entry: Option<(usize, Vec<String>)>,
    visible_worktrees: &Vec<usize>,
) -> (r: Vec<(usize, Vec<String>)>)
    ensures
        r@.map_values(|e: (usize, Vec<String>)| (e.0, strings_view(e.1@))) == toolchain_lookup_paths_of(
            detect_venv,
            active_entry_view(active_entry),
            visible_worktrees@,
        ),
{
    let mut out: Vec<(usize, Vec<String>)> = Vec::new();
    if !detect_venv {
        assert(out@.map_values(|e: (usize, Vec<String>)| (e.0, strings_view(e.1@))) =~= Seq::<(usize, Seq<Seq<char>>)>::empty());
        return out;
    }
    let ghost first = active_entry_seq(active_entry);
    match active_entry {
        Some(e) => out.push(e),
        None => {},
    }
    assert(out@.map_values(|e: (usize, Vec<String>)| (e.0, strings_view(e.1@))) =~= first);
    let mut i: usize = 0;
    while i < visible_worktrees.len()
        invariant
            i <= visible_worktrees@.len(),
            out@.map_values(|e: (usize, Vec<String>)| (e.0, strings_view(e.1@))) == first + visible_worktrees@.take(
                i as int,
            ).map_values(|w: usize| (w, Seq::<Seq<char>>::empty())),
        decreases visible_worktrees@.len() - i,
    {
        let ghost before = out@;
        let empty: Vec<String> = Vec::new();
        out.push((visible_worktrees[i], empty));
        proof {
            assert(strings_view(empty@) =~= Seq::<Seq<char>>::empty());
            assert(out@.map_values(|e: (usize, Vec<String>)| (e.0, strings_view(e.1@))) =~= before.map_values(
                |e: (usize, Vec<String>)| (e.0, strings_view(e.1@)),
            ).push((visible_worktrees@[i as int], Seq::<Seq<char>>::empty())));
            assert(visible_worktrees@.take(i + 1).map_values(|w: usize| (w, Seq::<Seq<char>>::empty())) =~= visible_worktrees@.take(
                i as int,
            ).map_values(|w: usize| (w, Seq::<Seq<char>>::empty())).push((visible_worktrees@[i as int], Seq::<Seq<char>>::empty())));
        }
        i = i + 1;
    }
    assert(visible_worktrees@.take(visible_worktrees@.len() as int) =~= visible_worktrees@);
    out
}

} // verus!
