//! What the title bar shows: which project items, the project and branch
//! labels, its padding, background and window controls, and when a drag
//! moves the window.
use vstd::prelude::*;
use crate::text::{chars_of, owned, string_of};

verus! {

/// The title-bar settings that decide what it shows.
#[derive(Debug, Clone, Copy, PartialEq, Eq, Structural)]
pub struct TitleBarSettings {
    pub show_branch_icon: bool,
    pub show_branch_name: bool,
    pub show_project_items: bool,
}

/// The platform whose title-bar conventions apply.
#[derive(Debug, Clone, Copy, PartialEq, Eq, Structural)]
pub enum PlatformStyle {
    Mac,
    Linux,
    Windows,
}

/// The project items the title bar shows.
#[derive(Debug, Clone, Copy, PartialEq, Eq, Structural)]
pub struct ProjectItems {
    /// The project host and name.
    pub project_name: bool,
    /// The current branch.
    pub branch: bool,
}

/// Which project items show: the project name and the branch as the
/// settings ask, but neither while the application menu shows all its menus.
pub fn project_items(settings: TitleBarSettings, menu_shows_all_menus: Option<bool>) -> (r: ProjectItems)
    ensures
        ({
            let any = (settings.show_branch_name || settings.show_project_items) && !(menu_shows_all_menus
                == Some(true));
            r == (ProjectItems {
                project_name: any && settings.show_project_items,
                branch: any && settings.show_branch_name,
            })
        }),
{
    let mut render_project_items = settings.show_branch_name || settings.show_project_items;
    if let Some(all_shown) = menu_shows_all_menus {
        render_project_items = render_project_items && !all_shown;
    }
    ProjectItems {
        project_name: render_project_items && settings.show_project_items,
        branch: render_project_items && settings.show_branch_name,
    }
}

/// The left padding of the title bar.
#[derive(Debug, Clone, Copy, PartialEq, Eq, Structural)]
pub enum TitleBarPadding {
    /// The ordinary small padding.
    Standard,
    /// Room for the macOS traffic lights.
    TrafficLights,
}

/// The left padding: room for the traffic lights on a Mac outside full
/// screen, the ordinary padding otherwise.
pub fn left_padding(is_fullscreen: bool, platform: PlatformStyle) -> (r: TitleBarPadding)
    ensures
        r == if !is_fullscreen && platform == PlatformStyle::Mac {
            TitleBarPadding::TrafficLights
        } else {
            TitleBarPadding::Standard
        },
{
    if is_fullscreen {
        TitleBarPadding::Standard
    } else if platform == PlatformStyle::Mac {
        TitleBarPadding::TrafficLights
    } else {
        TitleBarPadding::Standard
    }
}

/// Whether the title bar has the active background: always except on Linux,
/// where an inactive window, or one being dragged, has the inactive one.
pub fn uses_active_background(is_linux: bool, window_active: bool, should_move: bool) -> (r: bool)
    ensures
        r == (!is_linux || (window_active && !should_move)),
{
    if is_linux {
        window_active && !should_move
    } else {
        true
    }
}

/// The window controls the title bar draws.
#[derive(Debug, Clone, Copy, PartialEq, Eq, Structural)]
pub enum WindowControls {
    /// None: full screen, macOS, or server-side decorations on Linux.
    NoControls,
    /// The Linux controls, for client-side decorations.
    Linux,
    /// The Windows controls.
    Windows,
}

/// The window controls: none in full screen or on a Mac; on Linux, its own
/// controls where the client draws the decorations; on Windows, its own.
pub fn window_controls(is_fullscreen: bool, platform: PlatformStyle, client_decorations: bool) -> (r: WindowControls)
    ensures
        r == if is_fullscreen {
            WindowControls::NoControls
        } else {
            match platform {
                PlatformStyle::Mac => WindowControls::NoControls,
                PlatformStyle::Linux => if client_decorations {
                    WindowControls::Linux
                } else {
                    WindowControls::NoControls
                },
                PlatformStyle::Windows => WindowControls::Windows,
            }
        },
{
    if is_fullscreen {
        return WindowControls::NoControls;
    }
    match platform {
        PlatformStyle::Mac => WindowControls::NoControls,
        PlatformStyle::Linux => if client_decorations {
            WindowControls::Linux
        } else {
            WindowControls::NoControls
        },
        PlatformStyle::Windows => WindowControls::Windows,
    }
}

/// Which top corners of a client-decorated title bar are rounded: a corner
/// is, unless the window is tiled against the top or that side.
pub fn rounded_corners(tiled_top: bool, tiled_left: bool, tiled_right: bool) -> (r: (bool, bool))
    ensures
        r == (!(tiled_top || tiled_left), !(tiled_top || tiled_right)),
{
    (!(tiled_top || tiled_left), !(tiled_top || tiled_right))
}

/// The most characters of a project name that the project button shows.
pub const MAX_PROJECT_NAME_LENGTH: usize = 40;

/// The most characters of a branch name that the branch button shows.
pub const MAX_BRANCH_NAME_LENGTH: usize = 40;

/// The most characters of a commit hash that a branch label shows.
pub const MAX_SHORT_SHA_LENGTH: usize = 8;

/// Text of more than `max` characters cut to its first `max`, with `…`
/// after them; shorter text as it is.
pub open spec fn truncated_with_trailoff(s: Seq<char>, max: nat) -> Seq<char> {
    if s.len() > max {
        s.subrange(0, max as int).push('…')
    } else {
        s
    }
}

/// Cuts text of more than `max` characters to its first `max`, followed by
/// `…`.
pub fn truncate_and_trailoff(s: &str, max: usize) -> (r: String)
    ensures
        r@ == truncated_with_trailoff(s@, max as nat),
{
    let c = chars_of(s);
    if c.len() > max {
        let mut short = crate::text::chars_range(c.as_slice(), 0, max);
        short.push('…');
        string_of(short.as_slice())
    } else {
        string_of(c.as_slice())
    }
}

/// The label of the project button: the first visible worktree's name, cut
/// to `MAX_PROJECT_NAME_LENGTH` characters with `…` after them where it is
/// longer, or an invitation to open a recent project, shown muted.
pub fn project_name_label(first_worktree_name: Option<String>) -> (r: (String, bool))
    ensures
        match first_worktree_name {
            Some(n) => r.0@ == truncated_with_trailoff(n@, MAX_PROJECT_NAME_LENGTH as nat) && !r.1,
            None => r.0@ == "Open recent project"@ && r.1,
        },
{
    match first_worktree_name {
        Some(n) => (truncate_and_trailoff(n.as_str(), MAX_PROJECT_NAME_LENGTH), false),
        None => (owned("Open recent project"), true),
    }
}

/// The label of the branch button: the branch name, cut to
/// `MAX_BRANCH_NAME_LENGTH` characters with `…` after them where it is
/// longer, else the first eight characters of the head commit's hash, else
/// nothing.
pub fn branch_label(branch_name: Option<String>, head_sha: Option<&str>) -> (r: Option<String>)
    ensures
        match branch_name {
            Some(b) => r matches Some(l) && l@ == truncated_with_trailoff(b@, MAX_BRANCH_NAME_LENGTH as nat),
            None => match head_sha {
                Some(s) => r matches Some(l) && l@ == s@.subrange(0, if s@.len() < 8 { s@.len() as int } else { 8 }),
                None => r is None,
            },
        },
{
    match branch_name {
        Some(b) => Some(truncate_and_trailoff(b.as_str(), MAX_BRANCH_NAME_LENGTH)),
        None => match head_sha {
            Some(s) => {
                let c = chars_of(s);
                let n = if c.len() < MAX_SHORT_SHA_LENGTH {
                    c.len()
                } else {
                    MAX_SHORT_SHA_LENGTH
                };
                let short = crate::text::chars_range(c.as_slice(), 0, n);
                Some(string_of(short.as_slice()))
            },
            None => None,
        },
    }
}

/// Whether the branch status item shows: it is turned on and there is a
/// branch label.
pub fn branch_status_visible(show_branch_name: bool, label: &Option<String>) -> (r: bool)
    ensures
        r == (show_branch_name && label is Some),
{
    show_branch_name && label.is_some()
}

/// Whether a drag on a client-decorated Linux title bar moves the window: a
/// left press arms it, the next move starts the move and disarms it, and a
/// release or a press elsewhere disarms it.
pub struct WindowMoveTracker {
    pub should_move: bool,
}

/// What the pointer does on the title bar.
#[derive(Debug, Clone, Copy, PartialEq, Eq, Structural)]
pub enum PointerEvent {
    LeftDown,
    Move,
    LeftUp,
    DownOutside,
}

impl WindowMoveTracker {
    /// Nothing armed.
    pub fn new() -> (r: WindowMoveTracker)
        ensures
            !r.should_move,
    {
        WindowMoveTracker { should_move: false }
    }

    /// Takes in a pointer event; returns whether the window move starts now.
    pub fn handle(&mut self, event: PointerEvent) -> (start_move: bool)
        ensures
            start_move == (event == PointerEvent::Move && old(self).should_move),
            final(self).should_move == (event == PointerEvent::LeftDown),
    {
        match event {
            PointerEvent::LeftDown => {
                self.should_move = true;
                false
            },
            PointerEvent::Move => {
                if self.should_move {
                    self.should_move = false;
                    true
                } else {
                    false
                }
            },
            PointerEvent::LeftUp | PointerEvent::DownOutside => {
                self.should_move = false;
                false
            },
        }
    }
}

} // verus!
