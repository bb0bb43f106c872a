//! Debugger settings with their defaults, and how a debug session is
//! labelled.
use vstd::prelude::*;
use crate::text::opt_view;

verus! {

/// How far one step of the debugger goes.
#[derive(Debug, Clone, Copy, PartialEq, Eq, Structural)]
pub enum SteppingGranularitySetting {
    Statement,
    Line,
    Instruction,
}

/// The stepping granularity of the Debug Adapter Protocol.
#[derive(Debug, Clone, Copy, PartialEq, Eq, Structural)]
pub enum SteppingGranularity {
    Statement,
    Line,
    Instruction,
}

impl SteppingGranularitySetting {
    /// Stepping by line.
    pub fn default() -> (r: SteppingGranularitySetting)
        ensures
            r == SteppingGranularitySetting::Line,
    {
        SteppingGranularitySetting::Line
    }

    /// The protocol's granularity of the same name.
    pub fn to_dap(self) -> (r: SteppingGranularity)
        ensures
            r == match self {
                SteppingGranularitySetting::Statement => SteppingGranularity::Statement,
                SteppingGranularitySetting::Line => SteppingGranularity::Line,
                SteppingGranularitySetting::Instruction => SteppingGranularity::Instruction,
            },
    {
        match self {
            SteppingGranularitySetting::Statement => SteppingGranularity::Statement,
            SteppingGranularitySetting::Line => SteppingGranularity::Line,
            SteppingGranularitySetting::Instruction => SteppingGranularity::Instruction,
        }
    }
}

/// Where the debug panel docks.
#[derive(Debug, Clone, Copy, PartialEq, Eq, Structural)]
pub enum DebugPanelDockPosition {
    Left,
    Bottom,
    Right,
}

/// The debugger settings.
#[derive(Debug, Clone, Copy, PartialEq, Eq, Structural)]
pub struct DebuggerSettings {
    /// How far one step goes.
    pub stepping_granularity: SteppingGranularitySetting,
    /// Whether breakpoints are kept across sessions.
    pub save_breakpoints: bool,
    /// Whether the status bar shows the debug button.
    pub button: bool,
    /// Milliseconds until connecting to a TCP debug adapter times out.
    pub timeout: u64,
    /// Whether messages with debug adapters are logged.
    pub log_dap_communications: bool,
    /// Whether logged adapter messages are formatted.
    pub format_dap_log_messages: bool,
    /// Where the debug panel docks.
    pub dock: DebugPanelDockPosition,
}

/// The default debugger settings: stepping by line, breakpoints kept, the
/// button shown, a timeout of two seconds, adapter messages logged and
/// formatted, and the panel at the bottom.
pub open spec fn default_debugger_settings() -> DebuggerSettings {
    DebuggerSettings {
        stepping_granularity: SteppingGranularitySetting::Line,
        save_breakpoints: true,
        button: true,
        timeout: 2000,
        log_dap_communications: true,
        format_dap_log_messages: true,
        dock: DebugPanelDockPosition::Bottom,
    }
}

impl DebuggerSettings {
    /// The key of the debugger settings in the settings file.
    pub fn key() -> (r: &'static str)
        ensures
            r == "debugger",
    {
        "debugger"
    }

    /// The default debugger settings, as `default_debugger_settings` gives them.
    pub fn default() -> (r: DebuggerSettings)
        ensures
            r == default_debugger_settings(),
    {
        DebuggerSettings {
            button: true,
            save_breakpoints: true,
            stepping_granularity: SteppingGranularitySetting::Line,
            timeout: 2000,
            log_dap_communications: true,
            format_dap_log_messages: true,
            dock: DebugPanelDockPosition::Bottom,
        }
    }
}

/// The label of a debug session: the session's own label and the name of
/// its thread where it has exactly one, preferring the thread's name where
/// the adapter asks for that.
pub open spec fn session_label_of(
    prefer_thread_name: bool,
    session_label: Option<Seq<char>>,
    thread_names: Seq<Seq<char>>,
) -> Option<Seq<char>> {
    let single = if thread_names.len() == 1 {
        Some(thread_names[0])
    } else {
        None
    };
    if prefer_thread_name {
        if single is Some {
            single
        } else {
            session_label
        }
    } else {
        if session_label is Some {
            session_label
        } else {
            single
        }
    }
}

/// The label of a debug session, as `session_label_of` describes.
pub fn debug_session_label(prefer_thread_name: bool, label: Option<String>, thread_names: &Vec<String>) -> (r: Option<String>)
    ensures
        opt_view(r) == session_label_of(
            prefer_thread_name,
            opt_view(label),
            thread_names@.map_values(|t: String| t@),
        ),
{
    let single = if thread_names.len() == 1 {
        Some(thread_names[0].clone())
    } else {
        None
    };
    if prefer_thread_name {
        if single.is_some() {
            single
        } else {
            label
        }
    } else {
        if label.is_some() {
            label
        } else {
            single
        }
    }
}

} // verus!
