//! Which language-server requests a server supports, which code actions of
//! a response are kept, and how completion edits and formatting options are
//! derived, over a plain model of the server's capabilities.
use vstd::prelude::*;
use crate::diff_state::{lemma_normalized_line_endings, normalize_line_endings, normalized_line_endings};
use crate::text::{chars_occur_at, chars_of, free_of, occurs_at, opt_view, owned, strings_contain, strings_view, texts_contain};

verus! {

/// A position in a buffer, counted in UTF-16 code units within a row.
#[derive(Debug, Clone, Copy, PartialEq, Eq, Structural)]
pub struct PointUtf16 {
    pub row: u32,
    pub column: u32,
}

/// A capability that is either a flag or a set of options (which means
/// supported).
#[derive(Debug, Clone, Copy, PartialEq, Eq, Structural)]
pub enum ProviderCapability {
    Simple(bool),
    Options,
}

/// The code-action options a server declares.
#[derive(Debug)]
pub struct CodeActionOptions {
    pub code_action_kinds: Option<Vec<String>>,
    pub resolve_provider: Option<bool>,
}

/// How a server declares code actions.
#[derive(Debug)]
pub enum CodeActionProviderCapability {
    Simple(bool),
    Options(CodeActionOptions),
}

/// The code-lens options a server declares.
#[derive(Debug, Clone, Copy)]
pub struct CodeLensOptions {
    pub resolve_provider: Option<bool>,
}

/// How a server declares inlay hints: a flag, options, or registration
/// options (both of which may say whether hints can be resolved).
#[derive(Debug, Clone, Copy, PartialEq, Eq, Structural)]
pub enum InlayHintProvider {
    Simple(bool),
    Options { resolve_provider: Option<bool> },
    RegistrationOptions { resolve_provider: Option<bool> },
}

/// The characters on which a server formats while typing.
#[derive(Debug)]
pub struct OnTypeFormattingOptions {
    pub first_trigger_character: String,
    pub more_trigger_character: Option<Vec<String>>,
}

/// How a server declares renaming: a flag, or options that say whether it
/// prepares a rename first.
#[derive(Debug, Clone, Copy, PartialEq, Eq, Structural)]
pub enum RenameProvider {
    Simple(bool),
    Options { prepare_provider: Option<bool> },
}

/// What the editor reads of a server's capabilities.
#[derive(Debug)]
pub struct ServerCapabilities {
    pub definition_provider: Option<ProviderCapability>,
    pub declaration_provider: Option<ProviderCapability>,
    pub type_definition_provider: Option<ProviderCapability>,
    pub references_provider: Option<ProviderCapability>,
    pub document_highlight_provider: Option<ProviderCapability>,
    pub document_symbol_provider: Option<ProviderCapability>,
    pub signature_help_provider: bool,
    pub hover_provider: Option<ProviderCapability>,
    pub code_action_provider: Option<CodeActionProviderCapability>,
    pub code_lens_provider: Option<CodeLensOptions>,
    pub inlay_hint_provider: Option<InlayHintProvider>,
    pub document_on_type_formatting_provider: Option<OnTypeFormattingOptions>,
    pub linked_editing_range_provider: Option<ProviderCapability>,
    pub rename_provider: Option<RenameProvider>,
    /// The commands the server executes, where it declares any.
    pub execute_commands: Option<Vec<String>>,
}

/// A server's capabilities together with the code-action kinds its adapter
/// knows it supports.
#[derive(Debug)]
pub struct AdapterServerCapabilities {
    pub server_capabilities: ServerCapabilities,
    pub code_action_kinds: Option<Vec<String>>,
}

/// Either the parameters of a request to send, or the response to use
/// without asking the server.
pub enum LspParamsOrResponse<P, R> {
    Params(P),
    Response(R),
}

/// The parameters to send where the server supports the request, else the
/// default response.
pub fn params_or_default<P, R>(supported: bool, params: P, default: R) -> (r: LspParamsOrResponse<P, R>)
    ensures
        supported ==> r == LspParamsOrResponse::<P, R>::Params(params),
        !supported ==> r == LspParamsOrResponse::<P, R>::Response(default),
{
    if supported {
        LspParamsOrResponse::Params(params)
    } else {
        LspParamsOrResponse::Response(default)
    }
}

/// Whether a flag-or-options capability says yes.
pub open spec fn capability_enabled(c: Option<ProviderCapability>) -> bool {
    match c {
        Some(ProviderCapability::Simple(b)) => b,
        Some(ProviderCapability::Options) => true,
        None => false,
    }
}

fn enabled(c: Option<ProviderCapability>) -> (r: bool)
    ensures
        r == capability_enabled(c),
{
    match c {
        Some(ProviderCapability::Simple(b)) => b,
        Some(ProviderCapability::Options) => true,
        None => false,
    }
}

/// The go-to-definition command.
#[derive(Debug)]
pub struct GetDefinition {
    pub position: PointUtf16,
}

impl GetDefinition {
    /// Supported where the server declares any definition capability.
    pub fn check_capabilities(&self, capabilities: &AdapterServerCapabilities) -> (r: bool)
        ensures
            r == capabilities.server_capabilities.definition_provider is Some,
    {
        capabilities.server_capabilities.definition_provider.is_some()
    }
}

/// The go-to-declaration command.
#[derive(Debug)]
pub struct GetDeclaration {
    pub position: PointUtf16,
}

impl GetDeclaration {
    /// Supported where the server declares any declaration capability.
    pub fn check_capabilities(&self, capabilities: &AdapterServerCapabilities) -> (r: bool)
        ensures
            r == capabilities.server_capabilities.declaration_provider is Some,
    {
        capabilities.server_capabilities.declaration_provider.is_some()
    }
}

/// The go-to-type-definition command.
#[derive(Debug)]
pub struct GetTypeDefinition {
    pub position: PointUtf16,
}

impl GetTypeDefinition {
    /// Supported unless the capability is absent or a plain `false`.
    pub fn check_capabilities(&self, capabilities: &AdapterServerCapabilities) -> (r: bool)
        ensures
            r == capability_enabled(capabilities.server_capabilities.type_definition_provider),
    {
        enabled(capabilities.server_capabilities.type_definition_provider)
    }
}

/// The find-references command.
#[derive(Debug)]
pub struct GetReferences {
    pub position: PointUtf16,
}

impl GetReferences {
    /// Supported where the flag is set or options are given.
    pub fn check_capabilities(&self, capabilities: &AdapterServerCapabilities) -> (r: bool)
        ensures
            r == capability_enabled(capabilities.server_capabilities.references_provider),
    {
        enabled(capabilities.server_capabilities.references_provider)
    }
}

/// The document-highlights command.
#[derive(Debug)]
pub struct GetDocumentHighlights {
    pub position: PointUtf16,
}

impl GetDocumentHighlights {
    /// Supported where the server declares any highlight capability.
    pub fn check_capabilities(&self, capabilities: &AdapterServerCapabilities) -> (r: bool)
        ensures
            r == capabilities.server_capabilities.document_highlight_provider is Some,
    {
        capabilities.server_capabilities.document_highlight_provider.is_some()
    }
}

/// The document-symbols command.
#[derive(Debug)]
pub struct GetDocumentSymbols;

impl GetDocumentSymbols {
    /// Supported where the server declares any document-symbol capability.
    pub fn check_capabilities(&self, capabilities: &AdapterServerCapabilities) -> (r: bool)
        ensures
            r == capabilities.server_capabilities.document_symbol_provider is Some,
    {
        capabilities.server_capabilities.document_symbol_provider.is_some()
    }
}

/// The signature-help command.
#[derive(Debug)]
pub struct GetSignatureHelp {
    pub position: PointUtf16,
}

impl GetSignatureHelp {
    /// Supported where the server declares signature help.
    pub fn check_capabilities(&self, capabilities: &AdapterServerCapabilities) -> (r: bool)
        ensures
            r == capabilities.server_capabilities.signature_help_provider,
    {
        capabilities.server_capabilities.signature_help_provider
    }
}

/// The hover command.
#[derive(Debug)]
pub struct GetHover {
    pub position: PointUtf16,
}

impl GetHover {
    /// Supported where the flag is set or options are given.
    pub fn check_capabilities(&self, capabilities: &AdapterServerCapabilities) -> (r: bool)
        ensures
            r == capability_enabled(capabilities.server_capabilities.hover_provider),
    {
        enabled(capabilities.server_capabilities.hover_provider)
    }
}

/// The linked-editing-range command.
#[derive(Debug)]
pub struct LinkedEditingRange {
    pub position: PointUtf16,
}

impl LinkedEditingRange {
    /// Supported unless the capability is absent or a plain `false`.
    pub fn check_capabilities(&self, capabilities: &AdapterServerCapabilities) -> (r: bool)
        ensures
            r == capability_enabled(capabilities.server_capabilities.linked_editing_range_provider),
    {
        enabled(capabilities.server_capabilities.linked_editing_range_provider)
    }
}

/// The code-lens command.
#[derive(Debug, Clone, Copy)]
pub struct GetCodeLens;

impl GetCodeLens {
    /// Whether the server resolves code lenses.
    pub fn can_resolve_lens(capabilities: &ServerCapabilities) -> (r: bool)
        ensures
            r == (capabilities.code_lens_provider matches Some(o) && o.resolve_provider == Some(true)),
    {
        match capabilities.code_lens_provider {
            Some(o) => match o.resolve_provider {
                Some(b) => b,
                None => false,
            },
            None => false,
        }
    }

    /// Supported only where the server resolves code lenses.
    pub fn check_capabilities(&self, capabilities: &AdapterServerCapabilities) -> (r: bool)
        ensures
            r == (capabilities.server_capabilities.code_lens_provider matches Some(o) && o.resolve_provider
                == Some(true)),
    {
        Self::can_resolve_lens(&capabilities.server_capabilities)
    }
}

/// The inlay-hints command.
#[derive(Debug)]
pub struct InlayHints;

impl InlayHints {
    /// Whether the server resolves inlay hints: its options or registration
    /// options say so.
    pub fn can_resolve_inlays(capabilities: &ServerCapabilities) -> (r: bool)
        ensures
            r == match capabilities.inlay_hint_provider {
                Some(InlayHintProvider::Options { resolve_provider }) => resolve_provider == Some(true),
                Some(InlayHintProvider::RegistrationOptions { resolve_provider }) => resolve_provider == Some(true),
                _ => false,
            },
    {
        match capabilities.inlay_hint_provider {
            Some(InlayHintProvider::Options { resolve_provider }) => resolve_provider == Some(true),
            Some(InlayHintProvider::RegistrationOptions { resolve_provider }) => resolve_provider == Some(true),
            _ => false,
        }
    }

    /// Supported where the flag is set or plain options are given; not
    /// where only registration options are.
    pub fn check_capabilities(&self, capabilities: &AdapterServerCapabilities) -> (r: bool)
        ensures
            r == match capabilities.server_capabilities.inlay_hint_provider {
                Some(InlayHintProvider::Simple(b)) => b,
                Some(InlayHintProvider::Options { .. }) => true,
                _ => false,
            },
    {
        match capabilities.server_capabilities.inlay_hint_provider {
            Some(InlayHintProvider::Simple(b)) => b,
            Some(InlayHintProvider::Options { .. }) => true,
            _ => false,
        }
    }
}

/// Whether `t` occurs somewhere in `s`.
pub open spec fn contains_text(s: Seq<char>, t: Seq<char>) -> bool {
    exists|i: int| occurs_at(s, t, i)
}

pub(crate) fn text_contains(s: &str, t: &str) -> (r: bool)
    ensures
        r == contains_text(s@, t@),
{
    let sc = chars_of(s);
    let tc = chars_of(t);
    let n = sc.len();
    let mut i: usize = 0;
    while i < n
        invariant
            n == sc@.len(),
            sc@ == s@,
            tc@ == t@,
            i <= n,
            forall|k: int| 0 <= k < i ==> !occurs_at(s@, t@, k),
        decreases n - i,
    {
        if chars_occur_at(sc.as_slice(), tc.as_slice(), i) {
            return true;
        }
        i = i + 1;
    }
    if chars_occur_at(sc.as_slice(), tc.as_slice(), n) {
        return true;
    }
    assert forall|k: int| !occurs_at(s@, t@, k) by {
        if 0 <= k && k < n {
        }
    }
    false
}

/// Whether `t` occurs in one of the texts.
pub open spec fn any_contains(v: Seq<String>, t: Seq<char>) -> bool {
    exists|i: int| 0 <= i < v.len() && contains_text((#[trigger] v[i])@, t)
}

/// Whether typing `t` triggers formatting: it occurs in the first trigger
/// or in one of the further ones.
pub open spec fn formats_on(o: OnTypeFormattingOptions, t: Seq<char>) -> bool {
    contains_text(o.first_trigger_character@, t) || match o.more_trigger_character {
        Some(more) => any_contains(more@, t),
        None => false,
    }
}

/// Whether one of the requested kinds is supported.
pub open spec fn any_supported(requested: Seq<String>, supported: Seq<String>) -> bool {
    exists|i: int| 0 <= i < requested.len() && texts_contain(supported, (#[trigger] requested[i])@)
}

/// The format-while-typing command, for the character just typed.
#[derive(Debug)]
pub struct OnTypeFormatting {
    pub position: PointUtf16,
    pub trigger: String,
}

impl OnTypeFormatting {
    /// Supported where the typed text occurs in the first trigger or in one
    /// of the further triggers.
    pub fn check_capabilities(&self, capabilities: &AdapterServerCapabilities) -> (r: bool)
        ensures
            r == match capabilities.server_capabilities.document_on_type_formatting_provider {
                None => false,
                Some(o) => formats_on(o, self.trigger@),
            },
    {
        let options = match &capabilities.server_capabilities.document_on_type_formatting_provider {
            Some(o) => o,
            None => return false,
        };
        if text_contains(options.first_trigger_character.as_str(), self.trigger.as_str()) {
            return true;
        }
        match &options.more_trigger_character {
            Some(more) => {
                let mut i: usize = 0;
                while i < more.len()
                    invariant
                        capabilities.server_capabilities.document_on_type_formatting_provider == Some(*options),
                        options.more_trigger_character == Some(*more),
                        !contains_text(options.first_trigger_character@, self.trigger@),
                        i <= more@.len(),
                        forall|k: int| 0 <= k < i ==> !contains_text((#[trigger] more@[k])@, self.trigger@),
                    decreases more@.len() - i,
                {
                    if text_contains(more[i].as_str(), self.trigger.as_str()) {
                        assert(contains_text(more@[i as int]@, self.trigger@));
                        assert(any_contains(more@, self.trigger@));
                        return true;
                    }
                    i = i + 1;
                }
                false
            },
            None => false,
        }
    }
}

/// The code-action kinds a server supports: those its options list, else
/// those its adapter knows of.
pub open spec fn supported_kinds(capabilities: AdapterServerCapabilities) -> Option<Seq<String>> {
    match capabilities.server_capabilities.code_action_provider {
        Some(CodeActionProviderCapability::Options(o)) if o.code_action_kinds is Some => Some(
            o.code_action_kinds->0@,
        ),
        _ => match capabilities.code_action_kinds {
            Some(k) => Some(k@),
            None => None,
        },
    }
}

/// Copies a list of strings.
fn copy_strings(v: &Vec<String>) -> (r: Vec<String>)
    ensures
        r@ == v@,
{
    let mut r: Vec<String> = Vec::new();
    let mut i: usize = 0;
    while i < v.len()
        invariant
            i <= v@.len(),
            r@ == v@.subrange(0, i as int),
        decreases v@.len() - i,
    {
        r.push(v[i].clone());
        i = i + 1;
    }
    assert(v@.subrange(0, v@.len() as int) =~= v@);
    r
}

/// The texts of `requested` that occur in `supported`, in order.
pub open spec fn kinds_in(requested: Seq<String>, supported: Seq<String>) -> Seq<Seq<char>>
    decreases requested.len(),
{
    if requested.len() == 0 {
        Seq::empty()
    } else {
        kinds_in(requested.drop_last(), supported) + if texts_contain(supported, requested.last()@) {
            seq![requested.last()@]
        } else {
            Seq::empty()
        }
    }
}

/// The code-actions command, for the kinds of action asked for (all where
/// `None`).
#[derive(Debug)]
pub struct GetCodeActions {
    pub kinds: Option<Vec<String>>,
}

/// A code action or command as a server returns it: an action with its kind
/// and the command it runs, if any, or a bare command (with the kind the
/// editor gives it).
#[derive(Debug)]
#[allow(inconsistent_fields)]
pub enum CodeActionEntry {
    Action { kind: Option<String>, command: Option<String> },
    Command { command: String, kind: Option<String> },
}

/// Whether a returned action is kept: its command, if any, is one the server
/// executes, and its kind, where both it and the requested kinds are known,
/// was asked for.
pub open spec fn keeps_action(entry: CodeActionEntry, available: Seq<String>, requested: Option<Seq<String>>) -> bool {
    let command_ok = match entry {
        CodeActionEntry::Action { command, .. } => match command {
            Some(c) => texts_contain(available, c@),
            None => true,
        },
        CodeActionEntry::Command { command, .. } => texts_contain(available, command@),
    };
    let kind = match entry {
        CodeActionEntry::Action { kind, .. } => kind,
        CodeActionEntry::Command { kind, .. } => kind,
    };
    let kind_ok = match (requested, kind) {
        (Some(req), Some(k)) => texts_contain(req, k@),
        _ => true,
    };
    command_ok && kind_ok
}

/// The items of an optional list.
pub open spec fn opt_seq(o: Option<Vec<String>>) -> Option<Seq<String>> {
    match o {
        Some(v) => Some(v@),
        None => None,
    }
}

/// The positions of the kept actions among the first `n`, each with whether
/// it arrives resolved (a bare command does).
pub open spec fn kept_actions(
    entries: Seq<CodeActionEntry>,
    available: Seq<String>,
    requested: Option<Seq<String>>,
    n: int,
) -> Seq<(usize, bool)>
    decreases n,
{
    if n <= 0 {
        Seq::empty()
    } else {
        kept_actions(entries, available, requested, n - 1) + if keeps_action(entries[n - 1], available, requested) {
            seq![((n - 1) as usize, entries[n - 1] is Command)]
        } else {
            Seq::empty()
        }
    }
}

impl GetCodeActions {
    /// The code-action kinds a server supports, as `supported_kinds` describes.
    pub fn supported_code_action_kinds(capabilities: &AdapterServerCapabilities) -> (r: Option<Vec<String>>)
        ensures
            match r {
                Some(v) => supported_kinds(*capabilities) == Some(v@),
                None => supported_kinds(*capabilities) is None,
            },
    {
        match &capabilities.server_capabilities.code_action_provider {
            Some(CodeActionProviderCapability::Options(o)) => {
                if let Some(k) = &o.code_action_kinds {
                    return Some(copy_strings(k));
                }
            },
            _ => {},
        }
        match &capabilities.code_action_kinds {
            Some(k) => Some(copy_strings(k)),
            None => None,
        }
    }

    /// Whether the server resolves code actions: its options say so.
    pub fn can_resolve_actions(capabilities: &ServerCapabilities) -> (r: bool)
        ensures
            r == (capabilities.code_action_provider matches Some(CodeActionProviderCapability::Options(o))
                && o.resolve_provider == Some(true)),
    {
        match &capabilities.code_action_provider {
            Some(CodeActionProviderCapability::Options(o)) => o.resolve_provider == Some(true),
            _ => false,
        }
    }

    /// Supported unless the server declares no code actions or a plain
    /// `false`; where both the requested and the supported kinds are known,
    /// one requested kind must be supported.
    pub fn check_capabilities(&self, capabilities: &AdapterServerCapabilities) -> (r: bool)
        ensures
            r == match capabilities.server_capabilities.code_action_provider {
                None => false,
                Some(CodeActionProviderCapability::Simple(false)) => false,
                _ => match (self.kinds, supported_kinds(*capabilities)) {
                    (Some(req), Some(sup)) => any_supported(req@, sup),
                    _ => true,
                },
            },
    {
        match &capabilities.server_capabilities.code_action_provider {
            None => return false,
            Some(CodeActionProviderCapability::Simple(false)) => return false,
            _ => {},
        }
        let supported = Self::supported_code_action_kinds(capabilities);
        match (&self.kinds, &supported) {
            (Some(req), Some(sup)) => {
                let mut i: usize = 0;
                while i < req.len()
                    invariant
                        self.kinds == Some(*req),
                        supported_kinds(*capabilities) == Some(sup@),
                        !(capabilities.server_capabilities.code_action_provider is None),
                        !(capabilities.server_capabilities.code_action_provider matches Some(CodeActionProviderCapability::Simple(false))),
                        i <= req@.len(),
                        forall|k: int| 0 <= k < i ==> !texts_contain(sup@, (#[trigger] req@[k])@),
                    decreases req@.len() - i,
                {
                    if strings_contain(sup, req[i].as_str()) {
                        assert(texts_contain(sup@, req@[i as int]@));
                        assert(any_supported(req@, sup@));
                        return true;
                    }
                    i = i + 1;
                }
                false
            },
            _ => true,
        }
    }

    /// The kinds to ask the server for: the requested kinds it supports
    /// where both are known, the requested kinds where only they are, else
    /// the supported kinds.
    pub fn only_kinds(&self, capabilities: &AdapterServerCapabilities) -> (r: Option<Vec<String>>)
        ensures
            match self.kinds {
                Some(req) => match supported_kinds(*capabilities) {
                    Some(sup) => r matches Some(v) && strings_view(v@) == kinds_in(req@, sup),
                    None => r matches Some(v) && v@ == req@,
                },
                None => match r {
                    Some(v) => supported_kinds(*capabilities) == Some(v@),
                    None => supported_kinds(*capabilities) is None,
                },
            },
    {
        let supported = Self::supported_code_action_kinds(capabilities);
        match &self.kinds {
            Some(req) => match &supported {
                Some(sup) => {
                    let mut out: Vec<String> = Vec::new();
                    let mut i: usize = 0;
                    while i < req.len()
                        invariant
                            i <= req@.len(),
                            strings_view(out@) == kinds_in(req@.subrange(0, i as int), sup@),
                        decreases req@.len() - i,
                    {
                        assert(req@.subrange(0, i + 1).drop_last() =~= req@.subrange(0, i as int));
                        let ghost before = strings_view(out@);
                        if strings_contain(sup, req[i].as_str()) {
                            out.push(req[i].clone());
                            assert(strings_view(out@) =~= before.push(req@[i as int]@));
                        }
                        i = i + 1;
                    }
                    assert(req@.subrange(0, req@.len() as int) =~= req@);
                    Some(out)
                },
                None => Some(copy_strings(req)),
            },
            None => supported,
        }
    }

    /// The actions of a response that are kept, as `keeps_action`
    /// describes, by position and with whether each arrives resolved.
    pub fn kept_code_actions(&self, actions: &Vec<CodeActionEntry>, capabilities: &ServerCapabilities) -> (r: Vec<(usize, bool)>)
        ensures
            r@ == kept_actions(
                actions@,
                match capabilities.execute_commands {
                    Some(c) => c@,
                    None => Seq::empty(),
                },
                opt_seq(self.kinds),
                actions@.len() as int,
            ),
    {
        let empty: Vec<String> = Vec::new();
        let available = match &capabilities.execute_commands {
            Some(c) => c,
            None => &empty,
        };
        let ghost requested = opt_seq(self.kinds);
        let mut out: Vec<(usize, bool)> = Vec::new();
        let mut i: usize = 0;
        while i < actions.len()
            invariant
                i <= actions@.len(),
                requested == opt_seq(self.kinds),
                out@ == kept_actions(actions@, available@, requested, i as int),
            decreases actions@.len() - i,
        {
            let entry = &actions[i];
            let command_ok = match entry {
                CodeActionEntry::Action { command, .. } => match command {
                    Some(c) => strings_contain(available, c.as_str()),
                    None => true,
                },
                CodeActionEntry::Command { command, .. } => strings_contain(available, command.as_str()),
            };
            let kind = match entry {
                CodeActionEntry::Action { kind, .. } => kind,
                CodeActionEntry::Command { kind, .. } => kind,
            };
            let kind_ok = match (&self.kinds, kind) {
                (Some(req), Some(k)) => strings_contain(req, k.as_str()),
                _ => true,
            };
            if command_ok && kind_ok {
                let resolved = matches!(entry, CodeActionEntry::Command { .. });
                out.push((i, resolved));
            }
            i = i + 1;
        }
        out
    }
}

/// What preparing a rename does.
#[derive(Debug, Clone, Copy, PartialEq, Eq, Structural)]
pub enum PrepareRenameStep {
    /// Ask the server to prepare the rename.
    SendRequest,
    /// The server renames without preparing: answer at once.
    OnlyUnpreparedRenameSupported,
}

/// Why a rename cannot be prepared.
#[derive(Debug, Clone, Copy, PartialEq, Eq, Structural)]
pub enum RenameError {
    RenameNotSupported,
}

/// The prepare-rename command.
#[derive(Debug)]
pub struct PrepareRename {
    pub position: PointUtf16,
}

impl PrepareRename {
    /// Asks the server where it prepares renames; answers that only plain
    /// renames work where it renames without preparing; fails where it does
    /// not rename at all.
    pub fn to_lsp_params_or_response(&self, capabilities: &AdapterServerCapabilities) -> (r: Result<PrepareRenameStep, RenameError>)
        ensures
            r == match capabilities.server_capabilities.rename_provider {
                Some(RenameProvider::Options { prepare_provider: Some(true) }) => Ok(PrepareRenameStep::SendRequest),
                Some(RenameProvider::Options { .. }) => Ok(PrepareRenameStep::OnlyUnpreparedRenameSupported),
                Some(RenameProvider::Simple(true)) => Ok(PrepareRenameStep::OnlyUnpreparedRenameSupported),
                _ => Err::<PrepareRenameStep, RenameError>(RenameError::RenameNotSupported),
            },
    {
        match capabilities.server_capabilities.rename_provider {
            Some(RenameProvider::Options { prepare_provider: Some(true) }) => Ok(PrepareRenameStep::SendRequest),
            Some(RenameProvider::Options { .. }) => Ok(PrepareRenameStep::OnlyUnpreparedRenameSupported),
            Some(RenameProvider::Simple(true)) => Ok(PrepareRenameStep::OnlyUnpreparedRenameSupported),
            _ => Err(RenameError::RenameNotSupported),
        }
    }
}

/// The editor's formatting settings that a formatting request carries.
#[derive(Debug, Clone, Copy)]
pub struct FormattingSettings {
    pub tab_size: u32,
    pub hard_tabs: bool,
    pub remove_trailing_whitespace_on_save: bool,
    pub ensure_final_newline_on_save: bool,
}

/// The formatting options of a request.
#[derive(Debug, Clone, Copy, PartialEq, Eq, Structural)]
pub struct FormattingOptions {
    pub tab_size: u32,
    pub insert_spaces: bool,
    pub trim_trailing_whitespace: Option<bool>,
    pub trim_final_newlines: Option<bool>,
    pub insert_final_newline: Option<bool>,
}

/// The formatting options for the given settings: spaces unless hard tabs,
/// trailing whitespace trimmed as on save, and a final newline ensured (with
/// extra final newlines trimmed) as on save.
pub fn lsp_formatting_options(settings: &FormattingSettings) -> (r: FormattingOptions)
    ensures
        r == (FormattingOptions {
            tab_size: settings.tab_size,
            insert_spaces: !settings.hard_tabs,
            trim_trailing_whitespace: Some(settings.remove_trailing_whitespace_on_save),
            trim_final_newlines: Some(settings.ensure_final_newline_on_save),
            insert_final_newline: Some(settings.ensure_final_newline_on_save),
        }),
{
    FormattingOptions {
        tab_size: settings.tab_size,
        insert_spaces: !settings.hard_tabs,
        trim_trailing_whitespace: Some(settings.remove_trailing_whitespace_on_save),
        trim_final_newlines: Some(settings.ensure_final_newline_on_save),
        insert_final_newline: Some(settings.ensure_final_newline_on_save),
    }
}

/// A range between two positions.
#[derive(Debug, Clone, Copy, PartialEq, Eq, Structural)]
pub struct PointRange {
    pub start: PointUtf16,
    pub end: PointUtf16,
}

/// A completion's text edit as the server sends it: one range, or separate
/// ranges for inserting and for replacing.
#[derive(Debug)]
pub enum CompletionTextEdit {
    Edit { range: PointRange, new_text: String },
    InsertAndReplace { insert: PointRange, replace: PointRange, new_text: String },
}

/// The edit a completion makes in the buffer.
#[derive(Debug)]
pub struct ParsedCompletionEdit {
    pub replace_range: PointRange,
    pub insert_range: Option<PointRange>,
    pub new_text: String,
}

/// Whether a range lies on valid positions: each end is where the buffer
/// clips it to.
pub open spec fn range_valid(range: PointRange, clipped: PointRange) -> bool {
    clipped == range
}

/// A completion edit, kept only where its ranges are valid positions of the
/// buffer; `clipped_replace` and `clipped_insert` are where the buffer clips
/// the ends of the replace and insert ranges to.
pub fn parse_completion_text_edit(
    edit: &CompletionTextEdit,
    clipped_replace: PointRange,
    clipped_insert: PointRange,
) -> (r: Option<ParsedCompletionEdit>)
    ensures
        match *edit {
            CompletionTextEdit::Edit { range, new_text } => if range_valid(range, clipped_replace) {
                r matches Some(p) && p.replace_range == range && p.insert_range is None && p.new_text@ == new_text@
            } else {
                r is None
            },
            CompletionTextEdit::InsertAndReplace { insert, replace, new_text } => if range_valid(replace, clipped_replace)
                && range_valid(insert, clipped_insert) {
                r matches Some(p) && p.replace_range == replace && p.insert_range == Some(insert) && p.new_text@
                    == new_text@
            } else {
                r is None
            },
        },
{
    match edit {
        CompletionTextEdit::Edit { range, new_text } => {
            if clipped_replace != *range {
                return None;
            }
            Some(ParsedCompletionEdit { replace_range: *range, insert_range: None, new_text: new_text.clone() })
        },
        CompletionTextEdit::InsertAndReplace { insert, replace, new_text } => {
            if clipped_replace != *replace {
                return None;
            }
            if clipped_insert != *insert {
                return None;
            }
            Some(ParsedCompletionEdit {
                replace_range: *replace,
                insert_range: Some(*insert),
                new_text: new_text.clone(),
            })
        },
    }
}

/// Where a completion without an edit of its own applies: at the request
/// position, where the buffer does not clip it elsewhere, replacing the word
/// around it (`token_range`) with its insert text, or with its label where it
/// has none.  A completion with an edit applies as `parse_completion_text_edit`
/// says.
pub fn completion_edit(
    text_edit: Option<&CompletionTextEdit>,
    clipped_replace: PointRange,
    clipped_insert: PointRange,
    position: PointUtf16,
    clipped_position: PointUtf16,
    token_range: PointRange,
    insert_text: Option<&str>,
    label: &str,
) -> (r: Option<ParsedCompletionEdit>)
    ensures
        match text_edit {
            Some(e) => match *e {
                CompletionTextEdit::Edit { range, new_text } => if range_valid(range, clipped_replace) {
                    r matches Some(p) && p.replace_range == range && p.insert_range is None && p.new_text@ == new_text@
                } else {
                    r is None
                },
                CompletionTextEdit::InsertAndReplace { insert, replace, new_text } => if range_valid(
                    replace,
                    clipped_replace,
                ) && range_valid(insert, clipped_insert) {
                    r matches Some(p) && p.replace_range == replace && p.insert_range == Some(insert) && p.new_text@
                        == new_text@
                } else {
                    r is None
                },
            },
            None => if position != clipped_position {
                r is None
            } else {
                r matches Some(p) && p.replace_range == token_range && p.insert_range is None && p.new_text@ == (
                match insert_text {
                    Some(t) => t@,
                    None => label@,
                })
            },
        },
{
    match text_edit {
        Some(e) => parse_completion_text_edit(e, clipped_replace, clipped_insert),
        None => {
            if position != clipped_position {
                return None;
            }
            let text = match insert_text {
                Some(t) => owned(t),
                None => owned(label),
            };
            Some(ParsedCompletionEdit { replace_range: token_range, insert_range: None, new_text: text })
        },
    }
}

/// The edit `completion_edit` gives, as plain values: the replace range,
/// the insert range and the new text.
pub open spec fn completion_edit_of(
    text_edit: Option<CompletionTextEdit>,
    clipped_replace: PointRange,
    clipped_insert: PointRange,
    position: PointUtf16,
    clipped_position: PointUtf16,
    token_range: PointRange,
    insert_text: Option<Seq<char>>,
    label: Seq<char>,
) -> Option<(PointRange, Option<PointRange>, Seq<char>)> {
    match text_edit {
        Some(CompletionTextEdit::Edit { range, new_text }) => if range_valid(range, clipped_replace) {
            Some((range, None, new_text@))
        } else {
            None
        },
        Some(CompletionTextEdit::InsertAndReplace { insert, replace, new_text }) => if range_valid(replace, clipped_replace)
            && range_valid(insert, clipped_insert) {
            Some((replace, Some(insert), new_text@))
        } else {
            None
        },
        None => if position != clipped_position {
            None
        } else {
            Some((token_range, None, match insert_text {
                Some(t) => t,
                None => label,
            }))
        },
    }
}

/// A completion item of a server's response, with where the buffer clips
/// the ends of its edit's replace and insert ranges.
#[derive(Debug)]
pub struct LspCompletionItem {
    pub label: String,
    pub insert_text: Option<String>,
    pub text_edit: Option<CompletionTextEdit>,
    pub clipped_replace: PointRange,
    pub clipped_insert: PointRange,
}

/// A completion offered to the editor: which item of the response it came
/// from, its ranges and text, and whether it was resolved.
#[derive(Debug)]
pub struct CoreCompletion {
    pub item: usize,
    pub replace_range: PointRange,
    pub insert_range: Option<PointRange>,
    pub new_text: String,
    pub resolved: bool,
}

/// The edit of one item of a response.
pub open spec fn item_edit(
    item: LspCompletionItem,
    position: PointUtf16,
    clipped_position: PointUtf16,
    token_range: PointRange,
) -> Option<(PointRange, Option<PointRange>, Seq<char>)> {
    completion_edit_of(
        item.text_edit,
        item.clipped_replace,
        item.clipped_insert,
        position,
        clipped_position,
        token_range,
        opt_view(item.insert_text),
        item.label@,
    )
}

/// The completions of a response's items, in their order: each item whose
/// edit is valid, with that edit and its text's line endings normalized.
pub open spec fn completions_of(
    items: Seq<LspCompletionItem>,
    position: PointUtf16,
    clipped_position: PointUtf16,
    token_range: PointRange,
) -> Seq<(int, PointRange, Option<PointRange>, Seq<char>)>
    decreases items.len(),
{
    if items.len() == 0 {
        Seq::empty()
    } else {
        let before = completions_of(items.drop_last(), position, clipped_position, token_range);
        match item_edit(items.last(), position, clipped_position, token_range) {
            Some((replace, insert, text)) => before.push(
                (items.len() - 1, replace, insert, normalized_line_endings(text)),
            ),
            None => before,
        }
    }
}

/// A completion as plain values.
pub open spec fn core_completion_view(c: CoreCompletion) -> (int, PointRange, Option<PointRange>, Seq<char>) {
    (c.item as int, c.replace_range, c.insert_range, c.new_text@)
}

/// The completions of a response: the items in order, without those whose
/// edit lies off the buffer's valid positions (or, without an edit, whose
/// request position does), each with its text's line endings normalized and
/// not resolved yet.
pub fn completions_from_lsp(
    items: &Vec<LspCompletionItem>,
    position: PointUtf16,
    clipped_position: PointUtf16,
    token_range: PointRange,
) -> (r: Vec<CoreCompletion>)
    ensures
        r@.map_values(|c: CoreCompletion| core_completion_view(c)) == completions_of(
            items@,
            position,
            clipped_position,
            token_range,
        ),
        forall|k: int| 0 <= k < r@.len() ==> !(#[trigger] r@[k]).resolved && free_of(r@[k].new_text@, '\r'),
{
    let mut out: Vec<CoreCompletion> = Vec::new();
    let mut i: usize = 0;
    while i < items.len()
        invariant
            i <= items@.len(),
            out@.map_values(|c: CoreCompletion| core_completion_view(c)) == completions_of(
                items@.subrange(0, i as int),
                position,
                clipped_position,
                token_range,
            ),
            forall|k: int| 0 <= k < out@.len() ==> !(#[trigger] out@[k]).resolved && free_of(out@[k].new_text@, '\r'),
        decreases items@.len() - i,
    {
        let item = &items[i];
        let insert_text = match &item.insert_text {
            Some(t) => Some(t.as_str()),
            None => None,
        };
        let edit = completion_edit(
            item.text_edit.as_ref(),
            item.clipped_replace,
            item.clipped_insert,
            position,
            clipped_position,
            token_range,
            insert_text,
            item.label.as_str(),
        );
        let ghost pre = items@.subrange(0, i as int);
        let ghost next = items@.subrange(0, i + 1);
        assert(next.drop_last() =~= pre);
        assert(next.last() == items@[i as int]);
        let ghost before = out@.map_values(|c: CoreCompletion| core_completion_view(c));
        match edit {
            Some(p) => {
                let text = normalize_line_endings(p.new_text.as_str());
                proof {
                    lemma_normalized_line_endings(p.new_text@);
                }
                let c = CoreCompletion {
                    item: i,
                    replace_range: p.replace_range,
                    insert_range: p.insert_range,
                    new_text: text,
                    resolved: false,
                };
                out.push(c);
                assert(out@.map_values(|c: CoreCompletion| core_completion_view(c)) =~= before.push(
                    core_completion_view(c),
                ));
            },
            None => {},
        }
        i = i + 1;
    }
    assert(items@.subrange(0, items@.len() as int) =~= items@);
    out
}

/// A piece of hover text as a server sends it: markdown, or code in a
/// language.
#[derive(Debug)]
pub enum MarkedString {
    Text(String),
    LanguageString { language: String, value: String },
}

/// The format of markup content.
#[derive(Debug, Clone, Copy, PartialEq, Eq, Structural)]
pub enum MarkupKind {
    PlainText,
    Markdown,
}

/// The contents of a hover response.
#[derive(Debug)]
pub enum HoverContents {
    Scalar(MarkedString),
    Array(Vec<MarkedString>),
    Markup { kind: MarkupKind, value: String },
}

/// How a hover block is shown.
#[derive(Debug)]
pub enum HoverBlockKind {
    PlainText,
    Markdown,
    Code { language: String },
}

/// A block of hover text.
#[derive(Debug)]
pub struct HoverBlock {
    pub text: String,
    pub kind: HoverBlockKind,
}

/// A hover block kind as a plain value: the language for code.
pub enum HoverKindView {
    PlainText,
    Markdown,
    Code(Seq<char>),
}

/// A hover block as plain values.
pub open spec fn hover_block_view(b: HoverBlock) -> (Seq<char>, HoverKindView) {
    (b.text@, match b.kind {
        HoverBlockKind::PlainText => HoverKindView::PlainText,
        HoverBlockKind::Markdown => HoverKindView::Markdown,
        HoverBlockKind::Code { language } => HoverKindView::Code(language@),
    })
}

/// Hover blocks as plain values.
pub open spec fn hover_blocks_view(v: Seq<HoverBlock>) -> Seq<(Seq<char>, HoverKindView)> {
    v.map_values(|b: HoverBlock| hover_block_view(b))
}

/// The block of a marked string: markdown for text, code for a language
/// string; none where its text is empty.
pub open spec fn marked_block(m: MarkedString) -> Option<(Seq<char>, HoverKindView)> {
    let (text, kind) = match m {
        MarkedString::Text(t) => (t@, HoverKindView::Markdown),
        MarkedString::LanguageString { language, value } => (value@, HoverKindView::Code(language@)),
    };
    if text.len() == 0 {
        None
    } else {
        Some((text, kind))
    }
}

/// The blocks of a list of marked strings, the empty ones left out.
pub open spec fn marked_blocks(ms: Seq<MarkedString>) -> Seq<(Seq<char>, HoverKindView)>
    decreases ms.len(),
{
    if ms.len() == 0 {
        Seq::empty()
    } else {
        let r = marked_blocks(ms.drop_last());
        match marked_block(ms.last()) {
            Some(b) => r.push(b),
            None => r,
        }
    }
}

/// The blocks of hover contents: those of the marked strings, or the markup
/// as one block, markdown where it says so and plain text otherwise.
pub open spec fn hover_contents_blocks(c: HoverContents) -> Seq<(Seq<char>, HoverKindView)> {
    match c {
        HoverContents::Scalar(m) => match marked_block(m) {
            Some(b) => seq![b],
            None => Seq::empty(),
        },
        HoverContents::Array(ms) => marked_blocks(ms@),
        HoverContents::Markup { kind, value } => seq![
            (value@, if kind == MarkupKind::Markdown {
                HoverKindView::Markdown
            } else {
                HoverKindView::PlainText
            }),
        ],
    }
}

fn block_of_marked(m: &MarkedString) -> (r: Option<HoverBlock>)
    ensures
        match r {
            Some(b) => marked_block(*m) == Some(hover_block_view(b)),
            None => marked_block(*m) is None,
        },
{
    match m {
        MarkedString::Text(t) => {
            if t.as_str().unicode_len() == 0 {
                None
            } else {
                Some(HoverBlock { text: owned(t.as_str()), kind: HoverBlockKind::Markdown })
            }
        },
        MarkedString::LanguageString { language, value } => {
            if value.as_str().unicode_len() == 0 {
                None
            } else {
                Some(HoverBlock { text: owned(value.as_str()), kind: HoverBlockKind::Code { language: owned(language.as_str()) } })
            }
        },
    }
}

/// The hover blocks of a hover response's contents.
pub fn hover_blocks(contents: &HoverContents) -> (r: Vec<HoverBlock>)
    ensures
        hover_blocks_view(r@) == hover_contents_blocks(*contents),
{
    let mut out: Vec<HoverBlock> = Vec::new();
    match contents {
        HoverContents::Scalar(m) => {
            match block_of_marked(m) {
                Some(b) => {
                    out.push(b);
                    assert(hover_blocks_view(out@) =~= seq![hover_block_view(b)]);
                },
                None => {
                    assert(hover_blocks_view(out@) =~= Seq::<(Seq<char>, HoverKindView)>::empty());
                },
            }
        },
        HoverContents::Array(ms) => {
            let mut i: usize = 0;
            while i < ms.len()
                invariant
                    i <= ms@.len(),
                    hover_blocks_view(out@) == marked_blocks(ms@.take(i as int)),
                decreases ms@.len() - i,
            {
                proof {
                    assert(ms@.take(i + 1).drop_last() =~= ms@.take(i as int));
                }
                match block_of_marked(&ms[i]) {
                    Some(b) => {
                        let ghost before = out@;
                        out.push(b);
                        assert(hover_blocks_view(out@) =~= hover_blocks_view(before).push(hover_block_view(b)));
                    },
                    None => {},
                }
                i = i + 1;
            }
            assert(ms@.take(ms@.len() as int) =~= ms@);
        },
        HoverContents::Markup { kind, value } => {
            let k = if *kind == MarkupKind::Markdown {
                HoverBlockKind::Markdown
            } else {
                HoverBlockKind::PlainText
            };
            let b = HoverBlock { text: owned(value.as_str()), kind: k };
            out.push(b);
            assert(hover_blocks_view(out@) =~= seq![hover_block_view(b)]);
        },
    }
    out
}

/// A location in a document, as a server sends it.
#[derive(Debug)]
pub struct LspLocation {
    pub uri: String,
    pub range: PointRange,
}

/// A link from a range of the origin document to a range of a target.
#[derive(Debug)]
pub struct LspLocationLink {
    pub origin_selection_range: Option<PointRange>,
    pub target_uri: String,
    pub target_selection_range: PointRange,
}

/// A definition response: one location, several, or links.
#[derive(Debug)]
pub enum GotoDefinitionResponse {
    Scalar(LspLocation),
    Array(Vec<LspLocation>),
    Link(Vec<LspLocationLink>),
}

/// A link still to be resolved against buffers: origin range, target
/// document and target range.
pub open spec fn link_view(l: (Option<PointRange>, String, PointRange)) -> (Option<PointRange>, Seq<char>, PointRange) {
    (l.0, l.1@, l.2)
}

/// The links of a definition response, in order: a location is a link with
/// no origin range.
pub open spec fn response_links(r: Option<GotoDefinitionResponse>) -> Seq<(Option<PointRange>, Seq<char>, PointRange)> {
    match r {
        None => Seq::empty(),
        Some(GotoDefinitionResponse::Scalar(l)) => seq![(None, l.uri@, l.range)],
        Some(GotoDefinitionResponse::Array(ls)) => ls@.map_values(|l: LspLocation| (None, l.uri@, l.range)),
        Some(GotoDefinitionResponse::Link(ls)) => ls@.map_values(
            |l: LspLocationLink| (l.origin_selection_range, l.target_uri@, l.target_selection_range),
        ),
    }
}

/// The links of a definition response, as `response_links` says.
pub fn unresolved_links(message: &Option<GotoDefinitionResponse>) -> (r: Vec<(Option<PointRange>, String, PointRange)>)
    ensures
        r@.map_values(|l: (Option<PointRange>, String, PointRange)| link_view(l)) == response_links(*message),
{
    let mut out: Vec<(Option<PointRange>, String, PointRange)> = Vec::new();
    match message {
        None => {},
        Some(GotoDefinitionResponse::Scalar(l)) => {
            out.push((None, owned(l.uri.as_str()), l.range));
        },
        Some(GotoDefinitionResponse::Array(ls)) => {
            let mut i: usize = 0;
            while i < ls.len()
                invariant
                    i <= ls@.len(),
                    out@.len() == i,
                    forall|k: int| 0 <= k < i ==> link_view(#[trigger] out@[k]) == (None::<PointRange>, ls@[k].uri@, ls@[k].range),
                decreases ls@.len() - i,
            {
                out.push((None, owned(ls[i].uri.as_str()), ls[i].range));
                i = i + 1;
            }
        },
        Some(GotoDefinitionResponse::Link(ls)) => {
            let mut i: usize = 0;
            while i < ls.len()
                invariant
                    i <= ls@.len(),
                    out@.len() == i,
                    forall|k: int| 0 <= k < i ==> link_view(#[trigger] out@[k]) == (
                        ls@[k].origin_selection_range,
                        ls@[k].target_uri@,
                        ls@[k].target_selection_range,
                    ),
                decreases ls@.len() - i,
            {
                out.push((ls[i].origin_selection_range, owned(ls[i].target_uri.as_str()), ls[i].target_selection_range));
                i = i + 1;
            }
        },
    }
    assert(out@.map_values(|l: (Option<PointRange>, String, PointRange)| link_view(l)) =~= response_links(*message));
    out
}

/// The kind of an inlay hint.
#[derive(Debug, Clone, Copy, PartialEq, Eq, Structural)]
pub enum InlayHintKind {
    Type,
    Parameter,
}

/// The protocol's number for a hint kind.
pub open spec fn hint_kind_code(kind: InlayHintKind) -> u32 {
    match kind {
        InlayHintKind::Type => 1,
        InlayHintKind::Parameter => 2,
    }
}

/// The kind a protocol hint kind number stands for: 1 a type hint, 2 a
/// parameter hint, any other none.
pub fn inlay_hint_kind_from_lsp(code: Option<u32>) -> (r: Option<InlayHintKind>)
    ensures
        r == match code {
            Some(1) => Some(InlayHintKind::Type),
            Some(2) => Some(InlayHintKind::Parameter),
            _ => None::<InlayHintKind>,
        },
{
    match code {
        Some(1) => Some(InlayHintKind::Type),
        Some(2) => Some(InlayHintKind::Parameter),
        _ => None,
    }
}

/// The protocol number of a hint kind.
pub fn inlay_hint_kind_to_lsp(kind: Option<InlayHintKind>) -> (r: Option<u32>)
    ensures
        r == match kind {
            Some(k) => Some(hint_kind_code(k)),
            None => None::<u32>,
        },
{
    match kind {
        Some(InlayHintKind::Type) => Some(1),
        Some(InlayHintKind::Parameter) => Some(2),
        None => None,
    }
}

/// A hint kind survives the trip to the protocol and back.
pub proof fn lemma_hint_kind_round_trip(kind: Option<InlayHintKind>)
    ensures
        (match (match kind {
            Some(k) => Some(hint_kind_code(k)),
            None => None::<u32>,
        }) {
            Some(1) => Some(InlayHintKind::Type),
            Some(2) => Some(InlayHintKind::Parameter),
            _ => None::<InlayHintKind>,
        }) == kind,
{
}

/// Where an inlay hint sits and how it is padded.
#[derive(Debug, Clone, Copy, PartialEq, Eq, Structural)]
pub struct InlayHintLayout {
    /// Whether the hint sticks to the text before its position (parameter
    /// hints do), rather than to the text after it.
    pub anchor_before: bool,
    pub padding_left: bool,
    pub padding_right: bool,
}

/// The layout of a hint from the server: a parameter hint sticks to the text
/// before it; padding is what the server asks for (none where it says
/// nothing), except that type hints get no left padding where that is
/// forced.
pub fn inlay_hint_layout(
    kind: Option<InlayHintKind>,
    padding_left: Option<bool>,
    padding_right: Option<bool>,
    force_no_type_left_padding: bool,
) -> (r: InlayHintLayout)
    ensures
        r == (InlayHintLayout {
            anchor_before: kind == Some(InlayHintKind::Parameter),
            padding_left: if force_no_type_left_padding && kind == Some(InlayHintKind::Type) {
                false
            } else {
                padding_left == Some(true)
            },
            padding_right: padding_right == Some(true),
        }),
{
    let left = if force_no_type_left_padding && kind == Some(InlayHintKind::Type) {
        false
    } else {
        match padding_left {
            Some(b) => b,
            None => false,
        }
    };
    let right = match padding_right {
        Some(b) => b,
        None => false,
    };
    InlayHintLayout { anchor_before: kind == Some(InlayHintKind::Parameter), padding_left: left, padding_right: right }
}

/// The protocol's markup kind of a tooltip: none for a code block, whose
/// tooltip is then left out.
pub fn tooltip_markup_kind(kind: &HoverBlockKind) -> (r: Option<MarkupKind>)
    ensures
        r == match *kind {
            HoverBlockKind::PlainText => Some(MarkupKind::PlainText),
            HoverBlockKind::Markdown => Some(MarkupKind::Markdown),
            HoverBlockKind::Code { .. } => None::<MarkupKind>,
        },
{
    match kind {
        HoverBlockKind::PlainText => Some(MarkupKind::PlainText),
        HoverBlockKind::Markdown => Some(MarkupKind::Markdown),
        HoverBlockKind::Code { .. } => None,
    }
}

/// Whether a code lens is kept: it runs no command, or one the server
/// executes.
pub open spec fn keeps_lens(command: Option<String>, available: Seq<String>) -> bool {
    match command {
        Some(c) => texts_contain(available, c@),
        None => true,
    }
}

/// The positions, among the first `n`, of the kept code lenses.
pub open spec fn kept_lenses(commands: Seq<Option<String>>, available: Seq<String>, n: int) -> Seq<usize>
    decreases n,
{
    if n <= 0 {
        Seq::empty()
    } else {
        kept_lenses(commands, available, n - 1) + if keeps_lens(commands[n - 1], available) {
            seq![(n - 1) as usize]
        } else {
            Seq::empty()
        }
    }
}

impl GetCodeLens {
    /// The positions of the code lenses of a response that are kept, given
    /// the command each one runs.
    pub fn kept_code_lenses(commands: &Vec<Option<String>>, capabilities: &ServerCapabilities) -> (r: Vec<usize>)
        ensures
            r@ == kept_lenses(
                commands@,
                match capabilities.execute_commands {
                    Some(c) => c@,
                    None => Seq::empty(),
                },
                commands@.len() as int,
            ),
    {
        let empty: Vec<String> = Vec::new();
        let available = match &capabilities.execute_commands {
            Some(c) => c,
            None => &empty,
        };
        let mut out: Vec<usize> = Vec::new();
        let mut i: usize = 0;
        while i < commands.len()
            invariant
                i <= commands@.len(),
                available@ == match capabilities.execute_commands {
                    Some(c) => c@,
                    None => Seq::<String>::empty(),
                },
                out@ == kept_lenses(commands@, available@, i as int),
            decreases commands@.len() - i,
        {
            let keep = match &commands[i] {
                Some(c) => strings_contain(available, c.as_str()),
                None => true,
            };
            if keep {
                out.push(i);
            }
            i = i + 1;
        }
        out
    }
}

} // verus!
