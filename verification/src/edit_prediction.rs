//! Which edit-prediction provider an editor gets.
use vstd::prelude::*;

verus! {

/// The edit-prediction provider chosen in the settings.
#[derive(Debug, Clone, Copy, PartialEq, Eq, Structural)]
pub enum EditPredictionProvider {
    NoProvider,
    Copilot,
    Supermaven,
}

/// What assigning a provider does to an editor.
#[derive(Debug, Clone, Copy, PartialEq, Eq, Structural)]
pub enum ProviderAssignment {
    /// Remove the editor's provider.
    Clear,
    /// Give the editor Copilot, first registering its buffer with Copilot
    /// where it edits one file.
    Copilot { register_buffer: bool },
    /// Give the editor Supermaven.
    Supermaven,
    /// Leave the editor as it is: the chosen provider is not running.
    Unchanged,
}

/// What assigning the provider does: no provider clears the editor's;
/// Copilot or Supermaven is set where it runs, and Copilot first learns of
/// the editor's buffer where the editor edits a single file.
pub fn assign_edit_prediction_provider(
    provider: EditPredictionProvider,
    copilot_running: bool,
    supermaven_running: bool,
    singleton_buffer_has_file: bool,
) -> (r: ProviderAssignment)
    ensures
        r == match provider {
            EditPredictionProvider::NoProvider => ProviderAssignment::Clear,
            EditPredictionProvider::Copilot => if copilot_running {
                ProviderAssignment::Copilot { register_buffer: singleton_buffer_has_file }
            } else {
                ProviderAssignment::Unchanged
            },
            EditPredictionProvider::Supermaven => if supermaven_running {
                ProviderAssignment::Supermaven
            } else {
                ProviderAssignment::Unchanged
            },
        },
{
    match provider {
        EditPredictionProvider::NoProvider => ProviderAssignment::Clear,
        EditPredictionProvider::Copilot => if copilot_running {
            ProviderAssignment::Copilot { register_buffer: singleton_buffer_has_file }
        } else {
            ProviderAssignment::Unchanged
        },
        EditPredictionProvider::Supermaven => if supermaven_running {
            ProviderAssignment::Supermaven
        } else {
            ProviderAssignment::Unchanged
        },
    }
}

/// The provider the editors are kept on across settings changes: a change
/// of the chosen provider is applied to every editor, anything else is not.
pub struct ProviderTracker {
    pub provider: EditPredictionProvider,
}

impl ProviderTracker {
    /// Tracks the provider chosen now.
    pub fn new(provider: EditPredictionProvider) -> (r: ProviderTracker)
        ensures
            r.provider == provider,
    {
        ProviderTracker { provider }
    }

    /// Takes in the provider after a settings change; returns whether it
    /// changed, and so is to be assigned to every editor.
    pub fn settings_changed(&mut self, new_provider: EditPredictionProvider) -> (changed: bool)
        ensures
            changed == (new_provider != old(self).provider),
            final(self).provider == new_provider,
    {
        if new_provider != self.provider {
            self.provider = new_provider;
            true
        } else {
            false
        }
    }
}

/// Whether a new editor takes part in edit predictions: a full editor in a
/// window does.
pub fn registers_for_predictions(is_full_mode: bool, has_window: bool) -> (r: bool)
    ensures
        r == (is_full_mode && has_window),
{
    is_full_mode && has_window
}

} // verus!
