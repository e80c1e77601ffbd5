//! Decisions of the transcription-model commands: when a model may become
//! the active one, how the persisted selection changes (and is restored
//! after a failed load), and what the frontend is told.

use vstd::prelude::*;
use crate::text;

verus! {

broadcast use vstd::string::group_string_axioms;

/// The persisted settings these commands read and write.
#[derive(Debug)]
pub struct ModelSettings {
    pub selected_model: String,
    pub onboarding_completed: bool,
}

/// Event sent to the frontend when the model state changes.
#[derive(Debug)]
pub struct ModelStateEvent {
    pub event_type: String,
    pub model_id: Option<String>,
    pub model_name: Option<String>,
    pub error: Option<String>,
}

/// Error when another model load holds the loading slot.
pub fn load_in_progress_error() -> (r: String)
    ensures
        r@ == "Model load already in progress"@,
{
    "Model load already in progress".to_owned()
}

/// Checks that a model is known (`downloaded` is `None` otherwise) and
/// downloaded before it becomes the active one.
pub fn check_model_available(model_id: &str, downloaded: Option<bool>) -> (r: Result<(), String>)
    ensures
        match downloaded {
            None => r matches Err(e) && e@ == "Model not found: "@ + model_id@,
            Some(false) => r matches Err(e) && e@ == "Model not downloaded: "@ + model_id@,
            Some(true) => r is Ok,
        },
{
    match downloaded {
        None => Err(text::concat_str("Model not found: ", model_id)),
        Some(false) => Err(text::concat_str("Model not downloaded: ", model_id)),
        Some(true) => Ok(()),
    }
}

/// Settings after switching to `model_id`: it is selected and onboarding
/// counts as completed. The previous selection and onboarding flag come
/// back alongside, to restore them if the load fails.
pub fn select_for_switch(settings: ModelSettings, model_id: &str) -> (r: (
    ModelSettings,
    String,
    bool,
))
    ensures
        r.0.selected_model@ == model_id@,
        r.0.onboarding_completed,
        r.1 == settings.selected_model,
        r.2 == settings.onboarding_completed,
{
    let old_model = settings.selected_model;
    let old_onboarding = settings.onboarding_completed;
    (ModelSettings { selected_model: model_id.to_owned(), onboarding_completed: true }, old_model, old_onboarding)
}

/// Settings after a switch whose load failed: the previous selection and
/// onboarding flag are back.
pub fn restore_after_failed_switch(old_model: String, old_onboarding: bool) -> (r: ModelSettings)
    ensures
        r.selected_model == old_model,
        r.onboarding_completed == old_onboarding,
{
    ModelSettings { selected_model: old_model, onboarding_completed: old_onboarding }
}

/// Settings after choosing `model_id` for a dictation, when that changes
/// the selection (`None` when it is already selected).
pub fn select_for_dictation(settings: &ModelSettings, model_id: &str) -> (r: Option<ModelSettings>)
    ensures
        settings.selected_model@ == model_id@ ==> r is None,
        settings.selected_model@ != model_id@ ==> (r matches Some(s) && s.selected_model@
            == model_id@ && s.onboarding_completed == settings.onboarding_completed),
{
    if text::str_eq(settings.selected_model.as_str(), model_id) {
        None
    } else {
        Some(
            ModelSettings {
                selected_model: model_id.to_owned(),
                onboarding_completed: settings.onboarding_completed,
            },
        )
    }
}

/// Settings after the background load of `model_id` for a dictation
/// failed: the previous selection comes back, unless the selection has
/// moved on meanwhile (`None`: nothing to write).
pub fn restore_after_failed_dictation(
    settings: &ModelSettings,
    model_id: &str,
    previous: String,
) -> (r: Option<ModelSettings>)
    ensures
        settings.selected_model@ == model_id@ ==> (r matches Some(s) && s.selected_model
            == previous && s.onboarding_completed == settings.onboarding_completed),
        settings.selected_model@ != model_id@ ==> r is None,
{
    if text::str_eq(settings.selected_model.as_str(), model_id) {
        Some(
            ModelSettings {
                selected_model: previous,
                onboarding_completed: settings.onboarding_completed,
            },
        )
    } else {
        None
    }
}

/// Settings after deleting `model_id`, when it was the selected model
/// (its selection is cleared); `None` when another model is selected.
pub fn clear_deleted_selection(settings: &ModelSettings, model_id: &str) -> (r: Option<
    ModelSettings,
>)
    ensures
        settings.selected_model@ == model_id@ ==> (r matches Some(s) && s.selected_model@
            == Seq::<char>::empty() && s.onboarding_completed == settings.onboarding_completed),
        settings.selected_model@ != model_id@ ==> r is None,
{
    if text::str_eq(settings.selected_model.as_str(), model_id) {
        Some(
            ModelSettings {
                selected_model: String::new(),
                onboarding_completed: settings.onboarding_completed,
            },
        )
    } else {
        None
    }
}

/// The event announcing that `model_id` (named `model_name`) is selected.
pub fn selection_changed_event(model_id: &str, model_name: &str) -> (r: ModelStateEvent)
    ensures
        r.event_type@ == "selection_changed"@,
        r.model_id matches Some(m) && m@ == model_id@,
        r.model_name matches Some(n) && n@ == model_name@,
        r.error is None,
{
    ModelStateEvent {
        event_type: "selection_changed".to_owned(),
        model_id: Some(model_id.to_owned()),
        model_name: Some(model_name.to_owned()),
        error: None,
    }
}

/// Whether a model is still loading: no model is loaded yet.
pub fn is_model_loading(current_model: &Option<String>) -> (r: bool)
    ensures
        r == current_model is None,
{
    current_model.is_none()
}

/// A transcription model as the model commands see it.
#[derive(Debug)]
pub struct ModelSummary {
    pub name: String,
    pub is_downloaded: bool,
}

/// What a switch does once the new selection is written.
#[derive(Debug)]
pub enum SwitchAction {
    /// Announce the selection: the model loads on first use, since models
    /// are unloaded immediately after use.
    Announce(ModelStateEvent),
    /// Load the model now; if that fails, write the previous selection back.
    Load,
}

/// A switch of the active model that may go ahead.
#[derive(Debug)]
pub struct SwitchPlan {
    /// The settings to write before anything else.
    pub settings: ModelSettings,
    /// The selection before the switch.
    pub previous_model: String,
    /// The onboarding flag before the switch.
    pub previous_onboarding: bool,
    pub action: SwitchAction,
}

/// Decides a switch of the active model to `model_id`. The checks come in
/// this order: another load holds the loading slot (`loading_claimed` is
/// false), the model is unknown (`model` is `None`), the model is not
/// downloaded. A switch that passes them selects the model, marks
/// onboarding completed, and then loads the model, or only announces the
/// selection when models are unloaded immediately after use.
pub fn plan_switch(
    loading_claimed: bool,
    model_id: &str,
    model: Option<ModelSummary>,
    settings: ModelSettings,
    unload_immediately: bool,
) -> (r: Result<SwitchPlan, String>)
    ensures
        !loading_claimed ==> (r matches Err(e) && e@ == "Model load already in progress"@),
        loading_claimed ==> match model {
            None => r matches Err(e) && e@ == "Model not found: "@ + model_id@,
            Some(m) => if !m.is_downloaded {
                r matches Err(e) && e@ == "Model not downloaded: "@ + model_id@
            } else {
                r matches Ok(p) && {
                    &&& p.settings.selected_model@ == model_id@
                    &&& p.settings.onboarding_completed
                    &&& p.previous_model == settings.selected_model
                    &&& p.previous_onboarding == settings.onboarding_completed
                    &&& unload_immediately ==> (p.action matches SwitchAction::Announce(ev) && {
                        &&& ev.event_type@ == "selection_changed"@
                        &&& ev.model_id matches Some(x) && x@ == model_id@
                        &&& ev.model_name matches Some(n) && n@ == m.name@
                        &&& ev.error is None
                    })
                    &&& !unload_immediately ==> p.action is Load
                }
            },
        },
{
    if !loading_claimed {
        return Err(load_in_progress_error());
    }
    let m = match model {
        None => {
            return Err(text::concat_str("Model not found: ", model_id));
        },
        Some(m) => m,
    };
    if !m.is_downloaded {
        return Err(text::concat_str("Model not downloaded: ", model_id));
    }
    let (selected, previous_model, previous_onboarding) = select_for_switch(settings, model_id);
    let action = if unload_immediately {
        SwitchAction::Announce(selection_changed_event(model_id, m.name.as_str()))
    } else {
        SwitchAction::Load
    };
    Ok(SwitchPlan { settings: selected, previous_model, previous_onboarding, action })
}

/// What a switch answers once its load ended with `load`, and the settings
/// to write then: the previous selection and onboarding flag after a
/// failed load, nothing after a successful one.
pub fn finish_switch(
    load: Result<(), String>,
    previous_model: String,
    previous_onboarding: bool,
) -> (r: (Option<ModelSettings>, Result<(), String>))
    ensures
        match load {
            Ok(()) => r.0 is None && r.1 is Ok,
            Err(e) => (r.0 matches Some(s) && s.selected_model == previous_model
                && s.onboarding_completed == previous_onboarding) && r.1 == Err::<(), String>(e),
        },
{
    match load {
        Ok(()) => (None, Ok(())),
        Err(e) => (Some(restore_after_failed_switch(previous_model, previous_onboarding)), Err(e)),
    }
}

/// Whether a dictation with `model_id` must load it: it is not the model
/// loaded now.
pub fn dictation_needs_load(current_model: &Option<String>, model_id: &str) -> (r: bool)
    ensures
        r == !(current_model matches Some(c) && c@ == model_id@),
{
    match current_model {
        Some(c) => !text::str_eq(c.as_str(), model_id),
        None => true,
    }
}

/// Preparing a dictation with a model that may go ahead.
#[derive(Debug)]
pub struct DictationPlan {
    /// The settings to write, when the selection changes.
    pub settings: Option<ModelSettings>,
    /// The event announcing the new selection, when it changes.
    pub event: Option<ModelStateEvent>,
    /// The selection before, to restore if the background load fails.
    pub previous_model: String,
    /// Whether a background load must start.
    pub load: bool,
}

/// Decides how a dictation that starts now makes `model_id` the active
/// model: an unknown model (`model` is `None`) or one not downloaded is
/// refused; otherwise the selection is written and announced only when it
/// changes, and a load starts only when `model_id` is not the model loaded
/// now (`current_model`).
pub fn plan_dictation(
    model_id: &str,
    model: Option<ModelSummary>,
    settings: &ModelSettings,
    current_model: &Option<String>,
) -> (r: Result<DictationPlan, String>)
    ensures
        match model {
            None => r matches Err(e) && e@ == "Model not found: "@ + model_id@,
            Some(m) => if !m.is_downloaded {
                r matches Err(e) && e@ == "Model not downloaded: "@ + model_id@
            } else {
                r matches Ok(p) && {
                    &&& p.previous_model == settings.selected_model
                    &&& p.load == !(current_model matches Some(c) && c@ == model_id@)
                    &&& settings.selected_model@ == model_id@ ==> p.settings is None && p.event is None
                    &&& settings.selected_model@ != model_id@ ==> {
                        &&& p.settings matches Some(s) && s.selected_model@ == model_id@
                            && s.onboarding_completed == settings.onboarding_completed
                        &&& p.event matches Some(ev) && {
                            &&& ev.event_type@ == "selection_changed"@
                            &&& ev.model_id matches Some(x) && x@ == model_id@
                            &&& ev.model_name matches Some(n) && n@ == m.name@
                            &&& ev.error is None
                        }
                    }
                }
            },
        },
{
    let m = match model {
        None => {
            return Err(text::concat_str("Model not found: ", model_id));
        },
        Some(m) => m,
    };
    if !m.is_downloaded {
        return Err(text::concat_str("Model not downloaded: ", model_id));
    }
    let previous_model = settings.selected_model.clone();
    let new_settings = select_for_dictation(settings, model_id);
    let event = match new_settings {
        Some(_) => Some(selection_changed_event(model_id, m.name.as_str())),
        None => None,
    };
    let load = dictation_needs_load(current_model, model_id);
    Ok(DictationPlan { settings: new_settings, event, previous_model, load })
}

/// How long the background load of a dictation waits for a load that
/// already holds the loading slot, in milliseconds.
pub const DICTATION_LOAD_WAIT_MILLIS: u64 = 60000;

/// Whether the background load of a dictation gives up waiting for the
/// loading slot, `elapsed_millis` after it began to wait: after a minute.
pub fn dictation_wait_expired(elapsed_millis: u64) -> (r: bool)
    ensures
        r == (elapsed_millis >= 60000),
{
    elapsed_millis >= DICTATION_LOAD_WAIT_MILLIS
}

} // verus!
