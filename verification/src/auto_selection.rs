//! Each chat's choice between `Auto` and a manual model selection, and what to do with it when
//! a thread is restored.
//!
//! The choice is stored per thread as the text `auto` or `manual` in a file under
//! `tui/auto-selections/`; reading and writing that file is left to the caller.

use vstd::prelude::*;

use crate::text::{chars_eq, chars_of, sub_vec, trim_bounds, trimmed};

verus! {

/// Directory, below the `tui` directory of the Codex home, that holds one file per thread.
pub const AUTO_SELECTION_DIRECTORY: &'static str = "auto-selections";

/// Directory of the Codex home that holds the terminal client's own state.
pub const TUI_DIRECTORY: &'static str = "tui";

/// Whether a chat routes its prompts automatically or uses the manually chosen model.
#[derive(Clone, Copy, Debug, PartialEq, Eq, Structural)]
pub enum AutoSelection {
    Auto,
    Manual,
}

/// The stored text of a selection.
pub open spec fn selection_text(selection: AutoSelection) -> Seq<char> {
    match selection {
        AutoSelection::Auto => "auto"@,
        AutoSelection::Manual => "manual"@,
    }
}

/// The selection that stored `contents` hold, once trimmed; `None` when they hold neither word.
pub open spec fn spec_selection_from_contents(contents: Seq<char>) -> Option<AutoSelection> {
    let t = trimmed(contents);
    if t == "auto"@ {
        Some(AutoSelection::Auto)
    } else if t == "manual"@ {
        Some(AutoSelection::Manual)
    } else {
        None
    }
}

impl AutoSelection {
    /// The text stored for this selection.
    pub fn as_str(self) -> (r: &'static str)
        ensures
            r@ == selection_text(self),
    {
        match self {
            AutoSelection::Auto => "auto",
            AutoSelection::Manual => "manual",
        }
    }
}

/// The selection held by the contents of a selection file; `None` when the contents are
/// invalid.
pub fn selection_from_contents(contents: &str) -> (r: Option<AutoSelection>)
    ensures
        r == spec_selection_from_contents(contents@),
{
    let v = chars_of(contents);
    assert(v@.subrange(0, v@.len() as int) == v@);
    let (a, b) = trim_bounds(&v, 0, v.len());
    let t = sub_vec(&v, a, b);
    let auto = chars_of("auto");
    let manual = chars_of("manual");
    if chars_eq(&t, &auto) {
        Some(AutoSelection::Auto)
    } else if chars_eq(&t, &manual) {
        Some(AutoSelection::Manual)
    } else {
        None
    }
}

/// What reading a thread's selection file gave.
#[derive(Clone, Copy, Debug, PartialEq, Eq, Structural)]
pub enum LoadOutcome {
    /// The file holds this selection.
    Found(AutoSelection),
    /// There is no file for the thread.
    Missing,
    /// The file could not be read or holds an invalid selection.
    Failed,
}

/// What restoring a thread's selection does.
#[derive(Clone, Copy, Debug, PartialEq, Eq, Structural)]
pub struct RestorePlan {
    /// Whether `Auto` is selected afterwards.
    pub auto_selected: bool,
    /// Whether the classifier is warmed up.
    pub warm_classifier: bool,
    /// The selection to store for the thread, if any.
    pub persist: Option<AutoSelection>,
}

/// The restore plan, stated directly.
pub open spec fn spec_restore_plan(
    auto_default: Option<bool>,
    loaded: LoadOutcome,
    was_auto_selected: bool,
) -> RestorePlan {
    match auto_default {
        None => RestorePlan { auto_selected: false, warm_classifier: false, persist: None },
        Some(default_selected) => {
            let default_selection = if default_selected {
                AutoSelection::Auto
            } else {
                AutoSelection::Manual
            };
            let (selection, should_persist) = match loaded {
                LoadOutcome::Found(s) => (s, false),
                _ => (default_selection, true),
            };
            let auto = selection == AutoSelection::Auto;
            RestorePlan {
                auto_selected: auto,
                warm_classifier: auto && was_auto_selected,
                persist: if should_persist {
                    Some(selection)
                } else {
                    None
                },
            }
        },
    }
}

/// What to do when a thread is shown again.
///
/// `auto_default` is `None` when `Auto` is not configured (then `Auto` is switched off and
/// `loaded` is not consulted), else whether `Auto` is selected by default. A stored selection
/// wins; when there is none, or it cannot be read, the default is used and stored. The
/// classifier is warmed when `Auto` stays selected.
pub fn restore_plan(auto_default: Option<bool>, loaded: LoadOutcome, was_auto_selected: bool) -> (r:
    RestorePlan)
    ensures
        r == spec_restore_plan(auto_default, loaded, was_auto_selected),
{
    match auto_default {
        None => RestorePlan { auto_selected: false, warm_classifier: false, persist: None },
        Some(default_selected) => {
            let default_selection = if default_selected {
                AutoSelection::Auto
            } else {
                AutoSelection::Manual
            };
            let (selection, should_persist) = match loaded {
                LoadOutcome::Found(s) => (s, false),
                LoadOutcome::Missing => (default_selection, true),
                LoadOutcome::Failed => (default_selection, true),
            };
            let auto = selection == AutoSelection::Auto;
            RestorePlan {
                auto_selected: auto,
                warm_classifier: auto && was_auto_selected,
                persist: if should_persist {
                    Some(selection)
                } else {
                    None
                },
            }
        },
    }
}

/// Whether the active thread's selection is stored: only when `Auto` is configured and a thread
/// is displayed.
pub fn should_persist_active_selection(auto_configured: bool, has_displayed_thread: bool) -> (r:
    bool)
    ensures
        r == (auto_configured && has_displayed_thread),
{
    auto_configured && has_displayed_thread
}

/// The stored text of a selection reads back as that selection.
pub proof fn lemma_selection_round_trip(selection: AutoSelection)
    ensures
        spec_selection_from_contents(selection_text(selection)) == Some(selection),
{
    reveal_strlit("auto");
    reveal_strlit("manual");
    let s = selection_text(selection);
    crate::text::lemma_leading_unique(s, crate::text::CharClass::Whitespace, 0);
    crate::text::lemma_trailing_unique(s, crate::text::CharClass::Whitespace, s.len() as int);
    assert(s.skip(0) =~= s);
    assert(s.take(s.len() as int) =~= s);
    assert(trimmed(s) == s);
    assert("auto"@ != "manual"@) by {
        assert("auto"@.len() != "manual"@.len());
    }
}

/// Restoring a thread: without an `Auto` configuration `Auto` is off and nothing is stored or
/// warmed; a stored selection is used as it is and not stored again; with none (missing or
/// unreadable) the configured default is used and stored. The classifier is warmed exactly when
/// `Auto` stays selected.
pub proof fn lemma_restore_uses_stored_or_default(
    auto_default: Option<bool>,
    loaded: LoadOutcome,
    was_auto_selected: bool,
)
    ensures
        ({
            let plan = spec_restore_plan(auto_default, loaded, was_auto_selected);
            &&& auto_default is None ==> !plan.auto_selected && !plan.warm_classifier
                && plan.persist is None
            &&& auto_default matches Some(default_selected) ==> {
                &&& plan.warm_classifier == (plan.auto_selected && was_auto_selected)
                &&& loaded matches LoadOutcome::Found(stored) ==> plan.auto_selected == (stored
                    == AutoSelection::Auto) && plan.persist is None
                &&& !(loaded is Found) ==> plan.auto_selected == default_selected && plan.persist
                    == Some(
                    if default_selected {
                        AutoSelection::Auto
                    } else {
                        AutoSelection::Manual
                    },
                )
            }
        }),
{
}

} // verus!
