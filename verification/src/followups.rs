//! Suggested follow-up selection and composer prefilling.
//!
//! The chat widget offers the follow-ups of a final answer in a selection view; picking one
//! prefills the composer with its prompt so the user can edit it before sending.

use vstd::prelude::*;

use crate::followup_directives::FollowupDirective;
use crate::text::option_string_view;

verus! {

/// Identifier of the follow-up selection view.
pub const FOLLOWUP_VIEW_ID: &'static str = "assistant-followups";

/// Title of the follow-up selection view.
pub const FOLLOWUP_TITLE: &'static str = "Suggested follow-ups";

/// Subtitle of the follow-up selection view.
pub const FOLLOWUP_SUBTITLE: &'static str = "Choose one to edit before sending";

/// An event the widget sends to the application.
#[derive(Clone, Debug, PartialEq, Eq)]
pub enum AppEvent {
    /// Put `text` into the composer.
    PrefillComposer { text: String },
}

/// One entry of a selection view.
#[derive(Debug, PartialEq, Eq)]
pub struct SelectionItem {
    pub name: String,
    pub description: Option<String>,
    /// The events sent when the entry is chosen.
    pub actions: Vec<AppEvent>,
    pub dismiss_on_select: bool,
}

/// A selection view shown in the bottom pane.
#[derive(Debug, PartialEq, Eq)]
pub struct SelectionViewParams {
    pub view_id: Option<&'static str>,
    pub title: Option<String>,
    pub subtitle: Option<String>,
    pub items: Vec<SelectionItem>,
}

/// The part of the bottom pane that follow-ups drive.
#[derive(Debug, PartialEq, Eq)]
pub struct BottomPane {
    pub composer_text: String,
    pub selection_view: Option<SelectionViewParams>,
}

/// The chat widget, as far as follow-ups are concerned.
#[derive(Debug, PartialEq, Eq)]
pub struct ChatWidget {
    pub bottom_pane: BottomPane,
}

/// `item` offers `followup`: it is named by the label, described by the prompt, prefills the
/// composer with the prompt and closes the view when chosen.
pub open spec fn item_offers(item: SelectionItem, followup: FollowupDirective) -> bool {
    &&& item.name@ == followup.label@
    &&& option_string_view(item.description) == Some(followup.prompt@)
    &&& item.actions@.len() == 1
    &&& item.actions@[0] matches AppEvent::PrefillComposer { text } && text@ == followup.prompt@
    &&& item.dismiss_on_select
}

/// `view` is the follow-up selection view for `followups`, in their order.
pub open spec fn is_followup_view(view: SelectionViewParams, followups: Seq<FollowupDirective>) -> bool {
    &&& view.view_id matches Some(id) && id@ == FOLLOWUP_VIEW_ID@
    &&& option_string_view(view.title) == Some(FOLLOWUP_TITLE@)
    &&& option_string_view(view.subtitle) == Some(FOLLOWUP_SUBTITLE@)
    &&& view.items@.len() == followups.len()
    &&& forall|i: int| 0 <= i < followups.len() ==> item_offers(#[trigger] view.items@[i], followups[i])
}

impl ChatWidget {
    /// Shows the follow-ups in a selection view; choosing one prefills the composer with its
    /// prompt.
    pub fn show_followup_suggestions(&mut self, followups: Vec<FollowupDirective>)
        ensures
            final(self).bottom_pane.selection_view matches Some(view) && is_followup_view(
                view,
                followups@,
            ),
            final(self).bottom_pane.composer_text == old(self).bottom_pane.composer_text,
    {
        let mut items: Vec<SelectionItem> = Vec::new();
        let mut i: usize = 0;
        while i < followups.len()
            invariant
                i <= followups@.len(),
                items@.len() == i,
                forall|j: int| 0 <= j < i ==> item_offers(#[trigger] items@[j], followups@[j]),
            decreases followups@.len() - i,
        {
            let prompt = followups[i].prompt.clone();
            let mut actions: Vec<AppEvent> = Vec::new();
            actions.push(AppEvent::PrefillComposer { text: prompt.clone() });
            items.push(
                SelectionItem {
                    name: followups[i].label.clone(),
                    description: Some(prompt),
                    actions,
                    dismiss_on_select: true,
                },
            );
            i = i + 1;
        }
        self.bottom_pane.selection_view = Some(
            SelectionViewParams {
                view_id: Some(FOLLOWUP_VIEW_ID),
                title: Some(FOLLOWUP_TITLE.to_string()),
                subtitle: Some(FOLLOWUP_SUBTITLE.to_string()),
                items,
            },
        );
    }

    /// Replaces the composer text with `text`.
    pub fn prefill_composer(&mut self, text: String)
        ensures
            final(self).bottom_pane.composer_text == text,
            final(self).bottom_pane.selection_view == old(self).bottom_pane.selection_view,
    {
        self.bottom_pane.composer_text = text;
    }
}

/// Choosing a follow-up and applying its action puts exactly its prompt into the composer.
pub proof fn lemma_selected_followup_prefills_prompt(
    view: SelectionViewParams,
    followups: Seq<FollowupDirective>,
    index: int,
)
    requires
        is_followup_view(view, followups),
        0 <= index < followups.len(),
    ensures
        view.items@[index].actions@.len() == 1,
        view.items@[index].actions@[0] matches AppEvent::PrefillComposer { text } && text@
            == followups[index].prompt@,
{
    assert(item_offers(view.items@[index], followups[index]));
}

} // verus!
