//! Closing the window: saving first, holding the close when saving fails, or
//! discarding unsaved edits; and the view preferences stored with the settings.
use vstd::prelude::*;
use vstd::string::StringExecFns;

use crate::filters::copied;
use crate::query::{GroupBy, SortSpec, ViewKind};
use crate::text::{append_str, chars_of, has_prefix, starts_with_chars};
use crate::views::{SmartView, setting_text, smart_view_setting};

verus! {

/// Where closing stands: whether the window may close, whether everything was saved
/// for closing, and whether unsaved edits are to be dropped.
#[derive(Clone, Copy, Debug, PartialEq, Eq, Structural)]
pub struct CloseState {
    pub allow_close: bool,
    pub save_completed: bool,
    pub discard_unsaved: bool,
}

/// What a close request asks of the caller.
#[derive(Clone, Copy, Debug, PartialEq, Eq, Structural)]
pub enum CloseStep {
    /// Close now.
    Close,
    /// Save pending edits, data and settings first, then report the result.
    SaveFirst,
}

/// What the workspace does when it goes away.
#[derive(Clone, Copy, Debug, PartialEq, Eq, Structural)]
pub enum DropStep {
    /// Flush the data and save the settings, dropping unsaved edits.
    FlushAndSaveSettings,
    /// Save everything that is still unsaved.
    SaveEverything,
    /// Everything was saved already.
    Nothing,
}

/// The message shown when saving before closing fails.
pub open spec fn close_failure_message(reason: Seq<char>) -> Seq<char> {
    "終了前の保存に失敗しました: "@ + reason
}

impl CloseState {
    /// Nothing decided yet.
    pub fn new() -> (r: CloseState)
        ensures
            r == (CloseState { allow_close: false, save_completed: false, discard_unsaved: false }),
    {
        CloseState { allow_close: false, save_completed: false, discard_unsaved: false }
    }

    /// A close request: close when closing is allowed or everything
    /// was saved, else save first.
    pub fn request(&self) -> (r: CloseStep)
        ensures
            self.allow_close || self.save_completed ==> r == CloseStep::Close,
            !(self.allow_close || self.save_completed) ==> r == CloseStep::SaveFirst,
    {
        if self.allow_close || self.save_completed {
            CloseStep::Close
        } else {
            CloseStep::SaveFirst
        }
    }

    /// The result of saving before closing: on success the
    /// save is complete and the window closes; on failure the close is held and the
    /// message to show is returned.
    pub fn saved(&mut self, result: Result<(), String>) -> (r: Option<String>)
        ensures
            result is Ok ==> r is None && *final(self) == (CloseState { save_completed: true, ..*old(self) }),
            result matches Err(m) ==> (r matches Some(msg) && msg@ == close_failure_message(m@)) && *final(self)
                == *old(self),
    {
        match result {
            Ok(()) => {
                self.save_completed = true;
                None
            },
            Err(m) => {
                let mut msg = String::from_str("終了前の保存に失敗しました: ");
                append_str(&mut msg, m.as_str());
                Some(msg)
            },
        }
    }

    /// Closes after a retried save succeeded.
    pub fn allow(&mut self)
        ensures
            *final(self) == (CloseState { allow_close: true, ..*old(self) }),
    {
        self.allow_close = true;
    }

    /// Closes without the unsaved edits.
    pub fn discard(&mut self)
        ensures
            *final(self) == (CloseState { allow_close: true, discard_unsaved: true, ..*old(self) }),
    {
        self.discard_unsaved = true;
        self.allow_close = true;
    }

    /// What to do when the workspace goes away.
    pub fn on_drop(&self) -> (r: DropStep)
        ensures
            self.discard_unsaved ==> r == DropStep::FlushAndSaveSettings,
            !self.discard_unsaved && !self.save_completed ==> r == DropStep::SaveEverything,
            !self.discard_unsaved && self.save_completed ==> r == DropStep::Nothing,
    {
        if self.discard_unsaved {
            DropStep::FlushAndSaveSettings
        } else if !self.save_completed {
            DropStep::SaveEverything
        } else {
            DropStep::Nothing
        }
    }
}

/// The view preferences stored with the settings.
#[derive(Clone, Debug)]
pub struct ViewPreferences {
    pub view_kind: ViewKind,
    pub active_view: String,
    pub sort: Vec<SortSpec>,
    pub group_by: Option<GroupBy>,
}

/// The preferences to store for the current layout, view, sort and grouping.
pub fn view_preferences(view_kind: ViewKind, active_view: SmartView, sort: &Vec<SortSpec>, group_by: Option<GroupBy>) -> (r: ViewPreferences)
    ensures
        r.view_kind == view_kind,
        r.active_view@ == setting_text(active_view),
        r.sort@ == sort@,
        r.group_by == group_by,
{
    ViewPreferences { view_kind, active_view: smart_view_setting(active_view), sort: copied(sort), group_by }
}

/// The message shown when the settings cannot be saved.
pub fn settings_failure_message(reason: &str) -> (r: String)
    ensures
        r@ == "表示設定の保存に失敗しました: "@ + reason@,
{
    let mut msg = String::from_str("表示設定の保存に失敗しました: ");
    append_str(&mut msg, reason);
    msg
}

/// The message shown when reopening the database fails.
pub fn retry_failure_message(reason: &str) -> (r: String)
    ensures
        r@ == "DBの再試行に失敗しました: "@ + reason@,
{
    let mut msg = String::from_str("DBの再試行に失敗しました: ");
    append_str(&mut msg, reason);
    msg
}

/// The error message after the view preferences were saved with `result`: a failed
/// save shows its message; a successful one clears an earlier settings failure and
/// leaves any other error as it was.
pub fn error_after_settings_save(error: Option<String>, result: Result<(), String>) -> (r: Option<String>)
    ensures
        result matches Err(m) ==> (r matches Some(x) && x@ == "表示設定の保存に失敗しました: "@ + m@),
        result is Ok && (error matches Some(e) && has_prefix(e@, "表示設定の保存に失敗しました: "@)) ==> r is None,
        result is Ok && !(error matches Some(e) && has_prefix(e@, "表示設定の保存に失敗しました: "@)) ==> r == error,
{
    match result {
        Err(m) => Some(settings_failure_message(m.as_str())),
        Ok(()) => {
            let stale = match &error {
                Some(e) => starts_with_chars(&chars_of(e.as_str()), &chars_of("表示設定の保存に失敗しました: ")),
                None => false,
            };
            if stale {
                None
            } else {
                error
            }
        },
    }
}

} // verus!
