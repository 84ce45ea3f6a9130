//! The synchronization engine's decisions. The engine owns the live
//! connection pair and runs the listen loop; everything it decides — which
//! events matter, what each one triggers, and what message the consumer
//! receives — is a function from the event to an action, defined and checked
//! here. The surrounding run loop performs the chosen action: it queries the
//! tree and the window properties, rebuilds the table through
//! [`crate::table`], and sends the resulting message down the channel.

use vstd::prelude::*;
use std::collections::HashMap;
use crate::classify::WindowCategory;
use crate::workspace::{parse_i32_spec, parse_workspace_id};

verus! {

/// The change kind of a window lifecycle event, as the window manager
/// reports it; kinds the engine never distinguishes are lumped into `Other`.
#[derive(Clone, Copy, Debug, PartialEq, Eq, Structural)]
pub enum WindowChangeKind {
    New,
    Close,
    Focus,
    Title,
    FullscreenMode,
    Move,
    Floating,
    Urgent,
    Other,
}

/// An event from the window manager's stream, reduced to what the engine
/// decides on: a workspace-focus change carrying the newly focused
/// workspace's display name, or a window lifecycle change carrying its kind.
#[derive(Debug)]
pub enum EngineEvent {
    WorkspaceFocus(Option<String>),
    WindowLifecycle(WindowChangeKind),
}

/// What the engine does with one event: emit a focus update, rebuild the
/// full table and emit it, or ignore the event and keep listening.
#[derive(Clone, Copy, Debug, PartialEq, Eq, Structural)]
pub enum EngineAction {
    EmitFocus(i32),
    Rebuild,
    Ignore,
}

/// A message to the consumer: either a full replacement snapshot of the
/// workspace table, or the identifier of the newly focused workspace. These
/// are the only two message kinds, delivered in emission order.
#[derive(Debug)]
pub enum Message {
    TableUpdate(HashMap<i32, Vec<WindowCategory>>),
    FocusUpdate(i32),
}

/// Whether a window change kind triggers a full table rebuild: exactly the
/// kinds New, Close and Move do.
pub open spec fn triggers_rebuild(k: WindowChangeKind) -> bool {
    k == WindowChangeKind::New || k == WindowChangeKind::Close || k == WindowChangeKind::Move
}

/// The display name carried by a workspace-focus event, as text; an absent
/// name counts as empty text, which never parses as an identifier.
pub open spec fn opt_name_chars(name: Option<String>) -> Seq<char> {
    match name {
        Some(s) => s@,
        None => Seq::<char>::empty(),
    }
}

/// The engine's decision on one event: a workspace-focus event yields a
/// focus update exactly when the workspace name parses as an integer and is
/// ignored otherwise; a window lifecycle event triggers a rebuild exactly
/// when its change kind is New, Close or Move and is ignored otherwise.
pub open spec fn action_spec(e: EngineEvent) -> EngineAction {
    match e {
        EngineEvent::WorkspaceFocus(name) => match parse_i32_spec(opt_name_chars(name)) {
            Some(id) => EngineAction::EmitFocus(id),
            None => EngineAction::Ignore,
        },
        EngineEvent::WindowLifecycle(k) => if triggers_rebuild(k) {
            EngineAction::Rebuild
        } else {
            EngineAction::Ignore
        },
    }
}

/// A window lifecycle event whose change kind is outside {New, Close, Move}
/// — a focus change, a title change, or any other kind — triggers neither a
/// rebuild nor an emitted message: it is ignored.
pub proof fn lemma_other_window_changes_ignored(k: WindowChangeKind)
    requires
        !triggers_rebuild(k),
    ensures
        action_spec(EngineEvent::WindowLifecycle(k)) == EngineAction::Ignore,
{
}

/// Decides what one event of the stream triggers. No event is an error:
/// a workspace name that does not parse and a window change kind outside
/// {New, Close, Move} are ignored, and the loop keeps listening.
pub fn handle_event(e: &EngineEvent) -> (a: EngineAction)
    ensures
        a == action_spec(*e),
{
    match e {
        EngineEvent::WorkspaceFocus(name) => {
            let parsed = match name {
                Some(nm) => parse_workspace_id(nm.as_str()),
                None => None,
            };
            match parsed {
                Some(id) => EngineAction::EmitFocus(id),
                None => EngineAction::Ignore,
            }
        },
        EngineEvent::WindowLifecycle(k) => {
            match k {
                WindowChangeKind::New | WindowChangeKind::Close | WindowChangeKind::Move => {
                    EngineAction::Rebuild
                },
                _ => EngineAction::Ignore,
            }
        },
    }
}

} // verus!
