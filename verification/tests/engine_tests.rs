use iconic_statusbar::engine::{handle_event, EngineAction, EngineEvent, WindowChangeKind};

#[test]
fn focus_change_kind_triggers_nothing() {
    assert_eq!(
        handle_event(&EngineEvent::WindowLifecycle(WindowChangeKind::Focus)),
        EngineAction::Ignore
    );
}

#[test]
fn other_window_kinds_are_ignored() {
    assert_eq!(
        handle_event(&EngineEvent::WindowLifecycle(WindowChangeKind::Title)),
        EngineAction::Ignore
    );
    assert_eq!(
        handle_event(&EngineEvent::WindowLifecycle(WindowChangeKind::FullscreenMode)),
        EngineAction::Ignore
    );
    assert_eq!(
        handle_event(&EngineEvent::WindowLifecycle(WindowChangeKind::Floating)),
        EngineAction::Ignore
    );
    assert_eq!(
        handle_event(&EngineEvent::WindowLifecycle(WindowChangeKind::Urgent)),
        EngineAction::Ignore
    );
    assert_eq!(
        handle_event(&EngineEvent::WindowLifecycle(WindowChangeKind::Other)),
        EngineAction::Ignore
    );
}

#[test]
fn lifecycle_kinds_trigger_rebuild() {
    assert_eq!(
        handle_event(&EngineEvent::WindowLifecycle(WindowChangeKind::New)),
        EngineAction::Rebuild
    );
    assert_eq!(
        handle_event(&EngineEvent::WindowLifecycle(WindowChangeKind::Close)),
        EngineAction::Rebuild
    );
    assert_eq!(
        handle_event(&EngineEvent::WindowLifecycle(WindowChangeKind::Move)),
        EngineAction::Rebuild
    );
}

#[test]
fn numeric_focus_emits_update() {
    assert_eq!(
        handle_event(&EngineEvent::WorkspaceFocus(Some("3".to_owned()))),
        EngineAction::EmitFocus(3)
    );
}

#[test]
fn non_numeric_focus_is_ignored() {
    assert_eq!(
        handle_event(&EngineEvent::WorkspaceFocus(Some("main".to_owned()))),
        EngineAction::Ignore
    );
    assert_eq!(
        handle_event(&EngineEvent::WorkspaceFocus(None)),
        EngineAction::Ignore
    );
}
