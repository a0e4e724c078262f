use gamut::ipc::{
    command_refusal, is_daemon_running, send_command, ContactStep, DaemonContact, IpcCommand,
    IpcFailure, DAEMON_RETRIES, DAEMON_RETRY_DELAY_MS,
};
use gamut::surface::{compositor_selected_output, namespace, output_name_for};
use gamut::tabs::{GeneralActions, PreferencesTab};

#[test]
fn explicit_output_name_is_preserved() {
    assert_eq!(output_name_for(Some("DP-1")), "DP-1".to_string());
}

#[test]
fn missing_output_uses_compositor_selected_sentinel() {
    assert_eq!(output_name_for(None), compositor_selected_output().to_string());
    assert_eq!(compositor_selected_output(), "gamut:auto-output");
    assert_eq!(namespace(), "gamut-launcher");
}

#[test]
fn ipc_without_transport_refuses() {
    assert!(send_command(IpcCommand::Toggle).is_err());
    assert!(send_command(IpcCommand::Quit).is_err());
    assert!(!is_daemon_running());
    let error = send_command(IpcCommand::Ping).unwrap_err();
    assert_eq!(error.kind(), std::io::ErrorKind::NotConnected);
    assert_eq!(error.to_string(), "ipc transport not implemented yet");
    assert_eq!(
        command_refusal(IpcCommand::Quit),
        (IpcFailure::NotConnected, "ipc transport not implemented yet")
    );
}

#[test]
fn preference_pages() {
    assert_eq!(PreferencesTab::General.label(), "General");
    assert_eq!(PreferencesTab::Shortcuts.label(), "Shortcuts");
    let none = GeneralActions::none();
    assert!(!none.changed);
    assert!(none.theme_updates.is_empty());
}

#[test]
fn shortcut_search_filters_captions() {
    let labels = ["Raycast Hotkey", "Window Options", "Clipboard History", "File Search", "Confetti", "Calculator"];
    assert!(gamut::tabs::shortcut_search_matches("Clipboard History", "  HIST "));
    assert!(gamut::tabs::shortcut_search_matches("Confetti", "   "));
    assert!(!gamut::tabs::shortcut_search_matches("Confetti", "calc"));
    assert_eq!(gamut::tabs::matching_shortcut_captions(&labels, "c"), vec![0, 2, 3, 4, 5]);
    assert_eq!(gamut::tabs::matching_shortcut_captions(&labels, "CALC"), vec![5]);
    assert_eq!(gamut::tabs::matching_shortcut_captions(&labels, ""), vec![0, 1, 2, 3, 4, 5]);
}

#[test]
fn daemon_contact_starts_one_daemon_and_retries_forty_times() {
    let mut contact = DaemonContact::new();
    assert_eq!(contact.after_send(false), ContactStep::SpawnDaemon);
    assert_eq!(contact.after_spawn(), ContactStep::SendAfter(50));
    let mut sends = 1;
    loop {
        match contact.after_send(false) {
            ContactStep::SendAfter(delay) => {
                assert_eq!(delay, DAEMON_RETRY_DELAY_MS);
                sends += 1;
            }
            ContactStep::GiveUp => break,
            other => panic!("unexpected step {:?}", other),
        }
    }
    assert_eq!(sends, 40);
    assert_eq!(sends, DAEMON_RETRIES);
    assert_eq!(contact.after_send(true), ContactStep::Delivered);
}

#[test]
fn daemon_contact_is_done_once_delivered() {
    let mut contact = DaemonContact::new();
    assert_eq!(contact.after_send(true), ContactStep::Delivered);
}
