use clipd::rofi::{RofiPluginError, RofiPluginState};

#[test]
fn plugin_error_keeps_its_message() {
    let err = RofiPluginError::new("clipboard is empty");
    assert_eq!(err.message(), "clipboard is empty");
}

#[test]
fn plugin_state_keeps_callback_and_params() {
    let state = RofiPluginState::new(
        String::from("set_clipboard"),
        vec![String::from("3")],
    );
    assert_eq!(state.callback(), "set_clipboard");
    assert_eq!(state.params(), &vec![String::from("3")]);
    assert!(!state.is_inputting_params());
}

#[test]
fn empty_plugin_state_is_blank() {
    let state = RofiPluginState::empty();
    assert_eq!(state.callback(), "");
    assert!(state.params().is_empty());
    assert!(!state.is_inputting_params());
}
