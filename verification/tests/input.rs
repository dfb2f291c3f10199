use tesse_rs::input::{key_action, KeyAction, KeyInput};

#[test]
fn keys_with_text_send_it() {
    assert_eq!(key_action(KeyInput::Char('x')), KeyAction::Send("x".to_string()));
    assert_eq!(key_action(KeyInput::Char('é')), KeyAction::Send("é".to_string()));
    assert_eq!(key_action(KeyInput::Enter), KeyAction::Send("\n".to_string()));
    assert_eq!(key_action(KeyInput::Backspace), KeyAction::Send("\x7f".to_string()));
    assert_eq!(key_action(KeyInput::Tab), KeyAction::Send("\t".to_string()));
}

#[test]
fn esc_quits_and_other_keys_do_nothing() {
    assert_eq!(key_action(KeyInput::Esc), KeyAction::Quit);
    assert_eq!(key_action(KeyInput::Other), KeyAction::Nothing);
}
