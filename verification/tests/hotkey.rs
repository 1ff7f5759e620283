use manga_reader::hotkey::{handle_hotkey, Key};
use manga_reader::navigation::Message;

#[test]
fn escape_and_q_close() {
    assert_eq!(handle_hotkey(&Key::Escape), Some(Message::Close));
    assert_eq!(handle_hotkey(&Key::Character("q".to_string())), Some(Message::Close));
}

#[test]
fn arrows_turn_pages() {
    assert_eq!(handle_hotkey(&Key::ArrowRight), Some(Message::NextImage));
    assert_eq!(handle_hotkey(&Key::ArrowLeft), Some(Message::PreviousImage));
}

#[test]
fn home_and_end_go_to_the_ends() {
    assert_eq!(handle_hotkey(&Key::Home), Some(Message::FirstImage));
    assert_eq!(handle_hotkey(&Key::End), Some(Message::LastImage));
}

#[test]
fn other_keys_send_nothing() {
    assert_eq!(handle_hotkey(&Key::Other), None);
    assert_eq!(handle_hotkey(&Key::Character("Q".to_string())), None);
    assert_eq!(handle_hotkey(&Key::Character("qq".to_string())), None);
    assert_eq!(handle_hotkey(&Key::Character(String::new())), None);
    assert_eq!(handle_hotkey(&Key::Character("x".to_string())), None);
}
