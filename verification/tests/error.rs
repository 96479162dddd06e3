use smart_brain::error::BrainError;

#[test]
fn error_messages_name_their_kind() {
    assert_eq!(BrainError::Config("bad".into()).message(), "configuration error: bad");
    assert_eq!(BrainError::Transport("link".into()).message(), "transport error: link");
    assert_eq!(BrainError::Bus("t".into()).message(), "bus error: t");
    assert_eq!(BrainError::Inference("i".into()).message(), "inference error: i");
    assert_eq!(BrainError::Behavior("b".into()).message(), "behavior tree error: b");
    assert_eq!(BrainError::State("s".into()).message(), "invalid state transition: s");
    assert_eq!(BrainError::Mission("m".into()).message(), "mission error: m");
    assert_eq!(BrainError::Agent("a".into()).message(), "agent error: a");
    assert_eq!(BrainError::Other("o".into()).message(), "unknown error: o");
}

#[test]
fn io_error_message_carries_the_os_text() {
    let e = BrainError::Io(std::io::Error::new(std::io::ErrorKind::Other, "disk on fire"));
    assert_eq!(e.message(), "io error: disk on fire");
}
