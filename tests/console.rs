use kafka_bombardier::session::{InputEvent, Session, SessionAction};

fn line(s: &str) -> InputEvent {
    InputEvent::Line(s.to_string())
}

#[test]
fn hello_then_interrupted_sends_once() {
    let mut s = Session::new("t".to_string());
    assert_eq!(s.on_input(line("hello\n")), SessionAction::Send("hello".to_string()));
    assert_eq!(s.on_input(InputEvent::EndOfInput), SessionAction::Stop);
    assert_eq!(s.on_input(line("more\n")), SessionAction::Stop);
}

#[test]
fn lines_are_sent_in_input_order() {
    let mut s = Session::new("t".to_string());
    let mut sent = Vec::new();
    for ev in vec![line("one\n"), line("two\n"), line("\n"), InputEvent::EndOfInput, line("late\n")] {
        if let SessionAction::Send(p) = s.on_input(ev) {
            sent.push(p);
        }
    }
    assert_eq!(sent, vec!["one".to_string(), "two".to_string(), String::new()]);
}

#[test]
fn trailing_white_space_is_trimmed() {
    let mut s = Session::new("t".to_string());
    assert_eq!(s.on_input(line("  hi \t\r\n")), SessionAction::Send("  hi".to_string()));
    assert_eq!(s.on_input(line("x\u{3000}\u{a0}")), SessionAction::Send("x".to_string()));
}

#[test]
fn read_failure_aborts() {
    let mut s = Session::new("t".to_string());
    assert_eq!(s.on_input(InputEvent::ReadFailed), SessionAction::Abort);
    assert_eq!(s.on_input(line("a\n")), SessionAction::Stop);
    assert_eq!(s.on_input(InputEvent::ReadFailed), SessionAction::Stop);
}

#[test]
fn prompt_names_the_topic() {
    let s = Session::new("events".to_string());
    assert_eq!(s.prompt(), "[events]> ");
}
