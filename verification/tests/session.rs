use summy::message::{Message, MessageSource};
use summy::session::Session;

fn texts(messages: &[Message]) -> Vec<String> {
    messages.iter().map(|m| m.text.clone()).collect()
}

#[test]
fn message_new_keeps_text_and_source() {
    let message = Message::new("hello", MessageSource::Assistant);
    assert_eq!(message.text, "hello");
    assert_eq!(message.source, MessageSource::Assistant);
}

#[test]
fn message_constructors_set_their_role() {
    let system = Message::system("s");
    assert_eq!(system.text, "s");
    assert_eq!(system.source, MessageSource::System);

    let assistant = Message::assistant("a");
    assert_eq!(assistant.text, "a");
    assert_eq!(assistant.source, MessageSource::Assistant);

    let user = Message::user("u");
    assert_eq!(user.text, "u");
    assert_eq!(user.source, MessageSource::User);
}

#[test]
fn message_with_empty_and_unicode_text() {
    let empty = Message::user("");
    assert_eq!(empty.text, "");
    let accented = Message::system("\u{e4}\u{f6}\u{fc} \u{25ef}");
    assert_eq!(accented.text, "\u{e4}\u{f6}\u{fc} \u{25ef}");
    assert_eq!(accented.text.chars().count(), 5);
}

#[test]
fn message_clone_is_equal() {
    let message = Message::new("copy me", MessageSource::User);
    let copy = message.clone();
    assert_eq!(copy.text, message.text);
    assert_eq!(copy.source, message.source);
}

#[test]
fn fresh_session_context_is_its_prompts() {
    let session = Session::new(vec![Message::user("text"), Message::system("rules")]);
    let context = session.context_window();
    assert_eq!(texts(&context), vec!["text", "rules"]);
    assert_eq!(context[0].source, MessageSource::User);
    assert_eq!(context[1].source, MessageSource::System);
}

#[test]
fn fresh_session_without_prompts_is_empty() {
    let session = Session::new(vec![]);
    assert!(session.context_window().is_empty());
}

#[test]
fn session_append_keeps_order_after_prompts() {
    let mut session = Session::new(vec![Message::system("p")]);
    session.append(Message::user("q1"));
    session.append(Message::assistant("a1"));
    session.append(Message::user("q2"));
    let context = session.context_window();
    assert_eq!(texts(&context), vec!["p", "q1", "a1", "q2"]);
    assert_eq!(context[2].source, MessageSource::Assistant);
}

#[test]
fn session_window_holds_exactly_one_hundred() {
    let mut session = Session::new(vec![]);
    for i in 0..100 {
        session.append(Message::user(&format!("m{}", i)));
    }
    let context = session.context_window();
    assert_eq!(context.len(), 100);
    for i in 0..100 {
        assert_eq!(context[i].text, format!("m{}", i));
    }
}

#[test]
fn session_window_drops_oldest_when_full() {
    let mut session = Session::new(vec![]);
    for i in 1..=101 {
        session.append(Message::user(&format!("m{}", i)));
    }
    let context = session.context_window();
    assert_eq!(context.len(), 100);
    for i in 0..100 {
        assert_eq!(context[i].text, format!("m{}", i + 2));
    }
}

#[test]
fn session_prompts_survive_window_overflow() {
    let mut session = Session::new(vec![Message::user("text"), Message::system("rules")]);
    for i in 0..350 {
        session.append(Message::assistant(&format!("m{}", i)));
    }
    let context = session.context_window();
    assert_eq!(context.len(), 102);
    assert_eq!(context[0].text, "text");
    assert_eq!(context[0].source, MessageSource::User);
    assert_eq!(context[1].text, "rules");
    assert_eq!(context[1].source, MessageSource::System);
    assert_eq!(context[2].text, "m250");
    assert_eq!(context[101].text, "m349");
}

#[test]
fn session_context_is_a_copy() {
    let mut session = Session::new(vec![Message::user("p")]);
    let before = session.context_window();
    session.append(Message::user("later"));
    assert_eq!(before.len(), 1);
    assert_eq!(session.context_window().len(), 2);
}
