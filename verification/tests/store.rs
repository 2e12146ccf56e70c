use summy::message::{Message, MessageSource};
use summy::store::SessionStore;

#[test]
fn multiple_sessions() {
    let mut store = SessionStore::new();
    for i in 0..10 {
        store.create_session(
            &format!("thread-{}", i),
            vec![Message::user(&format!("This is thread {}", i))],
        );
    }

    for i in 0..10 {
        let result = store.context_window(&format!("thread-{}", i));
        assert!(result.is_some(), "Expected Some, got {:?}", result);

        let context = result.unwrap();
        assert_eq!(context.len(), 1);
        assert_eq!(context[0].text, format!("This is thread {}", i));
        assert_eq!(context[0].source, MessageSource::User);
    }
}

#[test]
fn message_eviction() {
    let mut store = SessionStore::new();
    store.create_session("id", vec![]);

    for i in 0..100 {
        store.append_messages("id", vec![Message::user(&format!("This is message {}", i))]);
    }

    let context = store.context_window("id");
    assert!(context.is_some(), "Expected Some, got {:?}", context);

    let context = context.unwrap();
    assert_eq!(context.len(), 100);

    let msg = context[0].clone();
    assert_eq!(msg.source, MessageSource::User);
    assert_eq!(msg.text, "This is message 0");

    store.append_messages("id", vec![Message::user("This is the latest message")]);

    let context = store.context_window("id");
    assert!(context.is_some(), "Expected Some, got {:?}", context);

    let context = context.unwrap();
    assert_eq!(context.len(), 100);

    let msg = context[0].clone();
    assert_eq!(msg.source, MessageSource::User);
    assert_eq!(msg.text, "This is message 1");

    let msg = context[99].clone();
    assert_eq!(msg.source, MessageSource::User);
    assert_eq!(msg.text, "This is the latest message");
}

#[test]
fn session_eviction() {
    let mut store = SessionStore::new();
    for i in 0..100 {
        store.create_session(
            &format!("session-{}", i),
            vec![Message::user(&format!("This is session {}", i))],
        );
    }

    for i in 0..100 {
        let context = store.context_window(&format!("session-{}", i));
        assert!(context.is_some(), "Expected Some, got {:?}", context);

        let context = context.unwrap();
        assert_eq!(context.len(), 1);
        assert_eq!(context[0].text, format!("This is session {}", i));
    }

    let excluded = 50;
    for i in 0..100 {
        if i != excluded {
            store.context_window(&format!("session-{}", i));
        }
    }

    store.create_session("new-session", vec![Message::user("This is the latest session")]);

    let context = store.context_window(&format!("session-{}", excluded));
    assert!(context.is_none(), "Expected None, got {:?}", context);

    let context = store.context_window("new-session");
    assert!(context.is_some(), "Expected Some, got {:?}", context);

    let context = context.unwrap();
    assert_eq!(context.len(), 1);
    assert_eq!(context[0].text, "This is the latest session");

    for i in 0..100 {
        if i != excluded {
            let context = store.context_window(&format!("session-{}", i));
            assert!(context.is_some(), "Expected Some, got {:?}", context);
            assert_eq!(context.unwrap()[0].text, format!("This is session {}", i));
        }
    }
}

#[test]
fn session_removal() {
    let mut store = SessionStore::new();
    store.create_session("one", vec![]);
    store.create_session("two", vec![]);

    let context = store.context_window("one");
    assert!(context.is_some(), "Expected Some, got {:?}", context);

    store.remove_session("one");

    let context = store.context_window("one");
    assert!(context.is_none(), "Expected None, got {:?}", context);

    let context = store.context_window("two");
    assert!(context.is_some(), "Expected Some, got {:?}", context);
}

fn texts(messages: &[Message]) -> Vec<String> {
    messages.iter().map(|m| m.text.clone()).collect()
}

#[test]
fn new_store_holds_nothing() {
    let mut store = SessionStore::new();
    assert!(store.context_window("anything").is_none());
    assert!(store.context_window("").is_none());
}

#[test]
fn created_session_reads_back_its_prompts() {
    let mut store = SessionStore::new();
    store.create_session(
        "s",
        vec![Message::user("one"), Message::system("two"), Message::assistant("three")],
    );
    let context = store.context_window("s").unwrap();
    assert_eq!(texts(&context), vec!["one", "two", "three"]);
    assert_eq!(context[0].source, MessageSource::User);
    assert_eq!(context[1].source, MessageSource::System);
    assert_eq!(context[2].source, MessageSource::Assistant);
}

#[test]
fn created_session_with_empty_id_and_no_prompts() {
    let mut store = SessionStore::new();
    store.create_session("", vec![]);
    let context = store.context_window("").unwrap();
    assert!(context.is_empty());
}

#[test]
fn creating_again_replaces_the_session() {
    let mut store = SessionStore::new();
    store.create_session("s", vec![Message::user("old")]);
    store.append_messages("s", vec![Message::user("q"), Message::assistant("a")]);
    store.create_session("s", vec![Message::user("new")]);
    let context = store.context_window("s").unwrap();
    assert_eq!(texts(&context), vec!["new"]);
}

#[test]
fn creating_again_in_a_full_store_evicts_nothing() {
    let mut store = SessionStore::new();
    for i in 0..100 {
        store.create_session(&format!("s{}", i), vec![Message::user(&format!("p{}", i))]);
    }
    store.create_session("s0", vec![Message::user("again")]);
    for i in 1..100 {
        let context = store.context_window(&format!("s{}", i)).unwrap();
        assert_eq!(texts(&context), vec![format!("p{}", i)]);
    }
    assert_eq!(texts(&store.context_window("s0").unwrap()), vec!["again"]);
}

#[test]
fn append_keeps_order_and_follows_prompts() {
    let mut store = SessionStore::new();
    store.create_session("s", vec![Message::user("text"), Message::system("rules")]);
    store.append_messages("s", vec![Message::user("q1"), Message::assistant("a1")]);
    store.append_messages("s", vec![]);
    store.append_messages("s", vec![Message::user("q2"), Message::assistant("a2")]);
    let context = store.context_window("s").unwrap();
    assert_eq!(texts(&context), vec!["text", "rules", "q1", "a1", "q2", "a2"]);
    assert_eq!(context[3].source, MessageSource::Assistant);
}

#[test]
fn append_to_unknown_session_does_nothing() {
    let mut store = SessionStore::new();
    store.create_session("known", vec![Message::user("p")]);
    store.append_messages("unknown", vec![Message::user("lost")]);
    assert!(store.context_window("unknown").is_none());
    assert_eq!(texts(&store.context_window("known").unwrap()), vec!["p"]);
}

#[test]
fn window_of_up_to_one_hundred_keeps_all() {
    for count in [0usize, 1, 50, 99, 100] {
        let mut store = SessionStore::new();
        store.create_session("s", vec![]);
        let batch: Vec<Message> = (0..count).map(|i| Message::user(&format!("m{}", i))).collect();
        store.append_messages("s", batch);
        let context = store.context_window("s").unwrap();
        assert_eq!(context.len(), count);
        for i in 0..count {
            assert_eq!(context[i].text, format!("m{}", i));
        }
    }
}

#[test]
fn one_batch_of_one_hundred_and_one_drops_the_first() {
    let mut store = SessionStore::new();
    store.create_session("s", vec![]);
    let batch: Vec<Message> = (1..=101).map(|i| Message::user(&format!("m{}", i))).collect();
    store.append_messages("s", batch);
    let context = store.context_window("s").unwrap();
    assert_eq!(context.len(), 100);
    for i in 0..100 {
        assert_eq!(context[i].text, format!("m{}", i + 2));
    }
}

#[test]
fn batches_and_single_appends_agree() {
    let mut batched = SessionStore::new();
    let mut single = SessionStore::new();
    batched.create_session("s", vec![Message::system("p")]);
    single.create_session("s", vec![Message::system("p")]);
    let mut n = 0;
    for size in [3usize, 60, 0, 45, 120, 7] {
        let batch: Vec<Message> = (0..size).map(|i| Message::user(&format!("m{}", n + i))).collect();
        for message in batch.iter() {
            single.append_messages("s", vec![message.clone()]);
        }
        batched.append_messages("s", batch);
        n += size;
    }
    let a = batched.context_window("s").unwrap();
    let b = single.context_window("s").unwrap();
    assert_eq!(a.len(), 101);
    assert_eq!(texts(&a), texts(&b));
    assert_eq!(a[0].text, "p");
    assert_eq!(a[1].text, format!("m{}", n - 100));
    assert_eq!(a[100].text, format!("m{}", n - 1));
}

#[test]
fn prompts_outlast_any_number_of_appends() {
    let mut store = SessionStore::new();
    store.create_session("s", vec![Message::user("text"), Message::system("rules")]);
    store.create_session("t", vec![Message::user("other")]);
    for round in 0..40 {
        let batch: Vec<Message> =
            (0..9).map(|i| Message::assistant(&format!("r{}-{}", round, i))).collect();
        store.append_messages("s", batch);
        store.append_messages("t", vec![Message::user("x")]);
        let context = store.context_window("s").unwrap();
        assert_eq!(context[0].text, "text");
        assert_eq!(context[0].source, MessageSource::User);
        assert_eq!(context[1].text, "rules");
        assert_eq!(context[1].source, MessageSource::System);
        assert!(context.len() <= 102);
    }
    let context = store.context_window("s").unwrap();
    assert_eq!(context.len(), 102);
    assert_eq!(context[101].text, "r39-8");
    let other = store.context_window("t").unwrap();
    assert_eq!(other.len(), 41);
    assert_eq!(other[0].text, "other");
}

#[test]
fn one_hundred_sessions_fit() {
    let mut store = SessionStore::new();
    for i in 0..100 {
        store.create_session(&format!("s{}", i), vec![Message::user(&format!("p{}", i))]);
    }
    for i in 0..100 {
        let context = store.context_window(&format!("s{}", i)).unwrap();
        assert_eq!(texts(&context), vec![format!("p{}", i)]);
    }
}

#[test]
fn one_more_session_evicts_the_one_created_first() {
    let mut store = SessionStore::new();
    for i in 0..100 {
        store.create_session(&format!("s{}", i), vec![Message::user(&format!("p{}", i))]);
    }
    store.create_session("extra", vec![Message::user("pe")]);
    assert!(store.context_window("s0").is_none());
    for i in 1..100 {
        let context = store.context_window(&format!("s{}", i)).unwrap();
        assert_eq!(texts(&context), vec![format!("p{}", i)]);
    }
    assert_eq!(texts(&store.context_window("extra").unwrap()), vec!["pe"]);
}

#[test]
fn each_further_session_evicts_the_next_oldest() {
    let mut store = SessionStore::new();
    for i in 0..103 {
        store.create_session(&format!("s{}", i), vec![]);
    }
    // Looked at from the most recently used one down, so that the reads leave
    // the order as it is.
    for i in (3..103).rev() {
        assert!(store.context_window(&format!("s{}", i)).is_some());
    }
    for i in 0..3 {
        assert!(store.context_window(&format!("s{}", i)).is_none());
    }
}

#[test]
fn appending_counts_as_use() {
    let mut store = SessionStore::new();
    for i in 0..100 {
        store.create_session(&format!("s{}", i), vec![]);
    }
    store.append_messages("s0", vec![Message::user("still here")]);
    store.create_session("extra", vec![]);
    assert!(store.context_window("s1").is_none());
    assert_eq!(texts(&store.context_window("s0").unwrap()), vec!["still here"]);
    assert!(store.context_window("extra").is_some());
}

#[test]
fn reading_an_unknown_session_changes_no_order() {
    let mut store = SessionStore::new();
    for i in 0..100 {
        store.create_session(&format!("s{}", i), vec![]);
    }
    assert!(store.context_window("nobody").is_none());
    store.append_messages("nobody", vec![Message::user("x")]);
    store.create_session("extra", vec![]);
    assert!(store.context_window("s0").is_none());
    assert!(store.context_window("s1").is_some());
}

#[test]
fn removing_an_unknown_session_changes_nothing() {
    let mut store = SessionStore::new();
    store.create_session("a", vec![Message::user("pa")]);
    store.create_session("b", vec![Message::user("pb")]);
    store.remove_session("c");
    assert_eq!(texts(&store.context_window("a").unwrap()), vec!["pa"]);
    assert_eq!(texts(&store.context_window("b").unwrap()), vec!["pb"]);
    assert!(store.context_window("c").is_none());
}

#[test]
fn removing_twice_is_removing_once() {
    let mut store = SessionStore::new();
    store.create_session("a", vec![Message::user("pa")]);
    store.create_session("b", vec![Message::user("pb")]);
    store.remove_session("a");
    store.remove_session("a");
    assert!(store.context_window("a").is_none());
    assert_eq!(texts(&store.context_window("b").unwrap()), vec!["pb"]);
}

#[test]
fn removal_makes_room_and_keeps_the_order_of_the_rest() {
    let mut store = SessionStore::new();
    for i in 0..100 {
        store.create_session(&format!("s{}", i), vec![]);
    }
    store.remove_session("s50");
    store.create_session("first-extra", vec![]);
    // There was room: nothing left.
    store.create_session("second-extra", vec![]);
    // Now the oldest had to leave, and only it.
    for i in (1..100).rev() {
        if i != 50 {
            assert!(store.context_window(&format!("s{}", i)).is_some());
        }
    }
    assert!(store.context_window("s0").is_none());
    assert!(store.context_window("s50").is_none());
    assert!(store.context_window("first-extra").is_some());
    assert!(store.context_window("second-extra").is_some());
}

#[test]
fn a_removed_session_can_be_created_anew() {
    let mut store = SessionStore::new();
    store.create_session("a", vec![Message::user("first")]);
    store.append_messages("a", vec![Message::user("q")]);
    store.remove_session("a");
    store.create_session("a", vec![Message::user("second")]);
    assert_eq!(texts(&store.context_window("a").unwrap()), vec!["second"]);
}

#[test]
fn sessions_do_not_share_their_windows() {
    let mut store = SessionStore::new();
    store.create_session("a", vec![Message::user("pa")]);
    store.create_session("b", vec![Message::user("pb")]);
    store.append_messages("a", vec![Message::user("qa")]);
    store.append_messages("b", vec![Message::user("qb1"), Message::user("qb2")]);
    assert_eq!(texts(&store.context_window("a").unwrap()), vec!["pa", "qa"]);
    assert_eq!(texts(&store.context_window("b").unwrap()), vec!["pb", "qb1", "qb2"]);
}

#[test]
fn identifiers_are_compared_exactly() {
    let mut store = SessionStore::new();
    store.create_session("id", vec![Message::user("lower")]);
    store.create_session("ID", vec![Message::user("upper")]);
    store.create_session("id ", vec![Message::user("spaced")]);
    assert_eq!(texts(&store.context_window("id").unwrap()), vec!["lower"]);
    assert_eq!(texts(&store.context_window("ID").unwrap()), vec!["upper"]);
    assert_eq!(texts(&store.context_window("id ").unwrap()), vec!["spaced"]);
    assert!(store.context_window("i").is_none());
}
