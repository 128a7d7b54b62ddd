use axum_ws::Topic;

#[test]
fn test_topic_is_match() {
    let topic1: Topic = "room:*".into();
    let topic2: Topic = "room:123".into();
    let topic3: Topic = "user:123".into();
    let topic4: Topic = "room:123".into();

    assert!(topic1.is_match(&topic2));
    assert!(!topic1.is_match(&topic3));
    assert!(topic2.is_match(&topic4));
}

#[test]
fn topic_matches_itself() {
    for t in ["", "a", "room:1", "a::b", "x:*:y", ":"] {
        let topic: Topic = t.into();
        assert!(topic.is_match(&topic), "{}", t);
    }
}

#[test]
fn wildcard_pattern_matches_every_topic() {
    let all: Topic = "*".into();
    for t in ["", "room", "room:1", "a:b:c"] {
        assert!(all.is_match(&t.into()), "{}", t);
    }
}

#[test]
fn prefix_wildcard_matches_topics_under_the_prefix() {
    let pattern: Topic = "room:*".into();
    assert!(pattern.is_match(&"room:".into()));
    assert!(pattern.is_match(&"room:a:b".into()));
    assert!(pattern.is_match(&"room".into()));
    assert!(!pattern.is_match(&"rooms:1".into()));
    assert!(!pattern.is_match(&"".into()));
}

#[test]
fn exact_pattern_matches_only_its_own_text() {
    let pattern: Topic = "room:1".into();
    assert!(pattern.is_match(&"room:1".into()));
    assert!(!pattern.is_match(&"room:1:2".into()));
    assert!(!pattern.is_match(&"room".into()));
    assert!(!pattern.is_match(&"room:2".into()));
    let star_inside: Topic = "room:1*".into();
    assert!(!star_inside.is_match(&"room:12".into()));
}

#[test]
fn topic_text_and_copies() {
    let t = Topic::new("room:1");
    assert_eq!(t.as_str(), "room:1");
    assert_eq!(&*t, "room:1");
    assert!(t.same_as(&t.duplicate()));
    assert!(!t.same_as(&Topic::new("room:2")));
}
