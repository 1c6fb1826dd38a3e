use forum::{AppError, Forum, NewTopic, NewUser, TopicPayload};

const SECRET: &str = "tag-tests-salt-secret";

fn strings(v: &[&str]) -> Vec<String> {
    v.iter().map(|s| s.to_string()).collect()
}

fn forum_with_user(id: u128, name: &str) -> Forum {
    let mut f = Forum::new();
    let u = NewUser {
        email: format!("{}@example.com", name),
        password: "pw".to_string(),
        username: name.to_string(),
    };
    f.register(id, u, &SECRET.to_string(), 1).unwrap();
    f
}

fn new_topic(owner: u128, tags: &[&str]) -> NewTopic {
    NewTopic {
        content: "body".to_string(),
        tags: strings(tags),
        title: "title".to_string(),
        user_id: owner,
    }
}

fn update(id: u128, owner: u128, tags: &[&str], removed: &[&str]) -> TopicPayload {
    TopicPayload {
        id,
        content: "new body".to_string(),
        tags: strings(tags),
        tags_removed: strings(removed),
        title: "new title".to_string(),
        user_id: owner,
    }
}

fn members(f: &Forum, tag: &str) -> Vec<u128> {
    f.tags.topics_for_tag(&tag.to_string())
}

#[test]
fn create_stores_canonical_tags_and_indexes_them() {
    let mut f = forum_with_user(1, "alice");
    f.create_topic(100, new_topic(1, &["Rust", "web"]), 1, 10).unwrap();
    let t = &f.topics[0];
    assert_eq!(t.tags, strings(&["rust", "web"]));
    assert_eq!(t.favorite_count, 0);
    assert!(t.comments.is_empty());
    assert_eq!(members(&f, "rust"), vec![100]);
    assert_eq!(members(&f, "web"), vec![100]);
}

#[test]
fn update_dropping_a_tag_deletes_the_emptied_tag() {
    let mut f = forum_with_user(1, "alice");
    f.create_topic(100, new_topic(1, &["Rust", "web"]), 1, 10).unwrap();
    f.topic_update(update(100, 1, &["web"], &["rust"]), 1, 20).unwrap();
    assert_eq!(f.topics[0].tags, strings(&["web"]));
    assert!(members(&f, "rust").is_empty());
    assert!(f.tags.find(&"rust".to_string()).is_none());
    assert_eq!(members(&f, "web"), vec![100]);
    assert_eq!(f.tags.rows.len(), 1);
}

#[test]
fn dropping_a_shared_tag_keeps_the_other_topic() {
    let mut f = forum_with_user(1, "alice");
    f.create_topic(100, new_topic(1, &["rust"]), 1, 10).unwrap();
    f.create_topic(200, new_topic(1, &["Rust", "go"]), 1, 11).unwrap();
    assert_eq!(members(&f, "rust"), vec![100, 200]);
    f.topic_update(update(200, 1, &["go"], &[]), 1, 12).unwrap();
    assert_eq!(members(&f, "rust"), vec![100]);
    assert!(f.tags.find(&"rust".to_string()).is_some());
    assert_eq!(members(&f, "go"), vec![200]);
}

#[test]
fn update_ignores_a_stale_removed_hint() {
    let mut f = forum_with_user(1, "alice");
    f.create_topic(100, new_topic(1, &["a", "b"]), 1, 10).unwrap();
    // the hint names a tag that stays and omits one that goes
    f.topic_update(update(100, 1, &["a", "c"], &["a"]), 1, 20).unwrap();
    assert_eq!(members(&f, "a"), vec![100]);
    assert!(members(&f, "b").is_empty());
    assert!(f.tags.find(&"b".to_string()).is_none());
    assert_eq!(members(&f, "c"), vec![100]);
}

#[test]
fn reconcile_with_unchanged_tags_changes_nothing() {
    let mut f = forum_with_user(1, "alice");
    f.create_topic(100, new_topic(1, &["x", "y"]), 1, 10).unwrap();
    f.create_topic(200, new_topic(1, &["y"]), 1, 10).unwrap();
    let before = f.get_tags();
    let same = strings(&["x", "y"]);
    f.tags.update_tags(100, &same, &same);
    assert_eq!(f.get_tags(), before);
    f.topic_update(update(100, 1, &["Y", "x"], &[]), 1, 30).unwrap();
    assert_eq!(f.get_tags(), before);
}

#[test]
fn reconcile_with_unknown_topic_and_empty_sets_is_safe() {
    let mut f = forum_with_user(1, "alice");
    f.create_topic(100, new_topic(1, &["x"]), 1, 10).unwrap();
    let none: Vec<String> = vec![];
    f.tags.update_tags(999, &none, &none);
    f.tags.update_tags(999, &none, &strings(&["x", "nothing"]));
    assert_eq!(members(&f, "x"), vec![100]);
    assert!(members(&f, "nothing").is_empty());
}

#[test]
fn topics_for_missing_tag_is_empty() {
    let f = forum_with_user(1, "alice");
    assert!(members(&f, "absent").is_empty());
}

#[test]
fn two_tag_additions_in_turn_are_both_kept() {
    let mut f = forum_with_user(1, "alice");
    f.create_topic(100, new_topic(1, &["base"]), 1, 10).unwrap();
    f.add_topic_tags(100, strings(&["Alpha"]), 1, 20).unwrap();
    f.add_topic_tags(100, strings(&["beta"]), 1, 21).unwrap();
    assert_eq!(f.topics[0].tags, strings(&["alpha", "base", "beta"]));
    assert_eq!(members(&f, "alpha"), vec![100]);
    assert_eq!(members(&f, "beta"), vec![100]);
    assert_eq!(members(&f, "base"), vec![100]);
}

#[test]
fn tag_addition_errors() {
    let mut f = forum_with_user(1, "alice");
    f.create_topic(100, new_topic(1, &["base"]), 1, 10).unwrap();
    assert_eq!(f.add_topic_tags(555, strings(&["x"]), 1, 20), Err(AppError::NotFound));
    assert_eq!(f.add_topic_tags(100, strings(&["x"]), 2, 20), Err(AppError::Forbidden));
    assert_eq!(f.add_topic_tags(100, strings(&["x", ""]), 1, 20), Err(AppError::Invalid));
    assert_eq!(f.topics[0].tags, strings(&["base"]));
    assert!(members(&f, "x").is_empty());
}

#[test]
fn duplicate_tags_in_any_case_are_kept_once() {
    let mut f = forum_with_user(1, "alice");
    f.create_topic(100, new_topic(1, &["Web", "web", "WEB"]), 1, 10).unwrap();
    assert_eq!(f.topics[0].tags, strings(&["web"]));
    assert_eq!(members(&f, "web"), vec![100]);
}

#[test]
fn create_errors() {
    let mut f = forum_with_user(1, "alice");
    assert_eq!(f.create_topic(100, new_topic(1, &["a"]), 2, 10), Err(AppError::Forbidden));
    assert_eq!(f.create_topic(100, new_topic(2, &["a"]), 2, 10), Err(AppError::NotFound));
    assert_eq!(f.create_topic(100, new_topic(1, &["a", ""]), 1, 10), Err(AppError::Invalid));
    let mut untitled = new_topic(1, &["a"]);
    untitled.title = String::new();
    assert_eq!(f.create_topic(100, untitled, 1, 10), Err(AppError::Invalid));
    f.create_topic(100, new_topic(1, &["a"]), 1, 10).unwrap();
    assert_eq!(f.create_topic(100, new_topic(1, &["b"]), 1, 10), Err(AppError::Duplicate));
    assert!(members(&f, "b").is_empty());
    assert_eq!(f.topics.len(), 1);
}

#[test]
fn update_errors() {
    let mut f = forum_with_user(1, "alice");
    let other = forum::NewUser {
        email: "bob@example.com".to_string(),
        password: "pw".to_string(),
        username: "bob".to_string(),
    };
    f.register(2, other, &SECRET.to_string(), 1).unwrap();
    f.create_topic(100, new_topic(1, &["a"]), 1, 10).unwrap();
    assert_eq!(f.topic_update(update(100, 1, &["b"], &[]), 2, 20), Err(AppError::Forbidden));
    assert_eq!(f.topic_update(update(100, 2, &["b"], &[]), 2, 20), Err(AppError::Forbidden));
    assert_eq!(f.topic_update(update(555, 1, &["b"], &[]), 1, 20), Err(AppError::NotFound));
    assert_eq!(f.topic_update(update(100, 1, &[""], &[]), 1, 20), Err(AppError::Invalid));
    assert_eq!(f.topics[0].tags, strings(&["a"]));
    assert_eq!(members(&f, "a"), vec![100]);
}
