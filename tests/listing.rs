use forum::{page_number, AppError, Forum, NewComment, NewTopic, NewUser, TopicPayload};

const SECRET: &str = "listing-tests-secret";

fn setup(n_topics: u128) -> Forum {
    let mut f = Forum::new();
    let u = NewUser {
        email: "carol@example.com".to_string(),
        password: "pw".to_string(),
        username: "carol".to_string(),
    };
    f.register(7, u, &SECRET.to_string(), 1).unwrap();
    for k in 0..n_topics {
        let t = NewTopic {
            content: format!("content {}", k),
            tags: vec![if k % 2 == 0 { "Even" } else { "odd" }.to_string()],
            title: format!("title {}", k),
            user_id: 7,
        };
        f.create_topic(1000 + k, t, 7, 10 + k as u64).unwrap();
    }
    f
}

#[test]
fn topic_pages_and_total() {
    let f = setup(23);
    let (page1, total) = f.get_topics(1);
    assert_eq!(total, 23);
    assert_eq!(page1, (1013u128..1023).rev().collect::<Vec<u128>>());
    let (page3, _) = f.get_topics(3);
    assert_eq!(page3, vec![1002, 1001, 1000]);
    let (page4, total4) = f.get_topics(4);
    assert!(page4.is_empty());
    assert_eq!(total4, 23);
}

#[test]
fn tag_listing_reads_the_membership() {
    let f = setup(5);
    let (items, total) = f.get_topics_by_tag(&"even".to_string(), 1);
    assert_eq!(items, vec![1000, 1002, 1004]);
    assert_eq!(total, 3);
    let (none, zero) = f.get_topics_by_tag(&"missing".to_string(), 1);
    assert!(none.is_empty());
    assert_eq!(zero, 0);
}

#[test]
fn owner_listing_counts_own_topics() {
    let f = setup(12);
    let carol = "carol".to_string();
    let (page2, total) = f.get_user_topics(&carol, 2).unwrap();
    assert_eq!(total, 12);
    assert_eq!(page2, vec![1001, 1000]);
    assert_eq!(f.get_user_topics(&"dave".to_string(), 1), Err(AppError::NotFound));
}

#[test]
fn a_changed_topic_comes_first_and_ties_go_to_the_later() {
    let mut f = setup(3);
    let change = TopicPayload {
        id: 1000,
        content: "changed".to_string(),
        tags: vec![],
        tags_removed: vec![],
        title: "changed".to_string(),
        user_id: 7,
    };
    f.topic_update(change, 7, 99).unwrap();
    assert_eq!(f.get_topics(1).0, vec![1000, 1002, 1001]);
    let same_time = NewTopic {
        content: "c".to_string(),
        tags: vec![],
        title: "t".to_string(),
        user_id: 7,
    };
    f.create_topic(2000, same_time, 7, 99).unwrap();
    assert_eq!(f.get_topics(1).0, vec![2000, 1000, 1002, 1001]);
    let (mine, total) = f.get_user_topics(&"carol".to_string(), 1).unwrap();
    assert_eq!(mine, vec![2000, 1000, 1002, 1001]);
    assert_eq!(total, 4);
}

#[test]
fn users_listing() {
    let f = setup(0);
    assert_eq!(f.get_users(1), (vec![7], 1));
    assert_eq!(f.get_users(2), (vec![], 1));
    let mut f = f;
    let later = NewUser {
        email: "dan@example.com".to_string(),
        password: "pw".to_string(),
        username: "dan".to_string(),
    };
    f.register(8, later, &SECRET.to_string(), 5).unwrap();
    assert_eq!(f.get_users(1), (vec![8, 7], 2));
}

#[test]
fn tag_counts() {
    let f = setup(3);
    assert_eq!(
        f.get_tags(),
        vec![("even".to_string(), 2), ("odd".to_string(), 1)]
    );
}

#[test]
fn page_numbers() {
    assert_eq!(page_number(None), Ok(1));
    assert_eq!(page_number(Some("3")), Ok(3));
    assert_eq!(page_number(Some("+12")), Ok(12));
    assert_eq!(page_number(Some("007")), Ok(7));
    assert_eq!(page_number(Some("2147483647")), Ok(2147483647));
    assert_eq!(page_number(Some("2147483648")), Err(AppError::Invalid));
    assert_eq!(page_number(Some("0")), Err(AppError::Invalid));
    assert_eq!(page_number(Some("-1")), Err(AppError::Invalid));
    assert_eq!(page_number(Some("")), Err(AppError::Invalid));
    assert_eq!(page_number(Some("+")), Err(AppError::Invalid));
    assert_eq!(page_number(Some("1a")), Err(AppError::Invalid));
}

#[test]
fn comments_come_newest_first() {
    let mut f = setup(1);
    for (id, text) in [(1u128, "first"), (2u128, "second"), (3u128, "third")] {
        let c = NewComment {
            content: text.to_string(),
            topic: 1000,
            user_id: 7,
        };
        f.topic_comment(id, c, 7, 50 + id as u64).unwrap();
    }
    assert_eq!(f.topics[0].comments, vec![1, 2, 3]);
    let (i, cs) = f.get_topic(1000).unwrap();
    assert_eq!(i, 0);
    assert_eq!(cs, vec![3, 2, 1]);
    assert_eq!(f.comments.len(), 3);
    assert_eq!(f.comments[1].content, "second");
    assert_eq!(f.comments[1].author, 7);
    assert_eq!(f.get_topic(5), Err(AppError::NotFound));
}

#[test]
fn comment_errors() {
    let mut f = setup(1);
    let c = |topic: u128, user: u128, text: &str| NewComment {
        content: text.to_string(),
        topic,
        user_id: user,
    };
    assert_eq!(f.topic_comment(1, c(1000, 8, "x"), 7, 1), Err(AppError::Forbidden));
    assert_eq!(f.topic_comment(1, c(1000, 8, "x"), 8, 1), Err(AppError::NotFound));
    assert_eq!(f.topic_comment(1, c(4444, 7, "x"), 7, 1), Err(AppError::NotFound));
    assert_eq!(f.topic_comment(1, c(1000, 7, ""), 7, 1), Err(AppError::Invalid));
    f.topic_comment(1, c(1000, 7, "x"), 7, 1).unwrap();
    assert_eq!(f.topic_comment(1, c(1000, 7, "y"), 7, 1), Err(AppError::Duplicate));
    assert_eq!(f.topics[0].comments, vec![1]);
}
