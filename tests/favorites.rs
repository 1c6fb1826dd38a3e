use forum::{AppError, Forum, NewTopic, NewUser};

const SECRET: &str = "favorite-tests-secret";

fn setup() -> Forum {
    let mut f = Forum::new();
    for (id, name) in [(1u128, "alice"), (2u128, "bob")] {
        let u = NewUser {
            email: format!("{}@example.com", name),
            password: "pw".to_string(),
            username: name.to_string(),
        };
        f.register(id, u, &SECRET.to_string(), 1).unwrap();
    }
    let t = NewTopic {
        content: "body".to_string(),
        tags: vec!["misc".to_string()],
        title: "title".to_string(),
        user_id: 1,
    };
    f.create_topic(100, t, 1, 5).unwrap();
    f
}

#[test]
fn two_users_favorite_then_one_leaves() {
    let mut f = setup();
    assert_eq!(f.favor(1, 100), Ok((true, 1)));
    assert_eq!(f.favor(2, 100), Ok((true, 2)));
    assert_eq!(f.favor(1, 100), Ok((false, 1)));
    assert_eq!(f.topics[0].favorite_count, 1);
    assert!(!f.users[0].favorites.contains(&100));
    assert_eq!(f.users[1].favorites, vec![100]);
}

#[test]
fn toggling_twice_restores_membership_and_count() {
    let mut f = setup();
    assert_eq!(f.topics[0].favorite_count, 0);
    assert_eq!(f.favor(2, 100), Ok((true, 1)));
    assert_eq!(f.favor(2, 100), Ok((false, 0)));
    assert!(f.users[1].favorites.is_empty());
    assert_eq!(f.topics[0].favorite_count, 0);
    // and from the favorited state
    f.favor(1, 100).unwrap();
    f.favor(1, 100).unwrap();
    f.favor(1, 100).unwrap();
    assert_eq!(f.users[0].favorites, vec![100]);
    assert_eq!(f.topics[0].favorite_count, 1);
}

#[test]
fn owner_may_favorite_own_topic() {
    let mut f = setup();
    assert_eq!(f.favor(1, 100), Ok((true, 1)));
}

#[test]
fn favor_unknown_user_or_topic_is_not_found() {
    let mut f = setup();
    assert_eq!(f.favor(9, 100), Err(AppError::NotFound));
    assert_eq!(f.favor(1, 999), Err(AppError::NotFound));
    assert_eq!(f.topics[0].favorite_count, 0);
}

#[test]
fn favorites_total_is_list_length_on_every_page() {
    let mut f = setup();
    for id in 101u128..=112 {
        let t = NewTopic {
            content: "c".to_string(),
            tags: vec![],
            title: "t".to_string(),
            user_id: 1,
        };
        f.create_topic(id, t, 1, 6).unwrap();
        f.favor(2, id).unwrap();
    }
    let bob = "bob".to_string();
    let (page1, total1) = f.get_user_favorites(&bob, 1).unwrap();
    assert_eq!(total1, 12);
    assert_eq!(page1, (101u128..=110).collect::<Vec<u128>>());
    let (page2, total2) = f.get_user_favorites(&bob, 2).unwrap();
    assert_eq!(total2, 12);
    assert_eq!(page2, vec![111, 112]);
    let (page3, total3) = f.get_user_favorites(&bob, 3).unwrap();
    assert_eq!(total3, 12);
    assert!(page3.is_empty());
    assert_eq!(
        f.get_user_favorites(&"nobody".to_string(), 1),
        Err(AppError::NotFound)
    );
}
