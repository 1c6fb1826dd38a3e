use forum::{hash, AppError, AuthError, AuthPayload, Forum, NewUser, UserPayload};

const SECRET: &str = "user-tests-salt-secret";

fn secret() -> String {
    SECRET.to_string()
}

fn new_user(name: &str, email: &str) -> NewUser {
    NewUser {
        email: email.to_string(),
        password: "hunter2".to_string(),
        username: name.to_string(),
    }
}

fn settings(id: u128, name: &str, email: &str, password: Option<&str>) -> UserPayload {
    UserPayload {
        id,
        avatar: "a.png".to_string(),
        bio: "bio".to_string(),
        birthday: "2000-01-01".to_string(),
        email: email.to_string(),
        gender: 1,
        job: "dev".to_string(),
        nickname: "Nick".to_string(),
        password: password.map(|p| p.to_string()),
        phone: "123".to_string(),
        username: name.to_string(),
    }
}

#[test]
fn register_stores_digest_and_defaults() {
    let mut f = Forum::new();
    f.register(1, new_user("alice", "a@x.org"), &secret(), 42).unwrap();
    let u = &f.users[0];
    assert_eq!(u.username, "alice");
    assert_eq!(u.nickname, "alice");
    assert_eq!(u.email, "a@x.org");
    assert_ne!(u.password, "hunter2");
    assert_eq!(u.password, hash(&"hunter2".to_string(), &secret()).unwrap());
    assert!(u.password.starts_with("$argon2id$"));
    assert!(u.favorites.is_empty());
    assert_eq!(u.gender, -1);
    assert_eq!(u.created_at, 42);
}

#[test]
fn register_rejects_duplicates_and_empty_fields() {
    let mut f = Forum::new();
    f.register(1, new_user("alice", "a@x.org"), &secret(), 1).unwrap();
    assert_eq!(f.register(2, new_user("alice", "b@x.org"), &secret(), 1), Err(AppError::Duplicate));
    assert_eq!(f.register(2, new_user("bob", "a@x.org"), &secret(), 1), Err(AppError::Duplicate));
    assert_eq!(f.register(1, new_user("bob", "b@x.org"), &secret(), 1), Err(AppError::Duplicate));
    assert_eq!(f.register(2, new_user("", "b@x.org"), &secret(), 1), Err(AppError::Invalid));
    assert_eq!(f.register(2, new_user("bob", ""), &secret(), 1), Err(AppError::Invalid));
    assert_eq!(f.users.len(), 1);
}

#[test]
fn register_with_unusable_secret_is_internal() {
    let mut f = Forum::new();
    let too_long = "s".repeat(100);
    assert_eq!(f.register(1, new_user("alice", "a@x.org"), &too_long, 1), Err(AppError::Internal));
    assert!(f.users.is_empty());
}

#[test]
fn short_secrets_are_refused_without_hashing() {
    let pw = "hunter2".to_string();
    assert_eq!(hash(&pw, &String::new()), Err(AppError::Internal));
    assert_eq!(hash(&pw, &"ab".to_string()), Err(AppError::Internal));
    assert_eq!(hash(&pw, &"é".to_string()), Err(AppError::Internal));
    let mut f = Forum::new();
    assert_eq!(f.register(1, new_user("alice", "a@x.org"), &String::new(), 1), Err(AppError::Internal));
    assert!(f.users.is_empty());
    f.register(1, new_user("alice", "a@x.org"), &secret(), 1).unwrap();
    let ok = AuthPayload { email: "a@x.org".to_string(), password: "hunter2".to_string() };
    assert_eq!(f.login(&ok, &"x".to_string()), Err(AppError::Internal));
    assert_eq!(
        f.update_my_settings(settings(1, "alice", "a@x.org", Some("new")), 1, &"xy".to_string(), 2),
        Err(AppError::Internal)
    );
}

#[test]
fn login_outcomes() {
    let mut f = Forum::new();
    f.register(1, new_user("alice", "a@x.org"), &secret(), 1).unwrap();
    let ok = AuthPayload { email: "a@x.org".to_string(), password: "hunter2".to_string() };
    assert_eq!(f.login(&ok, &secret()), Ok(0));
    let wrong = AuthPayload { email: "a@x.org".to_string(), password: "nope".to_string() };
    assert_eq!(f.login(&wrong, &secret()), Err(AppError::Auth(AuthError::InvalidCredentials)));
    let stranger = AuthPayload { email: "z@x.org".to_string(), password: "hunter2".to_string() };
    assert_eq!(f.login(&stranger, &secret()), Err(AppError::Auth(AuthError::InvalidCredentials)));
    let empty = AuthPayload { email: String::new(), password: "hunter2".to_string() };
    assert_eq!(f.login(&empty, &secret()), Err(AppError::Auth(AuthError::MissingCredentials)));
}

#[test]
fn settings_update_changes_profile_and_password() {
    let mut f = Forum::new();
    f.register(1, new_user("alice", "a@x.org"), &secret(), 1).unwrap();
    let old_digest = f.users[0].password.clone();
    f.update_my_settings(settings(1, "alicia", "al@x.org", None), 1, &secret(), 9).unwrap();
    let u = &f.users[0];
    assert_eq!(u.username, "alicia");
    assert_eq!(u.email, "al@x.org");
    assert_eq!(u.nickname, "Nick");
    assert_eq!(u.gender, 1);
    assert_eq!(u.updated_at, 9);
    assert_eq!(u.password, old_digest);
    f.update_my_settings(settings(1, "alicia", "al@x.org", Some("")), 1, &secret(), 10).unwrap();
    assert_eq!(f.users[0].password, old_digest);
    f.update_my_settings(settings(1, "alicia", "al@x.org", Some("new")), 1, &secret(), 11).unwrap();
    assert_eq!(f.users[0].password, hash(&"new".to_string(), &secret()).unwrap());
}

#[test]
fn settings_update_errors() {
    let mut f = Forum::new();
    f.register(1, new_user("alice", "a@x.org"), &secret(), 1).unwrap();
    f.register(2, new_user("bob", "b@x.org"), &secret(), 1).unwrap();
    assert_eq!(f.update_my_settings(settings(1, "x", "x@x", None), 2, &secret(), 1), Err(AppError::Forbidden));
    assert_eq!(f.update_my_settings(settings(3, "x", "x@x", None), 3, &secret(), 1), Err(AppError::NotFound));
    assert_eq!(f.update_my_settings(settings(1, "", "x@x", None), 1, &secret(), 1), Err(AppError::Invalid));
    assert_eq!(f.update_my_settings(settings(1, "bob", "x@x", None), 1, &secret(), 1), Err(AppError::Duplicate));
    assert_eq!(f.update_my_settings(settings(1, "x", "b@x.org", None), 1, &secret(), 1), Err(AppError::Duplicate));
    assert_eq!(f.users[0].username, "alice");
}

#[test]
fn lookups_by_id_and_name() {
    let mut f = Forum::new();
    f.register(5, new_user("erin", "e@x.org"), &secret(), 1).unwrap();
    assert_eq!(f.query_user(5), Ok(0));
    assert_eq!(f.query_user(6), Err(AppError::NotFound));
    assert_eq!(f.get_user(&"erin".to_string()), Ok(0));
    assert_eq!(f.get_user(&"frank".to_string()), Err(AppError::NotFound));
    assert_eq!(f.query_topic(1), Err(AppError::NotFound));
}
