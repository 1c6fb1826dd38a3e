use vstd::prelude::*;

verus! {

/// A registered user. `favorites` lists the topics the user has favorited,
/// in the order of the user's actions, each once.
#[derive(Clone, Debug)]
pub struct User {
    pub id: u128,
    pub avatar: String,
    pub bio: String,
    pub birthday: String,
    pub created_at: u64,
    pub email: String,
    pub favorites: Vec<u128>,
    /// 1: male, 0: female, -1: not given.
    pub gender: i16,
    pub job: String,
    pub nickname: String,
    /// The credential digest.
    pub password: String,
    pub phone: String,
    pub updated_at: u64,
    pub username: String,
}

/// A topic. `tags` holds its canonical tag names; `comments` the ids of its
/// comments in the order they were written.
#[derive(Clone, Debug)]
pub struct Topic {
    pub id: u128,
    pub comments: Vec<u128>,
    pub content: String,
    pub created_at: u64,
    pub favorite_count: u64,
    pub tags: Vec<String>,
    pub title: String,
    pub updated_at: u64,
    pub owner: u128,
}

/// A comment on a topic.
#[derive(Clone, Debug)]
pub struct Comment {
    pub id: u128,
    pub content: String,
    pub created_at: u64,
    pub topic: u128,
    pub author: u128,
}

/// What a client sends to register.
#[derive(Clone, Debug)]
pub struct NewUser {
    pub email: String,
    pub password: String,
    pub username: String,
}

/// What a client sends to change its settings; a password that is absent
/// or empty keeps the current one.
#[derive(Clone, Debug)]
pub struct UserPayload {
    pub id: u128,
    pub avatar: String,
    pub bio: String,
    pub birthday: String,
    pub email: String,
    pub gender: i16,
    pub job: String,
    pub nickname: String,
    pub password: Option<String>,
    pub phone: String,
    pub username: String,
}

/// What a client sends to open a topic.
#[derive(Clone, Debug)]
pub struct NewTopic {
    pub content: String,
    pub tags: Vec<String>,
    pub title: String,
    pub user_id: u128,
}

/// What a client sends to change a topic. `tags_removed` is the client's
/// own view of the tags it dropped; the store works the change out itself.
#[derive(Clone, Debug)]
pub struct TopicPayload {
    pub id: u128,
    pub content: String,
    pub tags: Vec<String>,
    pub tags_removed: Vec<String>,
    pub title: String,
    pub user_id: u128,
}

/// What a client sends to favorite or unfavorite a topic.
#[derive(Clone, Debug)]
pub struct FavorPayload {
    pub topic_id: u128,
}

/// What a client sends to comment on a topic.
#[derive(Clone, Debug)]
pub struct NewComment {
    pub content: String,
    pub topic: u128,
    pub user_id: u128,
}

/// What a client sends to log in.
#[derive(Clone, Debug)]
pub struct AuthPayload {
    pub email: String,
    pub password: String,
}

/// The number of users among `users` whose favorites hold topic `id`.
pub open spec fn fav_count(users: Seq<User>, id: u128) -> nat
    decreases users.len(),
{
    if users.len() == 0 {
        0
    } else {
        fav_count(users.drop_last(), id) + if users.last().favorites@.contains(id) {
            1nat
        } else {
            0nat
        }
    }
}

/// At most every user favorites a topic.
pub proof fn lemma_fav_count_bound(users: Seq<User>, id: u128)
    ensures
        fav_count(users, id) <= users.len(),
    decreases users.len(),
{
    if users.len() > 0 {
        lemma_fav_count_bound(users.drop_last(), id);
    }
}

/// A topic that no user favorites has a count of zero.
pub proof fn lemma_fav_count_zero(users: Seq<User>, id: u128)
    requires
        forall|i: int| 0 <= i < users.len() ==> !(#[trigger] users[i].favorites@.contains(id)),
    ensures
        fav_count(users, id) == 0,
    decreases users.len(),
{
    if users.len() > 0 {
        let s = users.drop_last();
        assert forall|i: int| 0 <= i < s.len() implies !(#[trigger] s[i].favorites@.contains(id)) by {
            assert(s[i] == users[i]);
        }
        lemma_fav_count_zero(s, id);
        assert(!users[users.len() - 1].favorites@.contains(id));
    }
}

/// Replacing one user changes a topic's count by what the old and the new
/// record say of that topic.
pub proof fn lemma_fav_count_update(users: Seq<User>, k: int, u: User, id: u128)
    requires
        0 <= k < users.len(),
    ensures
        fav_count(users.update(k, u), id) + (if users[k].favorites@.contains(id) {
            1nat
        } else {
            0nat
        }) == fav_count(users, id) + (if u.favorites@.contains(id) {
            1nat
        } else {
            0nat
        }),
    decreases users.len(),
{
    let t = users.update(k, u);
    if k == users.len() - 1 {
        assert(t.drop_last() =~= users.drop_last());
    } else {
        assert(t.drop_last() =~= users.drop_last().update(k, u));
        lemma_fav_count_update(users.drop_last(), k, u, id);
    }
}

/// Appending a user with no favorites leaves every count as it was.
pub proof fn lemma_fav_count_push(users: Seq<User>, u: User, id: u128)
    requires
        u.favorites@.len() == 0,
    ensures
        fav_count(users.push(u), id) == fav_count(users, id),
{
    assert(users.push(u).drop_last() =~= users);
}

} // verus!
