use vstd::prelude::*;

use crate::error::AppError;
use crate::ledger::{
    lemma_push_unique, lemma_remove_unique, names, position_of, prefix_has, reconciled, TagLedger,
};
use crate::model::{
    fav_count, lemma_fav_count_bound, lemma_fav_count_update, lemma_fav_count_zero, Comment, NewTopic,
    Topic, TopicPayload, User,
};
use crate::text::{canonical_tags, insert_sorted, is_canonical_of, lowered, sorted_names};

verus! {

/// The forum's store: users, topics and comments, with the tag index kept
/// in step with the topics' own tag lists.
pub struct Forum {
    pub users: Vec<User>,
    pub topics: Vec<Topic>,
    pub comments: Vec<Comment>,
    pub tags: TagLedger,
}

/// Whether some entry of `raw` is empty.
pub open spec fn has_empty(raw: Seq<String>) -> bool {
    exists|j: int| 0 <= j < raw.len() && #[trigger] raw[j]@.len() == 0
}

/// Two user records agree on everything but their favorites.
pub open spec fn same_profile(a: User, b: User) -> bool {
    &&& a.id == b.id
    &&& a.avatar == b.avatar
    &&& a.bio == b.bio
    &&& a.birthday == b.birthday
    &&& a.created_at == b.created_at
    &&& a.email == b.email
    &&& a.gender == b.gender
    &&& a.job == b.job
    &&& a.nickname == b.nickname
    &&& a.password == b.password
    &&& a.phone == b.phone
    &&& a.updated_at == b.updated_at
    &&& a.username == b.username
}

/// `after` is the list `before` with `x` flipped: removed from its place
/// where `before` holds it, else appended.
pub open spec fn toggled(before: Seq<u128>, after: Seq<u128>, x: u128) -> bool {
    if before.contains(x) {
        exists|p: int| 0 <= p < before.len() && before[p] == x && after == before.remove(p)
    } else {
        after == before.push(x)
    }
}

impl Forum {
    pub open spec fn has_topic(&self, id: u128) -> bool {
        exists|i: int| 0 <= i < self.topics.len() && #[trigger] self.topics@[i].id == id
    }

    pub open spec fn has_user(&self, id: u128) -> bool {
        exists|i: int| 0 <= i < self.users.len() && #[trigger] self.users@[i].id == id
    }

    pub open spec fn has_comment(&self, id: u128) -> bool {
        exists|i: int| 0 <= i < self.comments.len() && #[trigger] self.comments@[i].id == id
    }

    /// The store's invariant. Ids, usernames and emails are unique; each
    /// topic's tags are canonical; a topic carries a tag exactly where the
    /// tag lists the topic, and tags list only stored topics; favorites name
    /// stored topics, each once; a topic's counter is the number of users
    /// who favorite it.
    pub open spec fn wf(&self) -> bool {
        &&& self.tags.wf()
        &&& forall|i: int, j: int|
            0 <= i < self.topics.len() && 0 <= j < self.topics.len() && i != j
                ==> #[trigger] self.topics@[i].id != #[trigger] self.topics@[j].id
        &&& forall|i: int, j: int|
            0 <= i < self.users.len() && 0 <= j < self.users.len() && i != j ==> {
                &&& #[trigger] self.users@[i].id != #[trigger] self.users@[j].id
                &&& self.users@[i].username@ != self.users@[j].username@
                &&& self.users@[i].email@ != self.users@[j].email@
            }
        &&& forall|i: int, j: int|
            0 <= i < self.comments.len() && 0 <= j < self.comments.len() && i != j
                ==> #[trigger] self.comments@[i].id != #[trigger] self.comments@[j].id
        &&& forall|i: int|
            0 <= i < self.topics.len() ==> #[trigger] names(self.topics@[i].tags@).no_duplicates()
                && sorted_names(names(self.topics@[i].tags@))
        &&& forall|i: int, g: Seq<char>|
            #![trigger names(self.topics@[i].tags@).contains(g)]
            #![trigger self.tags.members(g).contains(self.topics@[i].id)]
            0 <= i < self.topics.len() ==> (names(self.topics@[i].tags@).contains(g)
                <==> self.tags.members(g).contains(self.topics@[i].id))
        &&& forall|g: Seq<char>, id: u128| #[trigger]
            self.tags.members(g).contains(id) ==> self.has_topic(id)
        &&& forall|i: int|
            0 <= i < self.users.len() ==> #[trigger] self.users@[i].favorites@.no_duplicates()
        &&& forall|i: int, k: int|
            0 <= i < self.users.len() && 0 <= k < self.users@[i].favorites@.len()
                ==> self.has_topic(#[trigger] self.users@[i].favorites@[k])
        &&& forall|i: int|
            0 <= i < self.topics.len() ==> #[trigger] self.topics@[i].favorite_count == fav_count(
                self.users@,
                self.topics@[i].id,
            )
    }

    /// An empty store.
    pub fn new() -> (r: Forum)
        ensures
            r.wf(),
            r.users@.len() == 0,
            r.topics@.len() == 0,
            r.comments@.len() == 0,
            forall|g: Seq<char>| #[trigger] r.tags.members(g) == Set::<u128>::empty(),
    {
        Forum { users: Vec::new(), topics: Vec::new(), comments: Vec::new(), tags: TagLedger::new() }
    }

    /// The position of topic `id`.
    pub fn find_topic(&self, id: u128) -> (r: Option<usize>)
        ensures
            r matches Some(i) ==> i < self.topics.len() && self.topics@[i as int].id == id,
            r is None <==> !self.has_topic(id),
    {
        let mut i: usize = 0;
        while i < self.topics.len()
            invariant
                i <= self.topics.len(),
                forall|j: int| 0 <= j < i ==> #[trigger] self.topics@[j].id != id,
            decreases self.topics.len() - i,
        {
            if self.topics[i].id == id {
                return Some(i);
            }
            i += 1;
        }
        None
    }

    /// The position of user `id`.
    pub fn find_user(&self, id: u128) -> (r: Option<usize>)
        ensures
            r matches Some(i) ==> i < self.users.len() && self.users@[i as int].id == id,
            r is None <==> !self.has_user(id),
    {
        let mut i: usize = 0;
        while i < self.users.len()
            invariant
                i <= self.users.len(),
                forall|j: int| 0 <= j < i ==> #[trigger] self.users@[j].id != id,
            decreases self.users.len() - i,
        {
            if self.users[i].id == id {
                return Some(i);
            }
            i += 1;
        }
        None
    }

    /// The outcome that `create_topic` owes for these arguments.
    pub open spec fn create_check(&self, id: u128, p: NewTopic, editor: u128) -> Result<(), AppError> {
        if p.user_id != editor {
            Err(AppError::Forbidden)
        } else if !self.has_user(editor) {
            Err(AppError::NotFound)
        } else if p.title@.len() == 0 || has_empty(p.tags@) {
            Err(AppError::Invalid)
        } else if self.has_topic(id) {
            Err(AppError::Duplicate)
        } else {
            Ok(())
        }
    }

    /// Opens topic `id` for the signed-in user `editor`: the topic is stored
    /// with its tags in canonical form, no comments and no favorites, and
    /// each of its tags lists it.
    #[verifier::spinoff_prover]
    pub fn create_topic(&mut self, id: u128, payload: NewTopic, editor: u128, now: u64) -> (r: Result<
        (),
        AppError,
    >)
        requires
            old(self).wf(),
        ensures
            final(self).wf(),
            r == old(self).create_check(id, payload, editor),
            r is Err ==> *final(self) == *old(self),
            r is Ok ==> {
                let t = final(self).topics@.last();
                &&& final(self).users@ == old(self).users@
                &&& final(self).comments@ == old(self).comments@
                &&& final(self).topics@.drop_last() == old(self).topics@
                &&& final(self).topics@.len() == old(self).topics@.len() + 1
                &&& t.id == id
                &&& t.owner == editor
                &&& t.title@ == payload.title@
                &&& t.content@ == payload.content@
                &&& is_canonical_of(names(t.tags@), payload.tags@)
                &&& t.favorite_count == 0
                &&& t.comments@.len() == 0
                &&& t.created_at == now
                &&& t.updated_at == now
                &&& forall|g: Seq<char>| #[trigger]
                    final(self).tags.members(g) == if names(t.tags@).contains(g) {
                        old(self).tags.members(g).insert(id)
                    } else {
                        old(self).tags.members(g)
                    }
            },
    {
        if payload.user_id != editor {
            return Err(AppError::Forbidden);
        }
        if self.find_user(editor).is_none() {
            return Err(AppError::NotFound);
        }
        let canon = match canonical_tags(&payload.tags) {
            Some(c) => c,
            None => {
                return Err(AppError::Invalid);
            },
        };
        if payload.title.as_str().is_empty() {
            return Err(AppError::Invalid);
        }
        if self.find_topic(id).is_some() {
            return Err(AppError::Duplicate);
        }
        let ghost pre = *self;
        let none: Vec<String> = Vec::new();
        self.tags.update_tags(id, &canon, &none);
        let topic = Topic {
            id,
            comments: Vec::new(),
            content: payload.content,
            created_at: now,
            favorite_count: 0,
            tags: canon,
            title: payload.title,
            updated_at: now,
            owner: editor,
        };
        self.topics.push(topic);
        proof {
            let n = pre.topics.len() as int;
            let t = self.topics@[n];
            assert(self.topics@.drop_last() =~= pre.topics@);
            assert(names(none@) =~= Seq::<Seq<char>>::empty());
            assert forall|g: Seq<char>| #[trigger]
                self.tags.members(g) == if names(t.tags@).contains(g) {
                    pre.tags.members(g).insert(id)
                } else {
                    pre.tags.members(g)
                } by {
                assert(self.tags.members(g) == reconciled(pre.tags.members(g), g, id, names(t.tags@), names(none@)));
            }
            assert forall|x: u128| pre.has_topic(x) implies #[trigger] self.has_topic(x) by {
                let i = choose|i: int| 0 <= i < pre.topics.len() && #[trigger] pre.topics@[i].id == x;
                assert(self.topics@[i].id == x);
            }
            assert(self.has_topic(id)) by {
                assert(self.topics@[n].id == id);
            }
            assert forall|g: Seq<char>| !(#[trigger] pre.tags.members(g).contains(id)) by {}
            assert forall|i: int| 0 <= i < pre.users.len() implies !(
            #[trigger] pre.users@[i].favorites@.contains(id)) by {
                if pre.users@[i].favorites@.contains(id) {
                    let k = choose|k: int| 0 <= k < pre.users@[i].favorites@.len() && pre.users@[i].favorites@[k] == id;
                    assert(pre.has_topic(pre.users@[i].favorites@[k]));
                }
            }
            lemma_fav_count_zero(pre.users@, id);
            assert forall|i: int, j: int|
                0 <= i < self.topics.len() && 0 <= j < self.topics.len() && i != j
                    implies #[trigger] self.topics@[i].id != #[trigger] self.topics@[j].id by {
                if i < n && j < n {
                    assert(pre.topics@[i].id != pre.topics@[j].id);
                } else if i < n {
                    assert(pre.topics@[i].id == self.topics@[i].id);
                } else {
                    assert(pre.topics@[j].id == self.topics@[j].id);
                }
            }
            assert forall|i: int, g: Seq<char>|
                #![trigger names(self.topics@[i].tags@).contains(g)]
                #![trigger self.tags.members(g).contains(self.topics@[i].id)]
                0 <= i < self.topics.len() implies (names(self.topics@[i].tags@).contains(g)
                    <==> self.tags.members(g).contains(self.topics@[i].id)) by {
                if i < n {
                    assert(self.topics@[i] == pre.topics@[i]);
                    assert(names(pre.topics@[i].tags@).contains(g) <==> pre.tags.members(g).contains(pre.topics@[i].id));
                }
            }
            assert forall|g: Seq<char>, x: u128| #[trigger]
                self.tags.members(g).contains(x) implies self.has_topic(x) by {
                if x != id {
                    assert(pre.tags.members(g).contains(x));
                }
            }
            assert forall|i: int, k: int|
                0 <= i < self.users.len() && 0 <= k < self.users@[i].favorites@.len()
                    implies self.has_topic(#[trigger] self.users@[i].favorites@[k]) by {
                assert(pre.has_topic(pre.users@[i].favorites@[k]));
            }
            assert forall|i: int|
                0 <= i < self.topics.len() implies #[trigger] self.topics@[i].favorite_count == fav_count(
                    self.users@,
                    self.topics@[i].id,
                ) by {
                if i < n {
                    assert(self.topics@[i] == pre.topics@[i]);
                }
            }
            assert forall|i: int|
                0 <= i < self.topics.len() implies #[trigger] names(self.topics@[i].tags@).no_duplicates()
                    && sorted_names(names(self.topics@[i].tags@)) by {
                if i < n {
                    assert(self.topics@[i] == pre.topics@[i]);
                } else {
                    assert(self.topics@[i].tags@ == canon@);
                    assert(is_canonical_of(names(canon@), payload.tags@));
                }
            }
            assert(self.users == pre.users);
            assert(self.comments == pre.comments);
            assert(self.tags.wf());
            assert(self.wf());
        }
        Ok(())
    }
    /// The outcome that `topic_update` owes for these arguments.
    pub open spec fn update_check(&self, p: TopicPayload, editor: u128) -> Result<(), AppError> {
        if p.user_id != editor {
            Err(AppError::Forbidden)
        } else if !self.has_topic(p.id) {
            Err(AppError::NotFound)
        } else if exists|i: int|
            0 <= i < self.topics.len() && #[trigger] self.topics@[i].id == p.id
                && self.topics@[i].owner != editor {
            Err(AppError::Forbidden)
        } else if p.title@.len() == 0 || has_empty(p.tags@) {
            Err(AppError::Invalid)
        } else {
            Ok(())
        }
    }

    /// `after` is `before` with topic `i` given a new title, content, tag list
    /// and time of change, and every tag's membership reconciled from the
    /// topic's old tags to its new ones.
    pub open spec fn retagged(before: Forum, after: Forum, i: int, now: u64) -> bool {
        let t0 = before.topics@[i];
        let t1 = after.topics@[i];
        &&& 0 <= i < before.topics.len()
        &&& after.users@ == before.users@
        &&& after.comments@ == before.comments@
        &&& after.topics@.len() == before.topics@.len()
        &&& forall|j: int| 0 <= j < before.topics.len() && j != i ==> after.topics@[j] == before.topics@[j]
        &&& t1.id == t0.id
        &&& t1.owner == t0.owner
        &&& t1.comments@ == t0.comments@
        &&& t1.created_at == t0.created_at
        &&& t1.favorite_count == t0.favorite_count
        &&& t1.updated_at == now
        &&& forall|g: Seq<char>| #[trigger]
            after.tags.members(g) == reconciled(
                before.tags.members(g),
                g,
                t0.id,
                names(t1.tags@),
                names(t0.tags@),
            )
    }

    /// Changes topic `payload.id` on behalf of its owner `editor`: new title,
    /// content and tags (in canonical form). The tag index is reconciled from
    /// the tags the topic had to the new ones; `payload.tags_removed` is not
    /// relied on.
    #[verifier::spinoff_prover]
    pub fn topic_update(&mut self, payload: TopicPayload, editor: u128, now: u64) -> (r: Result<
        (),
        AppError,
    >)
        requires
            old(self).wf(),
        ensures
            final(self).wf(),
            r == old(self).update_check(payload, editor),
            r is Err ==> *final(self) == *old(self),
            r is Ok ==> forall|i: int|
                0 <= i < old(self).topics.len() && #[trigger] old(self).topics@[i].id == payload.id
                    ==> {
                    &&& Forum::retagged(*old(self), *final(self), i, now)
                    &&& final(self).topics@[i].title@ == payload.title@
                    &&& final(self).topics@[i].content@ == payload.content@
                    &&& is_canonical_of(names(final(self).topics@[i].tags@), payload.tags@)
                },
    {
        if payload.user_id != editor {
            return Err(AppError::Forbidden);
        }
        let i = match self.find_topic(payload.id) {
            Some(i) => i,
            None => {
                return Err(AppError::NotFound);
            },
        };
        proof {
            assert forall|j: int|
                0 <= j < self.topics.len() && #[trigger] self.topics@[j].id == payload.id implies j
                == i by {
                if j != i {
                    assert(self.topics@[j].id != self.topics@[i as int].id);
                }
            }
        }
        if self.topics[i].owner != editor {
            return Err(AppError::Forbidden);
        }
        let canon = match canonical_tags(&payload.tags) {
            Some(c) => c,
            None => {
                return Err(AppError::Invalid);
            },
        };
        if payload.title.as_str().is_empty() {
            return Err(AppError::Invalid);
        }
        self.replace_topic(i, canon, payload.title, payload.content, now);
        Ok(())
    }
    /// Puts a new title, content and (canonical) tag list on topic `i`,
    /// stamps it with `now`, and reconciles the tag index from its old tags.
    #[verifier::spinoff_prover]
    fn replace_topic(&mut self, i: usize, canon: Vec<String>, title: String, content: String, now: u64)
        requires
            old(self).wf(),
            i < old(self).topics.len(),
            names(canon@).no_duplicates(),
            sorted_names(names(canon@)),
        ensures
            final(self).wf(),
            Forum::retagged(*old(self), *final(self), i as int, now),
            final(self).topics@[i as int].tags@ == canon@,
            final(self).topics@[i as int].title == title,
            final(self).topics@[i as int].content == content,
    {
        let ghost pre = *self;
        let t0 = self.topics.remove(i);
        self.tags.update_tags(t0.id, &canon, &t0.tags);
        let t1 = Topic {
            id: t0.id,
            comments: t0.comments,
            content,
            created_at: t0.created_at,
            favorite_count: t0.favorite_count,
            tags: canon,
            title,
            updated_at: now,
            owner: t0.owner,
        };
        self.topics.insert(i, t1);
        proof {
            let ii = i as int;
            let id = pre.topics@[ii].id;
            assert(self.topics@ =~= pre.topics@.update(ii, self.topics@[ii]));
            assert forall|x: u128| pre.has_topic(x) <==> #[trigger] self.has_topic(x) by {
                if pre.has_topic(x) {
                    let j = choose|j: int| 0 <= j < pre.topics.len() && #[trigger] pre.topics@[j].id == x;
                    assert(self.topics@[j].id == x);
                }
                if self.has_topic(x) {
                    let j = choose|j: int| 0 <= j < self.topics.len() && #[trigger] self.topics@[j].id == x;
                    assert(pre.topics@[j].id == x);
                }
            }
            assert forall|i2: int, j: int|
                0 <= i2 < self.topics.len() && 0 <= j < self.topics.len() && i2 != j
                    implies #[trigger] self.topics@[i2].id != #[trigger] self.topics@[j].id by {
                assert(pre.topics@[i2].id != pre.topics@[j].id);
            }
            assert forall|j: int, g: Seq<char>|
                #![trigger names(self.topics@[j].tags@).contains(g)]
                #![trigger self.tags.members(g).contains(self.topics@[j].id)]
                0 <= j < self.topics.len() implies (names(self.topics@[j].tags@).contains(g)
                    <==> self.tags.members(g).contains(self.topics@[j].id)) by {
                assert(names(pre.topics@[j].tags@).contains(g) <==> pre.tags.members(g).contains(pre.topics@[j].id));
                assert(names(pre.topics@[ii].tags@).contains(g) <==> pre.tags.members(g).contains(id));
                assert(self.tags.members(g) == reconciled(pre.tags.members(g), g, id, names(canon@), names(t0.tags@)));
                if j != ii {
                    assert(pre.topics@[j].id != id);
                }
            }
            assert forall|g: Seq<char>, x: u128| #[trigger]
                self.tags.members(g).contains(x) implies self.has_topic(x) by {
                assert(self.tags.members(g) == reconciled(pre.tags.members(g), g, id, names(canon@), names(t0.tags@)));
                if x != id {
                    assert(pre.tags.members(g).contains(x));
                } else {
                    assert(self.topics@[ii].id == id);
                }
            }
            assert forall|j: int, k: int|
                0 <= j < self.users.len() && 0 <= k < self.users@[j].favorites@.len()
                    implies self.has_topic(#[trigger] self.users@[j].favorites@[k]) by {
                assert(pre.has_topic(pre.users@[j].favorites@[k]));
            }
            assert forall|j: int|
                0 <= j < self.topics.len() implies #[trigger] self.topics@[j].favorite_count == fav_count(
                    self.users@,
                    self.topics@[j].id,
                ) by {
                assert(pre.topics@[j].favorite_count == fav_count(pre.users@, pre.topics@[j].id));
            }
            assert forall|j: int|
                0 <= j < self.topics.len() implies #[trigger] names(self.topics@[j].tags@).no_duplicates()
                    && sorted_names(names(self.topics@[j].tags@)) by {
                if j != ii {
                    assert(self.topics@[j] == pre.topics@[j]);
                } else {
                    assert(self.topics@[j].tags@ == canon@);
                }
            }
            assert(self.users == pre.users);
            assert(self.comments == pre.comments);
            assert(self.tags.wf());
            assert(self.wf());
            assert(Forum::retagged(pre, *self, ii, now));
        }
    }

    /// The outcome that `favor` owes for these arguments.
    pub open spec fn favor_check(&self, uid: u128, tid: u128) -> Result<(), AppError> {
        if !self.has_user(uid) || !self.has_topic(tid) {
            Err(AppError::NotFound)
        } else {
            Ok(())
        }
    }

    /// `after` is `before` with user `ui` flipping its favorite of topic `ti`:
    /// the topic leaves the user's favorites where it was there and is
    /// appended where it was not, and the topic's counter moves by one in
    /// step. Nothing else changes.
    pub open spec fn favored(before: Forum, after: Forum, ui: int, ti: int) -> bool {
        let u0 = before.users@[ui];
        let u1 = after.users@[ui];
        let t0 = before.topics@[ti];
        let t1 = after.topics@[ti];
        &&& 0 <= ui < before.users.len()
        &&& 0 <= ti < before.topics.len()
        &&& after.users@.len() == before.users@.len()
        &&& after.topics@.len() == before.topics@.len()
        &&& after.comments@ == before.comments@
        &&& after.tags == before.tags
        &&& forall|j: int| 0 <= j < before.users.len() && j != ui ==> after.users@[j] == before.users@[j]
        &&& forall|j: int| 0 <= j < before.topics.len() && j != ti ==> after.topics@[j] == before.topics@[j]
        &&& same_profile(u0, u1)
        &&& toggled(u0.favorites@, u1.favorites@, t0.id)
        &&& t1.id == t0.id
        &&& t1.owner == t0.owner
        &&& t1.title == t0.title
        &&& t1.content == t0.content
        &&& t1.tags == t0.tags
        &&& t1.comments == t0.comments
        &&& t1.created_at == t0.created_at
        &&& t1.updated_at == t0.updated_at
        &&& t1.favorite_count == if u0.favorites@.contains(t0.id) {
            t0.favorite_count - 1
        } else {
            t0.favorite_count + 1
        }
    }

    /// Flips whether user `uid` favorites topic `tid`, moving the topic's
    /// counter with it in one step. Returns whether the topic is now a
    /// favorite, and its new count.
    #[verifier::spinoff_prover]
    pub fn favor(&mut self, uid: u128, tid: u128) -> (r: Result<(bool, u64), AppError>)
        requires
            old(self).wf(),
        ensures
            final(self).wf(),
            r matches Err(e) ==> old(self).favor_check(uid, tid) == Err::<(), AppError>(e),
            r is Ok <==> old(self).favor_check(uid, tid) is Ok,
            r is Err ==> *final(self) == *old(self),
            r matches Ok((on, count)) ==> forall|ui: int, ti: int|
                0 <= ui < old(self).users.len() && 0 <= ti < old(self).topics.len()
                    && #[trigger] old(self).users@[ui].id == uid && #[trigger] old(self).topics@[ti].id
                    == tid ==> {
                    &&& Forum::favored(*old(self), *final(self), ui, ti)
                    &&& on == !old(self).users@[ui].favorites@.contains(tid)
                    &&& count == final(self).topics@[ti].favorite_count
                },
    {
        let ui = match self.find_user(uid) {
            Some(i) => i,
            None => {
                return Err(AppError::NotFound);
            },
        };
        let ti = match self.find_topic(tid) {
            Some(i) => i,
            None => {
                return Err(AppError::NotFound);
            },
        };
        let ghost pre = *self;
        proof {
            assert forall|j: int|
                0 <= j < self.users.len() && #[trigger] self.users@[j].id == uid implies j == ui by {
                if j != ui {
                    assert(self.users@[j].id != self.users@[ui as int].id);
                }
            }
            assert forall|j: int|
                0 <= j < self.topics.len() && #[trigger] self.topics@[j].id == tid implies j == ti by {
                if j != ti {
                    assert(self.topics@[j].id != self.topics@[ti as int].id);
                }
            }
        }
        let mut u = self.users.remove(ui);
        let ghost f0 = u.favorites@;
        let on: bool;
        match position_of(&u.favorites, tid) {
            Some(p) => {
                u.favorites.remove(p);
                on = false;
                proof {
                    lemma_remove_unique(f0, p as int);
                    assert(toggled(f0, u.favorites@, tid));
                }
            },
            None => {
                u.favorites.push(tid);
                on = true;
                proof {
                    lemma_push_unique(f0, tid);
                }
            },
        }
        self.users.insert(ui, u);
        proof {
            let uu = ui as int;
            assert(self.users@ =~= pre.users@.update(uu, self.users@[uu]));
            lemma_fav_count_update(pre.users@, uu, self.users@[uu], tid);
            lemma_fav_count_bound(self.users@, tid);
            assert(self.users@[uu].favorites@.to_set().contains(tid) == on);
            assert(f0.to_set().contains(tid) == !on);
        }
        let mut t = self.topics.remove(ti);
        if on {
            t.favorite_count = t.favorite_count + 1;
        } else {
            t.favorite_count = t.favorite_count - 1;
        }
        let count = t.favorite_count;
        self.topics.insert(ti, t);
        proof {
            let uu = ui as int;
            let tt = ti as int;
            assert(self.topics@ =~= pre.topics@.update(tt, self.topics@[tt]));
            assert forall|x: u128| pre.has_topic(x) <==> #[trigger] self.has_topic(x) by {
                if pre.has_topic(x) {
                    let j = choose|j: int| 0 <= j < pre.topics.len() && #[trigger] pre.topics@[j].id == x;
                    assert(self.topics@[j].id == x);
                }
                if self.has_topic(x) {
                    let j = choose|j: int| 0 <= j < self.topics.len() && #[trigger] self.topics@[j].id == x;
                    assert(pre.topics@[j].id == x);
                }
            }
            assert forall|i2: int, j: int|
                0 <= i2 < self.topics.len() && 0 <= j < self.topics.len() && i2 != j
                    implies #[trigger] self.topics@[i2].id != #[trigger] self.topics@[j].id by {
                assert(pre.topics@[i2].id != pre.topics@[j].id);
            }
            assert forall|i2: int, j: int|
                0 <= i2 < self.users.len() && 0 <= j < self.users.len() && i2 != j implies {
                    &&& #[trigger] self.users@[i2].id != #[trigger] self.users@[j].id
                    &&& self.users@[i2].username@ != self.users@[j].username@
                    &&& self.users@[i2].email@ != self.users@[j].email@
                } by {
                assert(pre.users@[i2].id != pre.users@[j].id);
            }
            assert forall|j: int, g: Seq<char>|
                #![trigger names(self.topics@[j].tags@).contains(g)]
                #![trigger self.tags.members(g).contains(self.topics@[j].id)]
                0 <= j < self.topics.len() implies (names(self.topics@[j].tags@).contains(g)
                    <==> self.tags.members(g).contains(self.topics@[j].id)) by {
                assert(names(pre.topics@[j].tags@).contains(g) <==> pre.tags.members(g).contains(pre.topics@[j].id));
            }
            assert forall|g: Seq<char>, x: u128| #[trigger]
                self.tags.members(g).contains(x) implies self.has_topic(x) by {
                assert(pre.tags.members(g).contains(x));
            }
            assert forall|j: int| 0 <= j < self.users.len() implies #[trigger] self.users@[j].favorites@.no_duplicates() by {
                if j != uu {
                    assert(self.users@[j] == pre.users@[j]);
                }
            }
            assert forall|j: int, k: int|
                0 <= j < self.users.len() && 0 <= k < self.users@[j].favorites@.len()
                    implies self.has_topic(#[trigger] self.users@[j].favorites@[k]) by {
                let y = self.users@[j].favorites@[k];
                if j != uu {
                    assert(pre.has_topic(pre.users@[j].favorites@[k]));
                } else if y == tid {
                    assert(self.topics@[tt].id == tid);
                } else {
                    assert(self.users@[j].favorites@.contains(y));
                    assert(self.users@[j].favorites@.to_set().contains(y));
                    assert(f0.to_set().contains(y));
                    let k0 = choose|k0: int| 0 <= k0 < f0.len() && f0[k0] == y;
                    assert(pre.has_topic(pre.users@[uu].favorites@[k0]));
                }
            }
            assert forall|j: int|
                0 <= j < self.topics.len() implies #[trigger] self.topics@[j].favorite_count == fav_count(
                    self.users@,
                    self.topics@[j].id,
                ) by {
                let x = self.topics@[j].id;
                if j != tt {
                    assert(x != tid);
                    assert(pre.topics@[j].favorite_count == fav_count(pre.users@, x));
                    lemma_fav_count_update(pre.users@, uu, self.users@[uu], x);
                    assert(self.users@[uu].favorites@.to_set().contains(x) == f0.to_set().contains(x));
                }
            }
            assert(self.comments == pre.comments);
            assert(self.tags == pre.tags);
            assert(self.wf());
            assert(Forum::favored(pre, *self, uu, tt));
        }
        Ok((on, count))
    }
    /// The outcome that `add_topic_tags` owes for these arguments.
    pub open spec fn add_tags_check(&self, id: u128, extra: Seq<String>, editor: u128) -> Result<
        (),
        AppError,
    > {
        if !self.has_topic(id) {
            Err(AppError::NotFound)
        } else if exists|i: int|
            0 <= i < self.topics.len() && #[trigger] self.topics@[i].id == id
                && self.topics@[i].owner != editor {
            Err(AppError::Forbidden)
        } else if has_empty(extra) {
            Err(AppError::Invalid)
        } else {
            Ok(())
        }
    }

    /// `after` is `before` with the lower-case forms of `extra` added to the
    /// tags of topic `i`, which keeps every tag it had, its title and its
    /// content.
    pub open spec fn tags_added(before: Forum, after: Forum, i: int, extra: Seq<String>, now: u64) -> bool {
        &&& Forum::retagged(before, after, i, now)
        &&& after.topics@[i].title == before.topics@[i].title
        &&& after.topics@[i].content == before.topics@[i].content
        &&& forall|g: Seq<char>| #[trigger]
            names(after.topics@[i].tags@).contains(g) <==> names(before.topics@[i].tags@).contains(g)
                || lowered(extra).contains(g)
    }

    /// Adds the tags `extra` to topic `id` on behalf of its owner `editor`,
    /// keeping the tags it has: one read-modify-write step, so that two such
    /// calls one after the other both stay reflected.
    pub fn add_topic_tags(&mut self, id: u128, extra: Vec<String>, editor: u128, now: u64) -> (r:
        Result<(), AppError>)
        requires
            old(self).wf(),
        ensures
            final(self).wf(),
            r == old(self).add_tags_check(id, extra@, editor),
            r is Err ==> *final(self) == *old(self),
            r is Ok ==> forall|i: int|
                0 <= i < old(self).topics.len() && #[trigger] old(self).topics@[i].id == id
                    ==> Forum::tags_added(*old(self), *final(self), i, extra@, now),
    {
        let i = match self.find_topic(id) {
            Some(i) => i,
            None => {
                return Err(AppError::NotFound);
            },
        };
        proof {
            assert forall|j: int|
                0 <= j < self.topics.len() && #[trigger] self.topics@[j].id == id implies j == i by {
                if j != i {
                    assert(self.topics@[j].id != self.topics@[i as int].id);
                }
            }
        }
        if self.topics[i].owner != editor {
            return Err(AppError::Forbidden);
        }
        let add = match canonical_tags(&extra) {
            Some(c) => c,
            None => {
                return Err(AppError::Invalid);
            },
        };
        let ghost old_names = names(self.topics@[i as int].tags@);
        let t = &self.topics[i];
        let mut tags: Vec<String> = Vec::new();
        let mut k: usize = 0;
        while k < t.tags.len()
            invariant
                k <= t.tags.len(),
                tags@ == t.tags@.subrange(0, k as int),
            decreases t.tags.len() - k,
        {
            tags.push(t.tags[k].clone());
            k += 1;
            proof {
                assert(tags@ =~= t.tags@.subrange(0, k as int));
            }
        }
        proof {
            assert(tags@ =~= t.tags@);
            assert(names(self.topics@[i as int].tags@).no_duplicates());
            assert(names(tags@) == old_names);
        }
        let mut k: usize = 0;
        while k < add.len()
            invariant
                k <= add.len(),
                names(tags@).no_duplicates(),
                sorted_names(names(tags@)),
                forall|g: Seq<char>| #[trigger]
                    names(tags@).contains(g) <==> old_names.contains(g) || prefix_has(
                        names(add@),
                        k as int,
                        g,
                    ),
            decreases add.len() - k,
        {
            let ghost before = names(tags@);
            insert_sorted(&mut tags, add[k].clone());
            proof {
                assert(names(add@)[k as int] == add@[k as int]@);
                assert forall|g: Seq<char>| #[trigger]
                    names(tags@).contains(g) <==> old_names.contains(g) || prefix_has(
                        names(add@),
                        k + 1,
                        g,
                    ) by {
                    if prefix_has(names(add@), k + 1, g) && names(add@)[k as int] != g {
                        let j = choose|j: int| 0 <= j < k + 1 && names(add@)[j] == g;
                        assert(prefix_has(names(add@), k as int, g));
                    }
                    if prefix_has(names(add@), k as int, g) {
                        let j = choose|j: int| 0 <= j < k && names(add@)[j] == g;
                        assert(prefix_has(names(add@), k + 1, g));
                    }
                    if names(add@)[k as int] == g {
                        assert(prefix_has(names(add@), k + 1, g));
                    }
                }
            }
            k += 1;
        }
        proof {
            assert forall|g: Seq<char>| #[trigger]
                names(tags@).contains(g) <==> old_names.contains(g) || lowered(extra@).contains(g) by {
                assert(prefix_has(names(add@), add.len() as int, g) <==> names(add@).contains(g));
            }
        }
        let title = self.topics[i].title.clone();
        let content = self.topics[i].content.clone();
        self.replace_topic(i, tags, title, content, now);
        Ok(())
    }
}

} // verus!
