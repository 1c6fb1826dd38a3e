use vstd::prelude::*;

use crate::error::AppError;
use crate::forum::Forum;
use crate::ledger::names;
use crate::model::{fav_count, Comment, NewComment};
use crate::text::sorted_names;

verus! {

/// A list read from its last entry to its first.
pub open spec fn newest_first(s: Seq<u128>) -> Seq<u128> {
    Seq::new(s.len(), |k: int| s[s.len() - 1 - k])
}

impl Forum {
    /// The position of topic `id`; `NotFound` where there is none.
    pub fn query_topic(&self, id: u128) -> (r: Result<usize, AppError>)
        ensures
            r is Err <==> !self.has_topic(id),
            r matches Err(e) ==> e == AppError::NotFound,
            r matches Ok(i) ==> i < self.topics.len() && self.topics@[i as int].id == id,
    {
        match self.find_topic(id) {
            Some(i) => Ok(i),
            None => Err(AppError::NotFound),
        }
    }

    /// The position of user `id`; `NotFound` where there is none.
    pub fn query_user(&self, id: u128) -> (r: Result<usize, AppError>)
        ensures
            r is Err <==> !self.has_user(id),
            r matches Err(e) ==> e == AppError::NotFound,
            r matches Ok(i) ==> i < self.users.len() && self.users@[i as int].id == id,
    {
        match self.find_user(id) {
            Some(i) => Ok(i),
            None => Err(AppError::NotFound),
        }
    }

    /// Topic `id` and its comments, the most recent first.
    pub fn get_topic(&self, id: u128) -> (r: Result<(usize, Vec<u128>), AppError>)
        ensures
            r is Err <==> !self.has_topic(id),
            r matches Err(e) ==> e == AppError::NotFound,
            r matches Ok((i, cs)) ==> i < self.topics.len() && self.topics@[i as int].id == id
                && cs@ == newest_first(self.topics@[i as int].comments@),
    {
        let i = self.query_topic(id)?;
        let src = &self.topics[i].comments;
        let mut cs: Vec<u128> = Vec::new();
        let mut k: usize = src.len();
        while k > 0
            invariant
                k <= src.len(),
                cs@.len() == src.len() - k,
                forall|j: int| 0 <= j < cs@.len() ==> #[trigger] cs@[j] == src@[src.len() - 1 - j],
            decreases k,
        {
            k -= 1;
            cs.push(src[k]);
        }
        proof {
            assert(cs@ =~= newest_first(src@));
        }
        Ok((i, cs))
    }

    /// The position of comment `id`.
    pub fn find_comment(&self, id: u128) -> (r: Option<usize>)
        ensures
            r matches Some(i) ==> i < self.comments.len() && self.comments@[i as int].id == id,
            r is None <==> !self.has_comment(id),
    {
        let mut i: usize = 0;
        while i < self.comments.len()
            invariant
                i <= self.comments.len(),
                forall|j: int| 0 <= j < i ==> #[trigger] self.comments@[j].id != id,
            decreases self.comments.len() - i,
        {
            if self.comments[i].id == id {
                return Some(i);
            }
            i += 1;
        }
        None
    }

    /// The outcome that `topic_comment` owes for these arguments.
    pub open spec fn comment_check(&self, id: u128, p: NewComment, editor: u128) -> Result<
        (),
        AppError,
    > {
        if p.user_id != editor {
            Err(AppError::Forbidden)
        } else if !self.has_user(editor) || !self.has_topic(p.topic) {
            Err(AppError::NotFound)
        } else if p.content@.len() == 0 {
            Err(AppError::Invalid)
        } else if self.has_comment(id) {
            Err(AppError::Duplicate)
        } else {
            Ok(())
        }
    }

    /// Stores comment `id` of the signed-in user `editor` on topic
    /// `payload.topic`, and appends it to the topic's comments.
    #[verifier::spinoff_prover]
    pub fn topic_comment(&mut self, id: u128, payload: NewComment, editor: u128, now: u64) -> (r:
        Result<(), AppError>)
        requires
            old(self).wf(),
        ensures
            final(self).wf(),
            r == old(self).comment_check(id, payload, editor),
            r is Err ==> *final(self) == *old(self),
            r is Ok ==> {
                let c = final(self).comments@.last();
                &&& final(self).users@ == old(self).users@
                &&& final(self).tags == old(self).tags
                &&& final(self).comments@.drop_last() == old(self).comments@
                &&& final(self).comments@.len() == old(self).comments@.len() + 1
                &&& c.id == id
                &&& c.content@ == payload.content@
                &&& c.created_at == now
                &&& c.topic == payload.topic
                &&& c.author == editor
                &&& final(self).topics@.len() == old(self).topics@.len()
                &&& forall|j: int|
                    0 <= j < old(self).topics.len() ==> {
                        let t0 = old(self).topics@[j];
                        let t1 = #[trigger] final(self).topics@[j];
                        if t0.id == payload.topic {
                            &&& t1.comments@ == t0.comments@.push(id)
                            &&& t1.id == t0.id
                            &&& t1.owner == t0.owner
                            &&& t1.title == t0.title
                            &&& t1.content == t0.content
                            &&& t1.tags == t0.tags
                            &&& t1.favorite_count == t0.favorite_count
                            &&& t1.created_at == t0.created_at
                            &&& t1.updated_at == t0.updated_at
                        } else {
                            t1 == t0
                        }
                    }
            },
    {
        if payload.user_id != editor {
            return Err(AppError::Forbidden);
        }
        if self.find_user(editor).is_none() {
            return Err(AppError::NotFound);
        }
        let ti = match self.find_topic(payload.topic) {
            Some(i) => i,
            None => {
                return Err(AppError::NotFound);
            },
        };
        if payload.content.as_str().is_empty() {
            return Err(AppError::Invalid);
        }
        if self.find_comment(id).is_some() {
            return Err(AppError::Duplicate);
        }
        let ghost pre = *self;
        proof {
            assert forall|j: int|
                0 <= j < self.topics.len() && #[trigger] self.topics@[j].id == payload.topic
                    implies j == ti by {
                if j != ti {
                    assert(self.topics@[j].id != self.topics@[ti as int].id);
                }
            }
        }
        let mut t = self.topics.remove(ti);
        t.comments.push(id);
        self.topics.insert(ti, t);
        self.comments.push(
            Comment { id, content: payload.content, created_at: now, topic: payload.topic, author: editor },
        );
        proof {
            let tt = ti as int;
            let n = pre.comments.len() as int;
            assert(self.topics@ =~= pre.topics@.update(tt, self.topics@[tt]));
            assert(self.comments@.drop_last() =~= pre.comments@);
            assert forall|x: u128| pre.has_topic(x) <==> #[trigger] self.has_topic(x) by {
                if pre.has_topic(x) {
                    let j = choose|j: int| 0 <= j < pre.topics.len() && #[trigger] pre.topics@[j].id == x;
                    assert(self.topics@[j].id == x);
                }
                if self.has_topic(x) {
                    let j = choose|j: int| 0 <= j < self.topics.len() && #[trigger] self.topics@[j].id == x;
                    assert(pre.topics@[j].id == x);
                }
            }
            assert forall|i2: int, j: int|
                0 <= i2 < self.topics.len() && 0 <= j < self.topics.len() && i2 != j
                    implies #[trigger] self.topics@[i2].id != #[trigger] self.topics@[j].id by {
                assert(pre.topics@[i2].id != pre.topics@[j].id);
            }
            assert forall|i2: int, j: int|
                0 <= i2 < self.comments.len() && 0 <= j < self.comments.len() && i2 != j
                    implies #[trigger] self.comments@[i2].id != #[trigger] self.comments@[j].id by {
                if i2 < n && j < n {
                    assert(pre.comments@[i2].id != pre.comments@[j].id);
                } else if i2 < n {
                    assert(self.comments@[i2].id == pre.comments@[i2].id);
                } else {
                    assert(self.comments@[j].id == pre.comments@[j].id);
                }
            }
            assert forall|j: int, g: Seq<char>|
                #![trigger names(self.topics@[j].tags@).contains(g)]
                #![trigger self.tags.members(g).contains(self.topics@[j].id)]
                0 <= j < self.topics.len() implies (names(self.topics@[j].tags@).contains(g)
                    <==> self.tags.members(g).contains(self.topics@[j].id)) by {
                assert(names(pre.topics@[j].tags@).contains(g) <==> pre.tags.members(g).contains(pre.topics@[j].id));
            }
            assert forall|g: Seq<char>, x: u128| #[trigger]
                self.tags.members(g).contains(x) implies self.has_topic(x) by {
                assert(pre.tags.members(g).contains(x));
            }
            assert forall|j: int, k2: int|
                0 <= j < self.users.len() && 0 <= k2 < self.users@[j].favorites@.len()
                    implies self.has_topic(#[trigger] self.users@[j].favorites@[k2]) by {
                assert(pre.has_topic(pre.users@[j].favorites@[k2]));
            }
            assert forall|j: int|
                0 <= j < self.topics.len() implies #[trigger] self.topics@[j].favorite_count == fav_count(
                    self.users@,
                    self.topics@[j].id,
                ) by {
                assert(pre.topics@[j].favorite_count == fav_count(pre.users@, pre.topics@[j].id));
            }
            assert forall|j: int|
                0 <= j < self.topics.len() implies #[trigger] names(self.topics@[j].tags@).no_duplicates()
                    && sorted_names(names(self.topics@[j].tags@)) by {
                assert(self.topics@[j].tags == pre.topics@[j].tags);
            }
            assert(self.users == pre.users);
            assert(self.tags == pre.tags);
            assert(self.wf());
        }
        Ok(())
    }
}

} // verus!
