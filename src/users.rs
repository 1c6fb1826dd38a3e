use vstd::prelude::*;

use crate::error::{AppError, AuthError};
use crate::forum::Forum;
use crate::ledger::names;
use crate::model::{
    fav_count, lemma_fav_count_push, lemma_fav_count_update, AuthPayload, NewUser, User, UserPayload,
};
use crate::password::{digest_of, hash};
use crate::text::sorted_names;

verus! {

impl Forum {
    pub open spec fn has_email(&self, email: Seq<char>) -> bool {
        exists|i: int| 0 <= i < self.users.len() && #[trigger] self.users@[i].email@ == email
    }

    /// Whether a user other than the one at position `ui` has this username
    /// or this email.
    pub open spec fn taken_by_other(&self, ui: int, username: Seq<char>, email: Seq<char>) -> bool {
        exists|j: int|
            0 <= j < self.users.len() && j != ui && (#[trigger] self.users@[j].username@ == username
                || self.users@[j].email@ == email)
    }

    /// The user records but the one at `ui` stay; nothing but users changes.
    pub open spec fn only_user_changed(before: Forum, after: Forum, ui: int) -> bool {
        &&& after.users@.len() == before.users@.len()
        &&& forall|j: int| 0 <= j < before.users.len() && j != ui ==> after.users@[j] == before.users@[j]
        &&& after.topics@ == before.topics@
        &&& after.comments@ == before.comments@
        &&& after.tags == before.tags
    }

    /// The position of the user with email `email`.
    pub fn find_user_by_email(&self, email: &String) -> (r: Option<usize>)
        ensures
            r matches Some(i) ==> i < self.users.len() && self.users@[i as int].email@ == email@,
            r is None <==> !self.has_email(email@),
    {
        let mut i: usize = 0;
        while i < self.users.len()
            invariant
                i <= self.users.len(),
                forall|j: int| 0 <= j < i ==> #[trigger] self.users@[j].email@ != email@,
            decreases self.users.len() - i,
        {
            if self.users[i].email == *email {
                return Some(i);
            }
            i += 1;
        }
        None
    }

    /// The position of the user named `username`; `NotFound` where there is
    /// none.
    pub fn get_user(&self, username: &String) -> (r: Result<usize, AppError>)
        ensures
            r is Err <==> !self.has_username(username@),
            r matches Err(e) ==> e == AppError::NotFound,
            r matches Ok(i) ==> i < self.users.len() && self.users@[i as int].username@
                == username@,
    {
        match self.find_user_by_name(username) {
            Some(i) => Ok(i),
            None => Err(AppError::NotFound),
        }
    }

    /// The outcome that `register` owes for these arguments.
    pub open spec fn register_check(&self, id: u128, p: NewUser, secret: Seq<char>) -> Result<
        (),
        AppError,
    > {
        if p.email@.len() == 0 || p.username@.len() == 0 || p.password@.len() == 0 {
            Err(AppError::Invalid)
        } else if self.has_user(id) || self.has_username(p.username@) || self.has_email(p.email@) {
            Err(AppError::Duplicate)
        } else if digest_of(p.password@, secret) is None {
            Err(AppError::Internal)
        } else {
            Ok(())
        }
    }

    /// Registers user `id`. The password is stored as its digest under the
    /// salt secret `secret`; the nickname starts as the username, the other
    /// profile fields empty, the gender not given, and no favorites.
    #[verifier::spinoff_prover]
    pub fn register(&mut self, id: u128, new_user: NewUser, secret: &String, now: u64) -> (r: Result<
        (),
        AppError,
    >)
        requires
            old(self).wf(),
        ensures
            final(self).wf(),
            r == old(self).register_check(id, new_user, secret@),
            r is Err ==> *final(self) == *old(self),
            r is Ok ==> {
                let u = final(self).users@.last();
                &&& final(self).users@.drop_last() == old(self).users@
                &&& final(self).users@.len() == old(self).users@.len() + 1
                &&& final(self).topics@ == old(self).topics@
                &&& final(self).comments@ == old(self).comments@
                &&& final(self).tags == old(self).tags
                &&& u.id == id
                &&& u.email@ == new_user.email@
                &&& u.username@ == new_user.username@
                &&& u.nickname@ == new_user.username@
                &&& digest_of(new_user.password@, secret@) == Some(u.password@)
                &&& u.favorites@.len() == 0
                &&& u.avatar@.len() == 0
                &&& u.bio@.len() == 0
                &&& u.birthday@.len() == 0
                &&& u.job@.len() == 0
                &&& u.phone@.len() == 0
                &&& u.gender == -1
                &&& u.created_at == now
                &&& u.updated_at == now
            },
    {
        if new_user.email.as_str().is_empty() || new_user.username.as_str().is_empty()
            || new_user.password.as_str().is_empty() {
            return Err(AppError::Invalid);
        }
        if self.find_user(id).is_some() || self.find_user_by_name(&new_user.username).is_some()
            || self.find_user_by_email(&new_user.email).is_some() {
            return Err(AppError::Duplicate);
        }
        let digest = hash(&new_user.password, secret)?;
        let ghost pre = *self;
        let nickname = new_user.username.clone();
        let user = User {
            id,
            avatar: String::new(),
            bio: String::new(),
            birthday: String::new(),
            created_at: now,
            email: new_user.email,
            favorites: Vec::new(),
            gender: -1,
            job: String::new(),
            nickname,
            password: digest,
            phone: String::new(),
            updated_at: now,
            username: new_user.username,
        };
        self.users.push(user);
        proof {
            let n = pre.users.len() as int;
            let u = self.users@[n];
            assert(self.users@ =~= pre.users@.push(u));
            assert forall|i2: int, j: int|
                0 <= i2 < self.users.len() && 0 <= j < self.users.len() && i2 != j implies {
                    &&& #[trigger] self.users@[i2].id != #[trigger] self.users@[j].id
                    &&& self.users@[i2].username@ != self.users@[j].username@
                    &&& self.users@[i2].email@ != self.users@[j].email@
                } by {
                if i2 < n && j < n {
                    assert(pre.users@[i2].id != pre.users@[j].id);
                } else if i2 < n {
                    assert(self.users@[i2] == pre.users@[i2]);
                } else {
                    assert(self.users@[j] == pre.users@[j]);
                }
            }
            assert forall|j: int| 0 <= j < self.users.len() implies #[trigger] self.users@[j].favorites@.no_duplicates() by {
                if j < n {
                    assert(self.users@[j] == pre.users@[j]);
                }
            }
            assert forall|j: int, k: int|
                0 <= j < self.users.len() && 0 <= k < self.users@[j].favorites@.len()
                    implies self.has_topic(#[trigger] self.users@[j].favorites@[k]) by {
                assert(self.users@[j] == pre.users@[j]);
                assert(pre.has_topic(pre.users@[j].favorites@[k]));
            }
            assert forall|j: int|
                0 <= j < self.topics.len() implies #[trigger] self.topics@[j].favorite_count == fav_count(
                    self.users@,
                    self.topics@[j].id,
                ) by {
                lemma_fav_count_push(pre.users@, u, self.topics@[j].id);
            }
            assert(self.topics == pre.topics);
            assert(self.comments == pre.comments);
            assert(self.tags == pre.tags);
            assert(self.wf());
        }
        Ok(())
    }

    /// Logs a user in by email and password: the position of the user whose
    /// email matches and whose stored digest is that of the password under
    /// the salt secret `secret`.
    #[verifier::spinoff_prover]
    pub fn login(&self, payload: &AuthPayload, secret: &String) -> (r: Result<usize, AppError>)
        requires
            self.wf(),
        ensures
            payload.email@.len() == 0 || payload.password@.len() == 0 ==> r == Err::<usize, AppError>(
                AppError::Auth(AuthError::MissingCredentials),
            ),
            payload.email@.len() > 0 && payload.password@.len() > 0 && digest_of(
                payload.password@,
                secret@,
            ) is None ==> r == Err::<usize, AppError>(AppError::Internal),
            payload.email@.len() > 0 && payload.password@.len() > 0 && digest_of(
                payload.password@,
                secret@,
            ) is Some ==> {
                &&& r is Ok <==> exists|i: int|
                    0 <= i < self.users.len() && #[trigger] self.users@[i].email@ == payload.email@
                        && digest_of(payload.password@, secret@) == Some(self.users@[i].password@)
                &&& r is Err ==> r == Err::<usize, AppError>(
                    AppError::Auth(AuthError::InvalidCredentials),
                )
            },
            r matches Ok(i) ==> i < self.users.len() && self.users@[i as int].email@ == payload.email@
                && digest_of(payload.password@, secret@) == Some(self.users@[i as int].password@),
    {
        if payload.email.as_str().is_empty() || payload.password.as_str().is_empty() {
            return Err(AppError::Auth(AuthError::MissingCredentials));
        }
        let digest = hash(&payload.password, secret)?;
        match self.find_user_by_email(&payload.email) {
            Some(i) => {
                proof {
                    assert forall|j: int|
                        0 <= j < self.users.len() && #[trigger] self.users@[j].email@ == payload.email@
                            implies j == i by {
                        if j != i {
                            assert(self.users@[j].id != self.users@[i as int].id);
                        }
                    }
                }
                if self.users[i].password == digest {
                    Ok(i)
                } else {
                    Err(AppError::Auth(AuthError::InvalidCredentials))
                }
            },
            None => Err(AppError::Auth(AuthError::InvalidCredentials)),
        }
    }

    /// Whether a user other than the one at `ui` has this username or email.
    fn taken_elsewhere(&self, ui: usize, username: &String, email: &String) -> (r: bool)
        ensures
            r == self.taken_by_other(ui as int, username@, email@),
    {
        let mut j: usize = 0;
        while j < self.users.len()
            invariant
                j <= self.users.len(),
                forall|k: int|
                    0 <= k < j && k != ui ==> #[trigger] self.users@[k].username@ != username@
                        && self.users@[k].email@ != email@,
            decreases self.users.len() - j,
        {
            let ghost j0 = j as int;
            if j != ui {
                let same_name = self.users[j].username == *username;
                let same_email = self.users[j].email == *email;
                if same_name || same_email {
                    return true;
                }
            }
            j += 1;
            assert forall|k: int|
                0 <= k < j && k != ui implies #[trigger] self.users@[k].username@ != username@
                    && self.users@[k].email@ != email@ by {
                if k < j0 {
                    assert(self.users@[k].username@ != username@);
                }
            }
        }
        false
    }

    /// The outcome that `update_my_settings` owes for these arguments.
    pub open spec fn settings_check(&self, p: UserPayload, editor: u128, secret: Seq<char>) -> Result<
        (),
        AppError,
    > {
        if p.id != editor {
            Err(AppError::Forbidden)
        } else if !self.has_user(editor) {
            Err(AppError::NotFound)
        } else if p.email@.len() == 0 || p.username@.len() == 0 {
            Err(AppError::Invalid)
        } else if exists|ui: int|
            0 <= ui < self.users.len() && #[trigger] self.users@[ui].id == editor
                && self.taken_by_other(ui, p.username@, p.email@) {
            Err(AppError::Duplicate)
        } else if p.password matches Some(pw) && pw@.len() > 0 && digest_of(pw@, secret) is None {
            Err(AppError::Internal)
        } else {
            Ok(())
        }
    }

    /// Changes the profile of the signed-in user `editor`: every field from
    /// the payload, and the password digest where a non-empty password is
    /// given. Favorites, id and creation time stay.
    #[verifier::spinoff_prover]
    pub fn update_my_settings(
        &mut self,
        payload: UserPayload,
        editor: u128,
        secret: &String,
        now: u64,
    ) -> (r: Result<(), AppError>)
        requires
            old(self).wf(),
        ensures
            final(self).wf(),
            r == old(self).settings_check(payload, editor, secret@),
            r is Err ==> *final(self) == *old(self),
            r is Ok ==> forall|ui: int|
                0 <= ui < old(self).users.len() && #[trigger] old(self).users@[ui].id == editor ==> {
                    let u0 = old(self).users@[ui];
                    let u1 = final(self).users@[ui];
                    &&& Forum::only_user_changed(*old(self), *final(self), ui)
                    &&& u1.id == u0.id
                    &&& u1.favorites == u0.favorites
                    &&& u1.created_at == u0.created_at
                    &&& u1.updated_at == now
                    &&& u1.avatar@ == payload.avatar@
                    &&& u1.bio@ == payload.bio@
                    &&& u1.birthday@ == payload.birthday@
                    &&& u1.email@ == payload.email@
                    &&& u1.gender == payload.gender
                    &&& u1.job@ == payload.job@
                    &&& u1.nickname@ == payload.nickname@
                    &&& u1.phone@ == payload.phone@
                    &&& u1.username@ == payload.username@
                    &&& match payload.password {
                        Some(pw) => if pw@.len() > 0 {
                            digest_of(pw@, secret@) == Some(u1.password@)
                        } else {
                            u1.password == u0.password
                        },
                        None => u1.password == u0.password,
                    }
                },
    {
        if payload.id != editor {
            return Err(AppError::Forbidden);
        }
        let ui = match self.find_user(editor) {
            Some(i) => i,
            None => {
                return Err(AppError::NotFound);
            },
        };
        proof {
            assert forall|j: int|
                0 <= j < self.users.len() && #[trigger] self.users@[j].id == editor implies j == ui by {
                if j != ui {
                    assert(self.users@[j].id != self.users@[ui as int].id);
                }
            }
        }
        if payload.email.as_str().is_empty() || payload.username.as_str().is_empty() {
            return Err(AppError::Invalid);
        }
        if self.taken_elsewhere(ui, &payload.username, &payload.email) {
            return Err(AppError::Duplicate);
        }
        let digest: Option<String> = match &payload.password {
            Some(pw) => {
                if pw.as_str().is_empty() {
                    None
                } else {
                    Some(hash(pw, secret)?)
                }
            },
            None => None,
        };
        let ghost pre = *self;
        let u0 = self.users.remove(ui);
        let password = match digest {
            Some(d) => d,
            None => u0.password,
        };
        let u1 = User {
            id: u0.id,
            avatar: payload.avatar,
            bio: payload.bio,
            birthday: payload.birthday,
            created_at: u0.created_at,
            email: payload.email,
            favorites: u0.favorites,
            gender: payload.gender,
            job: payload.job,
            nickname: payload.nickname,
            password,
            phone: payload.phone,
            updated_at: now,
            username: payload.username,
        };
        self.users.insert(ui, u1);
        proof {
            let uu = ui as int;
            assert(self.users@ =~= pre.users@.update(uu, self.users@[uu]));
            assert forall|i2: int, j: int|
                0 <= i2 < self.users.len() && 0 <= j < self.users.len() && i2 != j implies {
                    &&& #[trigger] self.users@[i2].id != #[trigger] self.users@[j].id
                    &&& self.users@[i2].username@ != self.users@[j].username@
                    &&& self.users@[i2].email@ != self.users@[j].email@
                } by {
                assert(pre.users@[i2].id != pre.users@[j].id);
                if i2 == uu {
                    assert(!(pre.users@[j].username@ == self.users@[uu].username@ || pre.users@[j].email@ == self.users@[uu].email@));
                } else if j == uu {
                    assert(!(pre.users@[i2].username@ == self.users@[uu].username@ || pre.users@[i2].email@ == self.users@[uu].email@));
                }
            }
            assert forall|j: int| 0 <= j < self.users.len() implies #[trigger] self.users@[j].favorites@.no_duplicates() by {
                assert(self.users@[j].favorites == pre.users@[j].favorites);
            }
            assert forall|j: int, k: int|
                0 <= j < self.users.len() && 0 <= k < self.users@[j].favorites@.len()
                    implies self.has_topic(#[trigger] self.users@[j].favorites@[k]) by {
                assert(self.users@[j].favorites == pre.users@[j].favorites);
                assert(pre.has_topic(pre.users@[j].favorites@[k]));
            }
            assert forall|j: int|
                0 <= j < self.topics.len() implies #[trigger] self.topics@[j].favorite_count == fav_count(
                    self.users@,
                    self.topics@[j].id,
                ) by {
                lemma_fav_count_update(pre.users@, uu, self.users@[uu], self.topics@[j].id);
            }
            assert(self.topics == pre.topics);
            assert(self.comments == pre.comments);
            assert(self.tags == pre.tags);
            assert(self.wf());
        }
        Ok(())
    }
}

} // verus!
