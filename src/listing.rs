use vstd::prelude::*;

use crate::error::AppError;
use crate::forum::Forum;
use crate::model::{Topic, User};
use crate::recency::{newest_first, order_newest};

verus! {

/// The number of entries on a page of a listing.
pub const PAGE_SIZE: u64 = 10;

/// Page `page` (counted from 1) of the list `s`: entries
/// `(page - 1) * PAGE_SIZE` up to `page * PAGE_SIZE`, cut at the end of the
/// list; empty past the end.
pub open spec fn page_window(s: Seq<u128>, page: nat) -> Seq<u128> {
    let lo = (page - 1) * PAGE_SIZE;
    if page == 0 || lo >= s.len() {
        Seq::empty()
    } else if lo + PAGE_SIZE < s.len() {
        s.subrange(lo, lo + PAGE_SIZE)
    } else {
        s.subrange(lo, s.len() as int)
    }
}

/// The times of change of a list of topics.
pub open spec fn topic_times(s: Seq<Topic>) -> Seq<u64> {
    s.map_values(|t: Topic| t.updated_at)
}

/// The registration times of a list of users.
pub open spec fn user_times(s: Seq<User>) -> Seq<u64> {
    s.map_values(|u: User| u.created_at)
}

/// The ids of the topics of `s` at the positions `ord`, in that order.
pub open spec fn topic_ids_at(s: Seq<Topic>, ord: Seq<usize>) -> Seq<u128> {
    ord.map_values(|i: usize| s[i as int].id)
}

/// The ids of the users of `s` at the positions `ord`, in that order.
pub open spec fn user_ids_at(s: Seq<User>, ord: Seq<usize>) -> Seq<u128> {
    ord.map_values(|i: usize| s[i as int].id)
}

/// The positions below `n`.
pub open spec fn all_positions(n: nat) -> Set<usize> {
    Set::new(|i: usize| i < n)
}

/// The positions of the topics of `s` that user `uid` owns.
pub open spec fn owned_positions(s: Seq<Topic>, uid: u128) -> Set<usize> {
    Set::new(|i: usize| i < s.len() && s[i as int].owner == uid)
}

/// The positions `0..n`, each once.
fn positions(n: usize) -> (r: Vec<usize>)
    ensures
        r@.no_duplicates(),
        r@.to_set() == all_positions(n as nat),
        forall|k: int| 0 <= k < r@.len() ==> (#[trigger] r@[k]) < n,
{
    let mut r: Vec<usize> = Vec::new();
    let mut k: usize = 0;
    while k < n
        invariant
            k <= n,
            r@.len() == k,
            forall|i: int| 0 <= i < k ==> #[trigger] r@[i] == i,
        decreases n - k,
    {
        r.push(k);
        k += 1;
    }
    proof {
        assert forall|x: usize| r@.contains(x) <==> x < n by {
            if x < n {
                assert(r@[x as int] == x);
            }
        }
        assert(r@.to_set() =~= all_positions(n as nat));
    }
    r
}

/// Cuts page `page` out of `s`.
pub fn page_of(s: &Vec<u128>, page: u32) -> (r: Vec<u128>)
    requires
        page >= 1,
    ensures
        r@ == page_window(s@, page as nat),
{
    let lo: u64 = (page as u64 - 1) * PAGE_SIZE;
    let n: u64 = s.len() as u64;
    let mut r: Vec<u128> = Vec::new();
    if lo >= n {
        return r;
    }
    let hi: u64 = if lo + PAGE_SIZE < n {
        lo + PAGE_SIZE
    } else {
        n
    };
    let mut k: u64 = lo;
    while k < hi
        invariant
            lo <= k <= hi <= n,
            n == s.len(),
            r@ == s@.subrange(lo as int, k as int),
        decreases hi - k,
    {
        r.push(s[k as usize]);
        k += 1;
        proof {
            assert(r@ =~= s@.subrange(lo as int, k as int));
        }
    }
    r
}

/// Reads a page number as a client writes it: decimal digits, optionally
/// after a `+`. `None` where that is not the form, or the number is 0 or
/// does not fit in an `i32`.
pub open spec fn page_value(s: Seq<char>) -> Option<u32> {
    let d = if s.len() > 0 && s[0] == '+' {
        s.drop_first()
    } else {
        s
    };
    if d.len() > 0 && all_digits(d) && 1 <= digits_value(d) <= i32::MAX {
        Some(digits_value(d) as u32)
    } else {
        None
    }
}

pub open spec fn all_digits(s: Seq<char>) -> bool {
    forall|i: int| 0 <= i < s.len() ==> '0' <= #[trigger] s[i] <= '9'
}

/// The number that a string of decimal digits writes.
pub open spec fn digits_value(s: Seq<char>) -> int
    decreases s.len(),
{
    if s.len() == 0 {
        0
    } else {
        digits_value(s.drop_last()) * 10 + (s.last() as int - '0' as int)
    }
}

proof fn lemma_digits_grow(s: Seq<char>, k: int)
    requires
        0 <= k < s.len(),
        all_digits(s),
    ensures
        digits_value(s.subrange(0, k + 1)) == digits_value(s.subrange(0, k)) * 10 + (s[k] as int
            - '0' as int),
        digits_value(s.subrange(0, k + 1)) >= digits_value(s.subrange(0, k)),
{
    assert(s.subrange(0, k + 1).drop_last() =~= s.subrange(0, k));
    assert(digits_value(s.subrange(0, k)) >= 0) by {
        lemma_digits_nonneg(s.subrange(0, k));
    }
}

proof fn lemma_digits_nonneg(s: Seq<char>)
    requires
        all_digits(s),
    ensures
        digits_value(s) >= 0,
    decreases s.len(),
{
    if s.len() > 0 {
        let t = s.drop_last();
        assert forall|i: int| 0 <= i < t.len() implies '0' <= #[trigger] t[i] <= '9' by {
            assert(t[i] == s[i]);
        }
        lemma_digits_nonneg(t);
        assert('0' <= s[s.len() - 1]);
    }
}

proof fn lemma_digits_monotone(s: Seq<char>, k: int)
    requires
        0 <= k <= s.len(),
        all_digits(s),
    ensures
        digits_value(s) >= digits_value(s.subrange(0, k)),
    decreases s.len() - k,
{
    if k < s.len() {
        lemma_digits_grow(s, k);
        lemma_digits_monotone(s, k + 1);
    } else {
        assert(s.subrange(0, k) =~= s);
    }
}

/// The page number that the query argument `arg` asks for; page 1 where it
/// is absent.
pub fn page_number(arg: Option<&str>) -> (r: Result<u32, AppError>)
    ensures
        arg is None ==> r == Ok::<u32, AppError>(1),
        arg matches Some(s) ==> r == match page_value(s@) {
            Some(v) => Ok::<u32, AppError>(v),
            None => Err(AppError::Invalid),
        },
{
    let s = match arg {
        None => {
            return Ok(1);
        },
        Some(s) => s,
    };
    let n = s.unicode_len();
    let mut start: usize = 0;
    if n > 0 && s.get_char(0) == '+' {
        start = 1;
    }
    let ghost d = if s@.len() > 0 && s@[0] == '+' {
        s@.drop_first()
    } else {
        s@
    };
    proof {
        assert(d =~= s@.subrange(start as int, n as int));
    }
    if start >= n {
        return Err(AppError::Invalid);
    }
    let mut v: u64 = 0;
    let mut k: usize = start;
    while k < n
        invariant
            start <= k <= n,
            n == s@.len(),
            arg == Some(s),
            d == (if s@.len() > 0 && s@[0] == '+' {
                s@.drop_first()
            } else {
                s@
            }),
            d == s@.subrange(start as int, n as int),
            forall|i: int| 0 <= i < k - start ==> '0' <= #[trigger] d[i] <= '9',
            v == digits_value(d.subrange(0, k - start)),
            v <= i32::MAX,
        decreases n - k,
    {
        let c = s.get_char(k);
        let ghost j = k - start;
        assert(d[j] == c);
        if c < '0' || c > '9' {
            proof {
                assert(!all_digits(d)) by {
                    assert(!('0' <= d[j] <= '9'));
                }
            }
            return Err(AppError::Invalid);
        }
        let next: u64 = v * 10 + (c as u64 - '0' as u64);
        proof {
            let pre = d.subrange(0, j);
            let cur = d.subrange(0, j + 1);
            assert(cur.drop_last() =~= pre);
            assert(cur.last() == c);
            assert(next == digits_value(cur));
        }
        if next > 2147483647 {
            proof {
                let cur = d.subrange(0, j + 1);
                assert forall|i: int| 0 <= i < cur.len() implies '0' <= #[trigger] cur[i] <= '9' by {
                    assert(cur[i] == d[i]);
                }
                if all_digits(d) {
                    lemma_digits_monotone(d, j + 1);
                }
            }
            return Err(AppError::Invalid);
        }
        v = next;
        k += 1;
    }
    proof {
        assert(d.subrange(0, k - start) =~= d);
    }
    if v == 0 {
        return Err(AppError::Invalid);
    }
    Ok(v as u32)
}

impl Forum {
    pub open spec fn has_username(&self, name: Seq<char>) -> bool {
        exists|i: int| 0 <= i < self.users.len() && #[trigger] self.users@[i].username@ == name
    }

    /// The position of the user named `username`.
    pub fn find_user_by_name(&self, username: &String) -> (r: Option<usize>)
        ensures
            r matches Some(i) ==> i < self.users.len() && self.users@[i as int].username@
                == username@,
            r is None <==> !self.has_username(username@),
    {
        let mut i: usize = 0;
        while i < self.users.len()
            invariant
                i <= self.users.len(),
                forall|j: int| 0 <= j < i ==> #[trigger] self.users@[j].username@ != username@,
            decreases self.users.len() - i,
        {
            if self.users[i].username == *username {
                return Some(i);
            }
            i += 1;
        }
        None
    }

    /// Page `page` of all topics, the most recently changed first (ties:
    /// the later opened first), and the number of topics.
    pub fn get_topics(&self, page: u32) -> (r: (Vec<u128>, usize))
        requires
            page >= 1,
        ensures
            exists|ord: Seq<usize>|
                newest_first(ord, all_positions(self.topics@.len()), topic_times(self.topics@))
                    && r.0@ == page_window(topic_ids_at(self.topics@, ord), page as nat),
            r.1 == self.topics@.len(),
    {
        let keys = self.topic_keys();
        let idx = positions(self.topics.len());
        let ord = order_newest(&keys, &idx);
        let ids = self.topic_ids_of(&ord);
        (page_of(&ids, page), self.topics.len())
    }

    /// Page `page` of all users, the most recently registered first (ties:
    /// the later stored first), and the number of users.
    pub fn get_users(&self, page: u32) -> (r: (Vec<u128>, usize))
        requires
            page >= 1,
        ensures
            exists|ord: Seq<usize>|
                newest_first(ord, all_positions(self.users@.len()), user_times(self.users@))
                    && r.0@ == page_window(user_ids_at(self.users@, ord), page as nat),
            r.1 == self.users@.len(),
    {
        let mut keys: Vec<u64> = Vec::new();
        let mut k: usize = 0;
        while k < self.users.len()
            invariant
                k <= self.users.len(),
                keys@ == user_times(self.users@).subrange(0, k as int),
            decreases self.users.len() - k,
        {
            keys.push(self.users[k].created_at);
            k += 1;
            proof {
                assert(keys@ =~= user_times(self.users@).subrange(0, k as int));
            }
        }
        proof {
            assert(keys@ =~= user_times(self.users@));
        }
        let idx = positions(self.users.len());
        let ord = order_newest(&keys, &idx);
        let mut ids: Vec<u128> = Vec::new();
        let mut k: usize = 0;
        while k < ord.len()
            invariant
                k <= ord.len(),
                keys@.len() == self.users@.len(),
                forall|j: int| 0 <= j < ord@.len() ==> (#[trigger] ord@[j]) < keys@.len(),
                ids@ == user_ids_at(self.users@, ord@.subrange(0, k as int)),
            decreases ord.len() - k,
        {
            ids.push(self.users[ord[k]].id);
            k += 1;
            proof {
                assert(ids@ =~= user_ids_at(self.users@, ord@.subrange(0, k as int)));
            }
        }
        proof {
            assert(ord@.subrange(0, k as int) =~= ord@);
        }
        (page_of(&ids, page), self.users.len())
    }

    /// The times of change of all topics, in store order.
    fn topic_keys(&self) -> (r: Vec<u64>)
        ensures
            r@ == topic_times(self.topics@),
    {
        let mut keys: Vec<u64> = Vec::new();
        let mut k: usize = 0;
        while k < self.topics.len()
            invariant
                k <= self.topics.len(),
                keys@ == topic_times(self.topics@).subrange(0, k as int),
            decreases self.topics.len() - k,
        {
            keys.push(self.topics[k].updated_at);
            k += 1;
            proof {
                assert(keys@ =~= topic_times(self.topics@).subrange(0, k as int));
            }
        }
        proof {
            assert(keys@ =~= topic_times(self.topics@));
        }
        keys
    }

    /// The ids of the topics at the positions `ord`.
    fn topic_ids_of(&self, ord: &Vec<usize>) -> (r: Vec<u128>)
        requires
            forall|j: int| 0 <= j < ord@.len() ==> (#[trigger] ord@[j]) < self.topics@.len(),
        ensures
            r@ == topic_ids_at(self.topics@, ord@),
    {
        let mut ids: Vec<u128> = Vec::new();
        let mut k: usize = 0;
        while k < ord.len()
            invariant
                k <= ord.len(),
                forall|j: int| 0 <= j < ord@.len() ==> (#[trigger] ord@[j]) < self.topics@.len(),
                ids@ == topic_ids_at(self.topics@, ord@.subrange(0, k as int)),
            decreases ord.len() - k,
        {
            ids.push(self.topics[ord[k]].id);
            k += 1;
            proof {
                assert(ids@ =~= topic_ids_at(self.topics@, ord@.subrange(0, k as int)));
            }
        }
        proof {
            assert(ord@.subrange(0, k as int) =~= ord@);
        }
        ids
    }

    /// Page `page` of the topics that carry the tag `tag`, in the order they
    /// joined it, and how many topics carry it.
    pub fn get_topics_by_tag(&self, tag: &String, page: u32) -> (r: (Vec<u128>, usize))
        requires
            self.wf(),
            page >= 1,
        ensures
            r.0@ == page_window(self.tags.listing(tag@), page as nat),
            r.1 == self.tags.listing(tag@).len(),
            r.1 == self.tags.members(tag@).len(),
    {
        let all = self.tags.topics_for_tag(tag);
        proof {
            self.tags.lemma_listing(tag@);
        }
        (page_of(&all, page), all.len())
    }

    /// Page `page` of the topics that the user named `username` opened, the
    /// most recently changed first (ties: the later opened first), and how
    /// many there are.
    pub fn get_user_topics(&self, username: &String, page: u32) -> (r: Result<
        (Vec<u128>, usize),
        AppError,
    >)
        requires
            self.wf(),
            page >= 1,
        ensures
            r is Err <==> !self.has_username(username@),
            r matches Err(e) ==> e == AppError::NotFound,
            r matches Ok((items, total)) ==> forall|i: int|
                0 <= i < self.users.len() && #[trigger] self.users@[i].username@ == username@
                    ==> exists|ord: Seq<usize>|
                    newest_first(
                        ord,
                        owned_positions(self.topics@, self.users@[i].id),
                        topic_times(self.topics@),
                    ) && items@ == page_window(topic_ids_at(self.topics@, ord), page as nat)
                        && total == ord.len(),
    {
        let ui = match self.find_user_by_name(username) {
            Some(i) => i,
            None => {
                return Err(AppError::NotFound);
            },
        };
        let uid = self.users[ui].id;
        let mut idx: Vec<usize> = Vec::new();
        let mut k: usize = 0;
        while k < self.topics.len()
            invariant
                k <= self.topics.len(),
                idx@.no_duplicates(),
                forall|j: int| 0 <= j < idx@.len() ==> (#[trigger] idx@[j]) < k,
                forall|x: usize|
                    idx@.contains(x) <==> x < k && #[trigger] self.topics@[x as int].owner == uid,
            decreases self.topics.len() - k,
        {
            let ghost before = idx@;
            if self.topics[k].owner == uid {
                idx.push(k);
                proof {
                    assert(idx@[before.len() as int] == k);
                    assert forall|x: usize| idx@.contains(x) <==> before.contains(x) || x == k by {
                        if idx@.contains(x) {
                            let j = choose|j: int| 0 <= j < idx@.len() && idx@[j] == x;
                            if j < before.len() {
                                assert(before[j] == x);
                            }
                        }
                        if before.contains(x) {
                            let j = choose|j: int| 0 <= j < before.len() && before[j] == x;
                            assert(idx@[j] == x);
                        }
                    }
                }
            }
            k += 1;
        }
        proof {
            assert(idx@.to_set() =~= owned_positions(self.topics@, uid));
            assert forall|i: int|
                0 <= i < self.users.len() && #[trigger] self.users@[i].username@ == username@
                    implies i == ui by {
                if i != ui {
                    assert(self.users@[i].id != self.users@[ui as int].id);
                    assert(self.users@[i].username@ != self.users@[ui as int].username@);
                }
            }
        }
        let keys = self.topic_keys();
        let ord = order_newest(&keys, &idx);
        let ids = self.topic_ids_of(&ord);
        let total = ord.len();
        Ok((page_of(&ids, page), total))
    }

    /// Page `page` of the favorites of the user named `username`, in the
    /// order of the user's actions, and how many favorites the user has.
    pub fn get_user_favorites(&self, username: &String, page: u32) -> (r: Result<
        (Vec<u128>, usize),
        AppError,
    >)
        requires
            self.wf(),
            page >= 1,
        ensures
            r is Err <==> !self.has_username(username@),
            r matches Err(e) ==> e == AppError::NotFound,
            r matches Ok((items, total)) ==> forall|i: int|
                0 <= i < self.users.len() && #[trigger] self.users@[i].username@ == username@ ==> {
                    &&& items@ == page_window(self.users@[i].favorites@, page as nat)
                    &&& total == self.users@[i].favorites@.len()
                },
    {
        let ui = match self.find_user_by_name(username) {
            Some(i) => i,
            None => {
                return Err(AppError::NotFound);
            },
        };
        proof {
            assert forall|i: int|
                0 <= i < self.users.len() && #[trigger] self.users@[i].username@ == username@
                    implies i == ui by {
                if i != ui {
                    assert(self.users@[i].id != self.users@[ui as int].id);
                    assert(self.users@[i].username@ != self.users@[ui as int].username@);
                }
            }
        }
        let favorites = &self.users[ui].favorites;
        Ok((page_of(favorites, page), favorites.len()))
    }

    /// Every tag with the number of topics that carry it, in the order the
    /// tags were created.
    pub fn get_tags(&self) -> (r: Vec<(String, usize)>)
        ensures
            r@.len() == self.tags.rows@.len(),
            forall|i: int|
                0 <= i < r@.len() ==> #[trigger] r@[i].0@ == self.tags.rows@[i].name@ && r@[i].1
                    == self.tags.rows@[i].topics@.len(),
    {
        let mut r: Vec<(String, usize)> = Vec::new();
        let mut k: usize = 0;
        while k < self.tags.rows.len()
            invariant
                k <= self.tags.rows.len(),
                r@.len() == k,
                forall|i: int|
                    0 <= i < k ==> #[trigger] r@[i].0@ == self.tags.rows@[i].name@ && r@[i].1
                        == self.tags.rows@[i].topics@.len(),
            decreases self.tags.rows.len() - k,
        {
            let row = &self.tags.rows[k];
            let name = row.name.clone();
            let count = row.topics.len();
            let ghost before = r@;
            r.push((name, count));
            proof {
                assert forall|i: int|
                    0 <= i < k + 1 implies #[trigger] r@[i].0@ == self.tags.rows@[i].name@ && r@[i].1
                        == self.tags.rows@[i].topics@.len() by {
                    if i < k {
                        assert(r@[i] == before[i]);
                    } else {
                        assert(r@[i] == (name, count));
                        assert(name@ == self.tags.rows@[i].name@);
                    }
                }
            }
            k += 1;
        }
        r
    }
}

} // verus!
