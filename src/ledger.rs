use vstd::prelude::*;

verus! {

/// The names held by a list of strings, as character sequences.
pub open spec fn names(v: Seq<String>) -> Seq<Seq<char>> {
    v.map_values(|s: String| s@)
}

/// Whether one of the first `k` entries of `s` is `g`.
pub open spec fn prefix_has(s: Seq<Seq<char>>, k: int, g: Seq<char>) -> bool {
    exists|j: int| 0 <= j < k && s[j] == g
}

/// What reconciling topic `id` from the tag names `previous` to the tag names
/// `desired` makes of the membership `m` of the tag named `g`: the topic joins
/// the tags it gains, leaves the tags it loses, and every other membership
/// stays as it was.
pub open spec fn reconciled(
    m: Set<u128>,
    g: Seq<char>,
    id: u128,
    desired: Seq<Seq<char>>,
    previous: Seq<Seq<char>>,
) -> Set<u128> {
    if desired.contains(g) && !previous.contains(g) {
        m.insert(id)
    } else if previous.contains(g) && !desired.contains(g) {
        m.remove(id)
    } else {
        m
    }
}

/// Whether `v` holds a string equal to `g`.
pub fn contains_name(v: &Vec<String>, g: &String) -> (r: bool)
    ensures
        r == names(v@).contains(g@),
{
    let mut i: usize = 0;
    while i < v.len()
        invariant
            i <= v.len(),
            forall|j: int| 0 <= j < i ==> v@[j]@ != g@,
        decreases v.len() - i,
    {
        if v[i] == *g {
            proof {
                assert(names(v@)[i as int] == g@);
            }
            return true;
        }
        i += 1;
    }
    proof {
        assert forall|j: int| 0 <= j < names(v@).len() implies names(v@)[j] != g@ by {
            assert(names(v@)[j] == v@[j]@);
        }
    }
    false
}

/// The position of `x` in `v`, if it is there.
pub fn position_of(v: &Vec<u128>, x: u128) -> (r: Option<usize>)
    ensures
        r matches Some(p) ==> p < v.len() && v@[p as int] == x,
        r is None ==> !v@.contains(x),
{
    let mut i: usize = 0;
    while i < v.len()
        invariant
            i <= v.len(),
            forall|j: int| 0 <= j < i ==> v@[j] != x,
        decreases v.len() - i,
    {
        if v[i] == x {
            return Some(i);
        }
        i += 1;
    }
    None
}

/// Removing one entry of a list without repetitions removes exactly that
/// value from its set of entries.
pub proof fn lemma_remove_unique(s: Seq<u128>, p: int)
    requires
        s.no_duplicates(),
        0 <= p < s.len(),
    ensures
        s.remove(p).no_duplicates(),
        s.remove(p).to_set() == s.to_set().remove(s[p]),
{
    let r = s.remove(p);
    assert forall|i: int, j: int| 0 <= i < r.len() && 0 <= j < r.len() && i != j implies r[i]
        != r[j] by {
        let a = if i < p { i } else { i + 1 };
        let b = if j < p { j } else { j + 1 };
        assert(r[i] == s[a] && r[j] == s[b]);
    }
    assert forall|y: u128| r.contains(y) <==> s.contains(y) && y != s[p] by {
        if r.contains(y) {
            let i = choose|i: int| 0 <= i < r.len() && r[i] == y;
            let a = if i < p { i } else { i + 1 };
            assert(s[a] == y);
            assert(a != p);
        }
        if s.contains(y) && y != s[p] {
            let a = choose|a: int| 0 <= a < s.len() && s[a] == y;
            let i = if a < p { a } else { a - 1 };
            assert(r[i] == y);
        }
    }
    assert(r.to_set() =~= s.to_set().remove(s[p]));
}

/// Appending a value that a list without repetitions lacks keeps it without
/// repetitions and adds the value to its set of entries.
pub proof fn lemma_push_unique(s: Seq<u128>, x: u128)
    requires
        s.no_duplicates(),
        !s.contains(x),
    ensures
        s.push(x).no_duplicates(),
        s.push(x).to_set() == s.to_set().insert(x),
{
    let r = s.push(x);
    assert forall|i: int, j: int| 0 <= i < r.len() && 0 <= j < r.len() && i != j implies r[i]
        != r[j] by {
        if i < s.len() && j < s.len() {
            assert(r[i] == s[i] && r[j] == s[j]);
        } else if i < s.len() {
            assert(r[i] == s[i]);
        } else {
            assert(r[j] == s[j]);
        }
    }
    assert forall|y: u128| r.contains(y) <==> s.contains(y) || y == x by {
        if r.contains(y) {
            let i = choose|i: int| 0 <= i < r.len() && r[i] == y;
            if i < s.len() {
                assert(s[i] == y);
            }
        }
        if s.contains(y) {
            let a = choose|a: int| 0 <= a < s.len() && s[a] == y;
            assert(r[a] == y);
        }
        if y == x {
            assert(r[s.len() as int] == y);
        }
    }
    assert(r.to_set() =~= s.to_set().insert(x));
}

/// A tag: its canonical name and the topics that carry it.
pub struct Tag {
    pub name: String,
    pub topics: Vec<u128>,
}

/// The reverse index from tag names to the topics that carry them.
pub struct TagLedger {
    pub rows: Vec<Tag>,
}

impl TagLedger {
    /// Names are unique, and every tag lists at least one topic, each once.
    pub open spec fn wf(&self) -> bool {
        &&& forall|i: int, j: int|
            0 <= i < self.rows.len() && 0 <= j < self.rows.len() && i != j
                ==> #[trigger] self.rows@[i].name@ != #[trigger] self.rows@[j].name@
        &&& forall|i: int|
            0 <= i < self.rows.len() ==> #[trigger] self.rows@[i].topics@.len() > 0
                && self.rows@[i].topics@.no_duplicates()
    }

    /// The topics that the tag named `g` lists (empty where there is no such tag).
    pub open spec fn members(&self, g: Seq<char>) -> Set<u128> {
        Set::new(
            |id: u128|
                exists|i: int|
                    0 <= i < self.rows.len() && #[trigger] self.rows@[i].name@ == g
                        && self.rows@[i].topics@.contains(id),
        )
    }

    /// Whether a tag named `g` exists.
    pub open spec fn has_tag(&self, g: Seq<char>) -> bool {
        exists|i: int| 0 <= i < self.rows.len() && #[trigger] self.rows@[i].name@ == g
    }

    /// The topic list of the tag named `g`, in the order the topics joined
    /// it (empty where there is no such tag).
    pub open spec fn listing(&self, g: Seq<char>) -> Seq<u128> {
        if self.has_tag(g) {
            self.rows@[choose|i: int| 0 <= i < self.rows.len() && #[trigger] self.rows@[i].name@ == g].topics@
        } else {
            Seq::empty()
        }
    }

    /// A tag's topic list holds each of its members once.
    pub proof fn lemma_listing(&self, g: Seq<char>)
        requires
            self.wf(),
        ensures
            self.listing(g).no_duplicates(),
            self.listing(g).to_set() == self.members(g),
            self.listing(g).len() == self.members(g).len(),
    {
        if self.has_tag(g) {
            let i = choose|i: int| 0 <= i < self.rows.len() && #[trigger] self.rows@[i].name@ == g;
            self.lemma_members_row(g, i);
        } else {
            assert(self.members(g) =~= Set::<u128>::empty());
            assert(Seq::<u128>::empty().to_set() =~= Set::<u128>::empty());
        }
        self.listing(g).unique_seq_to_set();
    }

    /// A tag exists exactly where its membership is not empty.
    pub proof fn lemma_live(&self, g: Seq<char>)
        requires
            self.wf(),
        ensures
            self.has_tag(g) <==> self.members(g) != Set::<u128>::empty(),
    {
        if self.has_tag(g) {
            let i = choose|i: int| 0 <= i < self.rows.len() && #[trigger] self.rows@[i].name@ == g;
            let id = self.rows@[i].topics@[0];
            assert(self.rows@[i].topics@.contains(id));
            assert(self.members(g).contains(id));
        } else {
            assert(self.members(g) =~= Set::<u128>::empty());
        }
    }

    proof fn lemma_members_row(&self, g: Seq<char>, i: int)
        requires
            self.wf(),
            0 <= i < self.rows.len(),
            self.rows@[i].name@ == g,
        ensures
            self.members(g) == self.rows@[i].topics@.to_set(),
    {
        assert(self.members(g) =~= self.rows@[i].topics@.to_set());
    }

    proof fn lemma_members_none(&self, g: Seq<char>)
        requires
            forall|i: int| 0 <= i < self.rows.len() ==> self.rows@[i].name@ != g,
        ensures
            self.members(g) == Set::<u128>::empty(),
    {
        assert(self.members(g) =~= Set::<u128>::empty());
    }

    /// An empty ledger.
    pub fn new() -> (r: TagLedger)
        ensures
            r.wf(),
            forall|g: Seq<char>| #[trigger] r.members(g) == Set::<u128>::empty(),
    {
        let r = TagLedger { rows: Vec::new() };
        proof {
            assert forall|g: Seq<char>| #[trigger] r.members(g) == Set::<u128>::empty() by {
                r.lemma_members_none(g);
            }
        }
        r
    }

    /// The position of the tag named `name`.
    pub fn find(&self, name: &String) -> (r: Option<usize>)
        ensures
            r matches Some(i) ==> i < self.rows.len() && self.rows@[i as int].name@ == name@,
            r is None ==> forall|i: int|
                0 <= i < self.rows.len() ==> #[trigger] self.rows@[i].name@ != name@,
    {
        let mut i: usize = 0;
        while i < self.rows.len()
            invariant
                i <= self.rows.len(),
                forall|j: int| 0 <= j < i ==> #[trigger] self.rows@[j].name@ != name@,
            decreases self.rows.len() - i,
        {
            if self.rows[i].name == *name {
                return Some(i);
            }
            i += 1;
        }
        None
    }

    /// The topics that carry the tag named `name`, each once; empty where no
    /// such tag exists.
    pub fn topics_for_tag(&self, name: &String) -> (r: Vec<u128>)
        requires
            self.wf(),
        ensures
            r@ == self.listing(name@),
            r@.no_duplicates(),
            r@.to_set() == self.members(name@),
    {
        match self.find(name) {
            Some(i) => {
                proof {
                    self.lemma_members_row(name@, i as int);
                    let c = choose|c: int| 0 <= c < self.rows.len() && #[trigger] self.rows@[c].name@ == name@;
                    if c != i {
                        assert(self.rows@[c].name@ != self.rows@[i as int].name@);
                    }
                }
                let src = &self.rows[i].topics;
                let mut r: Vec<u128> = Vec::new();
                let mut k: usize = 0;
                while k < src.len()
                    invariant
                        k <= src.len(),
                        r@ == src@.subrange(0, k as int),
                    decreases src.len() - k,
                {
                    r.push(src[k]);
                    k += 1;
                    proof {
                        assert(r@ =~= src@.subrange(0, k as int));
                    }
                }
                proof {
                    assert(r@ =~= src@);
                }
                r
            },
            None => {
                proof {
                    self.lemma_members_none(name@);
                    assert(Seq::<u128>::empty().to_set() =~= Set::<u128>::empty());
                }
                Vec::new()
            },
        }
    }

    /// Lists topic `id` under the tag named `name`, creating the tag where it
    /// does not exist; nothing changes where the topic is listed already.
    #[verifier::spinoff_prover]
    pub fn add_member(&mut self, name: String, id: u128)
        requires
            old(self).wf(),
        ensures
            final(self).wf(),
            forall|g: Seq<char>|
                #[trigger] final(self).members(g) == if g == name@ {
                    old(self).members(g).insert(id)
                } else {
                    old(self).members(g)
                },
    {
        let ghost pre = *self;
        match self.find(&name) {
            Some(i) => {
                let mut row = self.rows.remove(i);
                let ghost before = row.topics@;
                if position_of(&row.topics, id).is_none() {
                    row.topics.push(id);
                    proof {
                        lemma_push_unique(before, id);
                    }
                } else {
                    proof {
                        assert(before.to_set().insert(id) =~= before.to_set());
                    }
                }
                self.rows.insert(i, row);
                proof {
                    assert(self.rows@ =~= pre.rows@.update(i as int, row));
                    assert forall|a: int, b: int|
                        0 <= a < self.rows.len() && 0 <= b < self.rows.len() && a != b
                            implies #[trigger] self.rows@[a].name@ != #[trigger] self.rows@[b].name@ by {
                        assert(pre.rows@[a].name@ != pre.rows@[b].name@);
                    }
                    assert(self.wf());
                    assert forall|g: Seq<char>|
                        #[trigger] self.members(g) == if g == name@ {
                            pre.members(g).insert(id)
                        } else {
                            pre.members(g)
                        } by {
                        if g == name@ {
                            pre.lemma_members_row(g, i as int);
                            self.lemma_members_row(g, i as int);
                        } else {
                            assert(self.members(g) =~= pre.members(g)) by {
                                assert forall|x: u128| #[trigger]
                                    self.members(g).contains(x) implies pre.members(g).contains(
                                    x,
                                ) by {
                                    let k = choose|k: int|
                                        0 <= k < self.rows.len() && #[trigger] self.rows@[k].name@
                                            == g && self.rows@[k].topics@.contains(x);
                                    assert(pre.rows@[k].name@ == g);
                                }
                                assert forall|x: u128| #[trigger]
                                    pre.members(g).contains(x) implies self.members(g).contains(
                                    x,
                                ) by {
                                    let k = choose|k: int|
                                        0 <= k < pre.rows.len() && #[trigger] pre.rows@[k].name@
                                            == g && pre.rows@[k].topics@.contains(x);
                                    assert(self.rows@[k].name@ == g);
                                }
                            }
                        }
                    }
                }
            },
            None => {
                let mut topics: Vec<u128> = Vec::new();
                topics.push(id);
                let ghost nm = name@;
                self.rows.push(Tag { name, topics });
                proof {
                    let n = pre.rows.len() as int;
                    assert(self.rows@ =~= pre.rows@.push(self.rows@[n]));
                    assert(self.rows@[n].topics@.no_duplicates());
                    assert forall|a: int, b: int|
                        0 <= a < self.rows.len() && 0 <= b < self.rows.len() && a != b
                            implies #[trigger] self.rows@[a].name@ != #[trigger] self.rows@[b].name@ by {
                        if a < n && b < n {
                            assert(pre.rows@[a].name@ != pre.rows@[b].name@);
                        } else if a < n {
                            assert(pre.rows@[a].name@ != nm);
                        } else {
                            assert(pre.rows@[b].name@ != nm);
                        }
                    }
                    assert(self.wf());
                    assert forall|g: Seq<char>|
                        #[trigger] self.members(g) == if g == nm {
                            pre.members(g).insert(id)
                        } else {
                            pre.members(g)
                        } by {
                        if g == nm {
                            pre.lemma_members_none(g);
                            self.lemma_members_row(g, n);
                            assert(self.rows@[n].topics@ =~= seq![id]);
                            assert(seq![id].to_set() =~= Set::<u128>::empty().insert(id)) by {
                                assert(seq![id][0] == id);
                            }
                        } else {
                            assert(self.members(g) =~= pre.members(g)) by {
                                assert forall|x: u128| #[trigger]
                                    self.members(g).contains(x) implies pre.members(g).contains(
                                    x,
                                ) by {
                                    let k = choose|k: int|
                                        0 <= k < self.rows.len() && #[trigger] self.rows@[k].name@
                                            == g && self.rows@[k].topics@.contains(x);
                                    assert(pre.rows@[k].name@ == g);
                                }
                                assert forall|x: u128| #[trigger]
                                    pre.members(g).contains(x) implies self.members(g).contains(
                                    x,
                                ) by {
                                    let k = choose|k: int|
                                        0 <= k < pre.rows.len() && #[trigger] pre.rows@[k].name@
                                            == g && pre.rows@[k].topics@.contains(x);
                                    assert(self.rows@[k].name@ == g);
                                }
                            }
                        }
                    }
                }
            },
        }
    }
    /// Takes topic `id` off the tag named `name`, and removes the tag once no
    /// topic carries it; nothing changes where the topic is not listed there.
    #[verifier::spinoff_prover]
    pub fn remove_member(&mut self, name: &String, id: u128)
        requires
            old(self).wf(),
        ensures
            final(self).wf(),
            forall|g: Seq<char>|
                #[trigger] final(self).members(g) == if g == name@ {
                    old(self).members(g).remove(id)
                } else {
                    old(self).members(g)
                },
    {
        let ghost pre = *self;
        match self.find(name) {
            None => {
                proof {
                    assert forall|g: Seq<char>|
                        #[trigger] self.members(g) == if g == name@ {
                            pre.members(g).remove(id)
                        } else {
                            pre.members(g)
                        } by {
                        if g == name@ {
                            pre.lemma_members_none(g);
                            assert(Set::<u128>::empty().remove(id) =~= Set::<u128>::empty());
                        }
                    }
                }
            },
            Some(i) => {
                let mut row = self.rows.remove(i);
                let ghost before = row.topics@;
                let ghost rest = self.rows@;
                match position_of(&row.topics, id) {
                    None => {
                        proof {
                            assert(before.to_set().remove(id) =~= before.to_set());
                        }
                    },
                    Some(p) => {
                        row.topics.remove(p);
                        proof {
                            lemma_remove_unique(before, p as int);
                        }
                    },
                }
                proof {
                    pre.lemma_members_row(name@, i as int);
                    assert(row.topics@.to_set() == pre.members(name@).remove(id));
                }
                if row.topics.len() == 0 {
                    proof {
                        assert(self.rows@ =~= pre.rows@.remove(i as int));
                        assert forall|a: int, b: int|
                            0 <= a < self.rows.len() && 0 <= b < self.rows.len() && a != b
                                implies #[trigger] self.rows@[a].name@
                                != #[trigger] self.rows@[b].name@ by {
                            let a2 = if a < i { a } else { a + 1 };
                            let b2 = if b < i { b } else { b + 1 };
                            assert(pre.rows@[a2].name@ != pre.rows@[b2].name@);
                        }
                        assert forall|a: int| 0 <= a < self.rows.len() implies #[trigger]
                            self.rows@[a].topics@.len() > 0 && self.rows@[a].topics@.no_duplicates() by {
                            let a2 = if a < i { a } else { a + 1 };
                            assert(self.rows@[a] == pre.rows@[a2]);
                        }
                        assert(self.wf());
                        assert forall|g: Seq<char>|
                            #[trigger] self.members(g) == if g == name@ {
                                pre.members(g).remove(id)
                            } else {
                                pre.members(g)
                            } by {
                            if g == name@ {
                                assert forall|a: int| 0 <= a < self.rows.len() implies self.rows@[a].name@ != g by {
                                    let a2 = if a < i { a } else { a + 1 };
                                    assert(pre.rows@[a2].name@ != pre.rows@[i as int].name@);
                                }
                                self.lemma_members_none(g);
                                assert(row.topics@ =~= Seq::<u128>::empty());
                                assert(row.topics@.to_set() =~= Set::<u128>::empty());
                            } else {
                                assert(self.members(g) =~= pre.members(g)) by {
                                    assert forall|x: u128| #[trigger]
                                        self.members(g).contains(x) implies pre.members(g).contains(
                                        x,
                                    ) by {
                                        let k = choose|k: int|
                                            0 <= k < self.rows.len() && #[trigger] self.rows@[k].name@
                                                == g && self.rows@[k].topics@.contains(x);
                                        let k2 = if k < i { k } else { k + 1 };
                                        assert(pre.rows@[k2] == self.rows@[k]);
                                    }
                                    assert forall|x: u128| #[trigger]
                                        pre.members(g).contains(x) implies self.members(g).contains(
                                        x,
                                    ) by {
                                        let k = choose|k: int|
                                            0 <= k < pre.rows.len() && #[trigger] pre.rows@[k].name@
                                                == g && pre.rows@[k].topics@.contains(x);
                                        assert(k != i);
                                        let k2 = if k < i { k } else { k - 1 };
                                        assert(self.rows@[k2] == pre.rows@[k]);
                                    }
                                }
                            }
                        }
                    }
                } else {
                    self.rows.insert(i, row);
                    proof {
                        assert(self.rows@ =~= pre.rows@.update(i as int, row));
                        assert forall|a: int, b: int|
                            0 <= a < self.rows.len() && 0 <= b < self.rows.len() && a != b
                                implies #[trigger] self.rows@[a].name@
                                != #[trigger] self.rows@[b].name@ by {
                            assert(pre.rows@[a].name@ != pre.rows@[b].name@);
                        }
                        assert(self.wf());
                        assert forall|g: Seq<char>|
                            #[trigger] self.members(g) == if g == name@ {
                                pre.members(g).remove(id)
                            } else {
                                pre.members(g)
                            } by {
                            if g == name@ {
                                self.lemma_members_row(g, i as int);
                            } else {
                                assert(self.members(g) =~= pre.members(g)) by {
                                    assert forall|x: u128| #[trigger]
                                        self.members(g).contains(x) implies pre.members(g).contains(
                                        x,
                                    ) by {
                                        let k = choose|k: int|
                                            0 <= k < self.rows.len() && #[trigger] self.rows@[k].name@
                                                == g && self.rows@[k].topics@.contains(x);
                                        assert(pre.rows@[k].name@ == g);
                                    }
                                    assert forall|x: u128| #[trigger]
                                        pre.members(g).contains(x) implies self.members(g).contains(
                                        x,
                                    ) by {
                                        let k = choose|k: int|
                                            0 <= k < pre.rows.len() && #[trigger] pre.rows@[k].name@
                                                == g && pre.rows@[k].topics@.contains(x);
                                        assert(self.rows@[k].name@ == g);
                                    }
                                }
                            }
                        }
                    }
                }
            },
        }
    }
    /// Brings the index in line with topic `id` moving from the tag names
    /// `previous` to the tag names `desired`: the topic joins each tag that
    /// only `desired` names (the tag is created where missing), leaves each
    /// tag that only `previous` names (a tag left without topics is removed),
    /// and every other membership stays as it was.
    #[verifier::spinoff_prover]
    pub fn update_tags(&mut self, id: u128, desired: &Vec<String>, previous: &Vec<String>)
        requires
            old(self).wf(),
        ensures
            final(self).wf(),
            forall|g: Seq<char>|
                #[trigger] final(self).members(g) == reconciled(
                    old(self).members(g),
                    g,
                    id,
                    names(desired@),
                    names(previous@),
                ),
    {
        let ghost pre = *self;
        let ghost d = names(desired@);
        let ghost p = names(previous@);
        let mut k: usize = 0;
        while k < desired.len()
            invariant
                k <= desired.len(),
                d == names(desired@),
                p == names(previous@),
                self.wf(),
                forall|g: Seq<char>|
                    #[trigger] self.members(g) == if prefix_has(d, k as int, g) && !p.contains(g) {
                        pre.members(g).insert(id)
                    } else {
                        pre.members(g)
                    },
            decreases desired.len() - k,
        {
            let ghost mid = *self;
            if !contains_name(previous, &desired[k]) {
                let name = desired[k].clone();
                self.add_member(name, id);
            }
            proof {
                assert(d[k as int] == desired@[k as int]@);
                assert forall|g: Seq<char>|
                    #[trigger] self.members(g) == if prefix_has(d, k + 1, g) && !p.contains(g) {
                        pre.members(g).insert(id)
                    } else {
                        pre.members(g)
                    } by {
                    assert(prefix_has(d, k + 1, g) <==> prefix_has(d, k as int, g) || d[k as int]
                        == g) by {
                        if prefix_has(d, k + 1, g) && d[k as int] != g {
                            let j = choose|j: int| 0 <= j < k + 1 && d[j] == g;
                            assert(j < k);
                        }
                    }
                    assert(mid.members(g) == if prefix_has(d, k as int, g) && !p.contains(g) {
                        pre.members(g).insert(id)
                    } else {
                        pre.members(g)
                    });
                    if g == d[k as int] && !p.contains(g) {
                        assert(pre.members(g).insert(id).insert(id) =~= pre.members(g).insert(id));
                    }
                }
            }
            k += 1;
        }
        proof {
            assert forall|g: Seq<char>| prefix_has(d, desired.len() as int, g) <==> d.contains(g) by {
            }
        }
        let ghost stage = *self;
        let mut k: usize = 0;
        while k < previous.len()
            invariant
                k <= previous.len(),
                d == names(desired@),
                p == names(previous@),
                self.wf(),
                forall|g: Seq<char>|
                    #[trigger] stage.members(g) == if d.contains(g) && !p.contains(g) {
                        pre.members(g).insert(id)
                    } else {
                        pre.members(g)
                    },
                forall|g: Seq<char>|
                    #[trigger] self.members(g) == if prefix_has(p, k as int, g) && !d.contains(g) {
                        stage.members(g).remove(id)
                    } else {
                        stage.members(g)
                    },
            decreases previous.len() - k,
        {
            let ghost mid = *self;
            if !contains_name(desired, &previous[k]) {
                self.remove_member(&previous[k], id);
            }
            proof {
                assert(p[k as int] == previous@[k as int]@);
                assert forall|g: Seq<char>|
                    #[trigger] self.members(g) == if prefix_has(p, k + 1, g) && !d.contains(g) {
                        stage.members(g).remove(id)
                    } else {
                        stage.members(g)
                    } by {
                    assert(prefix_has(p, k + 1, g) <==> prefix_has(p, k as int, g) || p[k as int]
                        == g) by {
                        if prefix_has(p, k + 1, g) && p[k as int] != g {
                            let j = choose|j: int| 0 <= j < k + 1 && p[j] == g;
                            assert(j < k);
                        }
                    }
                    assert(mid.members(g) == if prefix_has(p, k as int, g) && !d.contains(g) {
                        stage.members(g).remove(id)
                    } else {
                        stage.members(g)
                    });
                    if g == p[k as int] && !d.contains(g) {
                        assert(stage.members(g).remove(id).remove(id) =~= stage.members(g).remove(
                            id,
                        ));
                    }
                }
            }
            k += 1;
        }
        proof {
            assert forall|g: Seq<char>|
                #[trigger] self.members(g) == reconciled(pre.members(g), g, id, d, p) by {
                assert(prefix_has(p, previous.len() as int, g) <==> p.contains(g));
                assert(stage.members(g) == if d.contains(g) && !p.contains(g) {
                    pre.members(g).insert(id)
                } else {
                    pre.members(g)
                });
            }
        }
    }
}

} // verus!
