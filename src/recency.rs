use vstd::prelude::*;

verus! {

/// Position `a` comes before position `b` in a newest-first listing by the
/// times `keys`: a later time, or the same time and a later position.
pub open spec fn newer(keys: Seq<u64>, a: usize, b: usize) -> bool {
    keys[a as int] > keys[b as int] || (keys[a as int] == keys[b as int] && a > b)
}

/// `ord` lists the positions in `sel`, each once, newest first by `keys`.
pub open spec fn newest_first(ord: Seq<usize>, sel: Set<usize>, keys: Seq<u64>) -> bool {
    &&& ord.no_duplicates()
    &&& ord.to_set() == sel
    &&& forall|k: int| 0 <= k < ord.len() ==> (#[trigger] ord[k]) < keys.len()
    &&& forall|k: int| 0 <= k < ord.len() - 1 ==> #[trigger] newer(keys, ord[k], ord[k + 1])
}

/// Puts position `x` into a newest-first list that lacks it.
fn insert_newest(keys: &Vec<u64>, v: &mut Vec<usize>, x: usize)
    requires
        x < keys.len(),
        !old(v)@.contains(x),
        old(v)@.no_duplicates(),
        forall|k: int| 0 <= k < old(v)@.len() ==> (#[trigger] old(v)@[k]) < keys.len(),
        forall|k: int|
            0 <= k < old(v)@.len() - 1 ==> #[trigger] newer(keys@, old(v)@[k], old(v)@[k + 1]),
    ensures
        final(v)@.no_duplicates(),
        final(v)@.to_set() == old(v)@.to_set().insert(x),
        forall|k: int| 0 <= k < final(v)@.len() ==> (#[trigger] final(v)@[k]) < keys.len(),
        forall|k: int|
            0 <= k < final(v)@.len() - 1 ==> #[trigger] newer(keys@, final(v)@[k], final(v)@[k + 1]),
{
    let ghost s = v@;
    let mut j: usize = 0;
    let mut found = false;
    while j < v.len() && !found
        invariant
            j <= v.len(),
            s == v@,
            x < keys.len(),
            !s.contains(x),
            forall|k: int| 0 <= k < s.len() ==> (#[trigger] s[k]) < keys.len(),
            forall|i: int| 0 <= i < j ==> newer(keys@, #[trigger] s[i], x),
            found ==> j < v.len() && newer(keys@, x, s[j as int]),
        decreases v.len() - j, if found { 0int } else { 1int },
    {
        let y = v[j];
        if keys[x] > keys[y] || (keys[x] == keys[y] && x > y) {
            found = true;
        } else {
            assert(y != x) by {
                assert(s[j as int] == y);
            }
            j += 1;
        }
    }
    v.insert(j, x);
    proof {
        let t = v@;
        assert(t =~= s.insert(j as int, x));
        assert forall|i: int, k: int| 0 <= i < t.len() && 0 <= k < t.len() && i != k implies t[i]
            != t[k] by {
            let a = if i < j { i } else if i == j { -1 } else { i - 1 };
            let b = if k < j { k } else if k == j { -1 } else { k - 1 };
            if a >= 0 && b >= 0 {
                assert(t[i] == s[a] && t[k] == s[b]);
            } else if a >= 0 {
                assert(t[i] == s[a]);
                assert(s.contains(s[a]));
            } else if b >= 0 {
                assert(t[k] == s[b]);
                assert(s.contains(s[b]));
            }
        }
        assert forall|k: int| 0 <= k < t.len() implies (#[trigger] t[k]) < keys.len() by {
            if k < j {
                assert(t[k] == s[k]);
            } else if k > j {
                assert(t[k] == s[k - 1]);
            }
        }
        assert forall|i: int| 0 <= i < t.len() - 1 implies #[trigger] newer(keys@, t[i], t[i + 1]) by {
            if i + 1 < j {
                assert(t[i] == s[i] && t[i + 1] == s[i + 1]);
                assert(newer(keys@, s[i], s[i + 1]));
            } else if i + 1 == j {
                assert(t[i] == s[i]);
            } else if i == j {
                assert(t[i + 1] == s[i]);
            } else {
                let h = i - 1;
                assert(t[i] == s[h] && t[i + 1] == s[h + 1]);
                assert(newer(keys@, s[h], s[h + 1]));
            }
        }
        assert forall|g: usize| #[trigger] t.contains(g) <==> s.contains(g) || g == x by {
            if t.contains(g) {
                let i = choose|i: int| 0 <= i < t.len() && t[i] == g;
                if i < j {
                    assert(s[i] == g);
                } else if i > j {
                    assert(s[i - 1] == g);
                }
            }
            if s.contains(g) {
                let i = choose|i: int| 0 <= i < s.len() && s[i] == g;
                if i < j {
                    assert(t[i] == g);
                } else {
                    assert(t[i + 1] == g);
                }
            }
            if g == x {
                assert(t[j as int] == g);
            }
        }
        assert(t.to_set() =~= s.to_set().insert(x));
    }
}

/// The positions `idx` (each once) put in newest-first order by the times
/// `keys`.
pub fn order_newest(keys: &Vec<u64>, idx: &Vec<usize>) -> (r: Vec<usize>)
    requires
        idx@.no_duplicates(),
        forall|k: int| 0 <= k < idx@.len() ==> (#[trigger] idx@[k]) < keys.len(),
    ensures
        newest_first(r@, idx@.to_set(), keys@),
{
    let mut r: Vec<usize> = Vec::new();
    let mut m: usize = 0;
    proof {
        assert(r@.to_set() =~= idx@.subrange(0, 0).to_set());
    }
    while m < idx.len()
        invariant
            m <= idx.len(),
            idx@.no_duplicates(),
            forall|k: int| 0 <= k < idx@.len() ==> (#[trigger] idx@[k]) < keys.len(),
            r@.no_duplicates(),
            r@.to_set() == idx@.subrange(0, m as int).to_set(),
            forall|k: int| 0 <= k < r@.len() ==> (#[trigger] r@[k]) < keys.len(),
            forall|k: int| 0 <= k < r@.len() - 1 ==> #[trigger] newer(keys@, r@[k], r@[k + 1]),
        decreases idx.len() - m,
    {
        let x = idx[m];
        proof {
            if r@.contains(x) {
                assert(r@.to_set().contains(x));
                let head_before = idx@.subrange(0, m as int);
                assert(head_before.contains(x));
                let l = choose|l: int| 0 <= l < head_before.len() && head_before[l] == x;
                assert(idx@[l] == idx@[m as int]);
            }
        }
        insert_newest(keys, &mut r, x);
        proof {
            let head_before = idx@.subrange(0, m as int);
            let head_after = idx@.subrange(0, m + 1);
            assert forall|g: usize| head_after.contains(g) <==> head_before.contains(g) || g == x by {
                if head_after.contains(g) {
                    let l = choose|l: int| 0 <= l < head_after.len() && head_after[l] == g;
                    if l < m {
                        assert(head_before[l] == g);
                    }
                }
                if head_before.contains(g) {
                    let l = choose|l: int| 0 <= l < head_before.len() && head_before[l] == g;
                    assert(head_after[l] == g);
                }
                if g == x {
                    assert(head_after[m as int] == g);
                }
            }
            assert(head_after.to_set() =~= head_before.to_set().insert(x));
        }
        m += 1;
    }
    proof {
        assert(idx@.subrange(0, m as int) =~= idx@);
    }
    r
}

} // verus!
