use vstd::prelude::*;
use vstd::string::*;
use vstd::utf8::{encode_utf8, is_char_boundary, valid_utf8};

use crate::ledger::names;

verus! {

/// The lower-case form of a text, as `str::to_lowercase` gives it.
pub uninterp spec fn lower_of(s: Seq<char>) -> Seq<char>;

/// Relies on `str::to_lowercase`: the lower-case form depends on the
/// characters alone, and the empty text stays empty.
#[verifier::external_body]
fn lowercase(s: &str) -> (r: String)
    ensures
        r@ == lower_of(s@),
        s@.len() == 0 ==> r@.len() == 0,
{
    s.to_lowercase()
}

/// Lexicographic order on texts, character by character by code point (the
/// order that `str` comparison gives).
pub open spec fn lex_lt(a: Seq<char>, b: Seq<char>) -> bool
    decreases a.len(),
{
    if b.len() == 0 {
        false
    } else if a.len() == 0 {
        true
    } else if a[0] != b[0] {
        (a[0] as u32) < (b[0] as u32)
    } else {
        lex_lt(a.drop_first(), b.drop_first())
    }
}

/// Each entry is strictly below the next one.
pub open spec fn sorted_names(s: Seq<Seq<char>>) -> bool {
    forall|i: int| 0 <= i < s.len() - 1 ==> #[trigger] lex_lt(s[i], s[i + 1])
}

/// The lower-case forms of a list of raw tag names.
pub open spec fn lowered(raw: Seq<String>) -> Seq<Seq<char>> {
    raw.map_values(|s: String| lower_of(s@))
}

/// The canonical form of a list of tag names: its lower-case forms, each
/// once, in increasing order.
pub open spec fn is_canonical_of(r: Seq<Seq<char>>, raw: Seq<String>) -> bool {
    &&& r.no_duplicates()
    &&& sorted_names(r)
    &&& forall|g: Seq<char>| r.contains(g) <==> lowered(raw).contains(g)
}

/// Three-way comparison: negative, zero or positive as `a` is below, equal
/// to or above `b`.
pub fn compare(a: &String, b: &String) -> (r: i8)
    ensures
        r < 0 ==> lex_lt(a@, b@),
        r == 0 ==> a@ == b@,
        r > 0 ==> lex_lt(b@, a@),
{
    let sa = a.as_str();
    let sb = b.as_str();
    let na = sa.unicode_len();
    let nb = sb.unicode_len();
    let mut i: usize = 0;
    proof {
        assert(a@.skip(0) =~= a@);
        assert(b@.skip(0) =~= b@);
        assert(a@.subrange(0, 0) =~= b@.subrange(0, 0));
    }
    while i < na && i < nb
        invariant
            na == a@.len(),
            nb == b@.len(),
            sa@ == a@,
            sb@ == b@,
            i <= na,
            i <= nb,
            a@.subrange(0, i as int) == b@.subrange(0, i as int),
            lex_lt(a@, b@) == lex_lt(a@.skip(i as int), b@.skip(i as int)),
            lex_lt(b@, a@) == lex_lt(b@.skip(i as int), a@.skip(i as int)),
        decreases na - i,
    {
        let ca = sa.get_char(i);
        let cb = sb.get_char(i);
        let ghost xa = a@.skip(i as int);
        let ghost xb = b@.skip(i as int);
        assert(xa[0] == ca && xb[0] == cb);
        if ca != cb {
            if (ca as u32) < (cb as u32) {
                return -1;
            } else {
                return 1;
            }
        }
        proof {
            assert(xa.drop_first() =~= a@.skip(i + 1));
            assert(xb.drop_first() =~= b@.skip(i + 1));
            assert(a@.subrange(0, i + 1) =~= a@.subrange(0, i as int).push(ca));
            assert(b@.subrange(0, i + 1) =~= b@.subrange(0, i as int).push(cb));
        }
        i += 1;
    }
    if i < nb {
        proof {
            assert(a@.skip(i as int).len() == 0);
        }
        -1
    } else if i < na {
        proof {
            assert(b@.skip(i as int).len() == 0);
        }
        1
    } else {
        proof {
            assert(a@ =~= a@.subrange(0, i as int));
            assert(b@ =~= b@.subrange(0, i as int));
        }
        0
    }
}

/// Puts `x` into a strictly increasing list of names, where it is not there.
pub(crate) fn insert_sorted(v: &mut Vec<String>, x: String)
    requires
        names(old(v)@).no_duplicates(),
        sorted_names(names(old(v)@)),
    ensures
        names(final(v)@).no_duplicates(),
        sorted_names(names(final(v)@)),
        forall|g: Seq<char>| #[trigger]
            names(final(v)@).contains(g) <==> names(old(v)@).contains(g) || g == x@,
{
    if crate::ledger::contains_name(v, &x) {
        return;
    }
    let ghost s = names(v@);
    let mut j: usize = 0;
    let mut above = false;
    while j < v.len() && !above
        invariant
            j <= v.len(),
            s == names(v@),
            !s.contains(x@),
            forall|i: int| 0 <= i < j ==> lex_lt(#[trigger] s[i], x@),
            above ==> j < v.len() && lex_lt(x@, s[j as int]),
        decreases v.len() - j, if above { 0int } else { 1int },
    {
        let c = compare(&v[j], &x);
        assert(s[j as int] == v@[j as int]@);
        if c == 0 {
            assert(s.contains(s[j as int]));
        }
        if c > 0 {
            above = true;
        } else {
            j += 1;
        }
    }
    let ghost xs = x@;
    v.insert(j, x);
    proof {
        let t = names(v@);
        assert(t =~= s.insert(j as int, xs));
        assert(j < s.len() ==> lex_lt(xs, s[j as int]));
        assert forall|i: int, k: int| 0 <= i < t.len() && 0 <= k < t.len() && i != k implies t[i]
            != t[k] by {
            let a = if i < j { i } else if i == j { -1 } else { i - 1 };
            let b = if k < j { k } else if k == j { -1 } else { k - 1 };
            if a >= 0 && b >= 0 {
                assert(t[i] == s[a] && t[k] == s[b]);
            } else if a >= 0 {
                assert(t[i] == s[a]);
                assert(s.contains(s[a]));
            } else if b >= 0 {
                assert(t[k] == s[b]);
                assert(s.contains(s[b]));
            }
        }
        assert forall|i: int| 0 <= i < t.len() - 1 implies #[trigger] lex_lt(t[i], t[i + 1]) by {
            if i + 1 < j {
                assert(t[i] == s[i] && t[i + 1] == s[i + 1]);
                assert(lex_lt(s[i], s[i + 1]));
            } else if i + 1 == j {
                assert(t[i] == s[i]);
            } else if i == j {
                assert(t[i + 1] == s[i]);
            } else {
                let h = i - 1;
                assert(t[i] == s[h] && t[i + 1] == s[h + 1]);
                assert(lex_lt(s[h], s[h + 1]));
            }
        }
        assert forall|g: Seq<char>| #[trigger] t.contains(g) <==> s.contains(g) || g == xs by {
            if t.contains(g) {
                let i = choose|i: int| 0 <= i < t.len() && t[i] == g;
                if i < j {
                    assert(s[i] == g);
                } else if i > j {
                    assert(s[i - 1] == g);
                }
            }
            if s.contains(g) {
                let i = choose|i: int| 0 <= i < s.len() && s[i] == g;
                if i < j {
                    assert(t[i] == g);
                } else {
                    assert(t[i + 1] == g);
                }
            }
            if g == xs {
                assert(t[j as int] == g);
            }
        }
    }
}

/// The canonical form of a topic's tag names: lower-cased, each name once,
/// in increasing order. `None` where a name is empty.
pub fn canonical_tags(raw: &Vec<String>) -> (r: Option<Vec<String>>)
    ensures
        r is None <==> exists|j: int| 0 <= j < raw@.len() && #[trigger] raw@[j]@.len() == 0,
        r matches Some(v) ==> is_canonical_of(names(v@), raw@),
{
    let mut v: Vec<String> = Vec::new();
    let mut k: usize = 0;
    while k < raw.len()
        invariant
            k <= raw.len(),
            names(v@).no_duplicates(),
            sorted_names(names(v@)),
            forall|i: int| 0 <= i < k ==> #[trigger] raw@[i]@.len() != 0,
            forall|g: Seq<char>| #[trigger]
                names(v@).contains(g) <==> exists|i: int|
                    0 <= i < k && g == #[trigger] lower_of(raw@[i]@),
        decreases raw.len() - k,
    {
        if raw[k].as_str().is_empty() {
            return None;
        }
        let low = lowercase(raw[k].as_str());
        let ghost before = names(v@);
        insert_sorted(&mut v, low);
        proof {
            assert forall|g: Seq<char>| #[trigger]
                names(v@).contains(g) <==> exists|i: int|
                    0 <= i < k + 1 && g == #[trigger] lower_of(raw@[i]@) by {
                if names(v@).contains(g) && !before.contains(g) {
                    assert(g == lower_of(raw@[k as int]@));
                }
                if exists|i: int| 0 <= i < k + 1 && g == #[trigger] lower_of(raw@[i]@) {
                    let i = choose|i: int| 0 <= i < k + 1 && g == #[trigger] lower_of(raw@[i]@);
                    if i < k {
                        assert(before.contains(g));
                    }
                }
            }
        }
        k += 1;
    }
    proof {
        assert forall|g: Seq<char>| names(v@).contains(g) <==> lowered(raw@).contains(g) by {
            if names(v@).contains(g) {
                let i = choose|i: int| 0 <= i < raw@.len() && g == #[trigger] lower_of(raw@[i]@);
                assert(lowered(raw@)[i] == g);
            }
            if lowered(raw@).contains(g) {
                let i = choose|i: int| 0 <= i < lowered(raw@).len() && lowered(raw@)[i] == g;
                assert(g == lower_of(raw@[i]@));
            }
        }
    }
    Some(v)
}

/// The largest character boundary of the UTF-8 bytes `b` at or below `n`.
pub open spec fn floor_boundary(b: Seq<u8>, n: int) -> int
    decreases n,
{
    if n <= 0 {
        0
    } else if is_char_boundary(b, n) {
        n
    } else {
        floor_boundary(b, n - 1)
    }
}

/// A text as a listing shows it: where its UTF-8 form is longer than `max`
/// bytes, the text up to its first `max + 1` bytes (moved back to the
/// nearest character boundary) followed by "..."; else the text itself.
pub open spec fn clipped(s: Seq<char>, max: nat, r: Seq<char>) -> bool {
    if encode_utf8(s).len() > max {
        exists|h: Seq<char>|
            encode_utf8(h) == encode_utf8(s).subrange(0, floor_boundary(encode_utf8(s), max + 1int))
                && r == h + "..."@
    } else {
        r == s
    }
}

/// Shortens a text for a listing, as `clipped` says.
pub fn clip(s: &String, max: usize) -> (r: String)
    requires
        max < usize::MAX,
        encode_utf8(s@).len() <= usize::MAX,
    ensures
        clipped(s@, max as nat, r@),
{
    let t = s.as_str();
    if t.len() > max {
        let ghost b = t.spec_bytes();
        proof {
            broadcast use vstd::utf8::encode_utf8_valid_utf8, vstd::utf8::is_char_boundary_start_end_of_seq;
            assert(valid_utf8(b));
            assert(is_char_boundary(b, 0));
        }
        let mut cut: usize = max + 1;
        while cut > 0 && !t.is_char_boundary(cut)
            invariant
                cut <= max + 1,
                b == t.spec_bytes(),
                floor_boundary(b, cut as int) == floor_boundary(b, max + 1int),
            decreases cut,
        {
            cut -= 1;
        }
        proof {
            broadcast use vstd::utf8::encode_utf8_valid_utf8, vstd::utf8::is_char_boundary_start_end_of_seq;
            assert(is_char_boundary(b, cut as int));
            assert(floor_boundary(b, cut as int) == cut);
        }
        let (head, _) = t.split_at(cut);
        let mut r = String::from_str(head);
        r.append("...");
        proof {
            assert(t@ == s@);
            assert(b == encode_utf8(s@));
            assert(encode_utf8(head@) == head.spec_bytes());
            assert(encode_utf8(head@) == b.subrange(0, cut as int));
            assert(cut == floor_boundary(b, max + 1int));
            assert(r@ == head@ + "..."@);
            assert(encode_utf8(s@).len() > max);
        }
        r
    } else {
        proof {
            assert(t@ == s@);
            assert(encode_utf8(s@).len() <= max);
        }
        s.clone()
    }
}

} // verus!
