use vstd::prelude::*;

use crate::forum::Forum;
use crate::ledger::{lemma_push_unique, lemma_remove_unique, names, reconciled, TagLedger};
use crate::text::lowered;

verus! {

/// A topic carries a tag exactly where the tag's topic list (what
/// `topics_for_tag` returns) holds the topic, and a tag exists exactly while
/// it lists some topic.
pub proof fn law_tag_symmetry(f: Forum, i: int, g: Seq<char>)
    requires
        f.wf(),
        0 <= i < f.topics.len(),
    ensures
        names(f.topics@[i].tags@).contains(g) <==> f.tags.members(g).contains(f.topics@[i].id),
        names(f.topics@[i].tags@).contains(g) <==> f.tags.listing(g).contains(f.topics@[i].id),
        f.tags.has_tag(g) <==> f.tags.members(g) != Set::<u128>::empty(),
{
    f.tags.lemma_live(g);
    f.tags.lemma_listing(g);
}

/// Once a change of a topic's tags drops the tag `g`, that tag no longer
/// lists the topic, keeps every other topic it listed, and is gone where it
/// lists nothing more.
pub proof fn law_untag(before: Forum, after: Forum, i: int, g: Seq<char>, now: u64)
    requires
        before.wf(),
        after.wf(),
        Forum::retagged(before, after, i, now),
        names(before.topics@[i].tags@).contains(g),
        !names(after.topics@[i].tags@).contains(g),
    ensures
        !after.tags.members(g).contains(before.topics@[i].id),
        !after.tags.listing(g).contains(before.topics@[i].id),
        after.tags.members(g) == before.tags.members(g).remove(before.topics@[i].id),
        after.tags.members(g) == Set::<u128>::empty() ==> !after.tags.has_tag(g),
{
    after.tags.lemma_live(g);
    after.tags.lemma_listing(g);
}

/// After a change of a topic's tags, every tag it now carries exists and
/// lists it, and every tag it no longer carries does not list it.
pub proof fn law_retag_lists_new_tags(before: Forum, after: Forum, i: int, now: u64)
    requires
        before.wf(),
        after.wf(),
        Forum::retagged(before, after, i, now),
    ensures
        forall|g: Seq<char>|
            #[trigger] names(after.topics@[i].tags@).contains(g) ==> after.tags.has_tag(g)
                && after.tags.listing(g).contains(before.topics@[i].id),
        forall|g: Seq<char>|
            #[trigger] names(before.topics@[i].tags@).contains(g) && !names(
                after.topics@[i].tags@,
            ).contains(g) ==> !after.tags.listing(g).contains(before.topics@[i].id),
{
    assert forall|g: Seq<char>|
        #[trigger] names(after.topics@[i].tags@).contains(g) implies after.tags.has_tag(g)
            && after.tags.listing(g).contains(before.topics@[i].id) by {
        law_tag_symmetry(after, i, g);
    }
    assert forall|g: Seq<char>|
        #[trigger] names(before.topics@[i].tags@).contains(g) && !names(
            after.topics@[i].tags@,
        ).contains(g) implies !after.tags.listing(g).contains(before.topics@[i].id) by {
        law_tag_symmetry(after, i, g);
    }
}

/// Reconciling a topic from a list of tag names to the same list leaves
/// every tag, and whether it exists, as it was.
pub proof fn law_reconcile_unchanged(
    before: TagLedger,
    after: TagLedger,
    id: u128,
    s: Seq<Seq<char>>,
)
    requires
        before.wf(),
        after.wf(),
        forall|g: Seq<char>| #[trigger]
            after.members(g) == reconciled(before.members(g), g, id, s, s),
    ensures
        forall|g: Seq<char>| #[trigger] after.members(g) == before.members(g),
        forall|g: Seq<char>| #[trigger] after.has_tag(g) <==> before.has_tag(g),
{
    assert forall|g: Seq<char>| #[trigger] after.has_tag(g) <==> before.has_tag(g) by {
        after.lemma_live(g);
        before.lemma_live(g);
        assert(after.members(g) == reconciled(before.members(g), g, id, s, s));
    }
}

/// Changing a topic without changing its tag names leaves every tag, and
/// whether it exists, as it was.
pub proof fn law_update_same_tags(before: Forum, after: Forum, i: int, now: u64)
    requires
        before.wf(),
        after.wf(),
        Forum::retagged(before, after, i, now),
        names(after.topics@[i].tags@) == names(before.topics@[i].tags@),
    ensures
        forall|g: Seq<char>| #[trigger] after.tags.members(g) == before.tags.members(g),
        forall|g: Seq<char>| #[trigger] after.tags.has_tag(g) <==> before.tags.has_tag(g),
{
    law_reconcile_unchanged(
        before.tags,
        after.tags,
        before.topics@[i].id,
        names(before.topics@[i].tags@),
    );
}

/// Two tag additions to the same topic, one after the other, are both kept:
/// the topic ends with every tag it had and the lower-case forms of both
/// additions, and each of those tags lists the topic.
pub proof fn law_additions_both_kept(
    f0: Forum,
    f1: Forum,
    f2: Forum,
    i: int,
    a: Seq<String>,
    b: Seq<String>,
    now1: u64,
    now2: u64,
)
    requires
        f0.wf(),
        f1.wf(),
        f2.wf(),
        Forum::tags_added(f0, f1, i, a, now1),
        Forum::tags_added(f1, f2, i, b, now2),
    ensures
        f2.topics@[i].id == f0.topics@[i].id,
        forall|g: Seq<char>|
            names(f0.topics@[i].tags@).contains(g) || lowered(a).contains(g) || lowered(b).contains(
                g,
            ) ==> #[trigger] names(f2.topics@[i].tags@).contains(g) && f2.tags.members(g).contains(
                f0.topics@[i].id,
            ),
{
    assert forall|g: Seq<char>|
        names(f0.topics@[i].tags@).contains(g) || lowered(a).contains(g) || lowered(b).contains(g)
            implies #[trigger] names(f2.topics@[i].tags@).contains(g) && f2.tags.members(g).contains(
            f0.topics@[i].id,
        ) by {
        assert(names(f1.topics@[i].tags@).contains(g) || lowered(b).contains(g));
        assert(names(f2.topics@[i].tags@).contains(g));
    }
}

/// Flipping the same favorite twice in a row gives back the user's set of
/// favorites and the topic's count.
pub proof fn law_favor_twice(f0: Forum, f1: Forum, f2: Forum, ui: int, ti: int)
    requires
        f0.wf(),
        Forum::favored(f0, f1, ui, ti),
        Forum::favored(f1, f2, ui, ti),
    ensures
        f2.users@[ui].favorites@.to_set() == f0.users@[ui].favorites@.to_set(),
        f2.topics@[ti].favorite_count == f0.topics@[ti].favorite_count,
{
    let x = f0.topics@[ti].id;
    let s0 = f0.users@[ui].favorites@;
    let s1 = f1.users@[ui].favorites@;
    let s2 = f2.users@[ui].favorites@;
    assert(s0.no_duplicates());
    if s0.contains(x) {
        let p = choose|p: int| 0 <= p < s0.len() && s0[p] == x && s1 == s0.remove(p);
        lemma_remove_unique(s0, p);
        assert(!s1.to_set().contains(x));
        assert(!s1.contains(x));
        assert(s2 == s1.push(x));
        lemma_push_unique(s1, x);
        assert(s0.to_set().contains(x));
        assert(s2.to_set() =~= s0.to_set());
    } else {
        lemma_push_unique(s0, x);
        assert(s1[s0.len() as int] == x);
        assert(s1.contains(x));
        let p = choose|p: int| 0 <= p < s1.len() && s1[p] == x && s2 == s1.remove(p);
        lemma_remove_unique(s1, p);
        assert(!s0.to_set().contains(x));
        assert(s2.to_set() == s0.to_set().insert(x).remove(x));
        assert(s2.to_set() =~= s0.to_set());
    }
}

} // verus!
