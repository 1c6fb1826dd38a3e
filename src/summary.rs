use vstd::prelude::*;

use crate::model::Topic;
use crate::text::{clip, clipped};
use vstd::utf8::encode_utf8;

verus! {

/// How many bytes of a topic's content a listing shows before cutting.
pub const CONTENT_CLIP: usize = 200;

/// How many bytes of a topic's title a listing shows before cutting.
pub const TITLE_CLIP: usize = 160;

/// A topic as a listing shows it: its id and its clipped content and title.
pub struct TopicSummary {
    pub id: u128,
    pub content_clip: String,
    pub title_clip: String,
}

/// The listing form of each topic, in order.
pub fn format(topics: &Vec<Topic>) -> (r: Vec<TopicSummary>)
    requires
        forall|i: int|
            0 <= i < topics@.len() ==> encode_utf8(#[trigger] topics@[i].content@).len() <= usize::MAX
                && encode_utf8(topics@[i].title@).len() <= usize::MAX,
    ensures
        r@.len() == topics@.len(),
        forall|i: int|
            0 <= i < r@.len() ==> {
                &&& #[trigger] r@[i].id == topics@[i].id
                &&& clipped(topics@[i].content@, CONTENT_CLIP as nat, r@[i].content_clip@)
                &&& clipped(topics@[i].title@, TITLE_CLIP as nat, r@[i].title_clip@)
            },
{
    let mut r: Vec<TopicSummary> = Vec::new();
    let mut k: usize = 0;
    while k < topics.len()
        invariant
            k <= topics.len(),
            r@.len() == k,
            forall|i: int|
                0 <= i < k ==> {
                    &&& #[trigger] r@[i].id == topics@[i].id
                    &&& clipped(topics@[i].content@, CONTENT_CLIP as nat, r@[i].content_clip@)
                    &&& clipped(topics@[i].title@, TITLE_CLIP as nat, r@[i].title_clip@)
                },
            forall|i: int|
                0 <= i < topics@.len() ==> encode_utf8(#[trigger] topics@[i].content@).len()
                    <= usize::MAX && encode_utf8(topics@[i].title@).len() <= usize::MAX,
        decreases topics.len() - k,
    {
        let t = &topics[k];
        let s = TopicSummary {
            id: t.id,
            content_clip: clip(&t.content, CONTENT_CLIP),
            title_clip: clip(&t.title, TITLE_CLIP),
        };
        let ghost before = r@;
        r.push(s);
        proof {
            assert forall|i: int| 0 <= i < k + 1 implies {
                &&& #[trigger] r@[i].id == topics@[i].id
                &&& clipped(topics@[i].content@, CONTENT_CLIP as nat, r@[i].content_clip@)
                &&& clipped(topics@[i].title@, TITLE_CLIP as nat, r@[i].title_clip@)
            } by {
                if i < k {
                    assert(r@[i] == before[i]);
                }
            }
        }
        k += 1;
    }
    proof {
        assert forall|i: int| 0 <= i < r@.len() implies {
            &&& #[trigger] r@[i].id == topics@[i].id
            &&& clipped(topics@[i].content@, CONTENT_CLIP as nat, r@[i].content_clip@)
            &&& clipped(topics@[i].title@, TITLE_CLIP as nat, r@[i].title_clip@)
        } by {
            assert(i < k);
            assert(r@[i].id == topics@[i].id);
            assert(clipped(topics@[i].content@, CONTENT_CLIP as nat, r@[i].content_clip@));
        }
    }
    r
}

} // verus!
