use vstd::prelude::*;
use crate::model::{Topic, TopicV, topics_view, lemma_topics_view_auto};

verus! {

broadcast use lemma_topics_view_auto;

/// Ideas in a topic, counting those in every sub-topic beneath it.
pub open spec fn total_ideas(t: TopicV) -> nat
    decreases t,
{
    t.ideas.len() + level_ideas(t.subs)
}

/// Ideas in a level of topics and everything beneath them.
pub open spec fn level_ideas(ts: Seq<TopicV>) -> nat
    decreases ts,
{
    if ts.len() == 0 {
        0
    } else {
        level_ideas(ts.subrange(0, ts.len() - 1)) + total_ideas(ts[ts.len() - 1])
    }
}

/// Sub-topics beneath a topic at any depth, not counting the topic itself.
pub open spec fn total_sub_topics(t: TopicV) -> nat
    decreases t,
{
    level_topics(t.subs)
}

/// Topics in a level of topics and everything beneath them.
pub open spec fn level_topics(ts: Seq<TopicV>) -> nat
    decreases ts,
{
    if ts.len() == 0 {
        0
    } else {
        level_topics(ts.subrange(0, ts.len() - 1)) + 1 + total_sub_topics(ts[ts.len() - 1])
    }
}

proof fn lemma_level_ideas_prefix(ts: Seq<TopicV>, k: int)
    requires
        0 <= k < ts.len(),
    ensures
        level_ideas(ts.subrange(0, k + 1)) == level_ideas(ts.subrange(0, k)) + total_ideas(ts[k]),
{
    assert(ts.subrange(0, k + 1).subrange(0, k) =~= ts.subrange(0, k));
}

proof fn lemma_level_topics_prefix(ts: Seq<TopicV>, k: int)
    requires
        0 <= k < ts.len(),
    ensures
        level_topics(ts.subrange(0, k + 1)) == level_topics(ts.subrange(0, k)) + 1
            + total_sub_topics(ts[k]),
{
    assert(ts.subrange(0, k + 1).subrange(0, k) =~= ts.subrange(0, k));
}

/// Counting over a longer prefix never gives less.
proof fn lemma_level_prefix_mono(ts: Seq<TopicV>, j: int, k: int)
    requires
        0 <= j <= k <= ts.len(),
    ensures
        level_ideas(ts.subrange(0, j)) <= level_ideas(ts.subrange(0, k)),
        level_topics(ts.subrange(0, j)) <= level_topics(ts.subrange(0, k)),
    decreases k - j,
{
    if j < k {
        lemma_level_prefix_mono(ts, j, k - 1);
        lemma_level_ideas_prefix(ts, k - 1);
        lemma_level_topics_prefix(ts, k - 1);
    }
}

/// Each topic of a level counts no more than the whole level.
pub proof fn lemma_level_bounds(ts: Seq<TopicV>, k: int)
    requires
        0 <= k < ts.len(),
    ensures
        total_ideas(ts[k]) <= level_ideas(ts),
        total_sub_topics(ts[k]) < level_topics(ts),
{
    lemma_level_ideas_prefix(ts, k);
    lemma_level_topics_prefix(ts, k);
    lemma_level_prefix_mono(ts, k + 1, ts.len() as int);
    assert(ts.subrange(0, ts.len() as int) =~= ts);
}

/// The number of ideas in `topic` and beneath it, or `None` when it exceeds
/// `usize::MAX`.
pub fn checked_count_ideas(topic: &Topic) -> (r: Option<usize>)
    ensures
        match r {
            Some(n) => n == total_ideas(topic@),
            None => total_ideas(topic@) > usize::MAX,
        },
    decreases topic,
{
    let subs = checked_level_ideas(&topic.sub_topics);
    match subs {
        None => None,
        Some(n) => topic.ideas.len().checked_add(n),
    }
}

/// The number of ideas in `topics` and beneath them, or `None` when it exceeds
/// `usize::MAX`.
pub fn checked_level_ideas(topics: &Vec<Topic>) -> (r: Option<usize>)
    ensures
        match r {
            Some(n) => n == level_ideas(topics_view(topics@)),
            None => level_ideas(topics_view(topics@)) > usize::MAX,
        },
    decreases topics,
{
    let ghost ts = topics_view(topics@);
    let mut acc: usize = 0;
    let mut i: usize = 0;
    while i < topics.len()
        invariant
            0 <= i <= topics@.len(),
            ts == topics_view(topics@),
            acc == level_ideas(ts.subrange(0, i as int)),
        decreases topics@.len() - i,
    {
        proof {
            lemma_level_ideas_prefix(ts, i as int);
            lemma_level_prefix_mono(ts, i as int + 1, ts.len() as int);
            assert(ts.subrange(0, ts.len() as int) =~= ts);
            assert(decreases_to!(topics => topics@[i as int]));
        }
        match checked_count_ideas(&topics[i]) {
            None => {
                return None;
            },
            Some(c) => match acc.checked_add(c) {
                None => {
                    return None;
                },
                Some(s) => {
                    acc = s;
                },
            },
        }
        i += 1;
    }
    assert(ts.subrange(0, topics@.len() as int) =~= ts);
    Some(acc)
}

/// The number of sub-topics beneath `topic` at any depth, or `None` when it
/// exceeds `usize::MAX`.
pub fn checked_count_sub_topics(topic: &Topic) -> (r: Option<usize>)
    ensures
        match r {
            Some(n) => n == total_sub_topics(topic@),
            None => total_sub_topics(topic@) > usize::MAX,
        },
    decreases topic,
{
    checked_level_topics(&topic.sub_topics)
}

/// The number of topics in `topics` and beneath them, or `None` when it
/// exceeds `usize::MAX`.
pub fn checked_level_topics(topics: &Vec<Topic>) -> (r: Option<usize>)
    ensures
        match r {
            Some(n) => n == level_topics(topics_view(topics@)),
            None => level_topics(topics_view(topics@)) > usize::MAX,
        },
    decreases topics,
{
    let ghost ts = topics_view(topics@);
    let mut acc: usize = 0;
    let mut i: usize = 0;
    while i < topics.len()
        invariant
            0 <= i <= topics@.len(),
            ts == topics_view(topics@),
            acc == level_topics(ts.subrange(0, i as int)),
        decreases topics@.len() - i,
    {
        proof {
            lemma_level_topics_prefix(ts, i as int);
            lemma_level_prefix_mono(ts, i as int + 1, ts.len() as int);
            assert(ts.subrange(0, ts.len() as int) =~= ts);
            assert(decreases_to!(topics => topics@[i as int]));
        }
        match checked_count_sub_topics(&topics[i]) {
            None => {
                return None;
            },
            Some(c) => match acc.checked_add(c) {
                None => {
                    return None;
                },
                Some(s) => match s.checked_add(1) {
                    None => {
                        return None;
                    },
                    Some(s1) => {
                        acc = s1;
                    },
                },
            },
        }
        i += 1;
    }
    assert(ts.subrange(0, topics@.len() as int) =~= ts);
    Some(acc)
}

/// Total idea count in a topic, including all ideas in every sub-topic beneath it.
pub fn count_ideas_recursive(topic: &Topic) -> (r: usize)
    requires
        total_ideas(topic@) <= usize::MAX,
    ensures
        r == total_ideas(topic@),
{
    match checked_count_ideas(topic) {
        Some(n) => n,
        None => 0,
    }
}

/// Total number of sub-topics beneath a topic (not counting the topic itself), at any depth.
pub fn count_sub_topics_recursive(topic: &Topic) -> (r: usize)
    requires
        total_sub_topics(topic@) <= usize::MAX,
    ensures
        r == total_sub_topics(topic@),
{
    match checked_count_sub_topics(topic) {
        Some(n) => n,
        None => 0,
    }
}

/// Whether every count of ideas and of sub-topics within the store fits in a
/// `usize`.
pub open spec fn counts_fit(ts: Seq<TopicV>) -> bool {
    level_ideas(ts) <= usize::MAX && level_topics(ts) <= usize::MAX
}

/// Tests [`counts_fit`] on a store.
pub fn store_counts_fit(store: &Vec<Topic>) -> (r: bool)
    ensures
        r == counts_fit(topics_view(store@)),
{
    checked_level_ideas(store).is_some() && checked_level_topics(store).is_some()
}

} // verus!
