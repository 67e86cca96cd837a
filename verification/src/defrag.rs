use vstd::prelude::*;
use crate::model::{
    HasId, Idea, IdeaV, Topic, TopicV, idea_view, ideas_view, topic_view, topics_view,
    lemma_topics_view, lemma_topics_view_auto, lemma_topics_view_update,
};

verus! {

broadcast use lemma_topics_view_auto, lemma_topics_view_update;

/// `x` inserted into `s` after every element whose key is at most `x`'s key
/// (the step of a stable insertion sort; `s` is meant to be sorted).
pub open spec fn insert_by_key<A>(s: Seq<A>, x: A, key: spec_fn(A) -> u64) -> Seq<A>
    decreases s.len(),
{
    if s.len() == 0 {
        seq![x]
    } else if key(s.last()) <= key(x) {
        s.push(x)
    } else {
        insert_by_key(s.drop_last(), x, key).push(s.last())
    }
}

/// `s` sorted by `key`, keeping the relative order of equal keys.
pub open spec fn sort_by_key<A>(s: Seq<A>, key: spec_fn(A) -> u64) -> Seq<A>
    decreases s.len(),
{
    if s.len() == 0 {
        s
    } else {
        insert_by_key(sort_by_key(s.drop_last(), key), s.last(), key)
    }
}

/// The id of an exec item, as a function.
pub open spec fn item_key<T: HasId>() -> spec_fn(T) -> u64 {
    |x: T| x.key()
}

/// Where a stable insertion puts `x`: after position `j - 1`.
proof fn lemma_insert_at<A>(s: Seq<A>, x: A, key: spec_fn(A) -> u64, j: int)
    requires
        0 <= j <= s.len(),
        forall|i: int| j <= i < s.len() ==> key(#[trigger] s[i]) > key(x),
        j == 0 || key(s[j - 1]) <= key(x),
    ensures
        insert_by_key(s, x, key) == s.insert(j, x),
    decreases s.len(),
{
    if s.len() == 0 {
        assert(s.insert(j, x) =~= seq![x]);
    } else if j == s.len() {
        assert(s.insert(j, x) =~= s.push(x));
    } else {
        lemma_insert_at(s.drop_last(), x, key, j);
        assert(s.drop_last().insert(j, x).push(s.last()) =~= s.insert(j, x));
    }
}

/// Sorts the items by id with a stable insertion sort.
pub fn sort_by_id<T: HasId>(v: &mut Vec<T>)
    ensures
        final(v)@ == sort_by_key(old(v)@, item_key::<T>()),
{
    let ghost orig = v@;
    assert(orig.len() == v.len());
    let mut out: Vec<T> = Vec::new();
    let mut k: usize = 0;
    while v.len() > 0
        invariant
            k + v@.len() == orig.len(),
            orig.len() <= usize::MAX,
            v@ == orig.skip(k as int),
            out@ == sort_by_key(orig.take(k as int), item_key::<T>()),
        decreases v@.len(),
    {
        let x = v.remove(0);
        assert(x == orig[k as int]);
        let kx = x.id_of();
        let mut j = out.len();
        while j > 0 && out[j - 1].id_of() > kx
            invariant
                0 <= j <= out@.len(),
                kx == x.key(),
                forall|i: int| j <= i < out@.len() ==> (item_key::<T>())(#[trigger] out@[i]) > kx,
            decreases j,
        {
            j -= 1;
        }
        proof {
            lemma_insert_at(out@, x, item_key::<T>(), j as int);
            assert(orig.take(k + 1).drop_last() =~= orig.take(k as int));
            assert(v@ =~= orig.skip(k + 1));
        }
        out.insert(j, x);
        k += 1;
    }
    assert(orig.take(orig.len() as int) =~= orig);
    *v = out;
}


/// Stable sorting commutes with mapping when the keys agree.
proof fn lemma_insert_map<A, B>(
    s: Seq<A>,
    x: A,
    f: spec_fn(A) -> B,
    ka: spec_fn(A) -> u64,
    kb: spec_fn(B) -> u64,
)
    requires
        forall|y: A| #[trigger] kb(f(y)) == ka(y),
    ensures
        insert_by_key(s, x, ka).map_values(f) == insert_by_key(s.map_values(f), f(x), kb),
    decreases s.len(),
{
    assert(kb(f(x)) == ka(x));
    if s.len() == 0 {
        assert(seq![x].map_values(f) =~= seq![f(x)]);
    } else {
        assert(s.map_values(f).last() == f(s.last()));
        assert(kb(f(s.last())) == ka(s.last()));
        assert(s.map_values(f).drop_last() =~= s.drop_last().map_values(f));
        if ka(s.last()) <= ka(x) {
            assert(s.push(x).map_values(f) =~= s.map_values(f).push(f(x)));
        } else {
            lemma_insert_map(s.drop_last(), x, f, ka, kb);
            assert(insert_by_key(s.drop_last(), x, ka).push(s.last()).map_values(f)
                =~= insert_by_key(s.drop_last(), x, ka).map_values(f).push(f(s.last())));
        }
    }
}

proof fn lemma_sort_map<A, B>(s: Seq<A>, f: spec_fn(A) -> B, ka: spec_fn(A) -> u64, kb: spec_fn(B) -> u64)
    requires
        forall|y: A| #[trigger] kb(f(y)) == ka(y),
    ensures
        sort_by_key(s, ka).map_values(f) == sort_by_key(s.map_values(f), kb),
    decreases s.len(),
{
    if s.len() == 0 {
        assert(s.map_values(f) =~= Seq::<B>::empty());
    } else {
        lemma_sort_map(s.drop_last(), f, ka, kb);
        lemma_insert_map(sort_by_key(s.drop_last(), ka), s.last(), f, ka, kb);
        assert(s.map_values(f).drop_last() =~= s.drop_last().map_values(f));
        assert(s.map_values(f).last() == f(s.last()));
    }
}

/// The id of an idea value, as a function.
pub open spec fn idea_id_key() -> spec_fn(IdeaV) -> u64 {
    |i: IdeaV| i.id
}

/// The id of a topic value, as a function.
pub open spec fn topic_id_key() -> spec_fn(TopicV) -> u64 {
    |t: TopicV| t.id
}

/// The same ideas numbered 1, 2, 3, ... in order.
pub open spec fn renumber_ideas(is: Seq<IdeaV>) -> Seq<IdeaV> {
    Seq::new(is.len(), |i: int| IdeaV { id: (i + 1) as u64, text: is[i].text })
}

/// The same topics numbered 1, 2, 3, ... in order.
pub open spec fn renumber_topics(ts: Seq<TopicV>) -> Seq<TopicV> {
    Seq::new(ts.len(), |i: int| TopicV { id: (i + 1) as u64, ..ts[i] })
}

/// A topic with its own ideas and everything beneath it renumbered; its own
/// id is left to the level it stands in.
pub open spec fn defrag_topic(t: TopicV) -> TopicV
    decreases t,
{
    TopicV {
        id: t.id,
        name: t.name,
        ideas: renumber_ideas(sort_by_key(t.ideas, idea_id_key())),
        subs: renumber_topics(sort_by_key(defrag_each(t.subs), topic_id_key())),
    }
}

/// [`defrag_topic`] on each topic of a level.
pub open spec fn defrag_each(ts: Seq<TopicV>) -> Seq<TopicV>
    decreases ts,
{
    if ts.len() == 0 {
        Seq::empty()
    } else {
        defrag_each(ts.subrange(0, ts.len() - 1)).push(defrag_topic(ts[ts.len() - 1]))
    }
}

/// A level renumbered 1, 2, 3, ... in the order of its current ids (equal ids
/// keep their order), every level beneath renumbered the same way.
pub open spec fn defragged(ts: Seq<TopicV>) -> Seq<TopicV> {
    renumber_topics(sort_by_key(defrag_each(ts), topic_id_key()))
}

pub proof fn lemma_defrag_each(ts: Seq<TopicV>)
    ensures
        defrag_each(ts).len() == ts.len(),
        forall|i: int| 0 <= i < ts.len() ==> #[trigger] defrag_each(ts)[i] == defrag_topic(ts[i]),
    decreases ts.len(),
{
    if ts.len() > 0 {
        lemma_defrag_each(ts.subrange(0, ts.len() - 1));
    }
}

fn renumber_ideas_in_place(ideas: &mut Vec<Idea>)
    ensures
        ideas_view(final(ideas)@) == renumber_ideas(ideas_view(old(ideas)@)),
{
    let ghost orig = ideas@;
    let n = ideas.len();
    let mut k: usize = 0;
    while k < n
        invariant
            n == ideas@.len(),
            n == orig.len(),
            0 <= k <= n,
            forall|j: int| 0 <= j < k ==> #[trigger] ideas@[j]@ == (IdeaV { id: (j + 1) as u64, text: orig[j].text@ }),
            forall|j: int| k <= j < n ==> #[trigger] ideas@[j] == orig[j],
        decreases n - k,
    {
        let it = &mut ideas[k];
        it.id = (k + 1) as u64;
        k += 1;
    }
    assert forall|j: int| 0 <= j < n implies #[trigger] ideas_view(ideas@)[j] == renumber_ideas(
        ideas_view(orig),
    )[j] by {
        assert(ideas@[j]@ == (IdeaV { id: (j + 1) as u64, text: orig[j].text@ }));
    }
    assert(ideas_view(ideas@) =~= renumber_ideas(ideas_view(orig)));
}

fn renumber_topics_in_place(topics: &mut Vec<Topic>)
    ensures
        topics_view(final(topics)@) == renumber_topics(topics_view(old(topics)@)),
{
    let ghost orig = topics@;
    let n = topics.len();
    let mut k: usize = 0;
    while k < n
        invariant
            n == topics@.len(),
            n == orig.len(),
            0 <= k <= n,
            forall|j: int| 0 <= j < k ==> #[trigger] topics@[j]@ == (TopicV { id: (j + 1) as u64, ..orig[j]@ }),
            forall|j: int| k <= j < n ==> #[trigger] topics@[j] == orig[j],
        decreases n - k,
    {
        let t = &mut topics[k];
        t.id = (k + 1) as u64;
        k += 1;
    }
    proof {
        lemma_topics_view(orig);
        lemma_topics_view(topics@);
    }
    assert forall|j: int| 0 <= j < n implies #[trigger] topics_view(topics@)[j] == renumber_topics(
        topics_view(orig),
    )[j] by {
        assert(topics@[j]@ == (TopicV { id: (j + 1) as u64, ..orig[j]@ }));
    }
    assert(topics_view(topics@) =~= renumber_topics(topics_view(orig)));
}

/// Renumbers every topic id and every idea id back to 1, 2, 3, ..., closing
/// any gaps left by deletions. Each level is renumbered independently, in the
/// order of its current ids.
pub fn defrag_topics(topics: &mut Vec<Topic>)
    ensures
        topics_view(final(topics)@) == defragged(topics_view(old(topics)@)),
    decreases topics_view(old(topics)@),
{
    let ghost orig = topics_view(topics@);
    let n = topics.len();
    let mut i: usize = 0;
    while i < n
        invariant
            n == topics@.len(),
            orig == topics_view(old(topics)@),
            orig.len() == n,
            0 <= i <= n,
            forall|j: int| 0 <= j < i ==> #[trigger] topics_view(topics@)[j] == defrag_topic(orig[j]),
            forall|j: int| i <= j < n ==> #[trigger] topics_view(topics@)[j] == orig[j],
        decreases n - i,
    {
        let ghost cur = topics@;
        assert(decreases_to!(orig => orig[i as int]));
        proof {
            lemma_topics_view(cur);
        }
        assert(topics_view(cur)[i as int] == orig[i as int]);
        assert(cur[i as int]@ == orig[i as int]);
        let t = &mut topics[i];
        proof {
            lemma_topics_view_update(cur, i as int, *final(t));
            lemma_sort_map(t.ideas@, |i: Idea| idea_view(i), item_key::<Idea>(), idea_id_key());
        }
        sort_by_id(&mut t.ideas);
        renumber_ideas_in_place(&mut t.ideas);
        assert(decreases_to!(orig => orig[i as int].subs));
        assert(orig[i as int].subs == topics_view(t.sub_topics@));
        defrag_topics(&mut t.sub_topics);
        i += 1;
    }
    proof {
        lemma_defrag_each(orig);
        assert(topics_view(topics@) =~= defrag_each(orig));
        lemma_topics_view(topics@);
        assert(topics_view(topics@) =~= topics@.map_values(|t: Topic| topic_view(t)));
        lemma_sort_map(topics@, |t: Topic| topic_view(t), item_key::<Topic>(), topic_id_key());
    }
    let ghost mid = topics@;
    sort_by_id(topics);
    proof {
        lemma_topics_view(topics@);
        assert(topics_view(topics@) =~= topics@.map_values(|t: Topic| topic_view(t)));
    }
    renumber_topics_in_place(topics);
}

/// Renumbers the whole store (see [`defrag_topics`]).
pub fn defrag(store: &mut Vec<Topic>)
    ensures
        topics_view(final(store)@) == defragged(topics_view(old(store)@)),
{
    defrag_topics(store);
}

} // verus!
