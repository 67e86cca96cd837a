use vstd::prelude::*;

verus! {

/// One idea: its id is unique only among the ideas of its own topic.
pub struct Idea {
    pub id: u64,
    pub text: String,
}

/// A topic with its own ideas and its direct sub-topics.
pub struct Topic {
    pub id: u64,
    pub name: String,
    pub ideas: Vec<Idea>,
    pub sub_topics: Vec<Topic>,
}

/// The whole store: the top-level topics.
pub type Store = Vec<Topic>;


/// The mathematical value of an idea.
#[verifier::ext_equal]
pub struct IdeaV {
    pub id: u64,
    pub text: Seq<char>,
}

/// The mathematical value of a topic and everything beneath it.
#[verifier::ext_equal]
pub struct TopicV {
    pub id: u64,
    pub name: Seq<char>,
    pub ideas: Seq<IdeaV>,
    pub subs: Seq<TopicV>,
}

pub open spec fn idea_view(i: Idea) -> IdeaV {
    IdeaV { id: i.id, text: i.text@ }
}

pub open spec fn ideas_view(s: Seq<Idea>) -> Seq<IdeaV> {
    s.map_values(|i: Idea| idea_view(i))
}

pub open spec fn topic_view(t: Topic) -> TopicV
    decreases t,
{
    TopicV {
        id: t.id,
        name: t.name@,
        ideas: ideas_view(t.ideas@),
        subs: topics_view(t.sub_topics@),
    }
}

/// The values of a sequence of topics, position by position.
pub open spec fn topics_view(s: Seq<Topic>) -> Seq<TopicV>
    decreases s,
{
    if s.len() == 0 {
        Seq::empty()
    } else {
        topics_view(s.subrange(0, s.len() - 1)).push(topic_view(s[s.len() - 1]))
    }
}

impl View for Idea {
    type V = IdeaV;

    open spec fn view(&self) -> IdeaV {
        idea_view(*self)
    }
}

impl View for Topic {
    type V = TopicV;

    open spec fn view(&self) -> TopicV {
        topic_view(*self)
    }
}

pub proof fn lemma_topics_view(s: Seq<Topic>)
    ensures
        topics_view(s).len() == s.len(),
        forall|i: int| 0 <= i < s.len() ==> #[trigger] topics_view(s)[i] == topic_view(s[i]),
    decreases s.len(),
{
    if s.len() > 0 {
        lemma_topics_view(s.subrange(0, s.len() - 1));
    }
}

/// Viewing commutes with replacing one topic.
pub broadcast proof fn lemma_topics_view_update(s: Seq<Topic>, i: int, t: Topic)
    requires
        0 <= i < s.len(),
    ensures
        #[trigger] topics_view(s.update(i, t)) == topics_view(s).update(i, topic_view(t)),
        topic_view(t) == topic_view(s[i]) ==> topics_view(s.update(i, t)) == topics_view(s),
{
    lemma_topics_view(s.update(i, t));
    lemma_topics_view(s);
    assert(topics_view(s.update(i, t)) =~= topics_view(s).update(i, topic_view(t)));
    if topic_view(t) == topic_view(s[i]) {
        assert(topics_view(s.update(i, t)) =~= topics_view(s));
    }
}

/// Viewing commutes with appending a topic.
pub broadcast proof fn lemma_topics_view_push(s: Seq<Topic>, t: Topic)
    ensures
        #[trigger] topics_view(s.push(t)) == topics_view(s).push(topic_view(t)),
{
    lemma_topics_view(s.push(t));
    lemma_topics_view(s);
    assert(topics_view(s.push(t)) =~= topics_view(s).push(topic_view(t)));
}

/// Viewing commutes with removing one topic.
pub broadcast proof fn lemma_topics_view_remove(s: Seq<Topic>, i: int)
    requires
        0 <= i < s.len(),
    ensures
        #[trigger] topics_view(s.remove(i)) == topics_view(s).remove(i),
{
    lemma_topics_view(s.remove(i));
    lemma_topics_view(s);
    assert(topics_view(s.remove(i)) =~= topics_view(s).remove(i));
}

pub broadcast proof fn lemma_topics_view_auto(s: Seq<Topic>)
    ensures
        #[trigger] topics_view(s).len() == s.len(),
        forall|i: int| 0 <= i < s.len() ==> #[trigger] topics_view(s)[i] == topic_view(s[i]),
{
    lemma_topics_view(s);
}

/// Items that carry a sibling-local numeric id.
pub trait HasId {
    spec fn key(&self) -> u64;

    fn id_of(&self) -> (r: u64)
        ensures
            r == self.key(),
    ;
}

impl HasId for Idea {
    open spec fn key(&self) -> u64 {
        self.id
    }

    fn id_of(&self) -> (r: u64) {
        self.id
    }
}

impl HasId for Topic {
    open spec fn key(&self) -> u64 {
        self.id
    }

    fn id_of(&self) -> (r: u64) {
        self.id
    }
}

/// The ids of a sequence of items, in order.
pub open spec fn keys<T: HasId>(s: Seq<T>) -> Seq<u64> {
    s.map_values(|x: T| x.key())
}

/// The largest value in `s`, or 0 when `s` is empty.
pub open spec fn max_of(s: Seq<u64>) -> nat
    decreases s.len(),
{
    if s.len() == 0 {
        0
    } else {
        let m = max_of(s.drop_last());
        if s.last() > m {
            s.last() as nat
        } else {
            m
        }
    }
}

/// `i` is the first position of `x` in `s`.
pub open spec fn is_first_index<A>(s: Seq<A>, x: A, i: int) -> bool {
    &&& 0 <= i < s.len()
    &&& s[i] == x
    &&& forall|j: int| 0 <= j < i ==> s[j] != x
}

/// The first position of `x` in `s`, or -1 when `x` does not occur.
pub open spec fn first_index<A>(s: Seq<A>, x: A) -> int {
    if exists|i: int| is_first_index(s, x, i) {
        choose|i: int| is_first_index(s, x, i)
    } else {
        -1
    }
}

/// The first position of `x` is unique.
pub proof fn lemma_first_index<A>(s: Seq<A>, x: A, i: int)
    requires
        is_first_index(s, x, i),
    ensures
        first_index(s, x) == i,
{
    let k = choose|k: int| is_first_index(s, x, k);
    if k < i {
        assert(s[k] != x);
    } else if i < k {
        assert(s[i] != x);
    }
}

/// `x` does not occur, so there is no first position.
pub proof fn lemma_first_index_absent<A>(s: Seq<A>, x: A)
    requires
        forall|j: int| 0 <= j < s.len() ==> s[j] != x,
    ensures
        first_index(s, x) == -1,
{
}

/// The properties of `first_index` that callers use.
pub proof fn lemma_first_index_props<A>(s: Seq<A>, x: A)
    ensures
        -1 <= first_index(s, x) < s.len(),
        first_index(s, x) >= 0 ==> is_first_index(s, x, first_index(s, x)),
        first_index(s, x) == -1 <==> (forall|j: int| 0 <= j < s.len() ==> s[j] != x),
{
    if exists|i: int| is_first_index(s, x, i) {
        let i = choose|i: int| is_first_index(s, x, i);
        assert(s[i] == x);
    } else {
        assert forall|j: int| 0 <= j < s.len() implies s[j] != x by {
            if s[j] == x {
                lemma_smallest_position(s, x, j);
            }
        }
    }
}

proof fn lemma_smallest_position<A>(s: Seq<A>, x: A, j: int)
    requires
        0 <= j < s.len(),
        s[j] == x,
    ensures
        exists|i: int| is_first_index(s, x, i),
    decreases j,
{
    if exists|k: int| 0 <= k < j && s[k] == x {
        let k = choose|k: int| 0 <= k < j && s[k] == x;
        lemma_smallest_position(s, x, k);
    } else {
        assert(is_first_index(s, x, j));
    }
}

} // verus!
