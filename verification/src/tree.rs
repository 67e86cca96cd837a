use vstd::prelude::*;
use crate::model::{
    Topic, TopicV, IdeaV, topics_view, first_index, keys, lemma_topics_view_auto, lemma_topics_view_update,
    lemma_topics_view_push, lemma_topics_view_remove, Idea, ideas_view,
};
use crate::error::{IdeaError, ErrorV};
use crate::ids::find_id_index;

verus! {

broadcast use
    lemma_topics_view_auto,
    lemma_topics_view_update,
    lemma_topics_view_push,
    lemma_topics_view_remove,
;

/// The ids of a level of topics, in order.
pub open spec fn topic_ids(ts: Seq<TopicV>) -> Seq<u64> {
    ts.map_values(|t: TopicV| t.id)
}

/// The ids of a topic's ideas, in order.
pub open spec fn idea_ids(is: Seq<IdeaV>) -> Seq<u64> {
    is.map_values(|i: IdeaV| i.id)
}

/// Position of the first topic with this id, or -1.
pub open spec fn topic_pos(ts: Seq<TopicV>, id: u64) -> int {
    first_index(topic_ids(ts), id)
}

/// Position of the first idea with this id, or -1.
pub open spec fn idea_pos(is: Seq<IdeaV>, id: u64) -> int {
    first_index(idea_ids(is), id)
}

/// The topic reached from `t` by walking `ids` through direct sub-topics.
pub open spec fn resolve_within(t: TopicV, ids: Seq<u64>) -> Result<TopicV, ErrorV>
    decreases ids.len(),
{
    if ids.len() == 0 {
        Ok(t)
    } else {
        let p = topic_pos(t.subs, ids[0]);
        if p < 0 {
            Err(ErrorV::NoSubTopic { topic_name: t.name, id: ids[0], sub_topic_count: t.subs.len() })
        } else {
            resolve_within(t.subs[p], ids.drop_first())
        }
    }
}

/// The topic that an id path names: the first id among the top-level topics,
/// each later id among the direct sub-topics of the one before.
pub open spec fn resolve(ts: Seq<TopicV>, ids: Seq<u64>) -> Result<TopicV, ErrorV> {
    if ids.len() == 0 {
        Err(ErrorV::EmptyPath)
    } else {
        let p = topic_pos(ts, ids[0]);
        if p < 0 {
            Err(ErrorV::NoTopLevelTopic { id: ids[0] })
        } else {
            resolve_within(ts[p], ids.drop_first())
        }
    }
}

/// `t` with its direct sub-topics replaced.
pub open spec fn with_subs(t: TopicV, subs: Seq<TopicV>) -> TopicV {
    TopicV { id: t.id, name: t.name, ideas: t.ideas, subs }
}

/// `t` with the topic that `ids` reaches from it replaced by `new`
/// (unchanged where the path does not resolve).
pub open spec fn replace_within(t: TopicV, ids: Seq<u64>, new: TopicV) -> TopicV
    decreases ids.len(),
{
    if ids.len() == 0 {
        new
    } else {
        let p = topic_pos(t.subs, ids[0]);
        if p < 0 {
            t
        } else {
            with_subs(t, t.subs.update(p, replace_within(t.subs[p], ids.drop_first(), new)))
        }
    }
}

/// The store with the topic at the id path replaced by `new`
/// (unchanged where the path does not resolve).
pub open spec fn replace_at(ts: Seq<TopicV>, ids: Seq<u64>, new: TopicV) -> Seq<TopicV> {
    if ids.len() == 0 {
        ts
    } else {
        let p = topic_pos(ts, ids[0]);
        if p < 0 {
            ts
        } else {
            ts.update(p, replace_within(ts[p], ids.drop_first(), new))
        }
    }
}

/// The ids of a vector of topics are the ids of its view.
pub proof fn lemma_keys_topic_ids(v: Seq<Topic>)
    ensures
        keys(v) == topic_ids(topics_view(v)),
{
    assert(keys(v) =~= topic_ids(topics_view(v)));
}

/// The ids of a vector of ideas are the ids of its view.
pub proof fn lemma_keys_idea_ids(v: Seq<Idea>)
    ensures
        keys(v) == idea_ids(ideas_view(v)),
{
    assert(keys(v) =~= idea_ids(ideas_view(v)));
}

/// The position of the first topic in `topics` with this id.
pub fn find_topic_index(topics: &Vec<Topic>, id: u64) -> (r: Option<usize>)
    ensures
        match r {
            Some(p) => p == topic_pos(topics_view(topics@), id) && p < topics@.len()
                && topics@[p as int].id == id,
            None => topic_pos(topics_view(topics@), id) == -1,
        },
{
    proof {
        lemma_keys_topic_ids(topics@);
    }
    find_id_index(topics.as_slice(), id)
}

/// Walks `ids` from `topic` through direct sub-topics, one level per id.
pub fn resolve_path_within<'a>(topic: &'a Topic, ids: &[u64]) -> (r: Result<&'a Topic, IdeaError>)
    ensures
        match r {
            Ok(t) => resolve_within(topic@, ids@) == Ok::<TopicV, ErrorV>(t@),
            Err(e) => resolve_within(topic@, ids@) == Err::<TopicV, ErrorV>(e@),
        },
    decreases ids@.len(),
{
    if ids.len() == 0 {
        return Ok(topic);
    }
    let id = ids[0];
    match find_topic_index(&topic.sub_topics, id) {
        None => Err(
            IdeaError::NoSubTopic {
                topic_name: topic.name.clone(),
                id,
                sub_topic_count: topic.sub_topics.len(),
            },
        ),
        Some(p) => {
            let rest = &ids[1..ids.len()];
            assert(rest@ == ids@.drop_first());
            resolve_path_within(&topic.sub_topics[p], rest)
        },
    }
}

/// Finds the topic that an id path names (see [`resolve`]).
pub fn resolve_path<'a>(store: &'a Vec<Topic>, ids: &[u64]) -> (r: Result<&'a Topic, IdeaError>)
    ensures
        match r {
            Ok(t) => resolve(topics_view(store@), ids@) == Ok::<TopicV, ErrorV>(t@),
            Err(e) => resolve(topics_view(store@), ids@) == Err::<TopicV, ErrorV>(e@),
        },
{
    if ids.len() == 0 {
        return Err(IdeaError::EmptyPath);
    }
    let first = ids[0];
    match find_topic_index(store, first) {
        None => Err(IdeaError::NoTopLevelTopic { id: first }),
        Some(p) => {
            let rest = &ids[1..ids.len()];
            assert(rest@ == ids@.drop_first());
            resolve_path_within(&store[p], rest)
        },
    }
}

/// Like [`resolve_path_within`], handing out the topic for change: whatever the
/// caller leaves in it ends up at that place in `topic`.
pub fn resolve_path_within_mut<'a>(topic: &'a mut Topic, ids: &[u64]) -> (r: Result<
    &'a mut Topic,
    IdeaError,
>)
    ensures
        match r {
            Ok(t) => {
                &&& resolve_within(old(topic)@, ids@) == Ok::<TopicV, ErrorV>(t@)
                &&& final(topic)@ == replace_within(old(topic)@, ids@, final(t)@)
            },
            Err(e) => {
                &&& resolve_within(old(topic)@, ids@) == Err::<TopicV, ErrorV>(e@)
                &&& final(topic)@ == old(topic)@
            },
        },
    decreases ids@.len(),
{
    if ids.len() == 0 {
        return Ok(topic);
    }
    let id = ids[0];
    match find_topic_index(&topic.sub_topics, id) {
        None => Err(
            IdeaError::NoSubTopic {
                topic_name: topic.name.clone(),
                id,
                sub_topic_count: topic.sub_topics.len(),
            },
        ),
        Some(p) => {
            let rest = &ids[1..ids.len()];
            assert(rest@ == ids@.drop_first());
            let sub = &mut topic.sub_topics[p];
            proof {
                lemma_topics_view_update(old(topic).sub_topics@, p as int, *final(sub));
            }
            resolve_path_within_mut(sub, rest)
        },
    }
}


/// Like [`resolve_path`], handing out the topic for change: whatever the caller
/// leaves in it ends up at that place in the store.
pub fn resolve_path_mut<'a>(store: &'a mut Vec<Topic>, ids: &[u64]) -> (r: Result<
    &'a mut Topic,
    IdeaError,
>)
    ensures
        match r {
            Ok(t) => {
                &&& resolve(topics_view(old(store)@), ids@) == Ok::<TopicV, ErrorV>(t@)
                &&& topics_view(final(store)@) == replace_at(
                    topics_view(old(store)@),
                    ids@,
                    final(t)@,
                )
            },
            Err(e) => {
                &&& resolve(topics_view(old(store)@), ids@) == Err::<TopicV, ErrorV>(e@)
                &&& topics_view(final(store)@) == topics_view(old(store)@)
            },
        },
{
    if ids.len() == 0 {
        return Err(IdeaError::EmptyPath);
    }
    let first = ids[0];
    match find_topic_index(store, first) {
        None => Err(IdeaError::NoTopLevelTopic { id: first }),
        Some(p) => {
            let rest = &ids[1..ids.len()];
            assert(rest@ == ids@.drop_first());
            let top = &mut store[p];
            proof {
                lemma_topics_view_update(old(store)@, p as int, *final(top));
            }
            resolve_path_within_mut(top, rest)
        },
    }
}

/// Replacing a topic by itself changes nothing.
pub proof fn lemma_replace_within_same(t: TopicV, ids: Seq<u64>)
    requires
        resolve_within(t, ids) is Ok,
    ensures
        replace_within(t, ids, resolve_within(t, ids)->Ok_0) == t,
    decreases ids.len(),
{
    if ids.len() > 0 {
        let p = topic_pos(t.subs, ids[0]);
        lemma_replace_within_same(t.subs[p], ids.drop_first());
        assert(t.subs.update(p, t.subs[p]) =~= t.subs);
    }
}

/// Replacing a topic of the store by itself changes nothing.
pub proof fn lemma_replace_at_same(ts: Seq<TopicV>, ids: Seq<u64>)
    requires
        resolve(ts, ids) is Ok,
    ensures
        replace_at(ts, ids, resolve(ts, ids)->Ok_0) == ts,
{
    let p = topic_pos(ts, ids[0]);
    lemma_replace_within_same(ts[p], ids.drop_first());
    assert(ts.update(p, ts[p]) =~= ts);
}

/// What removing the topic at an id path takes out: the last id is looked up
/// among the top-level topics (a path of one id) or among the direct
/// sub-topics of the topic that the rest of the path names.
pub open spec fn removal(ts: Seq<TopicV>, ids: Seq<u64>) -> Result<TopicV, ErrorV> {
    if ids.len() == 0 {
        Err(ErrorV::EmptyPath)
    } else if ids.len() == 1 {
        let p = topic_pos(ts, ids[0]);
        if p < 0 {
            Err(ErrorV::NoTopLevelTopic { id: ids[0] })
        } else {
            Ok(ts[p])
        }
    } else {
        match resolve(ts, ids.drop_last()) {
            Err(e) => Err(e),
            Ok(parent) => {
                let q = topic_pos(parent.subs, ids.last());
                if q < 0 {
                    Err(
                        ErrorV::NoSubTopic {
                            topic_name: parent.name,
                            id: ids.last(),
                            sub_topic_count: parent.subs.len(),
                        },
                    )
                } else {
                    Ok(parent.subs[q])
                }
            },
        }
    }
}

/// The store after removing the topic at an id path (unchanged when
/// [`removal`] fails).
pub open spec fn after_removal(ts: Seq<TopicV>, ids: Seq<u64>) -> Seq<TopicV> {
    if removal(ts, ids) is Err {
        ts
    } else if ids.len() == 1 {
        ts.remove(topic_pos(ts, ids[0]))
    } else {
        let parent = resolve(ts, ids.drop_last())->Ok_0;
        replace_at(
            ts,
            ids.drop_last(),
            with_subs(parent, parent.subs.remove(topic_pos(parent.subs, ids.last()))),
        )
    }
}

/// Removes and returns the topic at `ids`, with everything beneath it.
pub fn remove_topic_at_path(store: &mut Vec<Topic>, ids: &[u64]) -> (r: Result<Topic, IdeaError>)
    ensures
        match r {
            Ok(t) => removal(topics_view(old(store)@), ids@) == Ok::<TopicV, ErrorV>(t@),
            Err(e) => removal(topics_view(old(store)@), ids@) == Err::<TopicV, ErrorV>(e@),
        },
        topics_view(final(store)@) == after_removal(topics_view(old(store)@), ids@),
{
    let ghost old_view = topics_view(store@);
    if ids.len() == 0 {
        return Err(IdeaError::EmptyPath);
    }
    let n = ids.len();
    let last = ids[n - 1];
    if n == 1 {
        match find_topic_index(store, last) {
            None => {
                return Err(IdeaError::NoTopLevelTopic { id: last });
            },
            Some(p) => {
                let t = store.remove(p);
                return Ok(t);
            },
        }
    }
    let parent_path = &ids[0..n - 1];
    assert(parent_path@ == ids@.drop_last());
    match resolve_path_mut(store, parent_path) {
        Err(e) => Err(e),
        Ok(parent) => {
            let ghost parent_before = parent@;
            match find_topic_index(&parent.sub_topics, last) {
                None => {
                    proof {
                        lemma_replace_at_same(old_view, ids@.drop_last());
                    }
                    Err(
                        IdeaError::NoSubTopic {
                            topic_name: parent.name.clone(),
                            id: last,
                            sub_topic_count: parent.sub_topics.len(),
                        },
                    )
                },
                Some(q) => {
                    let ghost subs_before = parent.sub_topics@;
                    let t = parent.sub_topics.remove(q);
                    proof {
                        lemma_topics_view_remove(subs_before, q as int);
                        assert(parent@ == with_subs(
                            parent_before,
                            parent_before.subs.remove(q as int),
                        ));
                    }
                    Ok(t)
                },
            }
        },
    }
}

/// Gives the topic a new name and returns the old one.
pub fn rename_topic(topic: &mut Topic, new_name: &str) -> (r: String)
    ensures
        r@ == old(topic)@.name,
        final(topic)@ == (TopicV { name: new_name@, ..old(topic)@ }),
{
    let old_name = topic.name.clone();
    topic.name = new_name.to_owned();
    old_name
}

/// The position of the first idea in `ideas` with this id.
pub fn find_idea_index(ideas: &Vec<Idea>, id: u64) -> (r: Option<usize>)
    ensures
        match r {
            Some(p) => p == idea_pos(ideas_view(ideas@), id) && p < ideas@.len()
                && ideas@[p as int].id == id,
            None => idea_pos(ideas_view(ideas@), id) == -1,
        },
{
    proof {
        lemma_keys_idea_ids(ideas@);
    }
    find_id_index(ideas.as_slice(), id)
}

/// The error for an idea id that a topic does not have.
pub open spec fn no_idea(t: TopicV, idea_id: u64) -> ErrorV {
    ErrorV::NoIdea { idea_id, topic_name: t.name, idea_count: t.ideas.len() }
}

/// Replaces the text of the idea with this id; returns the topic's name and
/// the idea's old text.
pub fn edit_idea_in(topic: &mut Topic, idea_id: u64, new_text: &str) -> (r: Result<
    (String, String),
    IdeaError,
>)
    ensures
        ({
            let q = idea_pos(old(topic)@.ideas, idea_id);
            match r {
                Ok((name, old_text)) => {
                    &&& q >= 0
                    &&& name@ == old(topic)@.name
                    &&& old_text@ == old(topic)@.ideas[q].text
                    &&& final(topic)@ == (TopicV {
                        ideas: old(topic)@.ideas.update(q, IdeaV { id: idea_id, text: new_text@ }),
                        ..old(topic)@
                    })
                },
                Err(e) => {
                    &&& q < 0
                    &&& e@ == no_idea(old(topic)@, idea_id)
                    &&& final(topic)@ == old(topic)@
                },
            }
        }),
{
    let topic_name = topic.name.clone();
    let idea_count = topic.ideas.len();
    match find_idea_index(&topic.ideas, idea_id) {
        None => Err(IdeaError::NoIdea { idea_id, topic_name, idea_count }),
        Some(q) => {
            let ghost before = topic.ideas@;
            let old_text = topic.ideas[q].text.clone();
            let id = topic.ideas[q].id;
            topic.ideas.set(q, Idea { id, text: new_text.to_owned() });
            proof {
                assert(ideas_view(topic.ideas@) =~= ideas_view(before).update(
                    q as int,
                    IdeaV { id: idea_id, text: new_text@ },
                ));
            }
            Ok((topic_name, old_text))
        },
    }
}

/// Removes the idea with this id; returns the topic's name and the removed
/// idea's text.
pub fn delete_idea_from(topic: &mut Topic, idea_id: u64) -> (r: Result<(String, String), IdeaError>)
    ensures
        ({
            let q = idea_pos(old(topic)@.ideas, idea_id);
            match r {
                Ok((name, text)) => {
                    &&& q >= 0
                    &&& name@ == old(topic)@.name
                    &&& text@ == old(topic)@.ideas[q].text
                    &&& final(topic)@ == (TopicV {
                        ideas: old(topic)@.ideas.remove(q),
                        ..old(topic)@
                    })
                },
                Err(e) => {
                    &&& q < 0
                    &&& e@ == no_idea(old(topic)@, idea_id)
                    &&& final(topic)@ == old(topic)@
                },
            }
        }),
{
    match find_idea_index(&topic.ideas, idea_id) {
        None => Err(
            IdeaError::NoIdea {
                idea_id,
                topic_name: topic.name.clone(),
                idea_count: topic.ideas.len(),
            },
        ),
        Some(q) => {
            let ghost before = topic.ideas@;
            let removed = topic.ideas.remove(q);
            proof {
                assert(ideas_view(topic.ideas@) =~= ideas_view(before).remove(q as int));
            }
            Ok((topic.name.clone(), removed.text))
        },
    }
}

} // verus!
