use vstd::prelude::*;
use crate::model::{
    Topic, TopicV, Idea, IdeaV, ideas_view, topics_view, max_of, first_index, is_first_index,
    lemma_first_index, lemma_first_index_absent, lemma_first_index_props, lemma_topics_view_auto,
    lemma_topics_view_update, lemma_topics_view_push,
};
use crate::tree::{
    topic_ids, idea_ids, with_subs, resolve, replace_at, resolve_path_mut, lemma_keys_topic_ids,
    lemma_keys_idea_ids,
};
use crate::text::{parse_u64, parse_u64_value, decimal, push_decimal};
use crate::ids::{next_id, max_id};

verus! {

broadcast use lemma_topics_view_auto, lemma_topics_view_update, lemma_topics_view_push;

/// What walking a chain of topic names reports at each level.
pub enum ChainEvent {
    /// The name already exists at this level.
    Found { name: String, id: u64 },
    /// The name was created at this level (`depth` 0 is the top level).
    Created { name: String, id: u64, depth: usize },
}

/// The mathematical value of a [`ChainEvent`].
pub enum ChainEventV {
    Found { name: Seq<char>, id: u64 },
    Created { name: Seq<char>, id: u64, depth: nat },
}

impl View for ChainEvent {
    type V = ChainEventV;

    open spec fn view(&self) -> ChainEventV {
        match self {
            ChainEvent::Found { name, id } => ChainEventV::Found { name: name@, id: *id },
            ChainEvent::Created { name, id, depth } => ChainEventV::Created {
                name: name@,
                id: *id,
                depth: *depth as nat,
            },
        }
    }
}

/// The line that the command line prints for a walk event.
pub open spec fn event_text(e: ChainEventV) -> Seq<char> {
    match e {
        ChainEventV::Found { name, id } => "Found existing topic \""@ + name + "\" (id "@ + decimal(
            id as nat,
        ) + ")."@,
        ChainEventV::Created { name, id, depth } => (if depth == 0 {
            "Created topic \""@
        } else {
            "Created sub-topic \""@
        }) + name + "\" (id "@ + decimal(id as nat) + ")."@,
    }
}

impl ChainEvent {
    /// The line that the command line prints for this event.
    pub fn message(&self) -> (r: String)
        ensures
            r@ == event_text(self@),
    {
        let mut s = String::new();
        match self {
            ChainEvent::Found { name, id } => {
                s.append("Found existing topic \"");
                s.append(name.as_str());
                s.append("\" (id ");
                push_decimal(&mut s, *id);
                s.append(").");
            },
            ChainEvent::Created { name, id, depth } => {
                if *depth == 0 {
                    s.append("Created topic \"");
                } else {
                    s.append("Created sub-topic \"");
                }
                s.append(name.as_str());
                s.append("\" (id ");
                push_decimal(&mut s, *id);
                s.append(").");
            },
        }
        assert(s@ =~= event_text(self@));
        s
    }
}

pub open spec fn events_view(s: Seq<ChainEvent>) -> Seq<ChainEventV> {
    s.map_values(|e: ChainEvent| e@)
}

pub open spec fn names_view(s: Seq<String>) -> Seq<Seq<char>> {
    s.map_values(|n: String| n@)
}

/// The names of a level of topics, in order.
pub open spec fn topic_names(ts: Seq<TopicV>) -> Seq<Seq<char>> {
    ts.map_values(|t: TopicV| t.name)
}

/// Position of the first topic with this name, or -1.
pub open spec fn name_pos(ts: Seq<TopicV>, name: Seq<char>) -> int {
    first_index(topic_names(ts), name)
}

/// The id that a new topic at this level gets.
pub open spec fn fresh_id(ts: Seq<TopicV>) -> u64 {
    (max_of(topic_ids(ts)) + 1) as u64
}

/// A new, empty topic at this level.
pub open spec fn fresh_topic(ts: Seq<TopicV>, name: Seq<char>) -> TopicV {
    TopicV { id: fresh_id(ts), name, ideas: Seq::empty(), subs: Seq::empty() }
}

/// The topic that the first name of a chain lands on at this level, before
/// anything below it changes: the existing one, or a new one.
pub open spec fn chain_base(ts: Seq<TopicV>, name: Seq<char>) -> TopicV {
    let p = name_pos(ts, name);
    if p >= 0 {
        ts[p]
    } else {
        fresh_topic(ts, name)
    }
}

/// The topic that a chain of names reaches from this level (created empty
/// where it does not exist yet).
pub open spec fn chain_end(ts: Seq<TopicV>, names: Seq<Seq<char>>) -> TopicV
    decreases names.len(),
{
    let base = chain_base(ts, names[0]);
    if names.len() <= 1 {
        base
    } else {
        chain_end(base.subs, names.drop_first())
    }
}

/// The level after walking a chain of names: each name is looked up among the
/// current level's own topics, created there when missing, and the topic at
/// the end of the chain is replaced by `end`.
pub open spec fn chain_set(ts: Seq<TopicV>, names: Seq<Seq<char>>, end: TopicV) -> Seq<TopicV>
    decreases names.len(),
{
    if names.len() == 0 {
        ts
    } else {
        let p = name_pos(ts, names[0]);
        let base = chain_base(ts, names[0]);
        let updated = if names.len() == 1 {
            end
        } else {
            with_subs(base, chain_set(base.subs, names.drop_first(), end))
        };
        if p >= 0 {
            ts.update(p, updated)
        } else {
            ts.push(updated)
        }
    }
}

/// What the walk reports, level by level.
pub open spec fn chain_events(ts: Seq<TopicV>, names: Seq<Seq<char>>, depth: nat) -> Seq<ChainEventV>
    decreases names.len(),
{
    if names.len() == 0 {
        Seq::empty()
    } else {
        let p = name_pos(ts, names[0]);
        let base = chain_base(ts, names[0]);
        let ev = if p >= 0 {
            ChainEventV::Found { name: base.name, id: base.id }
        } else {
            ChainEventV::Created { name: names[0], id: base.id, depth }
        };
        if names.len() == 1 {
            seq![ev]
        } else {
            seq![ev] + chain_events(base.subs, names.drop_first(), depth + 1)
        }
    }
}

/// No level where the walk creates a topic has its ids used up to `u64::MAX`.
pub open spec fn chain_fits(ts: Seq<TopicV>, names: Seq<Seq<char>>) -> bool
    decreases names.len(),
{
    if names.len() == 0 {
        true
    } else {
        let p = name_pos(ts, names[0]);
        if p >= 0 {
            names.len() == 1 || chain_fits(ts[p].subs, names.drop_first())
        } else {
            max_of(topic_ids(ts)) < u64::MAX
        }
    }
}

/// The position of the first topic in `topics` with this name.
pub fn find_name_index(topics: &Vec<Topic>, name: &String) -> (r: Option<usize>)
    ensures
        match r {
            Some(p) => p == name_pos(topics_view(topics@), name@) && p < topics@.len(),
            None => name_pos(topics_view(topics@), name@) == -1,
        },
{
    let ghost names = topic_names(topics_view(topics@));
    let mut i: usize = 0;
    while i < topics.len()
        invariant
            0 <= i <= topics@.len(),
            names == topic_names(topics_view(topics@)),
            names.len() == topics@.len(),
            forall|j: int| 0 <= j < i ==> names[j] != name@,
        decreases topics@.len() - i,
    {
        assert(names[i as int] == topics@[i as int].name@);
        if topics[i].name == *name {
            proof {
                assert(is_first_index(names, name@, i as int));
                lemma_first_index(names, name@, i as int);
            }
            return Some(i);
        }
        i += 1;
    }
    proof {
        lemma_first_index_absent(names, name@);
    }
    None
}

/// Walks a chain of topic names left to right, starting at `topics`. A name
/// that already exists among the current level's own topics becomes the
/// parent for the next name; a missing one is created there, with the next
/// free id among that level's own topics. Reports what it did at each level
/// in `events`, and hands out the topic that the last name names.
pub fn walk_topic_chain<'a>(
    topics: &'a mut Vec<Topic>,
    names: &[String],
    depth: usize,
    events: &mut Vec<ChainEvent>,
) -> (r: &'a mut Topic)
    requires
        names@.len() >= 1,
        depth + names@.len() <= usize::MAX,
        chain_fits(topics_view(old(topics)@), names_view(names@)),
    ensures
        r@ == chain_end(topics_view(old(topics)@), names_view(names@)),
        topics_view(final(topics)@) == chain_set(
            topics_view(old(topics)@),
            names_view(names@),
            final(r)@,
        ),
        events_view(final(events)@) == events_view(old(events)@) + chain_events(
            topics_view(old(topics)@),
            names_view(names@),
            depth as nat,
        ),
    decreases names@.len(),
{
    let ghost ts = topics_view(topics@);
    let ghost ns = names_view(names@);
    let ghost ev0 = events_view(events@);
    let name = &names[0];
    assert(ns[0] == name@);
    let pos = match find_name_index(topics, name) {
        Some(p) => {
            events.push(ChainEvent::Found { name: topics[p].name.clone(), id: topics[p].id });
            p
        },
        None => {
            proof {
                lemma_keys_topic_ids(topics@);
            }
            let new_id = next_id(topics.as_slice());
            topics.push(
                Topic { id: new_id, name: name.clone(), ideas: Vec::new(), sub_topics: Vec::new() },
            );
            events.push(ChainEvent::Created { name: name.clone(), id: new_id, depth });
            proof {
                assert(ideas_view(topics@[topics@.len() - 1].ideas@) =~= Seq::<IdeaV>::empty());
                assert(topics_view(topics@) =~= ts.push(fresh_topic(ts, name@)));
            }
            topics.len() - 1
        },
    };
    assert(events_view(events@) =~= ev0 + seq![chain_events(ts, ns, depth as nat)[0]]);
    if names.len() == 1 {
        let ghost cur = topics@;
        let t = &mut topics[pos];
        proof {
            lemma_topics_view_update(cur, pos as int, *final(t));
            if pos == ts.len() {
                assert(topics_view(cur).update(pos as int, final(t)@) =~= ts.push(final(t)@));
            }
        }
        t
    } else {
        let rest = &names[1..names.len()];
        assert(names_view(rest@) =~= ns.drop_first());
        let ghost cur = topics@;
        let t = &mut topics[pos];
        proof {
            lemma_topics_view_update(cur, pos as int, *final(t));
            if pos == ts.len() {
                assert(topics_view(cur).update(pos as int, final(t)@) =~= ts.push(final(t)@));
            }
        }
        walk_topic_chain(&mut t.sub_topics, rest, depth + 1, events)
    }
}


/// The store after `add-topic`: the chain walked, nothing changed at its end.
pub open spec fn after_add_topic_chain(ts: Seq<TopicV>, names: Seq<Seq<char>>) -> Seq<TopicV> {
    chain_set(ts, names, chain_end(ts, names))
}

/// Walks/creates a chain of topic names (see [`walk_topic_chain`]) and reports
/// what happened at each level.
pub fn add_topic_chain(store: &mut Vec<Topic>, names: &[String]) -> (events: Vec<ChainEvent>)
    requires
        names@.len() >= 1,
        chain_fits(topics_view(old(store)@), names_view(names@)),
    ensures
        topics_view(final(store)@) == after_add_topic_chain(
            topics_view(old(store)@),
            names_view(names@),
        ),
        events_view(events@) == chain_events(topics_view(old(store)@), names_view(names@), 0),
{
    let mut events: Vec<ChainEvent> = Vec::new();
    assert(events_view(events@) =~= Seq::<ChainEventV>::empty());
    assert(names@.len() == names.len());
    let _ = walk_topic_chain(store, names, 0, &mut events);
    assert(events_view(events@) =~= chain_events(
        topics_view(old(store)@),
        names_view(names@),
        0,
    ));
    events
}

/// Tests [`chain_fits`]: whether walking `names` from `topics` can give every
/// topic it creates a fresh id.
pub fn chain_fits_check(topics: &Vec<Topic>, names: &[String]) -> (r: bool)
    ensures
        r == chain_fits(topics_view(topics@), names_view(names@)),
    decreases names@.len(),
{
    if names.len() == 0 {
        return true;
    }
    let ghost ns = names_view(names@);
    assert(ns[0] == names@[0]@);
    match find_name_index(topics, &names[0]) {
        Some(p) => {
            if names.len() == 1 {
                true
            } else {
                let rest = &names[1..names.len()];
                assert(names_view(rest@) =~= ns.drop_first());
                chain_fits_check(&topics[p].sub_topics, rest)
            }
        },
        None => {
            proof {
                lemma_keys_topic_ids(topics@);
            }
            let m = max_id(topics.as_slice()) < u64::MAX;
            m
        },
    }
}

/// How a chain of texts reads as a chain of positive ids: `None` as soon as
/// one of them is not a positive integer.
pub open spec fn ids_value(strs: Seq<Seq<char>>) -> Option<Seq<u64>> {
    if forall|i: int|
        0 <= i < strs.len() ==> (#[trigger] parse_u64_value(strs[i]) matches Some(n) && n > 0) {
        Some(Seq::new(strs.len(), |i: int| parse_u64_value(strs[i])->Some_0))
    } else {
        None
    }
}

/// Parses every element of `strs` as a positive-integer id; `None` if any
/// element isn't one.
pub fn parse_all_ids(strs: &[String]) -> (r: Option<Vec<u64>>)
    ensures
        match r {
            Some(v) => ids_value(names_view(strs@)) == Some(v@),
            None => ids_value(names_view(strs@)) is None,
        },
{
    let ghost ns = names_view(strs@);
    let mut out: Vec<u64> = Vec::new();
    let mut i: usize = 0;
    while i < strs.len()
        invariant
            0 <= i <= strs@.len(),
            ns == names_view(strs@),
            out@.len() == i,
            forall|j: int|
                0 <= j < i ==> (#[trigger] parse_u64_value(ns[j]) matches Some(n) && n > 0
                    && out@[j] == n),
        decreases strs@.len() - i,
    {
        assert(ns[i as int] == strs@[i as int]@);
        match parse_u64(strs[i].as_str()) {
            Some(n) => {
                if n == 0 {
                    assert(!(parse_u64_value(ns[i as int]) matches Some(n) && n > 0));
                    return None;
                }
                out.push(n);
            },
            None => {
                assert(!(parse_u64_value(ns[i as int]) matches Some(n) && n > 0));
                return None;
            },
        }
        i += 1;
    }
    assert(out@ =~= Seq::new(ns.len(), |i: int| parse_u64_value(ns[i])->Some_0));
    Some(out)
}

/// `t` with one more idea, numbered one above the highest idea id in `t`.
pub open spec fn with_idea(t: TopicV, text: Seq<char>) -> TopicV {
    TopicV {
        ideas: t.ideas.push(IdeaV { id: (max_of(idea_ids(t.ideas)) + 1) as u64, text }),
        ..t
    }
}

/// The id path that the topic arguments name, when every one of them is a
/// positive id and the path resolves.
pub open spec fn idea_target_ids(ts: Seq<TopicV>, path: Seq<Seq<char>>) -> Option<Seq<u64>> {
    match ids_value(path) {
        Some(ids) => if resolve(ts, ids) is Ok {
            Some(ids)
        } else {
            None
        },
        None => None,
    }
}

/// The topic that a new idea is filed under, before it gets the idea.
pub open spec fn idea_target(ts: Seq<TopicV>, path: Seq<Seq<char>>) -> TopicV {
    match idea_target_ids(ts, path) {
        Some(ids) => resolve(ts, ids)->Ok_0,
        None => chain_end(ts, path),
    }
}

/// The store after filing an idea: under the topic that the id chain names
/// when the arguments are such a chain, otherwise under the end of the chain
/// of names, walked and created as `add-topic` does.
pub open spec fn after_add_idea(ts: Seq<TopicV>, path: Seq<Seq<char>>, text: Seq<char>) -> Seq<
    TopicV,
> {
    match idea_target_ids(ts, path) {
        Some(ids) => replace_at(ts, ids, with_idea(idea_target(ts, path), text)),
        None => chain_set(ts, path, with_idea(idea_target(ts, path), text)),
    }
}

/// What filing an idea reports: nothing for an id chain, the walk otherwise.
pub open spec fn add_idea_events(ts: Seq<TopicV>, path: Seq<Seq<char>>) -> Seq<ChainEventV> {
    match idea_target_ids(ts, path) {
        Some(ids) => Seq::empty(),
        None => chain_events(ts, path, 0),
    }
}

/// No id that filing the idea hands out overflows.
pub open spec fn add_idea_fits(ts: Seq<TopicV>, path: Seq<Seq<char>>) -> bool {
    &&& (idea_target_ids(ts, path) is None ==> chain_fits(ts, path))
    &&& max_of(idea_ids(idea_target(ts, path).ideas)) < u64::MAX
}

/// Adds an idea to a topic, numbered one above its highest idea id.
fn push_idea(topic: &mut Topic, idea_text: &str)
    requires
        max_of(idea_ids(old(topic)@.ideas)) < u64::MAX,
    ensures
        final(topic)@ == with_idea(old(topic)@, idea_text@),
{
    proof {
        lemma_keys_idea_ids(topic.ideas@);
    }
    let id = next_id(topic.ideas.as_slice());
    let ghost before = topic.ideas@;
    topic.ideas.push(Idea { id, text: idea_text.to_owned() });
    assert(ideas_view(topic.ideas@) =~= ideas_view(before).push(
        IdeaV { id, text: idea_text@ },
    ));
}

/// Files an idea. `topic_path` is one or more topic names forming a chain,
/// or, when every element is a positive integer, a chain of topic ids; an id
/// chain that does not resolve is treated as names instead.
pub fn add_idea(store: &mut Vec<Topic>, topic_path: &[String], idea_text: &str) -> (events: Vec<
    ChainEvent,
>)
    requires
        topic_path@.len() >= 1,
        add_idea_fits(topics_view(old(store)@), names_view(topic_path@)),
    ensures
        topics_view(final(store)@) == after_add_idea(
            topics_view(old(store)@),
            names_view(topic_path@),
            idea_text@,
        ),
        events_view(events@) == add_idea_events(topics_view(old(store)@), names_view(topic_path@)),
{
    let ghost ts = topics_view(store@);
    let ghost path = names_view(topic_path@);
    if let Some(ids) = parse_all_ids(topic_path) {
        match resolve_path_mut(store, ids.as_slice()) {
            Ok(topic) => {
                push_idea(topic, idea_text);
                let events: Vec<ChainEvent> = Vec::new();
                assert(events_view(events@) =~= Seq::<ChainEventV>::empty());
                return events;
            },
            Err(_) => {},
        }
    }
    let mut events: Vec<ChainEvent> = Vec::new();
    assert(events_view(events@) =~= Seq::<ChainEventV>::empty());
    assert(topic_path@.len() == topic_path.len());
    let topic = walk_topic_chain(store, topic_path, 0, &mut events);
    push_idea(topic, idea_text);
    assert(events_view(events@) =~= chain_events(ts, path, 0));
    events
}


/// A chain walked from a level where its first name is missing ends at a new,
/// empty topic.
proof fn lemma_chain_end_fresh(ts: Seq<TopicV>, names: Seq<Seq<char>>)
    requires
        names.len() >= 1,
        name_pos(ts, names[0]) < 0,
    ensures
        chain_end(ts, names).ideas == Seq::<IdeaV>::empty(),
    decreases names.len(),
{
    if names.len() > 1 {
        let base = chain_base(ts, names[0]);
        let rest = names.drop_first();
        assert(topic_names(base.subs) =~= Seq::<Seq<char>>::empty());
        lemma_first_index_props(topic_names(base.subs), rest[0]);
        lemma_chain_end_fresh(base.subs, rest);
    }
}

/// Whether the topic at the end of a chain of names has room for one more
/// idea id.
fn chain_end_has_room(topics: &Vec<Topic>, names: &[String]) -> (r: bool)
    requires
        names@.len() >= 1,
    ensures
        r == (max_of(idea_ids(chain_end(topics_view(topics@), names_view(names@)).ideas))
            < u64::MAX),
    decreases names@.len(),
{
    let ghost ns = names_view(names@);
    assert(ns[0] == names@[0]@);
    match find_name_index(topics, &names[0]) {
        Some(p) => {
            if names.len() == 1 {
                proof {
                    lemma_keys_idea_ids(topics@[p as int].ideas@);
                }
                max_id(topics[p].ideas.as_slice()) < u64::MAX
            } else {
                let rest = &names[1..names.len()];
                assert(names_view(rest@) =~= ns.drop_first());
                chain_end_has_room(&topics[p].sub_topics, rest)
            }
        },
        None => {
            proof {
                lemma_chain_end_fresh(topics_view(topics@), ns);
                assert(idea_ids(Seq::<IdeaV>::empty()) =~= Seq::<u64>::empty());
            }
            true
        },
    }
}

/// Tests [`add_idea_fits`]: whether filing an idea under `topic_path` can
/// hand out every id it needs.
pub fn add_idea_fits_check(store: &Vec<Topic>, topic_path: &[String]) -> (r: bool)
    requires
        topic_path@.len() >= 1,
    ensures
        r == add_idea_fits(topics_view(store@), names_view(topic_path@)),
{
    if let Some(ids) = parse_all_ids(topic_path) {
        match crate::tree::resolve_path(store, ids.as_slice()) {
            Ok(topic) => {
                proof {
                    lemma_keys_idea_ids(topic.ideas@);
                }
                return max_id(topic.ideas.as_slice()) < u64::MAX;
            },
            Err(_) => {},
        }
    }
    chain_fits_check(store, topic_path) && chain_end_has_room(store, topic_path)
}

} // verus!
