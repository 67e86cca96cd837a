use vstd::prelude::*;
use crate::model::{Topic, TopicV, topics_view, lemma_first_index_props, lemma_topics_view_auto};
use crate::error::{IdeaError, ErrorV};
use crate::tree::{
    topic_pos, idea_pos, topic_ids, resolve, resolve_within, replace_at, removal, after_removal,
    resolve_path, resolve_path_mut, remove_topic_at_path, delete_idea_from, find_topic_index,
    find_idea_index, lemma_replace_at_same, rename_topic, edit_idea_in,
};
use crate::counts::{
    total_ideas, total_sub_topics, level_ideas, level_topics, counts_fit, lemma_level_bounds,
    count_ideas_recursive, count_sub_topics_recursive,
};
use crate::text::{
    decimal, ids_text, push_decimal, id_path_string,
    is_blank, blank, trim, trimmed, lowercase, to_lowercase, is_ascii_text, ascii_lower,
};
use crate::command::text_eq;

verus! {

broadcast use lemma_topics_view_auto;

/// One step of the last id of a path: the direct sub-topic of `p` with this id.
pub open spec fn sub_step(p: TopicV, id: u64) -> Result<TopicV, ErrorV> {
    let q = topic_pos(p.subs, id);
    if q < 0 {
        Err(ErrorV::NoSubTopic { topic_name: p.name, id, sub_topic_count: p.subs.len() })
    } else {
        Ok(p.subs[q])
    }
}

/// Resolving a path takes its last id among the direct sub-topics of what the
/// rest of the path resolves to.
pub proof fn lemma_resolve_within_last(t: TopicV, ids: Seq<u64>)
    requires
        ids.len() >= 1,
    ensures
        resolve_within(t, ids) == match resolve_within(t, ids.drop_last()) {
            Err(e) => Err(e),
            Ok(p) => sub_step(p, ids.last()),
        },
    decreases ids.len(),
{
    if ids.len() == 1 {
        assert(ids.drop_last() =~= Seq::<u64>::empty());
        assert(ids.drop_first() =~= Seq::<u64>::empty());
    } else {
        let q = topic_pos(t.subs, ids[0]);
        assert(ids.drop_last()[0] == ids[0]);
        assert(ids.drop_last().drop_first() =~= ids.drop_first().drop_last());
        assert(ids.drop_first().last() == ids.last());
        if q >= 0 {
            lemma_resolve_within_last(t.subs[q], ids.drop_first());
        }
    }
}

/// [`removal`] takes out exactly the topic that [`resolve`] names, and fails
/// exactly as it does.
pub proof fn lemma_removal_is_resolve(ts: Seq<TopicV>, ids: Seq<u64>)
    ensures
        removal(ts, ids) == resolve(ts, ids),
{
    if ids.len() == 1 {
        assert(ids.drop_first() =~= Seq::<u64>::empty());
    } else if ids.len() > 1 {
        let p = topic_pos(ts, ids[0]);
        assert(ids.drop_last()[0] == ids[0]);
        assert(ids.drop_last().drop_first() =~= ids.drop_first().drop_last());
        if p >= 0 {
            lemma_resolve_within_last(ts[p], ids.drop_first());
        }
    }
}

/// A topic reached by a path counts no more ideas and sub-topics than the
/// level it was reached from.
pub proof fn lemma_resolve_within_counts(t: TopicV, ids: Seq<u64>)
    requires
        resolve_within(t, ids) is Ok,
    ensures
        total_ideas(resolve_within(t, ids)->Ok_0) <= total_ideas(t),
        total_sub_topics(resolve_within(t, ids)->Ok_0) <= total_sub_topics(t),
    decreases ids.len(),
{
    if ids.len() > 0 {
        let q = topic_pos(t.subs, ids[0]);
        lemma_first_index_props(topic_ids(t.subs), ids[0]);
        lemma_level_bounds(t.subs, q);
        lemma_resolve_within_counts(t.subs[q], ids.drop_first());
    }
}

pub proof fn lemma_resolve_counts(ts: Seq<TopicV>, ids: Seq<u64>)
    requires
        resolve(ts, ids) is Ok,
    ensures
        total_ideas(resolve(ts, ids)->Ok_0) <= level_ideas(ts),
        total_sub_topics(resolve(ts, ids)->Ok_0) <= level_topics(ts),
{
    let p = topic_pos(ts, ids[0]);
    lemma_first_index_props(topic_ids(ts), ids[0]);
    lemma_level_bounds(ts, p);
    lemma_resolve_within_counts(ts[p], ids.drop_first());
}

/// What a delete did, or what it waits for.
pub enum DeleteOutcome {
    /// The idea with this id was removed from the named topic.
    IdeaDeleted { idea_id: u64, topic_name: String, idea_text: String },
    /// The topic was removed, with this many ideas and sub-topics inside it.
    TopicDeleted { name: String, idea_count: usize, sub_topic_count: usize },
    /// The topic still holds ideas or sub-topics: it is removed only once the
    /// user confirms (see [`delete_topic_at`]).
    NeedsConfirmation { name: String, idea_count: usize, sub_topic_count: usize },
}

pub enum DeleteOutcomeV {
    IdeaDeleted { idea_id: u64, topic_name: Seq<char>, idea_text: Seq<char> },
    TopicDeleted { name: Seq<char>, idea_count: nat, sub_topic_count: nat },
    NeedsConfirmation { name: Seq<char>, idea_count: nat, sub_topic_count: nat },
}

impl View for DeleteOutcome {
    type V = DeleteOutcomeV;

    open spec fn view(&self) -> DeleteOutcomeV {
        match self {
            DeleteOutcome::IdeaDeleted { idea_id, topic_name, idea_text } =>
                DeleteOutcomeV::IdeaDeleted {
                idea_id: *idea_id,
                topic_name: topic_name@,
                idea_text: idea_text@,
            },
            DeleteOutcome::TopicDeleted { name, idea_count, sub_topic_count } =>
                DeleteOutcomeV::TopicDeleted {
                name: name@,
                idea_count: *idea_count as nat,
                sub_topic_count: *sub_topic_count as nat,
            },
            DeleteOutcome::NeedsConfirmation { name, idea_count, sub_topic_count } =>
                DeleteOutcomeV::NeedsConfirmation {
                name: name@,
                idea_count: *idea_count as nat,
                sub_topic_count: *sub_topic_count as nat,
            },
        }
    }
}

/// What a topic still holds, as the question before deleting it names it:
/// its ideas, its sub-topics, or both joined by "and".
pub open spec fn held_text(idea_count: nat, sub_topic_count: nat) -> Seq<char> {
    if idea_count > 0 && sub_topic_count > 0 {
        decimal(idea_count) + " idea(s)"@ + " and "@ + decimal(sub_topic_count) + " sub-topic(s)"@
    } else if idea_count > 0 {
        decimal(idea_count) + " idea(s)"@
    } else if sub_topic_count > 0 {
        decimal(sub_topic_count) + " sub-topic(s)"@
    } else {
        Seq::empty()
    }
}

/// The line that `delete` prints for an outcome at the id chain `path`: what
/// was deleted, or the question it asks before deleting a topic that still
/// holds something.
pub open spec fn outcome_text(o: DeleteOutcomeV, path: Seq<u64>) -> Seq<char> {
    match o {
        DeleteOutcomeV::IdeaDeleted { idea_id, topic_name, idea_text } => "Deleted idea ["@
            + decimal(idea_id as nat) + "] \""@ + idea_text + "\" from topic \""@ + topic_name
            + "\"."@,
        DeleteOutcomeV::TopicDeleted { name, idea_count, sub_topic_count } => "Deleted topic \""@
            + name + "\" (id "@ + ids_text(path) + "), "@ + decimal(idea_count) + " idea(s) and "@
            + decimal(sub_topic_count) + " sub-topic(s) inside it."@,
        DeleteOutcomeV::NeedsConfirmation { name, idea_count, sub_topic_count } => "Topic \""@
            + name + "\" (id "@ + ids_text(path) + ") still has "@ + held_text(
            idea_count,
            sub_topic_count,
        ) + " in it (counting sub-topics). Delete it and everything inside?"@,
    }
}

fn push_held(s: &mut String, idea_count: usize, sub_topic_count: usize)
    ensures
        final(s)@ == old(s)@ + held_text(idea_count as nat, sub_topic_count as nat),
{
    if idea_count > 0 {
        push_decimal(s, idea_count as u64);
        s.append(" idea(s)");
    }
    if idea_count > 0 && sub_topic_count > 0 {
        s.append(" and ");
    }
    if sub_topic_count > 0 {
        push_decimal(s, sub_topic_count as u64);
        s.append(" sub-topic(s)");
    }
    assert(s@ =~= old(s)@ + held_text(idea_count as nat, sub_topic_count as nat));
}

impl DeleteOutcome {
    /// The line that `delete` prints for this outcome at the id chain `path`.
    pub fn message(&self, path: &[u64]) -> (r: String)
        ensures
            r@ == outcome_text(self@, path@),
    {
        let mut s = String::new();
        match self {
            DeleteOutcome::IdeaDeleted { idea_id, topic_name, idea_text } => {
                s.append("Deleted idea [");
                push_decimal(&mut s, *idea_id);
                s.append("] \"");
                s.append(idea_text.as_str());
                s.append("\" from topic \"");
                s.append(topic_name.as_str());
                s.append("\".");
            },
            DeleteOutcome::TopicDeleted { name, idea_count, sub_topic_count } => {
                s.append("Deleted topic \"");
                s.append(name.as_str());
                s.append("\" (id ");
                let chain = id_path_string(path);
                s.append(chain.as_str());
                s.append("), ");
                push_decimal(&mut s, *idea_count as u64);
                s.append(" idea(s) and ");
                push_decimal(&mut s, *sub_topic_count as u64);
                s.append(" sub-topic(s) inside it.");
            },
            DeleteOutcome::NeedsConfirmation { name, idea_count, sub_topic_count } => {
                s.append("Topic \"");
                s.append(name.as_str());
                s.append("\" (id ");
                let chain = id_path_string(path);
                s.append(chain.as_str());
                s.append(") still has ");
                push_held(&mut s, *idea_count, *sub_topic_count);
                s.append(" in it (counting sub-topics). Delete it and everything inside?");
            },
        }
        assert(s@ =~= outcome_text(self@, path@));
        s
    }
}

/// The line that `edit` prints after changing an idea's text.
pub open spec fn edited_text(
    idea_id: u64,
    topic_name: Seq<char>,
    old_text: Seq<char>,
    new_text: Seq<char>,
) -> Seq<char> {
    "Edited idea ["@ + decimal(idea_id as nat) + "] in topic \""@ + topic_name + "\": \""@
        + old_text + "\" -> \""@ + new_text + "\"."@
}

/// The line that `edit` prints after changing an idea's text.
pub fn edited_message(idea_id: u64, topic_name: &str, old_text: &str, new_text: &str) -> (r:
    String)
    ensures
        r@ == edited_text(idea_id, topic_name@, old_text@, new_text@),
{
    let mut s = String::new();
    s.append("Edited idea [");
    push_decimal(&mut s, idea_id);
    s.append("] in topic \"");
    s.append(topic_name);
    s.append("\": \"");
    s.append(old_text);
    s.append("\" -> \"");
    s.append(new_text);
    s.append("\".");
    assert(s@ =~= edited_text(idea_id, topic_name@, old_text@, new_text@));
    s
}

/// The line that `edit` prints after renaming the topic at `path`.
pub open spec fn renamed_text(old_name: Seq<char>, path: Seq<u64>, new_name: Seq<char>) -> Seq<
    char,
> {
    "Renamed topic \""@ + old_name + "\" (id "@ + ids_text(path) + ") to \""@ + new_name + "\"."@
}

/// The line that `edit` prints after renaming the topic at `path`.
pub fn renamed_message(old_name: &str, path: &[u64], new_name: &str) -> (r: String)
    ensures
        r@ == renamed_text(old_name@, path@, new_name@),
{
    let mut s = String::new();
    s.append("Renamed topic \"");
    s.append(old_name);
    s.append("\" (id ");
    let chain = id_path_string(path);
    s.append(chain.as_str());
    s.append(") to \"");
    s.append(new_name);
    s.append("\".");
    assert(s@ =~= renamed_text(old_name@, path@, new_name@));
    s
}

/// Deleting the topic at a path: an empty topic goes at once; one that still
/// holds ideas or sub-topics waits for confirmation.
pub open spec fn topic_step(ts: Seq<TopicV>, path: Seq<u64>) -> Result<DeleteOutcomeV, ErrorV> {
    match resolve(ts, path) {
        Err(e) => Err(e),
        Ok(t) => if total_ideas(t) == 0 && total_sub_topics(t) == 0 {
            Ok(DeleteOutcomeV::TopicDeleted { name: t.name, idea_count: 0, sub_topic_count: 0 })
        } else {
            Ok(
                DeleteOutcomeV::NeedsConfirmation {
                    name: t.name,
                    idea_count: total_ideas(t),
                    sub_topic_count: total_sub_topics(t),
                },
            )
        },
    }
}

/// The store after [`topic_step`].
pub open spec fn after_topic_step(ts: Seq<TopicV>, path: Seq<u64>) -> Seq<TopicV> {
    if topic_step(ts, path) matches Ok(DeleteOutcomeV::TopicDeleted { .. }) {
        after_removal(ts, path)
    } else {
        ts
    }
}

/// What `delete` does with an id chain: one id names a top-level topic; with
/// more, the last id is tried first as an idea directly in the topic that the
/// rest names, then as a direct sub-topic of it.
pub open spec fn delete_outcome(ts: Seq<TopicV>, ids: Seq<u64>) -> Result<DeleteOutcomeV, ErrorV> {
    if ids.len() == 1 {
        topic_step(ts, ids)
    } else {
        match resolve(ts, ids.drop_last()) {
            Err(e) => Err(e),
            Ok(par) => {
                let q = idea_pos(par.ideas, ids.last());
                if q >= 0 {
                    Ok(
                        DeleteOutcomeV::IdeaDeleted {
                            idea_id: ids.last(),
                            topic_name: par.name,
                            idea_text: par.ideas[q].text,
                        },
                    )
                } else if topic_pos(par.subs, ids.last()) >= 0 {
                    topic_step(ts, ids)
                } else {
                    Err(
                        ErrorV::NoIdeaOrSubTopic {
                            id: ids.last(),
                            topic_name: par.name,
                            idea_count: par.ideas.len(),
                            sub_topic_count: par.subs.len(),
                        },
                    )
                }
            },
        }
    }
}

/// The store after [`delete_outcome`].
pub open spec fn after_delete(ts: Seq<TopicV>, ids: Seq<u64>) -> Seq<TopicV> {
    if ids.len() == 1 {
        after_topic_step(ts, ids)
    } else {
        match resolve(ts, ids.drop_last()) {
            Err(e) => ts,
            Ok(par) => {
                let q = idea_pos(par.ideas, ids.last());
                if q >= 0 {
                    replace_at(ts, ids.drop_last(), TopicV { ideas: par.ideas.remove(q), ..par })
                } else if topic_pos(par.subs, ids.last()) >= 0 {
                    after_topic_step(ts, ids)
                } else {
                    ts
                }
            },
        }
    }
}

/// Deletes the topic at `path` if it is empty; otherwise reports what it
/// holds and leaves it for confirmation.
pub fn run_delete_topic_at(store: &mut Vec<Topic>, path: &[u64]) -> (r: Result<
    DeleteOutcome,
    IdeaError,
>)
    requires
        counts_fit(topics_view(old(store)@)),
    ensures
        match r {
            Ok(o) => topic_step(topics_view(old(store)@), path@) == Ok::<
                DeleteOutcomeV,
                ErrorV,
            >(o@),
            Err(e) => topic_step(topics_view(old(store)@), path@) == Err::<
                DeleteOutcomeV,
                ErrorV,
            >(e@),
        },
        topics_view(final(store)@) == after_topic_step(topics_view(old(store)@), path@),
{
    let ghost ts = topics_view(store@);
    let (name, idea_count, sub_topic_count) = match resolve_path(store, path) {
        Err(e) => {
            return Err(e);
        },
        Ok(t) => {
            proof {
                lemma_resolve_counts(ts, path@);
            }
            (t.name.clone(), count_ideas_recursive(t), count_sub_topics_recursive(t))
        },
    };
    if idea_count > 0 || sub_topic_count > 0 {
        return Ok(DeleteOutcome::NeedsConfirmation { name, idea_count, sub_topic_count });
    }
    proof {
        lemma_removal_is_resolve(ts, path@);
    }
    match remove_topic_at_path(store, path) {
        Ok(removed) => Ok(
            DeleteOutcome::TopicDeleted {
                name: removed.name,
                idea_count: 0,
                sub_topic_count: 0,
            },
        ),
        Err(e) => Err(e),
    }
}

/// What deleting a topic after confirmation reports.
pub open spec fn confirmed_outcome(ts: Seq<TopicV>, path: Seq<u64>) -> Result<DeleteOutcomeV, ErrorV> {
    match removal(ts, path) {
        Err(e) => Err(e),
        Ok(t) => Ok(
            DeleteOutcomeV::TopicDeleted {
                name: t.name,
                idea_count: total_ideas(t),
                sub_topic_count: total_sub_topics(t),
            },
        ),
    }
}

/// Deletes the topic at `path` with everything inside it (once confirmed),
/// reporting how many ideas and sub-topics went with it.
pub fn delete_topic_at(store: &mut Vec<Topic>, path: &[u64]) -> (r: Result<
    DeleteOutcome,
    IdeaError,
>)
    requires
        counts_fit(topics_view(old(store)@)),
    ensures
        match r {
            Ok(o) => confirmed_outcome(topics_view(old(store)@), path@) == Ok::<
                DeleteOutcomeV,
                ErrorV,
            >(o@),
            Err(e) => confirmed_outcome(topics_view(old(store)@), path@) == Err::<
                DeleteOutcomeV,
                ErrorV,
            >(e@),
        },
        topics_view(final(store)@) == after_removal(topics_view(old(store)@), path@),
{
    let ghost ts = topics_view(store@);
    proof {
        lemma_removal_is_resolve(ts, path@);
        if resolve(ts, path@) is Ok {
            lemma_resolve_counts(ts, path@);
        }
    }
    match remove_topic_at_path(store, path) {
        Ok(removed) => {
            let idea_count = count_ideas_recursive(&removed);
            let sub_topic_count = count_sub_topics_recursive(&removed);
            Ok(DeleteOutcome::TopicDeleted { name: removed.name, idea_count, sub_topic_count })
        },
        Err(e) => Err(e),
    }
}

/// `idea delete <id> [<id> ...]`: one id deletes a top-level topic; with more,
/// the last id is tried first as an idea directly in the topic that the rest
/// names, and only then as a direct sub-topic of it, which is deleted as a
/// topic (at once when empty, otherwise after confirmation).
pub fn run_delete(store: &mut Vec<Topic>, ids: &[u64]) -> (r: Result<DeleteOutcome, IdeaError>)
    requires
        ids@.len() >= 1,
        counts_fit(topics_view(old(store)@)),
    ensures
        match r {
            Ok(o) => delete_outcome(topics_view(old(store)@), ids@) == Ok::<
                DeleteOutcomeV,
                ErrorV,
            >(o@),
            Err(e) => delete_outcome(topics_view(old(store)@), ids@) == Err::<
                DeleteOutcomeV,
                ErrorV,
            >(e@),
        },
        topics_view(final(store)@) == after_delete(topics_view(old(store)@), ids@),
{
    let ghost ts = topics_view(store@);
    let n = ids.len();
    if n == 1 {
        return run_delete_topic_at(store, ids);
    }
    let parent_path = &ids[0..n - 1];
    assert(parent_path@ == ids@.drop_last());
    let last = ids[n - 1];
    let (topic_name, idea_count, sub_topic_count, is_direct_sub_topic) = match resolve_path_mut(
        store,
        parent_path,
    ) {
        Err(e) => {
            return Err(e);
        },
        Ok(topic) => {
            let ghost before = topic@;
            match delete_idea_from(topic, last) {
                Ok((topic_name, idea_text)) => {
                    return Ok(DeleteOutcome::IdeaDeleted { idea_id: last, topic_name, idea_text });
                },
                Err(_) => {},
            }
            let is_sub = find_topic_index(&topic.sub_topics, last).is_some();
            proof {
                lemma_replace_at_same(ts, parent_path@);
            }
            (topic.name.clone(), topic.ideas.len(), topic.sub_topics.len(), is_sub)
        },
    };
    if !is_direct_sub_topic {
        return Err(
            IdeaError::NoIdeaOrSubTopic { id: last, topic_name, idea_count, sub_topic_count },
        );
    }
    run_delete_topic_at(store, ids)
}

/// What `edit` is about to change, shown to the user pre-filled.
pub enum EditTarget {
    /// An idea, with its current text.
    Idea { current_text: String },
    /// A topic, with its current name.
    Topic { current_name: String },
}

pub enum EditTargetV {
    Idea { current_text: Seq<char> },
    Topic { current_name: Seq<char> },
}

impl View for EditTarget {
    type V = EditTargetV;

    open spec fn view(&self) -> EditTargetV {
        match self {
            EditTarget::Idea { current_text } => EditTargetV::Idea {
                current_text: current_text@,
            },
            EditTarget::Topic { current_name } => EditTargetV::Topic {
                current_name: current_name@,
            },
        }
    }
}

/// What `edit` with an id chain works on: one id names a top-level topic to
/// rename; with more, the last id is tried first as an idea directly in the
/// topic that the rest names, then as a direct sub-topic of it to rename.
pub open spec fn edit_target(ts: Seq<TopicV>, ids: Seq<u64>) -> Result<EditTargetV, ErrorV> {
    if ids.len() == 1 {
        match resolve(ts, ids) {
            Err(e) => Err(e),
            Ok(t) => Ok(EditTargetV::Topic { current_name: t.name }),
        }
    } else {
        match resolve(ts, ids.drop_last()) {
            Err(e) => Err(e),
            Ok(par) => {
                let q = idea_pos(par.ideas, ids.last());
                let s = topic_pos(par.subs, ids.last());
                if q >= 0 {
                    Ok(EditTargetV::Idea { current_text: par.ideas[q].text })
                } else if s >= 0 {
                    Ok(EditTargetV::Topic { current_name: par.subs[s].name })
                } else {
                    Err(
                        ErrorV::NoIdeaOrSubTopic {
                            id: ids.last(),
                            topic_name: par.name,
                            idea_count: par.ideas.len(),
                            sub_topic_count: par.subs.len(),
                        },
                    )
                }
            },
        }
    }
}

/// Finds what `idea edit <id> [<id> ...]` changes (see [`edit_target`]).
pub fn plan_edit(store: &Vec<Topic>, ids: &[u64]) -> (r: Result<EditTarget, IdeaError>)
    requires
        ids@.len() >= 1,
    ensures
        match r {
            Ok(t) => edit_target(topics_view(store@), ids@) == Ok::<EditTargetV, ErrorV>(t@),
            Err(e) => edit_target(topics_view(store@), ids@) == Err::<EditTargetV, ErrorV>(e@),
        },
{
    let ghost ts = topics_view(store@);
    let n = ids.len();
    if n == 1 {
        return match resolve_path(store, ids) {
            Err(e) => Err(e),
            Ok(t) => Ok(EditTarget::Topic { current_name: t.name.clone() }),
        };
    }
    let parent_path = &ids[0..n - 1];
    assert(parent_path@ == ids@.drop_last());
    let last = ids[n - 1];
    match resolve_path(store, parent_path) {
        Err(e) => Err(e),
        Ok(topic) => {
            proof {
                crate::model::lemma_topics_view(topic.sub_topics@);
            }
            match find_idea_index(&topic.ideas, last) {
                Some(q) => Ok(EditTarget::Idea { current_text: topic.ideas[q].text.clone() }),
                None => match find_topic_index(&topic.sub_topics, last) {
                    Some(s) => Ok(EditTarget::Topic { current_name: topic.sub_topics[s].name.clone() }),
                    None => Err(
                        IdeaError::NoIdeaOrSubTopic {
                            id: last,
                            topic_name: topic.name.clone(),
                            idea_count: topic.ideas.len(),
                            sub_topic_count: topic.sub_topics.len(),
                        },
                    ),
                },
            }
        },
    }
}

/// The text that the user's edit leaves, if any: `None` when the edit was
/// cancelled or left nothing but whitespace.
pub fn accept_edit(input: Option<String>) -> (r: Option<String>)
    ensures
        match input {
            Some(t) => if blank(t@) {
                r is None
            } else {
                r == Some(t)
            },
            None => r is None,
        },
{
    match input {
        Some(t) => {
            if is_blank(t.as_str()) {
                None
            } else {
                Some(t)
            }
        },
        None => None,
    }
}

/// An answer to a yes/no question that means yes: once trimmed and
/// lowercased it reads `y` or `yes`.
pub open spec fn answer_is_yes(answer: Seq<char>) -> bool {
    lowercase(trimmed(answer)) == "y"@ || lowercase(trimmed(answer)) == "yes"@
}

/// Whether the answer to a yes/no question (such as the one `delete` asks
/// before removing a topic that still holds something) means yes.
pub fn is_yes(answer: &str) -> (r: bool)
    ensures
        r == answer_is_yes(answer@),
        is_ascii_text(trimmed(answer@)) ==> r == (ascii_lower(trimmed(answer@)) == "y"@
            || ascii_lower(trimmed(answer@)) == "yes"@),
{
    let t = trim(answer);
    let l = to_lowercase(t);
    text_eq(l.as_str(), "y") || text_eq(l.as_str(), "yes")
}

/// Renames the topic at `path`; returns its old name.
pub fn rename_topic_at(store: &mut Vec<Topic>, path: &[u64], new_name: &str) -> (r: Result<
    String,
    IdeaError,
>)
    ensures
        match r {
            Ok(old_name) => {
                &&& resolve(topics_view(old(store)@), path@) is Ok
                &&& old_name@ == resolve(topics_view(old(store)@), path@)->Ok_0.name
                &&& topics_view(final(store)@) == replace_at(
                    topics_view(old(store)@),
                    path@,
                    TopicV { name: new_name@, ..resolve(topics_view(old(store)@), path@)->Ok_0 },
                )
            },
            Err(e) => {
                &&& resolve(topics_view(old(store)@), path@) == Err::<TopicV, ErrorV>(e@)
                &&& topics_view(final(store)@) == topics_view(old(store)@)
            },
        },
{
    match resolve_path_mut(store, path) {
        Err(e) => Err(e),
        Ok(topic) => Ok(rename_topic(topic, new_name)),
    }
}

/// Replaces the text of idea `idea_id` in the topic at `parent_path`; returns
/// the topic's name and the idea's old text.
pub fn edit_idea_at(store: &mut Vec<Topic>, parent_path: &[u64], idea_id: u64, new_text: &str) -> (r:
    Result<(String, String), IdeaError>)
    ensures
        match resolve(topics_view(old(store)@), parent_path@) {
            Err(e) => r == Err::<(String, String), IdeaError>(r->Err_0) && r->Err_0@ == e
                && topics_view(final(store)@) == topics_view(old(store)@),
            Ok(par) => {
                let q = idea_pos(par.ideas, idea_id);
                if q < 0 {
                    &&& r is Err
                    &&& r->Err_0@ == crate::tree::no_idea(par, idea_id)
                    &&& topics_view(final(store)@) == topics_view(old(store)@)
                } else {
                    &&& r is Ok
                    &&& r->Ok_0.0@ == par.name
                    &&& r->Ok_0.1@ == par.ideas[q].text
                    &&& topics_view(final(store)@) == replace_at(
                        topics_view(old(store)@),
                        parent_path@,
                        TopicV {
                            ideas: par.ideas.update(
                                q,
                                crate::model::IdeaV { id: idea_id, text: new_text@ },
                            ),
                            ..par
                        },
                    )
                }
            },
        },
{
    let ghost ts = topics_view(store@);
    match resolve_path_mut(store, parent_path) {
        Err(e) => Err(e),
        Ok(topic) => {
            let r = edit_idea_in(topic, idea_id, new_text);
            proof {
                if r is Err {
                    lemma_replace_at_same(ts, parent_path@);
                }
            }
            r
        },
    }
}

} // verus!
