use vstd::prelude::*;
use crate::model::{
    Idea, IdeaV, Topic, TopicV, ideas_view, topics_view, lemma_topics_view,
    lemma_topics_view_auto,
};
use crate::text::{
    parse_u64, parse_u64_value, lowercase, to_lowercase, occurs_in, contains_str, decimal, ids_text,
    push_decimal, id_path_string, is_ascii_text, ascii_lower,
};

verus! {

broadcast use lemma_topics_view_auto;

/// Whether a topic matches a search selector: `0` matches every topic, any
/// other number matches the topics with that local id, anything else is a
/// case-insensitive substring of the topic's name.
pub open spec fn selector_matches(sel: Seq<char>, t: TopicV) -> bool {
    match parse_u64_value(sel) {
        Some(n) => n == 0 || n == t.id,
        None => occurs_in(lowercase(sel), lowercase(t.name)),
    }
}

/// Decides whether a topic matches a search selector (see [`selector_matches`]).
pub fn matches_topic_selector(selector: &str, topic: &Topic) -> (r: bool)
    ensures
        r == selector_matches(selector@, topic@),
        parse_u64_value(selector@) is None && is_ascii_text(selector@) && is_ascii_text(
            topic.name@,
        ) ==> r == occurs_in(ascii_lower(selector@), ascii_lower(topic.name@)),
{
    match parse_u64(selector) {
        Some(0) => true,
        Some(n) => n == topic.id,
        None => {
            let name = to_lowercase(topic.name.as_str());
            let sel = to_lowercase(selector);
            contains_str(name.as_str(), sel.as_str())
        },
    }
}

/// `text` contains `query`, ignoring case.
pub open spec fn text_matches(query: Seq<char>, text: Seq<char>) -> bool {
    occurs_in(lowercase(query), lowercase(text))
}

/// Whether an idea is listed under a topic: with a selector and an optional
/// idea filter (`all` false), the topic must match and the idea's text must
/// contain the filter; with a single query (`all` true, the query being `sel`),
/// either the topic matches or the idea's text contains the query.
pub open spec fn idea_listed(
    sel: Seq<char>,
    query: Option<Seq<char>>,
    all: bool,
    topic_ok: bool,
    i: IdeaV,
) -> bool {
    if all {
        topic_ok || text_matches(sel, i.text)
    } else {
        topic_ok && match query {
            Some(q) => text_matches(q, i.text),
            None => true,
        }
    }
}

/// The ideas of a topic that are listed, in order.
pub open spec fn listed_ideas(
    is: Seq<IdeaV>,
    sel: Seq<char>,
    query: Option<Seq<char>>,
    all: bool,
    topic_ok: bool,
) -> Seq<IdeaV>
    decreases is.len(),
{
    if is.len() == 0 {
        Seq::empty()
    } else {
        let prev = listed_ideas(is.drop_last(), sel, query, all, topic_ok);
        if idea_listed(sel, query, all, topic_ok, is.last()) {
            prev.push(is.last())
        } else {
            prev
        }
    }
}

/// One block of output: a topic, its full id chain, and the ideas listed under it.
pub struct TopicBlock {
    pub path: Vec<u64>,
    pub name: String,
    pub ideas: Vec<Idea>,
}

/// The mathematical value of a [`TopicBlock`].
pub struct HitV {
    pub path: Seq<u64>,
    pub name: Seq<char>,
    pub ideas: Seq<IdeaV>,
}

impl View for TopicBlock {
    type V = HitV;

    open spec fn view(&self) -> HitV {
        HitV { path: self.path@, name: self.name@, ideas: ideas_view(self.ideas@) }
    }
}

pub open spec fn hits_view(s: Seq<TopicBlock>) -> Seq<HitV> {
    s.map_values(|h: TopicBlock| h@)
}

/// `depth` levels of indentation, two spaces each.
pub open spec fn indentation(depth: nat) -> Seq<char>
    decreases depth,
{
    if depth == 0 {
        Seq::empty()
    } else {
        indentation((depth - 1) as nat) + "  "@
    }
}

/// How deep a block stands: 0 for a top-level topic, one more per level.
pub open spec fn block_depth(b: HitV) -> nat {
    if b.path.len() == 0 {
        0
    } else {
        (b.path.len() - 1) as nat
    }
}

/// The header line of a block: indented by its depth, with the topic's full
/// id chain and its name.
pub open spec fn header_text(b: HitV) -> Seq<char> {
    indentation(block_depth(b)) + "=== TOPIC "@ + ids_text(b.path) + ": "@ + b.name + " ==="@
}

/// The line of one idea in a block at this depth: its id in brackets, then
/// its text.
pub open spec fn idea_line_text(depth: nat, i: IdeaV) -> Seq<char> {
    indentation(depth) + " ["@ + decimal(i.id as nat) + "] "@ + i.text
}

fn push_indentation(s: &mut String, depth: usize)
    ensures
        final(s)@ == old(s)@ + indentation(depth as nat),
{
    let mut k: usize = 0;
    while k < depth
        invariant
            0 <= k <= depth,
            s@ == old(s)@ + indentation(k as nat),
        decreases depth - k,
    {
        s.append("  ");
        assert(s@ =~= old(s)@ + indentation((k + 1) as nat));
        k += 1;
    }
}

impl TopicBlock {
    fn depth(&self) -> (r: usize)
        ensures
            r == block_depth(self@),
    {
        if self.path.len() == 0 {
            0
        } else {
            self.path.len() - 1
        }
    }

    /// The block's header line, as `list` and `search` print it.
    pub fn header(&self) -> (r: String)
        ensures
            r@ == header_text(self@),
    {
        let mut s = String::new();
        push_indentation(&mut s, self.depth());
        s.append("=== TOPIC ");
        let chain = id_path_string(self.path.as_slice());
        s.append(chain.as_str());
        s.append(": ");
        s.append(self.name.as_str());
        s.append(" ===");
        assert(s@ =~= header_text(self@));
        s
    }

    /// The lines of the block's ideas, in order, as `list` and `search`
    /// print them under the header.
    pub fn idea_lines(&self) -> (r: Vec<String>)
        ensures
            r@.len() == self.ideas@.len(),
            forall|i: int|
                0 <= i < r@.len() ==> #[trigger] r@[i]@ == idea_line_text(
                    block_depth(self@),
                    self@.ideas[i],
                ),
    {
        let depth = self.depth();
        let mut out: Vec<String> = Vec::new();
        let mut i: usize = 0;
        while i < self.ideas.len()
            invariant
                0 <= i <= self.ideas@.len(),
                depth == block_depth(self@),
                out@.len() == i,
                forall|j: int|
                    0 <= j < i ==> #[trigger] out@[j]@ == idea_line_text(
                        block_depth(self@),
                        self@.ideas[j],
                    ),
            decreases self.ideas@.len() - i,
        {
            let idea = &self.ideas[i];
            let mut s = String::new();
            push_indentation(&mut s, depth);
            s.append(" [");
            push_decimal(&mut s, idea.id);
            s.append("] ");
            s.append(idea.text.as_str());
            assert(self@.ideas[i as int] == idea@);
            assert(s@ =~= idea_line_text(block_depth(self@), self@.ideas[i as int]));
            out.push(s);
            i += 1;
        }
        out
    }
}

/// What searching a topic and everything beneath it lists, depth first: a
/// topic matches on its own or by inheriting a match from an ancestor; a
/// topic with at least one listed idea gives a block; the walk always goes on
/// into the sub-topics.
pub open spec fn search_topic(
    t: TopicV,
    sel: Seq<char>,
    query: Option<Seq<char>>,
    all: bool,
    inherited: bool,
    path: Seq<u64>,
) -> Seq<HitV>
    decreases t,
{
    let m = inherited || selector_matches(sel, t);
    let p = path.push(t.id);
    let ideas = listed_ideas(t.ideas, sel, query, all, m);
    let own = if ideas.len() > 0 {
        seq![HitV { path: p, name: t.name, ideas }]
    } else {
        Seq::empty()
    };
    own + search_level(t.subs, sel, query, all, m, p)
}

/// [`search_topic`] over a level of topics, in order.
pub open spec fn search_level(
    ts: Seq<TopicV>,
    sel: Seq<char>,
    query: Option<Seq<char>>,
    all: bool,
    inherited: bool,
    path: Seq<u64>,
) -> Seq<HitV>
    decreases ts,
{
    if ts.len() == 0 {
        Seq::empty()
    } else {
        search_level(ts.subrange(0, ts.len() - 1), sel, query, all, inherited, path) + search_topic(
            ts[ts.len() - 1],
            sel,
            query,
            all,
            inherited,
            path,
        )
    }
}

fn copy_idea(i: &Idea) -> (r: Idea)
    ensures
        r@ == i@,
{
    Idea { id: i.id, text: i.text.clone() }
}

fn copy_path(p: &Vec<u64>) -> (r: Vec<u64>)
    ensures
        r@ == p@,
{
    let mut out: Vec<u64> = Vec::new();
    let mut i: usize = 0;
    while i < p.len()
        invariant
            0 <= i <= p@.len(),
            out@ == p@.take(i as int),
        decreases p@.len() - i,
    {
        out.push(p[i]);
        assert(p@.take(i + 1) =~= p@.take(i as int).push(p@[i as int]));
        i += 1;
    }
    assert(p@.take(p@.len() as int) =~= p@);
    out
}

fn idea_is_listed(
    selector: &str,
    query: Option<&str>,
    all: bool,
    topic_ok: bool,
    idea: &Idea,
) -> (r: bool)
    ensures
        r == idea_listed(
            selector@,
            match query {
                Some(q) => Some(q@),
                None => None,
            },
            all,
            topic_ok,
            idea@,
        ),
{
    if all {
        if topic_ok {
            return true;
        }
        let text = to_lowercase(idea.text.as_str());
        let q = to_lowercase(selector);
        contains_str(text.as_str(), q.as_str())
    } else {
        if !topic_ok {
            return false;
        }
        match query {
            None => true,
            Some(qs) => {
                let text = to_lowercase(idea.text.as_str());
                let q = to_lowercase(qs);
                contains_str(text.as_str(), q.as_str())
            },
        }
    }
}

pub open spec fn query_view(q: Option<&str>) -> Option<Seq<char>> {
    match q {
        Some(s) => Some(s@),
        None => None,
    }
}

/// Walks `topics` and everything beneath them depth first, appending to
/// `hits` a block for every topic with listed ideas (see [`search_topic`]).
/// `path` holds the id chain of the level's parent and is left as it was.
pub fn search_recursive(
    topics: &Vec<Topic>,
    selector: &str,
    query: Option<&str>,
    all: bool,
    inherited: bool,
    path: &mut Vec<u64>,
    hits: &mut Vec<TopicBlock>,
)
    ensures
        final(path)@ == old(path)@,
        hits_view(final(hits)@) == hits_view(old(hits)@) + search_level(
            topics_view(topics@),
            selector@,
            query_view(query),
            all,
            inherited,
            old(path)@,
        ),
    decreases topics_view(topics@),
{
    let ghost ts = topics_view(topics@);
    let ghost path0 = path@;
    let ghost hits0 = hits_view(hits@);
    let n = topics.len();
    let mut k: usize = 0;
    while k < n
        invariant
            n == topics@.len(),
            ts == topics_view(topics@),
            0 <= k <= n,
            path@ == path0,
            hits_view(hits@) == hits0 + search_level(
                ts.subrange(0, k as int),
                selector@,
                query_view(query),
                all,
                inherited,
                path0,
            ),
        decreases n - k,
    {
        proof {
            lemma_topics_view(topics@);
        }
        let topic = &topics[k];
        assert(topic@ == ts[k as int]);
        let m = inherited || matches_topic_selector(selector, topic);
        path.push(topic.id);
        let ghost p = path@;
        let mut listed: Vec<Idea> = Vec::new();
        let mut j: usize = 0;
        while j < topic.ideas.len()
            invariant
                0 <= j <= topic.ideas@.len(),
                ideas_view(listed@) == listed_ideas(
                    ideas_view(topic.ideas@).take(j as int),
                    selector@,
                    query_view(query),
                    all,
                    m,
                ),
            decreases topic.ideas@.len() - j,
        {
            let ghost before = listed@;
            assert(ideas_view(topic.ideas@).take(j + 1).drop_last() =~= ideas_view(
                topic.ideas@,
            ).take(j as int));
            if idea_is_listed(selector, query, all, m, &topic.ideas[j]) {
                listed.push(copy_idea(&topic.ideas[j]));
                assert(ideas_view(listed@) =~= ideas_view(before).push(topic.ideas@[j as int]@));
            }
            j += 1;
        }
        assert(ideas_view(topic.ideas@).take(topic.ideas@.len() as int) =~= ideas_view(
            topic.ideas@,
        ));
        let ghost h1 = hits_view(hits@);
        if listed.len() > 0 {
            let hit = TopicBlock { path: copy_path(path), name: topic.name.clone(), ideas: listed };
            hits.push(hit);
            assert(hits_view(hits@) =~= h1.push(hit@));
        }
        assert(decreases_to!(ts => ts[k as int].subs));
        search_recursive(&topic.sub_topics, selector, query, all, m, path, hits);
        path.pop();
        assert(path@ =~= path0);
        proof {
            assert(ts.subrange(0, k + 1).subrange(0, k as int) =~= ts.subrange(0, k as int));
            assert(ts.subrange(0, k + 1)[k as int] == ts[k as int]);
        }
        let ghost lvl = search_level(ts.subrange(0, k as int), selector@, query_view(query), all, inherited, path0);
        let ghost st = search_topic(ts[k as int], selector@, query_view(query), all, inherited, path0);
        assert(search_level(ts.subrange(0, k + 1), selector@, query_view(query), all, inherited, path0) == lvl + st);
        assert(p == path0.push(ts[k as int].id));
        assert(m == (inherited || selector_matches(selector@, ts[k as int])));
        assert(ts[k as int].subs == topics_view(topic.sub_topics@));
        assert(hits_view(hits@) =~= hits0 + search_level(
            ts.subrange(0, k + 1),
            selector@,
            query_view(query),
            all,
            inherited,
            path0,
        ));
        k += 1;
    }
    assert(ts.subrange(0, n as int) =~= ts);
}

/// Searches with a topic selector and an optional idea filter: the listed
/// ideas are those of matching topics (and their descendants) whose text
/// contains the filter, ignoring case.
pub fn search_ideas(store: &Vec<Topic>, topic_selector: &str, idea_query: Option<&str>) -> (hits:
    Vec<TopicBlock>)
    ensures
        hits_view(hits@) == search_level(
            topics_view(store@),
            topic_selector@,
            query_view(idea_query),
            false,
            false,
            Seq::empty(),
        ),
{
    let mut hits: Vec<TopicBlock> = Vec::new();
    let mut path: Vec<u64> = Vec::new();
    assert(hits_view(hits@) =~= Seq::<HitV>::empty());
    search_recursive(store, topic_selector, idea_query, false, false, &mut path, &mut hits);
    assert(hits_view(hits@) =~= search_level(
        topics_view(store@),
        topic_selector@,
        query_view(idea_query),
        false,
        false,
        Seq::empty(),
    ));
    hits
}

/// Searches topics and ideas at once: a matching topic (and its descendants)
/// has all its ideas listed, and any idea whose text contains the query is
/// listed wherever it is.
pub fn search_all(store: &Vec<Topic>, query: &str) -> (hits: Vec<TopicBlock>)
    ensures
        hits_view(hits@) == search_level(
            topics_view(store@),
            query@,
            None,
            true,
            false,
            Seq::empty(),
        ),
{
    let mut hits: Vec<TopicBlock> = Vec::new();
    let mut path: Vec<u64> = Vec::new();
    assert(hits_view(hits@) =~= Seq::<HitV>::empty());
    search_recursive(store, query, None, true, false, &mut path, &mut hits);
    assert(hits_view(hits@) =~= search_level(
        topics_view(store@),
        query@,
        None,
        true,
        false,
        Seq::empty(),
    ));
    hits
}


/// Everything in a topic and beneath it, depth first: a block for the topic
/// with all its ideas, then the blocks of its sub-topics.
pub open spec fn list_topic(t: TopicV, path: Seq<u64>) -> Seq<HitV>
    decreases t,
{
    let p = path.push(t.id);
    seq![HitV { path: p, name: t.name, ideas: t.ideas }] + list_level(t.subs, p)
}

/// [`list_topic`] over a level of topics, in order.
pub open spec fn list_level(ts: Seq<TopicV>, path: Seq<u64>) -> Seq<HitV>
    decreases ts,
{
    if ts.len() == 0 {
        Seq::empty()
    } else {
        list_level(ts.subrange(0, ts.len() - 1), path) + list_topic(ts[ts.len() - 1], path)
    }
}

/// Every topic of a level gives at least one block.
pub proof fn lemma_list_level_len(ts: Seq<TopicV>, path: Seq<u64>)
    ensures
        list_level(ts, path).len() >= ts.len(),
    decreases ts.len(),
{
    if ts.len() > 0 {
        let t = ts[ts.len() - 1];
        lemma_list_level_len(ts.subrange(0, ts.len() - 1), path);
        assert(list_topic(t, path).len() >= 1);
        assert(list_level(ts, path) == list_level(ts.subrange(0, ts.len() - 1), path) + list_topic(
            t,
            path,
        ));
    }
}

fn copy_ideas(v: &Vec<Idea>) -> (r: Vec<Idea>)
    ensures
        ideas_view(r@) == ideas_view(v@),
{
    let mut out: Vec<Idea> = Vec::new();
    let mut i: usize = 0;
    while i < v.len()
        invariant
            0 <= i <= v@.len(),
            ideas_view(out@) == ideas_view(v@).take(i as int),
        decreases v@.len() - i,
    {
        let ghost before = out@;
        out.push(copy_idea(&v[i]));
        assert(ideas_view(out@) =~= ideas_view(before).push(v@[i as int]@));
        assert(ideas_view(v@).take(i + 1) =~= ideas_view(v@).take(i as int).push(v@[i as int]@));
        i += 1;
    }
    assert(ideas_view(v@).take(v@.len() as int) =~= ideas_view(v@));
    out
}

/// Appends to `blocks` a block for every topic in `topics` and beneath them,
/// depth first; `path` holds the id chain of the level's parent and is left
/// as it was.
pub fn list_recursive(topics: &Vec<Topic>, path: &mut Vec<u64>, blocks: &mut Vec<TopicBlock>)
    ensures
        final(path)@ == old(path)@,
        hits_view(final(blocks)@) == hits_view(old(blocks)@) + list_level(
            topics_view(topics@),
            old(path)@,
        ),
    decreases topics_view(topics@),
{
    let ghost ts = topics_view(topics@);
    let ghost path0 = path@;
    let ghost b0 = hits_view(blocks@);
    let n = topics.len();
    let mut k: usize = 0;
    while k < n
        invariant
            n == topics@.len(),
            ts == topics_view(topics@),
            0 <= k <= n,
            path@ == path0,
            hits_view(blocks@) == b0 + list_level(ts.subrange(0, k as int), path0),
        decreases n - k,
    {
        proof {
            lemma_topics_view(topics@);
        }
        let topic = &topics[k];
        assert(topic@ == ts[k as int]);
        path.push(topic.id);
        let ghost p = path@;
        let ghost b1 = hits_view(blocks@);
        let block = TopicBlock {
            path: copy_path(path),
            name: topic.name.clone(),
            ideas: copy_ideas(&topic.ideas),
        };
        blocks.push(block);
        assert(hits_view(blocks@) =~= b1.push(block@));
        assert(decreases_to!(ts => ts[k as int].subs));
        list_recursive(&topic.sub_topics, path, blocks);
        path.pop();
        assert(path@ =~= path0);
        proof {
            assert(ts.subrange(0, k + 1).subrange(0, k as int) =~= ts.subrange(0, k as int));
            assert(ts.subrange(0, k + 1)[k as int] == ts[k as int]);
        }
        let ghost lvl = list_level(ts.subrange(0, k as int), path0);
        assert(list_level(ts.subrange(0, k + 1), path0) == lvl + list_topic(ts[k as int], path0));
        assert(p == path0.push(ts[k as int].id));
        assert(ts[k as int].subs == topics_view(topic.sub_topics@));
        assert(hits_view(blocks@) =~= b0 + list_level(ts.subrange(0, k + 1), path0));
        k += 1;
    }
    assert(ts.subrange(0, n as int) =~= ts);
}

/// Every topic of the store and everything under it, depth first, each block
/// with the topic's full id chain (what `edit`/`delete` take to reach it).
pub fn list_ideas(store: &Vec<Topic>) -> (blocks: Vec<TopicBlock>)
    ensures
        hits_view(blocks@) == list_level(topics_view(store@), Seq::empty()),
        blocks@.len() == 0 <==> store@.len() == 0,
{
    proof {
        lemma_list_level_len(topics_view(store@), Seq::empty());
    }
    let mut blocks: Vec<TopicBlock> = Vec::new();
    let mut path: Vec<u64> = Vec::new();
    assert(hits_view(blocks@) =~= Seq::<HitV>::empty());
    list_recursive(store, &mut path, &mut blocks);
    assert(hits_view(blocks@) =~= list_level(topics_view(store@), Seq::empty()));
    blocks
}

} // verus!
