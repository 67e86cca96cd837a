use vstd::prelude::*;
use crate::report::{
    selector_matches, list_level, list_topic, HitV, text_matches, idea_listed, listed_ideas,
};
use crate::flow::{
    topic_step, after_topic_step, delete_outcome, after_delete, edit_target, DeleteOutcomeV,
    EditTargetV,
};
use crate::counts::{total_ideas, total_sub_topics, level_topics};
use crate::command::{command_of, CommandV};
use crate::text::{
    decimal, digit_char, digits_value, is_digit, parse_u64_value, unsigned_digits, ids_text,
    split_spaces, lowercase, ascii_lower, occurs_in,
};
use crate::command::{id_value, id_path_value};
use crate::defrag::{
    insert_by_key, sort_by_key, defragged, defrag_topic, defrag_each, renumber_ideas,
    renumber_topics, idea_id_key, topic_id_key, lemma_defrag_each,
};
use crate::model::{
    max_of, IdeaV, TopicV, Topic, topics_view, lemma_topics_view, first_index, is_first_index,
    lemma_first_index, lemma_first_index_props,
};
use crate::tree::{
    topic_pos, topic_ids, idea_pos, idea_ids, resolve, resolve_within, with_subs, replace_at,
    replace_within, removal, after_removal,
};
use crate::chain::{
    name_pos, topic_names, chain_base, chain_end, chain_set, chain_events,
    after_add_topic_chain, after_add_idea, with_idea, idea_target, idea_target_ids, ids_value,
};

verus! {

proof fn lemma_decimal_digits(n: nat)
    ensures
        decimal(n).len() > 0,
        forall|i: int| 0 <= i < decimal(n).len() ==> is_digit(#[trigger] decimal(n)[i]),
        digits_value(decimal(n)) == n,
    decreases n,
{
    if n < 10 {
        assert(digit_char(n) as int == n + 48);
        assert(seq![digit_char(n)].drop_last() =~= Seq::<char>::empty());
        assert(digits_value(Seq::<char>::empty()) == 0);
        assert(digits_value(seq![digit_char(n)]) == n);
    } else {
        lemma_decimal_digits(n / 10);
        let d = decimal(n / 10);
        assert(decimal(n) == d.push(digit_char(n % 10)));
        assert(digit_char(n % 10) as int == n % 10 + 48);
        assert(d.push(digit_char(n % 10)).drop_last() =~= d);
        assert((n / 10) * 10 + n % 10 == n) by (nonlinear_arith);
        assert(digits_value(decimal(n)) == digits_value(d) * 10 + n % 10);
        assert forall|i: int| 0 <= i < decimal(n).len() implies is_digit(
            #[trigger] decimal(n)[i],
        ) by {
            if i < d.len() {
                assert(decimal(n)[i] == d[i]);
            }
        }
    }
}

/// The decimal text that the library writes for an id reads back as that id.
pub proof fn law_decimal_reads_back(n: u64)
    ensures
        parse_u64_value(decimal(n as nat)) == Some(n),
        n > 0 ==> id_value(decimal(n as nat)) == Some(n),
{
    lemma_decimal_digits(n as nat);
    assert(is_digit(decimal(n as nat)[0]));
    assert(unsigned_digits(decimal(n as nat)) == decimal(n as nat));
}

/// An id chain written out id by id (as `list` shows it) reads back as the
/// same chain, as long as every id is positive.
pub proof fn law_id_chain_reads_back(path: Seq<u64>)
    requires
        forall|i: int| 0 <= i < path.len() ==> #[trigger] path[i] > 0,
    ensures
        id_path_value(path.map_values(|n: u64| decimal(n as nat))) == Ok::<Seq<u64>, Seq<char>>(
            path,
        ),
    decreases path.len(),
{
    let texts = path.map_values(|n: u64| decimal(n as nat));
    if path.len() > 0 {
        law_id_chain_reads_back(path.drop_last());
        assert(texts.drop_last() =~= path.drop_last().map_values(|n: u64| decimal(n as nat)));
        assert(path[path.len() - 1] > 0);
        law_decimal_reads_back(path.last());
        assert(path.drop_last().push(path.last()) =~= path);
    } else {
        assert(path =~= Seq::<u64>::empty());
    }
}


proof fn lemma_split_len(s: Seq<char>)
    ensures
        split_spaces(s).len() >= 1,
    decreases s.len(),
{
    if s.len() > 0 {
        lemma_split_len(s.drop_last());
    }
}

/// Appending text without spaces only lengthens the last piece.
proof fn lemma_split_append(a: Seq<char>, b: Seq<char>)
    requires
        forall|i: int| 0 <= i < b.len() ==> #[trigger] b[i] != ' ',
    ensures
        split_spaces(a + b) == split_spaces(a).update(
            split_spaces(a).len() - 1,
            split_spaces(a).last() + b,
        ),
    decreases b.len(),
{
    let sa = split_spaces(a);
    lemma_split_len(a);
    if b.len() == 0 {
        assert(a + b =~= a);
        assert(sa.last() + b =~= sa.last());
        assert(sa.update(sa.len() - 1, sa.last() + b) =~= sa);
    } else {
        let c = a + b;
        let bd = b.drop_last();
        assert(c.drop_last() =~= a + bd);
        assert(c.last() == b[b.len() - 1]);
        lemma_split_append(a, bd);
        let prev = split_spaces(a + bd);
        assert(prev.last() == sa.last() + bd);
        assert((sa.last() + bd).push(b.last()) =~= sa.last() + b);
        assert(split_spaces(c) =~= sa.update(sa.len() - 1, sa.last() + b));
    }
}

proof fn lemma_decimal_has_no_space(n: nat)
    ensures
        forall|i: int| 0 <= i < decimal(n).len() ==> #[trigger] decimal(n)[i] != ' ',
{
    lemma_decimal_digits(n);
    assert forall|i: int| 0 <= i < decimal(n).len() implies #[trigger] decimal(n)[i] != ' ' by {
        assert(is_digit(decimal(n)[i]));
    }
}

/// The printed chain splits at its spaces into the ids' decimal texts.
proof fn lemma_split_ids_text(path: Seq<u64>)
    requires
        path.len() >= 1,
    ensures
        split_spaces(ids_text(path)) == path.map_values(|n: u64| decimal(n as nat)),
    decreases path.len(),
{
    let last = decimal(path.last() as nat);
    lemma_decimal_has_no_space(path.last() as nat);
    if path.len() == 1 {
        let e = Seq::<char>::empty();
        lemma_split_append(e, last);
        assert(e + last =~= last);
        assert(split_spaces(e) == seq![e]);
        assert(e + last =~= last);
        assert(split_spaces(ids_text(path)) =~= path.map_values(|n: u64| decimal(n as nat)));
    } else {
        let dl = path.drop_last();
        lemma_split_ids_text(dl);
        let a = ids_text(dl) + seq![' '];
        assert(a.drop_last() =~= ids_text(dl));
        assert(split_spaces(a) == split_spaces(ids_text(dl)).push(Seq::<char>::empty()));
        lemma_split_append(a, last);
        assert(ids_text(path) == a + last);
        assert(Seq::<char>::empty() + last =~= last);
        assert(dl.map_values(|n: u64| decimal(n as nat)).push(last) =~= path.map_values(
            |n: u64| decimal(n as nat),
        ));
        assert(split_spaces(ids_text(path)) =~= path.map_values(|n: u64| decimal(n as nat)));
    }
}

/// An id chain as `list` prints it, split at its spaces the way the words of
/// a command line come, reads back as the same chain: as the ids of `edit`
/// and `delete`, and as the all-number topic path of a new idea.
pub proof fn law_printed_chain_reads_back(path: Seq<u64>)
    requires
        path.len() >= 1,
        forall|i: int| 0 <= i < path.len() ==> #[trigger] path[i] > 0,
    ensures
        split_spaces(ids_text(path)) == path.map_values(|n: u64| decimal(n as nat)),
        id_path_value(split_spaces(ids_text(path))) == Ok::<Seq<u64>, Seq<char>>(path),
        ids_value(split_spaces(ids_text(path))) == Some(path),
{
    lemma_split_ids_text(path);
    law_id_chain_reads_back(path);
    let words = path.map_values(|n: u64| decimal(n as nat));
    assert forall|i: int| 0 <= i < words.len() implies (#[trigger] parse_u64_value(words[i]) matches Some(
        n,
    ) && n > 0) by {
        law_decimal_reads_back(path[i]);
    }
    assert forall|i: int| 0 <= i < words.len() implies parse_u64_value(words[i])->Some_0
        == path[i] by {
        law_decimal_reads_back(path[i]);
    }
    assert(Seq::new(words.len(), |i: int| parse_u64_value(words[i])->Some_0) =~= path);
}

proof fn lemma_resolve_within_last_id(t: TopicV, ids: Seq<u64>)
    requires
        ids.len() >= 1,
        resolve_within(t, ids) is Ok,
    ensures
        (resolve_within(t, ids)->Ok_0).id == ids.last(),
    decreases ids.len(),
{
    let q = topic_pos(t.subs, ids[0]);
    lemma_first_index_props(topic_ids(t.subs), ids[0]);
    if ids.len() == 1 {
        assert(ids.drop_first() =~= Seq::<u64>::empty());
    } else {
        assert(ids.drop_first().last() == ids.last());
        lemma_resolve_within_last_id(t.subs[q], ids.drop_first());
    }
}

/// An id chain always lands on a topic that carries its last id, one level
/// per id: never a topic at another depth.
pub proof fn law_resolve_lands_on_last_id(ts: Seq<TopicV>, ids: Seq<u64>)
    requires
        resolve(ts, ids) is Ok,
    ensures
        (resolve(ts, ids)->Ok_0).id == ids.last(),
{
    let p = topic_pos(ts, ids[0]);
    lemma_first_index_props(topic_ids(ts), ids[0]);
    if ids.len() == 1 {
        assert(ids.drop_first() =~= Seq::<u64>::empty());
    } else {
        assert(ids.drop_first().last() == ids.last());
        lemma_resolve_within_last_id(ts[p], ids.drop_first());
    }
}

/// Every name of the chain already exists, each among the direct sub-topics
/// of the one before (the first among the level itself).
pub open spec fn chain_exists(ts: Seq<TopicV>, names: Seq<Seq<char>>) -> bool
    decreases names.len(),
{
    names.len() == 0 || {
        let p = name_pos(ts, names[0]);
        p >= 0 && (names.len() == 1 || chain_exists(ts[p].subs, names.drop_first()))
    }
}

proof fn lemma_chain_end_name(ts: Seq<TopicV>, names: Seq<Seq<char>>)
    requires
        names.len() >= 1,
    ensures
        chain_end(ts, names).name == names.last(),
    decreases names.len(),
{
    let p = name_pos(ts, names[0]);
    lemma_first_index_props(topic_names(ts), names[0]);
    if names.len() > 1 {
        assert(names.drop_first().last() == names.last());
        lemma_chain_end_name(chain_base(ts, names[0]).subs, names.drop_first());
    }
}

/// The walk leaves the chain in place, ending at `e`.
proof fn lemma_walk_makes_chain(ts: Seq<TopicV>, names: Seq<Seq<char>>, e: TopicV)
    requires
        names.len() >= 1,
        e.name == names.last(),
    ensures
        chain_exists(chain_set(ts, names, e), names),
        chain_end(chain_set(ts, names, e), names) == e,
    decreases names.len(),
{
    let n0 = names[0];
    let p = name_pos(ts, n0);
    let base = chain_base(ts, n0);
    let rest = names.drop_first();
    lemma_first_index_props(topic_names(ts), n0);
    let updated = if names.len() == 1 {
        e
    } else {
        with_subs(base, chain_set(base.subs, rest, e))
    };
    let new = chain_set(ts, names, e);
    assert(updated.name == n0);
    if p >= 0 {
        assert(new == ts.update(p, updated));
        assert(topic_names(new) =~= topic_names(ts));
    } else {
        assert(new == ts.push(updated));
        assert(topic_names(new) =~= topic_names(ts).push(n0));
        assert(is_first_index(topic_names(new), n0, ts.len() as int));
        lemma_first_index(topic_names(new), n0, ts.len() as int);
    }
    let np = name_pos(new, n0);
    assert(new[np] == updated);
    assert(chain_base(new, n0) == updated);
    if names.len() > 1 {
        assert(rest.last() == names.last());
        lemma_walk_makes_chain(base.subs, rest, e);
    }
}

/// Walking a chain that already exists changes nothing and only finds.
proof fn lemma_walk_existing(ts: Seq<TopicV>, names: Seq<Seq<char>>, depth: nat)
    requires
        names.len() >= 1,
        chain_exists(ts, names),
    ensures
        chain_set(ts, names, chain_end(ts, names)) == ts,
        forall|i: int|
            0 <= i < chain_events(ts, names, depth).len() ==> #[trigger] chain_events(
                ts,
                names,
                depth,
            )[i] is Found,
    decreases names.len(),
{
    let p = name_pos(ts, names[0]);
    let base = ts[p];
    lemma_first_index_props(topic_names(ts), names[0]);
    if names.len() == 1 {
        assert(ts.update(p, base) =~= ts);
    } else {
        let rest = names.drop_first();
        lemma_walk_existing(base.subs, rest, depth + 1);
        assert(with_subs(base, base.subs) == base);
        assert(ts.update(p, base) =~= ts);
        let ev = chain_events(ts, names, depth);
        assert forall|i: int| 0 <= i < ev.len() implies #[trigger] ev[i] is Found by {
            if i > 0 {
                assert(ev[i] == chain_events(base.subs, rest, depth + 1)[i - 1]);
            }
        }
    }
}

/// `add-topic` run again with the same names changes nothing: every name of
/// the chain is found, none is created.
pub proof fn law_add_topic_chain_again_changes_nothing(ts: Seq<TopicV>, names: Seq<Seq<char>>)
    requires
        names.len() >= 1,
    ensures
        after_add_topic_chain(after_add_topic_chain(ts, names), names) == after_add_topic_chain(
            ts,
            names,
        ),
        forall|i: int|
            0 <= i < chain_events(after_add_topic_chain(ts, names), names, 0).len()
                ==> #[trigger] chain_events(after_add_topic_chain(ts, names), names, 0)[i] is Found,
{
    let e = chain_end(ts, names);
    lemma_chain_end_name(ts, names);
    lemma_walk_makes_chain(ts, names, e);
    lemma_walk_existing(after_add_topic_chain(ts, names), names, 0);
}


/// `b` is `a` with possibly more added to it: the same id and name, `a`'s
/// ideas as the first ideas of `b`, and each of `a`'s sub-topics grown into
/// the sub-topic at the same position of `b`.
pub open spec fn grows(a: TopicV, b: TopicV) -> bool
    decreases a,
{
    &&& a.id == b.id
    &&& a.name == b.name
    &&& a.ideas.len() <= b.ideas.len()
    &&& forall|i: int| 0 <= i < a.ideas.len() ==> #[trigger] b.ideas[i] == a.ideas[i]
    &&& a.subs.len() <= b.subs.len()
    &&& forall|i: int| 0 <= i < a.subs.len() ==> grows(a.subs[i], #[trigger] b.subs[i])
}

/// Each topic of the level `a` grows into the topic at the same position of `b`.
pub open spec fn grows_level(a: Seq<TopicV>, b: Seq<TopicV>) -> bool {
    &&& a.len() <= b.len()
    &&& forall|i: int| 0 <= i < a.len() ==> grows(a[i], #[trigger] b[i])
}

proof fn lemma_grows_refl(a: TopicV)
    ensures
        grows(a, a),
    decreases a,
{
    assert forall|i: int| 0 <= i < a.subs.len() implies grows(a.subs[i], #[trigger] a.subs[i]) by {
        lemma_grows_refl(a.subs[i]);
    }
}

/// A first position found among the old items stays the first position
/// among the grown items.
proof fn lemma_first_index_prefix(a: Seq<u64>, b: Seq<u64>, x: u64)
    requires
        a.len() <= b.len(),
        forall|i: int| 0 <= i < a.len() ==> b[i] == a[i],
        first_index(a, x) >= 0,
    ensures
        first_index(b, x) == first_index(a, x),
{
    lemma_first_index_props(a, x);
    let p = first_index(a, x);
    assert(is_first_index(b, x, p));
    lemma_first_index(b, x, p);
}

proof fn lemma_growth_keeps_path_within(a: TopicV, b: TopicV, ids: Seq<u64>)
    requires
        grows(a, b),
        resolve_within(a, ids) is Ok,
    ensures
        resolve_within(b, ids) is Ok,
        grows(resolve_within(a, ids)->Ok_0, resolve_within(b, ids)->Ok_0),
    decreases ids.len(),
{
    if ids.len() > 0 {
        let p = topic_pos(a.subs, ids[0]);
        lemma_first_index_props(topic_ids(a.subs), ids[0]);
        assert forall|i: int| 0 <= i < a.subs.len() implies topic_ids(b.subs)[i] == topic_ids(
            a.subs,
        )[i] by {
            assert(grows(a.subs[i], b.subs[i]));
        }
        lemma_first_index_prefix(topic_ids(a.subs), topic_ids(b.subs), ids[0]);
        assert(grows(a.subs[p], b.subs[p]));
        lemma_growth_keeps_path_within(a.subs[p], b.subs[p], ids.drop_first());
    }
}

/// What an id chain named before the store grew, it still names after: the
/// same topic (same id, same name), with the same ideas first in it; an idea id
/// found in it before is still found at the same place.
pub proof fn law_growth_keeps_paths(ts: Seq<TopicV>, grown: Seq<TopicV>, ids: Seq<u64>, idea_id: u64)
    requires
        grows_level(ts, grown),
        resolve(ts, ids) is Ok,
    ensures
        resolve(grown, ids) is Ok,
        grows(resolve(ts, ids)->Ok_0, resolve(grown, ids)->Ok_0),
        idea_pos((resolve(ts, ids)->Ok_0).ideas, idea_id) >= 0 ==> idea_pos(
            (resolve(grown, ids)->Ok_0).ideas,
            idea_id,
        ) == idea_pos((resolve(ts, ids)->Ok_0).ideas, idea_id),
{
    let p = topic_pos(ts, ids[0]);
    lemma_first_index_props(topic_ids(ts), ids[0]);
    assert forall|i: int| 0 <= i < ts.len() implies topic_ids(grown)[i] == topic_ids(ts)[i] by {
        assert(grows(ts[i], grown[i]));
    }
    lemma_first_index_prefix(topic_ids(ts), topic_ids(grown), ids[0]);
    assert(grows(ts[p], grown[p]));
    lemma_growth_keeps_path_within(ts[p], grown[p], ids.drop_first());
    let a = resolve(ts, ids)->Ok_0;
    let b = resolve(grown, ids)->Ok_0;
    if idea_pos(a.ideas, idea_id) >= 0 {
        assert forall|i: int| 0 <= i < a.ideas.len() implies idea_ids(b.ideas)[i] == idea_ids(
            a.ideas,
        )[i] by {
            assert(b.ideas[i] == a.ideas[i]);
        }
        lemma_first_index_prefix(idea_ids(a.ideas), idea_ids(b.ideas), idea_id);
    }
}

proof fn lemma_replace_within_grows(t: TopicV, ids: Seq<u64>, e: TopicV)
    requires
        resolve_within(t, ids) is Ok,
        grows(resolve_within(t, ids)->Ok_0, e),
    ensures
        grows(t, replace_within(t, ids, e)),
    decreases ids.len(),
{
    if ids.len() > 0 {
        let p = topic_pos(t.subs, ids[0]);
        lemma_first_index_props(topic_ids(t.subs), ids[0]);
        lemma_replace_within_grows(t.subs[p], ids.drop_first(), e);
        let r = replace_within(t, ids, e);
        assert forall|i: int| 0 <= i < t.subs.len() implies grows(t.subs[i], #[trigger] r.subs[i]) by {
            if i != p {
                lemma_grows_refl(t.subs[i]);
            }
        }
    }
}

proof fn lemma_replace_at_grows(ts: Seq<TopicV>, ids: Seq<u64>, e: TopicV)
    requires
        resolve(ts, ids) is Ok,
        grows(resolve(ts, ids)->Ok_0, e),
    ensures
        grows_level(ts, replace_at(ts, ids, e)),
{
    let p = topic_pos(ts, ids[0]);
    lemma_first_index_props(topic_ids(ts), ids[0]);
    lemma_replace_within_grows(ts[p], ids.drop_first(), e);
    let r = replace_at(ts, ids, e);
    assert forall|i: int| 0 <= i < ts.len() implies grows(ts[i], #[trigger] r[i]) by {
        if i != p {
            lemma_grows_refl(ts[i]);
        }
    }
}

proof fn lemma_chain_set_grows(ts: Seq<TopicV>, names: Seq<Seq<char>>, e: TopicV)
    requires
        names.len() >= 1,
        grows(chain_end(ts, names), e),
    ensures
        grows_level(ts, chain_set(ts, names, e)),
    decreases names.len(),
{
    let p = name_pos(ts, names[0]);
    let base = chain_base(ts, names[0]);
    lemma_first_index_props(topic_names(ts), names[0]);
    let r = chain_set(ts, names, e);
    if names.len() > 1 {
        lemma_chain_set_grows(base.subs, names.drop_first(), e);
        let updated = with_subs(base, chain_set(base.subs, names.drop_first(), e));
        assert forall|i: int| 0 <= i < base.subs.len() implies grows(
            base.subs[i],
            #[trigger] updated.subs[i],
        ) by {}
        lemma_grows_refl(base);
    }
    assert forall|i: int| 0 <= i < ts.len() implies grows(ts[i], #[trigger] r[i]) by {
        if i != p {
            lemma_grows_refl(ts[i]);
        }
    }
}

proof fn lemma_with_idea_grows(t: TopicV, text: Seq<char>)
    ensures
        grows(t, with_idea(t, text)),
{
    lemma_grows_refl(t);
}

/// Filing an idea only adds: every topic keeps its id, name, ideas and
/// sub-topics, in place (see [`law_growth_keeps_paths`] for what that means
/// to an id chain).
pub proof fn law_add_idea_only_adds(ts: Seq<TopicV>, path: Seq<Seq<char>>, text: Seq<char>)
    requires
        path.len() >= 1,
    ensures
        grows_level(ts, after_add_idea(ts, path, text)),
{
    let target = idea_target(ts, path);
    lemma_with_idea_grows(target, text);
    match idea_target_ids(ts, path) {
        Some(ids) => {
            lemma_replace_at_grows(ts, ids, with_idea(target, text));
        },
        None => {
            lemma_chain_set_grows(ts, path, with_idea(target, text));
        },
    }
}

/// `add-topic` only adds: every topic keeps its id, name, ideas and
/// sub-topics, in place.
pub proof fn law_add_topic_chain_only_adds(ts: Seq<TopicV>, names: Seq<Seq<char>>)
    requires
        names.len() >= 1,
    ensures
        grows_level(ts, after_add_topic_chain(ts, names)),
{
    lemma_grows_refl(chain_end(ts, names));
    lemma_chain_set_grows(ts, names, chain_end(ts, names));
}


/// The items are in non-decreasing order of `key`.
pub open spec fn sorted_by<A>(s: Seq<A>, key: spec_fn(A) -> u64) -> bool {
    forall|i: int, j: int| 0 <= i < j < s.len() ==> key(#[trigger] s[i]) <= key(#[trigger] s[j])
}

proof fn lemma_insert_sorted<A>(s: Seq<A>, x: A, key: spec_fn(A) -> u64)
    requires
        sorted_by(s, key),
    ensures
        sorted_by(insert_by_key(s, x, key), key),
        insert_by_key(s, x, key).to_multiset() == s.to_multiset().insert(x),
        insert_by_key(s, x, key).len() == s.len() + 1,
        forall|i: int|
            0 <= i < insert_by_key(s, x, key).len() ==> #[trigger] insert_by_key(s, x, key)[i] == x
                || s.contains(insert_by_key(s, x, key)[i]),
    decreases s.len(),
{
    broadcast use vstd::seq_lib::group_to_multiset_ensures;

    let r = insert_by_key(s, x, key);
    if s.len() == 0 {
        assert(seq![x] == Seq::<A>::empty().push(x));
    } else if key(s.last()) <= key(x) {
        assert forall|i: int| 0 <= i < r.len() implies #[trigger] r[i] == x || s.contains(r[i]) by {
            if i < s.len() {
                assert(r[i] == s[i]);
            }
        }
    } else {
        let dl = s.drop_last();
        assert(sorted_by(dl, key));
        lemma_insert_sorted(dl, x, key);
        let m = insert_by_key(dl, x, key);
        assert(r == m.push(s.last()));
        assert(s == dl.push(s.last()));
        assert forall|i: int, j: int| 0 <= i < j < r.len() implies key(#[trigger] r[i]) <= key(
            #[trigger] r[j],
        ) by {
            if j == r.len() - 1 {
                if m[i] == x {
                } else {
                    let k = choose|k: int| 0 <= k < dl.len() && dl[k] == m[i];
                    assert(s[k] == dl[k]);
                }
            }
        }
        assert forall|i: int| 0 <= i < r.len() implies #[trigger] r[i] == x || s.contains(r[i]) by {
            if i < m.len() {
                if m[i] != x {
                    let k = choose|k: int| 0 <= k < dl.len() && dl[k] == m[i];
                    assert(s[k] == dl[k]);
                }
            } else {
                assert(s[s.len() - 1] == r[i]);
            }
        }
        assert(r.to_multiset() =~= s.to_multiset().insert(x));
    }
}

proof fn lemma_sort_props<A>(s: Seq<A>, key: spec_fn(A) -> u64)
    ensures
        sorted_by(sort_by_key(s, key), key),
        sort_by_key(s, key).to_multiset() == s.to_multiset(),
        sort_by_key(s, key).len() == s.len(),
        forall|i: int|
            0 <= i < sort_by_key(s, key).len() ==> s.contains(#[trigger] sort_by_key(s, key)[i]),
    decreases s.len(),
{
    broadcast use vstd::seq_lib::group_to_multiset_ensures;

    if s.len() > 0 {
        let dl = s.drop_last();
        lemma_sort_props(dl, key);
        let m = sort_by_key(dl, key);
        lemma_insert_sorted(m, s.last(), key);
        assert(s == dl.push(s.last()));
        let r = sort_by_key(s, key);
        assert forall|i: int| 0 <= i < r.len() implies s.contains(#[trigger] r[i]) by {
            if r[i] == s.last() {
                assert(s[s.len() - 1] == r[i]);
            } else {
                let k = choose|k: int| 0 <= k < m.len() && m[k] == r[i];
                assert(dl.contains(m[k]));
                let k2 = choose|k2: int| 0 <= k2 < dl.len() && dl[k2] == m[k];
                assert(s[k2] == dl[k2]);
            }
        }
    }
}

/// Defrag's ordering step puts a level in order of the current ids and keeps
/// every topic and idea: its result is sorted by the key and is a permutation
/// of its input.
pub proof fn law_sort_orders_and_keeps_all<A>(s: Seq<A>, key: spec_fn(A) -> u64)
    ensures
        sorted_by(sort_by_key(s, key), key),
        sort_by_key(s, key).to_multiset() == s.to_multiset(),
{
    lemma_sort_props(s, key);
}

/// Sorting what is already in order changes nothing.
proof fn lemma_sort_sorted_same<A>(s: Seq<A>, key: spec_fn(A) -> u64)
    requires
        sorted_by(s, key),
    ensures
        sort_by_key(s, key) == s,
    decreases s.len(),
{
    if s.len() > 0 {
        let dl = s.drop_last();
        assert(sorted_by(dl, key));
        lemma_sort_sorted_same(dl, key);
        if dl.len() > 0 {
            assert(key(s[s.len() - 2]) <= key(s[s.len() - 1]));
            assert(dl.last() == s[s.len() - 2]);
        }
        assert(dl.push(s.last()) =~= s);
    }
}

/// Ideas numbered 1, 2, 3, ... in order.
pub open spec fn ideas_compact(is: Seq<IdeaV>) -> bool {
    forall|i: int| 0 <= i < is.len() ==> #[trigger] is[i].id == i + 1
}

/// A topic whose ideas, and whose direct sub-topics, are numbered 1, 2, 3, ...
/// in order, and so on at every level beneath it.
pub open spec fn topic_compact(t: TopicV) -> bool
    decreases t,
{
    &&& ideas_compact(t.ideas)
    &&& forall|i: int| 0 <= i < t.subs.len() ==> #[trigger] t.subs[i].id == i + 1
    &&& forall|i: int| 0 <= i < t.subs.len() ==> topic_compact(#[trigger] t.subs[i])
}

/// A level numbered 1, 2, 3, ... in order, compact at every level beneath.
pub open spec fn level_compact(ts: Seq<TopicV>) -> bool {
    &&& forall|i: int| 0 <= i < ts.len() ==> #[trigger] ts[i].id == i + 1
    &&& forall|i: int| 0 <= i < ts.len() ==> topic_compact(#[trigger] ts[i])
}

/// No level of a topic is longer than ids can count: true of every topic
/// that the store holds (see [`law_stores_fit`]).
pub open spec fn topic_fits(t: TopicV) -> bool
    decreases t,
{
    &&& t.ideas.len() <= u64::MAX
    &&& t.subs.len() <= u64::MAX
    &&& forall|i: int| 0 <= i < t.subs.len() ==> topic_fits(#[trigger] t.subs[i])
}

/// [`topic_fits`] for a level and everything beneath it.
pub open spec fn level_fits(ts: Seq<TopicV>) -> bool {
    &&& ts.len() <= u64::MAX
    &&& forall|i: int| 0 <= i < ts.len() ==> topic_fits(#[trigger] ts[i])
}

proof fn lemma_topic_fits(t: Topic)
    ensures
        topic_fits(t@),
    decreases t,
{
    lemma_topics_view(t.sub_topics@);
    assert(t.ideas@.len() == t.ideas.len());
    assert(t.sub_topics@.len() == t.sub_topics.len());
    assert forall|i: int| 0 <= i < t@.subs.len() implies topic_fits(#[trigger] t@.subs[i]) by {
        assert(decreases_to!(t => t.sub_topics@[i]));
        lemma_topic_fits(t.sub_topics@[i]);
    }
}

/// Every store that the library holds satisfies [`level_fits`].
pub proof fn law_stores_fit(v: Vec<Topic>)
    ensures
        level_fits(topics_view(v@)),
{
    lemma_topics_view(v@);
    assert(v@.len() == v.len());
    assert forall|i: int| 0 <= i < v@.len() implies topic_fits(#[trigger] topics_view(v@)[i]) by {
        lemma_topic_fits(v@[i]);
    }
}

proof fn lemma_defragged_compact(ts: Seq<TopicV>)
    requires
        level_fits(ts),
    ensures
        level_compact(defragged(ts)),
    decreases ts,
{
    let each = defrag_each(ts);
    lemma_defrag_each(ts);
    let sorted = sort_by_key(each, topic_id_key());
    lemma_sort_props(each, topic_id_key());
    let r = defragged(ts);
    assert forall|i: int| 0 <= i < r.len() implies topic_compact(#[trigger] r[i]) by {
        let k = choose|k: int| 0 <= k < each.len() && each[k] == sorted[i];
        assert(each[k] == defrag_topic(ts[k]));
        assert(decreases_to!(ts => ts[k]));
        assert(topic_fits(ts[k]));
        lemma_defragged_compact(ts[k].subs);
        lemma_sort_props(ts[k].ideas, idea_id_key());
        let t = r[i];
        assert(t.ideas == renumber_ideas(sort_by_key(ts[k].ideas, idea_id_key())));
        assert(t.subs == defragged(ts[k].subs));
    }
}

/// After `defrag`, every level of the store is numbered 1, 2, 3, ... in order:
/// the top-level topics, each topic's direct sub-topics and each topic's ideas.
pub proof fn law_defrag_compacts(ts: Seq<TopicV>)
    requires
        level_fits(ts),
    ensures
        level_compact(defragged(ts)),
{
    lemma_defragged_compact(ts);
}

proof fn lemma_defrag_compact_same(ts: Seq<TopicV>)
    requires
        level_compact(ts),
    ensures
        defragged(ts) == ts,
    decreases ts,
{
    let each = defrag_each(ts);
    lemma_defrag_each(ts);
    assert forall|i: int| 0 <= i < ts.len() implies #[trigger] each[i] == ts[i] by {
        let t = ts[i];
        assert(topic_compact(t));
        assert(level_compact(t.subs));
        assert(decreases_to!(ts => ts[i]));
        lemma_defrag_compact_same(t.subs);
        assert(sorted_by(t.ideas, idea_id_key()));
        lemma_sort_sorted_same(t.ideas, idea_id_key());
        assert(renumber_ideas(t.ideas) =~= t.ideas);
        assert(defrag_topic(t) =~= t);
    }
    assert(each =~= ts);
    assert(sorted_by(ts, topic_id_key()));
    lemma_sort_sorted_same(ts, topic_id_key());
    assert(renumber_topics(ts) =~= ts);
}

/// Running `defrag` twice gives what running it once gave.
pub proof fn law_defrag_twice_is_once(ts: Seq<TopicV>)
    requires
        level_fits(ts),
    ensures
        defragged(defragged(ts)) == defragged(ts),
{
    lemma_defragged_compact(ts);
    lemma_defrag_compact_same(defragged(ts));
}


proof fn lemma_replace_within_then_resolve(t: TopicV, ids: Seq<u64>, e: TopicV)
    requires
        resolve_within(t, ids) is Ok,
        ids.len() > 0 ==> e.id == (resolve_within(t, ids)->Ok_0).id,
    ensures
        resolve_within(replace_within(t, ids, e), ids) == Ok::<TopicV, crate::error::ErrorV>(e),
        ids.len() > 0 ==> replace_within(t, ids, e).id == t.id,
    decreases ids.len(),
{
    if ids.len() > 0 {
        let p = topic_pos(t.subs, ids[0]);
        lemma_first_index_props(topic_ids(t.subs), ids[0]);
        let inner = replace_within(t.subs[p], ids.drop_first(), e);
        if ids.len() > 1 {
            assert(ids.drop_first().len() > 0);
            lemma_resolve_within_last_id(t.subs[p], ids.drop_first());
            assert(ids.drop_first().last() == ids.last());
            lemma_resolve_within_last_id(t, ids);
        } else {
            assert(ids.drop_first() =~= Seq::<u64>::empty());
        }
        lemma_replace_within_then_resolve(t.subs[p], ids.drop_first(), e);
        let r = replace_within(t, ids, e);
        assert(topic_ids(r.subs) =~= topic_ids(t.subs).update(p, inner.id));
        if ids.len() > 1 {
            assert(inner.id == t.subs[p].id);
        } else {
            lemma_resolve_within_last_id(t, ids);
        }
        assert(topic_ids(r.subs) =~= topic_ids(t.subs));
        assert(topic_pos(r.subs, ids[0]) == p);
    }
}

/// What the topic at an id chain is replaced by is what the chain then names
/// (the replacement keeping the id): a change made through
/// [`crate::tree::resolve_path_mut`] is read back at the same chain.
pub proof fn law_replace_then_resolve(ts: Seq<TopicV>, ids: Seq<u64>, e: TopicV)
    requires
        resolve(ts, ids) is Ok,
        e.id == (resolve(ts, ids)->Ok_0).id,
    ensures
        resolve(replace_at(ts, ids, e), ids) == Ok::<TopicV, crate::error::ErrorV>(e),
{
    let p = topic_pos(ts, ids[0]);
    lemma_first_index_props(topic_ids(ts), ids[0]);
    law_resolve_lands_on_last_id(ts, ids);
    if ids.len() > 1 {
        assert(ids.drop_first().last() == ids.last());
    } else {
        assert(ids.drop_first() =~= Seq::<u64>::empty());
    }
    lemma_replace_within_then_resolve(ts[p], ids.drop_first(), e);
    let r = replace_at(ts, ids, e);
    assert(topic_ids(r) =~= topic_ids(ts));
    assert(topic_pos(r, ids[0]) == p);
}

/// Removing a topic takes exactly it out of its own level: the ids of the
/// level that held it are the old ids with that one id removed, all others
/// unchanged and in the same order.
pub proof fn law_removal_keeps_sibling_ids(ts: Seq<TopicV>, ids: Seq<u64>)
    requires
        removal(ts, ids) is Ok,
    ensures
        ids.len() == 1 ==> topic_ids(after_removal(ts, ids)) == topic_ids(ts).remove(
            topic_pos(ts, ids[0]),
        ),
        ids.len() > 1 ==> ({
            let parent = resolve(ts, ids.drop_last())->Ok_0;
            &&& resolve(after_removal(ts, ids), ids.drop_last()) is Ok
            &&& topic_ids((resolve(after_removal(ts, ids), ids.drop_last())->Ok_0).subs)
                == topic_ids(parent.subs).remove(topic_pos(parent.subs, ids.last()))
        }),
{
    if ids.len() == 1 {
        let p = topic_pos(ts, ids[0]);
        assert(topic_ids(ts.remove(p)) =~= topic_ids(ts).remove(p));
    } else {
        let pp = ids.drop_last();
        let parent = resolve(ts, pp)->Ok_0;
        let q = topic_pos(parent.subs, ids.last());
        let e = with_subs(parent, parent.subs.remove(q));
        law_replace_then_resolve(ts, pp, e);
        assert(topic_ids(parent.subs.remove(q)) =~= topic_ids(parent.subs).remove(q));
    }
}


/// The selector `0` matches every topic.
pub proof fn law_zero_selects_every_topic(t: TopicV)
    ensures
        selector_matches("0"@, t),
{
    reveal_strlit("0");
    assert(unsigned_digits("0"@) == "0"@);
    assert(is_digit("0"@[0]));
    assert("0"@.drop_last() =~= Seq::<char>::empty());
    assert("0"@.last() == '0');
    assert(digits_value(Seq::<char>::empty()) == 0);
    assert(('0' as nat - 48) as nat == 0);
    assert(digits_value("0"@) == 0);
}

proof fn lemma_max_of_bounds(ids: Seq<u64>)
    ensures
        forall|i: int| 0 <= i < ids.len() ==> #[trigger] ids[i] <= max_of(ids),
    decreases ids.len(),
{
    if ids.len() > 0 {
        lemma_max_of_bounds(ids.drop_last());
        assert forall|i: int| 0 <= i < ids.len() implies #[trigger] ids[i] <= max_of(ids) by {
            if i < ids.len() - 1 {
                assert(ids[i] == ids.drop_last()[i]);
            }
        }
    }
}

/// A new id (one above the highest among its siblings) is taken by none of
/// them.
pub proof fn law_new_id_is_unused(ids: Seq<u64>)
    ensures
        forall|i: int| 0 <= i < ids.len() ==> #[trigger] ids[i] < max_of(ids) + 1,
{
    lemma_max_of_bounds(ids);
}

/// Under `t` and at every level beneath it, no two direct sub-topics share an id.
pub open spec fn topic_ids_unique(t: TopicV) -> bool
    decreases t,
{
    &&& forall|i: int, j: int| 0 <= i < j < t.subs.len() ==> t.subs[i].id != t.subs[j].id
    &&& forall|i: int| 0 <= i < t.subs.len() ==> topic_ids_unique(#[trigger] t.subs[i])
}

/// No two topics of the level share an id, and so at every level beneath it.
pub open spec fn level_ids_unique(ts: Seq<TopicV>) -> bool {
    &&& forall|i: int, j: int| 0 <= i < j < ts.len() ==> ts[i].id != ts[j].id
    &&& forall|i: int| 0 <= i < ts.len() ==> topic_ids_unique(#[trigger] ts[i])
}

/// The id chain of a block, read as an id path from the top level, names the
/// topic that the block shows: its name and its ideas.
pub open spec fn block_names_its_topic(ts: Seq<TopicV>, b: HitV) -> bool {
    resolve(ts, b.path) matches Ok(t) && t.name == b.name && t.ideas == b.ideas
}

/// A block listed for the level `ts` under the chain `path`: the rest of
/// its chain, read from `ts`, names the block's topic.
pub open spec fn block_under(ts: Seq<TopicV>, path: Seq<u64>, b: HitV) -> bool {
    &&& path.len() < b.path.len()
    &&& b.path.subrange(0, path.len() as int) == path
    &&& block_names_its_topic(ts, HitV { path: b.path.subrange(path.len() as int, b.path.len() as int), ..b })
}

proof fn lemma_resolve_extended(ts: Seq<TopicV>, t: TopicV, ids: Seq<u64>)
    requires
        resolve(ts, ids) is Ok,
    ensures
        resolve(ts.push(t), ids) == resolve(ts, ids),
{
    let p = topic_pos(ts, ids[0]);
    lemma_first_index_props(topic_ids(ts), ids[0]);
    assert(topic_ids(ts.push(t)) =~= topic_ids(ts).push(t.id));
    lemma_first_index_prefix(topic_ids(ts), topic_ids(ts.push(t)), ids[0]);
    assert(ts.push(t)[p] == ts[p]);
}

proof fn lemma_list_level_resolves(ts: Seq<TopicV>, path: Seq<u64>)
    requires
        level_ids_unique(ts),
    ensures
        forall|k: int|
            0 <= k < list_level(ts, path).len() ==> block_under(ts, path, #[trigger] list_level(ts, path)[k]),
    decreases ts,
{
    if ts.len() > 0 {
        let n = ts.len() - 1;
        let pre = ts.subrange(0, n);
        let last = ts[n];
        assert(pre.push(last) =~= ts);
        assert(level_ids_unique(pre));
        lemma_list_level_resolves(pre, path);
        assert(decreases_to!(ts => ts[n]));
        assert(topic_ids_unique(last));
        assert(level_ids_unique(last.subs));
        let p = path.push(last.id);
        lemma_list_level_resolves(last.subs, p);
        let lp = list_level(pre, path);
        let head = HitV { path: p, name: last.name, ideas: last.ideas };
        let lt = list_topic(last, path);
        let ls = list_level(last.subs, p);
        assert(lt == seq![head] + ls);
        assert(list_level(ts, path) == lp + lt);
        // the last topic is the first with its id
        assert(is_first_index(topic_ids(ts), last.id, n));
        lemma_first_index(topic_ids(ts), last.id, n);
        assert forall|k: int| 0 <= k < list_level(ts, path).len() implies block_under(
            ts,
            path,
            #[trigger] list_level(ts, path)[k],
        ) by {
            let b = list_level(ts, path)[k];
            let rel = b.path.subrange(path.len() as int, b.path.len() as int);
            if k < lp.len() {
                assert(b == lp[k]);
                assert(block_under(pre, path, lp[k]));
                lemma_resolve_extended(pre, last, rel);
            } else if k == lp.len() {
                assert(b == head);
                assert(b.path.subrange(0, path.len() as int) =~= path);
                assert(rel =~= seq![last.id]);
                assert(rel.drop_first() =~= Seq::<u64>::empty());
            } else {
                let k2 = k - lp.len() - 1;
                assert(b == ls[k2]);
                assert(block_under(last.subs, p, b));
                let rel2 = b.path.subrange(p.len() as int, b.path.len() as int);
                assert(b.path.subrange(0, path.len() as int) =~= b.path.subrange(0, p.len() as int).subrange(0, path.len() as int));
                assert(b.path.subrange(0, path.len() as int) =~= path);
                assert(rel[0] == b.path[path.len() as int]);
                assert(b.path[path.len() as int] == p[path.len() as int]);
                assert(rel.drop_first() =~= rel2);
                assert(resolve(last.subs, rel2) is Ok);
                assert(resolve_within(ts[n], rel.drop_first()) == resolve(last.subs, rel2));
            }
        }
    }
}

/// Every id chain that `list` shows names, read back from the top level, the
/// very topic of its block (its name and its ideas), as long as no two
/// siblings share an id.
pub proof fn law_listed_chains_resolve(ts: Seq<TopicV>)
    requires
        level_ids_unique(ts),
    ensures
        forall|k: int|
            0 <= k < list_level(ts, Seq::empty()).len() ==> block_names_its_topic(
                ts,
                #[trigger] list_level(ts, Seq::empty())[k],
            ),
{
    lemma_list_level_resolves(ts, Seq::empty());
    assert forall|k: int| 0 <= k < list_level(ts, Seq::empty()).len() implies block_names_its_topic(
        ts,
        #[trigger] list_level(ts, Seq::empty())[k],
    ) by {
        let b = list_level(ts, Seq::empty())[k];
        assert(block_under(ts, Seq::empty(), b));
        assert(b.path.subrange(0, b.path.len() as int) =~= b.path);
        assert(HitV { path: b.path.subrange(0, b.path.len() as int), ..b } == b);
    }
}

proof fn lemma_level_topics_at_least_len(ts: Seq<TopicV>)
    ensures
        level_topics(ts) >= ts.len(),
    decreases ts.len(),
{
    if ts.len() > 0 {
        lemma_level_topics_at_least_len(ts.subrange(0, ts.len() - 1));
    }
}

/// A topic counts nothing inside it exactly when it has no idea of its own
/// and no sub-topic.
proof fn lemma_empty_topic(t: TopicV)
    ensures
        (total_ideas(t) == 0 && total_sub_topics(t) == 0) <==> (t.ideas.len() == 0 && t.subs.len()
            == 0),
        total_ideas(t) >= t.ideas.len(),
        total_sub_topics(t) >= t.subs.len(),
{
    lemma_level_topics_at_least_len(t.subs);
    if t.subs.len() == 0 {
        assert(crate::counts::level_ideas(t.subs) == 0);
    }
}

/// Deleting a topic without asking removes only a topic with nothing in it:
/// no idea of its own and no sub-topic. A topic that still holds an idea or
/// a sub-topic is left where it is, and the user is asked first, told its
/// name and how many ideas and sub-topics it holds at any depth.
pub proof fn law_held_topic_waits_for_confirmation(ts: Seq<TopicV>, path: Seq<u64>)
    requires
        resolve(ts, path) is Ok,
    ensures
        ({
            let t = resolve(ts, path)->Ok_0;
            &&& topic_step(ts, path) matches Ok(DeleteOutcomeV::TopicDeleted { .. }) ==> t.ideas.len()
                == 0 && t.subs.len() == 0
            &&& t.ideas.len() == 0 && t.subs.len() == 0 ==> (topic_step(ts, path) matches Ok(
                DeleteOutcomeV::TopicDeleted { .. },
            ) && after_topic_step(ts, path) == after_removal(ts, path))
            &&& t.ideas.len() > 0 || t.subs.len() > 0 ==> topic_step(ts, path) == Ok::<
                DeleteOutcomeV,
                crate::error::ErrorV,
            >(
                DeleteOutcomeV::NeedsConfirmation {
                    name: t.name,
                    idea_count: total_ideas(t),
                    sub_topic_count: total_sub_topics(t),
                },
            ) && after_topic_step(ts, path) == ts && total_ideas(t) >= t.ideas.len()
                && total_sub_topics(t) >= t.subs.len()
        }),
{
    let t = resolve(ts, path)->Ok_0;
    lemma_empty_topic(t);
}

/// `delete` never drops a topic that still holds something without asking:
/// when it deletes a topic outright, that topic (the one the whole chain
/// names) held no idea and no sub-topic; when it asks, the store is left as
/// it was.
pub proof fn law_delete_never_drops_a_held_topic(ts: Seq<TopicV>, ids: Seq<u64>)
    requires
        ids.len() >= 1,
    ensures
        delete_outcome(ts, ids) matches Ok(DeleteOutcomeV::TopicDeleted { .. }) ==> resolve(ts, ids) matches Ok(t)
            && t.ideas.len() == 0 && t.subs.len() == 0,
        delete_outcome(ts, ids) matches Ok(DeleteOutcomeV::NeedsConfirmation { .. }) ==> after_delete(
            ts,
            ids,
        ) == ts,
{
    if resolve(ts, ids) is Ok {
        law_held_topic_waits_for_confirmation(ts, ids);
    }
}

/// With two or more ids, when the topic named by all but the last id has an
/// idea with the last id, `delete` removes that idea (the first with the
/// id), whether or not a direct sub-topic carries the same id.
pub proof fn law_delete_prefers_the_idea(ts: Seq<TopicV>, ids: Seq<u64>, q: int)
    requires
        ids.len() >= 2,
        resolve(ts, ids.drop_last()) is Ok,
        0 <= q < (resolve(ts, ids.drop_last())->Ok_0).ideas.len(),
        (resolve(ts, ids.drop_last())->Ok_0).ideas[q].id == ids.last(),
    ensures
        ({
            let par = resolve(ts, ids.drop_last())->Ok_0;
            delete_outcome(ts, ids) matches Ok(
                DeleteOutcomeV::IdeaDeleted { idea_id, topic_name, idea_text },
            ) && idea_id == ids.last() && topic_name == par.name && exists|k: int|
                #![trigger par.ideas[k]]
                0 <= k <= q && par.ideas[k].id == ids.last() && par.ideas[k].text == idea_text
                    && forall|j: int| 0 <= j < k ==> par.ideas[j].id != ids.last()
        }),
{
    let par = resolve(ts, ids.drop_last())->Ok_0;
    lemma_first_index_props(idea_ids(par.ideas), ids.last());
    assert(idea_ids(par.ideas)[q] == ids.last());
    let k = idea_pos(par.ideas, ids.last());
    lemma_first_idea(par.ideas, ids.last(), k);
    assert(k <= q) by {
        if k > q {
            assert(idea_ids(par.ideas)[q] == ids.last());
        }
    }
    assert(delete_outcome(ts, ids) == Ok::<DeleteOutcomeV, crate::error::ErrorV>(
        DeleteOutcomeV::IdeaDeleted { idea_id: ids.last(), topic_name: par.name, idea_text: par.ideas[k].text },
    ));
}

/// The first position of an id among ideas, read off the ideas themselves.
proof fn lemma_first_idea(is: Seq<IdeaV>, id: u64, k: int)
    requires
        k == idea_pos(is, id),
        k >= 0,
    ensures
        0 <= k < is.len(),
        is[k].id == id,
        forall|j: int| 0 <= j < k ==> is[j].id != id,
{
    lemma_first_index_props(idea_ids(is), id);
    assert(idea_ids(is)[k] == is[k].id);
    assert forall|j: int| 0 <= j < k implies is[j].id != id by {
        assert(idea_ids(is)[j] == is[j].id);
    }
}

/// With two or more ids, when the topic named by all but the last id has an
/// idea with the last id, `edit` opens that idea (the first with the id) with
/// its text, whether or not a direct sub-topic carries the same id; only when
/// there is no such idea does it rename the direct sub-topic with that id.
pub proof fn law_edit_prefers_the_idea(ts: Seq<TopicV>, ids: Seq<u64>)
    requires
        ids.len() >= 2,
        resolve(ts, ids.drop_last()) is Ok,
    ensures
        ({
            let par = resolve(ts, ids.drop_last())->Ok_0;
            &&& (exists|q: int| 0 <= q < par.ideas.len() && #[trigger] par.ideas[q].id == ids.last())
                ==> (edit_target(ts, ids) matches Ok(EditTargetV::Idea { current_text })
                && exists|k: int|
                #![trigger par.ideas[k]]
                0 <= k < par.ideas.len() && par.ideas[k].id == ids.last() && par.ideas[k].text
                    == current_text && forall|j: int| 0 <= j < k ==> par.ideas[j].id != ids.last())
            &&& (forall|q: int| 0 <= q < par.ideas.len() ==> #[trigger] par.ideas[q].id != ids.last())
                ==> forall|k: int|
                #![trigger par.subs[k]]
                0 <= k < par.subs.len() && par.subs[k].id == ids.last() && (forall|j: int|
                    0 <= j < k ==> par.subs[j].id != ids.last()) ==> edit_target(ts, ids) == Ok::<
                    EditTargetV,
                    crate::error::ErrorV,
                >(EditTargetV::Topic { current_name: par.subs[k].name })
        }),
{
    let par = resolve(ts, ids.drop_last())->Ok_0;
    lemma_first_index_props(idea_ids(par.ideas), ids.last());
    lemma_first_index_props(topic_ids(par.subs), ids.last());
    let k = idea_pos(par.ideas, ids.last());
    let s = topic_pos(par.subs, ids.last());
    if exists|q: int| 0 <= q < par.ideas.len() && #[trigger] par.ideas[q].id == ids.last() {
        let q = choose|q: int| 0 <= q < par.ideas.len() && #[trigger] par.ideas[q].id == ids.last();
        assert(idea_ids(par.ideas)[q] == ids.last());
        lemma_first_idea(par.ideas, ids.last(), k);
        assert(edit_target(ts, ids) == Ok::<EditTargetV, crate::error::ErrorV>(
            EditTargetV::Idea { current_text: par.ideas[k].text },
        ));
    }
    if forall|q: int| 0 <= q < par.ideas.len() ==> #[trigger] par.ideas[q].id != ids.last() {
        assert(k < 0) by {
            if k >= 0 {
                assert(idea_ids(par.ideas)[k] == par.ideas[k].id);
            }
        }
        assert(forall|j: int| 0 <= j < par.subs.len() ==> topic_ids(par.subs)[j] == par.subs[j].id);
        assert forall|k2: int|
            #![trigger par.subs[k2]]
            0 <= k2 < par.subs.len() && par.subs[k2].id == ids.last() && (forall|j: int|
                0 <= j < k2 ==> par.subs[j].id != ids.last()) implies k2 == s by {
            assert(topic_ids(par.subs)[k2] == ids.last());
            if k2 > s {
                assert(par.subs[s].id == ids.last());
            }
        }
    }
}

/// The idea filter ignores case: wherever `str::to_lowercase` maps the query
/// and the text as it maps ASCII (which [`crate::text::to_lowercase`] states
/// for every ASCII text), the query matches exactly when its lowercase form
/// occurs in the text's lowercase form.
pub proof fn law_text_match_ignores_case(query: Seq<char>, text: Seq<char>)
    ensures
        lowercase(query) == ascii_lower(query) && lowercase(text) == ascii_lower(text) ==> (
        text_matches(query, text) <==> occurs_in(ascii_lower(query), ascii_lower(text))),
{
}

/// How an idea is listed, on ASCII-mapped texts: with a selector and a filter,
/// an idea of a matching topic is listed exactly when the lowercased filter
/// occurs in its lowercased text, and an idea of a topic that does not match
/// never is; with one query, an idea whose lowercased text contains the
/// lowercased query is listed wherever it is, and every idea of a matching
/// topic is listed.
pub proof fn law_idea_filter_ignores_case(
    sel: Seq<char>,
    query: Seq<char>,
    topic_ok: bool,
    i: IdeaV,
)
    ensures
        lowercase(query) == ascii_lower(query) && lowercase(i.text) == ascii_lower(i.text) ==> (
        idea_listed(sel, Some(query), false, topic_ok, i) <==> topic_ok && occurs_in(
            ascii_lower(query),
            ascii_lower(i.text),
        )),
        idea_listed(sel, None, false, topic_ok, i) == topic_ok,
        lowercase(sel) == ascii_lower(sel) && lowercase(i.text) == ascii_lower(i.text) ==> (
        idea_listed(sel, None, true, topic_ok, i) <==> topic_ok || occurs_in(
            ascii_lower(sel),
            ascii_lower(i.text),
        )),
{
}

/// A block lists exactly the ideas of its topic that pass the filter, each
/// once, in the topic's own order.
pub proof fn law_block_keeps_the_listed_ideas(
    is: Seq<IdeaV>,
    sel: Seq<char>,
    query: Option<Seq<char>>,
    all: bool,
    topic_ok: bool,
)
    ensures
        listed_ideas(is, sel, query, all, topic_ok) == is.filter(
            |i: IdeaV| idea_listed(sel, query, all, topic_ok, i),
        ),
    decreases is.len(),
{
    reveal_with_fuel(Seq::filter, 2);
    if is.len() > 0 {
        law_block_keeps_the_listed_ideas(is.drop_last(), sel, query, all, topic_ok);
    }
}

/// A selector that reads as a positive number matches a topic exactly when
/// the topic carries that id, whatever its name; `0` matches every topic.
pub proof fn law_number_selects_by_id(sel: Seq<char>, t: TopicV, n: u64)
    ensures
        parse_u64_value(sel) == Some(n) && n > 0 ==> (selector_matches(sel, t) <==> t.id == n),
        parse_u64_value(sel) == Some(0u64) ==> selector_matches(sel, t),
{
}

/// A command line that is not one of the command words files an idea: its
/// last argument is the idea's text, and every argument between the
/// program's name and that text, in order, is the topic chain; a lone
/// argument goes under `no topic`.
pub proof fn law_other_arguments_file_an_idea(args: Seq<Seq<char>>)
    requires
        args.len() >= 2,
        args[1] != "search"@,
        args[1] != "edit"@,
        args[1] != "add-topic"@,
        args[1] != "delete"@,
        args.len() == 2 ==> args[1] != "list"@ && args[1] != "defrag"@,
    ensures
        command_of(args) matches Ok(CommandV::AddIdea { topic_path, text }) && text == args.last()
            && (args.len() == 2 ==> topic_path == seq!["no topic"@]) && (args.len() >= 3 ==> (
        topic_path.len() == args.len() - 2 && topic_path.push(text) == args.drop_first())),
{
    if args.len() >= 3 {
        let tp = args.subrange(1, args.len() - 1);
        assert(tp.push(args[args.len() - 1]) =~= args.drop_first());
    }
}

} // verus!
