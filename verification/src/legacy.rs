use vstd::prelude::*;
use crate::model::{Idea, IdeaV, Topic, TopicV, ideas_view, topics_view, lemma_topics_view_push};

verus! {

broadcast use lemma_topics_view_push;

/// One entry of the file format from before ids existed: a topic name and
/// what stood under it (`None` when that was not an array; an element is
/// `None` when it was not a string).
pub struct LegacyEntry {
    pub name: String,
    pub ideas: Option<Vec<Option<String>>>,
}

/// What a file's text holds when read as JSON.
pub enum LegacyJson {
    /// The text is not JSON.
    NotJson,
    /// The text is JSON, but not an object.
    NotObject,
    /// A JSON object: its entries in the order the JSON map yields them.
    Object(Vec<LegacyEntry>),
}

pub struct LegacyEntryV {
    pub name: Seq<char>,
    pub ideas: Option<Seq<Option<Seq<char>>>>,
}

pub enum LegacyJsonV {
    NotJson,
    NotObject,
    Object(Seq<LegacyEntryV>),
}

pub open spec fn opt_text_view(o: Option<String>) -> Option<Seq<char>> {
    match o {
        Some(s) => Some(s@),
        None => None,
    }
}

impl View for LegacyEntry {
    type V = LegacyEntryV;

    open spec fn view(&self) -> LegacyEntryV {
        LegacyEntryV {
            name: self.name@,
            ideas: match self.ideas {
                Some(v) => Some(v@.map_values(|o: Option<String>| opt_text_view(o))),
                None => None,
            },
        }
    }
}

pub open spec fn entries_view(s: Seq<LegacyEntry>) -> Seq<LegacyEntryV> {
    s.map_values(|e: LegacyEntry| e@)
}

impl View for LegacyJson {
    type V = LegacyJsonV;

    open spec fn view(&self) -> LegacyJsonV {
        match self {
            LegacyJson::NotJson => LegacyJsonV::NotJson,
            LegacyJson::NotObject => LegacyJsonV::NotObject,
            LegacyJson::Object(v) => LegacyJsonV::Object(entries_view(v@)),
        }
    }
}

/// What `serde_json` reads from a text as a JSON value, seen as the old file
/// format: a function of the text alone.
pub uninterp spec fn json_reading(text: Seq<char>) -> LegacyJsonV;

/// Calls `serde_json::from_str::<serde_json::Value>` and converts the value:
/// not JSON, not an object, or the object's entries in the map's order, each
/// value as an array of optional strings. The contract claims only that the
/// result is [`json_reading`] of the text; JSON itself is left unsaid.
#[verifier::external_body]
fn read_legacy_json(text: &str) -> (r: LegacyJson)
    ensures
        r@ == json_reading(text@),
{
    match serde_json::from_str::<serde_json::Value>(text) {
        Err(_) => LegacyJson::NotJson,
        Ok(v) => match v.as_object() {
            None => LegacyJson::NotObject,
            Some(m) => LegacyJson::Object(m.iter().map(|(k, x)| LegacyEntry {
                name: k.clone(),
                ideas: x.as_array().map(|a| a.iter().map(|i| i.as_str().map(|t| t.to_string())).collect()),
            }).collect()),
        },
    }
}

/// The strings among the items, in order.
pub open spec fn string_items(v: Seq<Option<Seq<char>>>) -> Seq<Seq<char>>
    decreases v.len(),
{
    if v.len() == 0 {
        Seq::empty()
    } else {
        let prev = string_items(v.drop_last());
        match v.last() {
            Some(s) => prev.push(s),
            None => prev,
        }
    }
}

/// The idea texts of an old entry: its strings, when it was an array.
pub open spec fn legacy_texts(e: LegacyEntryV) -> Seq<Seq<char>> {
    match e.ideas {
        Some(v) => string_items(v),
        None => Seq::empty(),
    }
}

/// Ideas numbered 1, 2, 3, ... from texts.
pub open spec fn numbered_ideas(texts: Seq<Seq<char>>) -> Seq<IdeaV> {
    Seq::new(texts.len(), |j: int| IdeaV { id: (j + 1) as u64, text: texts[j] })
}

/// The store that an old file becomes: its entries in order, numbered 1, 2, 3,
/// ..., each with its strings as ideas numbered 1, 2, 3, ... and no sub-topics.
pub open spec fn migrated(entries: Seq<LegacyEntryV>) -> Seq<TopicV> {
    Seq::new(
        entries.len(),
        |i: int|
            TopicV {
                id: (i + 1) as u64,
                name: entries[i].name,
                ideas: numbered_ideas(legacy_texts(entries[i])),
                subs: Seq::empty(),
            },
    )
}

fn migrate_ideas(ideas: &Option<Vec<Option<String>>>) -> (r: Vec<Idea>)
    ensures
        ideas_view(r@) == numbered_ideas(
            legacy_texts(LegacyEntryV { name: Seq::empty(), ideas: match ideas {
                Some(v) => Some(v@.map_values(|o: Option<String>| opt_text_view(o))),
                None => None,
            } }),
        ),
{
    let mut out: Vec<Idea> = Vec::new();
    match ideas {
        None => {
            assert(ideas_view(out@) =~= numbered_ideas(Seq::empty()));
        },
        Some(v) => {
            let ghost vv = v@.map_values(|o: Option<String>| opt_text_view(o));
            assert(v@.len() == v.len());
            let mut i: usize = 0;
            while i < v.len()
                invariant
                    0 <= i <= v@.len(),
                    vv == v@.map_values(|o: Option<String>| opt_text_view(o)),
                    ideas_view(out@) == numbered_ideas(string_items(vv.take(i as int))),
                    out@.len() <= i,
                    v@.len() <= usize::MAX,
                decreases v@.len() - i,
            {
                assert(vv.take(i + 1).drop_last() =~= vv.take(i as int));
                match &v[i] {
                    Some(text) => {
                        let ghost before = out@;
                        assert(vv[i as int] == Some(text@));
                        let ghost prev = string_items(vv.take(i as int));
                        assert(string_items(vv.take(i + 1)) == prev.push(text@));
                        let next_idea_id = (out.len() + 1) as u64;
                        out.push(Idea { id: next_idea_id, text: text.clone() });
                        assert(ideas_view(out@) =~= ideas_view(before).push(
                            IdeaV { id: next_idea_id, text: text@ },
                        ));
                        assert(numbered_ideas(prev.push(text@)) =~= numbered_ideas(prev).push(
                            IdeaV { id: next_idea_id, text: text@ },
                        ));
                    },
                    None => {
                        assert(vv[i as int] == None::<Seq<char>>);
                        assert(string_items(vv.take(i + 1)) == string_items(vv.take(i as int)));
                    },
                }
                i += 1;
            }
            assert(vv.take(v@.len() as int) =~= vv);
        },
    }
    out
}

/// Converts the old format (topic name to a list of idea texts) into a store,
/// numbering topics and ideas in the order the entries come.
pub fn migrate_old_format(old: &Vec<LegacyEntry>) -> (store: Vec<Topic>)
    ensures
        topics_view(store@) == migrated(entries_view(old@)),
{
    let mut store: Vec<Topic> = Vec::new();
    assert(old@.len() == old.len());
    let mut i: usize = 0;
    while i < old.len()
        invariant
            0 <= i <= old@.len(),
            store@.len() == i,
            old@.len() <= usize::MAX,
            topics_view(store@) == migrated(entries_view(old@).take(i as int)),
        decreases old@.len() - i,
    {
        let entry = &old[i];
        let ideas = migrate_ideas(&entry.ideas);
        let ghost before = topics_view(store@);
        let next_topic_id = (i + 1) as u64;
        let t = Topic {
            id: next_topic_id,
            name: entry.name.clone(),
            ideas,
            sub_topics: Vec::new(),
        };
        store.push(t);
        assert(topics_view(store@) =~= migrated(entries_view(old@).take(i + 1)));
        i += 1;
    }
    assert(entries_view(old@).take(old@.len() as int) =~= entries_view(old@));
    store
}

/// Why a file could not be read in the old format.
pub enum LegacyError {
    /// The text is not JSON.
    NotJson,
    /// The text is JSON but not an object of topic names.
    UnknownFormat,
}

/// Reads a file's text in the old format and converts it: the error that the
/// JSON reading gives, or the migrated store.
pub open spec fn legacy_outcome(reading: LegacyJsonV) -> Result<Seq<TopicV>, LegacyError> {
    match reading {
        LegacyJsonV::NotJson => Err(LegacyError::NotJson),
        LegacyJsonV::NotObject => Err(LegacyError::UnknownFormat),
        LegacyJsonV::Object(entries) => Ok(migrated(entries)),
    }
}

/// Reads a file's text in the old format and converts it into a store.
pub fn load_legacy(text: &str) -> (r: Result<Vec<Topic>, LegacyError>)
    ensures
        match r {
            Ok(store) => legacy_outcome(json_reading(text@)) == Ok::<Seq<TopicV>, LegacyError>(
                topics_view(store@),
            ),
            Err(e) => legacy_outcome(json_reading(text@)) == Err::<Seq<TopicV>, LegacyError>(e),
        },
{
    match read_legacy_json(text) {
        LegacyJson::NotJson => Err(LegacyError::NotJson),
        LegacyJson::NotObject => Err(LegacyError::UnknownFormat),
        LegacyJson::Object(entries) => Ok(migrate_old_format(&entries)),
    }
}

} // verus!
