use vstd::prelude::*;
use crate::text::{decimal, push_decimal};

verus! {

/// Why an operation on the store was refused.
pub enum IdeaError {
    /// An id path with no ids at all.
    EmptyPath,
    /// No top-level topic carries this id.
    NoTopLevelTopic { id: u64 },
    /// The named topic has no direct sub-topic with this id.
    NoSubTopic { topic_name: String, id: u64, sub_topic_count: usize },
    /// The named topic has no idea with this id.
    NoIdea { idea_id: u64, topic_name: String, idea_count: usize },
    /// The named topic has neither an idea nor a direct sub-topic with this id.
    NoIdeaOrSubTopic { id: u64, topic_name: String, idea_count: usize, sub_topic_count: usize },
    /// The text is not a positive integer id.
    InvalidId { text: String },
}

/// The mathematical value of an [`IdeaError`].
pub enum ErrorV {
    EmptyPath,
    NoTopLevelTopic { id: u64 },
    NoSubTopic { topic_name: Seq<char>, id: u64, sub_topic_count: nat },
    NoIdea { idea_id: u64, topic_name: Seq<char>, idea_count: nat },
    NoIdeaOrSubTopic { id: u64, topic_name: Seq<char>, idea_count: nat, sub_topic_count: nat },
    InvalidId { text: Seq<char> },
}

impl View for IdeaError {
    type V = ErrorV;

    open spec fn view(&self) -> ErrorV {
        match self {
            IdeaError::EmptyPath => ErrorV::EmptyPath,
            IdeaError::NoTopLevelTopic { id } => ErrorV::NoTopLevelTopic { id: *id },
            IdeaError::NoSubTopic { topic_name, id, sub_topic_count } => ErrorV::NoSubTopic {
                topic_name: topic_name@,
                id: *id,
                sub_topic_count: *sub_topic_count as nat,
            },
            IdeaError::NoIdea { idea_id, topic_name, idea_count } => ErrorV::NoIdea {
                idea_id: *idea_id,
                topic_name: topic_name@,
                idea_count: *idea_count as nat,
            },
            IdeaError::NoIdeaOrSubTopic { id, topic_name, idea_count, sub_topic_count } =>
                ErrorV::NoIdeaOrSubTopic {
                id: *id,
                topic_name: topic_name@,
                idea_count: *idea_count as nat,
                sub_topic_count: *sub_topic_count as nat,
            },
            IdeaError::InvalidId { text } => ErrorV::InvalidId { text: text@ },
        }
    }
}


/// The text that the command line prints for an error.
pub open spec fn error_text(e: ErrorV) -> Seq<char> {
    match e {
        ErrorV::EmptyPath => "Empty id path."@,
        ErrorV::NoTopLevelTopic { id } => "No top-level topic found with id "@ + decimal(id as nat)
            + "."@,
        ErrorV::NoSubTopic { topic_name, id, sub_topic_count } => "Topic \""@ + topic_name
            + "\" has no sub-topic with id "@ + decimal(id as nat) + " ("@ + decimal(
            sub_topic_count,
        ) + " sub-topic(s))."@,
        ErrorV::NoIdea { idea_id, topic_name, idea_count } => "No idea found with id "@ + decimal(
            idea_id as nat,
        ) + " in topic '"@ + topic_name + "' ("@ + decimal(idea_count) + " idea(s))."@,
        ErrorV::NoIdeaOrSubTopic { id, topic_name, idea_count, sub_topic_count } =>
            "No idea and no sub-topic found with id "@ + decimal(id as nat) + " in topic '"@
            + topic_name + "' ("@ + decimal(idea_count) + " idea(s), "@ + decimal(sub_topic_count)
            + " sub-topic(s))."@,
        ErrorV::InvalidId { text } => "id must be a positive integer (got '"@ + text + "')."@,
    }
}

impl IdeaError {
    /// The text that the command line prints for this error.
    pub fn message(&self) -> (r: String)
        ensures
            r@ == error_text(self@),
    {
        let mut s = String::new();
        match self {
            IdeaError::EmptyPath => {
                s.append("Empty id path.");
            },
            IdeaError::NoTopLevelTopic { id } => {
                s.append("No top-level topic found with id ");
                push_decimal(&mut s, *id);
                s.append(".");
            },
            IdeaError::NoSubTopic { topic_name, id, sub_topic_count } => {
                s.append("Topic \"");
                s.append(topic_name.as_str());
                s.append("\" has no sub-topic with id ");
                push_decimal(&mut s, *id);
                s.append(" (");
                push_decimal(&mut s, *sub_topic_count as u64);
                s.append(" sub-topic(s)).");
            },
            IdeaError::NoIdea { idea_id, topic_name, idea_count } => {
                s.append("No idea found with id ");
                push_decimal(&mut s, *idea_id);
                s.append(" in topic '");
                s.append(topic_name.as_str());
                s.append("' (");
                push_decimal(&mut s, *idea_count as u64);
                s.append(" idea(s)).");
            },
            IdeaError::NoIdeaOrSubTopic { id, topic_name, idea_count, sub_topic_count } => {
                s.append("No idea and no sub-topic found with id ");
                push_decimal(&mut s, *id);
                s.append(" in topic '");
                s.append(topic_name.as_str());
                s.append("' (");
                push_decimal(&mut s, *idea_count as u64);
                s.append(" idea(s), ");
                push_decimal(&mut s, *sub_topic_count as u64);
                s.append(" sub-topic(s)).");
            },
            IdeaError::InvalidId { text } => {
                s.append("id must be a positive integer (got '");
                s.append(text.as_str());
                s.append("').");
            },
        }
        assert(s@ =~= error_text(self@));
        s
    }
}

} // verus!
