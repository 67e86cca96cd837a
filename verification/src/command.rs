use vstd::prelude::*;
use crate::error::{IdeaError, ErrorV};
use crate::chain::names_view;
use crate::text::{chars_of, parse_u64, parse_u64_value};

verus! {

/// Whether two texts are the same, character by character.
pub fn text_eq(a: &str, b: &str) -> (r: bool)
    ensures
        r == (a@ == b@),
{
    let x = chars_of(a);
    let y = chars_of(b);
    if x.len() != y.len() {
        return false;
    }
    let mut i: usize = 0;
    while i < x.len()
        invariant
            x@ == a@,
            y@ == b@,
            x@.len() == y@.len(),
            0 <= i <= x@.len(),
            forall|j: int| 0 <= j < i ==> x@[j] == y@[j],
        decreases x@.len() - i,
    {
        if x[i] != y[i] {
            return false;
        }
        i += 1;
    }
    assert(x@ =~= y@);
    true
}

/// A positive integer id, as the command line reads it.
pub open spec fn id_value(s: Seq<char>) -> Option<u64> {
    match parse_u64_value(s) {
        Some(n) => if n > 0 {
            Some(n)
        } else {
            None
        },
        None => None,
    }
}

/// Reads a positive integer id.
pub fn parse_id(s: &str) -> (r: Result<u64, IdeaError>)
    ensures
        match r {
            Ok(n) => id_value(s@) == Some(n),
            Err(e) => id_value(s@) is None && e@ == (ErrorV::InvalidId { text: s@ }),
        },
{
    match parse_u64(s) {
        Some(n) => {
            if n > 0 {
                Ok(n)
            } else {
                Err(IdeaError::InvalidId { text: s.to_owned() })
            }
        },
        None => Err(IdeaError::InvalidId { text: s.to_owned() }),
    }
}

/// A chain of ids read one by one: the first text that is not a positive
/// integer id is the error.
pub open spec fn id_path_value(strs: Seq<Seq<char>>) -> Result<Seq<u64>, Seq<char>>
    decreases strs.len(),
{
    if strs.len() == 0 {
        Ok(Seq::empty())
    } else {
        match id_path_value(strs.drop_last()) {
            Err(t) => Err(t),
            Ok(ids) => match id_value(strs.last()) {
                Some(n) => Ok(ids.push(n)),
                None => Err(strs.last()),
            },
        }
    }
}

/// Reads a chain of ids; the first one that is not a positive integer is the
/// error.
pub fn parse_id_path(strs: &[String]) -> (r: Result<Vec<u64>, IdeaError>)
    ensures
        match r {
            Ok(v) => id_path_value(names_view(strs@)) == Ok::<Seq<u64>, Seq<char>>(v@),
            Err(e) => exists|t: Seq<char>|
                id_path_value(names_view(strs@)) == Err::<Seq<u64>, Seq<char>>(t) && e@
                    == (ErrorV::InvalidId { text: t }),
        },
{
    let ghost ns = names_view(strs@);
    let mut out: Vec<u64> = Vec::new();
    let mut i: usize = 0;
    while i < strs.len()
        invariant
            0 <= i <= strs@.len(),
            ns == names_view(strs@),
            id_path_value(ns.take(i as int)) == Ok::<Seq<u64>, Seq<char>>(out@),
        decreases strs@.len() - i,
    {
        assert(ns.take(i + 1).drop_last() =~= ns.take(i as int));
        assert(ns.take(i + 1).last() == strs@[i as int]@);
        match parse_id(strs[i].as_str()) {
            Ok(n) => {
                out.push(n);
            },
            Err(e) => {
                proof {
                    lemma_id_path_prefix_error(ns, i as int + 1);
                }
                return Err(e);
            },
        }
        i += 1;
    }
    assert(ns.take(strs@.len() as int) =~= ns);
    Ok(out)
}

/// Once a prefix of the chain fails, the whole chain fails the same way.
proof fn lemma_id_path_prefix_error(strs: Seq<Seq<char>>, k: int)
    requires
        0 <= k <= strs.len(),
        id_path_value(strs.take(k)) is Err,
    ensures
        id_path_value(strs) == id_path_value(strs.take(k)),
    decreases strs.len() - k,
{
    if k < strs.len() {
        assert(strs.take(k + 1).drop_last() =~= strs.take(k));
        lemma_id_path_prefix_error(strs, k + 1);
    } else {
        assert(strs.take(k) =~= strs);
    }
}

/// Which command a usage error is about.
pub enum Usage {
    Search,
    Edit,
    AddTopic,
    Delete,
}

/// What the command line asks for.
pub enum Command {
    /// List every topic and idea.
    List,
    /// Search topics and ideas with one query.
    SearchAll { query: String },
    /// Search with a topic selector and an idea filter.
    Search { selector: String, query: String },
    /// Rename a topic or edit an idea.
    Edit { ids: Vec<u64> },
    /// Walk or create a chain of topics.
    AddTopic { names: Vec<String> },
    /// Delete an idea or a topic.
    Delete { ids: Vec<u64> },
    /// Renumber everything.
    Defrag,
    /// File an idea under a chain of topics.
    AddIdea { topic_path: Vec<String>, text: String },
}

/// Why the command line could not be read.
pub enum CommandError {
    /// Nothing was given after the program's name.
    NoArguments,
    /// The command was given the wrong number of arguments.
    InvalidUsage(Usage),
    /// An id is not a positive integer.
    BadId(IdeaError),
}

pub enum CommandV {
    List,
    SearchAll { query: Seq<char> },
    Search { selector: Seq<char>, query: Seq<char> },
    Edit { ids: Seq<u64> },
    AddTopic { names: Seq<Seq<char>> },
    Delete { ids: Seq<u64> },
    Defrag,
    AddIdea { topic_path: Seq<Seq<char>>, text: Seq<char> },
}

pub enum CommandErrorV {
    NoArguments,
    InvalidUsage(Usage),
    BadId(ErrorV),
}

impl View for Command {
    type V = CommandV;

    open spec fn view(&self) -> CommandV {
        match self {
            Command::List => CommandV::List,
            Command::SearchAll { query } => CommandV::SearchAll { query: query@ },
            Command::Search { selector, query } => CommandV::Search {
                selector: selector@,
                query: query@,
            },
            Command::Edit { ids } => CommandV::Edit { ids: ids@ },
            Command::AddTopic { names } => CommandV::AddTopic { names: names_view(names@) },
            Command::Delete { ids } => CommandV::Delete { ids: ids@ },
            Command::Defrag => CommandV::Defrag,
            Command::AddIdea { topic_path, text } => CommandV::AddIdea {
                topic_path: names_view(topic_path@),
                text: text@,
            },
        }
    }
}

impl View for CommandError {
    type V = CommandErrorV;

    open spec fn view(&self) -> CommandErrorV {
        match self {
            CommandError::NoArguments => CommandErrorV::NoArguments,
            CommandError::InvalidUsage(u) => CommandErrorV::InvalidUsage(*u),
            CommandError::BadId(e) => CommandErrorV::BadId(e@),
        }
    }
}

/// An id chain for a command, or the error for its first bad id.
pub open spec fn ids_command(
    strs: Seq<Seq<char>>,
    make: spec_fn(Seq<u64>) -> CommandV,
) -> Result<CommandV, CommandErrorV> {
    match id_path_value(strs) {
        Ok(ids) => Ok(make(ids)),
        Err(t) => Err(CommandErrorV::BadId(ErrorV::InvalidId { text: t })),
    }
}

/// How the command line reads its arguments (the first being the program's
/// name): `list`, `search` with one or two arguments, `edit`, `add-topic` and
/// `delete` with at least one, `defrag`; anything else files an idea, the
/// last argument being its text and the ones before it the topic chain
/// (`no topic` when there are none).
pub open spec fn command_of(args: Seq<Seq<char>>) -> Result<CommandV, CommandErrorV> {
    let n = args.len();
    if n <= 1 {
        Err(CommandErrorV::NoArguments)
    } else if n == 2 && args[1] == "list"@ {
        Ok(CommandV::List)
    } else if args[1] == "search"@ {
        if n == 3 {
            Ok(CommandV::SearchAll { query: args[2] })
        } else if n == 4 {
            Ok(CommandV::Search { selector: args[2], query: args[3] })
        } else {
            Err(CommandErrorV::InvalidUsage(Usage::Search))
        }
    } else if args[1] == "edit"@ {
        if n < 3 {
            Err(CommandErrorV::InvalidUsage(Usage::Edit))
        } else {
            ids_command(args.skip(2), |ids: Seq<u64>| CommandV::Edit { ids })
        }
    } else if args[1] == "add-topic"@ {
        if n < 3 {
            Err(CommandErrorV::InvalidUsage(Usage::AddTopic))
        } else {
            Ok(CommandV::AddTopic { names: args.skip(2) })
        }
    } else if args[1] == "delete"@ {
        if n < 3 {
            Err(CommandErrorV::InvalidUsage(Usage::Delete))
        } else {
            ids_command(args.skip(2), |ids: Seq<u64>| CommandV::Delete { ids })
        }
    } else if n == 2 && args[1] == "defrag"@ {
        Ok(CommandV::Defrag)
    } else if n == 2 {
        Ok(CommandV::AddIdea { topic_path: seq!["no topic"@], text: args[1] })
    } else {
        Ok(CommandV::AddIdea { topic_path: args.subrange(1, n - 1), text: args[n - 1] })
    }
}

fn copy_strings(v: &[String]) -> (r: Vec<String>)
    ensures
        names_view(r@) == names_view(v@),
{
    let mut out: Vec<String> = Vec::new();
    let mut i: usize = 0;
    while i < v.len()
        invariant
            0 <= i <= v@.len(),
            names_view(out@) == names_view(v@).take(i as int),
        decreases v@.len() - i,
    {
        let ghost before = out@;
        out.push(v[i].clone());
        assert(names_view(out@) =~= names_view(before).push(v@[i as int]@));
        assert(names_view(v@).take(i + 1) =~= names_view(v@).take(i as int).push(v@[i as int]@));
        i += 1;
    }
    assert(names_view(v@).take(v@.len() as int) =~= names_view(v@));
    out
}

/// Reads the command line (the program's name first).
pub fn parse_command(args: &[String]) -> (r: Result<Command, CommandError>)
    ensures
        match r {
            Ok(c) => command_of(names_view(args@)) == Ok::<CommandV, CommandErrorV>(c@),
            Err(e) => command_of(names_view(args@)) == Err::<CommandV, CommandErrorV>(e@),
        },
{
    let ghost a = names_view(args@);
    let n = args.len();
    if n <= 1 {
        return Err(CommandError::NoArguments);
    }
    assert(a[1] == args@[1]@);
    let cmd = args[1].as_str();
    if n == 2 && text_eq(cmd, "list") {
        return Ok(Command::List);
    }
    if text_eq(cmd, "search") {
        assert(n > 2 ==> a[2] == args@[2]@);
        assert(n > 3 ==> a[3] == args@[3]@);
        if n == 3 {
            return Ok(Command::SearchAll { query: args[2].clone() });
        } else if n == 4 {
            return Ok(Command::Search { selector: args[2].clone(), query: args[3].clone() });
        } else {
            return Err(CommandError::InvalidUsage(Usage::Search));
        }
    }
    let rest = &args[2..n];
    assert(names_view(rest@) =~= a.skip(2));
    if text_eq(cmd, "edit") {
        if n < 3 {
            return Err(CommandError::InvalidUsage(Usage::Edit));
        }
        return match parse_id_path(rest) {
            Ok(ids) => Ok(Command::Edit { ids }),
            Err(e) => Err(CommandError::BadId(e)),
        };
    }
    if text_eq(cmd, "add-topic") {
        if n < 3 {
            return Err(CommandError::InvalidUsage(Usage::AddTopic));
        }
        return Ok(Command::AddTopic { names: copy_strings(rest) });
    }
    if text_eq(cmd, "delete") {
        if n < 3 {
            return Err(CommandError::InvalidUsage(Usage::Delete));
        }
        return match parse_id_path(rest) {
            Ok(ids) => Ok(Command::Delete { ids }),
            Err(e) => Err(CommandError::BadId(e)),
        };
    }
    if n == 2 && text_eq(cmd, "defrag") {
        return Ok(Command::Defrag);
    }
    if n == 2 {
        let mut topic_path: Vec<String> = Vec::new();
        topic_path.push(String::from_str("no topic"));
        assert(names_view(topic_path@) =~= seq!["no topic"@]);
        return Ok(Command::AddIdea { topic_path, text: args[1].clone() });
    }
    let middle = &args[1..n - 1];
    assert(names_view(middle@) =~= a.subrange(1, n - 1));
    assert(a[n - 1] == args@[n - 1]@);
    Ok(Command::AddIdea { topic_path: copy_strings(middle), text: args[n - 1].clone() })
}

} // verus!
