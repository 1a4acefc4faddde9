//! Command-line dispatch rules: which operation an argument list selects,
//! joining description words, the clear-confirmation rule, and the texts
//! reported for each outcome.

use vstd::prelude::*;
use crate::strutil::{dec_digits, spec_parse_u32, parse_u32, str_eq, u32_to_string};

verus! {

/// The operation selected by an argument list, or the usage error to report.
pub enum Command {
    /// No command given: print the usage text.
    Help,
    /// Add a task with the given (already joined) description.
    Add { description: String },
    /// `add` without any description words.
    AddMissingText,
    /// List all tasks.
    List,
    /// Mark the task with this id complete.
    Complete { id: u32 },
    /// `complete` without an id argument.
    CompleteMissingId,
    /// `complete` with an argument that is not a number.
    CompleteInvalidId,
    /// Remove the task with this id.
    Remove { id: u32 },
    /// `remove` without an id argument.
    RemoveMissingId,
    /// `remove` with an argument that is not a number.
    RemoveInvalidId,
    /// Clear all tasks (after confirmation).
    Clear,
    /// Any other first argument: report it and print the usage text.
    Unknown { command: String },
}

/// The character sequences of an argument list.
pub open spec fn arg_views(args: Seq<String>) -> Seq<Seq<char>> {
    args.map_values(|a: String| a@)
}

/// The words joined with single spaces, in order.
pub open spec fn spec_join(words: Seq<Seq<char>>) -> Seq<char>
    decreases words.len(),
{
    if words.len() == 0 {
        Seq::empty()
    } else if words.len() == 1 {
        words[0]
    } else {
        words[0] + seq![' '] + spec_join(words.drop_first())
    }
}

/// Appending one more word extends the joined text by a space and the word.
pub proof fn lemma_join_snoc(words: Seq<Seq<char>>, w: Seq<char>)
    ensures
        spec_join(words.push(w)) == if words.len() == 0 {
            w
        } else {
            spec_join(words) + seq![' '] + w
        },
    decreases words.len(),
{
    let p = words.push(w);
    if words.len() == 0 {
        assert(p.len() == 1);
        assert(p[0] == w);
    } else if words.len() == 1 {
        assert(p.drop_first() =~= seq![w]);
        assert(spec_join(p) == p[0] + seq![' '] + spec_join(p.drop_first()));
        assert(p[0] == words[0]);
        assert(spec_join(seq![w]) == w);
        assert(spec_join(words) == words[0]);
    } else {
        assert(p.drop_first() =~= words.drop_first().push(w));
        lemma_join_snoc(words.drop_first(), w);
        assert(spec_join(words) == words[0] + seq![' '] + spec_join(words.drop_first()));
        assert(spec_join(p) == p[0] + seq![' '] + spec_join(p.drop_first()));
        assert(spec_join(words) + seq![' '] + w =~= words[0] + seq![' '] + (spec_join(
            words.drop_first(),
        ) + seq![' '] + w));
    }
}

/// Joins the arguments from index `from` on with single spaces.
pub fn join_words(args: &Vec<String>, from: usize) -> (s: String)
    requires
        from <= args@.len(),
    ensures
        s@ == spec_join(arg_views(args@).skip(from as int)),
{
    let ghost ws = arg_views(args@).skip(from as int);
    let mut s = String::new();
    let mut i: usize = from;
    while i < args.len()
        invariant
            from <= i <= args@.len(),
            ws == arg_views(args@).skip(from as int),
            ws.len() == args@.len() - from,
            s@ == spec_join(ws.take(i - from)),
        decreases args.len() - i,
    {
        proof {
            assert(ws.take(i - from + 1) =~= ws.take(i - from).push(ws[i - from]));
            lemma_join_snoc(ws.take(i - from), ws[i - from]);
            assert(ws[i - from] == args@[i as int]@);
        }
        if i > from {
            s.append(" ");
            proof {
                reveal_strlit(" ");
                assert(" "@ =~= seq![' ']);
            }
        }
        s.append(args[i].as_str());
        proof {
            if i == from {
                assert(s@ =~= spec_join(ws.take(i - from + 1)));
            } else {
                assert(s@ =~= spec_join(ws.take(i - from + 1)));
            }
        }
        i = i + 1;
    }
    proof {
        assert(ws.take(args@.len() - from) =~= ws);
    }
    s
}

/// What an argument list selects, exactly as the dispatch table says:
/// no command prints help; `add`, `complete` and `remove` demand their
/// argument; ids must read as numbers; anything else is unknown.
pub open spec fn spec_selected(argv: Seq<Seq<char>>, r: Command) -> bool {
    if argv.len() < 2 {
        r is Help
    } else if argv[1] == "add"@ {
        if argv.len() < 3 {
            r is AddMissingText
        } else {
            r matches Command::Add { description } && description@ == spec_join(argv.skip(2))
        }
    } else if argv[1] == "list"@ {
        r is List
    } else if argv[1] == "complete"@ {
        if argv.len() < 3 {
            r is CompleteMissingId
        } else {
            match spec_parse_u32(argv[2]) {
                Some(n) => r matches Command::Complete { id } && id == n,
                None => r is CompleteInvalidId,
            }
        }
    } else if argv[1] == "remove"@ {
        if argv.len() < 3 {
            r is RemoveMissingId
        } else {
            match spec_parse_u32(argv[2]) {
                Some(n) => r matches Command::Remove { id } && id == n,
                None => r is RemoveInvalidId,
            }
        }
    } else if argv[1] == "clear"@ {
        r is Clear
    } else {
        r matches Command::Unknown { command } && command@ == argv[1]
    }
}

/// Reads the argument list (the program name first) into the command it
/// selects, as [`spec_selected`] describes.
pub fn parse_args(args: &Vec<String>) -> (r: Command)
    ensures
        spec_selected(arg_views(args@), r),
{
    let ghost argv = arg_views(args@);
    if args.len() < 2 {
        return Command::Help;
    }
    assert(argv[1] == args@[1]@);
    if str_eq(args[1].as_str(), "add") {
        if args.len() < 3 {
            Command::AddMissingText
        } else {
            Command::Add { description: join_words(args, 2) }
        }
    } else if str_eq(args[1].as_str(), "list") {
        Command::List
    } else if str_eq(args[1].as_str(), "complete") {
        if args.len() < 3 {
            Command::CompleteMissingId
        } else {
            assert(argv[2] == args@[2]@);
            match parse_u32(args[2].as_str()) {
                Some(id) => Command::Complete { id },
                None => Command::CompleteInvalidId,
            }
        }
    } else if str_eq(args[1].as_str(), "remove") {
        if args.len() < 3 {
            Command::RemoveMissingId
        } else {
            assert(argv[2] == args@[2]@);
            match parse_u32(args[2].as_str()) {
                Some(id) => Command::Remove { id },
                None => Command::RemoveInvalidId,
            }
        }
    } else if str_eq(args[1].as_str(), "clear") {
        Command::Clear
    } else {
        Command::Unknown { command: args[1].clone() }
    }
}

/// Whether the text confirms a clear: it reads exactly "yes" in any
/// letter case, and nothing else — no surrounding whitespace allowed.
pub open spec fn spec_is_yes(s: Seq<char>) -> bool {
    s.len() == 3 && (s[0] == 'y' || s[0] == 'Y') && (s[1] == 'e' || s[1] == 'E') && (s[2] == 's'
        || s[2] == 'S')
}

/// Decides a clear confirmation: true exactly when the input line matches
/// "yes" case-insensitively.
pub fn confirm_clear(input: &str) -> (r: bool)
    ensures
        r == spec_is_yes(input@),
{
    let n = input.unicode_len();
    if n != 3 {
        return false;
    }
    let c0 = input.get_char(0);
    let c1 = input.get_char(1);
    let c2 = input.get_char(2);
    (c0 == 'y' || c0 == 'Y') && (c1 == 'e' || c1 == 'E') && (c2 == 's' || c2 == 'S')
}

/// The report for a successful add: `Task added with ID: <id>`.
pub fn added_message(id: u32) -> (s: String)
    ensures
        s@ == "Task added with ID: "@ + dec_digits(id as nat),
{
    let mut s = String::new();
    s.append("Task added with ID: ");
    let d = u32_to_string(id);
    s.append(d.as_str());
    s
}

/// The report for a completed task: `Task <id> marked as complete.`
pub fn completed_message(id: u32) -> (s: String)
    ensures
        s@ == "Task "@ + dec_digits(id as nat) + " marked as complete."@,
{
    let mut s = String::new();
    s.append("Task ");
    let d = u32_to_string(id);
    s.append(d.as_str());
    s.append(" marked as complete.");
    s
}

/// The report for a task already complete: `Task <id> is already complete!`
pub fn already_complete_message(id: u32) -> (s: String)
    ensures
        s@ == "Task "@ + dec_digits(id as nat) + " is already complete!"@,
{
    let mut s = String::new();
    s.append("Task ");
    let d = u32_to_string(id);
    s.append(d.as_str());
    s.append(" is already complete!");
    s
}

/// The report for a missing task: `Task <id> not found.`
pub fn not_found_message(id: u32) -> (s: String)
    ensures
        s@ == "Task "@ + dec_digits(id as nat) + " not found."@,
{
    let mut s = String::new();
    s.append("Task ");
    let d = u32_to_string(id);
    s.append(d.as_str());
    s.append(" not found.");
    s
}

/// The report for a removed task: `Task <id> removed.`
pub fn removed_message(id: u32) -> (s: String)
    ensures
        s@ == "Task "@ + dec_digits(id as nat) + " removed."@,
{
    let mut s = String::new();
    s.append("Task ");
    let d = u32_to_string(id);
    s.append(d.as_str());
    s.append(" removed.");
    s
}

} // verus!
