//! The command-line surface: parsing a subcommand and its arguments into a
//! command or a usage error, the message each error carries, the help text,
//! the two file paths a list name resolves to, and the content
//! transformation performed when a pending list is promoted.

use vstd::prelude::*;
use vstd::string::StringExecFns;
use crate::sites::payload;

verus! {

/// Which of a list's two files a `cat` command prints.
#[derive(Clone, Copy, Debug, PartialEq, Eq, Structural)]
pub enum ListType {
    Pending,
    Allowed,
}

/// A parsed invocation.
#[derive(Debug)]
pub enum Command {
    /// Print the help text.
    Help,
    /// Append the entries of the comma-separated `sites` to the named
    /// list's pending file.
    Add { name: String, sites: String },
    /// Move the named list's pending contents to its allowed file
    /// (subcommand `allow` or `complete`).
    Promote { name: String },
    /// Print one of the named list's two files.
    Cat { name: String, which: ListType },
}

/// A usage error: reported on standard error, exit status 1, before any
/// file is touched.
#[derive(Debug)]
pub enum UsageError {
    /// No subcommand was given.
    MissingSubcommand,
    /// The subcommand is not one of help, add, allow, complete, cat.
    UnrecognizedCommand { word: String },
    /// A subcommand that needs a list name was given none.
    MissingListName,
    /// `add` was given no site list.
    MissingSiteList,
    /// `cat` was given a selector other than `pending` or `allowed`.
    InvalidListType { word: String },
}

/// Which file a `cat` selector chooses: `pending` (also chosen when the
/// selector is absent, modelled as empty) or `allowed`; anything else is
/// rejected.
pub open spec fn list_type_of(word: Seq<char>) -> Option<ListType> {
    if word.len() == 0 || word == "pending"@ {
        Some(ListType::Pending)
    } else if word == "allowed"@ {
        Some(ListType::Allowed)
    } else {
        None
    }
}

/// Parses the process arguments (after the program path) into a command.
/// Exactly the listed subcommands are accepted; each required argument
/// that is absent yields its usage error; arguments past the ones a
/// subcommand uses are ignored.
pub fn parse_args(args: &Vec<String>) -> (r: Result<Command, UsageError>)
    ensures
        args@.len() == 0 ==> r == Err::<Command, UsageError>(UsageError::MissingSubcommand),
        args@.len() > 0 && args@[0]@ == "help"@ ==> r == Ok::<Command, UsageError>(Command::Help),
        args@.len() > 0 && args@[0]@ == "add"@ ==> {
            if args@.len() < 2 {
                r == Err::<Command, UsageError>(UsageError::MissingListName)
            } else if args@.len() < 3 {
                r == Err::<Command, UsageError>(UsageError::MissingSiteList)
            } else {
                r matches Ok(Command::Add { name, sites }) && name@ == args@[1]@ && sites@
                    == args@[2]@
            }
        },
        args@.len() > 0 && (args@[0]@ == "allow"@ || args@[0]@ == "complete"@) ==> {
            if args@.len() < 2 {
                r == Err::<Command, UsageError>(UsageError::MissingListName)
            } else {
                r matches Ok(Command::Promote { name }) && name@ == args@[1]@
            }
        },
        args@.len() > 0 && args@[0]@ == "cat"@ ==> {
            if args@.len() < 2 {
                r == Err::<Command, UsageError>(UsageError::MissingListName)
            } else {
                let selector = if args@.len() >= 3 {
                    args@[2]@
                } else {
                    Seq::<char>::empty()
                };
                match list_type_of(selector) {
                    Some(t) => r matches Ok(Command::Cat { name, which }) && name@ == args@[1]@
                        && which == t,
                    None => r matches Err(UsageError::InvalidListType { word }) && word@
                        == selector,
                }
            }
        },
        args@.len() > 0 && args@[0]@ != "help"@ && args@[0]@ != "add"@ && args@[0]@ != "allow"@
            && args@[0]@ != "complete"@ && args@[0]@ != "cat"@ ==> (r matches Err(
            UsageError::UnrecognizedCommand { word },
        ) && word@ == args@[0]@),
{
    proof {
        reveal_strlit("help");
        reveal_strlit("add");
        reveal_strlit("allow");
        reveal_strlit("complete");
        reveal_strlit("cat");
        reveal_strlit("pending");
        reveal_strlit("allowed");
        reveal_strlit("");
        // The literals' lengths make the subcommand words pairwise distinct;
        // naming the lengths lets the solver see it.
        assert("help"@.len() == 4);
        assert("add"@.len() == 3);
        assert("allow"@.len() == 5);
        assert("complete"@.len() == 8);
        assert("cat"@.len() == 3);
        assert("pending"@.len() == 7);
        assert("allowed"@.len() == 7);
        assert("add"@[0] == 'a' && "cat"@[0] == 'c');
        assert("pending"@[0] == 'p' && "allowed"@[0] == 'a');
    }
    if args.len() == 0 {
        return Err(UsageError::MissingSubcommand);
    }
    let cmd = &args[0];
    if *cmd == String::from_str("help") {
        Ok(Command::Help)
    } else if *cmd == String::from_str("add") {
        if args.len() < 2 {
            Err(UsageError::MissingListName)
        } else if args.len() < 3 {
            Err(UsageError::MissingSiteList)
        } else {
            Ok(Command::Add { name: args[1].clone(), sites: args[2].clone() })
        }
    } else if *cmd == String::from_str("allow") || *cmd == String::from_str("complete") {
        if args.len() < 2 {
            Err(UsageError::MissingListName)
        } else {
            Ok(Command::Promote { name: args[1].clone() })
        }
    } else if *cmd == String::from_str("cat") {
        if args.len() < 2 {
            Err(UsageError::MissingListName)
        } else {
            let selector = if args.len() >= 3 {
                args[2].clone()
            } else {
                String::new()
            };
            if selector.as_str().is_empty() || selector == String::from_str("pending") {
                Ok(Command::Cat { name: args[1].clone(), which: ListType::Pending })
            } else if selector == String::from_str("allowed") {
                Ok(Command::Cat { name: args[1].clone(), which: ListType::Allowed })
            } else {
                Err(UsageError::InvalidListType { word: selector })
            }
        }
    } else {
        Err(UsageError::UnrecognizedCommand { word: cmd.clone() })
    }
}

/// A `cat` with no selector prints the same file as one that says
/// `pending`: both select the pending list.
pub proof fn lemma_cat_defaults_to_pending()
    ensures
        list_type_of(Seq::<char>::empty()) == list_type_of("pending"@),
        list_type_of(Seq::<char>::empty()) == Some(ListType::Pending),
{
}

/// The message a usage error is reported with.
pub open spec fn message_of(e: UsageError) -> Seq<char> {
    match e {
        UsageError::MissingSubcommand => "You must specify a subcommand. Use \"help\" to see available commands."@,
        UsageError::UnrecognizedCommand { word } => "unrecognized command \""@ + word@ + "\""@,
        UsageError::MissingListName => "You must specify a list name. See help for details."@,
        UsageError::MissingSiteList => "You must specify a site list. See help for details."@,
        UsageError::InvalidListType { word } => word@ + " is not a valid list type"@,
    }
}

/// The message text for a usage error, as `message_of` describes; a
/// message about a rejected word contains that word.
pub fn usage_message(e: &UsageError) -> (m: String)
    ensures
        m@ == message_of(*e),
{
    match e {
        UsageError::MissingSubcommand => String::from_str(
            "You must specify a subcommand. Use \"help\" to see available commands.",
        ),
        UsageError::UnrecognizedCommand { word } => {
            let mut m = String::from_str("unrecognized command \"");
            m.append(word.as_str());
            m.append("\"");
            m
        },
        UsageError::MissingListName => String::from_str(
            "You must specify a list name. See help for details.",
        ),
        UsageError::MissingSiteList => String::from_str(
            "You must specify a site list. See help for details.",
        ),
        UsageError::InvalidListType { word } => {
            let mut m = word.clone();
            m.append(" is not a valid list type");
            m
        },
    }
}

/// The static help text.
pub open spec fn help_text_view() -> Seq<char> {
    "Available commands:\n    help                                    Show the help.\n    add <list_name> <site_list>             Add sites to a proxy list. site_list is a comma separated list of urls or domains to add to the list.\n    allow <list_name>                       Move all sites in that list to the \"allowed\" list (complete does the same)\n    cat <list_name> [pending|allowed]       Print out the given pending list or allowed list"@
}

/// The help text the `help` subcommand prints.
pub fn help_text() -> (h: String)
    ensures
        h@ == help_text_view(),
{
    String::from_str(
        "Available commands:\n    help                                    Show the help.\n    add <list_name> <site_list>             Add sites to a proxy list. site_list is a comma separated list of urls or domains to add to the list.\n    allow <list_name>                       Move all sites in that list to the \"allowed\" list (complete does the same)\n    cat <list_name> [pending|allowed]       Print out the given pending list or allowed list",
    )
}

/// The pending file's path for a list name under a storage root.
pub open spec fn pending_path(root: Seq<char>, name: Seq<char>) -> Seq<char> {
    root + "/proxylists/"@ + name + "-pending.txt"@
}

/// The allowed file's path for a list name under a storage root.
pub open spec fn allowed_path(root: Seq<char>, name: Seq<char>) -> Seq<char> {
    root + "/proxylists/"@ + name + "-allowed.txt"@
}

/// The two file paths a list name resolves to.
pub struct ListPaths {
    pub pending: String,
    pub allowed: String,
}

/// Resolves a list name to its two file paths under `root`, the
/// home-directory-derived storage root.
pub fn list_paths(root: &str, name: &str) -> (p: ListPaths)
    ensures
        p.pending@ == pending_path(root@, name@),
        p.allowed@ == allowed_path(root@, name@),
{
    let mut pending = String::from_str(root);
    pending.append("/proxylists/");
    pending.append(name);
    pending.append("-pending.txt");
    let mut allowed = String::from_str(root);
    allowed.append("/proxylists/");
    allowed.append(name);
    allowed.append("-allowed.txt");
    ListPaths { pending, allowed }
}

/// The file a `cat` command prints: the path matching its selector.
pub fn chosen_path(paths: &ListPaths, which: ListType) -> (p: &String)
    ensures
        which == ListType::Pending ==> p@ == paths.pending@,
        which == ListType::Allowed ==> p@ == paths.allowed@,
{
    match which {
        ListType::Pending => &paths.pending,
        ListType::Allowed => &paths.allowed,
    }
}

/// The contents of a list's two files.
pub struct ListContents {
    pub pending: String,
    pub allowed: String,
}

/// The promotion performed by `allow`/`complete`: the whole pending
/// content is appended to the allowed content, and the pending content
/// becomes empty.
pub fn promote(lists: ListContents) -> (r: ListContents)
    ensures
        r.allowed@ == lists.allowed@ + lists.pending@,
        r.pending@ == Seq::<char>::empty(),
{
    let new_allowed = lists.allowed.concat(lists.pending.as_str());
    ListContents { pending: String::new(), allowed: new_allowed }
}

/// The pending content after adding `sites` to a pending file that held
/// `pending`: the payload is appended, nothing else changes.
pub open spec fn after_add(pending: Seq<char>, sites: Seq<char>) -> Seq<char> {
    pending + payload(sites)
}

/// Adding is append-only: two adds leave the prior content followed by
/// the first call's payload, then the second's, in call order.
pub proof fn lemma_add_is_append_only(
    pending: Seq<char>,
    first_sites: Seq<char>,
    second_sites: Seq<char>,
)
    ensures
        after_add(after_add(pending, first_sites), second_sites) == pending + payload(first_sites)
            + payload(second_sites),
{
}

} // verus!
