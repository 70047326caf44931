//! Tests of argument parsing, error messages, path resolution, and
//! promotion.

use proxylists::commands::{
    chosen_path, help_text, list_paths, parse_args, promote, usage_message, Command, ListContents,
    ListType, UsageError,
};

fn strings(words: &[&str]) -> Vec<String> {
    words.iter().map(|w| w.to_string()).collect()
}

#[test]
fn help_is_recognized() {
    assert!(matches!(parse_args(&strings(&["help"])), Ok(Command::Help)));
    assert!(help_text().contains("Available commands"));
    assert!(help_text().contains("add <list_name> <site_list>"));
}

#[test]
fn add_parses_name_and_sites() {
    match parse_args(&strings(&["add", "mylist", "a.com,b.org"])) {
        Ok(Command::Add { name, sites }) => {
            assert_eq!(name, "mylist");
            assert_eq!(sites, "a.com,b.org");
        }
        other => panic!("unexpected parse: {:?}", other),
    }
}

#[test]
fn promote_parses_either_word() {
    match parse_args(&strings(&["allow", "mylist"])) {
        Ok(Command::Promote { name }) => assert_eq!(name, "mylist"),
        other => panic!("unexpected parse: {:?}", other),
    }
    match parse_args(&strings(&["complete", "mylist"])) {
        Ok(Command::Promote { name }) => assert_eq!(name, "mylist"),
        other => panic!("unexpected parse: {:?}", other),
    }
}

#[test]
fn cat_without_selector_means_pending() {
    match parse_args(&strings(&["cat", "mylist"])) {
        Ok(Command::Cat { name, which }) => {
            assert_eq!(name, "mylist");
            assert_eq!(which, ListType::Pending);
        }
        other => panic!("unexpected parse: {:?}", other),
    }
    match parse_args(&strings(&["cat", "mylist", "pending"])) {
        Ok(Command::Cat { name, which }) => {
            assert_eq!(name, "mylist");
            assert_eq!(which, ListType::Pending);
        }
        other => panic!("unexpected parse: {:?}", other),
    }
}

#[test]
fn cat_allowed_selects_allowed() {
    match parse_args(&strings(&["cat", "mylist", "allowed"])) {
        Ok(Command::Cat { which, .. }) => assert_eq!(which, ListType::Allowed),
        other => panic!("unexpected parse: {:?}", other),
    }
}

#[test]
fn cat_bogus_selector_is_rejected_and_named() {
    match parse_args(&strings(&["cat", "mylist", "bogus"])) {
        Err(UsageError::InvalidListType { word }) => {
            assert_eq!(word, "bogus");
            let message = usage_message(&UsageError::InvalidListType { word });
            assert!(message.contains("bogus"));
            assert_eq!(message, "bogus is not a valid list type");
        }
        other => panic!("unexpected parse: {:?}", other),
    }
}

#[test]
fn missing_subcommand_is_rejected() {
    assert!(matches!(
        parse_args(&strings(&[])),
        Err(UsageError::MissingSubcommand)
    ));
    assert_eq!(
        usage_message(&UsageError::MissingSubcommand),
        "You must specify a subcommand. Use \"help\" to see available commands."
    );
}

#[test]
fn missing_list_name_is_rejected_for_every_subcommand() {
    for subcommand in ["add", "allow", "complete", "cat"] {
        assert!(matches!(
            parse_args(&strings(&[subcommand])),
            Err(UsageError::MissingListName)
        ));
    }
    assert_eq!(
        usage_message(&UsageError::MissingListName),
        "You must specify a list name. See help for details."
    );
}

#[test]
fn missing_site_list_is_rejected() {
    assert!(matches!(
        parse_args(&strings(&["add", "mylist"])),
        Err(UsageError::MissingSiteList)
    ));
    assert_eq!(
        usage_message(&UsageError::MissingSiteList),
        "You must specify a site list. See help for details."
    );
}

#[test]
fn unrecognized_subcommand_is_named() {
    match parse_args(&strings(&["frobnicate", "mylist"])) {
        Err(UsageError::UnrecognizedCommand { word }) => {
            assert_eq!(word, "frobnicate");
            let message = usage_message(&UsageError::UnrecognizedCommand { word });
            assert_eq!(message, "unrecognized command \"frobnicate\"");
        }
        other => panic!("unexpected parse: {:?}", other),
    }
}

#[test]
fn list_name_resolves_to_both_paths() {
    let paths = list_paths("/home/u", "mylist");
    assert_eq!(paths.pending, "/home/u/proxylists/mylist-pending.txt");
    assert_eq!(paths.allowed, "/home/u/proxylists/mylist-allowed.txt");
}

#[test]
fn cat_selector_picks_the_matching_path() {
    let paths = list_paths("/home/u", "mylist");
    assert_eq!(
        chosen_path(&paths, ListType::Pending).as_str(),
        "/home/u/proxylists/mylist-pending.txt"
    );
    assert_eq!(
        chosen_path(&paths, ListType::Allowed).as_str(),
        "/home/u/proxylists/mylist-allowed.txt"
    );
}

#[test]
fn promotion_moves_pending_onto_allowed() {
    let lists = ListContents {
        pending: "\n.a.com\n.b.org".to_string(),
        allowed: "\n.c.net".to_string(),
    };
    let promoted = promote(lists);
    assert_eq!(promoted.allowed, "\n.c.net\n.a.com\n.b.org");
    assert_eq!(promoted.pending, "");
}

#[test]
fn promotion_of_empty_pending_changes_nothing() {
    let lists = ListContents {
        pending: String::new(),
        allowed: "\n.c.net".to_string(),
    };
    let promoted = promote(lists);
    assert_eq!(promoted.allowed, "\n.c.net");
    assert_eq!(promoted.pending, "");
}
