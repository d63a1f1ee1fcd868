use acta::cli::{parse_args, Args, ArgsError, Commands};

fn args_of(toks: &[&str]) -> Vec<String> {
    toks.iter().map(|t| t.to_string()).collect()
}

fn parse(toks: &[&str]) -> Result<Args, ArgsError> {
    parse_args(&args_of(toks))
}

#[test]
fn no_arguments_chooses_no_command() {
    let a = parse(&[]).unwrap();
    assert!(a.command.is_none());
}

#[test]
fn list_defaults_to_everything() {
    let a = parse(&["list"]).unwrap();
    assert!(matches!(
        a.command,
        Some(Commands::List { completed: false, pending: false })
    ));
}

#[test]
fn list_accepts_each_selector() {
    assert!(matches!(
        parse(&["list", "--completed"]).unwrap().command,
        Some(Commands::List { completed: true, pending: false })
    ));
    assert!(matches!(
        parse(&["list", "-c"]).unwrap().command,
        Some(Commands::List { completed: true, pending: false })
    ));
    assert!(matches!(
        parse(&["list", "--pending"]).unwrap().command,
        Some(Commands::List { completed: false, pending: true })
    ));
    assert!(matches!(
        parse(&["list", "-p"]).unwrap().command,
        Some(Commands::List { completed: false, pending: true })
    ));
}

#[test]
fn list_rejects_both_selectors() {
    assert_eq!(
        parse(&["list", "--completed", "--pending"]).unwrap_err(),
        ArgsError::ConflictingArguments
    );
    assert_eq!(
        parse(&["list", "-p", "-c"]).unwrap_err(),
        ArgsError::ConflictingArguments
    );
    assert_eq!(
        parse(&["list", "-c", "--pending"]).unwrap_err(),
        ArgsError::ConflictingArguments
    );
}

#[test]
fn list_rejects_repeated_selector() {
    assert_eq!(
        parse(&["list", "-c", "-c"]).unwrap_err(),
        ArgsError::DuplicateArgument
    );
}

#[test]
fn list_rejects_stray_argument() {
    assert_eq!(
        parse(&["list", "everything"]).unwrap_err(),
        ArgsError::UnexpectedArgument
    );
}

#[test]
fn add_takes_the_todo_text() {
    let a = parse(&["add", "--todo", "water the plants"]).unwrap();
    match a.command {
        Some(Commands::Add { todo }) => assert_eq!(todo, "water the plants"),
        _ => panic!("add must parse"),
    }
    let a = parse(&["add", "-t", "short form"]).unwrap();
    match a.command {
        Some(Commands::Add { todo }) => assert_eq!(todo, "short form"),
        _ => panic!("add must parse"),
    }
}

#[test]
fn add_requires_its_flag_and_value() {
    assert_eq!(parse(&["add"]).unwrap_err(), ArgsError::MissingArgument);
    assert_eq!(parse(&["add", "--todo"]).unwrap_err(), ArgsError::MissingValue);
    assert_eq!(
        parse(&["add", "something"]).unwrap_err(),
        ArgsError::UnexpectedArgument
    );
    assert_eq!(
        parse(&["add", "--todo", "a", "b"]).unwrap_err(),
        ArgsError::UnexpectedArgument
    );
}

#[test]
fn complete_takes_an_id() {
    let a = parse(&["complete", "--id", "17"]).unwrap();
    assert!(matches!(a.command, Some(Commands::Complete { id: 17 })));
    let a = parse(&["complete", "-i", "0"]).unwrap();
    assert!(matches!(a.command, Some(Commands::Complete { id: 0 })));
}

#[test]
fn complete_accepts_the_largest_id() {
    let a = parse(&["complete", "--id", "18446744073709551615"]).unwrap();
    assert!(matches!(a.command, Some(Commands::Complete { id: u64::MAX })));
}

#[test]
fn complete_rejects_bad_numbers() {
    assert_eq!(
        parse(&["complete", "--id", "seven"]).unwrap_err(),
        ArgsError::InvalidNumber
    );
    assert_eq!(
        parse(&["complete", "--id", ""]).unwrap_err(),
        ArgsError::InvalidNumber
    );
    assert_eq!(
        parse(&["complete", "--id", "18446744073709551616"]).unwrap_err(),
        ArgsError::InvalidNumber
    );
    assert_eq!(
        parse(&["complete", "--id", "-4"]).unwrap_err(),
        ArgsError::InvalidNumber
    );
}

#[test]
fn complete_requires_its_flag() {
    assert_eq!(parse(&["complete"]).unwrap_err(), ArgsError::MissingArgument);
    assert_eq!(parse(&["complete", "--id"]).unwrap_err(), ArgsError::MissingValue);
}

#[test]
fn edit_takes_both_flags_in_either_order() {
    let a = parse(&["edit", "--id", "3", "--todo", "new text"]).unwrap();
    match a.command {
        Some(Commands::Edit { id, todo }) => {
            assert_eq!(id, 3);
            assert_eq!(todo, "new text");
        }
        _ => panic!("edit must parse"),
    }
    let a = parse(&["edit", "-t", "other", "-i", "9"]).unwrap();
    match a.command {
        Some(Commands::Edit { id, todo }) => {
            assert_eq!(id, 9);
            assert_eq!(todo, "other");
        }
        _ => panic!("edit must parse"),
    }
}

#[test]
fn edit_requires_both_flags() {
    assert_eq!(parse(&["edit"]).unwrap_err(), ArgsError::MissingArgument);
    assert_eq!(
        parse(&["edit", "--id", "3"]).unwrap_err(),
        ArgsError::MissingArgument
    );
    assert_eq!(
        parse(&["edit", "--todo", "x"]).unwrap_err(),
        ArgsError::MissingArgument
    );
    assert_eq!(
        parse(&["edit", "--id", "3", "--id", "4", "--todo", "x"]).unwrap_err(),
        ArgsError::DuplicateArgument
    );
}

#[test]
fn delete_takes_an_id() {
    let a = parse(&["delete", "--id", "12"]).unwrap();
    assert!(matches!(a.command, Some(Commands::Delete { id: 12 })));
}

#[test]
fn export_takes_nothing() {
    let a = parse(&["export"]).unwrap();
    assert!(matches!(a.command, Some(Commands::Export {})));
    assert_eq!(
        parse(&["export", "now"]).unwrap_err(),
        ArgsError::UnexpectedArgument
    );
}

#[test]
fn unknown_command_is_rejected() {
    assert_eq!(parse(&["lost"]).unwrap_err(), ArgsError::UnknownCommand);
    assert_eq!(parse(&["--id", "3"]).unwrap_err(), ArgsError::UnknownCommand);
}
