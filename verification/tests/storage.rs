use acta::persistence::{init, read, ActaError};

#[test]
fn init_resolves_path_under_home() {
    let (path, content) = init(Some("/home/someone"), None).expect("a home directory suffices");
    assert_eq!(path, "/home/someone/.acta");
    assert_eq!(content, "[]");
}

#[test]
fn init_without_home_fails_and_names_no_path() {
    match init(None, None) {
        Err(ActaError::HomeDir) => {}
        _ => panic!("a missing home directory must fail with the home-directory error"),
    }
    match init(None, Some(String::from("[]"))) {
        Err(ActaError::HomeDir) => {}
        _ => panic!("a missing home directory must fail whatever the file holds"),
    }
}

#[test]
fn init_twice_changes_nothing() {
    // first call: no store file yet
    let (path1, content1) = init(Some("/home/someone"), None).unwrap();
    assert_eq!(content1, "[]");
    // second call: the file now holds what the first call left
    let (path2, content2) = init(Some("/home/someone"), Some(content1.clone())).unwrap();
    assert_eq!(path1, path2);
    assert_eq!(content1, content2);
}

#[test]
fn init_keeps_existing_content() {
    let existing = String::from("[{\"id\":1,\"content\":\"keep me\",\"state\":\"Pending\"}]");
    let (_, content) = init(Some("/home/someone"), Some(existing.clone())).unwrap();
    assert_eq!(content, existing);
}

#[test]
fn first_access_yields_empty_list() {
    // a fresh store file holds exactly "[]", and loading it yields nothing
    let (_, content) = init(Some("/home/someone"), None).unwrap();
    assert_eq!(content, "[]");
    let todos = read(&content).expect("a fresh store must load");
    assert!(todos.is_empty());
}

#[test]
fn error_messages_name_their_cause() {
    assert_eq!(
        ActaError::HomeDir.message(),
        "Could not find home directory"
    );
    assert_eq!(
        ActaError::Io(String::from("permission denied")).message(),
        "IO error: permission denied"
    );
    let parse_err = read("not-json").unwrap_err();
    assert_eq!(parse_err.message(), "Parse error: malformed store content");
}
