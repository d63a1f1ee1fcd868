use acta::model::{Todo, TodoState};
use acta::ops::{add_todo, complete_todo, delete_todo, edit_todo, list_todos};

fn store() -> Vec<Todo> {
    vec![
        Todo::new(1, String::from("one"), TodoState::Pending),
        Todo::new(4, String::from("four"), TodoState::Completed),
        Todo::new(2, String::from("two"), TodoState::Pending),
    ]
}

#[test]
fn list_all_by_default() {
    let todos = store();
    let all = list_todos(&todos, false, false);
    assert_eq!(all.len(), 3);
    assert_eq!(all[0].id, 1);
    assert_eq!(all[1].id, 4);
    assert_eq!(all[2].id, 2);
}

#[test]
fn list_completed_only() {
    let todos = store();
    let done = list_todos(&todos, true, false);
    assert_eq!(done.len(), 1);
    assert_eq!(done[0].id, 4);
    assert_eq!(done[0].content, "four");
}

#[test]
fn list_pending_only() {
    let todos = store();
    let open = list_todos(&todos, false, true);
    assert_eq!(open.len(), 2);
    assert_eq!(open[0].id, 1);
    assert_eq!(open[1].id, 2);
}

#[test]
fn add_appends_pending_with_fresh_id() {
    let mut todos = store();
    let id = add_todo(&mut todos, String::from("five")).expect("id space is free");
    assert_eq!(id, 5);  // one above the largest id, 4
    assert_eq!(todos.len(), 4);
    let last = &todos[3];
    assert_eq!(last.id, 5);
    assert_eq!(last.content, "five");
    assert_eq!(last.state, TodoState::Pending);
}

#[test]
fn add_to_empty_store_starts_at_one() {
    let mut todos: Vec<Todo> = Vec::new();
    let id = add_todo(&mut todos, String::from("first")).unwrap();
    assert_eq!(id, 1);
}

#[test]
fn add_refuses_exhausted_id_space() {
    let mut todos = vec![Todo::new(u64::MAX, String::from("last"), TodoState::Pending)];
    assert!(add_todo(&mut todos, String::from("next")).is_none());
    assert_eq!(todos.len(), 1);
}

#[test]
fn complete_marks_the_matching_record() {
    let mut todos = store();
    let pos = complete_todo(&mut todos, 2).expect("id 2 exists");
    assert_eq!(pos, 2);
    assert_eq!(todos[2].state, TodoState::Completed);
    assert_eq!(todos[2].content, "two");
    assert_eq!(todos[0].state, TodoState::Pending);
}

#[test]
fn complete_of_unknown_id_changes_nothing() {
    let mut todos = store();
    assert!(complete_todo(&mut todos, 99).is_none());
    assert_eq!(todos.len(), 3);
    assert_eq!(todos[0].state, TodoState::Pending);
    assert_eq!(todos[2].state, TodoState::Pending);
}

#[test]
fn edit_replaces_content_and_keeps_state() {
    let mut todos = store();
    let pos = edit_todo(&mut todos, 4, String::from("four, revised")).expect("id 4 exists");
    assert_eq!(pos, 1);
    assert_eq!(todos[1].content, "four, revised");
    assert_eq!(todos[1].state, TodoState::Completed);
    assert_eq!(todos[1].id, 4);
}

#[test]
fn edit_of_unknown_id_changes_nothing() {
    let mut todos = store();
    assert!(edit_todo(&mut todos, 99, String::from("nope")).is_none());
    assert_eq!(todos[0].content, "one");
    assert_eq!(todos[1].content, "four");
    assert_eq!(todos[2].content, "two");
}

#[test]
fn delete_removes_the_matching_record() {
    let mut todos = store();
    let pos = delete_todo(&mut todos, 4).expect("id 4 exists");
    assert_eq!(pos, 1);
    assert_eq!(todos.len(), 2);
    assert_eq!(todos[0].id, 1);
    assert_eq!(todos[1].id, 2);
}

#[test]
fn delete_of_unknown_id_changes_nothing() {
    let mut todos = store();
    assert!(delete_todo(&mut todos, 99).is_none());
    assert_eq!(todos.len(), 3);
}

#[test]
fn delete_takes_only_the_first_match() {
    // id uniqueness is a convention, not an enforced invariant
    let mut todos = vec![
        Todo::new(6, String::from("first"), TodoState::Pending),
        Todo::new(6, String::from("second"), TodoState::Pending),
    ];
    let pos = delete_todo(&mut todos, 6).unwrap();
    assert_eq!(pos, 0);
    assert_eq!(todos.len(), 1);
    assert_eq!(todos[0].content, "second");
}

#[test]
fn mutate_and_persist_round_trip() {
    let mut todos = store();
    add_todo(&mut todos, String::from("say \"hello\"\n")).unwrap();
    complete_todo(&mut todos, 1).unwrap();
    let text = acta::persistence::write(&todos);
    let back = acta::persistence::read(&text).unwrap();
    assert_eq!(back.len(), 4);
    assert_eq!(back[0].state, TodoState::Completed);
    assert_eq!(back[3].content, "say \"hello\"\n");
}
