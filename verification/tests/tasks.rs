use todo_core::store::Store;
use todo_core::store::Todo;
use todo_core::username::ValidUsername;

fn two_users(store: &mut Store) -> (i32, i32) {
    let a = store
        .create_user(ValidUsername::from("ann".to_string()), "pw-a".to_string())
        .unwrap();
    let b = store
        .create_user(ValidUsername::from("bob".to_string()), "pw-b".to_string())
        .unwrap();
    (a, b)
}

#[test]
fn create_list_update_delete_one_user() {
    let mut store = Store::new();
    let (a, _) = two_users(&mut store);
    let list = store.add_todo_and_return_all(a, "buy milk".to_string());
    assert_eq!(
        list,
        vec![Todo { id: 1, title: "buy milk".to_string(), completed: false }]
    );
    let list = store.update_todo_and_return_all(a, 1, "buy milk".to_string(), true);
    assert_eq!(
        list,
        vec![Todo { id: 1, title: "buy milk".to_string(), completed: true }]
    );
    let list = store.delete_todo_and_return_all(a, 1);
    assert!(list.is_empty());
    assert!(store.get_todos(a).is_empty());
}

#[test]
fn lists_are_ordered_by_ascending_id() {
    let mut store = Store::new();
    let (a, b) = two_users(&mut store);
    store.add_todo_and_return_all(a, "first".to_string());
    store.add_todo_and_return_all(b, "theirs".to_string());
    store.add_todo_and_return_all(a, "second".to_string());
    let list = store.get_todos(a);
    assert_eq!(list.len(), 2);
    assert_eq!(list[0].id, 1);
    assert_eq!(list[0].title, "first");
    assert_eq!(list[1].id, 3);
    assert_eq!(list[1].title, "second");
}

#[test]
fn tasks_never_leak_between_users() {
    let mut store = Store::new();
    let (a, b) = two_users(&mut store);
    store.add_todo_and_return_all(a, "private".to_string());
    assert!(store.get_todos(b).is_empty());
    let b_list = store.add_todo_and_return_all(b, "own".to_string());
    assert_eq!(b_list.len(), 1);
    assert_eq!(b_list[0].title, "own");
    let a_list = store.get_todos(a);
    assert_eq!(a_list.len(), 1);
    assert_eq!(a_list[0].title, "private");
}

#[test]
fn foreign_update_and_delete_are_silent_noops() {
    let mut store = Store::new();
    let (a, b) = two_users(&mut store);
    let a_list = store.add_todo_and_return_all(a, "mine".to_string());
    let a_task_id = a_list[0].id;
    // An update by B against A's task id affects zero rows; B just gets B's
    // (empty) list back, with no error raised.
    let b_view = store.update_todo_and_return_all(b, a_task_id, "hijack".to_string(), true);
    assert!(b_view.is_empty());
    assert_eq!(store.get_todos(a), a_list);
    // Same for a delete by B.
    let b_view = store.delete_todo_and_return_all(b, a_task_id);
    assert!(b_view.is_empty());
    assert_eq!(store.get_todos(a), a_list);
}

#[test]
fn update_of_missing_task_is_a_noop() {
    let mut store = Store::new();
    let (a, _) = two_users(&mut store);
    let list = store.add_todo_and_return_all(a, "keep".to_string());
    let after = store.update_todo_and_return_all(a, 999, "nothing".to_string(), true);
    assert_eq!(after, list);
    let after = store.delete_todo_and_return_all(a, 999);
    assert_eq!(after, list);
}
