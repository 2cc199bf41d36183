use golf_score_tracker::todo::TodoList;

#[test]
fn test_add_todo() {
    let mut list = TodoList::new();

    list.add("test".to_string());

    assert_eq!(list.list().len(), 1);
    assert_eq!(list.list()[0].title, "test");
    assert_eq!(list.list()[0].completed, false);
}

#[test]
fn test_complete_todo() {
    let mut list = TodoList::new();

    list.add("test".to_string());
    let id = list.list()[0].id;
    let result = list.complete(id);

    assert!(result.is_ok());
    assert_eq!(list.list()[0].completed, true);
}

#[test]
fn test_complete_nonexistent_todo() {
    let mut list = TodoList::new();

    let result = list.complete(999);
    assert!(result.is_err());
}

#[test]
fn test_delete_todo() {
    let mut list = TodoList::new();

    list.add("test delete me".to_string());
    let result = list.delete(1);

    assert!(result.is_ok());
    assert!(list.list().is_empty());
}

#[test]
fn missing_id_error_carries_the_id() {
    let mut list = TodoList::new();
    assert_eq!(
        list.delete(42),
        Err("Todo Item with ID 42 not found".to_string())
    );
    assert_eq!(
        list.complete(7),
        Err("Todo Item with ID 7 not found".to_string())
    );
}
