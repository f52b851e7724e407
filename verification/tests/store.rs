use todo_store::store::StoreError;
use todo_store::store::Todo;
use todo_store::store::TodoStore;

fn todo(id: u64, text: &str, completed: bool) -> Todo {
    Todo { id, text: text.to_owned(), completed }
}

#[test]
fn empty_store_lists_nothing() {
    let store = TodoStore::new();
    assert_eq!(store.list_todos().len(), 0);
}

#[test]
fn seeded_store_lists_the_seed() {
    let store = TodoStore::init_todos();
    let listing = store.list_todos();
    assert_eq!(listing.len(), 1);
    assert_eq!(listing[0].id, 1);
    assert_eq!(listing[0].text, "TODOの内容について");
    assert!(!listing[0].completed);
}

#[test]
fn create_appends_and_lists_the_record() {
    let mut store = TodoStore::init_todos();
    assert_eq!(store.create_todo(todo(2, "buy milk", false)), Ok(()));
    let listing = store.list_todos();
    assert_eq!(listing.len(), 2);
    assert_eq!(listing[0].id, 1);
    assert_eq!(listing[1].id, 2);
    assert_eq!(listing[1].text, "buy milk");
    assert!(!listing[1].completed);
}

#[test]
fn create_with_taken_id_fails_and_changes_nothing() {
    let mut store = TodoStore::init_todos();
    assert_eq!(store.create_todo(todo(2, "buy milk", false)), Ok(()));
    let before = store.list_todos();
    assert_eq!(
        store.create_todo(todo(1, "impostor", true)),
        Err(StoreError::DuplicateId)
    );
    let after = store.list_todos();
    assert_eq!(after.len(), before.len());
    for (b, a) in before.iter().zip(after.iter()) {
        assert_eq!(a.id, b.id);
        assert_eq!(a.text, b.text);
        assert_eq!(a.completed, b.completed);
    }
}

#[test]
fn update_replaces_the_whole_record() {
    let mut store = TodoStore::init_todos();
    assert_eq!(store.create_todo(todo(2, "buy milk", false)), Ok(()));
    assert_eq!(store.update_todo(2, todo(2, "buy milk", true)), Ok(()));
    let listing = store.list_todos();
    assert_eq!(listing.len(), 2);
    assert_eq!(listing[1].id, 2);
    assert_eq!(listing[1].text, "buy milk");
    assert!(listing[1].completed);
    // the other record is untouched
    assert_eq!(listing[0].id, 1);
    assert_eq!(listing[0].text, "TODOの内容について");
    assert!(!listing[0].completed);
}

#[test]
fn update_keeps_the_path_id() {
    // the replacement's own id field is ignored; the id named by the caller
    // stays on the stored record
    let mut store = TodoStore::init_todos();
    assert_eq!(store.update_todo(1, todo(7, "renamed", true)), Ok(()));
    let listing = store.list_todos();
    assert_eq!(listing.len(), 1);
    assert_eq!(listing[0].id, 1);
    assert_eq!(listing[0].text, "renamed");
    assert!(listing[0].completed);
}

#[test]
fn update_of_absent_id_fails() {
    let mut store = TodoStore::init_todos();
    assert_eq!(
        store.update_todo(99, todo(99, "nobody", false)),
        Err(StoreError::NotFound)
    );
    assert_eq!(store.list_todos().len(), 1);
}

#[test]
fn delete_removes_and_a_second_delete_fails() {
    let mut store = TodoStore::init_todos();
    assert_eq!(store.delete_todo(1), Ok(()));
    assert_eq!(store.list_todos().len(), 0);
    assert_eq!(store.delete_todo(1), Err(StoreError::NotFound));
}

#[test]
fn delete_leaves_other_records_alone() {
    let mut store = TodoStore::init_todos();
    assert_eq!(store.create_todo(todo(2, "buy milk", false)), Ok(()));
    assert_eq!(store.create_todo(todo(3, "walk the dog", true)), Ok(()));
    assert_eq!(store.delete_todo(2), Ok(()));
    let listing = store.list_todos();
    assert_eq!(listing.len(), 2);
    assert_eq!(listing[0].id, 1);
    assert_eq!(listing[1].id, 3);
    assert_eq!(listing[1].text, "walk the dog");
    assert!(listing[1].completed);
}

#[test]
fn distinct_creates_all_succeed_each_id_once() {
    // the serialized image of N concurrent creates with distinct fresh ids:
    // in whatever order they run, all succeed and the final listing holds
    // the seed plus N records, each id exactly once
    let mut store = TodoStore::init_todos();
    let n: u64 = 10;
    for id in 2..2 + n {
        assert_eq!(store.create_todo(todo(id, "task", false)), Ok(()));
    }
    let listing = store.list_todos();
    assert_eq!(listing.len(), 1 + n as usize);
    for id in 2..2 + n {
        assert_eq!(listing.iter().filter(|t| t.id == id).count(), 1);
    }
    assert_eq!(listing.iter().filter(|t| t.id == 1).count(), 1);
}

#[test]
fn end_to_end_scenario() {
    // start: exactly the seed record
    let mut store = TodoStore::init_todos();
    let listing = store.list_todos();
    assert_eq!(listing.len(), 1);
    assert_eq!(listing[0].id, 1);
    assert_eq!(listing[0].text, "TODOの内容について");
    assert!(!listing[0].completed);

    // create a fresh record: success, listed
    assert_eq!(store.create_todo(todo(2, "buy milk", false)), Ok(()));
    let listing = store.list_todos();
    assert_eq!(listing.len(), 2);
    assert!(listing.iter().any(|t| t.id == 2 && t.text == "buy milk" && !t.completed));

    // create colliding with the seed: duplicate, listing unchanged
    assert_eq!(
        store.create_todo(todo(1, "collides", false)),
        Err(StoreError::DuplicateId)
    );
    assert_eq!(store.list_todos().len(), 2);

    // update the fresh record to completed
    assert_eq!(store.update_todo(2, todo(2, "buy milk", true)), Ok(()));
    let listing = store.list_todos();
    assert!(listing.iter().any(|t| t.id == 2 && t.text == "buy milk" && t.completed));

    // delete the seed, then delete it again
    assert_eq!(store.delete_todo(1), Ok(()));
    assert_eq!(store.delete_todo(1), Err(StoreError::NotFound));

    // update an id that never existed
    assert_eq!(
        store.update_todo(99, todo(99, "ghostly", false)),
        Err(StoreError::NotFound)
    );
}

#[test]
fn listing_is_an_independent_snapshot() {
    let mut store = TodoStore::init_todos();
    let snapshot = store.list_todos();
    assert_eq!(store.delete_todo(1), Ok(()));
    // the snapshot taken before the delete is untouched
    assert_eq!(snapshot.len(), 1);
    assert_eq!(snapshot[0].id, 1);
    assert_eq!(store.list_todos().len(), 0);
}
