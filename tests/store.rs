use todo::{Db, DbError, Env, Todo};
use uuid::Uuid;

fn task(title: &str, created_at: i64) -> Todo {
    Todo::new(Uuid::new_v4().to_string(), title.into(), false, created_at, created_at)
}

fn ids(list: &[Todo]) -> Vec<String> {
    list.iter().map(|t| t.id.clone()).collect()
}

#[test]
fn test_initialize_creates_table() {
    let db = Db::new(Env::Test);
    assert_eq!(db.env(), Env::Test);
    assert!(db.list_all().is_empty());
}

#[test]
fn test_insert_todo_does_not_panic() {
    let mut db = Db::new(Env::Test);
    let id = Uuid::new_v4().to_string();
    let todo = Todo::new(id, "test".into(), false, 0, 0);
    db.insert(&todo).expect("Could not insert");
    let _todo = db.get(todo.get_id()).expect("Could not retrieve todo after insert");
}

#[test]
fn test_list_todo_does_not_panic() {
    let mut db = Db::new(Env::Test);
    let id = Uuid::new_v4().to_string();
    let todo = Todo::new(id, "test".into(), false, 0, 0);
    db.insert(&todo).expect("Could not insert todo");
    let todo_vec = db.list_all();
    assert!(todo_vec.iter().count() > 0);
    assert!(todo_vec.iter().filter(|todo_filter| todo_filter.id == todo.id).collect::<Vec<&Todo>>().len() > 0);
}

#[test]
fn test_mark_as_complete_works() {
    let mut db = Db::new(Env::Test);
    let id = Uuid::new_v4().to_string();
    let todo = Todo::new(id, "test".into(), false, 0, 0);
    db.insert(&todo).expect("Could not insert todo");
    db.mark_as_complete(&todo.id).expect("Could not mark todo as complete");
    let todo_updated = db.get(&todo.id).expect("Could not get updated todo");
    assert_eq!(todo_updated.is_completed, 1);
    assert_ne!(todo.updated_at, todo_updated.updated_at);
}

#[test]
fn test_get_recent_todos() {
    let now = chrono::offset::Utc::now().timestamp_millis();
    let mut db = Db::new(Env::Test);

    let id1 = Uuid::new_v4().to_string();
    let todo1 = Todo::new(id1, "test".into(), false, now, now);
    db.insert(&todo1).expect("Could not insert todo");

    let id2 = Uuid::new_v4().to_string();
    let todo2 = Todo::new(id2, "test".into(), false, now, now);
    db.insert(&todo2).expect("Could not insert todo");

    let recent_todos = db.get_recent_todos(2);
    assert!(recent_todos.iter().filter(|todo| todo.id == todo1.id || todo.id == todo2.id).count() == 2);
}

#[test]
fn test_get_incomplete_todos() {
    let mut db = Db::new(Env::Test);
    let todo = Todo::new(Uuid::new_v4().to_string(), "test".into(), false, 0, 0);
    db.insert(&todo).expect("Could not insert todo");

    let incomplete_todos = db.get_incomplete_todos();
    assert!(incomplete_todos.iter().filter(|todo_filter| todo_filter.id == todo.id).count() == 1);

    db.mark_as_complete(&todo.id).expect("Could not mark todo as complete");

    let incomplete_todos = db.get_incomplete_todos();
    assert!(incomplete_todos.iter().filter(|todo_filter| todo_filter.id == todo.id).count() == 0);
}

#[test]
fn get_returns_the_inserted_task_field_for_field() {
    let mut db = Db::new(Env::Test);
    let todo = Todo::new("abc".into(), "write report".into(), true, 5, 9);
    db.insert(&todo).unwrap();
    let got = db.get(&"abc".to_string()).unwrap();
    assert_eq!(got.id, "abc");
    assert_eq!(got.title, "write report");
    assert_eq!(got.is_completed, 1);
    assert_eq!(got.created_at, 5);
    assert_eq!(got.updated_at, 9);
}

#[test]
fn second_insert_with_same_id_is_refused() {
    let mut db = Db::new(Env::Test);
    let first = Todo::new("same".into(), "first".into(), false, 10, 10);
    let second = Todo::new("same".into(), "second".into(), true, 20, 20);
    db.insert(&first).unwrap();
    assert_eq!(db.insert(&second), Err(DbError::DuplicateKey));
    let stored = db.get(&"same".to_string()).unwrap();
    assert_eq!(stored.title, "first");
    assert_eq!(stored.created_at, 10);
    assert_eq!(db.list_all().len(), 1);
}

#[test]
fn get_of_unknown_id_is_not_found() {
    let db = Db::new(Env::Prod);
    assert_eq!(db.get(&"missing".to_string()).unwrap_err(), DbError::NotFound);
}

#[test]
fn mark_complete_of_unknown_id_is_not_found_and_changes_nothing() {
    let mut db = Db::new(Env::Test);
    db.insert(&Todo::new("a".into(), "a".into(), false, 1, 1)).unwrap();
    assert_eq!(db.mark_as_complete(&"b".to_string()), Err(DbError::NotFound));
    assert_eq!(db.mark_complete_at(&"b".to_string(), 50), Err(DbError::NotFound));
    let all = db.list_all();
    assert_eq!(all.len(), 1);
    assert_eq!(all[0].is_completed, 0);
    assert_eq!(all[0].updated_at, 1);
}

#[test]
fn mark_complete_at_sets_flag_and_time_only() {
    let mut db = Db::new(Env::Test);
    db.insert(&Todo::new("a".into(), "alpha".into(), false, 100, 100)).unwrap();
    db.insert(&Todo::new("b".into(), "beta".into(), false, 200, 200)).unwrap();
    db.mark_complete_at(&"a".to_string(), 150).unwrap();
    let a = db.get(&"a".to_string()).unwrap();
    assert_eq!((a.is_completed, a.updated_at, a.created_at), (1, 150, 100));
    assert_eq!(a.title, "alpha");
    let b = db.get(&"b".to_string()).unwrap();
    assert_eq!((b.is_completed, b.updated_at), (0, 200));
    db.mark_complete_at(&"a".to_string(), 175).unwrap();
    let a = db.get(&"a".to_string()).unwrap();
    assert_eq!((a.is_completed, a.updated_at), (1, 175));
}

#[test]
fn mark_as_complete_moves_updated_at_forward() {
    let mut db = Db::new(Env::Test);
    db.insert(&Todo::new("a".into(), "alpha".into(), false, 100, 100)).unwrap();
    db.mark_as_complete(&"a".to_string()).unwrap();
    let a = db.get(&"a".to_string()).unwrap();
    assert_eq!(a.is_completed, 1);
    assert!(a.updated_at > 100);
}

#[test]
fn list_all_on_empty_store_is_empty() {
    let db = Db::new(Env::Test);
    assert!(db.list_all().is_empty());
    assert!(db.get_recent_todos(3).is_empty());
    assert!(db.get_incomplete_todos().is_empty());
}

#[test]
fn listings_follow_creation_time() {
    let mut db = Db::new(Env::Test);
    let c = task("c", 300);
    let a = task("a", 100);
    let d = task("d", 400);
    let b = task("b", 200);
    for t in [&c, &a, &d, &b] {
        db.insert(t).unwrap();
    }
    assert_eq!(ids(&db.list_all()), ids(&[a.clone(), b.clone(), c.clone(), d.clone()]));
    assert!(db.get_recent_todos(0).is_empty());
    assert_eq!(ids(&db.get_recent_todos(2)), ids(&[d.clone(), c.clone()]));
    assert_eq!(ids(&db.get_recent_todos(4)), ids(&[d.clone(), c.clone(), b.clone(), a.clone()]));
    assert_eq!(ids(&db.get_recent_todos(10)), ids(&[d, c, b, a]));
}

#[test]
fn equal_creation_times_keep_insertion_order() {
    let mut db = Db::new(Env::Test);
    let first = task("first", 7);
    let second = task("second", 7);
    db.insert(&first).unwrap();
    db.insert(&second).unwrap();
    assert_eq!(ids(&db.list_all()), ids(&[first, second]));
}

#[test]
fn scenario_two_tasks_recent_all_and_incomplete() {
    let mut db = Db::new(Env::Test);
    let a = task("A", 100);
    let b = task("B", 200);
    db.insert(&a).unwrap();
    db.insert(&b).unwrap();
    assert_eq!(ids(&db.get_recent_todos(1)), vec![b.id.clone()]);
    assert_eq!(ids(&db.list_all()), vec![a.id.clone(), b.id.clone()]);
    db.mark_as_complete(&a.id).unwrap();
    assert_eq!(ids(&db.get_incomplete_todos()), vec![b.id.clone()]);
}

#[test]
fn from_rows_orders_rows_and_refuses_repeated_ids() {
    let rows = vec![
        Todo::new("x".into(), "x".into(), false, 30, 30),
        Todo::new("y".into(), "y".into(), true, 10, 12),
        Todo::new("z".into(), "z".into(), false, 20, 20),
    ];
    let db = Db::from_rows(Env::Prod, rows).unwrap();
    assert_eq!(db.env(), Env::Prod);
    assert_eq!(ids(&db.list_all()), vec!["y".to_string(), "z".to_string(), "x".to_string()]);
    assert_eq!(ids(&db.get_incomplete_todos()), vec!["z".to_string(), "x".to_string()]);

    let repeated = vec![
        Todo::new("x".into(), "x".into(), false, 30, 30),
        Todo::new("x".into(), "again".into(), false, 40, 40),
    ];
    assert_eq!(Db::from_rows(Env::Prod, repeated).err(), Some(DbError::DuplicateKey));
}
