use iris::command::{Command, Expr};
use iris::engine::execute;
use iris::store::Store;

fn put(store: &mut Store, id: &str, data: &str) {
    let r = execute(
        Command::Put { id: id.to_string(), data: data.to_string() },
        store,
    );
    assert_eq!(r, Ok(id.to_string()));
}

#[test]
fn ping_pongs() {
    let mut store = Store::new();
    assert_eq!(execute(Command::Ping {}, &mut store), Ok("PONG".to_string()));
}

#[test]
fn set_then_get() {
    let mut store = Store::new();
    put(&mut store, "k", "v");
    let r = execute(Command::Get { id: "k".to_string() }, &mut store);
    assert_eq!(r, Ok("v".to_string()));
}

#[test]
fn get_missing() {
    let mut store = Store::new();
    let r = execute(Command::Get { id: "missing".to_string() }, &mut store);
    assert_eq!(r, Err("Cannot find item with an id of missing".to_string()));
}

#[test]
fn set_twice_is_idempotent() {
    let mut once = Store::new();
    put(&mut once, "k", "v");
    let mut twice = Store::new();
    put(&mut twice, "k", "v");
    put(&mut twice, "k", "v");
    let a = execute(Command::List { expr: Expr::Number(-1) }, &mut once);
    let b = execute(Command::List { expr: Expr::Number(-1) }, &mut twice);
    assert_eq!(a, b);
    assert_eq!(a, Ok("[(\"k\", \"v\")]".to_string()));
}

#[test]
fn set_overwrites_in_place() {
    let mut store = Store::new();
    put(&mut store, "a", "1");
    put(&mut store, "b", "2");
    put(&mut store, "a", "9");
    let r = execute(Command::List { expr: Expr::Number(-1) }, &mut store);
    assert_eq!(r, Ok("[(\"a\", \"9\"), (\"b\", \"2\")]".to_string()));
}

#[test]
fn list_number() {
    let mut store = Store::new();
    put(&mut store, "a", "1");
    put(&mut store, "b", "2");
    put(&mut store, "c", "3");
    let all = execute(Command::List { expr: Expr::Number(-1) }, &mut store);
    assert_eq!(all, Ok("[(\"a\", \"1\"), (\"b\", \"2\"), (\"c\", \"3\")]".to_string()));
    let one = execute(Command::List { expr: Expr::Number(1) }, &mut store);
    assert_eq!(one, Ok("[(\"a\", \"1\")]".to_string()));
    let none = execute(Command::List { expr: Expr::Number(0) }, &mut store);
    assert_eq!(none, Ok("[]".to_string()));
    // a negative count other than -1 selects nothing
    let neg = execute(Command::List { expr: Expr::Number(-5) }, &mut store);
    assert_eq!(neg, Ok("[]".to_string()));
    // a count beyond the store's size is clamped
    let over = execute(Command::List { expr: Expr::Number(99) }, &mut store);
    assert_eq!(over, Ok("[(\"a\", \"1\"), (\"b\", \"2\"), (\"c\", \"3\")]".to_string()));
}

#[test]
fn list_range() {
    let mut store = Store::new();
    put(&mut store, "a", "1");
    put(&mut store, "b", "2");
    put(&mut store, "c", "3");
    // the window is [start, start + end'] inclusive: 0..0 selects one entry
    let first = execute(Command::List { expr: Expr::Range(0, 0) }, &mut store);
    assert_eq!(first, Ok("[(\"a\", \"1\")]".to_string()));
    let two = execute(Command::List { expr: Expr::Range(1, 1) }, &mut store);
    assert_eq!(two, Ok("[(\"b\", \"2\"), (\"c\", \"3\")]".to_string()));
    // a negative end resolves to the store's length
    let tail = execute(Command::List { expr: Expr::Range(1, -1) }, &mut store);
    assert_eq!(tail, Ok("[(\"b\", \"2\"), (\"c\", \"3\")]".to_string()));
    // a negative start selects nothing
    let neg = execute(Command::List { expr: Expr::Range(-2, 1) }, &mut store);
    assert_eq!(neg, Ok("[]".to_string()));
}

#[test]
fn list_id_not_allowed() {
    let mut store = Store::new();
    let r = execute(Command::List { expr: Expr::ID("x".to_string()) }, &mut store);
    assert_eq!(r, Err("This expression is not allowed".to_string()));
}

#[test]
fn count_sentinel() {
    let mut store = Store::new();
    let empty = execute(Command::Count { expr: Expr::Number(-1) }, &mut store);
    assert_eq!(empty, Ok("0".to_string()));
    put(&mut store, "a", "1");
    put(&mut store, "b", "2");
    put(&mut store, "c", "3");
    let all = execute(Command::Count { expr: Expr::Number(-1) }, &mut store);
    assert_eq!(all, Ok("3".to_string()));
}

#[test]
fn count_range() {
    let mut store = Store::new();
    put(&mut store, "a", "1");
    put(&mut store, "b", "2");
    put(&mut store, "c", "3");
    let one = execute(Command::Count { expr: Expr::Range(0, 0) }, &mut store);
    assert_eq!(one, Ok("1".to_string()));
    let rest = execute(Command::Count { expr: Expr::Range(1, -1) }, &mut store);
    assert_eq!(rest, Ok("2".to_string()));
    let id = execute(Command::Count { expr: Expr::ID("x".to_string()) }, &mut store);
    assert_eq!(id, Err("This expression is not allowed".to_string()));
}

#[test]
fn delete_by_id() {
    let mut store = Store::new();
    put(&mut store, "k", "v");
    let r = execute(Command::Delete { expr: Expr::ID("k".to_string()) }, &mut store);
    assert_eq!(r, Ok("v".to_string()));
    let again = execute(Command::Delete { expr: Expr::ID("k".to_string()) }, &mut store);
    assert_eq!(again, Err("Cannot delete item with an id of k".to_string()));
}

#[test]
fn delete_by_number() {
    let mut store = Store::new();
    put(&mut store, "a", "1");
    put(&mut store, "b", "2");
    put(&mut store, "c", "3");
    let two = execute(Command::Delete { expr: Expr::Number(2) }, &mut store);
    assert_eq!(two, Ok("[(\"a\", \"1\"), (\"b\", \"2\")]".to_string()));
    let left = execute(Command::List { expr: Expr::Number(-1) }, &mut store);
    assert_eq!(left, Ok("[(\"c\", \"3\")]".to_string()));
    let rest = execute(Command::Delete { expr: Expr::Number(-1) }, &mut store);
    assert_eq!(rest, Ok("[(\"c\", \"3\")]".to_string()));
    let count = execute(Command::Count { expr: Expr::Number(-1) }, &mut store);
    assert_eq!(count, Ok("0".to_string()));
}

#[test]
fn delete_range_then_redelete() {
    let mut store = Store::new();
    put(&mut store, "a", "1");
    put(&mut store, "b", "2");
    put(&mut store, "c", "3");
    let removed = execute(Command::Delete { expr: Expr::Range(1, -1) }, &mut store);
    assert_eq!(removed, Ok("[(\"b\", \"2\"), (\"c\", \"3\")]".to_string()));
    // the same range again: an empty selection, not an error
    let again = execute(Command::Delete { expr: Expr::Range(1, -1) }, &mut store);
    assert_eq!(again, Ok("[]".to_string()));
    let left = execute(Command::List { expr: Expr::Number(-1) }, &mut store);
    assert_eq!(left, Ok("[(\"a\", \"1\")]".to_string()));
}

#[test]
fn delete_whole_range_on_empty_store() {
    let mut store = Store::new();
    let r = execute(Command::Delete { expr: Expr::Range(0, -1) }, &mut store);
    assert_eq!(r, Ok("[]".to_string()));
}

#[test]
fn invalid_command_surfaces_reason() {
    let mut store = Store::new();
    let r = execute(
        Command::Invalid { reason: "Invalid Command".to_string() },
        &mut store,
    );
    assert_eq!(r, Err("Invalid Command".to_string()));
}
