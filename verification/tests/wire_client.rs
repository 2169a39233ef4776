use iris::command::{Command, Expr};
use iris::engine::execute;
use iris::store::Store;
use iris::wire::{
    count_request, delete_request, get_request, list_request, parse_response, parse_tuple,
    set_request, DeleteExpression, Expression, Item, PipeBuilder,
};

#[test]
fn request_lines() {
    assert_eq!(set_request("k", "v"), "SET k v\n");
    assert_eq!(get_request("k"), "GET k\n");
    assert_eq!(list_request(&Expression::Number(-1)), "LST -1\n");
    assert_eq!(list_request(&Expression::Range(0..5)), "LST 0..5\n");
    assert_eq!(count_request(&Expression::Number(3)), "CNT 3\n");
    assert_eq!(count_request(&Expression::Range(-1..2)), "CNT -1..2\n");
    assert_eq!(delete_request(&DeleteExpression::Number(-1)), "DEL -1\n");
    assert_eq!(delete_request(&DeleteExpression::ID("k")), "DEL k\n");
    assert_eq!(delete_request(&DeleteExpression::Range(1..3)), "DEL 1..3\n");
}

#[test]
fn response_splits_at_first_space() {
    let r = parse_response("ok foo bar");
    assert_eq!(r.status, "ok");
    assert_eq!(r.data, "foo bar");
    let e = parse_response("err Cannot find item with an id of x");
    assert_eq!(e.status, "err");
    assert_eq!(e.data, "Cannot find item with an id of x");
    let empty = parse_response("ok ");
    assert_eq!(empty.status, "ok");
    assert_eq!(empty.data, "");
}

#[test]
fn tuple_parses_rendered_list() {
    let items = parse_tuple("[(\"a\", \"1\"), (\"b\", \"2\")]").unwrap();
    assert_eq!(
        items,
        vec![
            Item { id: "a".to_string(), data: "1".to_string() },
            Item { id: "b".to_string(), data: "2".to_string() },
        ]
    );
}

#[test]
fn tuple_parses_empty_and_trims() {
    assert_eq!(parse_tuple("[]").unwrap(), vec![]);
    assert_eq!(parse_tuple("  []\n").unwrap(), vec![]);
    let one = parse_tuple(" [(\"k\", \"hello world\")] ").unwrap();
    assert_eq!(one, vec![Item { id: "k".to_string(), data: "hello world".to_string() }]);
}

#[test]
fn tuple_rejects_other_text() {
    assert_eq!(parse_tuple("nope"), Err("Invalid tuple response".to_string()));
    assert_eq!(parse_tuple(""), Err("Invalid tuple response".to_string()));
    assert_eq!(parse_tuple("[(\"a\", \"1\")"), Err("Invalid tuple response".to_string()));
    assert_eq!(parse_tuple("[(\"a\", \"1\"),]"), Err("Invalid tuple response".to_string()));
    assert_eq!(parse_tuple("[x]"), Err("Invalid tuple response".to_string()));
}

#[test]
fn tuple_round_trips_engine_rendering() {
    let mut store = Store::new();
    for (k, v) in [("a", "1"), ("b", "two words"), ("c", "3")] {
        let r = execute(
            Command::Put { id: k.to_string(), data: v.to_string() },
            &mut store,
        );
        assert!(r.is_ok());
    }
    let listed = execute(Command::List { expr: Expr::Number(-1) }, &mut store).unwrap();
    let items = parse_tuple(&listed).unwrap();
    assert_eq!(
        items,
        vec![
            Item { id: "a".to_string(), data: "1".to_string() },
            Item { id: "b".to_string(), data: "two words".to_string() },
            Item { id: "c".to_string(), data: "3".to_string() },
        ]
    );
}

#[test]
fn pipe_builder_builds_chain() {
    let pipe = PipeBuilder::new().set("0", "foo bar").get("");
    assert_eq!(pipe.command, "SET 0 foo bar ~> GET ");
    let mut store = Store::new();
    let r = iris::pipe::run_pipe(pipe.command.trim(), &mut store);
    assert_eq!(r, Ok("foo bar".to_string()));
}
