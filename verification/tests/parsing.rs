use iris::command::{parse_command, parse_expr, Command, Expr};

#[test]
fn expr_number() {
    assert_eq!(parse_expr("7"), Expr::Number(7));
    assert_eq!(parse_expr("-1"), Expr::Number(-1));
    assert_eq!(parse_expr("+7"), Expr::Number(7));
    assert_eq!(parse_expr("0"), Expr::Number(0));
    assert_eq!(parse_expr("007"), Expr::Number(7));
    assert_eq!(parse_expr("2147483647"), Expr::Number(2147483647));
    assert_eq!(parse_expr("-2147483648"), Expr::Number(-2147483648));
}

#[test]
fn expr_range() {
    assert_eq!(parse_expr("1..5"), Expr::Range(1, 5));
    assert_eq!(parse_expr("-3..-1"), Expr::Range(-3, -1));
    assert_eq!(parse_expr("5..2"), Expr::Range(5, 2));
    assert_eq!(parse_expr("0..-1"), Expr::Range(0, -1));
}

#[test]
fn expr_id_fallback() {
    assert_eq!(parse_expr("abc"), Expr::ID("abc".to_string()));
    assert_eq!(parse_expr(""), Expr::ID("".to_string()));
    assert_eq!(parse_expr(".."), Expr::ID("..".to_string()));
    assert_eq!(parse_expr("..5"), Expr::ID("..5".to_string()));
    assert_eq!(parse_expr("1..2..3"), Expr::ID("1..2..3".to_string()));
    assert_eq!(parse_expr("1..x"), Expr::ID("1..x".to_string()));
    // an out-of-range number is not a number, so it is a key
    assert_eq!(parse_expr("2147483648"), Expr::ID("2147483648".to_string()));
    assert_eq!(parse_expr("9999999999999999999999"), Expr::ID("9999999999999999999999".to_string()));
    assert_eq!(parse_expr("1.5"), Expr::ID("1.5".to_string()));
    // a bare sign has no digits, so it is a key
    assert_eq!(parse_expr("+"), Expr::ID("+".to_string()));
    assert_eq!(parse_expr("-"), Expr::ID("-".to_string()));
    assert_eq!(parse_expr("--5"), Expr::ID("--5".to_string()));
}

#[test]
fn command_ping() {
    assert_eq!(parse_command("PING"), Command::Ping {});
    assert_eq!(
        parse_command("PING extra"),
        Command::Invalid { reason: "Invalid Command".to_string() }
    );
}

#[test]
fn command_get() {
    assert_eq!(
        parse_command("GET"),
        Command::Invalid { reason: "\"GET\" requires an ID".to_string() }
    );
    assert_eq!(parse_command("GET 7"), Command::Get { id: "7".to_string() });
    assert_eq!(
        parse_command("GET a b"),
        Command::Invalid { reason: "Invalid Command".to_string() }
    );
}

#[test]
fn command_set() {
    assert_eq!(
        parse_command("SET"),
        Command::Invalid { reason: "\"SET\" requires an ID".to_string() }
    );
    assert_eq!(
        parse_command("SET 7"),
        Command::Invalid { reason: "\"SET\" requires Data".to_string() }
    );
    assert_eq!(
        parse_command("SET 7 hello world"),
        Command::Put { id: "7".to_string(), data: "hello world".to_string() }
    );
    // runs of whitespace in the data collapse to single spaces
    assert_eq!(
        parse_command("SET  7   a \t b"),
        Command::Put { id: "7".to_string(), data: "a b".to_string() }
    );
}

#[test]
fn command_expressions() {
    assert_eq!(
        parse_command("LST"),
        Command::Invalid { reason: "\"LST\" requires an Expression".to_string() }
    );
    assert_eq!(
        parse_command("CNT"),
        Command::Invalid { reason: "\"LST\" requires an Expression".to_string() }
    );
    assert_eq!(
        parse_command("DEL"),
        Command::Invalid { reason: "\"LST\" requires an Expression".to_string() }
    );
    assert_eq!(parse_command("LST -1"), Command::List { expr: Expr::Number(-1) });
    assert_eq!(parse_command("CNT 0..5"), Command::Count { expr: Expr::Range(0, 5) });
    assert_eq!(parse_command("DEL k"), Command::Delete { expr: Expr::ID("k".to_string()) });
    assert_eq!(
        parse_command("LST 1 2"),
        Command::Invalid { reason: "Invalid Command".to_string() }
    );
}

#[test]
fn command_unknown_or_empty() {
    assert_eq!(
        parse_command(""),
        Command::Invalid { reason: "Invalid Command".to_string() }
    );
    assert_eq!(
        parse_command("   "),
        Command::Invalid { reason: "Invalid Command".to_string() }
    );
    assert_eq!(
        parse_command("FOO 1"),
        Command::Invalid { reason: "Invalid Command".to_string() }
    );
    // verbs are case-sensitive
    assert_eq!(
        parse_command("get 7"),
        Command::Invalid { reason: "Invalid Command".to_string() }
    );
}
