use iris::command::{Command, Expr};
use iris::encode::{encode_response, Format};
use iris::engine::execute;
use iris::pipe::run_pipe;
use iris::store::Store;

#[test]
fn single_stage_pipe() {
    let mut store = Store::new();
    let r = run_pipe("PING", &mut store);
    assert_eq!(r, Ok("PONG".to_string()));
}

#[test]
fn set_threads_into_get() {
    let mut store = Store::new();
    let r = run_pipe("SET 1 foo ~> GET", &mut store);
    assert_eq!(r, Ok("foo".to_string()));
}

#[test]
fn pipe_error_aborts() {
    let mut store = Store::new();
    let r = run_pipe("GET missing ~> SET k", &mut store);
    assert_eq!(r, Err("Cannot find item with an id of missing".to_string()));
    // no later stage ran: the store is still empty
    let count = execute(Command::Count { expr: Expr::Number(-1) }, &mut store);
    assert_eq!(count, Ok("0".to_string()));
}

#[test]
fn pipe_threads_through_three_stages() {
    let mut store = Store::new();
    let r = run_pipe("SET a one ~> GET ~> SET b", &mut store);
    // GET a yields "one", which becomes the data of SET b
    assert_eq!(r, Ok("b".to_string()));
    let b = execute(Command::Get { id: "b".to_string() }, &mut store);
    assert_eq!(b, Ok("one".to_string()));
}

#[test]
fn empty_line_is_invalid() {
    let mut store = Store::new();
    let r = run_pipe("", &mut store);
    assert_eq!(r, Err("Invalid Command".to_string()));
}

#[test]
fn encode_default() {
    let ok: Result<String, String> = Ok("foo".to_string());
    assert_eq!(encode_response(&ok, Format::Default), "ok foo\n");
    let err: Result<String, String> = Err("oops".to_string());
    assert_eq!(encode_response(&err, Format::Default), "err oops\n");
}

#[test]
fn encode_json() {
    let ok: Result<String, String> = Ok("foo".to_string());
    assert_eq!(
        encode_response(&ok, Format::Json),
        "{\"status\":\"ok\",\"response\":\"foo\"}\n"
    );
    let err: Result<String, String> = Err("oops".to_string());
    assert_eq!(
        encode_response(&err, Format::Json),
        "{\"status\":\"err\",\"response\":\"oops\"}\n"
    );
}

#[test]
fn encode_json_escapes() {
    // the payload is JSON-quoted, so a quote or a newline inside it is escaped
    let ok: Result<String, String> = Ok("a\"b".to_string());
    assert_eq!(
        encode_response(&ok, Format::Json),
        "{\"status\":\"ok\",\"response\":\"a\\\"b\"}\n"
    );
    let nl: Result<String, String> = Ok("a\nb".to_string());
    assert_eq!(
        encode_response(&nl, Format::Json),
        "{\"status\":\"ok\",\"response\":\"a\\nb\"}\n"
    );
}
