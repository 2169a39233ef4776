//! The command language: address expressions, typed commands, and the
//! parsers that turn a request line into them. Parsing never fails: malformed
//! input becomes `Command::Invalid` carrying a human-readable reason.

use vstd::prelude::*;
use crate::text::{
    spec_is_i32_str, spec_int_val, spec_split_pair, spec_tokenize, spec_join_spaces,
    parse_i32, split_pair_str, tokenize, join_spaces_from, str_eq,
};

verus! {

/// An address expression: a literal key, a count, or an inclusive position
/// range into the store's iteration order.
#[derive(Debug, Clone, PartialEq, Eq)]
pub enum Expr {
    ID(String),
    Number(i32),
    Range(i32, i32),
}

/// The mathematical value of an [`Expr`].
pub enum ExprView {
    ID(Seq<char>),
    Number(int),
    Range(int, int),
}

impl View for Expr {
    type V = ExprView;

    open spec fn view(&self) -> ExprView {
        match self {
            Expr::ID(s) => ExprView::ID(s@),
            Expr::Number(n) => ExprView::Number(*n as int),
            Expr::Range(a, b) => ExprView::Range(*a as int, *b as int),
        }
    }
}

/// A typed command, constructed once per request stage and executed once.
#[derive(Debug, Clone, PartialEq, Eq)]
pub enum Command {
    Ping {},
    Get { id: String },
    List { expr: Expr },
    Count { expr: Expr },
    Put { id: String, data: String },
    Delete { expr: Expr },
    Invalid { reason: String },
}

/// The mathematical value of a [`Command`].
pub enum CommandView {
    Ping,
    Get { id: Seq<char> },
    List { expr: ExprView },
    Count { expr: ExprView },
    Put { id: Seq<char>, data: Seq<char> },
    Delete { expr: ExprView },
    Invalid { reason: Seq<char> },
}

impl View for Command {
    type V = CommandView;

    open spec fn view(&self) -> CommandView {
        match self {
            Command::Ping {} => CommandView::Ping,
            Command::Get { id } => CommandView::Get { id: id@ },
            Command::List { expr } => CommandView::List { expr: expr@ },
            Command::Count { expr } => CommandView::Count { expr: expr@ },
            Command::Put { id, data } => CommandView::Put { id: id@, data: data@ },
            Command::Delete { expr } => CommandView::Delete { expr: expr@ },
            Command::Invalid { reason } => CommandView::Invalid { reason: reason@ },
        }
    }
}

/// Whether splitting `s` on `..` yields exactly two parts that are both
/// in-range signed integers.
pub open spec fn spec_is_range_str(s: Seq<char>) -> bool {
    let parts = spec_split_pair(s, '.', '.');
    parts.len() == 2 && spec_is_i32_str(parts[0]) && spec_is_i32_str(parts[1])
}

/// What a token means as an address expression: a number when it parses as
/// one, else a range when it splits as one, else a literal key. Every token
/// means something; this parser cannot fail.
pub open spec fn spec_parse_expr(s: Seq<char>) -> ExprView {
    if spec_is_i32_str(s) {
        ExprView::Number(spec_int_val(s))
    } else if spec_is_range_str(s) {
        let parts = spec_split_pair(s, '.', '.');
        ExprView::Range(spec_int_val(parts[0]), spec_int_val(parts[1]))
    } else {
        ExprView::ID(s)
    }
}

/// What a request line means as a command, per the dispatch table of the
/// grammar: the first token is the verb, matched exactly; missing operands
/// and unknown verbs become `Invalid` with the grammar's reason strings.
pub open spec fn spec_parse_command(line: Seq<char>) -> CommandView {
    let ts = spec_tokenize(line);
    if ts.len() == 1 && ts[0] == "PING"@ {
        CommandView::Ping
    } else if ts.len() == 1 && ts[0] == "GET"@ {
        CommandView::Invalid { reason: "\"GET\" requires an ID"@ }
    } else if ts.len() == 1 && ts[0] == "SET"@ {
        CommandView::Invalid { reason: "\"SET\" requires an ID"@ }
    } else if ts.len() == 1 && (ts[0] == "LST"@ || ts[0] == "CNT"@ || ts[0] == "DEL"@) {
        CommandView::Invalid { reason: "\"LST\" requires an Expression"@ }
    } else if ts.len() == 2 && ts[0] == "GET"@ {
        CommandView::Get { id: ts[1] }
    } else if ts.len() == 2 && ts[0] == "SET"@ {
        CommandView::Invalid { reason: "\"SET\" requires Data"@ }
    } else if ts.len() == 2 && ts[0] == "LST"@ {
        CommandView::List { expr: spec_parse_expr(ts[1]) }
    } else if ts.len() == 2 && ts[0] == "CNT"@ {
        CommandView::Count { expr: spec_parse_expr(ts[1]) }
    } else if ts.len() == 2 && ts[0] == "DEL"@ {
        CommandView::Delete { expr: spec_parse_expr(ts[1]) }
    } else if ts.len() >= 3 && ts[0] == "SET"@ {
        CommandView::Put { id: ts[1], data: spec_join_spaces(ts.skip(2)) }
    } else {
        CommandView::Invalid { reason: "Invalid Command"@ }
    }
}

/// Parse one token as an address expression; falls back to `ID`, so it
/// always succeeds.
pub fn parse_expr(expr_str: &str) -> (r: Expr)
    ensures
        r@ == spec_parse_expr(expr_str@),
{
    if let Some(n) = parse_i32(expr_str) {
        return Expr::Number(n);
    }
    let parts = split_pair_str(expr_str, '.', '.');
    if parts.len() == 2 {
        proof {
            assert(parts.deep_view()[0] == parts@[0]@);
            assert(parts.deep_view()[1] == parts@[1]@);
        }
        let a = parse_i32(parts[0].as_str());
        let b = parse_i32(parts[1].as_str());
        if let Some(av) = a {
            if let Some(bv) = b {
                return Expr::Range(av, bv);
            }
        }
    }
    Expr::ID(expr_str.to_owned())
}

/// Parse a request line into a typed command, per the grammar's dispatch
/// table.
pub fn parse_command(input: &str) -> (r: Command)
    ensures
        r@ == spec_parse_command(input@),
{
    let parts = tokenize(input);
    let ghost ts = spec_tokenize(input@);
    proof {
        assert(forall|i: int|
            0 <= i < parts@.len() ==> parts.deep_view()[i] == #[trigger] parts@[i]@);
    }
    if parts.len() == 1 {
        let t0 = parts[0].as_str();
        if str_eq(t0, "PING") {
            Command::Ping {}
        } else if str_eq(t0, "GET") {
            Command::Invalid { reason: "\"GET\" requires an ID".to_owned() }
        } else if str_eq(t0, "SET") {
            Command::Invalid { reason: "\"SET\" requires an ID".to_owned() }
        } else if str_eq(t0, "LST") || str_eq(t0, "CNT") || str_eq(t0, "DEL") {
            Command::Invalid { reason: "\"LST\" requires an Expression".to_owned() }
        } else {
            Command::Invalid { reason: "Invalid Command".to_owned() }
        }
    } else if parts.len() == 2 {
        let t0 = parts[0].as_str();
        if str_eq(t0, "GET") {
            Command::Get { id: parts[1].clone() }
        } else if str_eq(t0, "SET") {
            Command::Invalid { reason: "\"SET\" requires Data".to_owned() }
        } else if str_eq(t0, "LST") {
            Command::List { expr: parse_expr(parts[1].as_str()) }
        } else if str_eq(t0, "CNT") {
            Command::Count { expr: parse_expr(parts[1].as_str()) }
        } else if str_eq(t0, "DEL") {
            Command::Delete { expr: parse_expr(parts[1].as_str()) }
        } else {
            Command::Invalid { reason: "Invalid Command".to_owned() }
        }
    } else if parts.len() >= 3 {
        let t0 = parts[0].as_str();
        if str_eq(t0, "SET") {
            let data = join_spaces_from(&parts, 2);
            Command::Put { id: parts[1].clone(), data }
        } else {
            Command::Invalid { reason: "Invalid Command".to_owned() }
        }
    } else {
        Command::Invalid { reason: "Invalid Command".to_owned() }
    }
}

} // verus!
