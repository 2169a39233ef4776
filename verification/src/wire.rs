//! The wire layer a client works with: the request line for each verb, the
//! reply-line splitter, the parser for the bracketed list encoding, and a
//! builder for chained (piped) request lines.

use vstd::prelude::*;
use crate::store::EntryView;
use crate::text::{
    i32_to_string, spec_dec_int, spec_find_char, spec_trim, trim_str, lemma_find_char_at,
    lemma_find_char_none,
};

verus! {

/// An address expression as a client writes it: a count, or a position
/// range rendered `start..end`.
#[derive(Debug)]
pub enum Expression {
    Number(i32),
    Range(std::ops::Range<i32>),
}

/// An address expression for deletion: a count, a literal key, or a
/// position range.
#[derive(Debug)]
pub enum DeleteExpression<'a> {
    Number(i32),
    ID(&'a str),
    Range(std::ops::Range<i32>),
}

/// One reply line split into its `ok`/`err` status and its payload.
#[derive(Debug)]
pub struct ServerResponse {
    pub status: String,
    pub data: String,
}

/// One key-value pair read back from a bracketed list payload.
#[derive(Debug, PartialEq, Eq)]
pub struct Item {
    pub id: String,
    pub data: String,
}

impl View for Item {
    type V = EntryView;

    open spec fn view(&self) -> EntryView {
        (self.id@, self.data@)
    }
}

impl DeepView for Item {
    type V = EntryView;

    open spec fn deep_view(&self) -> EntryView {
        self@
    }
}

/// The text an [`Expression`] puts on the wire.
pub open spec fn spec_expression_text(e: &Expression) -> Seq<char> {
    match e {
        Expression::Number(n) => spec_dec_int(*n as int),
        Expression::Range(r) => spec_dec_int(r.start as int) + seq!['.', '.'] + spec_dec_int(
            r.end as int,
        ),
    }
}

/// The text a [`DeleteExpression`] puts on the wire.
pub open spec fn spec_delete_expression_text(e: &DeleteExpression) -> Seq<char> {
    match e {
        DeleteExpression::Number(n) => spec_dec_int(*n as int),
        DeleteExpression::ID(id) => id@,
        DeleteExpression::Range(r) => spec_dec_int(r.start as int) + seq!['.', '.']
            + spec_dec_int(r.end as int),
    }
}

/// Render an expression for a request line.
fn expression_text(e: &Expression) -> (r: String)
    ensures
        r@ == spec_expression_text(e),
{
    match e {
        Expression::Number(n) => i32_to_string(*n),
        Expression::Range(range) => {
            let mut r = i32_to_string(range.start);
            r.append("..");
            let end = i32_to_string(range.end);
            r.append(end.as_str());
            proof {
                reveal_strlit("..");
                assert(".."@ =~= seq!['.', '.']);
                assert(r@ =~= spec_dec_int(range.start as int) + seq!['.', '.'] + spec_dec_int(
                    range.end as int,
                ));
            }
            r
        },
    }
}

/// Render a delete expression for a request line.
fn delete_expression_text(e: &DeleteExpression) -> (r: String)
    ensures
        r@ == spec_delete_expression_text(e),
{
    match e {
        DeleteExpression::Number(n) => i32_to_string(*n),
        DeleteExpression::ID(id) => {
            let mut r = String::new();
            r.append(id);
            proof {
                assert(r@ =~= id@);
            }
            r
        },
        DeleteExpression::Range(range) => {
            let mut r = i32_to_string(range.start);
            r.append("..");
            let end = i32_to_string(range.end);
            r.append(end.as_str());
            proof {
                reveal_strlit("..");
                assert(".."@ =~= seq!['.', '.']);
                assert(r@ =~= spec_dec_int(range.start as int) + seq!['.', '.'] + spec_dec_int(
                    range.end as int,
                ));
            }
            r
        },
    }
}

/// The `SET` request line for a key and a value.
pub fn set_request(id: &str, data: &str) -> (r: String)
    ensures
        r@ == "SET "@ + id@ + seq![' '] + data@ + seq!['\n'],
{
    let mut r = String::new();
    r.append("SET ");
    r.append(id);
    r.append(" ");
    r.append(data);
    r.append("\n");
    proof {
        reveal_strlit(" ");
        reveal_strlit("\n");
        assert(" "@ =~= seq![' ']);
        assert("\n"@ =~= seq!['\n']);
        assert(r@ =~= "SET "@ + id@ + seq![' '] + data@ + seq!['\n']);
    }
    r
}

/// The `GET` request line for a key.
pub fn get_request(id: &str) -> (r: String)
    ensures
        r@ == "GET "@ + id@ + seq!['\n'],
{
    let mut r = String::new();
    r.append("GET ");
    r.append(id);
    r.append("\n");
    proof {
        reveal_strlit("\n");
        assert("\n"@ =~= seq!['\n']);
        assert(r@ =~= "GET "@ + id@ + seq!['\n']);
    }
    r
}

/// The `LST` request line for an expression.
pub fn list_request(expr: &Expression) -> (r: String)
    ensures
        r@ == "LST "@ + spec_expression_text(expr) + seq!['\n'],
{
    let mut r = String::new();
    r.append("LST ");
    let e = expression_text(expr);
    r.append(e.as_str());
    r.append("\n");
    proof {
        reveal_strlit("\n");
        assert("\n"@ =~= seq!['\n']);
        assert(r@ =~= "LST "@ + spec_expression_text(expr) + seq!['\n']);
    }
    r
}

/// The `CNT` request line for an expression.
pub fn count_request(expr: &Expression) -> (r: String)
    ensures
        r@ == "CNT "@ + spec_expression_text(expr) + seq!['\n'],
{
    let mut r = String::new();
    r.append("CNT ");
    let e = expression_text(expr);
    r.append(e.as_str());
    r.append("\n");
    proof {
        reveal_strlit("\n");
        assert("\n"@ =~= seq!['\n']);
        assert(r@ =~= "CNT "@ + spec_expression_text(expr) + seq!['\n']);
    }
    r
}

/// The `DEL` request line for a delete expression.
pub fn delete_request(expr: &DeleteExpression) -> (r: String)
    ensures
        r@ == "DEL "@ + spec_delete_expression_text(expr) + seq!['\n'],
{
    let mut r = String::new();
    r.append("DEL ");
    let e = delete_expression_text(expr);
    r.append(e.as_str());
    r.append("\n");
    proof {
        reveal_strlit("\n");
        assert("\n"@ =~= seq!['\n']);
        assert(r@ =~= "DEL "@ + spec_delete_expression_text(expr) + seq!['\n']);
    }
    r
}

/// Split a reply line into the word before its first space and everything
/// after it. A reply without a space is malformed and refused by callers
/// beforehand.
pub fn parse_response(response: &str) -> (r: ServerResponse)
    requires
        spec_find_char(response@, ' ') is Some,
    ensures
        ({
            let i = spec_find_char(response@, ' ').unwrap();
            r.status@ == response@.take(i) && r.data@ == response@.skip(i + 1)
        }),
{
    let n = response.unicode_len();
    let mut i: usize = 0;
    while i < n && response.get_char(i) != ' '
        invariant
            n == response@.len(),
            i <= n,
            forall|j: int| 0 <= j < i ==> response@[j] != ' ',
        decreases n - i,
    {
        i += 1;
    }
    if i == n {
        proof {
            lemma_find_char_none(response@, ' ');
        }
        // unreachable: the precondition promises a space
        assert(false);
    }
    proof {
        lemma_find_char_at(response@, ' ', i as int);
    }
    let status = response.substring_char(0, i).to_owned();
    let data = response.substring_char(i + 1, n).to_owned();
    ServerResponse { status, data }
}

/// One pair read off the front of `t`: `("key", "value")`, the key and the
/// value each running to their next quote, and the rest after the closing
/// parenthesis.
pub open spec fn spec_parse_pair(t: Seq<char>) -> Option<(EntryView, Seq<char>)> {
    if t.len() >= 2 && t[0] == '(' && t[1] == '"' {
        match spec_find_char(t.skip(2), '"') {
            Some(i) => {
                let key = t.skip(2).take(i);
                let u = t.skip(2).skip(i + 1);
                if u.len() >= 3 && u[0] == ',' && u[1] == ' ' && u[2] == '"' {
                    match spec_find_char(u.skip(3), '"') {
                        Some(j) => {
                            let val = u.skip(3).take(j);
                            let w = u.skip(3).skip(j + 1);
                            if w.len() >= 1 && w[0] == ')' {
                                Some(((key, val), w.skip(1)))
                            } else {
                                None
                            }
                        },
                        None => None,
                    }
                } else {
                    None
                }
            },
            None => None,
        }
    } else {
        None
    }
}

/// The pairs of a non-empty list body: pairs separated by `, `, the last
/// one followed by the closing `]` that ends the text.
pub open spec fn spec_parse_items(t: Seq<char>) -> Option<Seq<EntryView>>
    decreases t.len(),
{
    match spec_parse_pair(t) {
        Some((e, rest)) => {
            if rest.len() == 1 && rest[0] == ']' {
                Some(seq![e])
            } else if rest.len() >= 2 && rest[0] == ',' && rest[1] == ' ' && rest.skip(2).len()
                < t.len() {
                match spec_parse_items(rest.skip(2)) {
                    Some(items) => Some(seq![e] + items),
                    None => None,
                }
            } else {
                None
            }
        },
        None => None,
    }
}

/// What a bracketed list payload holds: its pairs when, after trimming, it
/// is exactly a rendered list, and nothing otherwise.
pub open spec fn spec_parse_tuple(s: Seq<char>) -> Option<Seq<EntryView>> {
    let t = spec_trim(s);
    if t.len() == 2 && t[0] == '[' && t[1] == ']' {
        Some(Seq::empty())
    } else if t.len() >= 2 && t[0] == '[' {
        spec_parse_items(t.skip(1))
    } else {
        None
    }
}

/// Parse a bracketed list payload back into items. Accepts exactly the
/// rendering the engine produces, with surrounding whitespace allowed;
/// anything else is refused.
#[verifier::rlimit(80)]
pub fn parse_tuple(response: &str) -> (r: Result<Vec<Item>, String>)
    ensures
        match r {
            Ok(items) => spec_parse_tuple(response@) == Some(items.deep_view()),
            Err(e) => spec_parse_tuple(response@) is None && e@ == "Invalid tuple response"@,
        },
{
    let t = trim_str(response);
    let ghost gt = t@;
    let n = t.unicode_len();
    if n < 2 || t.get_char(0) != '[' {
        return Err("Invalid tuple response".to_owned());
    }
    if n == 2 {
        if t.get_char(1) == ']' {
            let items: Vec<Item> = Vec::new();
            proof {
                assert(items.deep_view() =~= Seq::<EntryView>::empty());
            }
            return Ok(items);
        } else {
            return Err("Invalid tuple response".to_owned());
        }
    }
    let mut items: Vec<Item> = Vec::new();
    let mut pos: usize = 1;
    proof {
        assert(items.deep_view() =~= Seq::<EntryView>::empty());
        assert(match spec_parse_items(gt.skip(1)) {
            Some(x) => spec_parse_tuple(response@) == Some(items.deep_view() + x),
            None => spec_parse_tuple(response@) is None,
        }) by {
            if spec_parse_items(gt.skip(1)) is Some {
                assert(items.deep_view() + spec_parse_items(gt.skip(1)).unwrap()
                    =~= spec_parse_items(gt.skip(1)).unwrap());
            }
        }
    }
    loop
        invariant
            t@ == gt,
            n == gt.len(),
            gt == spec_trim(response@),
            n >= 3,
            1 <= pos <= n,
            match spec_parse_items(gt.skip(pos as int)) {
                Some(x) => spec_parse_tuple(response@) == Some(items.deep_view() + x),
                None => spec_parse_tuple(response@) is None,
            },
        decreases n - pos,
    {
        let ghost sub = gt.skip(pos as int);
        // opening `("` of a pair
        if pos >= n || pos + 1 >= n || t.get_char(pos) != '(' || t.get_char(pos + 1) != '"' {
            proof {
                assert(spec_parse_pair(sub) is None);
            }
            return Err("Invalid tuple response".to_owned());
        }
        // the key runs to the next quote
        let mut k: usize = pos + 2;
        while k < n && t.get_char(k) != '"'
            invariant
                t@ == gt,
                n == gt.len(),
                pos + 2 <= k <= n,
                forall|j: int| pos + 2 <= j < k ==> gt[j] != '"',
            decreases n - k,
        {
            k += 1;
        }
        if k == n {
            proof {
                assert(forall|j: int| 0 <= j < sub.skip(2).len() ==> sub.skip(2)[j] != '"');
                lemma_find_char_none(sub.skip(2), '"');
                assert(spec_parse_pair(sub) is None);
            }
            return Err("Invalid tuple response".to_owned());
        }
        let ghost i = k as int - pos as int - 2;
        proof {
            assert(forall|j: int| 0 <= j < i ==> sub.skip(2)[j] != '"');
            assert(sub.skip(2)[i] == '"');
            lemma_find_char_at(sub.skip(2), '"', i);
            assert(sub.skip(2).take(i) =~= gt.subrange(pos as int + 2, k as int));
            assert(sub.skip(2).skip(i + 1) =~= gt.skip(k as int + 1));
        }
        let key = t.substring_char(pos + 2, k);
        // `", "` between key and value
        if n - k <= 3 || t.get_char(k + 1) != ',' || t.get_char(k + 2) != ' ' || t.get_char(
            k + 3,
        ) != '"' {
            proof {
                let u = gt.skip(k as int + 1);
                assert(u.len() >= 3 ==> (u[0] == gt[k as int + 1] && u[1] == gt[k as int + 2]
                    && u[2] == gt[k as int + 3]));
                assert(spec_parse_pair(sub) is None);
            }
            return Err("Invalid tuple response".to_owned());
        }
        // the value runs to the next quote
        let mut v: usize = k + 4;
        while v < n && t.get_char(v) != '"'
            invariant
                t@ == gt,
                n == gt.len(),
                k + 4 <= v <= n,
                forall|j: int| k + 4 <= j < v ==> gt[j] != '"',
            decreases n - v,
        {
            v += 1;
        }
        let ghost u = gt.skip(k as int + 1);
        proof {
            assert(u.skip(3) =~= gt.skip(k as int + 4));
        }
        if v == n {
            proof {
                assert(forall|j: int| 0 <= j < u.skip(3).len() ==> u.skip(3)[j] != '"');
                lemma_find_char_none(u.skip(3), '"');
                assert(spec_parse_pair(sub) is None);
            }
            return Err("Invalid tuple response".to_owned());
        }
        let ghost j = v as int - k as int - 4;
        proof {
            assert(forall|x: int| 0 <= x < j ==> u.skip(3)[x] != '"');
            assert(u.skip(3)[j] == '"');
            lemma_find_char_at(u.skip(3), '"', j);
            assert(u.skip(3).take(j) =~= gt.subrange(k as int + 4, v as int));
            assert(u.skip(3).skip(j + 1) =~= gt.skip(v as int + 1));
        }
        let val = t.substring_char(k + 4, v);
        // closing `)`
        if v + 1 >= n || t.get_char(v + 1) != ')' {
            proof {
                let w = gt.skip(v as int + 1);
                assert(w.len() >= 1 ==> w[0] == gt[v as int + 1]);
                assert(spec_parse_pair(sub) is None);
            }
            return Err("Invalid tuple response".to_owned());
        }
        let ghost e = (key@, val@);
        let ghost rest = gt.skip(v as int + 2);
        proof {
            assert(gt.skip(v as int + 1).skip(1) =~= rest);
            assert(spec_parse_pair(sub) == Some((e, rest)));
        }
        let ghost prev_items = items.deep_view();
        items.push(Item { id: key.to_owned(), data: val.to_owned() });
        proof {
            assert(items.deep_view() =~= prev_items.push(e));
        }
        let after = v + 2;
        if after == n - 1 && t.get_char(after) == ']' {
            proof {
                assert(rest.len() == 1 && rest[0] == ']');
                assert(spec_parse_items(sub) == Some(seq![e]));
                assert(prev_items + seq![e] =~= items.deep_view());
            }
            return Ok(items);
        }
        if after < n - 1 && t.get_char(after) == ',' && t.get_char(after + 1) == ' ' {
            proof {
                assert(rest.len() >= 2 && rest[0] == ',' && rest[1] == ' ');
                assert(rest.skip(2) =~= gt.skip(after as int + 2));
                assert(rest.skip(2).len() < sub.len());
                assert(match spec_parse_items(gt.skip(after as int + 2)) {
                    Some(x) => spec_parse_items(sub) == Some(seq![e] + x),
                    None => spec_parse_items(sub) is None,
                });
                if spec_parse_items(gt.skip(after as int + 2)) is Some {
                    let x = spec_parse_items(gt.skip(after as int + 2)).unwrap();
                    assert(prev_items + (seq![e] + x) =~= items.deep_view() + x);
                }
            }
            pos = after + 2;
        } else {
            proof {
                assert(!(rest.len() == 1 && rest[0] == ']'));
                assert(!(rest.len() >= 2 && rest[0] == ',' && rest[1] == ' '));
                assert(spec_parse_items(sub) is None);
            }
            return Err("Invalid tuple response".to_owned());
        }
    }
}

/// Builds a chained request line one stage at a time.
pub struct PipeBuilder {
    pub command: String,
}

impl PipeBuilder {
    /// An empty pipe.
    pub fn new() -> (r: PipeBuilder)
        ensures
            r.command@ == Seq::<char>::empty(),
    {
        PipeBuilder { command: String::new() }
    }

    /// Append a `SET` stage followed by the pipe separator.
    pub fn set(self, id: &str, data: &str) -> (r: PipeBuilder)
        ensures
            r.command@ == self.command@ + "SET "@ + id@ + seq![' '] + data@ + " ~>"@,
    {
        let mut command = self.command;
        command.append("SET ");
        command.append(id);
        command.append(" ");
        command.append(data);
        command.append(" ~>");
        proof {
            reveal_strlit(" ");
            assert(" "@ =~= seq![' ']);
        }
        PipeBuilder { command }
    }

    /// Append a trailing `GET` stage.
    pub fn get(self, id: &str) -> (r: PipeBuilder)
        ensures
            r.command@ == self.command@ + " GET "@ + id@,
    {
        let mut command = self.command;
        command.append(" GET ");
        command.append(id);
        PipeBuilder { command }
    }
}

} // verus!
