//! The response encoder: an execution result becomes exactly one line,
//! plain (`ok …` / `err …`) or JSON (`{"status":…,"response":…}`), per the
//! server's configured format.

use vstd::prelude::*;

verus! {

/// The configured response format.
#[derive(Debug, Clone, Copy, PartialEq, Eq)]
pub enum Format {
    Default,
    Json,
}

/// The JSON string literal (quoted and escaped) of a sequence of
/// characters, as serde_json writes it. Named, not spelled out: the escape
/// rules run to pages, and the result depends on the characters alone.
pub uninterp spec fn spec_json_quoted(s: Seq<char>) -> Seq<char>;

/// Relies on `serde_json::to_string` for `&str`: it writes the quoted,
/// escaped JSON string literal of its argument, a function of the
/// characters alone, and serializing a string slice cannot fail.
#[verifier::external_body]
fn json_quote(s: &str) -> (r: String)
    ensures
        r@ == spec_json_quoted(s@),
{
    match serde_json::to_string(s) {
        Ok(r) => r,
        Err(_) => String::new(),
    }
}

/// The encoded line for a result: payload after `ok ` / `err ` and a
/// newline in the default format; a one-line JSON object with `status` and
/// the JSON-quoted payload under `response`, then a newline, in JSON
/// format.
pub open spec fn spec_encode(res: Result<Seq<char>, Seq<char>>, f: Format) -> Seq<char> {
    match f {
        Format::Default => match res {
            Ok(p) => "ok "@ + p + seq!['\n'],
            Err(e) => "err "@ + e + seq!['\n'],
        },
        Format::Json => match res {
            Ok(p) => "{\"status\":\"ok\",\"response\":"@ + spec_json_quoted(p) + seq!['}', '\n'],
            Err(e) => "{\"status\":\"err\",\"response\":"@ + spec_json_quoted(e) + seq![
                '}',
                '\n',
            ],
        },
    }
}

/// Encode one execution or pipe result as the single line written back to
/// the client.
pub fn encode_response(res: &Result<String, String>, format: Format) -> (r: String)
    ensures
        (match res {
            Ok(p) => r@ == spec_encode(Ok(p@), format),
            Err(e) => r@ == spec_encode(Err(e@), format),
        }),
{
    let mut m = String::new();
    match format {
        Format::Default => {
            match res {
                Ok(p) => {
                    m.append("ok ");
                    m.append(p.as_str());
                },
                Err(e) => {
                    m.append("err ");
                    m.append(e.as_str());
                },
            }
            m.append("\n");
            proof {
                reveal_strlit("\n");
                assert("\n"@ =~= seq!['\n']);
                match res {
                    Ok(p) => {
                        assert(m@ =~= "ok "@ + p@ + seq!['\n']);
                    },
                    Err(e) => {
                        assert(m@ =~= "err "@ + e@ + seq!['\n']);
                    },
                }
            }
            m
        },
        Format::Json => {
            let quoted = match res {
                Ok(p) => {
                    m.append("{\"status\":\"ok\",\"response\":");
                    json_quote(p.as_str())
                },
                Err(e) => {
                    m.append("{\"status\":\"err\",\"response\":");
                    json_quote(e.as_str())
                },
            };
            m.append(quoted.as_str());
            m.append("}\n");
            proof {
                reveal_strlit("}\n");
                assert("}\n"@ =~= seq!['}', '\n']);
                match res {
                    Ok(p) => {
                        assert(m@ =~= "{\"status\":\"ok\",\"response\":"@ + spec_json_quoted(p@)
                            + seq!['}', '\n']);
                    },
                    Err(e) => {
                        assert(m@ =~= "{\"status\":\"err\",\"response\":"@ + spec_json_quoted(e@)
                            + seq!['}', '\n']);
                    },
                }
            }
            m
        },
    }
}

} // verus!
