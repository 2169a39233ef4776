//! The execution engine: what each typed command does to the store and what
//! line it answers with. The whole behaviour is stated by two spec
//! functions, `spec_store_after` and `spec_output`, and `execute` is proved
//! against them.

use vstd::prelude::*;
use crate::command::{Command, CommandView, Expr, ExprView};
use crate::store::{
    EntryView, Store, spec_excise, spec_find_key, spec_get, spec_upsert, spec_window,
};
use crate::text::{spec_dec_nat, u64_to_string};

verus! {

/// One selected pair rendered as `("key", "value")`. Keys and values are
/// taken verbatim; a quote inside one is not escaped, so the encoding is
/// unambiguous only for values without `"`.
pub open spec fn spec_render_pair(e: EntryView) -> Seq<char> {
    seq!['(', '"'] + e.0 + seq!['"', ',', ' ', '"'] + e.1 + seq!['"', ')']
}

/// The selected pairs rendered back to back, separated by `, `.
pub open spec fn spec_render_pairs_inner(s: Seq<EntryView>) -> Seq<char>
    decreases s.len(),
{
    if s.len() == 0 {
        Seq::empty()
    } else if s.len() == 1 {
        spec_render_pair(s[0])
    } else {
        spec_render_pair(s[0]) + seq![',', ' '] + spec_render_pairs_inner(s.drop_first())
    }
}

/// The bracketed list encoding of a selection: the library's documented,
/// parseable rendering of collection-valued results.
pub open spec fn spec_render_pairs(s: Seq<EntryView>) -> Seq<char> {
    seq!['['] + spec_render_pairs_inner(s) + seq![']']
}

/// The error line for a `GET` on an absent key.
pub open spec fn spec_not_found_msg(id: Seq<char>) -> Seq<char> {
    "Cannot find item with an id of "@ + id
}

/// The error line for a `DEL` on an absent key.
pub open spec fn spec_cannot_delete_msg(id: Seq<char>) -> Seq<char> {
    "Cannot delete item with an id of "@ + id
}

/// The error line for an `ID` expression where only `Number` or `Range` is
/// accepted.
pub open spec fn spec_expr_not_allowed_msg() -> Seq<char> {
    "This expression is not allowed"@
}

/// The count a `Number` expression resolves to: `-1` is the sentinel for
/// the whole store; other negative counts select nothing.
pub open spec fn spec_number_count(n: int, len: int) -> int {
    if n == -1 {
        len
    } else if n < 0 {
        0
    } else {
        n
    }
}

/// The selection of a `Number` expression: the first so-many entries in
/// iteration order, clamped to the store's size.
pub open spec fn spec_count_selection(s: Seq<EntryView>, n: int) -> Seq<EntryView> {
    spec_window(s, 0, spec_number_count(n, s.len() as int))
}

/// The selection of a `Range` expression for `List` and `Count`: skip the
/// first `a` positions, then take up to `e + 1` entries, where `e` is `b`,
/// or the store's length when `b` is negative. A negative `a` selects
/// nothing.
pub open spec fn spec_range_selection(s: Seq<EntryView>, a: int, b: int) -> Seq<EntryView> {
    let e = if b < 0 {
        s.len() as int
    } else {
        b
    };
    if a < 0 {
        Seq::empty()
    } else {
        spec_window(s, a, e + 1)
    }
}

/// The selection of a `Range` expression for `Delete`: as for `List`, but a
/// negative `b` resolves to the store's length minus one instead.
pub open spec fn spec_range_selection_delete(s: Seq<EntryView>, a: int, b: int) -> Seq<
    EntryView,
> {
    let e = if b < 0 {
        s.len() as int - 1
    } else {
        b
    };
    if a < 0 {
        Seq::empty()
    } else {
        spec_window(s, a, e + 1)
    }
}

/// The store after a command: `SET` upserts, `DEL` removes its selection,
/// everything else leaves the store as it is.
pub open spec fn spec_store_after(c: CommandView, s: Seq<EntryView>) -> Seq<EntryView> {
    match c {
        CommandView::Put { id, data } => spec_upsert(s, id, data),
        CommandView::Delete { expr } => match expr {
            ExprView::ID(id) => match spec_find_key(s, id) {
                Some(i) => s.remove(i),
                None => s,
            },
            ExprView::Number(n) => spec_excise(s, 0, spec_number_count(n, s.len() as int)),
            ExprView::Range(a, b) => {
                let e = if b < 0 {
                    s.len() as int - 1
                } else {
                    b
                };
                if a < 0 {
                    s
                } else {
                    spec_excise(s, a, e + 1)
                }
            },
        },
        _ => s,
    }
}

/// The line a command answers with: the payload on success, the message on
/// failure.
pub open spec fn spec_output(c: CommandView, s: Seq<EntryView>) -> Result<Seq<char>, Seq<char>> {
    match c {
        CommandView::Ping => Ok("PONG"@),
        CommandView::Get { id } => match spec_get(s, id) {
            Some(v) => Ok(v),
            None => Err(spec_not_found_msg(id)),
        },
        CommandView::Put { id, data } => Ok(id),
        CommandView::List { expr } => match expr {
            ExprView::Number(n) => Ok(spec_render_pairs(spec_count_selection(s, n))),
            ExprView::Range(a, b) => Ok(spec_render_pairs(spec_range_selection(s, a, b))),
            ExprView::ID(_) => Err(spec_expr_not_allowed_msg()),
        },
        CommandView::Count { expr } => match expr {
            ExprView::Number(n) => Ok(spec_dec_nat(spec_count_selection(s, n).len())),
            ExprView::Range(a, b) => Ok(spec_dec_nat(spec_range_selection(s, a, b).len())),
            ExprView::ID(_) => Err(spec_expr_not_allowed_msg()),
        },
        CommandView::Delete { expr } => match expr {
            ExprView::ID(id) => match spec_find_key(s, id) {
                Some(i) => Ok(s[i].1),
                None => Err(spec_cannot_delete_msg(id)),
            },
            ExprView::Number(n) => Ok(spec_render_pairs(spec_count_selection(s, n))),
            ExprView::Range(a, b) => Ok(
                spec_render_pairs(spec_range_selection_delete(s, a, b)),
            ),
        },
        CommandView::Invalid { reason } => Err(reason),
    }
}

/// Appending one pair to a selection appends its rendering, with a
/// separator when the selection was not empty.
proof fn lemma_render_inner_push(s: Seq<EntryView>, e: EntryView)
    ensures
        spec_render_pairs_inner(s.push(e)) == if s.len() == 0 {
            spec_render_pair(e)
        } else {
            spec_render_pairs_inner(s) + seq![',', ' '] + spec_render_pair(e)
        },
    decreases s.len(),
{
    if s.len() == 0 {
        assert(s.push(e).len() == 1);
        assert(s.push(e)[0] == e);
    } else if s.len() == 1 {
        assert(s.push(e).drop_first() =~= s.drop_first().push(e));
        lemma_render_inner_push(s.drop_first(), e);
    } else {
        assert(s.push(e).drop_first() =~= s.drop_first().push(e));
        lemma_render_inner_push(s.drop_first(), e);
    }
}

/// Render a selection as the bracketed list.
pub fn render_pairs(pairs: &Vec<(String, String)>) -> (r: String)
    ensures
        r@ == spec_render_pairs(pairs.deep_view()),
{
    let ghost dv = pairs.deep_view();
    let mut r = String::new();
    r.append("[");
    proof {
        reveal_strlit("[");
        assert(r@ =~= seq!['[']);
        assert(dv.take(0) =~= Seq::<EntryView>::empty());
        assert(r@ =~= seq!['['] + spec_render_pairs_inner(dv.take(0)));
    }
    let n = pairs.len();
    let mut i: usize = 0;
    while i < n
        invariant
            n == dv.len(),
            n == pairs.deep_view().len(),
            dv == pairs.deep_view(),
            i <= n,
            r@ == seq!['['] + spec_render_pairs_inner(dv.take(i as int)),
        decreases n - i,
    {
        if i > 0 {
            r.append(", ");
        }
        r.append("(\"");
        r.append(pairs[i].0.as_str());
        r.append("\", \"");
        r.append(pairs[i].1.as_str());
        r.append("\")");
        proof {
            reveal_strlit(", ");
            reveal_strlit("(\"");
            reveal_strlit("\", \"");
            reveal_strlit("\")");
            assert(", "@ =~= seq![',', ' ']);
            assert("(\""@ =~= seq!['(', '"']);
            assert("\", \""@ =~= seq!['"', ',', ' ', '"']);
            assert("\")"@ =~= seq!['"', ')']);
            assert(dv[i as int] == (pairs@[i as int].0@, pairs@[i as int].1@));
            lemma_render_inner_push(dv.take(i as int), dv[i as int]);
            assert(dv.take(i as int).push(dv[i as int]) =~= dv.take(i as int + 1));
            assert(r@ =~= seq!['['] + spec_render_pairs_inner(dv.take(i as int + 1)));
        }
        i += 1;
    }
    r.append("]");
    proof {
        reveal_strlit("]");
        assert("]"@ =~= seq![']']);
        assert(dv.take(n as int) =~= dv);
        assert(r@ =~= spec_render_pairs(dv));
    }
    r
}

/// Execute one typed command against the store. The store afterwards is
/// `spec_store_after` of the command, and the answer line is `spec_output`.
pub fn execute(cmd: Command, store: &mut Store) -> (r: Result<String, String>)
    requires
        old(store).wf(),
    ensures
        final(store).wf(),
        final(store)@ == spec_store_after(cmd@, old(store)@),
        match r {
            Ok(v) => spec_output(cmd@, old(store)@) == Ok::<Seq<char>, Seq<char>>(v@),
            Err(e) => spec_output(cmd@, old(store)@) == Err::<Seq<char>, Seq<char>>(e@),
        },
{
    let ghost s0 = store@;
    match cmd {
        Command::Ping {} => Ok("PONG".to_owned()),
        Command::Get { id } => {
            match store.get(id.as_str()) {
                Some(v) => Ok(v.clone()),
                None => {
                    let mut m = String::new();
                    m.append("Cannot find item with an id of ");
                    m.append(id.as_str());
                    proof {
                        assert(m@ =~= spec_not_found_msg(id@));
                    }
                    Err(m)
                },
            }
        },
        Command::Put { id, data } => {
            let out = id.clone();
            store.upsert(id, data);
            Ok(out)
        },
        Command::List { expr } => {
            match expr {
                Expr::Number(n) => {
                    let sel = select_count(store, n);
                    Ok(render_pairs(&sel))
                },
                Expr::Range(a, b) => {
                    let sel = select_range(store, a, b);
                    Ok(render_pairs(&sel))
                },
                Expr::ID(_) => Err("This expression is not allowed".to_owned()),
            }
        },
        Command::Count { expr } => {
            match expr {
                Expr::Number(n) => {
                    let sel = select_count(store, n);
                    Ok(u64_to_string(sel.len() as u64))
                },
                Expr::Range(a, b) => {
                    let sel = select_range(store, a, b);
                    Ok(u64_to_string(sel.len() as u64))
                },
                Expr::ID(_) => Err("This expression is not allowed".to_owned()),
            }
        },
        Command::Delete { expr } => {
            match expr {
                Expr::ID(id) => {
                    proof {
                        crate::store::lemma_find_key_sound(s0, id@);
                    }
                    match store.remove(id.as_str()) {
                        Some(v) => Ok(v),
                        None => {
                            let mut m = String::new();
                            m.append("Cannot delete item with an id of ");
                            m.append(id.as_str());
                            proof {
                                assert(m@ =~= spec_cannot_delete_msg(id@));
                            }
                            Err(m)
                        },
                    }
                },
                Expr::Number(n) => {
                    let len = store.len();
                    let count: usize = if n == -1 {
                        len
                    } else if n < 0 {
                        0
                    } else {
                        n as usize
                    };
                    let removed = store.remove_window(0, count);
                    Ok(render_pairs(&removed))
                },
                Expr::Range(a, b) => {
                    if a < 0 {
                        let removed: Vec<(String, String)> = Vec::new();
                        proof {
                            assert(removed.deep_view() =~= Seq::<EntryView>::empty());
                        }
                        Ok(render_pairs(&removed))
                    } else {
                        let len = store.len();
                        let count: usize = if b < 0 {
                            len
                        } else {
                            (b as usize) + 1
                        };
                        let removed = store.remove_window(a as usize, count);
                        proof {
                            assert(spec_window(s0, a as int, count as int)
                                =~= spec_range_selection_delete(s0, a as int, b as int));
                            assert(spec_excise(s0, a as int, count as int)
                                =~= spec_store_after(cmd@, s0));
                        }
                        Ok(render_pairs(&removed))
                    }
                },
            }
        },
        Command::Invalid { reason } => Err(reason),
    }
}

/// The entries a `Number` expression selects, cloned in iteration order.
fn select_count(store: &Store, n: i32) -> (r: Vec<(String, String)>)
    ensures
        r.deep_view() == spec_count_selection(store@, n as int),
{
    let len = store.len();
    let count: usize = if n == -1 {
        len
    } else if n < 0 {
        0
    } else {
        n as usize
    };
    store.select_window(0, count)
}

/// The entries a `Range` expression selects for `List` and `Count`, cloned
/// in iteration order.
fn select_range(store: &Store, a: i32, b: i32) -> (r: Vec<(String, String)>)
    ensures
        r.deep_view() == spec_range_selection(store@, a as int, b as int),
{
    if a < 0 {
        let r: Vec<(String, String)> = Vec::new();
        proof {
            assert(r.deep_view() =~= Seq::<EntryView>::empty());
        }
        r
    } else {
        let len = store.len();
        if b < 0 {
            let r = store.select_window(a as usize, len);
            proof {
                assert(spec_window(store@, a as int, len as int) =~= spec_range_selection(
                    store@,
                    a as int,
                    b as int,
                ));
            }
            r
        } else {
            let r = store.select_window(a as usize, (b as usize) + 1);
            r
        }
    }
}

} // verus!
