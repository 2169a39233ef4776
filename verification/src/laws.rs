//! The library's laws: properties that relate several operations, stated
//! over the same spec functions the executable contracts use, and proved
//! once and for all.

use vstd::prelude::*;
use crate::command::{CommandView, ExprView, spec_is_range_str, spec_parse_command, spec_parse_expr};
use crate::engine::{
    spec_count_selection, spec_not_found_msg, spec_output, spec_range_selection_delete,
    spec_render_pair, spec_render_pairs, spec_render_pairs_inner, spec_store_after,
};
use crate::pipe::{spec_pipe_result, spec_pipe_store, spec_stages};
use crate::wire::{spec_parse_items, spec_parse_pair, spec_parse_tuple};
use crate::store::{
    EntryView, spec_excise, spec_find_key, spec_has_key, spec_keys_unique, spec_upsert,
    lemma_find_key_at, lemma_find_key_sound,
};
use crate::text::{
    spec_all_digits, spec_dec_int, spec_dec_nat, spec_int_body, spec_is_digit, spec_is_i32_str,
    spec_is_int_str, spec_is_space, spec_split_pair, spec_trim, spec_trim_end, spec_trim_start,
    spec_tokenize, lemma_dec_int_shape, lemma_find_char_at, lemma_split_none, lemma_split_some,
    lemma_tokenize_snoc_space, lemma_tokenize_trim,
};

verus! {

/// Writing a value under a key makes that key's first index point at the
/// written pair.
proof fn lemma_upsert_find(s: Seq<EntryView>, k: Seq<char>, v: Seq<char>)
    requires
        spec_keys_unique(s),
    ensures
        ({
            let s1 = spec_upsert(s, k, v);
            &&& spec_find_key(s1, k) is Some
            &&& 0 <= spec_find_key(s1, k).unwrap() < s1.len()
            &&& s1[spec_find_key(s1, k).unwrap()] == (k, v)
        }),
{
    lemma_find_key_sound(s, k);
    match spec_find_key(s, k) {
        Some(i) => {
            let s1 = s.update(i, (k, v));
            assert forall|j: int| 0 <= j < i implies (#[trigger] s1[j]).0 != k by {
                assert(s1[j] == s[j]);
            }
            lemma_find_key_at(s1, k, i);
        },
        None => {
            let s1 = s.push((k, v));
            assert forall|j: int| 0 <= j < s.len() implies (#[trigger] s1[j]).0 != k by {
                assert(s1[j] == s[j]);
            }
            lemma_find_key_at(s1, k, s.len() as int);
        },
    }
}

/// Writing the same value under the same key twice leaves the store exactly
/// as one write leaves it, and answers the same line both times.
pub proof fn lemma_set_idempotent(id: Seq<char>, data: Seq<char>, s: Seq<EntryView>)
    requires
        spec_keys_unique(s),
    ensures
        ({
            let c = CommandView::Put { id, data };
            let s1 = spec_store_after(c, s);
            &&& spec_store_after(c, s1) == s1
            &&& spec_output(c, s1) == spec_output(c, s)
        }),
{
    lemma_upsert_find(s, id, data);
    let s1 = spec_upsert(s, id, data);
    assert(spec_upsert(s1, id, data) =~= s1);
}

/// After a write succeeds, reading the same key yields the written value.
pub proof fn lemma_set_then_get(id: Seq<char>, data: Seq<char>, s: Seq<EntryView>)
    requires
        spec_keys_unique(s),
    ensures
        spec_output(
            CommandView::Get { id },
            spec_store_after(CommandView::Put { id, data }, s),
        ) == Ok::<Seq<char>, Seq<char>>(data),
{
    lemma_upsert_find(s, id, data);
}

/// Counting with the `-1` sentinel answers the store's current size; on an
/// empty store that is `0`.
pub proof fn lemma_count_all(s: Seq<EntryView>)
    ensures
        spec_output(CommandView::Count { expr: ExprView::Number(-1) }, s) == Ok::<
            Seq<char>,
            Seq<char>,
        >(spec_dec_nat(s.len())),
        s.len() == 0 ==> spec_dec_nat(s.len()) == seq!['0'],
{
    assert(spec_count_selection(s, -1) =~= s);
}

/// Reading an absent key answers the not-found error naming the key, and
/// leaves the store unchanged.
pub proof fn lemma_get_missing(id: Seq<char>, s: Seq<EntryView>)
    requires
        !spec_has_key(s, id),
    ensures
        spec_output(CommandView::Get { id }, s) == Err::<Seq<char>, Seq<char>>(
            spec_not_found_msg(id),
        ),
        spec_store_after(CommandView::Get { id }, s) == s,
{
}

/// Deleting the same range twice: when the first deletion's window reaches
/// the end of the store (it always does with a negative end), the second
/// deletion selects nothing, answers the empty list, and leaves the store
/// unchanged.
pub proof fn lemma_delete_range_twice(a: int, b: int, s: Seq<EntryView>)
    requires
        spec_keys_unique(s),
        a < 0 || a + (if b < 0 {
            s.len() as int - 1
        } else {
            b
        }) + 1 >= s.len(),
    ensures
        ({
            let c = CommandView::Delete { expr: ExprView::Range(a, b) };
            let s1 = spec_store_after(c, s);
            &&& spec_output(c, s1) == Ok::<Seq<char>, Seq<char>>(
                spec_render_pairs(Seq::empty()),
            )
            &&& spec_store_after(c, s1) == s1
        }),
{
    let c = CommandView::Delete { expr: ExprView::Range(a, b) };
    let s1 = spec_store_after(c, s);
    if a < 0 {
        assert(s1 == s);
        assert(spec_range_selection_delete(s, a, b) =~= Seq::<EntryView>::empty());
    } else {
        let e = if b < 0 {
            s.len() as int - 1
        } else {
            b
        };
        assert(s1 =~= spec_excise(s, a, e + 1));
        assert(s1.len() <= a);
        assert(spec_range_selection_delete(s1, a, b) =~= Seq::<EntryView>::empty());
        assert(spec_store_after(c, s1) =~= s1);
    }
    assert(spec_render_pairs(spec_range_selection_delete(s1, a, b)) == spec_render_pairs(
        Seq::empty(),
    ));
}

/// Parsing the decimal rendering of any in-range integer yields `Number`
/// of that integer.
pub proof fn lemma_parse_number(n: int)
    requires
        -0x8000_0000 <= n <= 0x7fff_ffff,
    ensures
        spec_parse_expr(spec_dec_int(n)) == ExprView::Number(n),
{
    lemma_dec_int_shape(n);
}

/// Parsing `a..b` built from the renderings of two in-range integers
/// yields `Range(a, b)`.
pub proof fn lemma_parse_range(a: int, b: int)
    requires
        -0x8000_0000 <= a <= 0x7fff_ffff,
        -0x8000_0000 <= b <= 0x7fff_ffff,
    ensures
        spec_parse_expr(spec_dec_int(a) + seq!['.', '.'] + spec_dec_int(b))
            == ExprView::Range(a, b),
{
    let sa = spec_dec_int(a);
    let sb = spec_dec_int(b);
    let t = sa + seq!['.', '.'] + sb;
    lemma_dec_int_shape(a);
    lemma_dec_int_shape(b);
    assert(forall|j: int| 0 <= j < sa.len() ==> t[j] == sa[j]);
    assert(t[sa.len() as int] == '.');
    assert(t[sa.len() as int + 1] == '.');
    assert(forall|j: int| 0 <= j < sb.len() ==> t[sa.len() + 2 + j] == sb[j]);
    // the token is not itself an integer: its digit body holds a dot
    let body = spec_int_body(t);
    if t[0] == '-' || t[0] == '+' {
        assert(t[0] == sa[0] && sa[0] == '-');
        assert(sa.len() >= 2);
        assert(body[sa.len() as int - 1] == '.');
        assert(!spec_all_digits(body)) by {
            if spec_all_digits(body) {
                assert(spec_is_digit(body[sa.len() as int - 1]));
            }
        }
    } else {
        assert(body[sa.len() as int] == '.');
        assert(!spec_all_digits(body)) by {
            if spec_all_digits(body) {
                assert(spec_is_digit(body[sa.len() as int]));
            }
        }
    }
    assert(!spec_is_int_str(t));
    // splitting on the dots yields exactly the two renderings
    assert(forall|j: int|
        0 <= j < sa.len() ==> !(#[trigger] t[j] == '.' && t[j + 1] == '.')) by {
        assert(forall|j: int|
            0 <= j < sa.len() ==> spec_is_digit(#[trigger] sa[j]) || (j == 0 && sa[j] == '-'));
    }
    lemma_split_some(t, '.', '.', sa.len() as int);
    assert(t.take(sa.len() as int) =~= sa);
    assert(t.skip(sa.len() as int + 2) =~= sb);
    assert(forall|j: int|
        0 <= j && j + 1 < sb.len() ==> !(#[trigger] sb[j] == '.' && sb[j + 1] == '.')) by {
        assert(forall|j: int|
            0 <= j < sb.len() ==> spec_is_digit(#[trigger] sb[j]) || (j == 0 && sb[j] == '-'));
    }
    lemma_split_none(sb, '.', '.');
    let parts = spec_split_pair(t, '.', '.');
    assert(parts =~= seq![sa, sb]);
    assert(spec_is_range_str(t));
}

/// A token that is neither an in-range integer nor a range of two is taken
/// verbatim as a key.
pub proof fn lemma_parse_id(s: Seq<char>)
    requires
        !spec_is_i32_str(s),
        !spec_is_range_str(s),
    ensures
        spec_parse_expr(s) == ExprView::ID(s),
{
}

/// A request line with no pipe separator is a pipe of one stage: it answers
/// and mutates exactly as the single parsed command does, trailing
/// accumulator space and all.
pub proof fn lemma_single_stage(line: Seq<char>, s: Seq<EntryView>)
    requires
        forall|j: int|
            0 <= j && j + 1 < line.len() ==> !(#[trigger] line[j] == '~' && line[j + 1] == '>'),
    ensures
        spec_pipe_result(spec_stages(line), s, Seq::empty()) == spec_output(
            spec_parse_command(line),
            s,
        ),
        spec_pipe_store(spec_stages(line), s, Seq::empty()) == spec_store_after(
            spec_parse_command(line),
            s,
        ),
{
    lemma_split_none(line, '~', '>');
    let stages = spec_stages(line);
    assert(stages =~= seq![spec_trim(line)]);
    let eff = spec_trim(line) + seq![' '] + Seq::<char>::empty();
    assert(eff =~= spec_trim(line).push(' '));
    lemma_tokenize_snoc_space(spec_trim(line), ' ');
    lemma_tokenize_trim(line);
    assert(spec_tokenize(eff) == spec_tokenize(line));
    assert(spec_parse_command(eff) == spec_parse_command(line));
    assert(stages[0] == spec_trim(line));
    assert(stages.drop_first() =~= Seq::<Seq<char>>::empty());
    let cmd = spec_parse_command(stages[0] + seq![' '] + Seq::<char>::empty());
    assert(cmd == spec_parse_command(line));
    match spec_output(cmd, s) {
        Ok(v) => {
            assert(spec_pipe_result(stages.drop_first(), spec_store_after(cmd, s), v) == Ok::<
                Seq<char>,
                Seq<char>,
            >(v));
            assert(spec_pipe_store(stages.drop_first(), spec_store_after(cmd, s), v)
                == spec_store_after(cmd, s));
            assert(spec_pipe_result(stages, s, Seq::empty()) == Ok::<Seq<char>, Seq<char>>(v));
        },
        Err(e) => {
            assert(spec_pipe_result(stages, s, Seq::empty()) == Err::<Seq<char>, Seq<char>>(e));
        },
    }
}

/// The empty selection renders as the empty bracketed list.
pub proof fn lemma_render_empty()
    ensures
        spec_render_pairs(Seq::<EntryView>::empty()) == seq!['[', ']'],
{
    assert(spec_render_pairs(Seq::<EntryView>::empty()) =~= seq!['[', ']']);
}

/// Neither the key nor the value holds a quote, so the pair's rendering can
/// be read back unambiguously.
pub open spec fn spec_pair_quote_free(e: EntryView) -> bool {
    (forall|j: int| 0 <= j < e.0.len() ==> e.0[j] != '"') && (forall|j: int|
        0 <= j < e.1.len() ==> e.1[j] != '"')
}

/// Every pair of the selection is quote-free.
pub open spec fn spec_items_quote_free(items: Seq<EntryView>) -> bool {
    forall|i: int| 0 <= i < items.len() ==> spec_pair_quote_free(#[trigger] items[i])
}

/// Reading one rendered pair off the front of a text yields the pair and
/// hands the rest on.
proof fn lemma_parse_pair_render(e: EntryView, rest: Seq<char>)
    requires
        spec_pair_quote_free(e),
    ensures
        spec_parse_pair(spec_render_pair(e) + rest) == Some((e, rest)),
{
    let k = e.0;
    let v = e.1;
    let kl = k.len() as int;
    let vl = v.len() as int;
    let t = spec_render_pair(e) + rest;
    let s2 = t.skip(2);
    assert(t[0] == '(');
    assert(t[1] == '"');
    assert(s2 =~= k + (seq!['"'] + (seq![',', ' ', '"'] + v + (seq!['"'] + (seq![')']
        + rest)))));
    assert(forall|j: int| 0 <= j < kl ==> s2[j] == k[j]);
    assert(s2[kl] == '"');
    lemma_find_char_at(s2, '"', kl);
    assert(s2.take(kl) =~= k);
    let u = s2.skip(kl + 1);
    assert(u =~= seq![',', ' ', '"'] + v + (seq!['"'] + (seq![')'] + rest)));
    assert(u[0] == ',' && u[1] == ' ' && u[2] == '"');
    let u3 = u.skip(3);
    assert(u3 =~= v + (seq!['"'] + (seq![')'] + rest)));
    assert(forall|j: int| 0 <= j < vl ==> u3[j] == v[j]);
    assert(u3[vl] == '"');
    lemma_find_char_at(u3, '"', vl);
    assert(u3.take(vl) =~= v);
    let w = u3.skip(vl + 1);
    assert(w =~= seq![')'] + rest);
    assert(w[0] == ')');
    assert(w.skip(1) =~= rest);
}

/// A rendered non-empty list body followed by its closing bracket parses
/// back to exactly its items.
proof fn lemma_parse_items_render(items: Seq<EntryView>)
    requires
        items.len() >= 1,
        spec_items_quote_free(items),
    ensures
        spec_parse_items(spec_render_pairs_inner(items) + seq![']']) == Some(items),
    decreases items.len(),
{
    let e = items[0];
    let t = spec_render_pairs_inner(items) + seq![']'];
    if items.len() == 1 {
        lemma_parse_pair_render(e, seq![']']);
        assert(spec_render_pairs_inner(items) == spec_render_pair(e));
        assert(spec_parse_pair(t) == Some((e, seq![']'])));
        assert(spec_parse_items(t) == Some(seq![e]));
        assert(seq![e] =~= items);
    } else {
        let tail = items.drop_first();
        assert(spec_items_quote_free(tail)) by {
            assert(forall|i: int| 0 <= i < tail.len() ==> tail[i] == items[i + 1]);
        }
        lemma_parse_items_render(tail);
        let rest = seq![',', ' '] + (spec_render_pairs_inner(tail) + seq![']']);
        lemma_parse_pair_render(e, rest);
        assert(t =~= spec_render_pair(e) + rest);
        assert(spec_parse_pair(t) == Some((e, rest)));
        assert(rest[0] == ',' && rest[1] == ' ');
        assert(rest.skip(2) =~= spec_render_pairs_inner(tail) + seq![']']);
        assert(rest.len() >= 2);
        assert(!(rest.len() == 1 && rest[0] == ']'));
        assert(rest.skip(2).len() < t.len());
        assert(spec_parse_items(rest.skip(2)) == Some(tail));
        assert(spec_parse_items(t) == Some(seq![e] + tail));
        assert(seq![e] + tail =~= items);
    }
}

/// The round trip between the engine and the wire: what the engine renders
/// as a bracketed list, the wire parser reads back, as long as no key or
/// value holds a quote.
pub proof fn lemma_render_parse_roundtrip(items: Seq<EntryView>)
    requires
        spec_items_quote_free(items),
    ensures
        spec_parse_tuple(spec_render_pairs(items)) == Some(items),
{
    let s = spec_render_pairs(items);
    assert(s[0] == '[');
    assert(s.last() == ']');
    assert(!spec_is_space('['));
    assert(!spec_is_space(']'));
    assert(spec_trim(s) == s) by {
        assert(spec_trim_start(s) == s);
        assert(spec_trim_end(s) == s);
    }
    if items.len() == 0 {
        assert(s =~= seq!['[', ']']);
    } else {
        lemma_parse_items_render(items);
        assert(s.skip(1) =~= spec_render_pairs_inner(items) + seq![']']);
        assert(spec_render_pair(items[0]).len() >= 8);
        assert(spec_render_pairs_inner(items).len() >= 8);
        assert(s.len() > 2);
    }
}

} // verus!

