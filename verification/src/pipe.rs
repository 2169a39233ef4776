//! The pipe orchestrator: a request line is split on `~>` into stages, each
//! stage's text gains the previous stage's result as a trailing argument,
//! and the first error aborts the whole pipe.

use vstd::prelude::*;
use crate::command::{parse_command, spec_parse_command};
use crate::engine::{execute, spec_output, spec_store_after};
use crate::store::{EntryView, Store};
use crate::text::{spec_split_pair, spec_trim, split_pair_str, trim_str};

verus! {

/// The stages of a request line: the parts between `~>` separators, each
/// with surrounding whitespace trimmed.
pub open spec fn spec_stages(line: Seq<char>) -> Seq<Seq<char>> {
    spec_split_pair(line, '~', '>').map_values(|s: Seq<char>| spec_trim(s))
}

/// The store after running the stages left to right with accumulator
/// `prev`: each stage parses `stage + " " + prev` and executes it; an error
/// stops the pipe with no later stage applied.
pub open spec fn spec_pipe_store(
    stages: Seq<Seq<char>>,
    s: Seq<EntryView>,
    prev: Seq<char>,
) -> Seq<EntryView>
    decreases stages.len(),
{
    if stages.len() == 0 {
        s
    } else {
        let cmd = spec_parse_command(stages[0] + seq![' '] + prev);
        let s1 = spec_store_after(cmd, s);
        match spec_output(cmd, s) {
            Ok(v) => spec_pipe_store(stages.drop_first(), s1, v),
            Err(_) => s1,
        }
    }
}

/// The result of running the stages left to right with accumulator `prev`:
/// the final accumulator, or the first stage error.
pub open spec fn spec_pipe_result(
    stages: Seq<Seq<char>>,
    s: Seq<EntryView>,
    prev: Seq<char>,
) -> Result<Seq<char>, Seq<char>>
    decreases stages.len(),
{
    if stages.len() == 0 {
        Ok(prev)
    } else {
        let cmd = spec_parse_command(stages[0] + seq![' '] + prev);
        match spec_output(cmd, s) {
            Ok(v) => spec_pipe_result(stages.drop_first(), spec_store_after(cmd, s), v),
            Err(e) => Err(e),
        }
    }
}

/// Run one request line against the store: split it into stages, thread
/// each stage's result into the next, and hand back the last result or the
/// first error.
pub fn run_pipe(line: &str, store: &mut Store) -> (r: Result<String, String>)
    requires
        old(store).wf(),
    ensures
        final(store).wf(),
        final(store)@ == spec_pipe_store(spec_stages(line@), old(store)@, Seq::empty()),
        match r {
            Ok(v) => spec_pipe_result(spec_stages(line@), old(store)@, Seq::empty())
                == Ok::<Seq<char>, Seq<char>>(v@),
            Err(e) => spec_pipe_result(spec_stages(line@), old(store)@, Seq::empty())
                == Err::<Seq<char>, Seq<char>>(e@),
        },
{
    let ghost stages = spec_stages(line@);
    let ghost s0 = store@;
    let ghost goal_store = spec_pipe_store(stages, s0, Seq::empty());
    let ghost goal_result = spec_pipe_result(stages, s0, Seq::empty());
    let raw_stages = split_pair_str(line, '~', '>');
    let n = raw_stages.len();
    proof {
        assert(raw_stages.deep_view().len() == stages.len());
        assert(stages.skip(0) =~= stages);
    }
    let mut prev = String::new();
    let mut i: usize = 0;
    while i < n
        invariant
            n == stages.len(),
            raw_stages.deep_view() == spec_split_pair(line@, '~', '>'),
            stages == spec_stages(line@),
            s0 == old(store)@,
            goal_store == spec_pipe_store(stages, s0, Seq::empty()),
            goal_result == spec_pipe_result(stages, s0, Seq::empty()),
            i <= n,
            store.wf(),
            spec_pipe_store(stages.skip(i as int), store@, prev@) == goal_store,
            spec_pipe_result(stages.skip(i as int), store@, prev@) == goal_result,
        decreases n - i,
    {
        let stage = trim_str(raw_stages[i].as_str());
        proof {
            assert(raw_stages.deep_view()[i as int] == raw_stages@[i as int]@);
            assert(stage@ == stages[i as int]);
        }
        let mut eff = String::new();
        eff.append(stage);
        eff.append(" ");
        eff.append(prev.as_str());
        proof {
            reveal_strlit(" ");
            assert(" "@ =~= seq![' ']);
            assert(eff@ =~= stages[i as int] + seq![' '] + prev@);
        }
        let cmd = parse_command(eff.as_str());
        let ghost gcmd = cmd@;
        let ghost st_before = store@;
        let res = execute(cmd, store);
        proof {
            let t = stages.skip(i as int);
            assert(t.len() > 0);
            assert(t[0] == stages[i as int]);
            assert(t.drop_first() =~= stages.skip(i as int + 1));
            assert(gcmd == spec_parse_command(t[0] + seq![' '] + prev@));
            assert(store@ == spec_store_after(gcmd, st_before));
        }
        match res {
            Ok(v) => {
                prev = v;
            },
            Err(e) => {
                proof {
                    let t = stages.skip(i as int);
                    assert(spec_output(gcmd, st_before) == Err::<Seq<char>, Seq<char>>(e@));
                    assert(spec_pipe_store(t, st_before, prev@) == spec_store_after(
                        gcmd,
                        st_before,
                    ));
                    assert(spec_pipe_result(t, st_before, prev@) == Err::<Seq<char>, Seq<char>>(
                        e@,
                    ));
                }
                return Err(e);
            },
        }
        i += 1;
    }
    proof {
        assert(stages.skip(n as int) =~= Seq::<Seq<char>>::empty());
    }
    Ok(prev)
}

} // verus!
