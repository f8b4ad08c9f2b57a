use vstd::prelude::*;
use crate::error::Error;
use crate::machine::instruction::{Instruction, Opcode, Position};
use crate::machine::program::{is_report, jumps_paired, Program};
use crate::text::{append_str, string_of};

verus! {

/// +1 for a `[`, -1 for a `]`, 0 for the rest.
pub open spec fn bracket_step(op: Opcode) -> int {
    match op {
        Opcode::LoopStart(_) => 1,
        Opcode::LoopEnd(_) => -1,
        _ => 0,
    }
}

/// How many loops are open after the first `k` instructions: `[` before
/// index `k` minus `]` before it.
pub open spec fn depth(s: Seq<Instruction>, k: int) -> int
    decreases k,
{
    if k <= 0 {
        0
    } else {
        depth(s, k - 1) + bracket_step(s[k - 1].opcode)
    }
}

/// Every `]` closes an earlier `[` and every `[` is closed.
pub open spec fn brackets_balanced(s: Seq<Instruction>) -> bool {
    &&& forall|k: int| 0 <= k <= s.len() ==> #[trigger] depth(s, k) >= 0
    &&& depth(s, s.len() as int) == 0
}

/// The `[` at `i` and the `]` at `j` enclose one loop: the depth goes back
/// to where it was before the `[` only after the `]`.
pub open spec fn loops_match(s: Seq<Instruction>, i: int, j: int) -> bool {
    &&& 0 <= i < j < s.len()
    &&& s[i].opcode is LoopStart
    &&& s[j].opcode is LoopEnd
    &&& depth(s, j + 1) == depth(s, i)
    &&& forall|k: int| i < k <= j ==> #[trigger] depth(s, k) > depth(s, i)
}

/// `r` is `s` with each `[` pointing at its `]` and each `]` at its `[`,
/// all else unchanged.
pub open spec fn loops_resolved(s: Seq<Instruction>, r: Seq<Instruction>) -> bool {
    &&& r.len() == s.len()
    &&& forall|k: int|
        0 <= k < s.len() ==> {
            &&& (#[trigger] r[k]).position == s[k].position
            &&& match s[k].opcode {
                Opcode::LoopStart(_) => r[k].opcode matches Opcode::LoopStart(j) && loops_match(
                    s,
                    k,
                    j as int,
                ),
                Opcode::LoopEnd(_) => r[k].opcode matches Opcode::LoopEnd(i) && loops_match(
                    s,
                    i as int,
                    k,
                ),
                _ => r[k] == s[k],
            }
        }
}

/// The `]` at `k` is the first that closes no `[`.
pub open spec fn first_unmatched_close(s: Seq<Instruction>, k: int) -> bool {
    &&& 0 <= k < s.len()
    &&& depth(s, k + 1) < 0
    &&& forall|m: int| 0 <= m <= k ==> #[trigger] depth(s, m) >= 0
}

/// The `[` at `i` is never closed.
pub open spec fn unclosed(s: Seq<Instruction>, i: int) -> bool {
    &&& 0 <= i < s.len()
    &&& s[i].opcode is LoopStart
    &&& forall|k: int| i < k <= s.len() ==> #[trigger] depth(s, k) > depth(s, i)
}

/// `idx` lists, in increasing order, exactly the `[` that are never closed.
pub open spec fn lists_unclosed(s: Seq<Instruction>, idx: Seq<int>) -> bool {
    &&& forall|a: int, b: int| 0 <= a < b < idx.len() ==> idx[a] < idx[b]
    &&& forall|t: int| 0 <= t < idx.len() ==> unclosed(s, #[trigger] idx[t])
    &&& forall|i: int| unclosed(s, i) ==> idx.contains(i)
}

/// The positions of the instructions at `idx`, last first.
pub open spec fn positions_last_first(s: Seq<Instruction>, idx: Seq<int>) -> Seq<Position> {
    Seq::new(idx.len(), |t: int| s[idx[idx.len() - 1 - t]].position)
}

/// `out` is one report for `text` at each of `positions`, in that order.
pub open spec fn reports(src: Seq<char>, text: Seq<char>, positions: Seq<Position>, out: Seq<char>) -> bool
    decreases positions.len(),
{
    if positions.len() == 0 {
        out == Seq::<char>::empty()
    } else {
        exists|a: Seq<char>, b: Seq<char>|
            #![trigger a + b]
            out == a + b && reports(src, text, positions.drop_last(), a) && is_report(
                src,
                text,
                positions.last(),
                b,
            )
    }
}

/// What loop resolution reports for an unbalanced stream `s` of source
/// `src`: a report at the first `]` that closes nothing, or, where there is
/// none, one report for each `[` that is never closed, the last first.
pub open spec fn loop_error(src: Seq<char>, s: Seq<Instruction>, msg: Seq<char>) -> bool {
    if exists|k: int| first_unmatched_close(s, k) {
        forall|k: int|
            first_unmatched_close(s, k) ==> is_report(
                src,
                "Unmatched ']' found"@,
                #[trigger] s[k].position,
                msg,
            )
    } else {
        exists|idx: Seq<int>|
            lists_unclosed(s, idx) && reports(
                src,
                "Unmatched '[' found"@,
                positions_last_first(s, idx),
                msg,
            )
    }
}

} // verus!

verus! {

/// After resolution has passed index `k`: a `]` there points at its `[`, a
/// `[` there points at its `]` unless it is still open (on `open`), and
/// anything else is unchanged.
spec fn settled(s: Seq<Instruction>, r: Seq<Instruction>, open: Seq<usize>, k: int) -> bool {
    match s[k].opcode {
        Opcode::LoopStart(_) => open.contains(k as usize) || (r[k].opcode matches Opcode::LoopStart(
            j,
        ) && loops_match(s, k, j as int)),
        Opcode::LoopEnd(_) => r[k].opcode matches Opcode::LoopEnd(i) && loops_match(
            s,
            i as int,
            k,
        ),
        _ => r[k] == s[k],
    }
}

/// Appends the characters of `s`.
fn append_string(v: &mut Vec<char>, s: &String)
    ensures
        final(v)@ == old(v)@ + s@,
{
    append_str(v, s.as_str());
}

impl Program {
    /// Points each `[` at its `]` and back, or reports the brackets that do
    /// not pair up, as `loops_resolved` and `loop_error` say.
    #[verifier::loop_isolation(false)]
    pub(crate) fn resolve_loops(instructions: Vec<Instruction>, source: &[char]) -> (r: Result<
        Vec<Instruction>,
        Error,
    >)
        requires
            forall|k: int|
                0 <= k < instructions@.len() ==> (#[trigger] instructions@[k]).position.column
                    >= 1,
        ensures
            r is Ok <==> brackets_balanced(instructions@),
            r matches Ok(out) ==> loops_resolved(instructions@, out@),
            r matches Err(e) ==> e matches Error::Program(m) && loop_error(
                source@,
                instructions@,
                m@,
            ),
    {
        let ghost s = instructions@;
        let mut instructions = instructions;
        let mut stack: Vec<usize> = Vec::new();
        let mut i: usize = 0;
        while i < instructions.len()
            invariant
                i <= s.len(),
                s.len() == instructions@.len(),
                forall|k: int| 0 <= k < s.len() ==> (#[trigger] s[k]).position.column >= 1,
                stack@.len() == depth(s, i as int),
                forall|m: int| 0 <= m <= i ==> #[trigger] depth(s, m) >= 0,
                forall|t: int|
                    0 <= t < stack@.len() ==> {
                        &&& (#[trigger] stack@[t]) < i
                        &&& s[stack@[t] as int].opcode is LoopStart
                        &&& depth(s, stack@[t] as int) == t
                        &&& forall|k: int| stack@[t] < k <= i ==> #[trigger] depth(s, k) > t
                    },
                forall|a: int, b: int| 0 <= a < b < stack@.len() ==> stack@[a] < stack@[b],
                forall|k: int|
                    0 <= k < s.len() ==> (#[trigger] instructions@[k]).position == s[k].position,
                forall|k: int| i <= k < s.len() ==> #[trigger] instructions@[k] == s[k],
                forall|k: int| 0 <= k < i ==> settled(s, instructions@, stack@, k),
            decreases s.len() - i,
        {
            let ghost r0 = instructions@;
            let ghost st0 = stack@;
            assert(depth(s, i + 1) == depth(s, i as int) + bracket_step(s[i as int].opcode));
            match instructions[i].opcode {
                Opcode::LoopStart(_) => {
                    stack.push(i);
                    assert forall|k: int| 0 <= k < i + 1 implies settled(
                        s,
                        instructions@,
                        stack@,
                        k,
                    ) by {
                        if k < i {
                            assert(settled(s, r0, st0, k));
                            if st0.contains(k as usize) {
                                let t = choose|t: int| 0 <= t < st0.len() && st0[t] == k as usize;
                                assert(stack@[t] == k as usize);
                            }
                        } else {
                            assert(stack@[stack@.len() - 1] == i);
                        }
                    }
                },
                Opcode::LoopEnd(_) => {
                    if let Some(start_index) = stack.pop() {
                        let ghost t = st0.len() - 1;
                        assert(st0[t] == start_index);
                        assert(loops_match(s, start_index as int, i as int));
                        let start_position = instructions[start_index].position;
                        instructions.set(
                            start_index,
                            Instruction { opcode: Opcode::LoopStart(i), position: start_position },
                        );
                        let end_position = instructions[i].position;
                        instructions.set(
                            i,
                            Instruction { opcode: Opcode::LoopEnd(start_index), position: end_position },
                        );
                        assert forall|k: int| 0 <= k < i + 1 implies settled(
                            s,
                            instructions@,
                            stack@,
                            k,
                        ) by {
                            if k < i && k != start_index {
                                assert(settled(s, r0, st0, k));
                                assert(instructions@[k] == r0[k]);
                                if st0.contains(k as usize) {
                                    let u = choose|u: int| 0 <= u < st0.len() && st0[u] == k as usize;
                                    assert(u != t);
                                    assert(stack@[u] == k as usize);
                                }
                            }
                        }
                        assert forall|u: int| 0 <= u < stack@.len() implies {
                            &&& (#[trigger] stack@[u]) < i + 1
                            &&& s[stack@[u] as int].opcode is LoopStart
                            &&& depth(s, stack@[u] as int) == u
                            &&& forall|k: int| stack@[u] < k <= i + 1 ==> #[trigger] depth(s, k) > u
                        } by {
                            assert(stack@[u] == st0[u]);
                            assert(st0[u] < st0[t]);
                        }
                    } else {
                        assert(first_unmatched_close(s, i as int));
                        assert forall|k: int| first_unmatched_close(s, k) implies k == i by {
                            if k < i {
                                assert(depth(s, k + 1) >= 0);
                            } else if k > i {
                                assert(depth(s, i + 1) >= 0);
                            }
                        }
                        let message = Self::make_error_message(
                            source,
                            "Unmatched ']' found",
                            instructions[i].position,
                        );
                        assert(depth(s, i + 1) < 0);
                        assert(!brackets_balanced(s));
                        assert(s[i as int].position == instructions@[i as int].position);
                        assert(loop_error(source@, s, message@));
                        return Err(Error::Program(message));
                    }
                },
                _ => {
                    assert forall|k: int| 0 <= k < i + 1 implies settled(
                        s,
                        instructions@,
                        stack@,
                        k,
                    ) by {
                        if k < i {
                            assert(settled(s, r0, st0, k));
                        }
                    }
                },
            }
            i += 1;
        }
        let ghost idx = Seq::new(stack@.len(), |t: int| stack@[t] as int);
        assert forall|k: int| unclosed(s, k) implies idx.contains(k) by {
            assert(settled(s, instructions@, stack@, k));
            if !stack@.contains(k as usize) {
                let j = choose|j: usize| instructions@[k].opcode == Opcode::LoopStart(j) && loops_match(s, k, j as int);
                assert(depth(s, j + 1) > depth(s, k));
            } else {
                let t = choose|t: int| 0 <= t < stack@.len() && stack@[t] == k as usize;
                assert(idx[t] == k);
            }
        }
        if stack.len() > 0 {
            assert(lists_unclosed(s, idx));
            assert(!exists|k: int| first_unmatched_close(s, k));
            let mut total: Vec<char> = Vec::new();
            let mut j = stack.len();
            assert(positions_last_first(s, idx).take(0) =~= Seq::<Position>::empty());
            while j > 0
                invariant
                    j <= stack@.len() == idx.len(),
                    forall|t: int| 0 <= t < idx.len() ==> (#[trigger] idx[t]) == stack@[t] as int,
                    forall|t: int| 0 <= t < idx.len() ==> 0 <= #[trigger] idx[t] < s.len(),
                    forall|k: int| 0 <= k < s.len() ==> (#[trigger] s[k]).position.column >= 1,
                    forall|k: int|
                        0 <= k < s.len() ==> (#[trigger] instructions@[k]).position
                            == s[k].position,
                    s.len() == instructions@.len(),
                    reports(
                        source@,
                        "Unmatched '[' found"@,
                        positions_last_first(s, idx).take(idx.len() - j),
                        total@,
                    ),
                decreases j,
            {
                j -= 1;
                let index = stack[j];
                let message = Self::make_error_message(
                    source,
                    "Unmatched '[' found",
                    instructions[index].position,
                );
                let ghost before = total@;
                let ghost ps = positions_last_first(s, idx).take(idx.len() - j);
                assert(ps.drop_last() =~= positions_last_first(s, idx).take(idx.len() - j - 1));
                assert(ps.last() == s[idx[j as int]].position);
                append_string(&mut total, &message);
                assert(total@ == before + message@);
            }
            assert(positions_last_first(s, idx).take(idx.len() as int) =~= positions_last_first(s, idx));
            return Err(Error::Program(string_of(total.as_slice())));
        }
        assert forall|k: int| 0 <= k < s.len() implies {
            &&& (#[trigger] instructions@[k]).position == s[k].position
            &&& match s[k].opcode {
                Opcode::LoopStart(_) => instructions@[k].opcode matches Opcode::LoopStart(j) && loops_match(s, k, j as int),
                Opcode::LoopEnd(_) => instructions@[k].opcode matches Opcode::LoopEnd(i) && loops_match(s, i as int, k),
                _ => instructions@[k] == s[k],
            }
        } by {
            assert(settled(s, instructions@, stack@, k));
        }
        Ok(instructions)
    }
}

} // verus!

verus! {

/// A `]` closes one `[` at most.
pub proof fn lemma_match_unique_start(s: Seq<Instruction>, i: int, i2: int, j: int)
    requires
        loops_match(s, i, j),
        loops_match(s, i2, j),
    ensures
        i == i2,
{
    if i < i2 {
        assert(depth(s, i2) > depth(s, i));
    } else if i2 < i {
        assert(depth(s, i) > depth(s, i2));
    }
}

/// A `[` is closed by one `]` at most.
pub proof fn lemma_match_unique_end(s: Seq<Instruction>, i: int, j: int, j2: int)
    requires
        loops_match(s, i, j),
        loops_match(s, i, j2),
    ensures
        j == j2,
{
    if j < j2 {
        assert(depth(s, j + 1) > depth(s, i));
    } else if j2 < j {
        assert(depth(s, j2 + 1) > depth(s, i));
    }
}

/// After resolution the two ends of each loop point at each other.
pub proof fn lemma_resolved_paired(s: Seq<Instruction>, r: Seq<Instruction>)
    requires
        loops_resolved(s, r),
    ensures
        jumps_paired(r),
{
    assert forall|k: int| 0 <= k < r.len() implies match (#[trigger] r[k]).opcode {
        Opcode::LoopStart(j) => j < r.len() && r[j as int].opcode == Opcode::LoopEnd(k as usize),
        Opcode::LoopEnd(j) => j < r.len() && r[j as int].opcode == Opcode::LoopStart(k as usize),
        _ => true,
    } by {
        match s[k].opcode {
            Opcode::LoopStart(_) => {
                let j = choose|j: usize| r[k].opcode == Opcode::LoopStart(j) && loops_match(s, k, j as int);
                assert(r[j as int] == r[j as int]);
                let i = choose|i: usize| r[j as int].opcode == Opcode::LoopEnd(i) && loops_match(s, i as int, j as int);
                lemma_match_unique_start(s, k, i as int, j as int);
            },
            Opcode::LoopEnd(_) => {
                let i = choose|i: usize| r[k].opcode == Opcode::LoopEnd(i) && loops_match(s, i as int, k);
                assert(r[i as int] == r[i as int]);
                let j = choose|j: usize| r[i as int].opcode == Opcode::LoopStart(j) && loops_match(s, i as int, j as int);
                lemma_match_unique_end(s, i as int, k, j as int);
            },
            _ => {},
        }
    }
}

} // verus!
