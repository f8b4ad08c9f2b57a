use vstd::prelude::*;
use crate::machine::instruction::{Instruction, Opcode};
use crate::machine::program::Program;

verus! {

// ---------------------------------------------------------------------------
// Merging runs of moves and of additions.
// ---------------------------------------------------------------------------

/// The opcodes that `optimize` merges when they come in a row.
pub open spec fn is_run_opcode(op: Opcode) -> bool {
    ||| op is Forward
    ||| op is Reverse
    ||| op is AddValue
    ||| op is SubValue
}

/// Two opcodes of the same mergeable kind.
pub open spec fn same_run(a: Opcode, b: Opcode) -> bool {
    ||| (a is Forward && b is Forward)
    ||| (a is Reverse && b is Reverse)
    ||| (a is AddValue && b is AddValue)
    ||| (a is SubValue && b is SubValue)
}

/// One opcode for two of the same kind in a row: moves add up, cell
/// additions add up modulo 256.
pub open spec fn combined(a: Opcode, b: Opcode) -> Opcode {
    match (a, b) {
        (Opcode::Forward(x), Opcode::Forward(y)) => Opcode::Forward((x + y) as usize),
        (Opcode::Reverse(x), Opcode::Reverse(y)) => Opcode::Reverse((x + y) as usize),
        (Opcode::AddValue(x), Opcode::AddValue(y)) => Opcode::AddValue(
            vstd::wrapping::u8_specs::wrapping_add(x, y),
        ),
        (Opcode::SubValue(x), Opcode::SubValue(y)) => Opcode::SubValue(
            vstd::wrapping::u8_specs::wrapping_add(x, y),
        ),
        _ => a,
    }
}

/// Appends `x` to merged output: it joins the last instruction when both are
/// of the same mergeable kind (keeping the position of the first), else it
/// comes after it.
pub open spec fn merge_step(out: Seq<Instruction>, x: Instruction) -> Seq<Instruction> {
    if out.len() > 0 && same_run(out.last().opcode, x.opcode) {
        out.drop_last().push(
            Instruction {
                opcode: combined(out.last().opcode, x.opcode),
                position: out.last().position,
            },
        )
    } else {
        out.push(x)
    }
}

/// `s` with each maximal run of moves in one direction, and of additions or
/// subtractions, merged into one instruction.
pub open spec fn merge_runs(s: Seq<Instruction>) -> Seq<Instruction>
    decreases s.len(),
{
    if s.len() == 0 {
        seq![]
    } else {
        merge_step(merge_runs(s.drop_last()), s.last())
    }
}

/// Every move in `s` is by one cell, as the parser makes them.
pub open spec fn single_moves(s: Seq<Instruction>) -> bool {
    forall|k: int|
        0 <= k < s.len() ==> match #[trigger] s[k].opcode {
            Opcode::Forward(n) => n == 1,
            Opcode::Reverse(n) => n == 1,
            _ => true,
        }
}

/// The output so far with the instruction still being accumulated, if any.
pub open spec fn with_pending(out: Seq<Instruction>, acc: Option<Instruction>) -> Seq<Instruction> {
    match acc {
        Some(a) => out.push(a),
        None => out,
    }
}

/// The size of a move, or 0 for other opcodes.
pub open spec fn move_size(op: Opcode) -> int {
    match op {
        Opcode::Forward(n) => n as int,
        Opcode::Reverse(n) => n as int,
        _ => 0,
    }
}

/// The total move of the run of same-kind instructions that `s` ends with
/// (0 for an empty `s` or one that ends with no move).
pub open spec fn trailing_run_move(s: Seq<Instruction>) -> int
    decreases s.len(),
{
    if s.len() == 0 {
        0
    } else if s.len() >= 2 && same_run(s[s.len() - 2].opcode, s.last().opcode) {
        trailing_run_move(s.drop_last()) + move_size(s.last().opcode)
    } else {
        move_size(s.last().opcode)
    }
}

/// Every run of moves in one direction in `s` adds up to at most
/// `usize::MAX` cells, so that its merged count fits in a word.
pub open spec fn runs_fit(s: Seq<Instruction>) -> bool {
    forall|k: int| 0 <= k <= s.len() ==> #[trigger] trailing_run_move(s.take(k)) <= usize::MAX
}

/// Moves of one cell each fit in a word as long as there are fewer than
/// `usize::MAX` of them.
pub proof fn lemma_single_moves_fit(s: Seq<Instruction>)
    requires
        single_moves(s),
        s.len() <= usize::MAX,
    ensures
        runs_fit(s),
{
    assert forall|k: int| 0 <= k <= s.len() implies #[trigger] trailing_run_move(s.take(k)) <= usize::MAX by {
        lemma_trailing_run_bound(s, k);
    }
}

proof fn lemma_trailing_run_bound(s: Seq<Instruction>, k: int)
    requires
        single_moves(s),
        0 <= k <= s.len(),
    ensures
        0 <= trailing_run_move(s.take(k)) <= k,
    decreases k,
{
    if k > 0 {
        let t = s.take(k);
        assert(t.drop_last() =~= s.take(k - 1));
        assert(t.last() == s[k - 1]);
        assert(match s[k - 1].opcode {
            Opcode::Forward(n) => n == 1,
            Opcode::Reverse(n) => n == 1,
            _ => true,
        });
        lemma_trailing_run_bound(s, k - 1);
    }
}

impl Program {
    /// Merges runs of instructions, as `merge_runs` says.
    pub(crate) fn optimize(instructions: &Vec<Instruction>) -> (out: Vec<Instruction>)
        requires
            runs_fit(instructions@),
        ensures
            out@ == merge_runs(instructions@),
    {
        let ghost s = instructions@;
        let mut optimized: Vec<Instruction> = Vec::new();
        let mut accumulator: Option<Instruction> = None;
        let mut i: usize = 0;
        while i < instructions.len()
            invariant
                i <= s.len(),
                s == instructions@,
                runs_fit(s),
                with_pending(optimized@, accumulator) == merge_runs(s.take(i as int)),
                accumulator matches Some(a) ==> i > 0 && is_run_opcode(a.opcode) && same_run(
                    a.opcode,
                    s[i - 1].opcode,
                ) && move_size(a.opcode) == trailing_run_move(s.take(i as int)),
                accumulator is None ==> i == 0 || !is_run_opcode(s[i - 1].opcode),
                accumulator is None ==> optimized@.len() == 0 || !is_run_opcode(
                    optimized@.last().opcode,
                ),
            decreases s.len() - i,
        {
            let instruction = instructions[i];
            assert(s.take(i + 1).drop_last() =~= s.take(i as int));
            let ghost next = s.take(i + 1);
            assert(next.last() == s[i as int]);
            assert(i > 0 ==> next[i - 1] == s[i - 1]);
            assert(trailing_run_move(next) <= usize::MAX);
            match (instruction.opcode, accumulator) {
                (
                    Opcode::Forward(n),
                    Some(Instruction { opcode: Opcode::Forward(acc_n), position }),
                ) => {
                    accumulator = Some(
                        Instruction { opcode: Opcode::Forward(acc_n + n), position: position },
                    );
                },
                (
                    Opcode::Reverse(n),
                    Some(Instruction { opcode: Opcode::Reverse(acc_n), position }),
                ) => {
                    accumulator = Some(
                        Instruction { opcode: Opcode::Reverse(acc_n + n), position: position },
                    );
                },
                (
                    Opcode::AddValue(n),
                    Some(Instruction { opcode: Opcode::AddValue(acc_n), position }),
                ) => {
                    accumulator = Some(
                        Instruction {
                            opcode: Opcode::AddValue(acc_n.wrapping_add(n)),
                            position: position,
                        },
                    );
                },
                (
                    Opcode::SubValue(n),
                    Some(Instruction { opcode: Opcode::SubValue(acc_n), position }),
                ) => {
                    accumulator = Some(
                        Instruction {
                            opcode: Opcode::SubValue(acc_n.wrapping_add(n)),
                            position: position,
                        },
                    );
                },
                (Opcode::Forward(_), _)
                | (Opcode::Reverse(_), _)
                | (Opcode::AddValue(_), _)
                | (Opcode::SubValue(_), _) => {
                    if let Some(prev) = accumulator {
                        optimized.push(prev);
                    }
                    accumulator = Some(instruction);
                },
                _ => {
                    if let Some(prev) = accumulator {
                        optimized.push(prev);
                    }
                    accumulator = None;
                    optimized.push(instruction);
                },
            }
            i += 1;
        }
        if let Some(prev) = accumulator {
            optimized.push(prev);
        }
        assert(s.take(s.len() as int) =~= s);
        optimized
    }
}

} // verus!

verus! {

// ---------------------------------------------------------------------------
// Rewriting loops of known shape into single instructions.
// ---------------------------------------------------------------------------

/// The loop rewrites, each tried on a window at the front of the stream.
pub enum Pass {
    /// `[-]` or `[+]`, with any amount, becomes `ClearCell`.
    Clears,
    /// `[->+<]` or `[>+<-]`, with matching moves, becomes `MoveRight`.
    MoveRight,
    /// `[-<+>]` or `[<+>-]`, with matching moves, becomes `MoveLeft`.
    MoveLeft,
    /// `[>]` becomes `FastZeroRight`.
    FastZeroRight,
    /// `[<]` becomes `FastZeroLeft`.
    FastZeroLeft,
}

/// A clearing loop at the front of `w`: the opcode that replaces it and
/// how many instructions it spans.
pub open spec fn clear_rule(w: Seq<Instruction>) -> Option<(Opcode, nat)> {
    if w.len() >= 3 && w[0].opcode is LoopStart && (w[1].opcode is AddValue
        || w[1].opcode is SubValue) && w[2].opcode is LoopEnd {
        Some((Opcode::ClearCell, 3))
    } else {
        None
    }
}

/// A loop that moves the current cell, times a factor, to a cell to the
/// right: `[`, `-1`, `>r`, `+n`, `<r`, `]` or `[`, `>r`, `+n`, `<r`, `-1`, `]`.
/// It is only looked for where at least six instructions are left.
pub open spec fn move_right_rule(w: Seq<Instruction>) -> Option<(Opcode, nat)> {
    if w.len() >= 6 && w[0].opcode is LoopStart && w[5].opcode is LoopEnd {
        match (w[1].opcode, w[2].opcode, w[3].opcode, w[4].opcode) {
            (Opcode::SubValue(d), Opcode::Forward(r), Opcode::AddValue(n), Opcode::Reverse(l)) => {
                if d == 1 && l == r {
                    Some((Opcode::MoveRight { right: r, factor: n }, 6))
                } else {
                    None
                }
            },
            (Opcode::Forward(r), Opcode::AddValue(n), Opcode::Reverse(l), Opcode::SubValue(d)) => {
                if d == 1 && l == r {
                    Some((Opcode::MoveRight { right: r, factor: n }, 6))
                } else {
                    None
                }
            },
            _ => None,
        }
    } else {
        None
    }
}

/// The mirror image of `move_right_rule`: `[`, `-1`, `<l`, `+n`, `>l`, `]` or
/// `[`, `<l`, `+n`, `>l`, `-1`, `]`.
pub open spec fn move_left_rule(w: Seq<Instruction>) -> Option<(Opcode, nat)> {
    if w.len() >= 6 && w[0].opcode is LoopStart && w[5].opcode is LoopEnd {
        match (w[1].opcode, w[2].opcode, w[3].opcode, w[4].opcode) {
            (Opcode::SubValue(d), Opcode::Reverse(l), Opcode::AddValue(n), Opcode::Forward(r)) => {
                if d == 1 && l == r {
                    Some((Opcode::MoveLeft { left: l, factor: n }, 6))
                } else {
                    None
                }
            },
            (Opcode::Reverse(l), Opcode::AddValue(n), Opcode::Forward(r), Opcode::SubValue(d)) => {
                if d == 1 && l == r {
                    Some((Opcode::MoveLeft { left: l, factor: n }, 6))
                } else {
                    None
                }
            },
            _ => None,
        }
    } else {
        None
    }
}

/// A loop `[>n]` at the front of `w`; it is only looked for where at least
/// four instructions are left.
pub open spec fn zero_right_rule(w: Seq<Instruction>) -> Option<(Opcode, nat)> {
    if w.len() >= 4 && w[0].opcode is LoopStart && w[2].opcode is LoopEnd {
        match w[1].opcode {
            Opcode::Forward(n) => Some((Opcode::FastZeroRight(n), 3)),
            _ => None,
        }
    } else {
        None
    }
}

/// A loop `[<n]` at the front of `w`; it is only looked for where at least
/// four instructions are left.
pub open spec fn zero_left_rule(w: Seq<Instruction>) -> Option<(Opcode, nat)> {
    if w.len() >= 4 && w[0].opcode is LoopStart && w[2].opcode is LoopEnd {
        match w[1].opcode {
            Opcode::Reverse(n) => Some((Opcode::FastZeroLeft(n), 3)),
            _ => None,
        }
    } else {
        None
    }
}

pub open spec fn pass_rule(pass: Pass, w: Seq<Instruction>) -> Option<(Opcode, nat)> {
    match pass {
        Pass::Clears => clear_rule(w),
        Pass::MoveRight => move_right_rule(w),
        Pass::MoveLeft => move_left_rule(w),
        Pass::FastZeroRight => zero_right_rule(w),
        Pass::FastZeroLeft => zero_left_rule(w),
    }
}

/// `s` rewritten from left to right: where the pass's window matches at the
/// front, the window becomes one instruction at the position of its `[`, and
/// the rewrite goes on after the window; elsewhere the first instruction is
/// kept and the rewrite goes on after it.
pub open spec fn rewrite(pass: Pass, s: Seq<Instruction>) -> Seq<Instruction>
    decreases s.len(),
{
    if s.len() == 0 {
        seq![]
    } else {
        match pass_rule(pass, s) {
            Some((op, width)) => {
                if 0 < width <= s.len() {
                    seq![Instruction { opcode: op, position: s[0].position }] + rewrite(
                        pass,
                        s.skip(width as int),
                    )
                } else {
                    seq![s[0]] + rewrite(pass, s.skip(1))
                }
            },
            None => seq![s[0]] + rewrite(pass, s.skip(1)),
        }
    }
}

impl Program {
    fn clear_at(s: &Vec<Instruction>, i: usize) -> (r: Option<(Opcode, usize)>)
        requires
            i < s@.len(),
        ensures
            r matches Some((op, w)) ==> clear_rule(s@.skip(i as int)) == Some((op, w as nat)),
            r is None ==> clear_rule(s@.skip(i as int)) is None,
    {
        if s.len() - i > 2 {
            let is_clear = matches!(s[i].opcode, Opcode::LoopStart(_))
                && matches!(s[i + 1].opcode, Opcode::AddValue(_) | Opcode::SubValue(_))
                && matches!(s[i + 2].opcode, Opcode::LoopEnd(_));
            if is_clear {
                return Some((Opcode::ClearCell, 3));
            }
        }
        None
    }

    fn move_right_at(s: &Vec<Instruction>, i: usize) -> (r: Option<(Opcode, usize)>)
        requires
            i < s@.len(),
        ensures
            r matches Some((op, w)) ==> move_right_rule(s@.skip(i as int)) == Some(
                (op, w as nat),
            ),
            r is None ==> move_right_rule(s@.skip(i as int)) is None,
    {
        if s.len() - i > 5 && matches!(s[i].opcode, Opcode::LoopStart(_)) && matches!(s[i + 5].opcode, Opcode::LoopEnd(_)) {
            match (s[i + 1].opcode, s[i + 2].opcode, s[i + 3].opcode, s[i + 4].opcode) {
                (
                    Opcode::SubValue(d),
                    Opcode::Forward(r),
                    Opcode::AddValue(n),
                    Opcode::Reverse(l),
                ) => {
                    if d == 1 && l == r {
                        return Some((Opcode::MoveRight { right: r, factor: n }, 6));
                    }
                },
                (
                    Opcode::Forward(r),
                    Opcode::AddValue(n),
                    Opcode::Reverse(l),
                    Opcode::SubValue(d),
                ) => {
                    if d == 1 && l == r {
                        return Some((Opcode::MoveRight { right: r, factor: n }, 6));
                    }
                },
                _ => {},
            }
        }
        None
    }

    fn move_left_at(s: &Vec<Instruction>, i: usize) -> (r: Option<(Opcode, usize)>)
        requires
            i < s@.len(),
        ensures
            r matches Some((op, w)) ==> move_left_rule(s@.skip(i as int)) == Some(
                (op, w as nat),
            ),
            r is None ==> move_left_rule(s@.skip(i as int)) is None,
    {
        if s.len() - i > 5 && matches!(s[i].opcode, Opcode::LoopStart(_)) && matches!(s[i + 5].opcode, Opcode::LoopEnd(_)) {
            match (s[i + 1].opcode, s[i + 2].opcode, s[i + 3].opcode, s[i + 4].opcode) {
                (
                    Opcode::SubValue(d),
                    Opcode::Reverse(l),
                    Opcode::AddValue(n),
                    Opcode::Forward(r),
                ) => {
                    if d == 1 && l == r {
                        return Some((Opcode::MoveLeft { left: l, factor: n }, 6));
                    }
                },
                (
                    Opcode::Reverse(l),
                    Opcode::AddValue(n),
                    Opcode::Forward(r),
                    Opcode::SubValue(d),
                ) => {
                    if d == 1 && l == r {
                        return Some((Opcode::MoveLeft { left: l, factor: n }, 6));
                    }
                },
                _ => {},
            }
        }
        None
    }

    fn zero_right_at(s: &Vec<Instruction>, i: usize) -> (r: Option<(Opcode, usize)>)
        requires
            i < s@.len(),
        ensures
            r matches Some((op, w)) ==> zero_right_rule(s@.skip(i as int)) == Some(
                (op, w as nat),
            ),
            r is None ==> zero_right_rule(s@.skip(i as int)) is None,
    {
        if s.len() - i > 3 && matches!(s[i].opcode, Opcode::LoopStart(_)) && matches!(s[i + 2].opcode, Opcode::LoopEnd(_)) {
            if let Opcode::Forward(n) = s[i + 1].opcode {
                return Some((Opcode::FastZeroRight(n), 3));
            }
        }
        None
    }

    fn zero_left_at(s: &Vec<Instruction>, i: usize) -> (r: Option<(Opcode, usize)>)
        requires
            i < s@.len(),
        ensures
            r matches Some((op, w)) ==> zero_left_rule(s@.skip(i as int)) == Some(
                (op, w as nat),
            ),
            r is None ==> zero_left_rule(s@.skip(i as int)) is None,
    {
        if s.len() - i > 3 && matches!(s[i].opcode, Opcode::LoopStart(_)) && matches!(s[i + 2].opcode, Opcode::LoopEnd(_)) {
            if let Opcode::Reverse(n) = s[i + 1].opcode {
                return Some((Opcode::FastZeroLeft(n), 3));
            }
        }
        None
    }

    /// Applies one pass over the whole stream, as `rewrite` says.
    fn rewrite_with(pass: Pass, instructions: &Vec<Instruction>) -> (out: Vec<Instruction>)
        ensures
            out@ == rewrite(pass, instructions@),
    {
        let ghost s = instructions@;
        let mut optimized: Vec<Instruction> = Vec::new();
        let mut i: usize = 0;
        assert(s.skip(0) =~= s);
        while i < instructions.len()
            invariant
                i <= s.len(),
                s == instructions@,
                optimized@ + rewrite(pass, s.skip(i as int)) == rewrite(pass, s),
            decreases s.len() - i,
        {
            let found = match pass {
                Pass::Clears => Self::clear_at(instructions, i),
                Pass::MoveRight => Self::move_right_at(instructions, i),
                Pass::MoveLeft => Self::move_left_at(instructions, i),
                Pass::FastZeroRight => Self::zero_right_at(instructions, i),
                Pass::FastZeroLeft => Self::zero_left_at(instructions, i),
            };
            let ghost w = s.skip(i as int);
            if let Some((opcode, width)) = found {
                let ins = Instruction { opcode, position: instructions[i].position };
                assert(w.skip(width as int) =~= s.skip(i + width));
                assert(optimized@.push(ins) + rewrite(pass, s.skip(i + width)) =~= optimized@ + (
                seq![ins] + rewrite(pass, w.skip(width as int))));
                optimized.push(ins);
                i += width;
            } else {
                assert(w.skip(1) =~= s.skip(i + 1));
                assert(optimized@.push(s[i as int]) + rewrite(pass, s.skip(i + 1)) =~= optimized@
                    + (seq![s[i as int]] + rewrite(pass, w.skip(1))));
                optimized.push(instructions[i]);
                i += 1;
            }
        }
        assert(optimized@ + rewrite(pass, s.skip(i as int)) =~= optimized@);
        optimized
    }

    /// Replaces clearing loops, as `rewrite(Pass::Clears, ..)` says.
    pub(crate) fn resolve_clears(instructions: &Vec<Instruction>) -> (out: Vec<Instruction>)
        ensures
            out@ == rewrite(Pass::Clears, instructions@),
    {
        Self::rewrite_with(Pass::Clears, instructions)
    }

    /// Replaces right-moving loops, as `rewrite(Pass::MoveRight, ..)` says.
    pub(crate) fn resolve_move_right(instructions: &Vec<Instruction>) -> (out: Vec<Instruction>)
        ensures
            out@ == rewrite(Pass::MoveRight, instructions@),
    {
        Self::rewrite_with(Pass::MoveRight, instructions)
    }

    /// Replaces left-moving loops, as `rewrite(Pass::MoveLeft, ..)` says.
    pub(crate) fn resolve_move_left(instructions: &Vec<Instruction>) -> (out: Vec<Instruction>)
        ensures
            out@ == rewrite(Pass::MoveLeft, instructions@),
    {
        Self::rewrite_with(Pass::MoveLeft, instructions)
    }

    /// Replaces `[>n]` loops, as `rewrite(Pass::FastZeroRight, ..)` says.
    pub(crate) fn resolve_fz_right(instructions: &Vec<Instruction>) -> (out: Vec<Instruction>)
        ensures
            out@ == rewrite(Pass::FastZeroRight, instructions@),
    {
        Self::rewrite_with(Pass::FastZeroRight, instructions)
    }

    /// Replaces `[<n]` loops, as `rewrite(Pass::FastZeroLeft, ..)` says.
    pub(crate) fn resolve_fz_left(instructions: &Vec<Instruction>) -> (out: Vec<Instruction>)
        ensures
            out@ == rewrite(Pass::FastZeroLeft, instructions@),
    {
        Self::rewrite_with(Pass::FastZeroLeft, instructions)
    }
}

} // verus!

