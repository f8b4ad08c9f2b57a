use vstd::prelude::*;
use crate::machine::instruction::{Instruction, Opcode, Position};
use crate::machine::loops::loops_resolved;
use crate::machine::passes::{merge_runs, pass_rule, rewrite, same_run, Pass};
use crate::machine::program::{decode, optimized_code, parse_code, parse_from};
use crate::text::{find_from, lemma_find_from, lines, lines_from, without_cr};

verus! {

/// How many `'\n'` stand in `s[a..b]`.
pub open spec fn newlines_between(s: Seq<char>, a: int, b: int) -> nat
    decreases b - a,
{
    if b <= a {
        0
    } else {
        newlines_between(s, a, b - 1) + if s[b - 1] == '\n' { 1nat } else { 0nat }
    }
}

/// Where the line holding index `k` starts: just after the last `'\n'` before `k`.
pub open spec fn line_start(s: Seq<char>, k: int) -> int
    decreases k,
{
    if k <= 0 {
        0
    } else if s[k - 1] == '\n' {
        k
    } else {
        line_start(s, k - 1)
    }
}

/// The line and column of index `k`, both from 1.
pub open spec fn position_of(s: Seq<char>, k: int) -> Position {
    Position {
        line: (1 + newlines_between(s, 0, k)) as usize,
        column: (k - line_start(s, k) + 1) as usize,
    }
}

/// The character that `pos` names in `src`, if the position lies in it.
pub open spec fn char_at(src: Seq<char>, pos: Position) -> Option<char> {
    let ls = lines(src);
    if 1 <= pos.line <= ls.len() && 1 <= pos.column <= ls[pos.line - 1].len() {
        Some(ls[pos.line - 1][pos.column - 1])
    } else {
        None
    }
}

/// The source character an instruction comes from: its own command, or the
/// `[` of the loop that it replaces.
pub open spec fn opcode_char(op: Opcode) -> char {
    match op {
        Opcode::Forward(_) => '>',
        Opcode::Reverse(_) => '<',
        Opcode::AddValue(_) => '+',
        Opcode::SubValue(_) => '-',
        Opcode::Output => '.',
        Opcode::Input => ',',
        Opcode::LoopEnd(_) => ']',
        _ => '[',
    }
}

/// Every instruction of `s` stands, in `src`, on the character it comes from.
pub open spec fn stands_on_source(s: Seq<Instruction>, src: Seq<char>) -> bool {
    forall|t: int|
        0 <= t < s.len() ==> char_at(src, (#[trigger] s[t]).position) == Some(
            opcode_char(s[t].opcode),
        )
}

proof fn lemma_newlines_split(s: Seq<char>, a: int, m: int, b: int)
    requires
        a <= m <= b,
    ensures
        newlines_between(s, a, b) == newlines_between(s, a, m) + newlines_between(s, m, b),
    decreases b - m,
{
    if m < b {
        lemma_newlines_split(s, a, m, b - 1);
    }
}

proof fn lemma_no_newlines(s: Seq<char>, a: int, b: int)
    requires
        0 <= a <= b <= s.len(),
        forall|k: int| a <= k < b ==> s[k] != '\n',
    ensures
        newlines_between(s, a, b) == 0,
    decreases b - a,
{
    if a < b {
        lemma_no_newlines(s, a, b - 1);
    }
}

proof fn lemma_line_start_in_line(s: Seq<char>, j: int, k: int)
    requires
        0 <= j <= k <= s.len(),
        j == 0 || s[j - 1] == '\n',
        forall|m: int| j <= m < k ==> s[m] != '\n',
    ensures
        line_start(s, k) == j,
    decreases k,
{
    if k > j {
        lemma_line_start_in_line(s, j, k - 1);
    }
}

/// The line that starts at `a`, as `lines` gives it.
pub open spec fn line_at(s: Seq<char>, a: int) -> Seq<char> {
    let e = find_from(s, '\n', a);
    if e < s.len() {
        without_cr(s.subrange(a, e))
    } else {
        s.subrange(a, e)
    }
}

proof fn lemma_line_of(s: Seq<char>, j: int, k: int)
    requires
        0 <= j <= k < s.len(),
        j == 0 || s[j - 1] == '\n',
        s[k] != '\n',
    ensures
        newlines_between(s, j, k) < lines_from(s, j).len(),
        lines_from(s, j)[newlines_between(s, j, k) as int] == line_at(s, line_start(s, k)),
        j <= line_start(s, k) <= k < find_from(s, '\n', line_start(s, k)),
    decreases s.len() - j,
{
    lemma_find_from(s, '\n', j);
    let e = find_from(s, '\n', j);
    if k < e {
        lemma_no_newlines(s, j, k);
        lemma_line_start_in_line(s, j, k);
    } else {
        assert(k != e);
        assert(e < s.len());
        lemma_newlines_split(s, j, e, k);
        lemma_no_newlines(s, j, e);
        lemma_newlines_split(s, e, e + 1, k);
        assert(s[e] == '\n');
        assert(newlines_between(s, e, e) == 0);
        assert(newlines_between(s, e, e + 1) == 1);
        lemma_line_of(s, e + 1, k);
        let c = newlines_between(s, j, k);
        assert(lines_from(s, j) == seq![without_cr(s.subrange(j, e))] + lines_from(s, e + 1));
        assert(lines_from(s, j)[c as int] == lines_from(s, e + 1)[c - 1]);
    }
}

/// The character at index `k` is what its position names, unless it is a
/// line break or a carriage return.
pub proof fn lemma_char_at_position(s: Seq<char>, k: int)
    requires
        0 <= k < s.len() <= usize::MAX,
        s[k] != '\n',
        s[k] != '\r',
    ensures
        char_at(s, position_of(s, k)) == Some(s[k]),
{
    lemma_line_of(s, 0, k);
    let a = line_start(s, k);
    let e = find_from(s, '\n', a);
    lemma_find_from(s, '\n', a);
    let c = newlines_between(s, 0, k);
    assert(c <= k) by {
        lemma_newlines_bound(s, 0, k);
    }
    let line = line_at(s, a);
    if e < s.len() {
        if s.subrange(a, e).len() > 0 && s.subrange(a, e).last() == '\r' {
            assert(s[e - 1] == '\r');
            assert(k < e - 1);
        }
    }
    assert(line[k - a] == s[k]);
}

proof fn lemma_newlines_bound(s: Seq<char>, a: int, b: int)
    requires
        a <= b,
    ensures
        newlines_between(s, a, b) <= b - a,
    decreases b - a,
{
    if a < b {
        lemma_newlines_bound(s, a, b - 1);
    }
}

} // verus!

verus! {

proof fn lemma_parse_from_stands(code: Seq<char>, i: int, line: nat, column: nat)
    requires
        0 <= i <= code.len() <= usize::MAX,
        line == 1 + newlines_between(code, 0, i),
        column == i - line_start(code, i) + 1,
    ensures
        stands_on_source(parse_from(code, i, line, column), code),
    decreases code.len() - i,
{
    if i < code.len() {
        let rest_line: nat = if code[i] == '\n' { line + 1 } else { line };
        let rest_column: nat = if code[i] == '\n' { 1 } else { column + 1 };
        assert(newlines_between(code, 0, i + 1) == newlines_between(code, 0, i) + if code[i] == '\n' { 1nat } else { 0nat });
        assert(line_start(code, i + 1) == if code[i] == '\n' { i + 1 } else { line_start(code, i) });
        lemma_parse_from_stands(code, i + 1, rest_line, rest_column);
        if code[i] != '\n' {
            match decode(code[i]) {
                Some(op) => {
                    let all = parse_from(code, i, line, column);
                    let rest = parse_from(code, i + 1, line, column + 1);
                    lemma_char_at_position(code, i);
                    assert(all[0].position == position_of(code, i));
                    assert forall|t: int| 0 <= t < all.len() implies char_at(code, (#[trigger] all[t]).position) == Some(
                        opcode_char(all[t].opcode),
                    ) by {
                        if t > 0 {
                            assert(all[t] == rest[t - 1]);
                        }
                    }
                },
                None => {},
            }
        }
    }
}

/// Every parsed instruction stands on its command character in the source.
pub proof fn law_parse_positions(code: Seq<char>)
    requires
        code.len() <= usize::MAX,
    ensures
        stands_on_source(parse_code(code), code),
{
    lemma_parse_from_stands(code, 0, 1, 1);
}

} // verus!

verus! {

proof fn lemma_merge_runs_stands(s: Seq<Instruction>, src: Seq<char>)
    requires
        stands_on_source(s, src),
    ensures
        stands_on_source(merge_runs(s), src),
    decreases s.len(),
{
    if s.len() > 0 {
        let front = s.drop_last();
        assert forall|t: int| 0 <= t < front.len() implies char_at(src, (#[trigger] front[t]).position)
            == Some(opcode_char(front[t].opcode)) by {
            assert(front[t] == s[t]);
        }
        lemma_merge_runs_stands(front, src);
        let out = merge_runs(front);
        assert(s.last() == s[s.len() - 1]);
        let m = merge_runs(s);
        if out.len() > 0 && same_run(out.last().opcode, s.last().opcode) {
            assert(out.last() == out[out.len() - 1]);
        }
        assert forall|t: int| 0 <= t < m.len() implies char_at(src, (#[trigger] m[t]).position)
            == Some(opcode_char(m[t].opcode)) by {
            if t < out.len() - 1 {
                assert(m[t] == out[t]);
            } else if out.len() > 0 && same_run(out.last().opcode, s.last().opcode) {
                assert(t == out.len() - 1);
                assert(m[t].position == out[t].position);
                assert(opcode_char(m[t].opcode) == opcode_char(out[t].opcode));
            } else if t < out.len() {
                assert(m[t] == out[t]);
            }
        }
    }
}

proof fn lemma_rewrite_stands(pass: Pass, s: Seq<Instruction>, src: Seq<char>)
    requires
        stands_on_source(s, src),
    ensures
        stands_on_source(rewrite(pass, s), src),
    decreases s.len(),
{
    if s.len() > 0 {
        assert(s[0] == s[0]);
        let width: int = match pass_rule(pass, s) {
            Some((op, w)) => if 0 < w <= s.len() { w as int } else { 1 },
            None => 1,
        };
        let rest = s.skip(width);
        assert forall|t: int| 0 <= t < rest.len() implies char_at(src, (#[trigger] rest[t]).position)
            == Some(opcode_char(rest[t].opcode)) by {
            assert(rest[t] == s[t + width]);
        }
        lemma_rewrite_stands(pass, rest, src);
        let r = rewrite(pass, s);
        assert forall|t: int| 0 <= t < r.len() implies char_at(src, (#[trigger] r[t]).position)
            == Some(opcode_char(r[t].opcode)) by {
            if t > 0 {
                assert(r[t] == rewrite(pass, rest)[t - 1]);
            }
        }
    }
}

proof fn lemma_resolved_stands(s: Seq<Instruction>, r: Seq<Instruction>, src: Seq<char>)
    requires
        stands_on_source(s, src),
        loops_resolved(s, r),
    ensures
        stands_on_source(r, src),
{
    assert forall|t: int| 0 <= t < r.len() implies char_at(src, (#[trigger] r[t]).position)
        == Some(opcode_char(r[t].opcode)) by {
        assert(s[t] == s[t]);
    }
}

/// Every instruction that the optimiser hands to loop resolution stands on
/// the source character it comes from: its command, or the `[` of the loop
/// it replaces.
pub proof fn lemma_optimized_stands(code: Seq<char>)
    requires
        code.len() <= usize::MAX,
    ensures
        stands_on_source(optimized_code(code), code),
{
    let s0 = parse_code(code);
    law_parse_positions(code);
    lemma_merge_runs_stands(s0, code);
    let s1 = merge_runs(s0);
    lemma_rewrite_stands(Pass::Clears, s1, code);
    let s2 = rewrite(Pass::Clears, s1);
    lemma_rewrite_stands(Pass::MoveRight, s2, code);
    let s3 = rewrite(Pass::MoveRight, s2);
    lemma_rewrite_stands(Pass::FastZeroRight, s3, code);
    let s4 = rewrite(Pass::FastZeroRight, s3);
    lemma_rewrite_stands(Pass::FastZeroLeft, s4, code);
}

/// Every instruction of a program built from `code`, after all the
/// rewrites and loop resolution, stands on the source character it comes
/// from: its command, or the `[` of the loop it replaces.
pub proof fn law_program_positions(code: Seq<char>, r: Seq<Instruction>)
    requires
        code.len() <= usize::MAX,
        loops_resolved(optimized_code(code), r),
    ensures
        stands_on_source(r, code),
{
    lemma_optimized_stands(code);
    lemma_resolved_stands(optimized_code(code), r, code);
}

} // verus!
