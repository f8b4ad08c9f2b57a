use vstd::prelude::*;
use crate::machine::instruction::Instruction;
use crate::machine::loops::{bracket_step, brackets_balanced, depth};
use crate::machine::passes::{combined, merge_runs, pass_rule, rewrite, same_run, Pass};
use crate::machine::program::{optimized_code, parse_code};

verus! {

/// Starting from `base` open loops, the count never goes below 0 in `s`.
pub open spec fn stays_open(s: Seq<Instruction>, base: int) -> bool {
    forall|k: int| 0 <= k <= s.len() ==> base + #[trigger] depth(s, k) >= 0
}

/// The change in open loops over all of `s`.
pub open spec fn net_depth(s: Seq<Instruction>) -> int {
    depth(s, s.len() as int)
}

proof fn lemma_depth_push(s: Seq<Instruction>, x: Instruction, k: int)
    requires
        0 <= k <= s.len(),
    ensures
        depth(s.push(x), k) == depth(s, k),
    decreases k,
{
    if k > 0 {
        lemma_depth_push(s, x, k - 1);
        assert(s.push(x)[k - 1] == s[k - 1]);
    }
}

proof fn lemma_depth_cons(a: Instruction, t: Seq<Instruction>, k: int)
    requires
        0 <= k <= t.len(),
    ensures
        depth(seq![a] + t, k + 1) == bracket_step(a.opcode) + depth(t, k),
    decreases k,
{
    let s = seq![a] + t;
    assert(depth(s, k + 1) == depth(s, k) + bracket_step(s[k].opcode));
    if k > 0 {
        lemma_depth_cons(a, t, k - 1);
        assert(s[k] == t[k - 1]);
        assert(depth(t, k) == depth(t, k - 1) + bracket_step(t[k - 1].opcode));
    } else {
        assert(s[0] == a);
        assert(depth(s, 0) == 0);
    }
}

/// Appending one instruction: the count stays non-negative exactly where it
/// did before and the new total is not negative.
proof fn lemma_stays_open_push(s: Seq<Instruction>, x: Instruction, base: int)
    ensures
        stays_open(s.push(x), base) <==> (stays_open(s, base) && base + net_depth(s) + bracket_step(x.opcode) >= 0),
        net_depth(s.push(x)) == net_depth(s) + bracket_step(x.opcode),
{
    assert forall|k: int| 0 <= k <= s.len() implies #[trigger] depth(s.push(x), k) == depth(s, k) by {
        lemma_depth_push(s, x, k);
    }
    assert(s.push(x)[s.len() as int] == x);
    assert(depth(s.push(x), s.len() as int) == depth(s, s.len() as int));
    assert(depth(s.push(x), (s.len() + 1) as int) == depth(s.push(x), s.len() as int) + bracket_step(s.push(x)[s.len() as int].opcode));
    assert(depth(s.push(x), (s.len() + 1) as int) == depth(s, s.len() as int) + bracket_step(x.opcode));
    if stays_open(s.push(x), base) {
        assert forall|k: int| 0 <= k <= s.len() implies base + #[trigger] depth(s, k) >= 0 by {
            assert(base + depth(s.push(x), k) >= 0);
        }
        assert(base + depth(s.push(x), (s.len() + 1) as int) >= 0);
    }
    if stays_open(s, base) && base + net_depth(s) + bracket_step(x.opcode) >= 0 {
        assert forall|k: int| 0 <= k <= s.push(x).len() implies base + #[trigger] depth(s.push(x), k) >= 0 by {
            if k <= s.len() {
                assert(base + depth(s, k) >= 0);
            }
        }
    }
}

/// Prepending one instruction.
proof fn lemma_stays_open_cons(a: Instruction, t: Seq<Instruction>, base: int)
    ensures
        stays_open(seq![a] + t, base) <==> (base >= 0 && stays_open(t, base + bracket_step(a.opcode))),
        net_depth(seq![a] + t) == bracket_step(a.opcode) + net_depth(t),
{
    let s = seq![a] + t;
    assert forall|k: int| 0 <= k <= t.len() implies #[trigger] depth(s, k + 1) == bracket_step(a.opcode) + depth(t, k) by {
        lemma_depth_cons(a, t, k);
    }
    assert(depth(s, 0) == 0);
    assert(net_depth(s) == depth(s, (t.len() + 1) as int));
    if stays_open(s, base) {
        assert(base + depth(s, 0) >= 0);
        assert forall|k: int| 0 <= k <= t.len() implies base + bracket_step(a.opcode) + #[trigger] depth(t, k) >= 0 by {
            assert(base + depth(s, k + 1) >= 0);
        }
    }
    if base >= 0 && stays_open(t, base + bracket_step(a.opcode)) {
        assert forall|k: int| 0 <= k <= s.len() implies base + #[trigger] depth(s, k) >= 0 by {
            if k > 0 {
                assert(depth(s, (k - 1) + 1) == bracket_step(a.opcode) + depth(t, k - 1));
                assert(base + bracket_step(a.opcode) + depth(t, k - 1) >= 0);
            }
        }
    }
}

/// Merging runs leaves the bracket profile as it is.
proof fn lemma_merge_runs_brackets(s: Seq<Instruction>)
    ensures
        net_depth(merge_runs(s)) == net_depth(s),
        forall|base: int| stays_open(merge_runs(s), base) <==> stays_open(s, base),
    decreases s.len(),
{
    if s.len() > 0 {
        let front = s.drop_last();
        let x = s.last();
        assert(front.push(x) =~= s);
        lemma_merge_runs_brackets(front);
        let out = merge_runs(front);
        assert forall|base: int| stays_open(s, base) <==> (stays_open(front, base) && base + net_depth(front) + bracket_step(x.opcode) >= 0) by {
            lemma_stays_open_push(front, x, base);
        }
        lemma_stays_open_push(front, x, 0);
        if out.len() > 0 && same_run(out.last().opcode, x.opcode) {
            let body = out.drop_last();
            let y = Instruction { opcode: combined(out.last().opcode, x.opcode), position: out.last().position };
            assert(body.push(out.last()) =~= out);
            assert(bracket_step(out.last().opcode) == 0);
            assert(bracket_step(y.opcode) == 0);
            assert(bracket_step(x.opcode) == 0);
            lemma_stays_open_push(body, out.last(), 0);
            lemma_stays_open_push(body, y, 0);
            assert forall|base: int| stays_open(merge_runs(s), base) <==> stays_open(s, base) by {
                lemma_stays_open_push(body, out.last(), base);
                lemma_stays_open_push(body, y, base);
                if stays_open(body, base) {
                    assert(base + depth(body, body.len() as int) >= 0);
                }
            }
        } else {
            lemma_stays_open_push(out, x, 0);
            assert forall|base: int| stays_open(merge_runs(s), base) <==> stays_open(s, base) by {
                lemma_stays_open_push(out, x, base);
            }
        }
    }
}

} // verus!

verus! {

proof fn lemma_unfold(s: Seq<Instruction>, i: int, base: int)
    requires
        0 <= i < s.len(),
    ensures
        stays_open(s.skip(i), base) <==> (base >= 0 && stays_open(
            s.skip(i + 1),
            base + bracket_step(s[i].opcode),
        )),
        net_depth(s.skip(i)) == bracket_step(s[i].opcode) + net_depth(s.skip(i + 1)),
{
    assert(s.skip(i) =~= seq![s[i]] + s.skip(i + 1));
    lemma_stays_open_cons(s[i], s.skip(i + 1), base);
}

/// From inside a loop window whose brackets sit at 0 and `w - 1`.
proof fn lemma_window_tail(s: Seq<Instruction>, i: int, w: int, c: int)
    requires
        1 <= i < w <= s.len(),
        s[w - 1].opcode is LoopEnd,
        forall|m: int| 1 <= m < w - 1 ==> bracket_step((#[trigger] s[m]).opcode) == 0,
    ensures
        stays_open(s.skip(i), c) <==> (c >= 0 && stays_open(s.skip(w), c - 1)),
        net_depth(s.skip(i)) == net_depth(s.skip(w)) - 1,
    decreases w - i,
{
    lemma_unfold(s, i, c);
    if i < w - 1 {
        assert(bracket_step(s[i].opcode) == 0);
        lemma_window_tail(s, i + 1, w, c);
    }
}

proof fn lemma_rule_window(pass: Pass, s: Seq<Instruction>)
    requires
        pass_rule(pass, s) is Some,
    ensures
        ({
            let (op, w) = pass_rule(pass, s).unwrap();
            &&& 3 <= w <= s.len()
            &&& s[0].opcode is LoopStart
            &&& s[w - 1].opcode is LoopEnd
            &&& forall|m: int| 1 <= m < w - 1 ==> bracket_step((#[trigger] s[m]).opcode) == 0
            &&& bracket_step(op) == 0
        }),
{
}

/// The loop rewrites leave the bracket profile as it is.
proof fn lemma_rewrite_brackets(pass: Pass, s: Seq<Instruction>)
    ensures
        net_depth(rewrite(pass, s)) == net_depth(s),
        forall|base: int| stays_open(rewrite(pass, s), base) <==> stays_open(s, base),
    decreases s.len(),
{
    if s.len() > 0 {
        let r = rewrite(pass, s);
        match pass_rule(pass, s) {
            Some((op, w)) => {
                lemma_rule_window(pass, s);
                let rest = s.skip(w as int);
                lemma_rewrite_brackets(pass, rest);
                let x = Instruction { opcode: op, position: s[0].position };
                assert(r == seq![x] + rewrite(pass, rest));
                lemma_stays_open_cons(x, rewrite(pass, rest), 0);
                lemma_unfold(s, 0, 0);
                lemma_window_tail(s, 1, w as int, 1);
                assert(s.skip(0) =~= s);
                assert forall|base: int| stays_open(r, base) <==> stays_open(s, base) by {
                    lemma_stays_open_cons(x, rewrite(pass, rest), base);
                    lemma_unfold(s, 0, base);
                    lemma_window_tail(s, 1, w as int, base + 1);
                }
            },
            None => {
                let rest = s.skip(1);
                lemma_rewrite_brackets(pass, rest);
                assert(r == seq![s[0]] + rewrite(pass, rest));
                lemma_stays_open_cons(s[0], rewrite(pass, rest), 0);
                lemma_unfold(s, 0, 0);
                assert(s.skip(0) =~= s);
                assert forall|base: int| stays_open(r, base) <==> stays_open(s, base) by {
                    lemma_stays_open_cons(s[0], rewrite(pass, rest), base);
                    lemma_unfold(s, 0, base);
                }
            },
        }
    }
}

proof fn lemma_balanced_by_profile(s: Seq<Instruction>)
    ensures
        brackets_balanced(s) <==> (stays_open(s, 0) && net_depth(s) == 0),
{
}

/// A source text is accepted exactly when its brackets pair up: the
/// optimisations before loop resolution never change whether the brackets
/// of the parsed code are balanced.
pub proof fn law_optimized_brackets(code: Seq<char>)
    ensures
        brackets_balanced(optimized_code(code)) <==> brackets_balanced(parse_code(code)),
{
    let s0 = parse_code(code);
    let s1 = merge_runs(s0);
    let s2 = rewrite(Pass::Clears, s1);
    let s3 = rewrite(Pass::MoveRight, s2);
    let s4 = rewrite(Pass::FastZeroRight, s3);
    let s5 = rewrite(Pass::FastZeroLeft, s4);
    lemma_merge_runs_brackets(s0);
    lemma_rewrite_brackets(Pass::Clears, s1);
    lemma_rewrite_brackets(Pass::MoveRight, s2);
    lemma_rewrite_brackets(Pass::FastZeroRight, s3);
    lemma_rewrite_brackets(Pass::FastZeroLeft, s4);
    lemma_balanced_by_profile(s0);
    lemma_balanced_by_profile(s5);
    assert(stays_open(s5, 0) == stays_open(s4, 0));
    assert(stays_open(s4, 0) == stays_open(s3, 0));
    assert(stays_open(s3, 0) == stays_open(s2, 0));
    assert(stays_open(s2, 0) == stays_open(s1, 0));
    assert(stays_open(s1, 0) == stays_open(s0, 0));
}

} // verus!
