use vstd::prelude::*;
use crate::machine::engine::{can_step, input_byte, step, zero_left, zero_right, Snapshot};
use crate::machine::instruction::{Instruction, Opcode, Position};
use crate::machine::passes::{
    combined, is_run_opcode, merge_runs, move_size, pass_rule, rewrite, same_run, single_moves, Pass,
};
use crate::machine::program::{decode, lemma_parse_length, lemma_parse_single_moves, optimized_code, parse_code, parse_from};

verus! {

/// Runs `n` steps of `prog` from `st` with no input or output; `None` where
/// a step cannot run or would read or write a character.
pub open spec fn run(prog: Seq<Instruction>, st: Snapshot, n: nat) -> Option<Snapshot>
    decreases n,
{
    if n == 0 {
        Some(st)
    } else if can_step(prog, st, None) && !(prog[st.ip as int].opcode is Input)
        && !(prog[st.ip as int].opcode is Output) {
        run(prog, step(prog, st, None).0, (n - 1) as nat)
    } else {
        None
    }
}

/// Running `a` steps and then `b` more is running `a + b` steps.
pub proof fn lemma_run_compose(prog: Seq<Instruction>, st: Snapshot, a: nat, b: nat)
    requires
        run(prog, st, a) is Some,
    ensures
        run(prog, st, a + b) == run(prog, run(prog, st, a).unwrap(), b),
    decreases a,
{
    if a > 0 {
        lemma_run_compose(prog, step(prog, st, None).0, (a - 1) as nat, b);
        assert((a + b - 1) as nat == ((a - 1) as nat + b) as nat);
    }
}

} // verus!

verus! {

/// A cell addition or subtraction by an odd amount: a clearing loop whose
/// body is this comes to 0 from any value.
pub open spec fn odd_change(op: Opcode) -> bool {
    match op {
        Opcode::AddValue(k) => k % 2 == 1,
        Opcode::SubValue(k) => k % 2 == 1,
        _ => false,
    }
}

/// `prog` holds, at `i`, a loop whose body adds or subtracts an odd amount,
/// such as `[-]` or `[+]`, its brackets pointing at each other.
pub open spec fn clear_loop_at(prog: Seq<Instruction>, i: int) -> bool {
    &&& 0 <= i
    &&& i + 3 <= prog.len()
    &&& i + 3 <= usize::MAX
    &&& prog[i].opcode == Opcode::LoopStart((i + 2) as usize)
    &&& odd_change(prog[i + 1].opcode)
    &&& prog[i + 2].opcode == Opcode::LoopEnd(i as usize)
}

/// The inverse of an odd `k` modulo 256: two Newton steps from `k`, which is
/// its own inverse modulo 8.
pub open spec fn odd_inverse(k: u8) -> u8 {
    let x1 = vstd::wrapping::u8_specs::wrapping_mul(
        k,
        vstd::wrapping::u8_specs::wrapping_sub(2u8, vstd::wrapping::u8_specs::wrapping_mul(k, k)),
    );
    vstd::wrapping::u8_specs::wrapping_mul(
        x1,
        vstd::wrapping::u8_specs::wrapping_sub(2u8, vstd::wrapping::u8_specs::wrapping_mul(k, x1)),
    )
}

/// How many passes the body `delta` of a clearing loop takes to bring `v`
/// to 0: the `j` below 256 with `v` plus `j` times the change equal to 0
/// modulo 256.
pub open spec fn clear_passes(delta: Opcode, v: u8) -> nat {
    match delta {
        Opcode::SubValue(k) => vstd::wrapping::u8_specs::wrapping_mul(v, odd_inverse(k)) as nat,
        Opcode::AddValue(k) => vstd::wrapping::u8_specs::wrapping_mul(
            vstd::wrapping::u8_specs::wrapping_sub(0u8, v),
            odd_inverse(k),
        ) as nat,
        _ => 0,
    }
}

proof fn lemma_sub_pass(v: u8, k: u8)
    by (bit_vector)
    requires
        v != 0,
        k & 1 == 1,
    ensures
        vstd::wrapping::u8_specs::wrapping_mul(v, odd_inverse(k)) != 0,
        vstd::wrapping::u8_specs::wrapping_mul(vstd::wrapping::u8_specs::wrapping_sub(v, k), odd_inverse(k))
            == vstd::wrapping::u8_specs::wrapping_mul(v, odd_inverse(k)) - 1,
{
}

proof fn lemma_add_pass(v: u8, k: u8)
    by (bit_vector)
    requires
        v != 0,
        k & 1 == 1,
    ensures
        vstd::wrapping::u8_specs::wrapping_mul(vstd::wrapping::u8_specs::wrapping_sub(0u8, v), odd_inverse(k)) != 0,
        vstd::wrapping::u8_specs::wrapping_mul(
            vstd::wrapping::u8_specs::wrapping_sub(0u8, vstd::wrapping::u8_specs::wrapping_add(v, k)),
            odd_inverse(k),
        ) == vstd::wrapping::u8_specs::wrapping_mul(vstd::wrapping::u8_specs::wrapping_sub(0u8, v), odd_inverse(k)) - 1,
{
}

proof fn lemma_odd_bit(k: u8)
    requires
        k % 2 == 1,
    ensures
        k & 1 == 1,
{
    assert(k % 2 == 1 ==> k & 1 == 1) by (bit_vector);
}

/// One pass of a clearing loop's body takes one pass off the count, and a
/// nonzero cell has at least one pass to go.
proof fn lemma_clear_pass(delta: Opcode, v: u8)
    requires
        odd_change(delta),
        v != 0,
    ensures
        clear_passes(delta, v) >= 1,
        ({
            let w = match delta {
                Opcode::SubValue(k) => vstd::wrapping::u8_specs::wrapping_sub(v, k),
                Opcode::AddValue(k) => vstd::wrapping::u8_specs::wrapping_add(v, k),
                _ => v,
            };
            clear_passes(delta, w) == clear_passes(delta, v) - 1 && (w == 0 <==> clear_passes(delta, v) == 1)
        }),
{
    match delta {
        Opcode::SubValue(k) => {
            lemma_odd_bit(k);
            lemma_sub_pass(v, k);
            let w = vstd::wrapping::u8_specs::wrapping_sub(v, k);
            if w != 0 {
                lemma_sub_pass(w, k);
            } else {
                assert(vstd::wrapping::u8_specs::wrapping_mul(0u8, odd_inverse(k)) == 0) by (nonlinear_arith);
            }
        },
        Opcode::AddValue(k) => {
            lemma_odd_bit(k);
            lemma_add_pass(v, k);
            let w = vstd::wrapping::u8_specs::wrapping_add(v, k);
            if w != 0 {
                lemma_add_pass(w, k);
            } else {
                assert(vstd::wrapping::u8_specs::wrapping_sub(0u8, 0u8) == 0);
                assert(vstd::wrapping::u8_specs::wrapping_mul(0u8, odd_inverse(k)) == 0) by (nonlinear_arith);
            }
        },
        _ => {},
    }
}

proof fn lemma_clear_body(prog: Seq<Instruction>, i: int, st: Snapshot)
    requires
        clear_loop_at(prog, i),
        st.ip == i + 1,
        st.pointer < st.memory.len(),
        st.memory[st.pointer as int] != 0,
    ensures
        run(prog, st, 2 * clear_passes(prog[i + 1].opcode, st.memory[st.pointer as int])) == Some(
            Snapshot { ip: (i + 3) as usize, memory: st.memory.update(st.pointer as int, 0u8), ..st },
        ),
    decreases clear_passes(prog[i + 1].opcode, st.memory[st.pointer as int]),
{
    let p = st.pointer as int;
    let v = st.memory[p];
    let delta = prog[i + 1].opcode;
    let n = clear_passes(delta, v);
    lemma_clear_pass(delta, v);
    let st1 = step(prog, st, None).0;
    assert(can_step(prog, st, None));
    let w = st1.memory[p];
    assert(w == match delta {
        Opcode::SubValue(k) => vstd::wrapping::u8_specs::wrapping_sub(v, k),
        Opcode::AddValue(k) => vstd::wrapping::u8_specs::wrapping_add(v, k),
        _ => v,
    });
    assert(st1.ip == i + 2);
    assert(can_step(prog, st1, None));
    let st2 = step(prog, st1, None).0;
    assert(run(prog, st, 2 * n) == run(prog, st1, (2 * n - 1) as nat));
    assert(run(prog, st1, (2 * n - 1) as nat) == run(prog, st2, (2 * n - 2) as nat));
    if w == 0 {
        assert(n == 1);
        assert(st2 == Snapshot { ip: (i + 3) as usize, memory: st.memory.update(p, 0u8), ..st });
    } else {
        assert(st2.ip == i + 1);
        assert(clear_passes(delta, w) == n - 1);
        lemma_clear_body(prog, i, st2);
        assert(st2.memory.update(p, 0u8) =~= st.memory.update(p, 0u8));
        assert((2 * n - 2) as nat == 2 * clear_passes(delta, w));
    }
}

/// Running a clearing loop such as `[-]` or `[+]`, whose body adds or
/// subtracts an odd amount, leaves the pointer where it was and the current
/// cell 0, which is what the one `ClearCell` that replaces it does.
pub proof fn law_clear_loop(prog: Seq<Instruction>, st: Snapshot)
    requires
        clear_loop_at(prog, st.ip as int),
        st.pointer < st.memory.len(),
    ensures
        exists|n: nat|
            run(prog, st, n) == Some(
                Snapshot {
                    ip: (st.ip + 3) as usize,
                    memory: st.memory.update(st.pointer as int, 0u8),
                    ..st
                },
            ),
{
    let i = st.ip as int;
    let p = st.pointer as int;
    assert(can_step(prog, st, None));
    let st1 = step(prog, st, None).0;
    if st.memory[p] == 0 {
        assert(st.memory.update(p, 0u8) =~= st.memory);
        assert(run(prog, st, 1) == run(prog, st1, 0));
        assert(run(prog, st, 1) == Some(
            Snapshot { ip: (st.ip + 3) as usize, memory: st.memory.update(p, 0u8), ..st },
        ));
    } else {
        lemma_clear_body(prog, i, st1);
        let n = 2 * clear_passes(prog[i + 1].opcode, st.memory[p]);
        assert(run(prog, st, n + 1) == run(prog, st1, n));
    }
}

} // verus!

verus! {

/// `prog` holds the loop `[>n]` at `i`, its brackets pointing at each other.
pub open spec fn scan_right_loop_at(prog: Seq<Instruction>, i: int, n: usize) -> bool {
    &&& 0 <= i
    &&& i + 3 <= prog.len()
    &&& i + 3 <= usize::MAX
    &&& prog[i].opcode == Opcode::LoopStart((i + 2) as usize)
    &&& prog[i + 1].opcode == Opcode::Forward(n)
    &&& prog[i + 2].opcode == Opcode::LoopEnd(i as usize)
}

proof fn lemma_scan_right_body(prog: Seq<Instruction>, i: int, n: usize, st: Snapshot)
    requires
        scan_right_loop_at(prog, i, n),
        st.memory.len() <= usize::MAX,
        st.ip == i + 1,
        st.pointer < st.memory.len(),
        st.memory[st.pointer as int] != 0,
        zero_right(st.memory, st.pointer as int, n as int) is Some,
    ensures
        exists|k: nat|
            run(prog, st, k) == Some(
                Snapshot {
                    ip: (i + 3) as usize,
                    pointer: zero_right(st.memory, st.pointer as int, n as int).unwrap() as usize,
                    ..st
                },
            ),
    decreases st.memory.len() - st.pointer,
{
    let p = st.pointer as int;
    let m = st.memory;
    assert(p + n < m.len());
    assert(can_step(prog, st, None));
    let st1 = step(prog, st, None).0;
    assert(st1.pointer == p + n);
    assert(can_step(prog, st1, None));
    let st2 = step(prog, st1, None).0;
    assert(run(prog, st, 2) == run(prog, st1, 1));
    assert(run(prog, st1, 1) == run(prog, st2, 0));
    if m[p + n] == 0 {
        assert(run(prog, st, 2) == Some(st2));
    } else {
        assert(st2.ip == i + 1);
        lemma_scan_right_body(prog, i, n, st2);
        let k = choose|k: nat|
            run(prog, st2, k) == Some(
                Snapshot {
                    ip: (i + 3) as usize,
                    pointer: zero_right(st2.memory, st2.pointer as int, n as int).unwrap() as usize,
                    ..st2
                },
            );
        lemma_run_compose(prog, st, 2, k);
    }
}

/// Where the scan of `FastZeroRight(n)` finds a zero cell, running the loop
/// `[>n]` that it replaces stops at the same cell with memory unchanged.
pub proof fn law_scan_right_loop(prog: Seq<Instruction>, n: usize, st: Snapshot)
    requires
        scan_right_loop_at(prog, st.ip as int, n),
        st.memory.len() <= usize::MAX,
        zero_right(st.memory, st.pointer as int, n as int) is Some,
    ensures
        exists|k: nat|
            run(prog, st, k) == Some(
                Snapshot {
                    ip: (st.ip + 3) as usize,
                    pointer: zero_right(st.memory, st.pointer as int, n as int).unwrap() as usize,
                    ..st
                },
            ),
{
    let i = st.ip as int;
    let p = st.pointer as int;
    assert(p < st.memory.len());
    assert(can_step(prog, st, None));
    let st1 = step(prog, st, None).0;
    if st.memory[p] == 0 {
        assert(run(prog, st, 1) == run(prog, st1, 0));
    } else {
        lemma_scan_right_body(prog, i, n, st1);
        let k = choose|k: nat|
            run(prog, st1, k) == Some(
                Snapshot {
                    ip: (i + 3) as usize,
                    pointer: zero_right(st1.memory, st1.pointer as int, n as int).unwrap() as usize,
                    ..st1
                },
            );
        lemma_run_compose(prog, st, 1, k);
        assert(run(prog, st, 1) == run(prog, st1, 0));
    }
}

} // verus!

verus! {

/// `prog` holds the loop `[<n]` at `i`, its brackets pointing at each other.
pub open spec fn scan_left_loop_at(prog: Seq<Instruction>, i: int, n: usize) -> bool {
    &&& 0 <= i
    &&& i + 3 <= prog.len()
    &&& i + 3 <= usize::MAX
    &&& prog[i].opcode == Opcode::LoopStart((i + 2) as usize)
    &&& prog[i + 1].opcode == Opcode::Reverse(n)
    &&& prog[i + 2].opcode == Opcode::LoopEnd(i as usize)
}

proof fn lemma_scan_left_body(prog: Seq<Instruction>, i: int, n: usize, st: Snapshot)
    requires
        scan_left_loop_at(prog, i, n),
        st.memory.len() <= usize::MAX,
        st.ip == i + 1,
        st.pointer < st.memory.len(),
        st.memory[st.pointer as int] != 0,
        zero_left(st.memory, st.pointer as int, n as int) is Some,
    ensures
        exists|k: nat|
            run(prog, st, k) == Some(
                Snapshot {
                    ip: (i + 3) as usize,
                    pointer: zero_left(st.memory, st.pointer as int, n as int).unwrap() as usize,
                    ..st
                },
            ),
    decreases st.pointer,
{
    let p = st.pointer as int;
    let m = st.memory;
    assert(n <= p);
    assert(can_step(prog, st, None));
    let st1 = step(prog, st, None).0;
    assert(st1.pointer == p - n);
    assert(can_step(prog, st1, None));
    let st2 = step(prog, st1, None).0;
    assert(run(prog, st, 2) == run(prog, st1, 1));
    assert(run(prog, st1, 1) == run(prog, st2, 0));
    if m[p - n] == 0 {
        assert(run(prog, st, 2) == Some(st2));
    } else {
        assert(st2.ip == i + 1);
        lemma_scan_left_body(prog, i, n, st2);
        let k = choose|k: nat|
            run(prog, st2, k) == Some(
                Snapshot {
                    ip: (i + 3) as usize,
                    pointer: zero_left(st2.memory, st2.pointer as int, n as int).unwrap() as usize,
                    ..st2
                },
            );
        lemma_run_compose(prog, st, 2, k);
    }
}

/// Where the scan of `FastZeroLeft(n)` finds a zero cell, running the loop
/// `[<n]` that it replaces stops at the same cell with memory unchanged.
pub proof fn law_scan_left_loop(prog: Seq<Instruction>, n: usize, st: Snapshot)
    requires
        scan_left_loop_at(prog, st.ip as int, n),
        st.memory.len() <= usize::MAX,
        zero_left(st.memory, st.pointer as int, n as int) is Some,
    ensures
        exists|k: nat|
            run(prog, st, k) == Some(
                Snapshot {
                    ip: (st.ip + 3) as usize,
                    pointer: zero_left(st.memory, st.pointer as int, n as int).unwrap() as usize,
                    ..st
                },
            ),
{
    let i = st.ip as int;
    let p = st.pointer as int;
    assert(p < st.memory.len());
    assert(can_step(prog, st, None));
    let st1 = step(prog, st, None).0;
    if st.memory[p] == 0 {
        assert(run(prog, st, 1) == run(prog, st1, 0));
    } else {
        lemma_scan_left_body(prog, i, n, st1);
        let k = choose|k: nat|
            run(prog, st1, k) == Some(
                Snapshot {
                    ip: (i + 3) as usize,
                    pointer: zero_left(st1.memory, st1.pointer as int, n as int).unwrap() as usize,
                    ..st1
                },
            );
        lemma_run_compose(prog, st, 1, k);
        assert(run(prog, st, 1) == run(prog, st1, 0));
    }
}

} // verus!

verus! {

proof fn lemma_wrapping_add_mod(x: u8, y: u8)
    ensures
        vstd::wrapping::u8_specs::wrapping_add(x, y) as int == (x as int + y as int) % 256,
{
    if x + y > 255 {
        assert((x as int + y as int) % 256 == x as int + y as int - 256);
    } else {
        assert((x as int + y as int) % 256 == x as int + y as int);
    }
}

proof fn lemma_move_arith(d: u8, n: u8, v: u8)
    requires
        v >= 1,
    ensures
        vstd::wrapping::u8_specs::wrapping_add(
            vstd::wrapping::u8_specs::wrapping_add(d, n),
            vstd::wrapping::u8_specs::wrapping_mul((v - 1) as u8, n),
        ) == vstd::wrapping::u8_specs::wrapping_add(
            d,
            vstd::wrapping::u8_specs::wrapping_mul(v, n),
        ),
{
    let a = d as int + n as int;
    let b = (v - 1) as int * n as int;
    let c = v as int * n as int;
    assert(b + n as int == c) by (nonlinear_arith)
        requires
            b == (v - 1) as int * n as int,
            c == v as int * n as int,
    ;
    lemma_wrapping_add_mod(d, n);
    let x = vstd::wrapping::u8_specs::wrapping_add(d, n);
    let y = vstd::wrapping::u8_specs::wrapping_mul((v - 1) as u8, n);
    let z = vstd::wrapping::u8_specs::wrapping_mul(v, n);
    assert(0 <= b);
    assert(0 <= c);
    assert(y as int == b % 256);
    assert(z as int == c % 256);
    lemma_wrapping_add_mod(x, y);
    lemma_wrapping_add_mod(d, z);
    vstd::arithmetic::div_mod::lemma_add_mod_noop(a, b, 256);
    vstd::arithmetic::div_mod::lemma_add_mod_noop_right(d as int, c, 256);
    vstd::arithmetic::div_mod::lemma_mod_twice(a, 256);
    assert((a % 256 + b % 256) % 256 == (a + b) % 256);
    assert(a + b == d as int + c);
}

} // verus!

verus! {

/// `prog` holds, at `i`, the loop `[->r+n<r]` or `[>r+n<r-]` (with `r` at
/// least 1), its brackets pointing at each other.
pub open spec fn move_right_loop_at(prog: Seq<Instruction>, i: int, r: usize, n: u8) -> bool {
    &&& 0 <= i
    &&& i + 6 <= prog.len()
    &&& i + 6 <= usize::MAX
    &&& r >= 1
    &&& prog[i].opcode == Opcode::LoopStart((i + 5) as usize)
    &&& prog[i + 5].opcode == Opcode::LoopEnd(i as usize)
    &&& ({
        ||| (prog[i + 1].opcode == Opcode::SubValue(1) && prog[i + 2].opcode == Opcode::Forward(r)
            && prog[i + 3].opcode == Opcode::AddValue(n) && prog[i + 4].opcode == Opcode::Reverse(
            r,
        ))
        ||| (prog[i + 1].opcode == Opcode::Forward(r) && prog[i + 2].opcode == Opcode::AddValue(n)
            && prog[i + 3].opcode == Opcode::Reverse(r) && prog[i + 4].opcode == Opcode::SubValue(
            1,
        ))
    })
}

/// One pass through the body of a moving loop.
#[verifier::spinoff_prover]
#[verifier::rlimit(40)]
proof fn lemma_move_right_pass(prog: Seq<Instruction>, i: int, r: usize, n: u8, st: Snapshot)
    requires
        move_right_loop_at(prog, i, r, n),
        st.memory.len() <= usize::MAX,
        st.ip == i + 1,
        st.pointer + r < st.memory.len(),
        st.memory[st.pointer as int] != 0,
    ensures
        ({
            let p = st.pointer as int;
            let m = st.memory;
            let m1 = m.update(p, (m[p] - 1) as u8).update(
                p + r,
                vstd::wrapping::u8_specs::wrapping_add(m[p + r], n),
            );
            run(prog, st, 5) == Some(
                Snapshot { ip: if m1[p] == 0 { (i + 6) as usize } else { (i + 1) as usize }, memory: m1, ..st },
            )
        }),
{
    let p = st.pointer as int;
    let m = st.memory;
    let q = p + r;
    assert(p != q);
    assert(can_step(prog, st, None));
    let s1 = step(prog, st, None).0;
    assert(can_step(prog, s1, None));
    let s2 = step(prog, s1, None).0;
    assert(can_step(prog, s2, None));
    let s3 = step(prog, s2, None).0;
    assert(can_step(prog, s3, None));
    let s4 = step(prog, s3, None).0;
    assert(s4.pointer == p);
    assert(can_step(prog, s4, None));
    let s5 = step(prog, s4, None).0;
    let m1 = m.update(p, (m[p] - 1) as u8).update(q, vstd::wrapping::u8_specs::wrapping_add(m[q], n));
    assert(s4.memory =~= m1);
    assert(run(prog, st, 5) == run(prog, s1, 4));
    assert(run(prog, s1, 4) == run(prog, s2, 3));
    assert(run(prog, s2, 3) == run(prog, s3, 2));
    assert(run(prog, s3, 2) == run(prog, s4, 1));
    assert(run(prog, s4, 1) == run(prog, s5, 0));
}

proof fn lemma_move_right_body(prog: Seq<Instruction>, i: int, r: usize, n: u8, st: Snapshot)
    requires
        move_right_loop_at(prog, i, r, n),
        st.memory.len() <= usize::MAX,
        st.ip == i + 1,
        st.pointer + r < st.memory.len(),
        st.memory[st.pointer as int] != 0,
    ensures
        ({
            let p = st.pointer as int;
            let m = st.memory;
            run(prog, st, 5 * (m[p] as nat)) == Some(
                Snapshot {
                    ip: (i + 6) as usize,
                    memory: m.update(
                        p + r,
                        vstd::wrapping::u8_specs::wrapping_add(
                            m[p + r],
                            vstd::wrapping::u8_specs::wrapping_mul(m[p], n),
                        ),
                    ).update(p, 0u8),
                    ..st
                },
            )
        }),
    decreases st.memory[st.pointer as int],
{
    let p = st.pointer as int;
    let q = p + r;
    let m = st.memory;
    let v = m[p];
    lemma_move_right_pass(prog, i, r, n, st);
    let m1 = m.update(p, (v - 1) as u8).update(q, vstd::wrapping::u8_specs::wrapping_add(m[q], n));
    let st1 = Snapshot { ip: if m1[p] == 0 { (i + 6) as usize } else { (i + 1) as usize }, memory: m1, ..st };
    lemma_move_arith(m[q], n, v);
    if v == 1 {
        assert(vstd::wrapping::u8_specs::wrapping_mul(0u8, n) == 0) by (nonlinear_arith);
        assert(vstd::wrapping::u8_specs::wrapping_add(vstd::wrapping::u8_specs::wrapping_add(m[q], n), 0u8)
            == vstd::wrapping::u8_specs::wrapping_add(m[q], n));
        assert(m1 =~= m.update(q, vstd::wrapping::u8_specs::wrapping_add(m[q], vstd::wrapping::u8_specs::wrapping_mul(v, n))).update(p, 0u8));
    } else {
        lemma_move_right_body(prog, i, r, n, st1);
        lemma_run_compose(prog, st, 5, 5 * ((v - 1) as nat));
        assert(5 * (v as nat) == 5 + 5 * ((v - 1) as nat));
        assert(m1.update(q, vstd::wrapping::u8_specs::wrapping_add(m1[q], vstd::wrapping::u8_specs::wrapping_mul((v - 1) as u8, n))).update(p, 0u8)
            =~= m.update(q, vstd::wrapping::u8_specs::wrapping_add(m[q], vstd::wrapping::u8_specs::wrapping_mul(v, n))).update(p, 0u8));
    }
}

/// Running a moving loop `[->r+n<r]` or `[>r+n<r-]`, with the target cell in
/// memory, adds the current cell times `n` to the cell `r` to the right and
/// clears the current cell, which is what the one `MoveRight` that replaces
/// it does.
pub proof fn law_move_right_loop(prog: Seq<Instruction>, r: usize, n: u8, st: Snapshot)
    requires
        move_right_loop_at(prog, st.ip as int, r, n),
        st.memory.len() <= usize::MAX,
        st.pointer + r < st.memory.len(),
    ensures
        exists|k: nat|
            run(prog, st, k) == Some(
                Snapshot {
                    ip: (st.ip + 6) as usize,
                    memory: st.memory.update(
                        st.pointer + r,
                        vstd::wrapping::u8_specs::wrapping_add(
                            st.memory[st.pointer + r],
                            vstd::wrapping::u8_specs::wrapping_mul(st.memory[st.pointer as int], n),
                        ),
                    ).update(st.pointer as int, 0u8),
                    ..st
                },
            ),
{
    let i = st.ip as int;
    let p = st.pointer as int;
    let m = st.memory;
    assert(can_step(prog, st, None));
    let st1 = step(prog, st, None).0;
    if m[p] == 0 {
        assert(run(prog, st, 1) == run(prog, st1, 0));
        assert(vstd::wrapping::u8_specs::wrapping_mul(0u8, n) == 0) by (nonlinear_arith);
        assert(m.update(p + r, vstd::wrapping::u8_specs::wrapping_add(m[p + r], 0u8)).update(p, 0u8) =~= m);
    } else {
        lemma_move_right_body(prog, i, r, n, st1);
        lemma_run_compose(prog, st, 1, 5 * (m[p] as nat));
        assert(run(prog, st, 1) == run(prog, st1, 0));
    }
}

} // verus!

verus! {

/// Two instructions that `optimize` merges, run one after the other, do what
/// their merged instruction does in one step: the same pointer and memory,
/// with the instruction pointer past both. Moves are taken as counts whose
/// sum fits in a word, as the parser's runs always are.
pub proof fn law_merge_pair(
    prog: Seq<Instruction>,
    merged: Seq<Instruction>,
    j: usize,
    st: Snapshot,
)
    requires
        st.ip + 2 <= prog.len(),
        st.ip + 2 <= usize::MAX,
        same_run(prog[st.ip as int].opcode, prog[st.ip + 1].opcode),
        move_size(prog[st.ip as int].opcode) + move_size(prog[st.ip + 1].opcode) <= usize::MAX,
        j < merged.len(),
        merged[j as int].opcode == combined(prog[st.ip as int].opcode, prog[st.ip + 1].opcode),
        can_step(merged, Snapshot { ip: j, ..st }, None),
    ensures
        run(prog, st, 2) == Some(
            Snapshot { ip: (st.ip + 2) as usize, ..step(merged, Snapshot { ip: j, ..st }, None).0 },
        ),
{
    let i = st.ip as int;
    let p = st.pointer as int;
    let a = prog[i].opcode;
    let b = prog[i + 1].opcode;
    assert(can_step(prog, st, None));
    let s1 = step(prog, st, None).0;
    assert(can_step(prog, s1, None));
    let s2 = step(prog, s1, None).0;
    assert(run(prog, st, 2) == run(prog, s1, 1));
    assert(run(prog, s1, 1) == run(prog, s2, 0));
    let t = step(merged, Snapshot { ip: j, ..st }, None).0;
    match (a, b) {
        (Opcode::AddValue(x), Opcode::AddValue(y)) => {
            lemma_add_twice(st.memory[p], x, y);
            assert(s2.memory =~= t.memory);
        },
        (Opcode::SubValue(x), Opcode::SubValue(y)) => {
            lemma_sub_twice(st.memory[p], x, y);
            assert(s2.memory =~= t.memory);
        },
        _ => {},
    }
}

proof fn lemma_add_twice(v: u8, x: u8, y: u8)
    ensures
        vstd::wrapping::u8_specs::wrapping_add(vstd::wrapping::u8_specs::wrapping_add(v, x), y)
            == vstd::wrapping::u8_specs::wrapping_add(v, vstd::wrapping::u8_specs::wrapping_add(x, y)),
{
}

proof fn lemma_sub_twice(v: u8, x: u8, y: u8)
    ensures
        vstd::wrapping::u8_specs::wrapping_sub(vstd::wrapping::u8_specs::wrapping_sub(v, x), y)
            == vstd::wrapping::u8_specs::wrapping_sub(v, vstd::wrapping::u8_specs::wrapping_add(x, y)),
{
}

} // verus!

verus! {

/// `prog` holds, at `i`, the loop `[-<r+n>r]` or `[<r+n>r-]` (with `r` at
/// least 1), its brackets pointing at each other.
pub open spec fn move_left_loop_at(prog: Seq<Instruction>, i: int, r: usize, n: u8) -> bool {
    &&& 0 <= i
    &&& i + 6 <= prog.len()
    &&& i + 6 <= usize::MAX
    &&& r >= 1
    &&& prog[i].opcode == Opcode::LoopStart((i + 5) as usize)
    &&& prog[i + 5].opcode == Opcode::LoopEnd(i as usize)
    &&& ({
        ||| (prog[i + 1].opcode == Opcode::SubValue(1) && prog[i + 2].opcode == Opcode::Reverse(r)
            && prog[i + 3].opcode == Opcode::AddValue(n) && prog[i + 4].opcode == Opcode::Forward(r))
        ||| (prog[i + 1].opcode == Opcode::Reverse(r) && prog[i + 2].opcode == Opcode::AddValue(n)
            && prog[i + 3].opcode == Opcode::Forward(r) && prog[i + 4].opcode == Opcode::SubValue(
            1,
        ))
    })
}

/// One pass through the body of a moving loop.
#[verifier::spinoff_prover]
#[verifier::rlimit(40)]
proof fn lemma_move_left_pass(prog: Seq<Instruction>, i: int, r: usize, n: u8, st: Snapshot)
    requires
        move_left_loop_at(prog, i, r, n),
        st.memory.len() <= usize::MAX,
        st.ip == i + 1,
        r <= st.pointer < st.memory.len(),
        st.memory[st.pointer as int] != 0,
    ensures
        ({
            let p = st.pointer as int;
            let m = st.memory;
            let m1 = m.update(p, (m[p] - 1) as u8).update(
                p - r,
                vstd::wrapping::u8_specs::wrapping_add(m[p - r], n),
            );
            run(prog, st, 5) == Some(
                Snapshot { ip: if m1[p] == 0 { (i + 6) as usize } else { (i + 1) as usize }, memory: m1, ..st },
            )
        }),
{
    let p = st.pointer as int;
    let m = st.memory;
    let q = p - r;
    assert(p != q);
    assert(can_step(prog, st, None));
    let s1 = step(prog, st, None).0;
    assert(can_step(prog, s1, None));
    let s2 = step(prog, s1, None).0;
    assert(can_step(prog, s2, None));
    let s3 = step(prog, s2, None).0;
    assert(can_step(prog, s3, None));
    let s4 = step(prog, s3, None).0;
    assert(s4.pointer == p);
    assert(can_step(prog, s4, None));
    let s5 = step(prog, s4, None).0;
    let m1 = m.update(p, (m[p] - 1) as u8).update(q, vstd::wrapping::u8_specs::wrapping_add(m[q], n));
    assert(s4.memory =~= m1);
    assert(run(prog, st, 5) == run(prog, s1, 4));
    assert(run(prog, s1, 4) == run(prog, s2, 3));
    assert(run(prog, s2, 3) == run(prog, s3, 2));
    assert(run(prog, s3, 2) == run(prog, s4, 1));
    assert(run(prog, s4, 1) == run(prog, s5, 0));
}

proof fn lemma_move_left_body(prog: Seq<Instruction>, i: int, r: usize, n: u8, st: Snapshot)
    requires
        move_left_loop_at(prog, i, r, n),
        st.memory.len() <= usize::MAX,
        st.ip == i + 1,
        r <= st.pointer < st.memory.len(),
        st.memory[st.pointer as int] != 0,
    ensures
        ({
            let p = st.pointer as int;
            let m = st.memory;
            run(prog, st, 5 * (m[p] as nat)) == Some(
                Snapshot {
                    ip: (i + 6) as usize,
                    memory: m.update(
                        p - r,
                        vstd::wrapping::u8_specs::wrapping_add(
                            m[p - r],
                            vstd::wrapping::u8_specs::wrapping_mul(m[p], n),
                        ),
                    ).update(p, 0u8),
                    ..st
                },
            )
        }),
    decreases st.memory[st.pointer as int],
{
    let p = st.pointer as int;
    let q = p - r;
    let m = st.memory;
    let v = m[p];
    lemma_move_left_pass(prog, i, r, n, st);
    let m1 = m.update(p, (v - 1) as u8).update(q, vstd::wrapping::u8_specs::wrapping_add(m[q], n));
    let st1 = Snapshot { ip: if m1[p] == 0 { (i + 6) as usize } else { (i + 1) as usize }, memory: m1, ..st };
    lemma_move_arith(m[q], n, v);
    if v == 1 {
        assert(vstd::wrapping::u8_specs::wrapping_mul(0u8, n) == 0) by (nonlinear_arith);
        assert(vstd::wrapping::u8_specs::wrapping_add(vstd::wrapping::u8_specs::wrapping_add(m[q], n), 0u8)
            == vstd::wrapping::u8_specs::wrapping_add(m[q], n));
        assert(m1 =~= m.update(q, vstd::wrapping::u8_specs::wrapping_add(m[q], vstd::wrapping::u8_specs::wrapping_mul(v, n))).update(p, 0u8));
    } else {
        lemma_move_left_body(prog, i, r, n, st1);
        lemma_run_compose(prog, st, 5, 5 * ((v - 1) as nat));
        assert(5 * (v as nat) == 5 + 5 * ((v - 1) as nat));
        assert(m1.update(q, vstd::wrapping::u8_specs::wrapping_add(m1[q], vstd::wrapping::u8_specs::wrapping_mul((v - 1) as u8, n))).update(p, 0u8)
            =~= m.update(q, vstd::wrapping::u8_specs::wrapping_add(m[q], vstd::wrapping::u8_specs::wrapping_mul(v, n))).update(p, 0u8));
    }
}

/// Running a moving loop `[-<r+n>r]` or `[<r+n>r-]`, with the target cell in
/// memory, adds the current cell times `n` to the cell `r` to the left and
/// clears the current cell, which is what the one `MoveLeft` that replaces
/// it does.
pub proof fn law_move_left_loop(prog: Seq<Instruction>, r: usize, n: u8, st: Snapshot)
    requires
        move_left_loop_at(prog, st.ip as int, r, n),
        st.memory.len() <= usize::MAX,
        r <= st.pointer < st.memory.len(),
    ensures
        exists|k: nat|
            run(prog, st, k) == Some(
                Snapshot {
                    ip: (st.ip + 6) as usize,
                    memory: st.memory.update(
                        st.pointer - r,
                        vstd::wrapping::u8_specs::wrapping_add(
                            st.memory[st.pointer - r],
                            vstd::wrapping::u8_specs::wrapping_mul(st.memory[st.pointer as int], n),
                        ),
                    ).update(st.pointer as int, 0u8),
                    ..st
                },
            ),
{
    let i = st.ip as int;
    let p = st.pointer as int;
    let m = st.memory;
    assert(can_step(prog, st, None));
    let st1 = step(prog, st, None).0;
    if m[p] == 0 {
        assert(run(prog, st, 1) == run(prog, st1, 0));
        assert(vstd::wrapping::u8_specs::wrapping_mul(0u8, n) == 0) by (nonlinear_arith);
        assert(m.update(p - r, vstd::wrapping::u8_specs::wrapping_add(m[p - r], 0u8)).update(p, 0u8) =~= m);
    } else {
        lemma_move_left_body(prog, i, r, n, st1);
        lemma_run_compose(prog, st, 1, 5 * (m[p] as nat));
        assert(run(prog, st, 1) == run(prog, st1, 0));
    }
}

} // verus!

verus! {

/// `s` holds only moves and cell arithmetic.
pub open spec fn straight_line(s: Seq<Instruction>) -> bool {
    forall|k: int| 0 <= k < s.len() ==> is_run_opcode((#[trigger] s[k]).opcode)
}

/// A move or a cell addition can run: cell arithmetic needs the pointer in memory.
pub open spec fn run_op_ok(op: Opcode, pointer: usize, memory: Seq<u8>) -> bool {
    match op {
        Opcode::AddValue(_) | Opcode::SubValue(_) => pointer < memory.len(),
        _ => true,
    }
}

/// The pointer and memory after a move or a cell addition.
pub open spec fn run_op_apply(op: Opcode, pointer: usize, memory: Seq<u8>) -> (usize, Seq<u8>) {
    match op {
        Opcode::Forward(n) => (vstd::wrapping::usize_specs::wrapping_add(pointer, n), memory),
        Opcode::Reverse(n) => (vstd::wrapping::usize_specs::wrapping_sub(pointer, n), memory),
        Opcode::AddValue(n) => (
            pointer,
            memory.update(pointer as int, vstd::wrapping::u8_specs::wrapping_add(memory[pointer as int], n)),
        ),
        Opcode::SubValue(n) => (
            pointer,
            memory.update(pointer as int, vstd::wrapping::u8_specs::wrapping_sub(memory[pointer as int], n)),
        ),
        _ => (pointer, memory),
    }
}

proof fn lemma_step_run_op(prog: Seq<Instruction>, st: Snapshot)
    requires
        st.ip < prog.len(),
        is_run_opcode(prog[st.ip as int].opcode),
    ensures
        can_step(prog, st, None) == run_op_ok(prog[st.ip as int].opcode, st.pointer, st.memory),
        run_op_ok(prog[st.ip as int].opcode, st.pointer, st.memory) ==> ({
            let r = step(prog, st, None).0;
            (r.pointer, r.memory) == run_op_apply(prog[st.ip as int].opcode, st.pointer, st.memory)
                && r.ip == (st.ip + 1) as usize
        }),
{
}

proof fn lemma_run_op_pair(a: Opcode, b: Opcode, pointer: usize, memory: Seq<u8>)
    requires
        same_run(a, b),
        move_size(a) + move_size(b) <= usize::MAX,
    ensures
        (run_op_ok(a, pointer, memory) && run_op_ok(
            b,
            run_op_apply(a, pointer, memory).0,
            run_op_apply(a, pointer, memory).1,
        )) == run_op_ok(combined(a, b), pointer, memory),
        run_op_ok(combined(a, b), pointer, memory) ==> run_op_apply(
            b,
            run_op_apply(a, pointer, memory).0,
            run_op_apply(a, pointer, memory).1,
        ) == run_op_apply(combined(a, b), pointer, memory),
{
    match (a, b) {
        (Opcode::AddValue(x), Opcode::AddValue(y)) => {
            if pointer < memory.len() {
                lemma_add_twice(memory[pointer as int], x, y);
                let m1 = memory.update(pointer as int, vstd::wrapping::u8_specs::wrapping_add(memory[pointer as int], x));
                assert(m1.update(pointer as int, vstd::wrapping::u8_specs::wrapping_add(m1[pointer as int], y))
                    =~= memory.update(pointer as int, vstd::wrapping::u8_specs::wrapping_add(memory[pointer as int], vstd::wrapping::u8_specs::wrapping_add(x, y))));
            }
        },
        (Opcode::SubValue(x), Opcode::SubValue(y)) => {
            if pointer < memory.len() {
                lemma_sub_twice(memory[pointer as int], x, y);
                let m1 = memory.update(pointer as int, vstd::wrapping::u8_specs::wrapping_sub(memory[pointer as int], x));
                assert(m1.update(pointer as int, vstd::wrapping::u8_specs::wrapping_sub(m1[pointer as int], y))
                    =~= memory.update(pointer as int, vstd::wrapping::u8_specs::wrapping_sub(memory[pointer as int], vstd::wrapping::u8_specs::wrapping_add(x, y))));
            }
        },
        _ => {},
    }
}

proof fn lemma_run_one(prog: Seq<Instruction>, st: Snapshot)
    ensures
        run(prog, st, 1) == if can_step(prog, st, None) && !(prog[st.ip as int].opcode is Input)
            && !(prog[st.ip as int].opcode is Output) {
            Some(step(prog, st, None).0)
        } else {
            None
        },
{
    if can_step(prog, st, None) && !(prog[st.ip as int].opcode is Input)
        && !(prog[st.ip as int].opcode is Output) {
        assert(run(prog, st, 1) == run(prog, step(prog, st, None).0, 0));
    }
}

/// A run that cannot go on for `a` steps cannot go on for more.
proof fn lemma_run_stuck(prog: Seq<Instruction>, st: Snapshot, a: nat, b: nat)
    requires
        run(prog, st, a) is None,
    ensures
        run(prog, st, a + b) is None,
    decreases a,
{
    if a > 0 && can_step(prog, st, None) && !(prog[st.ip as int].opcode is Input)
        && !(prog[st.ip as int].opcode is Output) {
        lemma_run_stuck(prog, step(prog, st, None).0, (a - 1) as nat, b);
        assert((a + b - 1) as nat == ((a - 1) as nat + b) as nat);
    }
}

/// On straight-line code, appending an instruction does not change the
/// first steps, and each step moves on by one.
proof fn lemma_run_prefix(s: Seq<Instruction>, x: Instruction, st: Snapshot, n: nat)
    requires
        straight_line(s),
        s.len() < usize::MAX,
        st.ip + n <= s.len(),
    ensures
        run(s.push(x), st, n) == run(s, st, n),
        run(s, st, n) matches Some(r) ==> r.ip == st.ip + n,
    decreases n,
{
    if n > 0 {
        assert(s.push(x)[st.ip as int] == s[st.ip as int]);
        assert(is_run_opcode(s[st.ip as int].opcode));
        lemma_step_run_op(s, st);
        lemma_step_run_op(s.push(x), st);
        if can_step(s, st, None) {
            lemma_run_prefix(s, x, step(s, st, None).0, (n - 1) as nat);
        }
    }
}

proof fn lemma_merge_runs_shape(s: Seq<Instruction>)
    requires
        straight_line(s),
        single_moves(s),
    ensures
        straight_line(merge_runs(s)),
        merge_runs(s).len() <= s.len(),
        forall|t: int| 0 <= t < merge_runs(s).len() ==> move_size((#[trigger] merge_runs(s)[t]).opcode) <= s.len(),
    decreases s.len(),
{
    if s.len() > 0 {
        let front = s.drop_last();
        let x = s.last();
        assert(x == s[s.len() - 1]);
        assert(straight_line(front) && single_moves(front)) by {
            assert forall|k: int| 0 <= k < front.len() implies is_run_opcode((#[trigger] front[k]).opcode) by {
                assert(front[k] == s[k]);
            }
            assert forall|k: int| 0 <= k < front.len() implies match (#[trigger] front[k]).opcode {
                Opcode::Forward(n) => n == 1,
                Opcode::Reverse(n) => n == 1,
                _ => true,
            } by {
                assert(front[k] == s[k]);
            }
        }
        lemma_merge_runs_shape(front);
        let out = merge_runs(front);
        let m = merge_runs(s);
        assert(match x.opcode {
            Opcode::Forward(n) => n == 1,
            Opcode::Reverse(n) => n == 1,
            _ => true,
        });
        if out.len() > 0 && same_run(out.last().opcode, x.opcode) {
            assert(out.last() == out[out.len() - 1]);
            assert forall|t: int| 0 <= t < m.len() implies move_size((#[trigger] m[t]).opcode) <= s.len() && is_run_opcode(m[t].opcode) by {
                if t < out.len() - 1 {
                    assert(m[t] == out[t]);
                }
            }
        } else {
            assert forall|t: int| 0 <= t < m.len() implies move_size((#[trigger] m[t]).opcode) <= s.len() && is_run_opcode(m[t].opcode) by {
                if t < out.len() {
                    assert(m[t] == out[t]);
                }
            }
        }
    }
}

/// On code made only of moves and cell arithmetic, running the merged
/// instructions gets as far as running the parsed ones and leaves the same
/// pointer and memory: merging runs does not change what straight-line code
/// does.
pub proof fn law_merge_straight_line(s: Seq<Instruction>, st: Snapshot)
    requires
        straight_line(s),
        single_moves(s),
        s.len() < usize::MAX,
        st.ip == 0,
    ensures
        run(s, st, s.len()) is Some <==> run(merge_runs(s), st, merge_runs(s).len()) is Some,
        run(s, st, s.len()) matches Some(a) ==> ({
            let b = run(merge_runs(s), st, merge_runs(s).len()).unwrap();
            a.pointer == b.pointer && a.memory == b.memory
        }),
    decreases s.len(),
{
    if s.len() > 0 {
        let front = s.drop_last();
        let x = s.last();
        assert(front.push(x) =~= s);
        assert(x == s[s.len() - 1]);
        assert(straight_line(front) && single_moves(front)) by {
            assert forall|k: int| 0 <= k < front.len() implies is_run_opcode((#[trigger] front[k]).opcode) by {
                assert(front[k] == s[k]);
            }
            assert forall|k: int| 0 <= k < front.len() implies match (#[trigger] front[k]).opcode {
                Opcode::Forward(n) => n == 1,
                Opcode::Reverse(n) => n == 1,
                _ => true,
            } by {
                assert(front[k] == s[k]);
            }
        }
        law_merge_straight_line(front, st);
        lemma_merge_runs_shape(front);
        lemma_merge_runs_shape(s);
        let out = merge_runs(front);
        let m = merge_runs(s);
        // The parsed code: the front, then `x`.
        lemma_run_prefix(front, x, st, front.len());
        let fl = front.len();
        if run(front, st, fl) is None {
            lemma_run_stuck(s, st, fl, 1);
        } else {
            lemma_run_compose(s, st, fl, 1);
            let a = run(front, st, fl).unwrap();
            assert(s[fl as int] == x);
            lemma_step_run_op(s, a);
            lemma_run_one(s, a);
        }
        if out.len() > 0 && same_run(out.last().opcode, x.opcode) {
            let y = out.last();
            let body = out.drop_last();
            let c = Instruction { opcode: combined(y.opcode, x.opcode), position: y.position };
            assert(y == out[out.len() - 1]);
            assert(body.push(y) =~= out);
            assert(m =~= body.push(c));
            assert(straight_line(body)) by {
                assert forall|k: int| 0 <= k < body.len() implies is_run_opcode((#[trigger] body[k]).opcode) by {
                    assert(body[k] == out[k]);
                }
            }
            let bl = body.len();
            lemma_run_prefix(body, y, st, bl);
            lemma_run_prefix(body, c, st, bl);
            assert(move_size(y.opcode) <= front.len());
            lemma_run_op_pair(y.opcode, x.opcode, st.pointer, st.memory);
            if run(body, st, bl) is None {
                lemma_run_stuck(out, st, bl, 1);
                lemma_run_stuck(m, st, bl, 1);
            } else {
                let d = run(body, st, bl).unwrap();
                lemma_run_compose(out, st, bl, 1);
                lemma_run_compose(m, st, bl, 1);
                assert(out[bl as int] == y);
                assert(m[bl as int] == c);
                lemma_step_run_op(out, d);
                lemma_step_run_op(m, d);
                lemma_run_one(out, d);
                lemma_run_one(m, d);
                lemma_run_op_pair(y.opcode, x.opcode, d.pointer, d.memory);
                assert(run(out, st, out.len()) == run(out, d, 1));
                assert(run(m, st, m.len()) == run(m, d, 1));
            }
        } else {
            assert(m =~= out.push(x));
            let ol = out.len();
            lemma_run_prefix(out, x, st, ol);
            if run(out, st, ol) is None {
                lemma_run_stuck(m, st, ol, 1);
            } else {
                let b = run(out, st, ol).unwrap();
                lemma_run_compose(m, st, ol, 1);
                assert(m[ol as int] == x);
                lemma_step_run_op(m, b);
                lemma_run_one(m, b);
            }
        }
    }
}

} // verus!

verus! {

proof fn lemma_rewrite_without_loops(pass: Pass, s: Seq<Instruction>)
    requires
        straight_line(s),
    ensures
        rewrite(pass, s) == s,
    decreases s.len(),
{
    if s.len() > 0 {
        assert(is_run_opcode(s[0].opcode));
        let rest = s.skip(1);
        assert(straight_line(rest)) by {
            assert forall|k: int| 0 <= k < rest.len() implies is_run_opcode((#[trigger] rest[k]).opcode) by {
                assert(rest[k] == s[k + 1]);
            }
        }
        lemma_rewrite_without_loops(pass, rest);
        assert(seq![s[0]] + rest =~= s);
    }
}

proof fn lemma_parse_straight(code: Seq<char>, i: int, line: nat, column: nat)
    requires
        forall|k: int| 0 <= k < code.len() ==> #[trigger] code[k] != '[' && code[k] != ']'
            && code[k] != '.' && code[k] != ',',
    ensures
        straight_line(parse_from(code, i, line, column)),
    decreases code.len() - i,
{
    if 0 <= i < code.len() {
        if code[i] == '\n' {
            lemma_parse_straight(code, i + 1, line + 1, 1);
        } else {
            lemma_parse_straight(code, i + 1, line, column + 1);
            let all = parse_from(code, i, line, column);
            let rest = parse_from(code, i + 1, line, column + 1);
            assert(code[i] != '[' && code[i] != ']' && code[i] != '.' && code[i] != ',');
            if decode(code[i]) is Some {
                assert forall|t: int| 0 <= t < all.len() implies is_run_opcode((#[trigger] all[t]).opcode) by {
                    if t > 0 {
                        assert(all[t] == rest[t - 1]);
                    }
                }
            }
        }
    }
}

/// For a source text with no loops and no input or output, the optimised
/// program gets as far as the parsed one and leaves the same pointer and
/// memory.
pub proof fn law_loop_free_program(code: Seq<char>, st: Snapshot)
    requires
        code.len() < usize::MAX,
        forall|k: int| 0 <= k < code.len() ==> #[trigger] code[k] != '[' && code[k] != ']'
            && code[k] != '.' && code[k] != ',',
        st.ip == 0,
    ensures
        ({
            let raw = parse_code(code);
            let opt = optimized_code(code);
            &&& run(raw, st, raw.len()) is Some <==> run(opt, st, opt.len()) is Some
            &&& run(raw, st, raw.len()) matches Some(a) ==> ({
                let b = run(opt, st, opt.len()).unwrap();
                a.pointer == b.pointer && a.memory == b.memory
            })
        }),
{
    let raw = parse_code(code);
    lemma_parse_straight(code, 0, 1, 1);
    lemma_parse_single_moves(code, 0, 1, 1);
    assert(raw.len() <= code.len()) by {
        lemma_parse_length(code, 0, 1, 1);
    }
    lemma_merge_runs_shape(raw);
    let m = merge_runs(raw);
    lemma_rewrite_without_loops(Pass::Clears, m);
    lemma_rewrite_without_loops(Pass::MoveRight, m);
    lemma_rewrite_without_loops(Pass::FastZeroRight, m);
    lemma_rewrite_without_loops(Pass::FastZeroLeft, m);
    assert(optimized_code(code) == m);
    law_merge_straight_line(raw, st);
}


} // verus!

verus! {

/// `prog` holds, at `i`, a loop of `width` instructions whose body is that of
/// the window `w`: a `[` that jumps to the `]` at its end, and that `]`
/// jumping back to it.
pub open spec fn window_at(prog: Seq<Instruction>, i: int, w: Seq<Instruction>, width: nat) -> bool {
    &&& 0 <= i
    &&& 2 <= width <= w.len()
    &&& i + width <= prog.len()
    &&& i + width <= usize::MAX
    &&& prog[i].opcode == Opcode::LoopStart((i + width - 1) as usize)
    &&& prog[i + width - 1].opcode == Opcode::LoopEnd(i as usize)
    &&& forall|k: int| 0 < k < width - 1 ==> prog[i + k].opcode == (#[trigger] w[k]).opcode
}

/// The state that running `op` alone, as the one instruction of a program,
/// leaves behind (with its instruction pointer past it).
pub open spec fn run_alone(op: Opcode, st: Snapshot) -> Snapshot {
    step(
        seq![Instruction { opcode: op, position: Position { line: 1, column: 1 } }],
        Snapshot { ip: 0, ..st },
        None,
    ).0
}

/// `op` can run on `st` as the one instruction of a program.
pub open spec fn can_run_alone(op: Opcode, st: Snapshot) -> bool {
    can_step(
        seq![Instruction { opcode: op, position: Position { line: 1, column: 1 } }],
        Snapshot { ip: 0, ..st },
        None,
    )
}

/// Every instruction that a loop rewrite puts in place of a window stands
/// for the loop it replaces: wherever that loop stands in a program, with
/// its brackets pointing at each other, and the new instruction can run,
/// running the loop from its `[` ends past its `]` with the pointer and
/// memory that the new instruction leaves. This holds for clearing loops
/// whose body adds or subtracts an odd amount, and for moving loops that
/// move by at least one cell.
pub proof fn law_rewrite_window(pass: Pass, w: Seq<Instruction>, prog: Seq<Instruction>, st: Snapshot)
    requires
        pass_rule(pass, w) is Some,
        window_at(prog, st.ip as int, w, pass_rule(pass, w).unwrap().1),
        pass is Clears ==> odd_change(w[1].opcode),
        pass_rule(pass, w).unwrap().0 matches Opcode::MoveRight { right, .. } ==> right >= 1,
        pass_rule(pass, w).unwrap().0 matches Opcode::MoveLeft { left, .. } ==> left >= 1,
        st.memory.len() <= usize::MAX,
        can_run_alone(pass_rule(pass, w).unwrap().0, st),
    ensures
        exists|k: nat|
            run(prog, st, k) == Some(
                Snapshot {
                    ip: (st.ip + pass_rule(pass, w).unwrap().1) as usize,
                    ..run_alone(pass_rule(pass, w).unwrap().0, st)
                },
            ),
{
    let i = st.ip as int;
    let (op, width) = pass_rule(pass, w).unwrap();
    assert(prog[i + 1].opcode == w[1].opcode);
    match pass {
        Pass::Clears => {
            assert(clear_loop_at(prog, i));
            law_clear_loop(prog, st);
        },
        Pass::MoveRight => {
            assert(prog[i + 2].opcode == w[2].opcode);
            assert(prog[i + 3].opcode == w[3].opcode);
            assert(prog[i + 4].opcode == w[4].opcode);
            let (r, n) = match op {
                Opcode::MoveRight { right, factor } => (right, factor),
                _ => (0usize, 0u8),
            };
            assert(move_right_loop_at(prog, i, r, n));
            law_move_right_loop(prog, r, n, st);
        },
        Pass::MoveLeft => {
            assert(prog[i + 2].opcode == w[2].opcode);
            assert(prog[i + 3].opcode == w[3].opcode);
            assert(prog[i + 4].opcode == w[4].opcode);
            let (r, n) = match op {
                Opcode::MoveLeft { left, factor } => (left, factor),
                _ => (0usize, 0u8),
            };
            assert(move_left_loop_at(prog, i, r, n));
            law_move_left_loop(prog, r, n, st);
        },
        Pass::FastZeroRight => {
            let n = match op {
                Opcode::FastZeroRight(n) => n,
                _ => 0usize,
            };
            assert(scan_right_loop_at(prog, i, n));
            law_scan_right_loop(prog, n, st);
        },
        Pass::FastZeroLeft => {
            let n = match op {
                Opcode::FastZeroLeft(n) => n,
                _ => 0usize,
            };
            assert(scan_left_loop_at(prog, i, n));
            law_scan_left_loop(prog, n, st);
        },
    }
}

} // verus!

verus! {

/// Reading a character with `,` puts the low eight bits of its code point in
/// the current cell: a `.` right after it writes out the code point modulo
/// 256, which for a code point below 256 is the code point itself.
pub proof fn law_input_then_output(prog: Seq<Instruction>, st: Snapshot, c: char)
    requires
        prog.len() <= usize::MAX,
        st.ip + 1 < prog.len(),
        prog[st.ip as int].opcode is Input,
        prog[st.ip + 1].opcode is Output,
        st.pointer < st.memory.len(),
    ensures
        can_step(prog, st, Some(c)),
        can_step(prog, step(prog, st, Some(c)).0, None),
        step(prog, step(prog, st, Some(c)).0, None).1 matches Some(b) && b as int == (c as int) % 256,
        (c as int) < 256 ==> step(prog, step(prog, st, Some(c)).0, None).1 == Some(c as u8),
{
    let s1 = step(prog, st, Some(c)).0;
    assert(s1.memory[st.pointer as int] == input_byte(c));
    assert(s1.ip == st.ip + 1);
    let x = c as u32;
    assert((x % 256) as u8 as int == (x as int) % 256);
    assert((c as int) < 256 ==> (c as u8) as int == (c as int));
}

/// Two characters read with `,` give the same cell value exactly when their
/// code points agree modulo 256.
pub proof fn law_input_byte_congruence(c: char, d: char)
    ensures
        input_byte(c) == input_byte(d) <==> (c as int) % 256 == (d as int) % 256,
{
    assert(input_byte(c) as int == (c as int) % 256);
    assert(input_byte(d) as int == (d as int) % 256);
}

} // verus!
