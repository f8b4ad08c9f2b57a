use vstd::prelude::*;
use crate::machine::instruction::{Instruction, Opcode};
use crate::machine::program::{jumps_paired, Program, ProgramView};
use parse_frequency::Frequency;

verus! {

/// The clock frequency that an engine is configured with; the engine only
/// carries it.
#[verifier::external_type_specification]
#[verifier::external_body]
pub struct ExFrequency(Frequency);

/// Where execution stands: the next instruction, the data pointer and the
/// memory cells.
pub struct ExecutionContext {
    pub instruction_pointer: usize,
    pub pointer: usize,
    pub memory: Vec<u8>,
}

/// The machine state that one step works on.
pub struct Snapshot {
    pub ip: usize,
    pub pointer: usize,
    pub memory: Seq<u8>,
}

impl ExecutionContext {
    /// The state this context holds.
    pub open spec fn snapshot(&self) -> Snapshot {
        Snapshot { ip: self.instruction_pointer, pointer: self.pointer, memory: self.memory@ }
    }
}

/// The first cell at `p`, `p + n`, `p + 2n`, ... that holds 0, if one is
/// reached before leaving the memory.
pub open spec fn zero_right(memory: Seq<u8>, p: int, n: int) -> Option<int>
    decreases memory.len() - p,
{
    if p < 0 || p >= memory.len() {
        None
    } else if memory[p] == 0 {
        Some(p)
    } else if n <= 0 || p + n >= memory.len() {
        None
    } else {
        zero_right(memory, p + n, n)
    }
}

/// The first cell at `p`, `p - n`, `p - 2n`, ... that holds 0, if one is
/// reached before the pointer would go below 0.
pub open spec fn zero_left(memory: Seq<u8>, p: int, n: int) -> Option<int>
    decreases p,
{
    if p < 0 || p >= memory.len() {
        None
    } else if memory[p] == 0 {
        Some(p)
    } else if n <= 0 || p < n {
        None
    } else {
        zero_left(memory, p - n, n)
    }
}

/// The instruction at `st.ip` can run on `st`, given `input` as the
/// character read for an `Input`: the cells it touches lie in memory, its
/// pointer arithmetic stays in range, and a fast-zero scan finds a zero.
pub open spec fn can_step(prog: Seq<Instruction>, st: Snapshot, input: Option<char>) -> bool {
    let p = st.pointer as int;
    let inside = p < st.memory.len();
    &&& st.ip < prog.len()
    &&& match prog[st.ip as int].opcode {
        Opcode::Forward(_) | Opcode::Reverse(_) => true,
        Opcode::Input => input is Some ==> inside,
        Opcode::LoopStart(t) | Opcode::LoopEnd(t) => inside && t < usize::MAX,
        Opcode::MoveRight { right, factor } => inside && p + right < st.memory.len(),
        Opcode::MoveLeft { left, factor } => inside && left <= p,
        Opcode::FastZeroRight(n) => zero_right(st.memory, p, n as int) is Some,
        Opcode::FastZeroLeft(n) => zero_left(st.memory, p, n as int) is Some,
        _ => inside,
    }
}

/// The byte that a character read for `Input` puts in a cell: the low eight
/// bits of its code point.
pub open spec fn input_byte(c: char) -> u8 {
    (c as u32 % 256) as u8
}

/// What the instruction at `st.ip` does to `st`, and the byte it writes out
/// if it is an `Output`: cell arithmetic wraps modulo 256, pointer moves
/// wrap modulo the word size, a loop end that is taken goes to the
/// instruction after its target, and every other instruction goes on to the
/// next one.
pub open spec fn step(prog: Seq<Instruction>, st: Snapshot, input: Option<char>) -> (Snapshot, Option<u8>) {
    let p = st.pointer as int;
    let m = st.memory;
    let next = (st.ip + 1) as usize;
    match prog[st.ip as int].opcode {
        Opcode::AddValue(n) => (
            Snapshot { ip: next, memory: m.update(p, vstd::wrapping::u8_specs::wrapping_add(m[p], n)), ..st },
            None,
        ),
        Opcode::SubValue(n) => (
            Snapshot { ip: next, memory: m.update(p, vstd::wrapping::u8_specs::wrapping_sub(m[p], n)), ..st },
            None,
        ),
        Opcode::Forward(n) => (
            Snapshot { ip: next, pointer: vstd::wrapping::usize_specs::wrapping_add(st.pointer, n), ..st },
            None,
        ),
        Opcode::Reverse(n) => (
            Snapshot { ip: next, pointer: vstd::wrapping::usize_specs::wrapping_sub(st.pointer, n), ..st },
            None,
        ),
        Opcode::Output => (Snapshot { ip: next, ..st }, Some(m[p])),
        Opcode::Input => match input {
            Some(c) => (Snapshot { ip: next, memory: m.update(p, input_byte(c)), ..st }, None),
            None => (Snapshot { ip: next, ..st }, None),
        },
        Opcode::LoopStart(t) => (
            Snapshot { ip: if m[p] == 0 { (t + 1) as usize } else { next }, ..st },
            None,
        ),
        Opcode::LoopEnd(t) => (
            Snapshot { ip: if m[p] != 0 { (t + 1) as usize } else { next }, ..st },
            None,
        ),
        Opcode::ClearCell => (Snapshot { ip: next, memory: m.update(p, 0u8), ..st }, None),
        Opcode::MoveRight { right, factor } => {
            let d = p + right;
            (
                Snapshot {
                    ip: next,
                    memory: m.update(
                        d,
                        vstd::wrapping::u8_specs::wrapping_add(
                            m[d],
                            vstd::wrapping::u8_specs::wrapping_mul(m[p], factor),
                        ),
                    ).update(p, 0u8),
                    ..st
                },
                None,
            )
        },
        Opcode::MoveLeft { left, factor } => {
            let d = p - left;
            (
                Snapshot {
                    ip: next,
                    memory: m.update(
                        d,
                        vstd::wrapping::u8_specs::wrapping_add(
                            m[d],
                            vstd::wrapping::u8_specs::wrapping_mul(m[p], factor),
                        ),
                    ).update(p, 0u8),
                    ..st
                },
                None,
            )
        },
        Opcode::FastZeroRight(n) => (
            Snapshot { ip: next, pointer: zero_right(m, p, n as int).unwrap() as usize, ..st },
            None,
        ),
        Opcode::FastZeroLeft(n) => (
            Snapshot { ip: next, pointer: zero_left(m, p, n as int).unwrap() as usize, ..st },
            None,
        ),
    }
}

} // verus!

verus! {

/// Runs a program on a memory of byte cells, one instruction per tick.
pub struct Engine {
    frequency: Frequency,
    context: ExecutionContext,
    program: Program,
    commands_executed: u64,
}

/// What an engine is: its execution state, its program, how many
/// instructions it has executed, and its configured frequency.
pub struct EngineView {
    pub state: Snapshot,
    pub program: ProgramView,
    pub executed: u64,
    pub frequency: Frequency,
}

impl View for Engine {
    type V = EngineView;

    closed spec fn view(&self) -> EngineView {
        EngineView {
            state: self.context.snapshot(),
            program: self.program@,
            executed: self.commands_executed,
            frequency: self.frequency,
        }
    }
}

/// The engine can execute its next instruction with `input` as the
/// character read for an `Input`: the step can run and the count of
/// executed instructions does not overflow.
pub open spec fn ready(e: EngineView, input: Option<char>) -> bool {
    &&& can_step(e.program.instructions, e.state, input)
    &&& e.executed < u64::MAX
}

/// The program has run past its last instruction.
pub open spec fn finished(e: EngineView) -> bool {
    e.state.ip >= e.program.instructions.len()
}

/// `tick` may be called: the program has finished, or its next instruction
/// can run.
pub open spec fn tick_allowed(e: EngineView, input: Option<char>) -> bool {
    finished(e) || ready(e, input)
}

/// What a tick did.
#[derive(Debug, Clone, Copy, PartialEq, Eq)]
pub enum Tick {
    /// The program had finished; nothing changed.
    Finished,
    /// One instruction ran; the byte it wrote out, if it was an `Output`.
    Executed(Option<u8>),
}

/// The engine after executing its next instruction.
pub open spec fn after_tick(e: EngineView, input: Option<char>) -> EngineView {
    EngineView {
        state: step(e.program.instructions, e.state, input).0,
        executed: (e.executed + 1) as u64,
        ..e
    }
}

/// A memory of `n` cells that all hold 0.
pub open spec fn zeroed(n: nat) -> Seq<u8> {
    Seq::new(n, |i: int| 0u8)
}

fn zero_memory(n: usize) -> (v: Vec<u8>)
    ensures
        v@ == zeroed(n as nat),
{
    let mut v: Vec<u8> = Vec::new();
    let mut i: usize = 0;
    while i < n
        invariant
            i <= n,
            v@ == zeroed(i as nat),
        decreases n - i,
    {
        v.push(0);
        i += 1;
        assert(v@ =~= zeroed(i as nat));
    }
    v
}

impl Engine {
    /// An engine for `program` with `memory` cells that hold 0, at the
    /// first instruction and cell, having executed nothing.
    pub fn new(program: Program, memory: usize, frequency: Frequency) -> (e: Self)
        ensures
            e@.state == (Snapshot { ip: 0, pointer: 0, memory: zeroed(memory as nat) }),
            e@.program == program@,
            e@.executed == 0,
            e@.frequency == frequency,
    {
        Engine {
            frequency,
            context: ExecutionContext {
                instruction_pointer: 0,
                pointer: 0,
                memory: zero_memory(memory),
            },
            program,
            commands_executed: 0,
        }
    }

    /// How many instructions the engine has executed.
    pub fn get_commands_executed(&self) -> (n: u64)
        ensures
            n == self@.executed,
    {
        self.commands_executed
    }

    /// Whether `tick` can be called with `input`, as `tick_allowed` says:
    /// the program has finished, or its next instruction can run.
    pub fn can_tick(&self, input: Option<char>) -> (b: bool)
        ensures
            b == tick_allowed(self@, input),
    {
        let ip = self.context.instruction_pointer;
        let instructions = self.program.get_instructions();
        if ip >= instructions.len() {
            return true;
        }
        if self.commands_executed == u64::MAX {
            return false;
        }
        let p = self.context.pointer;
        let memory = &self.context.memory;
        let inside = p < memory.len();
        match instructions[ip].opcode {
            Opcode::Forward(_) | Opcode::Reverse(_) => true,
            Opcode::Input => input.is_none() || inside,
            Opcode::LoopStart(t) | Opcode::LoopEnd(t) => inside && t < usize::MAX,
            Opcode::MoveRight { right, factor } => inside && right < memory.len() - p,
            Opcode::MoveLeft { left, factor } => inside && left <= p,
            Opcode::FastZeroRight(n) => Self::find_zero_right(memory, p, n).is_some(),
            Opcode::FastZeroLeft(n) => Self::find_zero_left(memory, p, n).is_some(),
            _ => inside,
        }
    }

    /// The cell that a `FastZeroRight(n)` scan from `p` stops at, as
    /// `zero_right` says.
    fn find_zero_right(memory: &Vec<u8>, p: usize, n: usize) -> (r: Option<usize>)
        ensures
            r matches Some(q) ==> zero_right(memory@, p as int, n as int) == Some(q as int),
            r is None ==> zero_right(memory@, p as int, n as int) is None,
    {
        let mut q = p;
        while q < memory.len() && memory[q] != 0 && n > 0 && n < memory.len() - q
            invariant
                zero_right(memory@, q as int, n as int) == zero_right(memory@, p as int, n as int),
            decreases memory@.len() - q,
        {
            q += n;
        }
        if q < memory.len() && memory[q] == 0 {
            Some(q)
        } else {
            None
        }
    }

    /// The cell that a `FastZeroLeft(n)` scan from `p` stops at, as
    /// `zero_left` says.
    fn find_zero_left(memory: &Vec<u8>, p: usize, n: usize) -> (r: Option<usize>)
        ensures
            r matches Some(q) ==> zero_left(memory@, p as int, n as int) == Some(q as int),
            r is None ==> zero_left(memory@, p as int, n as int) is None,
    {
        let mut q = p;
        while q < memory.len() && memory[q] != 0 && n > 0 && n <= q
            invariant
                zero_left(memory@, q as int, n as int) == zero_left(memory@, p as int, n as int),
            decreases q,
        {
            q -= n;
        }
        if q < memory.len() && memory[q] == 0 {
            Some(q)
        } else {
            None
        }
    }
}

} // verus!

verus! {

impl Engine {
    /// Ticks the engine: where the program has finished, it answers
    /// `Tick::Finished` and changes nothing; else it executes the next
    /// instruction, `input` standing for the character read for an `Input`
    /// (`None` where nothing was read), and answers `Tick::Executed` with the
    /// byte that an `Output` writes out.
    ///
    /// Execution never leaves the program: afterwards the instruction
    /// pointer is at most the number of instructions, unless it was past
    /// the end already.
    pub fn tick(&mut self, input: Option<char>) -> (r: Tick)
        requires
            tick_allowed(old(self)@, input),
        ensures
            finished(old(self)@) ==> r == Tick::Finished && final(self)@ == old(self)@,
            !finished(old(self)@) ==> r == Tick::Executed(
                step(old(self)@.program.instructions, old(self)@.state, input).1,
            ) && final(self)@ == after_tick(old(self)@, input)
                && final(self)@.state.ip <= final(self)@.program.instructions.len(),
    {
        if self.context.instruction_pointer >= self.program.len() {
            return Tick::Finished;
        }
        proof {
            use_type_invariant(&self.program);
            let prog = self@.program.instructions;
            let k = self@.state.ip as int;
            assert(prog[k] == prog[k]);
        }
        Tick::Executed(self.execute_instruction(input))
    }

    fn execute_instruction(&mut self, input: Option<char>) -> (out: Option<u8>)
        requires
            ready(old(self)@, input),
        ensures
            final(self)@ == after_tick(old(self)@, input),
            out == step(old(self)@.program.instructions, old(self)@.state, input).1,
    {
        let ghost e = self@;
        let ghost st = e.state;
        let ghost m = st.memory;
        let ip = self.context.instruction_pointer;
        let instruction = self.program.get_instructions()[ip];
        let p = self.context.pointer;
        assert(instruction == e.program.instructions[ip as int]);
        assert(can_step(e.program.instructions, st, input));
        assert(st.pointer == p && st.ip == ip);
        let memory_len = self.context.memory.len();
        assert(m.len() == memory_len);
        let mut output: Option<u8> = None;
        match instruction.opcode {
            Opcode::AddValue(n) => {
                let v = self.context.memory[p].wrapping_add(n);
                self.context.memory.set(p, v);
            },
            Opcode::SubValue(n) => {
                let v = self.context.memory[p].wrapping_sub(n);
                self.context.memory.set(p, v);
            },
            Opcode::Forward(n) => {
                self.context.pointer = p.wrapping_add(n);
            },
            Opcode::Reverse(n) => {
                self.context.pointer = p.wrapping_sub(n);
            },
            Opcode::Output => {
                output = Some(self.context.memory[p]);
            },
            Opcode::Input => {
                if let Some(c) = input {
                    let byte = #[verifier::truncate] (((c as u32) % 256) as u8);
                    self.context.memory.set(p, byte);
                }
            },
            Opcode::LoopStart(jump_to) => {
                if self.context.memory[p] == 0 {
                    self.context.instruction_pointer = jump_to;
                }
            },
            Opcode::LoopEnd(jump_to) => {
                if self.context.memory[p] != 0 {
                    self.context.instruction_pointer = jump_to;
                }
            },
            Opcode::ClearCell => {
                self.context.memory.set(p, 0);
            },
            Opcode::MoveRight { right, factor } => {
                let src_val = self.context.memory[p];
                let dest_index = p + right;
                let v = self.context.memory[dest_index].wrapping_add(src_val.wrapping_mul(factor));
                self.context.memory.set(dest_index, v);
                self.context.memory.set(p, 0);
            },
            Opcode::MoveLeft { left, factor } => {
                let src_val = self.context.memory[p];
                let dest_index = p - left;
                let v = self.context.memory[dest_index].wrapping_add(src_val.wrapping_mul(factor));
                self.context.memory.set(dest_index, v);
                self.context.memory.set(p, 0);
            },
            Opcode::FastZeroRight(n) => {
                let mut q = p;
                while self.context.memory[q] != 0
                    invariant
                        self.context.memory@ == m,
                        m.len() == memory_len,
                        zero_right(m, q as int, n as int) == zero_right(m, p as int, n as int),
                        zero_right(m, q as int, n as int) is Some,
                    decreases m.len() - q,
                {
                    assert(m[q as int] != 0);
                    q += n;
                }
                self.context.pointer = q;
            },
            Opcode::FastZeroLeft(n) => {
                let mut q = p;
                while self.context.memory[q] != 0
                    invariant
                        self.context.memory@ == m,
                        zero_left(m, q as int, n as int) == zero_left(m, p as int, n as int),
                        zero_left(m, q as int, n as int) is Some,
                    decreases q,
                {
                    q -= n;
                }
                self.context.pointer = q;
            },
        }
        self.context.instruction_pointer += 1;
        self.commands_executed += 1;
        output
    }
}

} // verus!

verus! {

impl Engine {
    /// The instruction at the instruction pointer, if it points into the program.
    pub fn get_instruction(&self) -> (r: Option<&Instruction>)
        ensures
            self@.state.ip < self@.program.instructions.len() ==> r == Some(
                &self@.program.instructions[self@.state.ip as int],
            ),
            self@.state.ip >= self@.program.instructions.len() ==> r is None,
    {
        self.program.at(self.context.instruction_pointer)
    }

    /// Whether the instruction pointer has run past the program's end.
    pub fn is_finished(&self) -> (b: bool)
        ensures
            b == finished(self@),
    {
        self.context.instruction_pointer >= self.program.len()
    }

    /// Replaces the program and keeps the execution state.
    pub fn load_program(&mut self, program: Program)
        ensures
            final(self)@ == (EngineView { program: program@, ..old(self)@ }),
    {
        self.program = program;
    }

    /// Back to the first instruction and cell, with every cell 0 and the
    /// memory size kept.
    pub fn reset_context(&mut self)
        ensures
            final(self)@ == (EngineView {
                state: Snapshot {
                    ip: 0,
                    pointer: 0,
                    memory: zeroed(old(self)@.state.memory.len()),
                },
                ..old(self)@
            }),
    {
        let memory = zero_memory(self.context.memory.len());
        self.context = ExecutionContext { instruction_pointer: 0, pointer: 0, memory };
    }

    /// Replaces the execution state.
    pub fn set_context(&mut self, context: ExecutionContext)
        ensures
            final(self)@ == (EngineView { state: context.snapshot(), ..old(self)@ }),
    {
        self.context = context;
    }

    /// The program.
    pub fn get_program(&self) -> (p: &Program)
        ensures
            p@ == self@.program,
    {
        &self.program
    }

    /// The execution state.
    pub fn get_context(&self) -> (c: &ExecutionContext)
        ensures
            c.snapshot() == self@.state,
    {
        &self.context
    }

    /// The execution state, for changes made from outside (such as by
    /// plugins that work on the memory); everything else stays.
    pub fn context_mut(&mut self) -> (c: &mut ExecutionContext)
        ensures
            c.snapshot() == old(self)@.state,
            final(self)@ == (EngineView { state: final(c).snapshot(), ..old(self)@ }),
    {
        &mut self.context
    }
}

} // verus!
