use godrick::{Engine, ExecutionContext, Opcode, Program, Tick};
use parse_frequency::Frequency;

/// Runs a program to its end, feeding `input` one character per `,`, and
/// collects what it writes.
fn run_program(code: &str, memory: usize, input: &str) -> (Engine, Vec<u8>) {
    let program = Program::new(code).unwrap();
    let mut engine = Engine::new(program, memory, Frequency::from_hz(1_000_000));
    let mut chars = input.chars();
    let mut out = Vec::new();
    while !engine.is_finished() {
        let needs_input = matches!(engine.get_instruction().unwrap().opcode, Opcode::Input);
        let c = if needs_input { chars.next() } else { None };
        assert!(engine.can_tick(c));
        if let Tick::Executed(Some(b)) = engine.tick(c) {
            out.push(b);
        }
    }
    (engine, out)
}

#[test]
fn hello_world() {
    let code = "++++++++[>++++[>++>+++>+++>+<<<<-]>+>+>->>+[<]<-]>>.>---.+++++++..+++.>>.<-.<.+++.------.--------.>>+.";
    let (_, out) = run_program(code, 100, "");
    assert_eq!(String::from_utf8(out).unwrap(), "Hello World!");
}

#[test]
fn echo_input() {
    let (_, out) = run_program(",.,.", 4, "hi");
    assert_eq!(out, b"hi".to_vec());
}

#[test]
fn input_takes_low_byte_of_code_point() {
    let (engine, _) = run_program(",", 1, "\u{141}");
    assert_eq!(engine.get_context().memory[0], 0x41);
}

#[test]
fn missing_input_leaves_cell() {
    let (engine, _) = run_program("+++,", 1, "");
    assert_eq!(engine.get_context().memory[0], 3);
}

#[test]
fn counts_executed_instructions() {
    let (engine, _) = run_program("+++>++", 4, "");
    assert_eq!(engine.get_commands_executed(), 3);
    assert_eq!(engine.get_context().instruction_pointer, 3);
    assert_eq!(engine.get_context().pointer, 1);
    assert_eq!(engine.get_context().memory, vec![3, 2, 0, 0]);
}

#[test]
fn subtraction_wraps() {
    let (engine, _) = run_program("-", 1, "");
    assert_eq!(engine.get_context().memory[0], 255);
}

#[test]
fn move_right_multiplies() {
    let (engine, _) = run_program("+++[->>++<<]", 3, "");
    assert_eq!(engine.get_context().memory, vec![0, 0, 6]);
    assert_eq!(engine.get_commands_executed(), 2);
}

#[test]
fn clear_and_scans() {
    let (engine, _) = run_program("+>+>+>>+<<<<[-][>]+", 6, "");
    assert_eq!(engine.get_context().pointer, 0);
    assert_eq!(engine.get_context().memory[0], 1);
    let (engine, _) = run_program(">+>+>+[>].", 6, "");
    assert_eq!(engine.get_context().pointer, 4);
    let (engine, _) = run_program(">>>>+<+<+<+[<].", 6, "");
    assert_eq!(engine.get_context().pointer, 0);
}

#[test]
fn out_of_memory_cannot_tick() {
    let program = Program::new("<+").unwrap();
    let mut engine = Engine::new(program, 2, Frequency::from_hz(1));
    assert!(engine.can_tick(None));
    assert_eq!(engine.tick(None), Tick::Executed(None));
    assert!(!engine.can_tick(None));
}

#[test]
fn reset_keeps_memory_size() {
    let (mut engine, _) = run_program("+>+", 5, "");
    engine.reset_context();
    let ctx = engine.get_context();
    assert_eq!(ctx.memory, vec![0; 5]);
    assert_eq!(ctx.instruction_pointer, 0);
    assert_eq!(ctx.pointer, 0);
}

#[test]
fn set_context_and_reload() {
    let program = Program::new("+.").unwrap();
    let mut engine = Engine::new(program, 1, Frequency::from_hz(1));
    engine.set_context(ExecutionContext { instruction_pointer: 1, pointer: 0, memory: vec![65] });
    assert_eq!(engine.tick(None), Tick::Executed(Some(65)));
    assert!(engine.is_finished());
    engine.load_program(Program::new(".").unwrap());
    assert!(engine.is_finished());
    assert_eq!(engine.get_program().len(), 1);
}

#[test]
fn tick_on_finished_program_changes_nothing() {
    let (mut engine, _) = run_program("+>+", 3, "");
    assert!(engine.is_finished());
    assert!(engine.can_tick(None));
    assert_eq!(engine.tick(None), Tick::Finished);
    assert_eq!(engine.get_commands_executed(), 3);
    assert_eq!(engine.get_context().memory, vec![1, 1, 0]);
    assert_eq!(engine.get_context().instruction_pointer, 3);
}

#[test]
fn tick_without_output() {
    let program = Program::new("+").unwrap();
    let mut engine = Engine::new(program, 1, Frequency::from_hz(1));
    assert_eq!(engine.tick(None), Tick::Executed(None));
}
