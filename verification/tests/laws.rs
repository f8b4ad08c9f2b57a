use godrick::{Engine, Error, Opcode, Program};
use parse_frequency::Frequency;

fn memory_after(code: &str, size: usize) -> (Vec<u8>, usize) {
    let program = Program::new(code).unwrap();
    let mut engine = Engine::new(program, size, Frequency::from_hz(1));
    let mut guard = 0;
    while !engine.is_finished() {
        assert!(engine.can_tick(None));
        engine.tick(None);
        guard += 1;
        assert!(guard < 1_000_000);
    }
    let ctx = engine.get_context();
    (ctx.memory.clone(), ctx.pointer)
}

#[test]
fn accepted_exactly_when_brackets_balance() {
    for (code, ok) in [("[]", true), ("[[-]>[>]]", true), ("][", false), ("[[]", false), ("[]]", false), ("a+b", true)] {
        assert_eq!(Program::new(code).is_ok(), ok, "{code}");
        if !ok {
            assert!(matches!(Program::new(code), Err(Error::Program(_))));
        }
    }
}

#[test]
fn clear_loop_matches_raw_loop() {
    // `[-]` is rewritten; `[-+-]` runs as written and also clears.
    assert_eq!(memory_after("+++++[-]", 1), memory_after("+++++[-+-]", 1));
    assert_eq!(memory_after("+++++[+]", 1), (vec![0], 0));
}

#[test]
fn move_loop_matches_raw_loop() {
    let p = Program::new("+++[->>++<<]").unwrap();
    assert!(matches!(p.get_instructions()[1].opcode, Opcode::MoveRight { right: 2, factor: 2 }));
    assert_eq!(memory_after("+++[->>++<<]", 3), memory_after("+++[->>++<<+-]", 3));
    assert_eq!(memory_after("+++[->>++<<]", 3).0, vec![0, 0, 6]);
}

#[test]
fn scan_loop_matches_raw_loop() {
    // At the very end `[>]` is kept as a loop; with an instruction after it,
    // it becomes a scan.
    let raw = Program::new("+>+>+<<[>]").unwrap();
    assert!(matches!(raw.get_instructions()[6].opcode, Opcode::LoopStart(_)));
    let scan = Program::new("+>+>+<<[>].").unwrap();
    assert!(matches!(scan.get_instructions()[6].opcode, Opcode::FastZeroRight(1)));
    assert_eq!(memory_after("+>+>+<<[>]", 5), memory_after("+>+>+<<[>].", 5));
    assert_eq!(memory_after("+>+>+<<[>]", 5).1, 3);
}

#[test]
fn merged_run_matches_split_run() {
    assert_eq!(memory_after("+++++", 2), memory_after("++><+++", 2));
    assert_eq!(memory_after(">><", 4).1, memory_after("><>", 4).1);
}
