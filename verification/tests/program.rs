use godrick::{Error, Instruction, Opcode, Position, Program};

fn opcodes(p: &Program) -> Vec<Opcode> {
    p.get_instructions().iter().map(|i: &Instruction| i.opcode).collect()
}

#[test]
fn parses_each_command() {
    let p = Program::new("><+-.,").unwrap();
    assert_eq!(
        opcodes(&p),
        vec![
            Opcode::Forward(1),
            Opcode::Reverse(1),
            Opcode::AddValue(1),
            Opcode::SubValue(1),
            Opcode::Output,
            Opcode::Input
        ]
    );
}

#[test]
fn merges_runs() {
    let p = Program::new(">>> <<+++ ++--").unwrap();
    assert_eq!(
        opcodes(&p),
        vec![Opcode::Forward(3), Opcode::Reverse(2), Opcode::AddValue(5), Opcode::SubValue(2)]
    );
    assert_eq!(p.get_instructions()[2].position, Position { line: 1, column: 7 });
}

#[test]
fn pluses_wrap_modulo_256() {
    let code = "+".repeat(258);
    let p = Program::new(&code).unwrap();
    assert_eq!(opcodes(&p), vec![Opcode::AddValue(2)]);
}

#[test]
fn clear_loop_becomes_clear_cell() {
    let p = Program::new("+[-].").unwrap();
    assert_eq!(opcodes(&p), vec![Opcode::AddValue(1), Opcode::ClearCell, Opcode::Output]);
    assert_eq!(p.get_instructions()[1].position, Position { line: 1, column: 2 });
}

#[test]
fn move_right_loop() {
    let p = Program::new("[->>+++<<].").unwrap();
    assert_eq!(opcodes(&p), vec![Opcode::MoveRight { right: 2, factor: 3 }, Opcode::Output]);
    let q = Program::new("[>>+++<<-].").unwrap();
    assert_eq!(opcodes(&q), vec![Opcode::MoveRight { right: 2, factor: 3 }, Opcode::Output]);
}

#[test]
fn left_moving_loop_is_kept() {
    let p = Program::new("[-<+>].").unwrap();
    assert_eq!(
        opcodes(&p),
        vec![
            Opcode::LoopStart(5),
            Opcode::SubValue(1),
            Opcode::Reverse(1),
            Opcode::AddValue(1),
            Opcode::Forward(1),
            Opcode::LoopEnd(0),
            Opcode::Output
        ]
    );
}

#[test]
fn fast_zero_loops() {
    let p = Program::new("[>>].[<].").unwrap();
    assert_eq!(
        opcodes(&p),
        vec![Opcode::FastZeroRight(2), Opcode::Output, Opcode::FastZeroLeft(1), Opcode::Output]
    );
}

#[test]
fn fast_zero_needs_a_following_instruction() {
    let p = Program::new("[>]").unwrap();
    assert_eq!(opcodes(&p), vec![Opcode::LoopStart(2), Opcode::Forward(1), Opcode::LoopEnd(0)]);
}

#[test]
fn loops_point_at_each_other() {
    let p = Program::new("+[>+[>+<-]<-]").unwrap();
    let ops = opcodes(&p);
    for (k, op) in ops.iter().enumerate() {
        match op {
            Opcode::LoopStart(j) => assert_eq!(ops[*j], Opcode::LoopEnd(k)),
            Opcode::LoopEnd(j) => assert_eq!(ops[*j], Opcode::LoopStart(k)),
            _ => {}
        }
    }
    assert_eq!(ops[1], Opcode::LoopStart(7));
    assert_eq!(ops[4], Opcode::MoveRight { right: 1, factor: 1 });
}

#[test]
fn unmatched_close_is_reported() {
    match Program::new("+]") {
        Err(Error::Program(m)) => {
            assert!(m.contains("Unmatched ']' found"));
            assert!(m.contains("Line: 1, Column: 2"));
        }
        _ => panic!("expected an error"),
    }
}

#[test]
fn unclosed_opens_are_reported_last_first() {
    match Program::new("[\n [") {
        Err(Error::Program(m)) => {
            let second = m.find("Line: 2, Column: 2").unwrap();
            let first = m.find("Line: 1, Column: 1").unwrap();
            assert!(second < first);
            assert_eq!(m.matches("Unmatched '[' found").count(), 2);
        }
        _ => panic!("expected an error"),
    }
}

#[test]
fn get_line_with_neighbours() {
    let p = Program::new("a\n+ b\nc  \n").unwrap();
    assert_eq!(p.get_line(0, false), Some("+ b".to_string()));
    assert_eq!(p.get_line(0, true), Some("a\n+ b\nc".to_string()));
    assert_eq!(p.get_line(1, true), None);
}

#[test]
fn position_text() {
    assert_eq!(Position { line: 12, column: 3 }.to_string(), "Line: 12, Column: 3");
}

#[test]
fn empty_and_comment_only_programs() {
    let p = Program::new("").unwrap();
    assert!(p.is_empty());
    assert_eq!(p.len(), 0);
    assert!(p.at(0).is_none());
    let q = Program::new("hello world\n").unwrap();
    assert!(q.is_empty());
}

#[test]
fn at_and_into_instructions() {
    let p = Program::new("+.").unwrap();
    assert_eq!(p.at(1).unwrap().opcode, Opcode::Output);
    assert!(p.at(2).is_none());
    let v = p.into_instructions();
    assert_eq!(v.len(), 2);
}

#[test]
fn positions_count_lines_and_columns() {
    let p = Program::new("ab\n\n  +\r\n-").unwrap();
    assert_eq!(p.get_instructions()[0].position, Position { line: 3, column: 3 });
    assert_eq!(p.get_instructions()[1].position, Position { line: 4, column: 1 });
}

#[test]
fn get_line_first_and_last() {
    let p = Program::new("+\nx\n-").unwrap();
    assert_eq!(p.get_line(0, true), Some("+\nx".to_string()));
    assert_eq!(p.get_line(1, true), Some("x\n-".to_string()));
}

#[test]
fn report_quotes_the_line() {
    match Program::new("ok\n  ]") {
        Err(Error::Program(m)) => {
            assert!(m.contains("2 |   ]"));
            assert!(m.contains("  | "));
            assert!(m.contains("Line: 2, Column: 3"));
        }
        _ => panic!("expected an error"),
    }
}

#[test]
fn program_from_string_and_index() {
    let code = String::from("+[-]");
    let p = Program::try_from(&code).unwrap();
    assert_eq!(p[1].opcode, Opcode::ClearCell);
    let q = Program::try_from(code).unwrap();
    assert_eq!(q[0].opcode, Opcode::AddValue(1));
    assert!(matches!(Program::try_from(String::from("]")), Err(Error::Program(_))));
}
