use vstd::prelude::*;
use crate::machine::instruction::{position_text, Instruction, Opcode, Position};
use crate::error::{Error, Result};
use crate::machine::balance::law_optimized_brackets;
use crate::machine::positions::{lemma_optimized_stands, law_program_positions, stands_on_source};
use crate::machine::loops::{brackets_balanced, lemma_resolved_paired, loop_error, loops_resolved};
use crate::machine::passes::{lemma_single_moves_fit, merge_runs, rewrite, single_moves, Pass};
use crate::paint::{paint, painted, Hue};
use crate::text::{
    append_chars, append_spaces, append_str, chars_of, decimal, trim_end, trim_end_in_place, lines, push_decimal, split_lines, string_of,
};

verus! {

/// The opcode a source character stands for; other characters are comments.
pub open spec fn decode(c: char) -> Option<Opcode> {
    if c == '>' {
        Some(Opcode::Forward(1))
    } else if c == '<' {
        Some(Opcode::Reverse(1))
    } else if c == '+' {
        Some(Opcode::AddValue(1))
    } else if c == '-' {
        Some(Opcode::SubValue(1))
    } else if c == '.' {
        Some(Opcode::Output)
    } else if c == ',' {
        Some(Opcode::Input)
    } else if c == '[' {
        Some(Opcode::LoopStart(0))
    } else if c == ']' {
        Some(Opcode::LoopEnd(0))
    } else {
        None
    }
}

/// The instructions of `code` from index `i` on, where `code[i]` stands at
/// `line` and `column`: a `'\n'` starts the next line at column 1, every
/// other character takes one column, and the characters that `decode` knows
/// become instructions at their own position.
pub open spec fn parse_from(code: Seq<char>, i: int, line: nat, column: nat) -> Seq<Instruction>
    decreases code.len() - i,
{
    if i < 0 || i >= code.len() {
        seq![]
    } else if code[i] == '\n' {
        parse_from(code, i + 1, line + 1, 1)
    } else {
        match decode(code[i]) {
            Some(op) => seq![
                Instruction {
                    opcode: op,
                    position: Position { line: line as usize, column: column as usize },
                },
            ] + parse_from(code, i + 1, line, column + 1),
            None => parse_from(code, i + 1, line, column + 1),
        }
    }
}

/// The instructions of a whole source text, the first character at line 1, column 1.
pub open spec fn parse_code(code: Seq<char>) -> Seq<Instruction> {
    parse_from(code, 0, 1, 1)
}

/// A source text turned into the instruction stream that the engine runs.
pub struct Program {
    instructions: Vec<Instruction>,
    source: String,
}

/// What a program is: its instructions and the text they came from.
pub struct ProgramView {
    pub instructions: Seq<Instruction>,
    pub source: Seq<char>,
}

/// Each loop instruction of `s` points at an instruction of `s`, and the
/// two ends of a loop point at each other.
pub open spec fn jumps_paired(s: Seq<Instruction>) -> bool {
    forall|k: int|
        0 <= k < s.len() ==> match (#[trigger] s[k]).opcode {
            Opcode::LoopStart(j) => j < s.len() && s[j as int].opcode == Opcode::LoopEnd(
                k as usize,
            ),
            Opcode::LoopEnd(j) => j < s.len() && s[j as int].opcode == Opcode::LoopStart(
                k as usize,
            ),
            _ => true,
        }
}

impl View for Program {
    type V = ProgramView;

    closed spec fn view(&self) -> ProgramView {
        ProgramView { instructions: self.instructions@, source: self.source@ }
    }
}

/// The instruction stream that `Program::new` hands to loop resolution: the
/// parsed code with runs merged, then clearing loops, right-moving loops,
/// `[>n]` and `[<n]` loops rewritten, in that order.
pub open spec fn optimized_code(code: Seq<char>) -> Seq<Instruction> {
    rewrite(
        Pass::FastZeroLeft,
        rewrite(
            Pass::FastZeroRight,
            rewrite(Pass::MoveRight, rewrite(Pass::Clears, merge_runs(parse_code(code)))),
        ),
    )
}

/// The parser makes at most one instruction per character.
pub proof fn lemma_parse_length(code: Seq<char>, i: int, line: nat, column: nat)
    requires
        0 <= i,
    ensures
        parse_from(code, i, line, column).len() <= if i <= code.len() { code.len() - i } else { 0 },
    decreases code.len() - i,
{
    if i < code.len() {
        if code[i] == '\n' {
            lemma_parse_length(code, i + 1, line + 1, 1);
        } else {
            lemma_parse_length(code, i + 1, line, column + 1);
        }
    }
}

/// The parser makes every move a move by one cell.
pub proof fn lemma_parse_single_moves(code: Seq<char>, i: int, line: nat, column: nat)
    ensures
        single_moves(parse_from(code, i, line, column)),
    decreases code.len() - i,
{
    if 0 <= i < code.len() {
        if code[i] == '\n' {
            lemma_parse_single_moves(code, i + 1, line + 1, 1);
        } else {
            lemma_parse_single_moves(code, i + 1, line, column + 1);
            let rest = parse_from(code, i + 1, line, column + 1);
            match decode(code[i]) {
                Some(op) => {
                    let all = parse_from(code, i, line, column);
                    assert forall|k: int| 0 <= k < all.len() implies match (#[trigger] all[k]).opcode {
                        Opcode::Forward(n) => n == 1,
                        Opcode::Reverse(n) => n == 1,
                        _ => true,
                    } by {
                        if k > 0 {
                            assert(all[k] == rest[k - 1]);
                        }
                    }
                },
                None => {},
            }
        }
    }
}

impl Program {
    /// The opcode for a source character, as `decode` says.
    fn decode_character(c: char) -> (r: Option<Opcode>)
        ensures
            r == decode(c),
    {
        match c {
            '>' => Some(Opcode::Forward(1)),
            '<' => Some(Opcode::Reverse(1)),
            '+' => Some(Opcode::AddValue(1)),
            '-' => Some(Opcode::SubValue(1)),
            '.' => Some(Opcode::Output),
            ',' => Some(Opcode::Input),
            '[' => Some(Opcode::LoopStart(0)),
            ']' => Some(Opcode::LoopEnd(0)),
            _ => None,
        }
    }

    /// The instructions of `code`, as `parse_code` says.
    ///
    /// The counters are wider than a word: the count of lines after the last
    /// character may pass `usize::MAX`, though no instruction's position does.
    pub(crate) fn parse(code: &[char]) -> (out: Vec<Instruction>)
        ensures
            out@ == parse_code(code@),
    {
        let mut out: Vec<Instruction> = Vec::new();
        assert(code@.len() == code.len());
        let mut line: u128 = 1;
        let mut column: u128 = 1;
        let mut i: usize = 0;
        while i < code.len()
            invariant
                i <= code@.len() <= usize::MAX,
                1 <= line,
                1 <= column,
                line + column <= i + 2,
                out@ + parse_from(code@, i as int, line as nat, column as nat) == parse_code(code@),
            decreases code@.len() - i,
        {
            let c = code[i];
            let ghost rest = parse_from(code@, i + 1, line as nat, column as nat + 1);
            if c == '\n' {
                line += 1;
                column = 1;
            } else {
                match Self::decode_character(c) {
                    Some(opcode) => {
                        let ins = Instruction {
                            opcode,
                            position: Position { line: line as usize, column: column as usize },
                        };
                        assert(out@.push(ins) + rest =~= out@ + (seq![ins] + rest));
                        out.push(ins);
                    },
                    None => {},
                }
                column += 1;
            }
            i += 1;
        }
        assert(out@ + parse_from(code@, i as int, line as nat, column as nat) =~= out@);
        out
    }
}

} // verus!

verus! {

/// `n` spaces.
pub open spec fn spaces(n: nat) -> Seq<char> {
    Seq::new(n, |k: int| ' ')
}

/// The line of `src` that a report for a position on `line` quotes: line
/// numbers count from 1 (0 is read as 1), and a line past the end quotes nothing.
pub open spec fn quoted_line(src: Seq<char>, line: usize) -> Seq<char> {
    let idx = if line == 0 { 0 } else { line - 1 };
    if idx < lines(src).len() {
        lines(src)[idx]
    } else {
        seq![]
    }
}

/// An error report for `text` at `pos`, where each of its five coloured
/// pieces is coloured as `on` says:
///
/// ```text
/// <text>
///  --> Line: <line>, Column: <column>
/// <line> | <the source line>
/// <blanks> | <column - 1 blanks>^
/// ```
pub open spec fn report_layout(
    src: Seq<char>,
    text: Seq<char>,
    pos: Position,
    on: (bool, bool, bool, bool, bool),
) -> Seq<char> {
    let number = decimal(pos.line as nat);
    painted(Hue::Red, text, on.0) + seq!['\n']
        + seq![' '] + painted(Hue::Blue, "-->"@, on.1) + seq![' ']
        + painted(Hue::Blue, position_text(pos), on.2) + seq!['\n']
        + number + " | "@ + painted(Hue::White, quoted_line(src, pos.line), on.3) + seq!['\n']
        + spaces(number.len()) + " | "@ + spaces((pos.column - 1) as nat)
        + painted(Hue::Red, "^"@, on.4) + seq!['\n']
}

/// `out` is a report for `text` at `pos`, coloured or not.
pub open spec fn is_report(src: Seq<char>, text: Seq<char>, pos: Position, out: Seq<char>) -> bool {
    exists|on: (bool, bool, bool, bool, bool)| out == report_layout(src, text, pos, on)
}

/// Appends one character.
fn push_char(v: &mut Vec<char>, c: char)
    ensures
        final(v)@ == old(v)@ + seq![c],
{
    v.push(c);
    assert(final(v)@ =~= old(v)@ + seq![c]);
}

/// Appends the characters of `s`.
fn append_string(v: &mut Vec<char>, s: &String)
    ensures
        final(v)@ == old(v)@ + s@,
{
    append_str(v, s.as_str());
}

impl Program {
    /// A report for `message` at `position` in `source`, as `is_report` says.
    pub(crate) fn make_error_message(source: &[char], message: &str, position: Position) -> (r: String)
        requires
            position.column >= 1,
        ensures
            is_report(source@, message@, position, r@),
    {
        let lines = split_lines(source);
        let line_num = position.line;
        let col_num = position.column;
        let idx = line_num.saturating_sub(1);
        let src_line: Vec<char> = if idx < lines.len() {
            lines[idx].clone()
        } else {
            Vec::new()
        };
        assert(src_line@ == quoted_line(source@, line_num));
        let mut number: Vec<char> = Vec::new();
        push_decimal(&mut number, line_num);
        assert(number@ == decimal(line_num as nat));

        let p0 = paint(message, Hue::Red);
        let p1 = paint("-->", Hue::Blue);
        let position_string = position.to_string();
        let p2 = paint(position_string.as_str(), Hue::Blue);
        let line_string = string_of(src_line.as_slice());
        let p3 = paint(line_string.as_str(), Hue::White);
        let p4 = paint("^", Hue::Red);

        let ghost on = (p0@ != message@, p1@ != "-->"@, p2@ != position_text(position),
            p3@ != quoted_line(source@, line_num), p4@ != "^"@);
        assert(painted(Hue::Red, message@, on.0) == p0@);
        assert(painted(Hue::Blue, "-->"@, on.1) == p1@);
        assert(painted(Hue::Blue, position_text(position), on.2) == p2@);
        assert(painted(Hue::White, quoted_line(source@, line_num), on.3) == p3@);
        assert(painted(Hue::Red, "^"@, on.4) == p4@);
        let mut output: Vec<char> = chars_of(p0.as_str());
        push_char(&mut output, '\n');
        push_char(&mut output, ' ');
        append_string(&mut output, &p1);
        push_char(&mut output, ' ');
        append_string(&mut output, &p2);
        push_char(&mut output, '\n');
        append_chars(&mut output, number.as_slice());
        append_str(&mut output, " | ");
        append_string(&mut output, &p3);
        push_char(&mut output, '\n');
        append_spaces(&mut output, number.len());
        append_str(&mut output, " | ");
        append_spaces(&mut output, col_num - 1);
        append_string(&mut output, &p4);
        push_char(&mut output, '\n');
        assert(output@ == report_layout(source@, message@, position, on));
        string_of(output.as_slice())
    }
}

} // verus!

verus! {

impl Program {
    /// Every program keeps the two ends of each loop pointing at each other,
    /// and each instruction stands on the source character it comes from.
    #[verifier::type_invariant]
    pub open spec fn well_formed(&self) -> bool {
        &&& jumps_paired(self@.instructions)
        &&& stands_on_source(self@.instructions, self@.source)
    }

    /// Parses and optimises `code`; fails where its brackets do not pair up.
    ///
    /// The program holds the instructions of `optimized_code(code)` with each
    /// loop's two ends pointing at each other; the error reports where the
    /// brackets go wrong, as `loop_error` says.
    pub fn new(code: &str) -> (r: Result<Self>)
        ensures
            r is Ok <==> brackets_balanced(parse_code(code@)),
            r is Ok <==> brackets_balanced(optimized_code(code@)),
            r matches Ok(p) ==> p@.source == code@ && loops_resolved(
                optimized_code(code@),
                p@.instructions,
            ),
            r matches Err(e) ==> e matches Error::Program(m) && loop_error(
                code@,
                optimized_code(code@),
                m@,
            ),
    {
        let chars = chars_of(code);
        assert(code@.len() == chars.len());
        let parsed = Self::parse(chars.as_slice());
        proof {
            law_optimized_brackets(code@);
            lemma_parse_single_moves(code@, 0, 1, 1);
            lemma_parse_length(code@, 0, 1, 1);
            lemma_single_moves_fit(parse_code(code@));
            lemma_optimized_stands(code@);
        }
        let merged = Self::optimize(&parsed);
        let cleared = Self::resolve_clears(&merged);
        // The left-moving rewrite is not part of this pipeline.
        let moved = Self::resolve_move_right(&cleared);
        let right = Self::resolve_fz_right(&moved);
        let left = Self::resolve_fz_left(&right);
        let instructions = Self::resolve_loops(left, chars.as_slice())?;
        proof {
            lemma_resolved_paired(optimized_code(code@), instructions@);
            law_program_positions(code@, instructions@);
        }
        Ok(Program { instructions, source: String::from_str(code) })
    }
}

} // verus!

verus! {

/// The text `get_line` gives for an instruction on `line`: that source line
/// and, where `surrounding`, the lines before and after it, each followed
/// by a line break, with the trailing white space trimmed off.
pub open spec fn line_excerpt(src: Seq<char>, line: usize, surrounding: bool) -> Seq<char> {
    let ls = lines(src);
    let n = if line == 0 { 0 } else { line - 1 };
    let before = if surrounding && n >= 1 && n - 1 < ls.len() {
        ls[n - 1].push('\n')
    } else {
        seq![]
    };
    let current = if n < ls.len() { ls[n].push('\n') } else { seq![] };
    let after = if surrounding && n + 1 < ls.len() { ls[n + 1].push('\n') } else { seq![] };
    trim_end(before + current + after)
}

impl Program {
    /// The instructions.
    pub fn get_instructions(&self) -> (r: &[Instruction])
        ensures
            r@ == self@.instructions,
    {
        self.instructions.as_slice()
    }

    /// The number of instructions.
    pub fn len(&self) -> (n: usize)
        ensures
            n == self@.instructions.len(),
    {
        self.instructions.len()
    }

    /// Whether there are no instructions.
    pub fn is_empty(&self) -> (b: bool)
        ensures
            b == (self@.instructions.len() == 0),
    {
        self.instructions.len() == 0
    }

    /// The instruction at `index`, if there is one.
    pub fn at(&self, index: usize) -> (r: Option<&Instruction>)
        ensures
            index < self@.instructions.len() ==> r == Some(&self@.instructions[index as int]),
            index >= self@.instructions.len() ==> r is None,
    {
        if index < self.instructions.len() {
            Some(&self.instructions[index])
        } else {
            None
        }
    }

    /// The instructions, by value.
    pub fn into_instructions(self) -> (r: Vec<Instruction>)
        ensures
            r@ == self@.instructions,
    {
        self.instructions
    }

    /// The source line of the instruction at `index`, with its neighbours
    /// where `surrounding`, as `line_excerpt` says; `None` past the end.
    pub fn get_line(&self, index: usize, surrounding: bool) -> (r: Option<String>)
        ensures
            index >= self@.instructions.len() ==> r is None,
            index < self@.instructions.len() ==> (r matches Some(t) && t@ == line_excerpt(
                self@.source,
                self@.instructions[index as int].position.line,
                surrounding,
            )),
    {
        if index >= self.instructions.len() {
            return None;
        }
        let position = self.instructions[index].position;
        let line_num = position.line.saturating_sub(1);
        let source = chars_of(self.source.as_str());
        let all_lines = split_lines(source.as_slice());
        let ghost ls = lines(self.source@);

        let mut output: Vec<char> = Vec::new();
        if surrounding && line_num >= 1 && line_num - 1 < all_lines.len() {
            append_chars(&mut output, all_lines[line_num - 1].as_slice());
            output.push('\n');
        }
        let ghost before = output@;
        if line_num < all_lines.len() {
            append_chars(&mut output, all_lines[line_num].as_slice());
            output.push('\n');
        }
        let ghost middle = output@;
        if surrounding && line_num + 1 < all_lines.len() {
            append_chars(&mut output, all_lines[line_num + 1].as_slice());
            output.push('\n');
        }
        proof {
            let n = line_num as int;
            let b = if surrounding && n >= 1 && n - 1 < ls.len() { ls[n - 1].push('\n') } else { seq![] };
            let c = if n < ls.len() { ls[n].push('\n') } else { seq![] };
            let a = if surrounding && n + 1 < ls.len() { ls[n + 1].push('\n') } else { seq![] };
            assert(before =~= b);
            assert(middle =~= b + c);
            assert(output@ =~= b + c + a);
        }
        trim_end_in_place(&mut output);
        Some(string_of(output.as_slice()))
    }
}

} // verus!

verus! {

impl std::ops::Index<usize> for Program {
    type Output = Instruction;

    /// The instruction at `index`, which must be inside the program.
    fn index(&self, index: usize) -> (r: &Instruction)
        ensures
            *r == self@.instructions[index as int],
    {
        &self.instructions[index]
    }
}

impl vstd::std_specs::core::IndexSpecImpl<usize> for Program {
    open spec fn index_req(&self, index: &usize) -> bool {
        *index < self@.instructions.len()
    }
}

impl TryFrom<String> for Program {
    type Error = Error;

    /// Parses and optimises `code`, as `Program::new` does.
    fn try_from(code: String) -> (r: Result<Self>)
        ensures
            r is Ok <==> brackets_balanced(parse_code(code@)),
            r matches Ok(p) ==> p@.source == code@ && loops_resolved(
                optimized_code(code@),
                p@.instructions,
            ),
            r matches Err(e) ==> e matches Error::Program(m) && loop_error(
                code@,
                optimized_code(code@),
                m@,
            ),
    {
        Program::new(code.as_str())
    }
}

impl vstd::std_specs::convert::TryFromSpecImpl<String> for Program {
    open spec fn obeys_try_from_spec() -> bool {
        false
    }

    open spec fn try_from_spec(v: String) -> Result<Self> {
        arbitrary()
    }
}

impl<'a> TryFrom<&'a String> for Program {
    type Error = Error;

    /// Parses and optimises `code`, as `Program::new` does.
    fn try_from(code: &'a String) -> (r: Result<Self>)
        ensures
            r is Ok <==> brackets_balanced(parse_code(code@)),
            r matches Ok(p) ==> p@.source == code@ && loops_resolved(
                optimized_code(code@),
                p@.instructions,
            ),
            r matches Err(e) ==> e matches Error::Program(m) && loop_error(
                code@,
                optimized_code(code@),
                m@,
            ),
    {
        Program::new(code.as_str())
    }
}

impl<'a> vstd::std_specs::convert::TryFromSpecImpl<&'a String> for Program {
    open spec fn obeys_try_from_spec() -> bool {
        false
    }

    open spec fn try_from_spec(v: &'a String) -> Result<Self> {
        arbitrary()
    }
}

} // verus!
