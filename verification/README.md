# godrick

A Brainfuck interpreter whose core is verified with Verus.

* `src/` is the verified library.
  * `machine/program.rs` parses source text into instructions (`Program::new`),
    builds error reports and quotes source lines.
  * `machine/passes.rs` holds the peephole optimiser: merging runs of moves and
    additions, and rewriting clearing, moving and scanning loops.
  * `machine/loops.rs` pairs brackets and reports the ones that do not pair up.
  * `machine/engine.rs` executes one instruction per tick (`Engine::tick`), as a
    function from the machine state and the character read for `,` to the next
    state and the byte written by `.`.
  * `machine/limb.rs` reads plugin arguments of the form `path[@offset]`.
  * `machine/balance.rs`, `machine/positions.rs` and `machine/semantics.rs`
    prove properties across these: the optimiser keeps bracket balance; every
    instruction stands on the source character it comes from; `[-]` and `[+]`
    end as `ClearCell` does, `[>n]` and `[<n]` stop where the fast scans do,
    and the moving loops end as `MoveRight` and `MoveLeft` do; two merged
    instructions do what the merged one does, and for code without loops or
    input and output the optimised program ends as the parsed one does. Other
    clearing loops (such as `[--]`) and a whole program with loops are not
    covered: `[--]` on an odd cell never ends, while `ClearCell` clears it.
  * `text.rs` and `paint.rs` hold text helpers and terminal colouring.
* `app/` is the command-line program: argument handling, reading the source,
  the run loop that performs input and output, and loading plugin libraries.
* `tests/` exercises the library on concrete programs.
