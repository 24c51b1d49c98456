# hack_toolchain

Two tools of the Hack computer's software stack, with their logic verified by Verus:

- `hack_assembler`: translates Hack assembly into 16-bit machine code. The line
  grammar (`parser`), the instruction tables (`code`), the symbol table
  (`symbol_table`) and the two passes of the assembler (`assembler`) each carry a
  contract over plain values (`Seq<char>`, `Map`), and `assemble` is proved to
  compute `assemble_view` on every input.
- `vm_translator`: translates the stack-machine VM language into Hack assembly.
  The command grammar (`parser`), the code of each command (`code_writer` with
  `arithmetic` and `mem_segment`) and the whole-file loop (`translator`) are
  verified the same way.
- `hack_machine`: a model of the Hack CPU running assembly lines (A and D
  registers, data memory, symbol table, labels and jumps), with laws on what the
  code of each VM command does to the stack: `push` and `pop` for every segment,
  and every arithmetic, logical and comparison command.
- `text`: character-level helpers (white space, trimming, `split_once`, decimal
  and binary notation) with their specifications and round-trip lemmas.

`app/` holds the command line programs: reading the source file, computing the
output path, and writing the result.
