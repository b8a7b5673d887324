# minimize

`minimize` compiles a Rust program with rustc and translates its MIR into a
MiniRust program, which it then pretty-prints, writes as JSON, or runs in the
MiniRust interpreter.

The translation itself is a library verified with Verus (`src/`). It works on
plain descriptions of what rustc knows: a table of types with their layouts
(`rs`), function bodies and constants (`mir`), and global allocations. Its
contracts state, over spec functions, what every type, place, value,
statement, terminator, basic block, function and program becomes in MiniRust.

- `num`, `lang`: MiniRust's integers and syntax.
- `ty`, `chunks`, `enums`, `copy`: types, union chunks, enum discriminators,
  and `Copy`-ness.
- `constant`: constants and global allocations.
- `rvalue`, `bb`, `function`, `program`: places and values, statements and
  terminators, whole bodies, and the program with its start function.
- `intern`, `vtable`: naming the functions, globals and vtables a body
  refers to.
- `jumps`, `fnrefs`: where control can go in a translated function (every
  jump names one of its blocks), and which functions translated code refers
  to (every one of them is translated).
- `args`: the tool's command line.
- `intrinsics`: the lock and thread tables behind the native intrinsics.

`app/` is the command-line tool around the library: it drives rustc, reads
the MIR into the library's plain values (`lower.rs`), builds the sysroot, and
hands the finished program to MiniRust's own printer and interpreter.
