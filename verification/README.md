# nyra

The verified core of the Nyra compiler, written in Verus.

- `ast` — the syntax tree and its spans; `expr_walk` — walks over the
  expressions of statement blocks, reading or mapping them.
- `names`, `text`, `num`, `span` — name sets and maps, text and number helpers.
- `borrow`, `moves`, `checker` — the borrow checker: moved and borrowed
  bindings, the reads and borrows of expressions, and the walk over function
  bodies with non-lexical borrow expiry. The ownership analysis it consults
  (types, captures, last uses) is the `OwnershipFacts` trait, whose spec
  functions name its answers. The walk's contracts are `block_walk` (statement
  by statement) and `program_walk`; `check_statement` states a `return` by
  `return_walk` and a compound statement as the walks of its parts
  (`if_walk`, `while_walk`, `for_walk`, `spawn_walk`, `unsafe_walk`);
  inspection answers are tied to the walk by `fns_answered`. The laws
  `law_use_after_move_*`, `law_copy_stays_usable_in_walk`,
  `law_return_after_move_in_walk`, `law_use_while_borrowed_in_walk`,
  `law_assign_while_borrowed_in_walk`,
  `law_assign_after_borrows_expire_in_walk`,
  `law_borrow_ends_at_last_use_in_walk` and, over whole programs,
  `law_program_rejects_use_after_move`, `law_program_copy_stays_usable`,
  `law_program_rejects_assign_while_borrowed` and
  `law_program_borrow_ends_at_last_use` are proved from them.
- `inspect` — `nyra inspect` reports and the `--ownership-verbose` summary.
- `analysis`, `symbols`, `inlay`, `rename` — IDE services.
- `combos`, `codegen`, `lowering`, `llvm_util` — LLVM lowering helpers;
  `types_map` and `layout` — LLVM types of type annotations, struct sizes and
  field positions; `intrinsics` and `string_methods` — the calls that math
  builtins and string methods lower to; `coerce` — conversions between LLVM
  types for coercions and casts.

`tests/` exercises the library; `app/` holds what reads the host environment
or computes with floating point.
