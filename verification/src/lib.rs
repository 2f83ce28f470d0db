//! Verified core of the Nyra compiler: the AST model, the borrow checker
//! (move and borrow bookkeeping, the walk over function bodies, ownership
//! inspection reports), IDE analysis (symbols, hover, completion, inlay
//! hints, rename) and LLVM lowering helpers (type and operand texts, runtime
//! declarations, IR post-processing).
pub mod text;
pub mod num;
pub mod span;
pub mod ast;
pub mod expr_walk;
pub mod names;
pub mod borrow;
pub mod inspect;
pub mod analysis;
pub mod rename;
pub mod inlay;
pub mod combos;
pub mod moves;
pub mod checker;
pub mod codegen;
pub mod lowering;
pub mod symbols;
pub mod llvm_util;
pub mod types_map;
pub mod layout;
pub mod intrinsics;
pub mod string_methods;
pub mod coerce;
