//! A compiler from the snake language to x86-64 assembly text.
pub mod check;
pub mod compile;
pub mod names;
pub mod syntax;
pub mod text;
pub mod x86;
pub mod shape;
pub mod copy;
pub mod tag;
pub mod desugar;
pub mod codegen;
pub mod seqview;
pub mod anf;
pub mod uniquify;
pub mod expv;
pub mod closures;
pub mod tail;
pub mod lift;
pub mod freevars;
pub mod recur;
pub mod capture;
pub mod lambda;
pub mod checks;
pub mod pretty;
pub mod runtime;
pub mod alike;
pub mod stack;
pub mod settle;
pub mod machine;
