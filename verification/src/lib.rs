//! A small compiler, verified with Verus: a lexer, a parser by precedence
//! climbing and a code generator of one pass for a minimal imperative
//! language, with a machine of fixed-format instructions as its target.
//!
//! A source text passes through the modules in this order:
//! [`preprocessor`] strips the comments, [`lexer`] splits the text into
//! tokens, [`parser`] builds the syntax trees of [`ast`], and [`codegen`]
//! lowers them to the instructions of [`inst`].
//!
//! What each step computes is a mathematical function of its input:
//! [`lexer::lex`] for the lexer, [`grammar::parse_program`] for the parser
//! and [`lowering::lower`] for the code generator. The contracts of the
//! executable functions say that they compute these functions.
//!
//! On top of that the crate proves what the functions have to do with each
//! other:
//! - [`unparse::lemma_round_trip`] and [`source::lemma_lex_source_text`]:
//!   a program written as tokens, or as a source text, is read back;
//! - [`simulation::lemma_program_runs`]: the code of a program of simple
//!   statements, run on the machine of [`machine`], computes what the
//!   direct evaluation of the source in [`semantics`] gives;
//! - [`simulation::lemma_literal_loads`] and
//!   [`simulation::lemma_mask_loads`]: the two instructions of a literal
//!   leave the literal in the register;
//! - [`lowering::lemma_lower_fails_as_walk`]: lowering fails exactly on the
//!   first use of an undeclared variable, or on an operator without
//!   instruction;
//! - [`lowering::lemma_lower_keeps_frame`], [`lowering::lemma_slots_apart`]
//!   and [`lowering::lemma_two_declarations`]: variables never share a
//!   slot;
//! - [`lowering::lemma_code_is_linear`]: the code is linear in the program;
//! - [`lowering::lemma_lowered_is_writable`]: the code can be written as
//!   text;
//! - [`lowering::lemma_parts_rebuild_word`]: the two halves of a literal
//!   make the literal.

pub mod ast;
pub mod codegen;
pub mod grammar;
pub mod inst;
pub mod io;
pub mod lexer;
pub mod lowering;
pub mod machine;
pub mod parser;
pub mod pieces;
pub mod preprocessor;
pub mod semantics;
pub mod simulation;
pub mod source;
pub mod text;
pub mod unparse;
